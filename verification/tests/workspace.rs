use robodeck::keyed::insert_key;
use robodeck::workspace::{
    node_summary, ordered_zones, root_zone_ids, sorted_child_zone_ids, uses_local_coords,
    workspace_center, zone_depth, CoordMode, JsonPoint, WorkspaceJson, ZoneJson,
};
use robodeck::graph::insert_node;
use robodeck::inspector::rename_zone;
use robodeck::zone_edit::insert_zone;

fn pt(lat: f64, lon: f64) -> JsonPoint {
    JsonPoint { lat: lat.to_bits(), lon: lon.to_bits() }
}

fn square() -> Vec<JsonPoint> {
    vec![pt(0.0, 0.0), pt(0.0, 1.0), pt(1.0, 1.0), pt(1.0, 0.0)]
}

fn sample() -> WorkspaceJson {
    let mut ws = WorkspaceJson::default();
    insert_zone(&mut ws, "root".to_string(), square(), None);
    insert_zone(&mut ws, "b".to_string(), square(), Some("root".to_string()));
    insert_zone(&mut ws, "a".to_string(), square(), Some("root".to_string()));
    insert_zone(&mut ws, "c".to_string(), square(), Some("b".to_string()));
    ws
}

fn orphan(id: &str, name: &str) -> ZoneJson {
    ZoneJson {
        id: id.to_string(),
        name: name.to_string(),
        zone_type: "zone".to_string(),
        parent_id: String::new(),
        child_ids: Vec::new(),
        node_ids: Vec::new(),
        polygon_latlon: square(),
        grid_enabled: false,
        grid_resolution: 1.0f64.to_bits(),
        properties: Vec::new(),
    }
}

#[test]
fn default_workspace() {
    let ws = WorkspaceJson::default();
    assert_eq!(ws.name, "Workspace");
    assert_eq!(ws.root_zone_id, "");
    assert_eq!(ws.coord_mode, CoordMode::Global);
    assert!(ws.ref_point.is_none());
    assert!(!ws.local_ref);
    assert_eq!(ws.datum, Some(pt(52.0, 5.0)));
    assert!(ws.zones.is_empty() && ws.nodes.is_empty() && ws.edges.is_empty());
    assert_eq!(CoordMode::default(), CoordMode::Global);
}

#[test]
fn zones_in_tree_order() {
    let ws = sample();
    let ids: Vec<String> = ordered_zones(&ws).into_iter().map(|z| z.id).collect();
    assert_eq!(ids, vec!["root", "b", "c", "a"]);
}

#[test]
fn tree_order_is_empty_without_a_root() {
    let mut ws = sample();
    ws.root_zone_id = String::new();
    assert!(ordered_zones(&ws).is_empty());
}

#[test]
fn tree_order_visits_each_zone_once() {
    let mut ws = sample();
    // "c" lists the root as a child as well: a cycle.
    let i = ws.zones.iter().position(|(k, _)| k == "c").unwrap();
    ws.zones[i].1.child_ids.push("root".to_string());
    let ids: Vec<String> = ordered_zones(&ws).into_iter().map(|z| z.id).collect();
    assert_eq!(ids, vec!["root", "b", "c", "a"]);
}

#[test]
fn depths() {
    let ws = sample();
    assert_eq!(zone_depth(&ws, "root"), 0);
    assert_eq!(zone_depth(&ws, "b"), 1);
    assert_eq!(zone_depth(&ws, "c"), 2);
    assert_eq!(zone_depth(&ws, "missing"), 0);
}

#[test]
fn roots_then_orphans_by_name() {
    let mut ws = sample();
    insert_key(&mut ws.zones, "o1".to_string(), orphan("o1", "Zulu"));
    insert_key(&mut ws.zones, "o2".to_string(), orphan("o2", "Alpha"));
    insert_key(&mut ws.zones, "o3".to_string(), orphan("o3", "Alpha"));
    assert_eq!(root_zone_ids(&ws), vec!["root", "o2", "o3", "o1"]);
    ws.root_zone_id = "gone".to_string();
    assert_eq!(root_zone_ids(&ws), vec!["o2", "o3", "root", "o1"]);
}

#[test]
fn children_by_name() {
    let mut ws = sample();
    assert_eq!(sorted_child_zone_ids(&ws, "root"), vec!["b", "a"]);
    rename_zone(&mut ws, "a", "Alpha".to_string());
    assert_eq!(sorted_child_zone_ids(&ws, "root"), vec!["a", "b"]);
    assert_eq!(sorted_child_zone_ids(&ws, "b"), vec!["c"]);
    assert!(sorted_child_zone_ids(&ws, "c").is_empty());
}

#[test]
fn local_coordinates_need_a_reference_point() {
    let mut ws = WorkspaceJson::default();
    assert!(!uses_local_coords(&ws));
    ws.coord_mode = CoordMode::Local;
    assert!(!uses_local_coords(&ws));
    ws.ref_point = Some(pt(1.0, 2.0));
    assert!(uses_local_coords(&ws));
    ws.coord_mode = CoordMode::Global;
    ws.local_ref = true;
    assert!(uses_local_coords(&ws));
}

#[test]
fn map_centre() {
    let mut ws = WorkspaceJson::default();
    assert_eq!(workspace_center(&ws), pt(52.0, 5.0));
    ws.datum = None;
    assert_eq!(workspace_center(&ws), pt(52.0, 5.0));
    ws.ref_point = Some(pt(10.0, 20.0));
    assert_eq!(workspace_center(&ws), pt(10.0, 20.0));
    ws.datum = Some(pt(30.0, 40.0));
    assert_eq!(workspace_center(&ws), pt(30.0, 40.0));
}

#[test]
fn node_summaries() {
    let mut ws = WorkspaceJson::default();
    insert_node(&mut ws, "n1".to_string(), pt(0.5, 0.5));
    assert_eq!(node_summary(&ws, "n1"), "Node 1");
    assert_eq!(node_summary(&ws, "zz"), "zz");
}
