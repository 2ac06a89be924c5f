use robodeck::graph::{
    insert_edge, insert_node, pick_node_for_edge, place_node_at, remove_edge_by_id, remove_node_by_id,
    EdgePick,
};
use robodeck::inspector::{
    rename_zone, reverse_edge, set_datum_axis, set_edge_directed, set_edge_flag, set_edge_prop,
    set_edge_properties_text, set_edge_source, set_edge_target, set_edge_weight, set_edge_zones_text,
    set_reference_mode, set_reference_point, set_zone_flag, set_zone_grid_enabled,
    set_zone_grid_resolution, set_zone_polygon, set_zone_prop, set_zone_properties_text, set_zone_type,
};
use robodeck::node_edit::{
    move_node, normalize_workspace_json, rename_node, set_node_properties_text, set_node_zones_text,
};
use robodeck::props::{get_bool_prop, get_prop};
use robodeck::workspace::{CoordMode, EdgeJson, JsonPoint, NodeJson, WorkspaceJson, ZoneJson};
use robodeck::zone_edit::{
    detach_zone, finish_zone_draft, insert_zone, insert_zone_vertex, reassign_root, remove_zone,
    remove_zone_vertex, zone_placement_allowed, ZoneDraftError,
};

fn pt(lat: f64, lon: f64) -> JsonPoint {
    JsonPoint { lat: lat.to_bits(), lon: lon.to_bits() }
}

fn square() -> Vec<JsonPoint> {
    vec![pt(0.0, 0.0), pt(0.0, 1.0), pt(1.0, 1.0), pt(1.0, 0.0)]
}

fn zone<'a>(ws: &'a WorkspaceJson, id: &str) -> &'a ZoneJson {
    &ws.zones.iter().find(|(k, _)| k == id).unwrap().1
}

fn node<'a>(ws: &'a WorkspaceJson, id: &str) -> &'a NodeJson {
    &ws.nodes.iter().find(|(k, _)| k == id).unwrap().1
}

fn edge<'a>(ws: &'a WorkspaceJson, id: &str) -> &'a EdgeJson {
    &ws.edges.iter().find(|(k, _)| k == id).unwrap().1
}

fn keys<T>(v: &[(String, T)]) -> Vec<String> {
    v.iter().map(|(k, _)| k.clone()).collect()
}

fn is_uuid_v4(s: &str) -> bool {
    s.len() == 36
        && s.chars().enumerate().all(|(i, c)| match i {
            8 | 13 | 18 | 23 => c == '-',
            14 => c == '4',
            _ => c.is_ascii_digit() || ('a'..='f').contains(&c),
        })
}

fn graph() -> WorkspaceJson {
    let mut ws = WorkspaceJson::default();
    insert_node(&mut ws, "n1".to_string(), pt(0.1, 0.1));
    insert_node(&mut ws, "n2".to_string(), pt(0.2, 0.2));
    insert_node(&mut ws, "n3".to_string(), pt(0.3, 0.3));
    insert_edge(&mut ws, "e1".to_string(), "n1", "n2");
    insert_edge(&mut ws, "e2".to_string(), "n2", "n3");
    insert_edge(&mut ws, "e3".to_string(), "n3", "n1");
    ws
}

#[test]
fn placed_nodes_are_named_by_count() {
    let mut ws = WorkspaceJson::default();
    let id = place_node_at(&mut ws, pt(1.0, 2.0));
    assert!(is_uuid_v4(&id));
    let n = node(&ws, &id);
    assert_eq!(n.id, id);
    assert_eq!(n.name, "Node 1");
    assert_eq!(n.latlon, pt(1.0, 2.0));
    assert_eq!(get_prop(&n.properties, "name"), "Node 1");
    let id2 = place_node_at(&mut ws, pt(3.0, 4.0));
    assert_eq!(node(&ws, &id2).name, "Node 2");
}

#[test]
fn new_edges_are_directed_with_weight_one() {
    let ws = graph();
    let e = edge(&ws, "e1");
    assert_eq!(e.source_id, "n1");
    assert_eq!(e.target_id, "n2");
    assert!(e.directed);
    assert_eq!(e.weight, 1.0f64.to_bits());
    assert!(e.zone_ids.is_empty() && e.properties.is_empty());
}

#[test]
fn picking_nodes_draws_an_edge() {
    let mut ws = graph();
    let mut pending = String::new();
    assert!(matches!(pick_node_for_edge(&mut ws, &mut pending, "n1"), EdgePick::SourceChosen));
    assert_eq!(pending, "n1");
    assert!(matches!(pick_node_for_edge(&mut ws, &mut pending, "n1"), EdgePick::Ignored));
    assert_eq!(ws.edges.len(), 3);
    match pick_node_for_edge(&mut ws, &mut pending, "n3") {
        EdgePick::Created(id) => {
            assert!(is_uuid_v4(&id));
            let e = edge(&ws, &id);
            assert_eq!((e.source_id.as_str(), e.target_id.as_str()), ("n1", "n3"));
        }
        _ => panic!("expected an edge"),
    }
    assert_eq!(pending, "");
    assert_eq!(ws.edges.len(), 4);
}

#[test]
fn removing_a_node_removes_its_edges() {
    let mut ws = graph();
    remove_node_by_id(&mut ws, "n2");
    assert_eq!(keys(&ws.nodes), vec!["n1", "n3"]);
    assert_eq!(keys(&ws.edges), vec!["e3"]);
    for (_, e) in &ws.edges {
        assert!(e.source_id != "n2" && e.target_id != "n2");
    }
}

#[test]
fn removing_an_edge() {
    let mut ws = graph();
    remove_edge_by_id(&mut ws, "e2");
    assert_eq!(keys(&ws.edges), vec!["e1", "e3"]);
    remove_edge_by_id(&mut ws, "nope");
    assert_eq!(keys(&ws.edges), vec!["e1", "e3"]);
    assert_eq!(keys(&ws.nodes), vec!["n1", "n2", "n3"]);
}

#[test]
fn drawing_zones() {
    let mut ws = WorkspaceJson::default();
    assert!(zone_placement_allowed(&ws, None));
    let err = finish_zone_draft(&mut ws, vec![pt(0.0, 0.0), pt(1.0, 1.0)], None).err().unwrap();
    assert_eq!(err, ZoneDraftError::TooFewPoints);
    assert_eq!(err.message(), "Need at least 3 points before the zone can be created.");
    assert!(ws.zones.is_empty());

    let root = finish_zone_draft(&mut ws, square(), None).ok().unwrap();
    assert!(is_uuid_v4(&root));
    assert_eq!(ws.root_zone_id, root);
    let z = zone(&ws, &root);
    assert_eq!(z.name, "Root Zone");
    assert_eq!(z.zone_type, "root");
    assert_eq!(z.parent_id, "");
    assert!(!z.grid_enabled);
    assert_eq!(z.grid_resolution, 1.0f64.to_bits());
    assert!(!zone_placement_allowed(&ws, None));
    assert!(zone_placement_allowed(&ws, Some(&root)));

    let child = finish_zone_draft(&mut ws, square(), Some(root.clone())).ok().unwrap();
    let c = zone(&ws, &child);
    assert_eq!(c.name, "Zone 2");
    assert_eq!(c.zone_type, "zone");
    assert_eq!(c.parent_id, root);
    assert_eq!(zone(&ws, &root).child_ids, vec![child.clone()]);
}

#[test]
fn a_child_of_a_missing_parent_is_still_stored() {
    let mut ws = WorkspaceJson::default();
    insert_zone(&mut ws, "z".to_string(), square(), Some("ghost".to_string()));
    assert_eq!(zone(&ws, "z").parent_id, "ghost");
    assert_eq!(zone(&ws, "z").name, "Zone 1");
    assert_eq!(ws.root_zone_id, "");
}

#[test]
fn zone_vertices() {
    let mut ws = WorkspaceJson::default();
    insert_zone(&mut ws, "z".to_string(), square(), None);
    insert_zone_vertex(&mut ws, "z", 2, pt(0.5, 1.5));
    assert_eq!(zone(&ws, "z").polygon_latlon.len(), 5);
    assert_eq!(zone(&ws, "z").polygon_latlon[2], pt(0.5, 1.5));
    remove_zone_vertex(&mut ws, "z", 0);
    assert_eq!(zone(&ws, "z").polygon_latlon[0], pt(0.0, 1.0));
    remove_zone_vertex(&mut ws, "z", 9);
    assert_eq!(zone(&ws, "z").polygon_latlon.len(), 4);
    remove_zone_vertex(&mut ws, "z", 0);
    assert_eq!(zone(&ws, "z").polygon_latlon.len(), 3);
    remove_zone_vertex(&mut ws, "z", 0);
    assert_eq!(zone(&ws, "z").polygon_latlon.len(), 3);
    remove_zone_vertex(&mut ws, "missing", 0);
    insert_zone_vertex(&mut ws, "missing", 0, pt(9.0, 9.0));
    assert_eq!(ws.zones.len(), 1);
}

fn hierarchy() -> WorkspaceJson {
    let mut ws = WorkspaceJson::default();
    insert_zone(&mut ws, "root".to_string(), square(), None);
    insert_zone(&mut ws, "mid".to_string(), square(), Some("root".to_string()));
    insert_zone(&mut ws, "leaf".to_string(), square(), Some("mid".to_string()));
    insert_zone(&mut ws, "side".to_string(), square(), Some("root".to_string()));
    ws
}

#[test]
fn removing_a_middle_zone() {
    let mut ws = hierarchy();
    remove_zone(&mut ws, "mid");
    assert_eq!(keys(&ws.zones), vec!["leaf", "root", "side"]);
    assert_eq!(zone(&ws, "root").child_ids, vec!["side"]);
    assert_eq!(zone(&ws, "leaf").parent_id, "");
    assert_eq!(ws.root_zone_id, "root");
}

#[test]
fn removing_the_root_zone_promotes_the_first_top_level_zone() {
    let mut ws = hierarchy();
    remove_zone(&mut ws, "root");
    assert_eq!(keys(&ws.zones), vec!["leaf", "mid", "side"]);
    assert_eq!(zone(&ws, "mid").parent_id, "");
    assert_eq!(zone(&ws, "side").parent_id, "");
    // "mid" is "Zone 2", "side" is "Zone 4": by name, "mid" comes first.
    assert_eq!(ws.root_zone_id, "mid");
}

#[test]
fn removing_the_last_zone_clears_the_root() {
    let mut ws = WorkspaceJson::default();
    insert_zone(&mut ws, "only".to_string(), square(), None);
    remove_zone(&mut ws, "only");
    assert!(ws.zones.is_empty());
    assert_eq!(ws.root_zone_id, "");
}

#[test]
fn removing_a_missing_zone_changes_nothing() {
    let mut ws = hierarchy();
    assert!(!detach_zone(&mut ws, "nope"));
    remove_zone(&mut ws, "nope");
    assert_eq!(keys(&ws.zones), vec!["leaf", "mid", "root", "side"]);
    reassign_root(&mut ws, "nope");
    assert_eq!(ws.root_zone_id, "root");
}

#[test]
fn node_edits() {
    let mut ws = graph();
    insert_zone(&mut ws, "z1".to_string(), square(), None);
    rename_node(&mut ws, "n1", "Dock".to_string());
    assert_eq!(node(&ws, "n1").name, "Dock");
    assert_eq!(get_prop(&node(&ws, "n1").properties, "name"), "Dock");
    move_node(&mut ws, "n1", pt(5.0, 6.0));
    assert_eq!(node(&ws, "n1").latlon, pt(5.0, 6.0));
    set_node_zones_text(&mut ws, "n1", "Root Zone (z1)\nzz\nz1");
    assert_eq!(node(&ws, "n1").zone_ids, vec!["z1"]);
    set_node_properties_text(&mut ws, "n1", "a=1\nname=Other");
    assert_eq!(get_prop(&node(&ws, "n1").properties, "a"), "1");
    assert_eq!(get_prop(&node(&ws, "n1").properties, "name"), "Dock");
    rename_node(&mut ws, "missing", "X".to_string());
    assert_eq!(ws.nodes.len(), 3);
}

#[test]
fn loading_normalizes_names_and_mode() {
    let mut ws = graph();
    let i = ws.nodes.iter().position(|(k, _)| k == "n1").unwrap();
    ws.nodes[i].1.name = "  ".to_string();
    let j = ws.nodes.iter().position(|(k, _)| k == "n2").unwrap();
    ws.nodes[j].1.name = " ".to_string();
    ws.nodes[j].1.properties.clear();
    let k = ws.nodes.iter().position(|(k, _)| k == "n3").unwrap();
    ws.nodes[k].1.name = "Gate".to_string();
    ws.local_ref = true;
    normalize_workspace_json(&mut ws);
    assert_eq!(ws.coord_mode, CoordMode::Local);
    assert!(ws.local_ref);
    assert_eq!(node(&ws, "n1").name, "Node 1");
    assert_eq!(node(&ws, "n2").name, "Node");
    assert_eq!(node(&ws, "n3").name, "Gate");
    assert_eq!(get_prop(&node(&ws, "n3").properties, "name"), "Gate");

    let mut g = WorkspaceJson::default();
    g.coord_mode = CoordMode::Local;
    normalize_workspace_json(&mut g);
    assert_eq!(g.coord_mode, CoordMode::Local);
    assert!(g.local_ref);
    let mut h = WorkspaceJson::default();
    normalize_workspace_json(&mut h);
    assert_eq!(h.coord_mode, CoordMode::Global);
    assert!(!h.local_ref);
}

#[test]
fn zone_inspector_edits() {
    let mut ws = WorkspaceJson::default();
    insert_zone(&mut ws, "z".to_string(), square(), None);
    rename_zone(&mut ws, "z", "Yard".to_string());
    set_zone_type(&mut ws, "z", "parking".to_string());
    set_zone_grid_enabled(&mut ws, "z", true);
    set_zone_grid_resolution(&mut ws, "z", 0.5f64.to_bits());
    set_zone_polygon(&mut ws, "z", vec![pt(0.0, 0.0), pt(2.0, 0.0), pt(2.0, 2.0)]);
    set_zone_prop(&mut ws, "z", "traffic.policy", " fifo ".to_string());
    set_zone_flag(&mut ws, "z", "traffic.blocked", true);
    let z = zone(&ws, "z");
    assert_eq!(z.name, "Yard");
    assert_eq!(z.zone_type, "parking");
    assert!(z.grid_enabled);
    assert_eq!(z.grid_resolution, 0.5f64.to_bits());
    assert_eq!(z.polygon_latlon.len(), 3);
    assert_eq!(get_prop(&z.properties, "traffic.policy"), "fifo");
    assert!(get_bool_prop(&z.properties, "traffic.blocked"));
    set_zone_properties_text(&mut ws, "z", "speed=5");
    assert_eq!(zone(&ws, "z").properties, vec![("speed".to_string(), "5".to_string())]);
}

#[test]
fn edge_inspector_edits() {
    let mut ws = graph();
    insert_zone(&mut ws, "z1".to_string(), square(), None);
    reverse_edge(&mut ws, "e1");
    assert_eq!((edge(&ws, "e1").source_id.as_str(), edge(&ws, "e1").target_id.as_str()), ("n2", "n1"));
    set_edge_source(&mut ws, "e1", "  n3 ");
    set_edge_target(&mut ws, "e1", "n2");
    assert_eq!(edge(&ws, "e1").source_id, "n3");
    assert_eq!(edge(&ws, "e1").target_id, "n2");
    set_edge_directed(&mut ws, "e1", false);
    assert!(!edge(&ws, "e1").directed);
    set_edge_weight(&mut ws, "e1", 2.5f64.to_bits());
    assert_eq!(edge(&ws, "e1").weight, 2.5f64.to_bits());
    set_edge_zones_text(&mut ws, "e1", "z1\nmissing");
    assert_eq!(edge(&ws, "e1").zone_ids, vec!["z1"]);
    set_edge_prop(&mut ws, "e1", "traffic.lane_type", "bus".to_string());
    set_edge_flag(&mut ws, "e1", "traffic.no_stop", true);
    assert_eq!(get_prop(&edge(&ws, "e1").properties, "traffic.lane_type"), "bus");
    assert!(get_bool_prop(&edge(&ws, "e1").properties, "traffic.no_stop"));
    set_edge_properties_text(&mut ws, "e1", "");
    assert!(edge(&ws, "e1").properties.is_empty());
    reverse_edge(&mut ws, "missing");
    assert_eq!(ws.edges.len(), 3);
}

#[test]
fn workspace_settings() {
    let mut ws = WorkspaceJson::default();
    set_reference_mode(&mut ws, true);
    assert_eq!(ws.coord_mode, CoordMode::Local);
    assert!(ws.local_ref);
    set_reference_mode(&mut ws, false);
    assert_eq!(ws.coord_mode, CoordMode::Global);
    assert!(!ws.local_ref);

    set_reference_point(&mut ws, pt(1.0, 2.0));
    assert_eq!(ws.ref_point, Some(pt(1.0, 2.0)));
    assert_eq!(ws.datum, Some(pt(52.0, 5.0)));
    ws.datum = None;
    set_reference_point(&mut ws, pt(3.0, 4.0));
    assert_eq!(ws.datum, Some(pt(3.0, 4.0)));

    set_datum_axis(&mut ws, Some(7.0f64.to_bits()), true);
    assert_eq!(ws.datum, Some(pt(7.0, 4.0)));
    set_datum_axis(&mut ws, Some(8.0f64.to_bits()), false);
    assert_eq!(ws.datum, Some(pt(7.0, 8.0)));
    set_datum_axis(&mut ws, None, true);
    assert_eq!(ws.datum, None);
    set_datum_axis(&mut ws, Some(1.0f64.to_bits()), false);
    assert_eq!(ws.datum, Some(pt(52.0, 1.0)));
}

#[test]
fn dragging_a_zone_vertex() {
    let mut ws = WorkspaceJson::default();
    insert_zone(&mut ws, "z".to_string(), square(), None);
    robodeck::zone_edit::move_zone_vertex(&mut ws, "z", 1, pt(0.0, 3.0));
    assert_eq!(zone(&ws, "z").polygon_latlon[1], pt(0.0, 3.0));
    robodeck::zone_edit::move_zone_vertex(&mut ws, "z", 4, pt(9.0, 9.0));
    assert_eq!(zone(&ws, "z").polygon_latlon.len(), 4);
    assert!(!zone(&ws, "z").polygon_latlon.contains(&pt(9.0, 9.0)));
}

#[test]
fn well_formedness_check() {
    let mut ws = graph();
    assert!(robodeck::workspace::is_well_formed(&ws));
    ws.nodes.swap(0, 1);
    assert!(!robodeck::workspace::is_well_formed(&ws));
    assert!(robodeck::keyed::keys_in_order::<u8>(&vec![]));
    assert!(!robodeck::keyed::keys_in_order(&vec![("a".to_string(), 1u8), ("a".to_string(), 2u8)]));
}

#[test]
fn reversing_an_edge_twice_restores_it() {
    let mut ws = graph();
    set_edge_prop(&mut ws, "e1", "lane", "left".to_string());
    let before = edge(&ws, "e1").clone();
    reverse_edge(&mut ws, "e1");
    assert_eq!(edge(&ws, "e1").source_id, before.target_id);
    reverse_edge(&mut ws, "e1");
    let after = edge(&ws, "e1");
    assert_eq!(after.source_id, before.source_id);
    assert_eq!(after.target_id, before.target_id);
    assert_eq!(after.directed, before.directed);
    assert_eq!(after.weight, before.weight);
    assert_eq!(after.properties, before.properties);
    assert_eq!(ws.edges.len(), 3);
}
