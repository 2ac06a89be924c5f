use robodeck::graph::{insert_edge, insert_node};
use robodeck::props::get_prop;
use robodeck::sync::sync_associations;
use robodeck::workspace::{ordered_zones, EdgeJson, JsonPoint, NodeJson, WorkspaceJson, ZoneJson};
use robodeck::zone_edit::insert_zone;

fn pt(lat: f64, lon: f64) -> JsonPoint {
    JsonPoint { lat: lat.to_bits(), lon: lon.to_bits() }
}

fn square() -> Vec<JsonPoint> {
    vec![pt(0.0, 0.0), pt(0.0, 1.0), pt(1.0, 1.0), pt(1.0, 0.0)]
}

fn zone<'a>(ws: &'a WorkspaceJson, id: &str) -> &'a ZoneJson {
    &ws.zones.iter().find(|(k, _)| k == id).unwrap().1
}

fn node<'a>(ws: &'a WorkspaceJson, id: &str) -> &'a NodeJson {
    &ws.nodes.iter().find(|(k, _)| k == id).unwrap().1
}

fn edge<'a>(ws: &'a WorkspaceJson, id: &str) -> &'a EdgeJson {
    &ws.edges.iter().find(|(k, _)| k == id).unwrap().1
}

/// root -> {west, east}; n1 in root and west, n2 in root and east, n3 in
/// root only; e1: n1 -> n2, e2: n3 -> ghost.
fn site() -> WorkspaceJson {
    let mut ws = WorkspaceJson::default();
    insert_zone(&mut ws, "root".to_string(), square(), None);
    insert_zone(&mut ws, "west".to_string(), square(), Some("root".to_string()));
    insert_zone(&mut ws, "east".to_string(), square(), Some("root".to_string()));
    insert_node(&mut ws, "n1".to_string(), pt(0.5, 0.2));
    insert_node(&mut ws, "n2".to_string(), pt(0.5, 0.8));
    insert_node(&mut ws, "n3".to_string(), pt(0.9, 0.5));
    insert_edge(&mut ws, "e1".to_string(), "n1", "n2");
    insert_edge(&mut ws, "e2".to_string(), "n3", "ghost");
    ws
}

fn flags(ws: &WorkspaceJson) -> Vec<Vec<bool>> {
    // Tree order: root, west, east.
    let order: Vec<String> = ordered_zones(ws).into_iter().map(|z| z.id).collect();
    assert_eq!(order, vec!["root", "west", "east"]);
    vec![
        vec![true, true, false],
        vec![true, false, true],
        vec![true, false, false],
    ]
}

#[test]
fn nodes_zones_and_edges_agree_after_a_sync() {
    let mut ws = site();
    let inside = flags(&ws);
    sync_associations(&mut ws, &inside);
    assert_eq!(node(&ws, "n1").zone_ids, vec!["root", "west"]);
    assert_eq!(node(&ws, "n2").zone_ids, vec!["root", "east"]);
    assert_eq!(node(&ws, "n3").zone_ids, vec!["root"]);
    assert_eq!(zone(&ws, "root").node_ids, vec!["n1", "n2", "n3"]);
    assert_eq!(zone(&ws, "west").node_ids, vec!["n1"]);
    assert_eq!(zone(&ws, "east").node_ids, vec!["n2"]);
    assert_eq!(edge(&ws, "e1").zone_ids, vec!["east", "root", "west"]);
    assert_eq!(edge(&ws, "e2").zone_ids, vec!["root"]);
    assert_eq!(get_prop(&node(&ws, "n1").properties, "name"), "Node 1");

    // Every zone lists a node exactly when the node lists the zone.
    for (zk, z) in &ws.zones {
        for (nk, n) in &ws.nodes {
            assert_eq!(z.node_ids.contains(nk), n.zone_ids.contains(zk));
        }
    }
}

#[test]
fn a_sync_replaces_stale_lists() {
    let mut ws = site();
    let inside = flags(&ws);
    sync_associations(&mut ws, &inside);
    let none = vec![vec![false; 3]; 3];
    sync_associations(&mut ws, &none);
    for (_, z) in &ws.zones {
        assert!(z.node_ids.is_empty());
    }
    for (_, n) in &ws.nodes {
        assert!(n.zone_ids.is_empty());
    }
    for (_, e) in &ws.edges {
        assert!(e.zone_ids.is_empty());
    }
}

#[test]
fn syncing_sets_the_name_property() {
    let mut ws = site();
    let i = ws.nodes.iter().position(|(k, _)| k == "n2").unwrap();
    ws.nodes[i].1.name = "Gate".to_string();
    let inside = flags(&ws);
    sync_associations(&mut ws, &inside);
    assert_eq!(get_prop(&node(&ws, "n2").properties, "name"), "Gate");
}

#[test]
fn a_second_sync_changes_nothing() {
    let mut ws = site();
    let inside = flags(&ws);
    sync_associations(&mut ws, &inside);
    let once: Vec<(Vec<String>, Vec<(String, String)>)> =
        ws.nodes.iter().map(|(_, n)| (n.zone_ids.clone(), n.properties.clone())).collect();
    let zones_once: Vec<Vec<String>> = ws.zones.iter().map(|(_, z)| z.node_ids.clone()).collect();
    let edges_once: Vec<Vec<String>> = ws.edges.iter().map(|(_, e)| e.zone_ids.clone()).collect();
    sync_associations(&mut ws, &inside);
    let twice: Vec<(Vec<String>, Vec<(String, String)>)> =
        ws.nodes.iter().map(|(_, n)| (n.zone_ids.clone(), n.properties.clone())).collect();
    assert_eq!(once, twice);
    assert_eq!(zones_once, ws.zones.iter().map(|(_, z)| z.node_ids.clone()).collect::<Vec<_>>());
    assert_eq!(edges_once, ws.edges.iter().map(|(_, e)| e.zone_ids.clone()).collect::<Vec<_>>());
}

#[test]
fn unreached_zones_list_no_nodes() {
    let mut ws = site();
    insert_zone(&mut ws, "stray".to_string(), square(), Some("nowhere".to_string()));
    let inside = flags(&ws);
    sync_associations(&mut ws, &inside);
    assert!(zone(&ws, "stray").node_ids.is_empty());
    assert!(ws.nodes.iter().all(|(_, n)| !n.zone_ids.contains(&"stray".to_string())));
    assert_eq!(zone(&ws, "root").node_ids, vec!["n1", "n2", "n3"]);
}

#[test]
fn tree_order_starts_at_the_root() {
    let ws = site();
    assert_eq!(ordered_zones(&ws)[0].id, ws.root_zone_id);
    assert!(ordered_zones(&WorkspaceJson::default()).is_empty());
}
