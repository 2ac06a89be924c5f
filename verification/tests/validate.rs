use robodeck::graph::{insert_edge, insert_node};
use robodeck::inspector::set_edge_weight;
use robodeck::validate::validation_messages;
use robodeck::workspace::{CoordMode, JsonPoint, WorkspaceJson};
use robodeck::zone_edit::insert_zone;

fn pt(lat: f64, lon: f64) -> JsonPoint {
    JsonPoint { lat: lat.to_bits(), lon: lon.to_bits() }
}

fn triangle() -> Vec<JsonPoint> {
    vec![pt(0.0, 0.0), pt(0.0, 1.0), pt(1.0, 1.0)]
}

#[test]
fn a_clean_workspace_has_no_messages() {
    let mut ws = WorkspaceJson::default();
    insert_zone(&mut ws, "root".to_string(), triangle(), None);
    insert_zone(&mut ws, "child".to_string(), triangle(), Some("root".to_string()));
    insert_node(&mut ws, "n1".to_string(), pt(0.1, 0.1));
    insert_node(&mut ws, "n2".to_string(), pt(0.2, 0.2));
    insert_edge(&mut ws, "e1".to_string(), "n1", "n2");
    assert!(validation_messages(&ws, &[3, 3]).is_empty());
}

#[test]
fn workspace_level_messages() {
    let mut ws = WorkspaceJson::default();
    ws.name = "  ".to_string();
    ws.coord_mode = CoordMode::Local;
    ws.datum = None;
    ws.root_zone_id = "ghost".to_string();
    assert_eq!(
        validation_messages(&ws, &[]),
        vec![
            "Workspace name is empty.",
            "Root zone id does not point to an existing zone.",
        ]
    );
}

#[test]
fn zone_messages() {
    let mut ws = WorkspaceJson::default();
    insert_zone(&mut ws, "a".to_string(), vec![pt(0.0, 0.0), pt(1.0, 1.0)], Some("p".to_string()));
    let i = ws.zones.iter().position(|(k, _)| k == "a").unwrap();
    ws.zones[i].1.child_ids = vec!["x".to_string()];
    ws.zones[i].1.node_ids = vec!["n9".to_string()];
    let msgs = validation_messages(&ws, &[2]);
    assert_eq!(
        msgs,
        vec![
            "Zone 'Zone 1' has fewer than 3 polygon points.",
            "Zone 'Zone 1' has fewer than 3 unique polygon points.",
            "Zone 'Zone 1' has a missing parent 'p'.",
            "Zone 'Zone 1' references missing child 'x'.",
            "Zone 'Zone 1' references missing node 'n9'.",
        ]
    );
}

#[test]
fn hierarchy_mismatch_messages() {
    let mut ws = WorkspaceJson::default();
    insert_zone(&mut ws, "root".to_string(), triangle(), None);
    insert_zone(&mut ws, "kid".to_string(), triangle(), Some("root".to_string()));
    let i = ws.zones.iter().position(|(k, _)| k == "kid").unwrap();
    ws.zones[i].1.parent_id = "root2".to_string();
    insert_zone(&mut ws, "root2".to_string(), triangle(), Some("root".to_string()));
    let msgs = validation_messages(&ws, &[3, 3, 3]);
    assert_eq!(
        msgs,
        vec![
            "Zone 'Zone 2' points to parent 'root2' but is missing from that parent's child_ids.",
            "Zone 'Root Zone' lists child 'kid' but that child does not point back with matching parent_id.",
        ]
    );
}

#[test]
fn node_and_edge_messages() {
    let mut ws = WorkspaceJson::default();
    insert_node(&mut ws, "n1".to_string(), pt(0.1, 0.1));
    let i = ws.nodes.iter().position(|(k, _)| k == "n1").unwrap();
    ws.nodes[i].1.zone_ids = vec!["zq".to_string()];
    insert_edge(&mut ws, "e1".to_string(), "n0", "n1");
    set_edge_weight(&mut ws, "e1", f64::INFINITY.to_bits());
    let j = ws.edges.iter().position(|(k, _)| k == "e1").unwrap();
    ws.edges[j].1.zone_ids = vec!["zz".to_string()];
    assert_eq!(
        validation_messages(&ws, &[]),
        vec![
            "Node 'Node 1' references missing zone 'zq'.",
            "Edge 'e1' has a missing source node.",
            "Edge 'e1' has a non-finite weight.",
            "Edge 'e1' references missing zone 'zz'.",
        ]
    );
}

#[test]
fn nan_weights_are_reported() {
    let mut ws = WorkspaceJson::default();
    insert_node(&mut ws, "a".to_string(), pt(0.1, 0.1));
    insert_edge(&mut ws, "e".to_string(), "a", "a");
    set_edge_weight(&mut ws, "e", f64::NAN.to_bits());
    assert_eq!(validation_messages(&ws, &[]), vec!["Edge 'e' has a non-finite weight."]);
}
