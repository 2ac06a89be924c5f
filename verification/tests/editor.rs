use robodeck::editor::{
    editor_step, marker_handles, AppMode, EditMode, EditorAction, EditorEvent, EditorState, JsonSource,
    LocateProblem, MarkerHandle, RightPanel, SceneDrag, ToolButton, VertexHit,
};
use robodeck::roster::FleetRobot;
use robodeck::workspace::{JsonPoint, Selection, WorkspaceJson};

fn pt(lat: f64, lon: f64) -> JsonPoint {
    JsonPoint { lat: lat.to_bits(), lon: lon.to_bits() }
}

fn click(point: JsonPoint) -> EditorEvent {
    EditorEvent::MapClick { point, node: None, edge: None, zone: None }
}

fn click_node(id: &str) -> EditorEvent {
    EditorEvent::MapClick { point: pt(0.5, 0.5), node: Some(id.to_string()), edge: None, zone: None }
}

fn right_click() -> EditorEvent {
    EditorEvent::RightClick { node: None, edge: None, vertex: VertexHit::Ignored }
}

fn selected_id(sel: &Selection) -> Option<(&'static str, String)> {
    match sel {
        Selection::Workspace => None,
        Selection::Zone(id) => Some(("zone", id.clone())),
        Selection::Node(id) => Some(("node", id.clone())),
        Selection::Edge(id) => Some(("edge", id.clone())),
    }
}

fn draw_root(state: &mut EditorState) -> String {
    editor_step(state, EditorEvent::ArmRootZone);
    for p in [pt(0.0, 0.0), pt(0.0, 1.0), pt(1.0, 1.0), pt(1.0, 0.0)] {
        editor_step(state, click(p));
    }
    match editor_step(state, right_click()) {
        EditorAction::SyncRenderFocusZone(id) => id,
        _ => panic!("zone not created"),
    }
}

#[test]
fn editor_starts_ready() {
    let state = EditorState::new("{}".to_string());
    assert_eq!(state.status, "Ready. Add a root zone or paste workspace JSON.");
    assert_eq!(state.mode, EditMode::Inspect);
    assert_eq!(state.right_panel, Some(RightPanel::Files));
    assert_eq!(state.raw_json, "{}");
    assert!(state.workspace.zones.is_empty());
}

#[test]
fn editor_draws_a_root_zone() {
    let mut state = EditorState::new(String::new());
    assert!(matches!(editor_step(&mut state, EditorEvent::ArmRootZone), EditorAction::Idle));
    assert_eq!(state.mode, EditMode::PlaceZone);
    assert_eq!(state.status, "Click the map to add zone points. Right-click to finish the polygon.");
    editor_step(&mut state, click(pt(0.0, 0.0)));
    assert_eq!(state.status, "Zone draft: 1 point added. Right-click to finish.");
    editor_step(&mut state, click(pt(0.0, 1.0)));
    assert_eq!(state.status, "Zone draft: 2 points added. Right-click to finish.");
    editor_step(&mut state, right_click());
    assert_eq!(state.status, "Need at least 3 points before the zone can be created.");
    assert_eq!(state.zone_draft.len(), 2);
    editor_step(&mut state, click(pt(1.0, 1.0)));
    let action = editor_step(&mut state, right_click());
    let id = match action {
        EditorAction::SyncRenderFocusZone(id) => id,
        _ => panic!("expected a new zone"),
    };
    assert_eq!(state.status, "Created zone polygon.");
    assert_eq!(state.mode, EditMode::Inspect);
    assert!(state.zone_draft.is_empty());
    assert_eq!(state.workspace.root_zone_id, id);
    assert_eq!(selected_id(&state.selection), Some(("zone", id.clone())));
    assert_eq!(state.right_panel, Some(RightPanel::Details));
    let zone = &state.workspace.zones[0].1;
    assert_eq!(zone.name, "Root Zone");
    assert_eq!(zone.polygon_latlon, vec![pt(0.0, 0.0), pt(0.0, 1.0), pt(1.0, 1.0)]);
}

#[test]
fn editor_refuses_a_second_root_and_draws_a_child() {
    let mut state = EditorState::new(String::new());
    let root = draw_root(&mut state);
    editor_step(&mut state, EditorEvent::ArmRootZone);
    assert_eq!(state.status, "Root zone already exists. Use the + button on a zone to add a child.");
    assert_eq!(state.mode, EditMode::Inspect);
    editor_step(&mut state, EditorEvent::ArmChildZone(root.clone()));
    assert_eq!(state.mode, EditMode::PlaceZone);
    assert_eq!(state.pending_parent, Some(root.clone()));
    assert_eq!(state.status, "Click the map to add child-zone points. Right-click to finish the polygon.");
    for p in [pt(0.1, 0.1), pt(0.1, 0.2), pt(0.2, 0.2)] {
        editor_step(&mut state, click(p));
    }
    let child = match editor_step(&mut state, right_click()) {
        EditorAction::SyncRenderFocusZone(id) => id,
        _ => panic!("expected a child zone"),
    };
    assert_eq!(state.pending_parent, None);
    let parent = &state.workspace.zones.iter().find(|(k, _)| *k == root).unwrap().1;
    assert_eq!(parent.child_ids, vec![child.clone()]);
    let made = &state.workspace.zones.iter().find(|(k, _)| *k == child).unwrap().1;
    assert_eq!(made.name, "Zone 2");
    assert_eq!(made.parent_id, root);
}

#[test]
fn editor_places_nodes_and_connects_them() {
    let mut state = EditorState::new(String::new());
    editor_step(&mut state, EditorEvent::ToggleTool(ToolButton::AddNode));
    assert_eq!(state.mode, EditMode::AddNode);
    assert_eq!(state.status, "Click the map to place nodes.");
    assert!(matches!(editor_step(&mut state, click(pt(1.0, 2.0))), EditorAction::SyncAndRender));
    assert_eq!(state.status, "Placed node.");
    let a = match selected_id(&state.selection) {
        Some(("node", id)) => id,
        _ => panic!("node not selected"),
    };
    editor_step(&mut state, click(pt(3.0, 4.0)));
    let b = state.workspace.nodes.iter().find(|(k, _)| *k != a).unwrap().0.clone();
    assert_eq!(state.workspace.nodes.len(), 2);
    editor_step(&mut state, EditorEvent::ToggleTool(ToolButton::AddNode));
    assert_eq!(state.mode, EditMode::Inspect);
    assert_eq!(state.status, "Inspect mode.");
    editor_step(&mut state, EditorEvent::ToggleTool(ToolButton::ConnectEdge));
    assert_eq!(state.status, "Click one node, then another.");
    assert!(matches!(editor_step(&mut state, click_node(&a)), EditorAction::Idle));
    assert_eq!(state.edge_source_id, a);
    assert_eq!(state.status, "Selected edge source. Pick a target node.");
    assert!(matches!(editor_step(&mut state, click_node(&a)), EditorAction::Idle));
    assert!(state.workspace.edges.is_empty());
    assert!(matches!(editor_step(&mut state, click_node(&b)), EditorAction::SyncAndRender));
    assert_eq!(state.status, "Created edge.");
    assert_eq!(state.edge_source_id, "");
    let edge = &state.workspace.edges[0].1;
    assert_eq!((edge.source_id.as_str(), edge.target_id.as_str()), (a.as_str(), b.as_str()));
    assert_eq!(selected_id(&state.selection), Some(("edge", edge.id.clone())));
}

#[test]
fn editor_selects_what_was_clicked() {
    let mut state = EditorState::new(String::new());
    editor_step(&mut state, click_node("n1"));
    assert_eq!(state.status, "Node selected.");
    assert_eq!(selected_id(&state.selection), Some(("node", "n1".to_string())));
    editor_step(
        &mut state,
        EditorEvent::MapClick { point: pt(0.0, 0.0), node: None, edge: Some("e1".to_string()), zone: Some("z".to_string()) },
    );
    assert_eq!(state.status, "Edge selected.");
    editor_step(
        &mut state,
        EditorEvent::MapClick { point: pt(0.0, 0.0), node: None, edge: None, zone: Some("z".to_string()) },
    );
    assert_eq!(state.status, "Zone selected.");
    assert_eq!(selected_id(&state.selection), Some(("zone", "z".to_string())));
    editor_step(&mut state, click(pt(0.0, 0.0)));
    assert!(matches!(state.selection, Selection::Workspace));
    assert_eq!(state.right_panel, None);
    assert_eq!(state.status, "Zone selected.");
}

#[test]
fn editor_right_click_removes_nodes_and_edges() {
    let mut state = EditorState::new(String::new());
    editor_step(&mut state, EditorEvent::ToggleTool(ToolButton::AddNode));
    editor_step(&mut state, click(pt(1.0, 2.0)));
    editor_step(&mut state, click(pt(3.0, 4.0)));
    editor_step(&mut state, EditorEvent::ToggleTool(ToolButton::ConnectEdge));
    let ids: Vec<String> = state.workspace.nodes.iter().map(|(k, _)| k.clone()).collect();
    editor_step(&mut state, click_node(&ids[0]));
    editor_step(&mut state, click_node(&ids[1]));
    let edge_id = state.workspace.edges[0].0.clone();
    let removed = editor_step(
        &mut state,
        EditorEvent::RightClick { node: None, edge: Some(edge_id), vertex: VertexHit::Far },
    );
    assert!(matches!(removed, EditorAction::SyncAndRender));
    assert_eq!(state.status, "Removed edge.");
    assert!(state.workspace.edges.is_empty());
    editor_step(&mut state, click_node(&ids[0]));
    editor_step(&mut state, click_node(&ids[1]));
    assert_eq!(state.workspace.edges.len(), 1);
    editor_step(
        &mut state,
        EditorEvent::RightClick { node: Some(ids[0].clone()), edge: None, vertex: VertexHit::Far },
    );
    assert_eq!(state.status, "Removed node.");
    assert_eq!(state.workspace.nodes.len(), 1);
    assert!(state.workspace.edges.is_empty());
    assert!(matches!(state.selection, Selection::Workspace));
}

#[test]
fn editor_inserts_zone_vertices() {
    let mut state = EditorState::new(String::new());
    let root = draw_root(&mut state);
    let rc = |vertex| EditorEvent::RightClick { node: None, edge: None, vertex };
    editor_step(&mut state, rc(VertexHit::Far));
    assert_eq!(state.status, "Right-click near a selected zone border to insert a vertex.");
    editor_step(&mut state, rc(VertexHit::TooClose));
    assert_eq!(state.status, "Vertex already exists very close to that spot.");
    assert!(matches!(editor_step(&mut state, rc(VertexHit::Insert(9, pt(5.0, 5.0)))), EditorAction::Idle));
    assert_eq!(state.workspace.zones[0].1.polygon_latlon.len(), 4);
    assert!(matches!(
        editor_step(&mut state, rc(VertexHit::Insert(1, pt(0.0, 0.5)))),
        EditorAction::SyncAndRender
    ));
    assert_eq!(state.status, "Inserted zone vertex.");
    assert_eq!(
        state.workspace.zones[0].1.polygon_latlon,
        vec![pt(0.0, 0.0), pt(0.0, 0.5), pt(0.0, 1.0), pt(1.0, 1.0), pt(1.0, 0.0)]
    );
    assert_eq!(selected_id(&state.selection), Some(("zone", root)));
    editor_step(&mut state, click(pt(9.0, 9.0)));
    assert!(matches!(editor_step(&mut state, rc(VertexHit::Far)), EditorAction::Idle));
    assert_eq!(state.status, "Inserted zone vertex.");
}

#[test]
fn editor_places_the_reference_point() {
    let mut state = EditorState::new(String::new());
    editor_step(&mut state, EditorEvent::ToggleTool(ToolButton::PlaceRef));
    assert_eq!(state.status, "Click the map to place the reference point.");
    editor_step(&mut state, click(pt(7.0, 8.0)));
    assert_eq!(state.status, "Placed reference point.");
    assert_eq!(state.mode, EditMode::Inspect);
    assert_eq!(state.workspace.ref_point, Some(pt(7.0, 8.0)));
    assert_eq!(state.workspace.datum, Some(pt(52.0, 5.0)));
}

#[test]
fn editor_toggle_leaves_zone_drawing() {
    let mut state = EditorState::new(String::new());
    editor_step(&mut state, EditorEvent::ArmRootZone);
    editor_step(&mut state, click(pt(0.0, 0.0)));
    editor_step(&mut state, EditorEvent::ToggleTool(ToolButton::AddNode));
    assert_eq!(state.mode, EditMode::AddNode);
    assert!(state.zone_draft.is_empty());
}

#[test]
fn editor_loads_json() {
    let mut state = EditorState::new(String::new());
    editor_step(&mut state, EditorEvent::JsonText("{oops".to_string()));
    assert_eq!(state.raw_json, "{oops");
    editor_step(&mut state, EditorEvent::JsonLoaded(JsonSource::Applied, Err("expected value".to_string())));
    assert_eq!(state.status, "Invalid JSON: expected value");
    let mut ws = WorkspaceJson::default();
    ws.name = "Site".to_string();
    ws.local_ref = true;
    let action = editor_step(&mut state, EditorEvent::JsonLoaded(JsonSource::Formatted, Ok(ws)));
    assert!(matches!(action, EditorAction::SyncAndRender));
    assert_eq!(state.status, "Formatted current JSON.");
    assert_eq!(state.right_panel, Some(RightPanel::Json));
    assert_eq!(state.workspace.name, "Site");
    assert!(state.workspace.local_ref);
    editor_step(&mut state, EditorEvent::JsonLoaded(JsonSource::Applied, Ok(WorkspaceJson::default())));
    assert_eq!(state.status, "Applied raw JSON.");
    assert_eq!(state.right_panel, Some(RightPanel::Files));
    editor_step(&mut state, EditorEvent::JsonLoaded(JsonSource::Opened, Ok(WorkspaceJson::default())));
    assert_eq!(state.status, "Loaded workspace.json.");
}

#[test]
fn editor_resets_the_workspace() {
    let mut state = EditorState::new(String::new());
    draw_root(&mut state);
    editor_step(&mut state, EditorEvent::ToggleTool(ToolButton::ConnectEdge));
    let action = editor_step(&mut state, EditorEvent::NewWorkspace);
    assert!(matches!(action, EditorAction::SyncAndRender));
    assert_eq!(state.status, "Reset workspace.");
    assert_eq!(state.mode, EditMode::Inspect);
    assert!(state.workspace.zones.is_empty());
    assert!(state.workspace.root_zone_id.is_empty());
}

#[test]
fn editor_locates_the_user() {
    let mut state = EditorState::new(String::new());
    editor_step(&mut state, EditorEvent::LocateRequested);
    assert_eq!(state.status, "Requesting browser location...");
    let action = editor_step(&mut state, EditorEvent::Located(Some(pt(1.0, 1.0))));
    assert!(matches!(action, EditorAction::FocusPoint(p) if p == pt(1.0, 1.0)));
    assert_eq!(state.status, "Centered map near your current browser location.");
    assert_eq!(state.workspace.datum, Some(pt(52.0, 5.0)));
    state.workspace.datum = None;
    editor_step(&mut state, EditorEvent::Located(Some(pt(1.0, 1.0))));
    assert_eq!(state.workspace.datum, Some(pt(1.0, 1.0)));
    editor_step(&mut state, EditorEvent::Located(None));
    assert_eq!(state.status, "Browser location did not include coordinates.");
    editor_step(&mut state, EditorEvent::LocateFailed);
    assert_eq!(state.status, "Browser location request was denied or failed.");
}

#[test]
fn editor_drags_scene_items() {
    let mut state = EditorState::new(String::new());
    let root = draw_root(&mut state);
    editor_step(&mut state, EditorEvent::ToggleTool(ToolButton::AddNode));
    editor_step(&mut state, click(pt(0.5, 0.5)));
    let node_id = state.workspace.nodes[0].0.clone();
    editor_step(&mut state, EditorEvent::DragStart(SceneDrag::Node(node_id.clone())));
    assert!(state.drag.is_none());
    editor_step(&mut state, EditorEvent::ToggleTool(ToolButton::AddNode));
    editor_step(&mut state, EditorEvent::DragStart(SceneDrag::Node(node_id.clone())));
    assert_eq!(selected_id(&state.selection), Some(("node", node_id.clone())));
    let moved = editor_step(&mut state, EditorEvent::DragMove { point: pt(0.25, 0.75), moved_body: Vec::new() });
    assert!(matches!(moved, EditorAction::Sync));
    assert_eq!(state.workspace.nodes[0].1.latlon, pt(0.25, 0.75));
    assert!(matches!(editor_step(&mut state, click(pt(0.0, 0.0))), EditorAction::Idle));
    assert!(matches!(editor_step(&mut state, EditorEvent::DragEnd), EditorAction::SyncAndRender));
    assert_eq!(state.status, "Moved scene item.");
    assert!(matches!(editor_step(&mut state, EditorEvent::DragEnd), EditorAction::Idle));
    editor_step(&mut state, EditorEvent::DragStart(SceneDrag::ZoneVertex(root.clone(), 2)));
    editor_step(&mut state, EditorEvent::DragMove { point: pt(2.0, 2.0), moved_body: Vec::new() });
    assert_eq!(state.workspace.zones[0].1.polygon_latlon[2], pt(2.0, 2.0));
    editor_step(&mut state, EditorEvent::DragEnd);
    editor_step(&mut state, EditorEvent::DragStart(SceneDrag::ZoneBody(root.clone(), pt(0.0, 0.0))));
    let shifted = vec![pt(1.0, 0.0), pt(1.0, 1.0), pt(3.0, 2.0), pt(2.0, 0.0)];
    editor_step(&mut state, EditorEvent::DragMove { point: pt(1.0, 0.0), moved_body: shifted.clone() });
    assert_eq!(state.workspace.zones[0].1.polygon_latlon, shifted);
    assert!(matches!(state.drag, Some(SceneDrag::ZoneBody(ref z, p)) if *z == root && p == pt(1.0, 0.0)));
}

#[test]
fn editor_list_rows_select_and_focus() {
    let mut state = EditorState::new(String::new());
    let root = draw_root(&mut state);
    editor_step(&mut state, EditorEvent::ToggleTool(ToolButton::AddNode));
    editor_step(&mut state, click(pt(0.5, 0.5)));
    editor_step(&mut state, click(pt(0.6, 0.6)));
    editor_step(&mut state, EditorEvent::ToggleTool(ToolButton::AddNode));
    let ids: Vec<String> = state.workspace.nodes.iter().map(|(k, _)| k.clone()).collect();
    editor_step(&mut state, EditorEvent::ZoneRowClick("other".to_string()));
    assert!(matches!(editor_step(&mut state, EditorEvent::ZoneRowClick(root.clone())), EditorAction::Idle));
    assert!(matches!(
        editor_step(&mut state, EditorEvent::ZoneRowClick(root.clone())),
        EditorAction::FocusZone(ref z) if *z == root
    ));
    assert!(matches!(editor_step(&mut state, EditorEvent::NodeRowClick(ids[0].clone())), EditorAction::Idle));
    assert_eq!(state.status, "Node selected.");
    assert!(matches!(
        editor_step(&mut state, EditorEvent::NodeRowClick(ids[0].clone())),
        EditorAction::FocusNode(ref n) if *n == ids[0]
    ));
    editor_step(&mut state, EditorEvent::ToggleTool(ToolButton::ConnectEdge));
    editor_step(&mut state, EditorEvent::NodeRowClick(ids[1].clone()));
    assert_eq!(state.edge_source_id, ids[1]);
    assert_eq!(selected_id(&state.selection), Some(("node", ids[0].clone())));
    let made = editor_step(&mut state, EditorEvent::NodeRowClick(ids[0].clone()));
    assert!(matches!(made, EditorAction::SyncAndRender));
    assert_eq!(state.status, "Created edge.");
    let edge_id = state.workspace.edges[0].0.clone();
    assert_eq!(state.workspace.edges[0].1.source_id, ids[1]);
    assert!(matches!(
        editor_step(&mut state, EditorEvent::EdgeRowClick(edge_id.clone())),
        EditorAction::FocusEdge(ref e) if *e == edge_id
    ));
    editor_step(&mut state, EditorEvent::ZoneRowClick(root.clone()));
    assert!(matches!(editor_step(&mut state, EditorEvent::EdgeRowClick(edge_id.clone())), EditorAction::Idle));
    assert_eq!(state.status, "Edge selected.");
}

#[test]
fn editor_delete_buttons() {
    let mut state = EditorState::new(String::new());
    let root = draw_root(&mut state);
    editor_step(&mut state, EditorEvent::ToggleTool(ToolButton::AddNode));
    editor_step(&mut state, click(pt(0.5, 0.5)));
    editor_step(&mut state, click(pt(0.6, 0.6)));
    editor_step(&mut state, EditorEvent::ToggleTool(ToolButton::ConnectEdge));
    let ids: Vec<String> = state.workspace.nodes.iter().map(|(k, _)| k.clone()).collect();
    editor_step(&mut state, click_node(&ids[0]));
    editor_step(&mut state, click_node(&ids[1]));
    let edge_id = state.workspace.edges[0].0.clone();
    assert!(matches!(editor_step(&mut state, EditorEvent::RemoveEdge(edge_id)), EditorAction::SyncAndRender));
    assert_eq!(state.status, "Removed edge.");
    assert!(state.workspace.edges.is_empty());
    editor_step(&mut state, EditorEvent::RemoveNode(ids[1].clone()));
    assert_eq!(state.status, "Removed node.");
    assert_eq!(state.workspace.nodes.len(), 1);
    editor_step(&mut state, EditorEvent::RemoveZone(root));
    assert_eq!(state.status, "Removed zone.");
    assert!(state.workspace.zones.is_empty());
    assert!(state.workspace.root_zone_id.is_empty());
    assert!(matches!(state.selection, Selection::Workspace));
}

#[test]
fn editor_marker_handles_follow_the_selection() {
    let mut state = EditorState::new(String::new());
    let root = draw_root(&mut state);
    let handles = marker_handles(&state.workspace, &state.selection);
    assert_eq!(handles.len(), 5);
    assert!(matches!(&handles[0], MarkerHandle::Vertex(z, 0) if *z == root));
    assert!(matches!(&handles[3], MarkerHandle::Vertex(z, 3) if *z == root));
    assert!(matches!(&handles[4], MarkerHandle::Center(z) if *z == root));
    editor_step(&mut state, EditorEvent::ToggleTool(ToolButton::AddNode));
    editor_step(&mut state, click(pt(0.5, 0.5)));
    let node_id = state.workspace.nodes[0].0.clone();
    let handles = marker_handles(&state.workspace, &state.selection);
    assert!(matches!(&handles[..], [MarkerHandle::Node(n)] if *n == node_id));
    assert!(marker_handles(&state.workspace, &Selection::Node("ghost".to_string())).is_empty());
    assert!(marker_handles(&state.workspace, &Selection::Workspace).is_empty());
}

#[test]
fn editor_marker_drags_and_removals() {
    let mut state = EditorState::new(String::new());
    let root = draw_root(&mut state);
    let moved = editor_step(
        &mut state,
        EditorEvent::MarkerDrag { handle: MarkerHandle::Vertex(root.clone(), 1), point: pt(0.0, 2.0), moved_body: Vec::new() },
    );
    assert!(matches!(moved, EditorAction::Sync));
    assert_eq!(state.workspace.zones[0].1.polygon_latlon[1], pt(0.0, 2.0));
    state.right_panel = None;
    editor_step(&mut state, EditorEvent::MarkerDragEnd(MarkerHandle::Vertex(root.clone(), 1)));
    assert_eq!(state.status, "Adjusted zone boundary.");
    assert_eq!(state.right_panel, Some(RightPanel::Details));
    let body = vec![pt(1.0, 1.0), pt(1.0, 2.0), pt(2.0, 2.0), pt(2.0, 1.0)];
    editor_step(
        &mut state,
        EditorEvent::MarkerDrag { handle: MarkerHandle::Center(root.clone()), point: pt(1.5, 1.5), moved_body: body.clone() },
    );
    assert_eq!(state.workspace.zones[0].1.polygon_latlon, body);
    editor_step(&mut state, EditorEvent::MarkerDragEnd(MarkerHandle::Center(root.clone())));
    assert_eq!(state.status, "Moved zone.");
    editor_step(&mut state, EditorEvent::ZoneRowClick("x".to_string()));
    let removed = editor_step(&mut state, EditorEvent::MarkerRightClick(MarkerHandle::Vertex(root.clone(), 0)));
    assert!(matches!(removed, EditorAction::SyncAndRender));
    assert_eq!(state.status, "Removed zone vertex.");
    assert_eq!(selected_id(&state.selection), Some(("zone", root.clone())));
    assert_eq!(state.workspace.zones[0].1.polygon_latlon, vec![pt(1.0, 2.0), pt(2.0, 2.0), pt(2.0, 1.0)]);
    editor_step(&mut state, EditorEvent::MarkerRightClick(MarkerHandle::Vertex(root.clone(), 0)));
    assert_eq!(state.workspace.zones[0].1.polygon_latlon.len(), 3);
    assert_eq!(state.status, "Removed zone vertex.");
    assert!(matches!(
        editor_step(&mut state, EditorEvent::MarkerRightClick(MarkerHandle::Center(root.clone()))),
        EditorAction::Idle
    ));
    editor_step(&mut state, EditorEvent::ToggleTool(ToolButton::AddNode));
    editor_step(&mut state, click(pt(0.5, 0.5)));
    let node_id = state.workspace.nodes[0].0.clone();
    editor_step(
        &mut state,
        EditorEvent::MarkerDrag { handle: MarkerHandle::Node(node_id.clone()), point: pt(0.7, 0.7), moved_body: Vec::new() },
    );
    assert_eq!(state.workspace.nodes[0].1.latlon, pt(0.7, 0.7));
    editor_step(&mut state, EditorEvent::MarkerDragEnd(MarkerHandle::Node(node_id.clone())));
    assert_eq!(state.status, "Moved node.");
    editor_step(&mut state, EditorEvent::MarkerRightClick(MarkerHandle::Node(node_id)));
    assert_eq!(state.status, "Removed node.");
    assert!(state.workspace.nodes.is_empty());
}

#[test]
fn editor_workspace_fields_and_locate_problems() {
    let mut state = EditorState::new(String::new());
    editor_step(&mut state, EditorEvent::LocateUnavailable(LocateProblem::MapNotReady));
    assert_eq!(state.status, "Map is not ready for geolocation yet.");
    editor_step(&mut state, EditorEvent::LocateUnavailable(LocateProblem::UnreadableAnswer));
    assert_eq!(state.status, "Failed to read browser location.");
    assert!(matches!(editor_step(&mut state, EditorEvent::SetReferenceMode(true)), EditorAction::SyncAndRender));
    assert_eq!(state.status, "Updated reference mode.");
    assert!(state.workspace.local_ref);
    editor_step(&mut state, EditorEvent::SetRootZoneId("z9".to_string()));
    assert_eq!(state.status, "Updated root zone id.");
    assert_eq!(state.workspace.root_zone_id, "z9");
    editor_step(&mut state, EditorEvent::SetDatumAxis { value: Some(1.5f64.to_bits()), latitude: true });
    assert_eq!(state.status, "Updated datum latitude.");
    assert_eq!(state.workspace.datum, Some(pt(1.5, 5.0)));
    editor_step(&mut state, EditorEvent::SetDatumAxis { value: None, latitude: false });
    assert_eq!(state.status, "Updated datum longitude.");
    assert_eq!(state.workspace.datum, None);
    assert!(matches!(editor_step(&mut state, EditorEvent::RenameWorkspace("Yard".to_string())), EditorAction::Render));
    assert_eq!(state.workspace.name, "Yard");
    assert_eq!(state.status, "Updated datum longitude.");
}

fn robot(name: &str, tasks: &[&str]) -> FleetRobot {
    FleetRobot {
        name: name.to_string(),
        available_tasks: tasks.iter().map(|t| t.to_string()).collect(),
        odom_key: String::new(),
        gnss_keys: Vec::new(),
        gnss_lat: None,
        gnss_lon: None,
        odom_x: None,
        odom_y: None,
        yaw_rad: None,
        last_seen_ms: 0,
        stale: false,
        color: String::new(),
    }
}

#[test]
fn editor_management_mode_resets_and_guards() {
    let mut state = EditorState::new(String::new());
    editor_step(&mut state, EditorEvent::ArmRootZone);
    editor_step(&mut state, click(pt(0.0, 0.0)));
    editor_step(&mut state, EditorEvent::SwitchAppMode(AppMode::Management));
    assert_eq!(state.status, "Management mode.");
    assert_eq!(state.mode, EditMode::Inspect);
    assert!(state.zone_draft.is_empty());
    assert_eq!(state.pending_parent, None);
    assert!(matches!(editor_step(&mut state, click(pt(1.0, 1.0))), EditorAction::Idle));
    assert!(matches!(state.selection, Selection::Workspace));
    assert_eq!(state.status, "Management mode.");
    editor_step(&mut state, click_node("n1"));
    assert!(matches!(state.selection, Selection::Workspace));
    editor_step(&mut state, EditorEvent::SwitchAppMode(AppMode::Editor));
    assert_eq!(state.status, "Editor mode.");
    editor_step(&mut state, click_node("n1"));
    assert_eq!(state.status, "Node selected.");
}

#[test]
fn editor_scheduler_pick_and_run() {
    let mut state = EditorState::new(String::new());
    editor_step(&mut state, EditorEvent::ToggleTool(ToolButton::AddNode));
    editor_step(&mut state, click(pt(1.0, 2.0)));
    editor_step(&mut state, EditorEvent::ToggleTool(ToolButton::AddNode));
    let node_id = state.workspace.nodes[0].0.clone();
    editor_step(&mut state, EditorEvent::ZoneRowClick("z".to_string()));
    editor_step(&mut state, EditorEvent::SwitchAppMode(AppMode::Management));
    editor_step(&mut state, EditorEvent::RobotsListed(vec![robot("r1", &["goto"]), robot("r2", &[])]));
    let chosen = editor_step(&mut state, EditorEvent::RobotRowClick { name: "r1".to_string(), place: None });
    assert!(matches!(chosen, EditorAction::RobotChosen { ref robot, focus: None } if robot == "r1"));
    assert_eq!(state.status, "Selected robot r1. It has no mappable odom or gnss position yet.");
    editor_step(&mut state, EditorEvent::RobotRowClick { name: "r1".to_string(), place: Some(pt(0.0, 0.0)) });
    assert_eq!(state.status, "Selected robot r1.");
    editor_step(&mut state, EditorEvent::RunTask { schedule: false });
    assert_eq!(state.status, "Select a scheduler node first.");
    editor_step(&mut state, EditorEvent::ToggleSchedulerPanel);
    assert_eq!(state.management_panel, Some(RightPanel::Scheduler));
    editor_step(&mut state, EditorEvent::ToggleSchedulerPick);
    assert!(state.scheduler_picking);
    assert_eq!(state.status, "Scheduler node pick armed. Click one node.");
    editor_step(&mut state, click_node(&node_id));
    assert!(!state.scheduler_picking);
    assert_eq!(state.scheduler_target, node_id);
    assert_eq!(state.status, format!("Selected node {node_id} for the scheduler."));
    editor_step(&mut state, EditorEvent::RunTask { schedule: true });
    assert_eq!(state.status, "Select a schedule first.");
    editor_step(&mut state, EditorEvent::ChooseOrder("patrol".to_string()));
    match editor_step(&mut state, EditorEvent::RunTask { schedule: true }) {
        EditorAction::SendRun(req) => {
            assert_eq!((req.robot.as_str(), req.task.as_str()), ("r1", "patrol"));
            assert_eq!(req.node_id, node_id);
            assert_eq!(req.latlon, pt(1.0, 2.0));
        }
        _ => panic!("expected a run request"),
    }
    assert_eq!(state.status, "Sending patrol schedule to r1...");
    editor_step(&mut state, EditorEvent::ServerReply("queued".to_string()));
    assert_eq!(state.status, "queued");
    let fetch = editor_step(&mut state, EditorEvent::ToggleTasksPanel);
    assert!(matches!(fetch, EditorAction::FetchTasks(ref r) if r == "r1"));
    assert_eq!(state.management_panel, Some(RightPanel::Tasks));
    editor_step(&mut state, EditorEvent::TasksFetched(Ok((vec!["goto".to_string()], "1 task".to_string()))));
    assert_eq!(state.task_options, vec!["goto"]);
    assert_eq!(state.status, "1 task");
    editor_step(&mut state, EditorEvent::ChooseTask("goto".to_string()));
    assert!(matches!(editor_step(&mut state, EditorEvent::RunTask { schedule: false }), EditorAction::SendRun(_)));
    assert_eq!(state.status, "Sending goto to r1...");
    editor_step(&mut state, EditorEvent::RobotRowClick { name: "r2".to_string(), place: None });
    assert_eq!(state.management_panel, None);
    assert_eq!(state.scheduler_target, "");
    editor_step(&mut state, EditorEvent::ToggleTasksPanel);
    assert_eq!(state.status, "No task topic detected for the selected robot.");
    editor_step(&mut state, EditorEvent::TasksFetched(Err("offline".to_string())));
    assert!(state.task_options.is_empty());
    assert_eq!(state.status, "offline");
}

#[test]
fn editor_deleting_the_root_zone_picks_a_new_root() {
    let mut state = EditorState::new(String::new());
    let root = draw_root(&mut state);
    editor_step(&mut state, EditorEvent::ArmChildZone(root.clone()));
    for p in [pt(0.1, 0.1), pt(0.1, 0.2), pt(0.2, 0.2)] {
        editor_step(&mut state, click(p));
    }
    let child = match editor_step(&mut state, right_click()) {
        EditorAction::SyncRenderFocusZone(id) => id,
        _ => panic!("expected a child zone"),
    };
    let action = editor_step(&mut state, EditorEvent::RemoveZone(root.clone()));
    assert!(matches!(action, EditorAction::SyncAndRender));
    assert_eq!(state.workspace.root_zone_id, child);
    assert_eq!(state.workspace.zones.len(), 1);
    assert_eq!(state.workspace.zones[0].1.parent_id, "");
    assert_eq!(state.status, "Removed zone.");
}
