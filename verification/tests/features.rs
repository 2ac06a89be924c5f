use robodeck::client::{apply_request_error, apply_zenoh_status_response, status_reply, ZenohPanel};
use robodeck::graph::{insert_edge, insert_node};
use robodeck::inspector::set_edge_directed;
use robodeck::map_features::{
    edge_arrows, edge_lines, edge_preview, f64_bits_equal, node_markers, selected_zone_shapes,
    zone_draft_features, zone_shapes, DraftFeature,
};
use robodeck::roster::{robot_place, RobotPlace, is_robot_stale, preserve_robot_colors, robot_has_available_tasks, visible_robots, FleetRobot};
use robodeck::workspace::{JsonPoint, Selection, WorkspaceJson};
use robodeck::zenoh_api::{ZenohConnectionState, ZenohConnectionType, ZenohStatusResponse};
use robodeck::zone_edit::insert_zone;

fn pt(lat: f64, lon: f64) -> JsonPoint {
    JsonPoint { lat: lat.to_bits(), lon: lon.to_bits() }
}

fn triangle() -> Vec<JsonPoint> {
    vec![pt(0.0, 0.0), pt(0.0, 1.0), pt(1.0, 1.0)]
}

#[test]
fn float_equality_on_bits() {
    assert!(f64_bits_equal(1.5f64.to_bits(), 1.5f64.to_bits()));
    assert!(f64_bits_equal(0.0f64.to_bits(), (-0.0f64).to_bits()));
    assert!(!f64_bits_equal(f64::NAN.to_bits(), f64::NAN.to_bits()));
    assert!(!f64_bits_equal(1.0f64.to_bits(), 2.0f64.to_bits()));
    assert!(f64_bits_equal(f64::INFINITY.to_bits(), f64::INFINITY.to_bits()));
}

#[test]
fn zone_outlines() {
    let mut ws = WorkspaceJson::default();
    insert_zone(&mut ws, "a".to_string(), triangle(), None);
    let mut closed = triangle();
    closed.push(pt(0.0, 0.0));
    insert_zone(&mut ws, "b".to_string(), closed.clone(), Some("a".to_string()));
    let shapes = zone_shapes(&ws, &Selection::Workspace);
    assert_eq!(shapes.len(), 2);
    assert_eq!(shapes[0].id, "a");
    assert!(shapes[0].root);
    assert!(!shapes[0].selected);
    assert!(shapes[0].name.is_none());
    assert_eq!(shapes[0].ring, closed);
    assert_eq!(shapes[1].ring, closed);
    assert!(!shapes[1].root);

    let sel = Selection::Zone("a".to_string());
    let rest = zone_shapes(&ws, &sel);
    assert_eq!(rest.len(), 1);
    assert_eq!(rest[0].id, "b");
    let chosen = selected_zone_shapes(&ws, &sel);
    assert_eq!(chosen.len(), 1);
    assert_eq!(chosen[0].name.as_deref(), Some("Root Zone"));
    assert!(chosen[0].selected);
    assert!(selected_zone_shapes(&ws, &Selection::Zone("x".to_string())).is_empty());
    assert!(selected_zone_shapes(&ws, &Selection::Workspace).is_empty());
}

#[test]
fn a_ring_ending_in_negative_zero_counts_as_closed() {
    let mut ws = WorkspaceJson::default();
    let poly = vec![pt(0.0, 0.0), pt(0.0, 1.0), pt(1.0, 1.0), pt(-0.0, -0.0)];
    insert_zone(&mut ws, "a".to_string(), poly.clone(), None);
    assert_eq!(zone_shapes(&ws, &Selection::Workspace)[0].ring, poly);
}

#[test]
fn draft_features() {
    assert!(zone_draft_features(&vec![]).is_empty());
    let one = zone_draft_features(&vec![pt(1.0, 2.0)]);
    assert_eq!(one.len(), 1);
    assert!(matches!(one[0], DraftFeature::Point(0, p) if p == pt(1.0, 2.0)));
    let three = zone_draft_features(&triangle());
    assert_eq!(three.len(), 5);
    assert!(matches!(&three[0], DraftFeature::Line(ps) if *ps == triangle()));
    match &three[1] {
        DraftFeature::Fill(ring) => {
            assert_eq!(ring.len(), 4);
            assert_eq!(ring[3], pt(0.0, 0.0));
        }
        _ => panic!("expected the area"),
    }
    assert!(matches!(three[4], DraftFeature::Point(2, _)));
}

fn graph() -> WorkspaceJson {
    let mut ws = WorkspaceJson::default();
    insert_node(&mut ws, "n1".to_string(), pt(0.0, 0.0));
    insert_node(&mut ws, "n2".to_string(), pt(1.0, 1.0));
    insert_edge(&mut ws, "e1".to_string(), "n1", "n2");
    insert_edge(&mut ws, "e2".to_string(), "n2", "n1");
    insert_edge(&mut ws, "e3".to_string(), "n1", "ghost");
    set_edge_directed(&mut ws, "e2", false);
    ws
}

#[test]
fn node_marker_flags() {
    let ws = graph();
    let m = node_markers(&ws, &Selection::Node("n2".to_string()), "n1", "n2");
    assert_eq!(m.len(), 2);
    assert_eq!(m[0].id, "n1");
    assert!(!m[0].selected && m[0].edge_source && !m[0].hovered);
    assert!(m[1].selected && !m[1].edge_source && m[1].hovered);
    assert_eq!(m[1].at, pt(1.0, 1.0));
}

#[test]
fn edge_preview_line() {
    let ws = graph();
    assert_eq!(edge_preview(&ws, "n1", Some(pt(5.0, 5.0))), Some((pt(0.0, 0.0), pt(5.0, 5.0))));
    assert_eq!(edge_preview(&ws, "n1", None), None);
    assert_eq!(edge_preview(&ws, "zz", Some(pt(5.0, 5.0))), None);
}

#[test]
fn edge_lanes_and_arrows() {
    let ws = graph();
    let lines = edge_lines(&ws, &Selection::Edge("e2".to_string()), "e1");
    assert_eq!(lines.len(), 3);
    assert_eq!(lines[0].id, "e1");
    assert!(lines[0].directed && lines[0].hovered && !lines[0].selected);
    assert_eq!(lines[0].lane_offset, 0);
    assert_eq!((lines[0].from, lines[0].to), (pt(0.0, 0.0), pt(1.0, 1.0)));
    assert_eq!(lines[1].id, "e2");
    assert!(!lines[1].directed && lines[1].selected);
    assert_eq!(lines[1].lane_offset, 3);
    assert_eq!((lines[1].from, lines[1].to), (pt(1.0, 1.0), pt(0.0, 0.0)));
    assert_eq!((lines[2].from, lines[2].to), (pt(0.0, 0.0), pt(1.0, 1.0)));

    let arrows = edge_arrows(&ws, &Selection::Workspace, "");
    assert_eq!(arrows.len(), 1);
    assert_eq!(arrows[0].id, "e1");
    assert_eq!((arrows[0].from, arrows[0].to), (pt(0.0, 0.0), pt(1.0, 1.0)));
}

fn robot(name: &str, tasks: &[&str], color: &str) -> FleetRobot {
    FleetRobot {
        name: name.to_string(),
        available_tasks: tasks.iter().map(|t| t.to_string()).collect(),
        odom_key: String::new(),
        gnss_keys: Vec::new(),
        gnss_lat: None,
        gnss_lon: None,
        odom_x: None,
        odom_y: None,
        yaw_rad: None,
        last_seen_ms: 7,
        stale: name == "old",
        color: color.to_string(),
    }
}

#[test]
fn fleet_panel() {
    let robots = vec![robot("a", &[], "red"), robot("b", &["goto"], "blue"), robot("a", &["patrol"], "green")];
    assert_eq!(visible_robots(&robots, 0).len(), 3);
    assert!(!robot_has_available_tasks(&robots, "a"));
    assert!(robot_has_available_tasks(&robots, "b"));
    assert!(!robot_has_available_tasks(&robots, "c"));
    assert!(!robot_has_available_tasks(&robots, ""));
    assert!(is_robot_stale(&robot("old", &[], ""), 0));
    assert!(!is_robot_stale(&robot("new", &[], ""), 0));

    let mut next = vec![robot("a", &[], "x"), robot("c", &[], "y")];
    preserve_robot_colors(&robots, &mut next);
    assert_eq!(next[0].color, "green");
    assert_eq!(next[1].color, "y");
}

fn panel() -> ZenohPanel {
    ZenohPanel {
        state: ZenohConnectionState::Disconnected,
        status: String::new(),
        endpoint: "old:1".to_string(),
        connection_type: ZenohConnectionType::Tcp,
        app_status: "idle".to_string(),
    }
}

#[test]
fn connection_panel() {
    let mut p = panel();
    let report = ZenohStatusResponse {
        state: ZenohConnectionState::Connected,
        endpoint: String::new(),
        connection_type: ZenohConnectionType::Udp,
        status: "Connected.".to_string(),
    };
    apply_zenoh_status_response(&mut p, report.clone(), false);
    assert_eq!(p.state, ZenohConnectionState::Connected);
    assert_eq!(p.endpoint, "old:1");
    assert_eq!(p.connection_type, ZenohConnectionType::Udp);
    assert_eq!(p.status, "Connected.");
    assert_eq!(p.app_status, "idle");
    let mut named = report.clone();
    named.endpoint = "new:2".to_string();
    apply_zenoh_status_response(&mut p, named, true);
    assert_eq!(p.endpoint, "new:2");
    assert_eq!(p.app_status, "Connected.");
    apply_request_error(&mut p, "offline".to_string());
    assert_eq!(p.state, ZenohConnectionState::Error);
    assert_eq!(p.status, "offline");
    assert_eq!(p.app_status, "offline");

    assert_eq!(status_reply(true, report.clone()).ok().unwrap().status, "Connected.");
    assert_eq!(status_reply(false, report).err().unwrap(), "Connected.");
}

#[test]
fn fleet_row_text() {
    let mut r = robot("a", &[], "red");
    assert_eq!(robodeck::roster::robot_row_meta(&r), "No odom or gnss keys yet.");
    r.odom_key = "a/odom".to_string();
    assert_eq!(robodeck::roster::robot_row_meta(&r), "odom: a/odom");
    r.gnss_keys = vec!["a/gnss".to_string(), "a/gnss/fix".to_string()];
    assert_eq!(robodeck::roster::robot_row_meta(&r), "odom: a/odom | gnss: a/gnss, a/gnss/fix");
    r.odom_key = String::new();
    assert_eq!(robodeck::roster::robot_row_meta(&r), "gnss: a/gnss, a/gnss/fix");
}

#[test]
fn where_a_robot_is_drawn() {
    let mut ws = WorkspaceJson::default();
    let mut r = robot("a", &[], "red");
    assert_eq!(robot_place(&ws, &r), RobotPlace::Unknown);
    r.odom_x = Some(3.0f64.to_bits());
    r.odom_y = Some(4.0f64.to_bits());
    assert_eq!(robot_place(&ws, &r), RobotPlace::Unknown);
    ws.ref_point = Some(pt(1.0, 1.0));
    assert_eq!(robot_place(&ws, &r), RobotPlace::Local(3.0f64.to_bits(), 4.0f64.to_bits()));
    r.gnss_lat = Some(52.0f64.to_bits());
    assert_eq!(robot_place(&ws, &r), RobotPlace::Local(3.0f64.to_bits(), 4.0f64.to_bits()));
    r.gnss_lon = Some(5.0f64.to_bits());
    assert_eq!(robot_place(&ws, &r), RobotPlace::Fix(pt(52.0, 5.0)));
}
