use robodeck::graph::insert_node;
use robodeck::roster::FleetRobot;
use robodeck::scheduler::{scheduler_pick_toggled, scheduler_run_request, tasks_panel_toggled, TasksPanel};
use robodeck::workspace::{JsonPoint, WorkspaceJson};

fn pt(lat: f64, lon: f64) -> JsonPoint {
    JsonPoint { lat: lat.to_bits(), lon: lon.to_bits() }
}

fn robot(name: &str, tasks: &[&str]) -> FleetRobot {
    FleetRobot {
        name: name.to_string(),
        available_tasks: tasks.iter().map(|t| t.to_string()).collect(),
        odom_key: String::new(),
        gnss_keys: Vec::new(),
        gnss_lat: None,
        gnss_lon: None,
        odom_x: None,
        odom_y: None,
        yaw_rad: None,
        last_seen_ms: 0,
        stale: false,
        color: String::new(),
    }
}

#[test]
fn scheduler_request_checks_in_order() {
    let mut ws = WorkspaceJson::default();
    insert_node(&mut ws, "n1".to_string(), pt(1.0, 2.0));
    let err = |r: Result<_, String>| r.err().unwrap();
    assert_eq!(err(scheduler_run_request(&ws, "", "", "nx", false)), "Select a scheduler node first.");
    assert_eq!(err(scheduler_run_request(&ws, "", "goto", "n1", false)), "Select a robot first.");
    assert_eq!(err(scheduler_run_request(&ws, "r1", "", "n1", false)), "Select a task first.");
    assert_eq!(err(scheduler_run_request(&ws, "r1", "", "n1", true)), "Select a schedule first.");
    let (req, status) = scheduler_run_request(&ws, "r1", "goto", "n1", false).ok().unwrap();
    assert_eq!(status, "Sending goto to r1...");
    assert_eq!((req.robot.as_str(), req.task.as_str(), req.node_id.as_str()), ("r1", "goto", "n1"));
    assert_eq!(req.node_name, "Node 1");
    assert_eq!(req.latlon, pt(1.0, 2.0));
    let (_, status) = scheduler_run_request(&ws, "r1", "patrol", "n1", true).ok().unwrap();
    assert_eq!(status, "Sending patrol schedule to r1...");
}

#[test]
fn scheduler_pick_arms_and_cancels() {
    let (armed, cleared, status) = scheduler_pick_toggled(false);
    assert!(armed && cleared);
    assert_eq!(status, "Scheduler node pick armed. Click one node.");
    let (armed, cleared, status) = scheduler_pick_toggled(true);
    assert!(!armed && !cleared);
    assert_eq!(status, "Scheduler node pick cancelled.");
}

#[test]
fn tasks_panel_opens_for_robots_with_tasks() {
    let robots = vec![robot("r1", &["goto"]), robot("r2", &[])];
    assert!(matches!(tasks_panel_toggled(&robots, "r1", false), TasksPanel::Opened));
    assert!(matches!(tasks_panel_toggled(&robots, "r1", true), TasksPanel::Closed));
    match tasks_panel_toggled(&robots, "r2", false) {
        TasksPanel::NoTasks(m) => assert_eq!(m, "No task topic detected for the selected robot."),
        _ => panic!("r2 offers no tasks"),
    }
    assert!(matches!(tasks_panel_toggled(&robots, "", false), TasksPanel::NoTasks(_)));
}
