use robodeck::fleet::{insert_text_sorted, GnssFix, OdomPose, ZenohManager};
use robodeck::zenoh_api::{ZenohConnectRequest, ZenohConnectionState, ZenohConnectionType};

#[test]
fn a_new_manager_is_empty_and_disconnected() {
    let m = ZenohManager::new();
    assert!(m.robots_list().is_empty());
    let s = m.status_report();
    assert_eq!(s.state, ZenohConnectionState::Disconnected);
    assert_eq!(s.status, "Not connected.");
}

#[test]
fn odometry_creates_and_updates_a_robot() {
    let mut m = ZenohManager::new();
    let pose = OdomPose { x: 1.5f64.to_bits(), y: (-2.0f64).to_bits(), yaw: 0.25f64.to_bits() };
    assert!(m.record_odom_sample("fleet/alpha/odom", 1000, Some(pose)));
    let robots = m.robots_list();
    assert_eq!(robots.len(), 1);
    let r = &robots[0];
    assert_eq!(r.name, "alpha");
    assert_eq!(r.odom_key, "fleet/alpha/odom");
    assert_eq!(r.odom_x, Some(1.5f64.to_bits()));
    assert_eq!(r.odom_y, Some((-2.0f64).to_bits()));
    assert_eq!(r.yaw_rad, Some(0.25f64.to_bits()));
    assert_eq!(r.last_seen_ms, 1000);
    assert_eq!(r.gnss_lat, None);

    // An undecodable sample still marks the robot as seen.
    assert!(m.record_odom_sample("fleet/alpha/odom", 2000, None));
    let r = &m.robots_list()[0];
    assert_eq!(r.last_seen_ms, 2000);
    assert_eq!(r.odom_x, Some(1.5f64.to_bits()));
}

#[test]
fn a_key_without_a_robot_is_ignored() {
    let mut m = ZenohManager::new();
    assert!(!m.record_odom_sample("odom", 5, None));
    assert!(!m.record_gnss_sample("fleet/imu", 5, None));
    assert!(m.robots_list().is_empty());
}

#[test]
fn gnss_keys_are_kept_sorted_and_once() {
    let mut m = ZenohManager::new();
    let fix = GnssFix { latitude: 52.1f64.to_bits(), longitude: 5.2f64.to_bits() };
    assert!(m.record_gnss_sample("beta/gnss/fix", 10, Some(fix)));
    assert!(m.record_gnss_sample("beta/gnss/a", 11, None));
    assert!(m.record_gnss_sample("beta/gnss/fix", 12, None));
    let r = &m.robots_list()[0];
    assert_eq!(r.name, "beta");
    assert_eq!(r.gnss_keys, vec!["beta/gnss/a".to_string(), "beta/gnss/fix".to_string()]);
    assert_eq!(r.gnss_lat, Some(52.1f64.to_bits()));
    assert_eq!(r.gnss_lon, Some(5.2f64.to_bits()));
    assert_eq!(r.last_seen_ms, 12);
}

#[test]
fn robots_are_listed_by_name() {
    let mut m = ZenohManager::new();
    m.record_odom_sample("zeta/odom", 1, None);
    m.record_odom_sample("alpha/odom", 2, None);
    m.record_odom_sample("mu/odom", 3, None);
    let names: Vec<String> = m.robots_list().into_iter().map(|r| r.name).collect();
    assert_eq!(names, vec!["alpha", "mu", "zeta"]);
}

#[test]
fn activity_marks_named_robots_seen() {
    let mut m = ZenohManager::new();
    m.record_odom_sample("alpha/odom", 1, None);
    m.record_odom_sample("beta/odom", 1, None);
    m.record_activity("site/alpha/battery", 99);
    let robots = m.robots_list();
    assert_eq!(robots[0].last_seen_ms, 99);
    assert_eq!(robots[1].last_seen_ms, 1);
}

#[test]
fn connecting_and_disconnecting() {
    let mut m = ZenohManager::new();
    m.record_odom_sample("alpha/odom", 1, None);
    let refused = m
        .begin_connect(&ZenohConnectRequest {
            endpoint: "  ".to_string(),
            connection_type: ZenohConnectionType::Udp,
        })
        .err()
        .unwrap();
    assert_eq!(refused.state, ZenohConnectionState::Error);
    assert_eq!(refused.status, "Enter a Zenoh endpoint first.");
    assert_eq!(refused.connection_type, ZenohConnectionType::Udp);
    assert_eq!(m.robots_list().len(), 1);

    let endpoint = m
        .begin_connect(&ZenohConnectRequest {
            endpoint: " 10.0.0.1:7447 ".to_string(),
            connection_type: ZenohConnectionType::Tcp,
        })
        .ok()
        .unwrap();
    assert_eq!(endpoint, "10.0.0.1:7447");
    assert!(m.robots_list().is_empty());
    let s = m.status_report();
    assert_eq!(s.state, ZenohConnectionState::Connecting);
    assert_eq!(s.status, "Connecting to 10.0.0.1:7447 via tcp...");

    let (code, ok) = m.finish_connect(&endpoint, ZenohConnectionType::Tcp, None);
    assert_eq!(code, 200);
    assert_eq!(ok.state, ZenohConnectionState::Connected);
    assert_eq!(ok.status, "Connected to 10.0.0.1:7447 via tcp.");
    assert_eq!(m.status_report().status, "Connected to 10.0.0.1:7447 via tcp.");

    let (code, failed) = m.finish_connect(&endpoint, ZenohConnectionType::Tcp, Some("timeout"));
    assert_eq!(code, 502);
    assert_eq!(failed.state, ZenohConnectionState::Error);
    assert_eq!(failed.status, "Zenoh connect failed: timeout");

    m.record_odom_sample("alpha/odom", 1, None);
    let off = m.disconnect();
    assert_eq!(off.state, ZenohConnectionState::Disconnected);
    assert_eq!(off.status, "Not connected.");
    assert!(m.robots_list().is_empty());
}

#[test]
fn watcher_failures_are_reported() {
    let mut m = ZenohManager::new();
    m.watcher_failed("**/odom", "closed");
    assert_eq!(m.status_report().state, ZenohConnectionState::Error);
    assert_eq!(m.status_report().status, "Zenoh robot watcher failed for **/odom: closed");
    m.activity_watcher_failed("gone");
    assert_eq!(m.status_report().status, "Zenoh activity watcher failed: gone");
    m.clear_robots();
    assert!(m.robots_list().is_empty());
}

#[test]
fn sorted_text_insertion() {
    let mut v: Vec<String> = Vec::new();
    insert_text_sorted(&mut v, "b".to_string());
    insert_text_sorted(&mut v, "a".to_string());
    insert_text_sorted(&mut v, "c".to_string());
    insert_text_sorted(&mut v, "b".to_string());
    assert_eq!(v, vec!["a", "b", "c"]);
}
