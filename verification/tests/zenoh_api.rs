use robodeck::zenoh_api::{
    key_matches_robot, normalize_locator, robot_name_from_key, topic_segments, LocatorError,
    TopicKind, ZenohConnectionState, ZenohConnectionType, ZenohStatusResponse,
};

#[test]
fn connection_type_names() {
    assert_eq!(ZenohConnectionType::Ws.as_str(), "ws");
    assert_eq!(ZenohConnectionType::Tcp.as_str(), "tcp");
    assert_eq!(ZenohConnectionType::Udp.as_str(), "udp");
    assert_eq!(ZenohConnectionType::Quic.as_str(), "quic");
    assert_eq!(ZenohConnectionType::Ws.display_name(), "WebSocket");
    assert_eq!(ZenohConnectionType::Tcp.display_name(), "TCP");
    assert_eq!(ZenohConnectionType::Udp.display_name(), "UDP");
    assert_eq!(ZenohConnectionType::Quic.display_name(), "QUIC");
}

#[test]
fn connection_type_round_trips_through_its_name() {
    for t in [
        ZenohConnectionType::Ws,
        ZenohConnectionType::Tcp,
        ZenohConnectionType::Udp,
        ZenohConnectionType::Quic,
    ] {
        assert_eq!(ZenohConnectionType::from_value(t.as_str()), t);
    }
    assert_eq!(ZenohConnectionType::from_value("bogus"), ZenohConnectionType::Ws);
    assert_eq!(ZenohConnectionType::from_value("TCP"), ZenohConnectionType::Ws);
}

#[test]
fn defaults() {
    assert_eq!(ZenohConnectionType::default(), ZenohConnectionType::Tcp);
    assert_eq!(ZenohConnectionState::default(), ZenohConnectionState::Disconnected);
    let d = ZenohStatusResponse::default();
    assert_eq!(d.state, ZenohConnectionState::Disconnected);
    assert_eq!(d.endpoint, "");
    assert_eq!(d.connection_type, ZenohConnectionType::Tcp);
    assert_eq!(d.status, "");
}

#[test]
fn disconnected_report() {
    let r = ZenohStatusResponse::disconnected();
    assert_eq!(r.state, ZenohConnectionState::Disconnected);
    assert_eq!(r.endpoint, "");
    assert_eq!(r.connection_type, ZenohConnectionType::Tcp);
    assert_eq!(r.status, "Not connected.");
    let c = r.clone();
    assert_eq!(c.status, "Not connected.");
}

#[test]
fn normalize_locator_adds_the_transport() {
    assert_eq!(
        normalize_locator(ZenohConnectionType::Tcp, " 127.0.0.1:7447 ").ok(),
        Some("tcp/127.0.0.1:7447".to_string())
    );
    assert_eq!(
        normalize_locator(ZenohConnectionType::Udp, "tcp://10.0.0.2:7447").ok(),
        Some("udp/10.0.0.2:7447".to_string())
    );
    assert_eq!(
        normalize_locator(ZenohConnectionType::Ws, "quic://host:1").ok(),
        Some("ws/host:1".to_string())
    );
    assert_eq!(
        normalize_locator(ZenohConnectionType::Quic, "ws://h:2").ok(),
        Some("quic/h:2".to_string())
    );
}

#[test]
fn normalize_locator_keeps_a_ready_locator() {
    assert_eq!(
        normalize_locator(ZenohConnectionType::Tcp, "udp/192.168.1.5:7447").ok(),
        Some("udp/192.168.1.5:7447".to_string())
    );
}

#[test]
fn normalize_locator_is_stable() {
    let once = normalize_locator(ZenohConnectionType::Tcp, "tcp://a:1").ok().unwrap();
    let twice = normalize_locator(ZenohConnectionType::Tcp, &once).ok().unwrap();
    assert_eq!(once, twice);
}

#[test]
fn normalize_locator_refuses_an_empty_endpoint() {
    let e = normalize_locator(ZenohConnectionType::Tcp, "   ").err().unwrap();
    assert_eq!(e, LocatorError::EmptyEndpoint);
    assert_eq!(e.message(), "empty endpoint");
}

#[test]
fn topic_segments_split_the_key() {
    assert_eq!(topic_segments("/robot1/odom/"), vec!["robot1", "odom"]);
    assert_eq!(topic_segments("a//b"), vec!["a", "", "b"]);
}

#[test]
fn key_matching() {
    assert!(key_matches_robot(&["fleet", "robot1", "odom"], "robot1"));
    assert!(key_matches_robot(&["fleet", "xrobot1y", "odom"], "robot1"));
    assert!(!key_matches_robot(&["fleet", "robot2", "odom"], "robot1"));
    assert!(key_matches_robot(&["robot1"], "robot1"));
}

#[test]
fn robot_names_from_keys() {
    assert_eq!(robot_name_from_key("fleet/robot1/odom", TopicKind::Odom), Some("robot1".to_string()));
    assert_eq!(robot_name_from_key("/robot1/odom/", TopicKind::Odom), Some("robot1".to_string()));
    assert_eq!(robot_name_from_key("robot1/odometry", TopicKind::Odom), None);
    assert_eq!(robot_name_from_key("odom", TopicKind::Odom), None);
    assert_eq!(robot_name_from_key("r2/gnss/fix", TopicKind::Gnss), Some("r2".to_string()));
    assert_eq!(robot_name_from_key("site/r3/gnss", TopicKind::Gnss), Some("r3".to_string()));
    assert_eq!(robot_name_from_key("r3/imu", TopicKind::Gnss), None);
    assert_eq!(robot_name_from_key("/gnss", TopicKind::Gnss), None);
}

#[test]
fn robot_name_round_trip_through_keys() {
    for prefix in ["", "/", "fleet/", "a//b/"] {
        for name in ["r1", "bot two", "x"] {
            let key = format!("{prefix}{name}/odom");
            assert_eq!(robot_name_from_key(&key, TopicKind::Odom), Some(name.to_string()));
        }
    }
    for key in ["a/ b /odom", "//x/gnss", "fleet/ r /gnss/fix"] {
        let kind = if key.contains("gnss") { TopicKind::Gnss } else { TopicKind::Odom };
        let n = robot_name_from_key(key, kind).unwrap();
        assert!(!n.is_empty() && n.trim() == n && !n.contains('/'));
    }
}
