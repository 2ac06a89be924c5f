use robodeck::platform::{
    connect_endpoints_json, ensure_frontend_dist_exists, millis_to_u64, new_id, now_ms, random_robot_color,
    robot_color_text, EndpointConfigError,
};
use robodeck::zenoh_api::{LocatorError, ZenohConnectRequest, ZenohConnectionType};

#[test]
fn fresh_ids_are_version_four_uuids() {
    let a = new_id();
    let b = new_id();
    assert_ne!(a, b);
    assert_eq!(a.len(), 36);
    for (i, c) in a.chars().enumerate() {
        match i {
            8 | 13 | 18 | 23 => assert_eq!(c, '-'),
            14 => assert_eq!(c, '4'),
            _ => assert!(c.is_ascii_digit() || ('a'..='f').contains(&c)),
        }
    }
}

#[test]
fn robot_colours_are_in_range() {
    for _ in 0..50 {
        let c = random_robot_color();
        assert!(c.starts_with("hsl(") && c.ends_with("%)"));
        let inner = &c[4..c.len() - 1];
        let parts: Vec<&str> = inner.split(' ').collect();
        assert_eq!(parts.len(), 3);
        let h: u32 = parts[0].parse().unwrap();
        let s: u32 = parts[1].trim_end_matches('%').parse().unwrap();
        let l: u32 = parts[2].trim_end_matches('%').parse().unwrap();
        assert!(h < 360);
        assert!((62..82).contains(&s));
        assert!((54..68).contains(&l));
    }
}

#[test]
fn the_clock_reads_after_the_epoch() {
    assert!(now_ms() > 1_600_000_000_000);
    assert_eq!(millis_to_u64(None), 0);
    assert_eq!(millis_to_u64(Some(42)), 42);
    assert_eq!(millis_to_u64(Some((1u128 << 64) + 5)), 5);
}

#[test]
fn frontend_check() {
    assert!(ensure_frontend_dist_exists(true).is_ok());
    assert_eq!(
        ensure_frontend_dist_exists(false).err().unwrap(),
        "frontend assets are missing; run `trunk build` first so `dist/index.html` exists"
    );
}

#[test]
fn endpoint_configuration() {
    let ok = connect_endpoints_json(&ZenohConnectRequest {
        endpoint: "tcp://10.1.2.3:7447".to_string(),
        connection_type: ZenohConnectionType::Udp,
    });
    assert_eq!(ok.ok().unwrap(), "[\"udp/10.1.2.3:7447\"]");
    let bad = connect_endpoints_json(&ZenohConnectRequest {
        endpoint: "".to_string(),
        connection_type: ZenohConnectionType::Tcp,
    });
    assert!(matches!(bad, Err(EndpointConfigError::Locator(LocatorError::EmptyEndpoint))));
}

#[test]
fn endpoint_configuration_escapes_json() {
    let ok = connect_endpoints_json(&ZenohConnectRequest {
        endpoint: "host\"a\\b\tc\u{1}:7447".to_string(),
        connection_type: ZenohConnectionType::Tcp,
    });
    assert_eq!(ok.ok().unwrap(), "[\"tcp/host\\\"a\\\\b\\tc\\u0001:7447\"]");
}

#[test]
fn robot_colour_text_format() {
    assert_eq!(robot_color_text(10, 70, 60), "hsl(10 70% 60%)");
    assert_eq!(robot_color_text(0, 65, 55), "hsl(0 65% 55%)");
}
