use robodeck::graph::insert_node;
use robodeck::props::{
    get_bool_prop, get_prop, parse_association_lines, parse_properties_text, properties_text,
    set_bool_prop, set_prop, texts_contain, zone_membership_lines, zone_node_lines,
};
use robodeck::workspace::{JsonPoint, WorkspaceJson};
use robodeck::zone_edit::insert_zone;

fn pt(lat: f64, lon: f64) -> JsonPoint {
    JsonPoint { lat: lat.to_bits(), lon: lon.to_bits() }
}

fn props(pairs: &[(&str, &str)]) -> Vec<(String, String)> {
    let mut v: Vec<(String, String)> = Vec::new();
    for (k, val) in pairs {
        robodeck::keyed::insert_key(&mut v, k.to_string(), val.to_string());
    }
    v
}

#[test]
fn property_text_is_sorted_key_value_lines() {
    let p = props(&[("speed", "3"), ("lane", "left")]);
    assert_eq!(properties_text(&p), "lane=left\nspeed=3");
    assert_eq!(properties_text(&Vec::new()), "");
}

#[test]
fn property_text_parsing() {
    let p = parse_properties_text("  b = 2 \n\na=1\nflag\nx = y = z\nb=3\n");
    assert_eq!(
        p,
        vec![
            ("a".to_string(), "1".to_string()),
            ("b".to_string(), "3".to_string()),
            ("flag".to_string(), "".to_string()),
            ("x".to_string(), "y = z".to_string()),
        ]
    );
    assert!(parse_properties_text("").is_empty());
    assert!(parse_properties_text("\n  \n").is_empty());
}

#[test]
fn property_text_round_trip() {
    let p = props(&[("traffic.policy", "fifo"), ("name", "Dock A"), ("empty", "")]);
    assert_eq!(parse_properties_text(&properties_text(&p)), p);
}

#[test]
fn property_text_round_trip_fails_for_a_key_with_equals() {
    let p = props(&[("a=b", "c")]);
    assert_eq!(parse_properties_text(&properties_text(&p)), props(&[("a", "b=c")]));
}

#[test]
fn get_and_set_properties() {
    let mut p = props(&[("speed", "3")]);
    assert_eq!(get_prop(&p, "speed"), "3");
    assert_eq!(get_prop(&p, "missing"), "");
    set_prop(&mut p, "lane", "  left ".to_string());
    assert_eq!(get_prop(&p, "lane"), "left");
    set_prop(&mut p, "speed", "   ".to_string());
    assert_eq!(get_prop(&p, "speed"), "");
    assert_eq!(p, vec![("lane".to_string(), "left".to_string())]);
}

#[test]
fn get_and_set_flags() {
    let mut p = props(&[("a", "yes"), ("b", "true")]);
    assert!(!get_bool_prop(&p, "a"));
    assert!(get_bool_prop(&p, "b"));
    assert!(!get_bool_prop(&p, "c"));
    set_bool_prop(&mut p, "c", true);
    assert!(get_bool_prop(&p, "c"));
    assert_eq!(get_prop(&p, "c"), "true");
    set_bool_prop(&mut p, "b", false);
    assert!(!get_bool_prop(&p, "b"));
    assert_eq!(p.len(), 2);
}

#[test]
fn association_lines_parse_ids() {
    let ids = parse_association_lines("Dock (z1)\n  z2  \n\nYard ( z3 )\nDock again (z1)\nodd ()\n(x)y\n");
    assert_eq!(ids, vec!["z1", "z2", "z3", "odd ()", "(x)y"]);
    assert!(parse_association_lines("").is_empty());
}

#[test]
fn membership_and_node_lines() {
    let mut ws = WorkspaceJson::default();
    let square = vec![pt(0.0, 0.0), pt(0.0, 1.0), pt(1.0, 1.0)];
    insert_zone(&mut ws, "z1".to_string(), square, None);
    insert_node(&mut ws, "n1".to_string(), pt(0.2, 0.2));
    let lines = zone_membership_lines(&ws, &["z1".to_string(), "gone".to_string()]);
    assert_eq!(lines, vec!["Root Zone (z1)", "gone"]);
    let back = parse_association_lines(&lines.join("\n"));
    assert_eq!(back, vec!["z1", "gone"]);

    let zi = ws.zones.iter().position(|(k, _)| k == "z1").unwrap();
    ws.zones[zi].1.node_ids = vec!["n1".to_string(), "n9".to_string()];
    assert_eq!(zone_node_lines(&ws, "z1"), vec!["Node 1 (n1)", "n9"]);
    assert!(zone_node_lines(&ws, "zz").is_empty());
}

#[test]
fn texts_contain_finds_exact_matches() {
    let v = vec!["a".to_string(), "bc".to_string()];
    assert!(texts_contain(&v, "bc"));
    assert!(!texts_contain(&v, "b"));
}

#[test]
fn zone_tree_row_text() {
    let mut ws = WorkspaceJson::default();
    let square = vec![pt(0.0, 0.0), pt(0.0, 1.0), pt(1.0, 1.0), pt(1.0, 0.0)];
    insert_zone(&mut ws, "r".to_string(), square.clone(), None);
    insert_zone(&mut ws, "c".to_string(), square[..3].to_vec(), Some("r".to_string()));
    let root = &ws.zones.iter().find(|(k, _)| k == "r").unwrap().1;
    let child = &ws.zones.iter().find(|(k, _)| k == "c").unwrap().1;
    assert_eq!(robodeck::props::zone_row_meta(&ws, root), "root · 4 pts");
    assert_eq!(robodeck::props::zone_row_meta(&ws, child), "zone · 3 pts");
}

#[test]
fn property_text_round_trip_with_empty_key() {
    let p = props(&[("", "v"), ("a", "")]);
    assert_eq!(properties_text(&p), "=v\na=");
    assert_eq!(parse_properties_text(&properties_text(&p)), p);
}
