use robodeck::order::text_less;
use robodeck::text::{
    append_decimal, chars_of, find_in, rfind_char, split_ranges, substring, text_eq, trim_char_range,
    trim_range, trimmed,
};

#[test]
fn trimmed_strips_unicode_white_space() {
    assert_eq!(trimmed("  hello \t\n"), "hello");
    assert_eq!(trimmed("\u{3000}x y\u{a0}"), "x y");
    assert_eq!(trimmed("   "), "");
    assert_eq!(trimmed(""), "");
}

#[test]
fn text_eq_compares_characters() {
    assert!(text_eq("abc", "abc"));
    assert!(!text_eq("abc", "abd"));
    assert!(!text_eq("ab", "abc"));
    assert!(text_eq("", ""));
}

#[test]
fn substring_counts_characters() {
    assert_eq!(substring("héllo", 1, 4), "éll");
    assert_eq!(substring("abc", 0, 0), "");
}

#[test]
fn append_decimal_writes_base_ten() {
    let mut s = String::from("Zone ");
    append_decimal(&mut s, 0);
    assert_eq!(s, "Zone 0");
    let mut t = String::new();
    append_decimal(&mut t, 1234567890);
    assert_eq!(t, "1234567890");
    let mut u = String::new();
    append_decimal(&mut u, u64::MAX);
    assert_eq!(u, "18446744073709551615");
}

#[test]
fn ranges_over_characters() {
    let cs = chars_of("  a/b//c  ");
    assert_eq!(trim_range(&cs, 0, cs.len()), (2, 8));
    let slashes = chars_of("//x//");
    assert_eq!(trim_char_range(&slashes, 0, slashes.len(), '/'), (2, 3));
    let parts = split_ranges(&cs, 2, 8, '/');
    assert_eq!(parts, vec![(2, 3), (4, 5), (6, 6), (7, 8)]);
    let hay = chars_of("tcp://host");
    assert_eq!(find_in(&hay, 0, hay.len(), &chars_of("://")), Some(3));
    assert_eq!(find_in(&hay, 0, hay.len(), &chars_of("udp")), None);
    assert_eq!(rfind_char(&chars_of("a(b)(c)"), 0, 7, '('), Some(4));
    assert_eq!(rfind_char(&chars_of("abc"), 0, 3, '('), None);
}

#[test]
fn text_less_is_lexicographic_by_code_point() {
    assert!(text_less(&chars_of("a"), &chars_of("b")));
    assert!(text_less(&chars_of("ab"), &chars_of("abc")));
    assert!(!text_less(&chars_of("abc"), &chars_of("ab")));
    assert!(!text_less(&chars_of("x"), &chars_of("x")));
    assert!(text_less(&chars_of(""), &chars_of("a")));
    assert!(text_less(&chars_of("Z"), &chars_of("a")));
}

#[test]
fn trimming_twice_is_trimming_once() {
    for s in ["  a b  ", "\t\n", "x", "", " \u{2003}y\u{2003} "] {
        assert_eq!(trimmed(&trimmed(s)), trimmed(s));
    }
}
