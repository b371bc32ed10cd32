use artifact_cache::text::{format_i64, format_u64, parse_u64, starts_with, str_eq, to_lowercase, chars_of, trim_range};
use artifact_cache::pull::parse_keys;

#[test]
fn parse_u64_accepts_plain_and_plus_signed_digits() {
    assert_eq!(parse_u64("1717084800"), Some(1717084800));
    assert_eq!(parse_u64("+42"), Some(42));
    assert_eq!(parse_u64("007"), Some(7));
    assert_eq!(parse_u64("0"), Some(0));
    assert_eq!(parse_u64("18446744073709551615"), Some(u64::MAX));
}

#[test]
fn parse_u64_rejects_what_std_rejects() {
    for s in ["", "+", "-", "-5", "12a", " 1", "1 ", "18446744073709551616", "99999999999999999999"] {
        assert_eq!(parse_u64(s), None, "input {:?}", s);
        assert!(s.parse::<u64>().is_err());
    }
}

#[test]
fn parse_u64_agrees_with_std_on_samples() {
    for s in ["1", "+0", "4294967296", "123456789012345"] {
        assert_eq!(parse_u64(s), s.parse::<u64>().ok());
    }
}

#[test]
fn format_numbers_in_decimal() {
    assert_eq!(format_u64(0), "0");
    assert_eq!(format_u64(1717084800), "1717084800");
    assert_eq!(format_u64(u64::MAX), u64::MAX.to_string());
    assert_eq!(format_i64(-12), "-12");
    assert_eq!(format_i64(i64::MIN), i64::MIN.to_string());
    assert_eq!(format_i64(10000), "10000");
}

#[test]
fn decimal_round_trip_on_samples() {
    for n in [0u64, 9, 10, 42, 1717084800, u64::MAX] {
        assert_eq!(parse_u64(&format_u64(n)), Some(n));
    }
}

#[test]
fn trim_drops_unicode_whitespace_at_both_ends() {
    let v = chars_of("\u{a0} \tLinux-node \u{3000}\n");
    assert_eq!(trim_range(&v, 0, v.len()), "Linux-node");
    let w = chars_of("   ");
    assert_eq!(trim_range(&w, 0, w.len()), "");
}

#[test]
fn string_helpers() {
    assert!(starts_with("sqlite://db.sqlite", "sqlite"));
    assert!(!starts_with("postgres://x", "sqlite"));
    assert!(!starts_with("sql", "sqlite"));
    assert!(str_eq("refs/heads/main", "refs/heads/main"));
    assert!(!str_eq("refs/heads/main", "refs/heads/mai"));
    assert_eq!(to_lowercase("Linux-Node-ÄB"), "linux-node-äb");
}

#[test]
fn keys_are_split_trimmed_lowercased_and_nonempty() {
    assert_eq!(parse_keys("Linux-node-20,Linux-node-"), vec!["linux-node-20", "linux-node-"]);
    assert_eq!(parse_keys(" A , ,b,,"), vec!["a", "b"]);
    assert_eq!(parse_keys(""), Vec::<String>::new());
    assert_eq!(parse_keys(",,,"), Vec::<String>::new());
    assert_eq!(parse_keys("single"), vec!["single"]);
}
