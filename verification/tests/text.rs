use actus::numbers::parse_i64;
use actus::numbers::parse_u32;
use actus::numbers::parse_u64;
use actus::numbers::u64_to_string;
use actus::strmap::StrMap;
use actus::text::eq_ignore_case;
use actus::text::join_strings;
use actus::text::lower_str;
use actus::text::replace_str;
use actus::text::segments;
use actus::text::split_str;
use actus::text::str_contains;
use actus::text::str_ends_with;
use actus::text::str_less;
use actus::text::str_starts_with;
use actus::text::strip_prefix;
use actus::text::trim_str;

#[test]
fn text_is_split_and_joined_like_std_does() {
    for s in ["", "/", "a/b", "/a//b/", "\u{e9}/\u{1f600}"] {
        let pieces = split_str(s, '/');
        let expected: Vec<&str> = s.split('/').collect();
        assert_eq!(pieces, expected);
        assert_eq!(join_strings(&pieces, "/"), s);
        let expected: Vec<&str> = s.split('/').filter(|p| !p.is_empty()).collect();
        assert_eq!(segments(s), expected);
    }
}

#[test]
fn text_is_trimmed_like_std_does() {
    for s in ["", " a b ", "\t\n\u{a0}x\u{3000}", "\u{2028}", "no space"] {
        assert_eq!(trim_str(s), s.trim());
    }
}

#[test]
fn ascii_case_is_folded_and_no_other() {
    assert_eq!(lower_str("ABCxyz\u{c9}"), "abcxyz\u{c9}");
    assert!(eq_ignore_case("GZip", "gzip"));
    assert!(!eq_ignore_case("\u{c9}", "\u{e9}"));
}

#[test]
fn parts_of_text_are_found() {
    assert!(str_starts_with("application/json", "application/"));
    assert!(!str_starts_with("app", "application/"));
    assert!(str_ends_with("a+json", "+json"));
    assert!(!str_ends_with("json", "+json"));
    assert!(str_contains("xx{...a}", "{..."));
    assert!(!str_contains("xx{..a}", "{..."));
    assert_eq!(strip_prefix("Bearer x", "Bearer "), Some("x".to_string()));
    assert_eq!(strip_prefix("Basic x", "Bearer "), None);
    assert_eq!(replace_str("aaa", "aa", "b"), "aaa".replace("aa", "b"));
    assert_eq!(replace_str("{...a}{...b}", "{...", "{"), "{a}{b}");
}

#[test]
fn text_is_ordered_like_std_does() {
    let all = ["", "a", "aa", "ab", "b", "Z", "\u{e9}"];
    for a in all {
        for b in all {
            assert_eq!(str_less(a, b), a < b);
        }
    }
}

#[test]
fn numbers_are_read_like_std_does() {
    let all = [
        "", "0", "7", "007", "+5", "-5", "-", "+", "--5", "1 ", "x", "1x",
        "4294967295", "4294967296", "18446744073709551615", "18446744073709551616",
        "9223372036854775807", "9223372036854775808", "-9223372036854775808",
        "-9223372036854775809", "99999999999999999999999999",
    ];
    for s in all {
        assert_eq!(parse_u64(s), s.parse::<u64>().ok(), "{s}");
        assert_eq!(parse_u32(s), s.parse::<u32>().ok(), "{s}");
        assert_eq!(parse_i64(s), s.parse::<i64>().ok(), "{s}");
    }
}

#[test]
fn numbers_are_written_like_std_does() {
    for n in [0, 9, 10, 12345, u64::MAX] {
        assert_eq!(u64_to_string(n), n.to_string());
        assert_eq!(parse_u64(&u64_to_string(n)), Some(n));
    }
}

#[test]
fn maps_keep_the_last_value_and_multimaps_all() {
    let mut m: StrMap<u8> = StrMap::new();
    assert_eq!(m.insert("a".to_string(), 1), None);
    assert_eq!(m.insert("b".to_string(), 2), None);
    assert_eq!(m.insert("a".to_string(), 3), Some(1));
    assert_eq!(m.len(), 2);
    assert_eq!(m.get("a"), Some(&3));
    assert!(m.contains_key("b"));
    assert!(!m.contains_key("c"));

    let mut multi: StrMap<Vec<String>> = StrMap::new();
    multi.append("k".to_string(), "1".to_string());
    multi.append("k".to_string(), "2".to_string());
    assert_eq!(multi.get("k").unwrap(), &["1".to_string(), "2".to_string()]);
    let copy = multi.duplicate();
    multi.append("k".to_string(), "3".to_string());
    assert_eq!(copy.get("k").unwrap().len(), 2);
}
