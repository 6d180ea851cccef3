use lumelir::pattern::{
    lumelir_string_find_init, lumelir_string_find_plain, lumelir_string_match_capture1,
    lumelir_string_match_extents, matches_class, rust_not, rust_starts_with,
};

/// (1-based start, length) of a packed extent; `None` for 0.
fn unpack(v: i64) -> Option<(i64, i64)> {
    if v == 0 {
        None
    } else {
        Some((v & 0xffff_ffff, v >> 32))
    }
}

fn find(s: &str, p: &str) -> Option<(i64, i64)> {
    unpack(lumelir_string_match_extents(s.as_bytes(), p.as_bytes()))
}

fn capture(s: &str, p: &str) -> Option<(i64, i64)> {
    unpack(lumelir_string_match_capture1(s.as_bytes(), p.as_bytes()))
}

#[test]
fn pattern_literal_substring() {
    assert_eq!(find("hello world", "o w"), Some((5, 3)));
    assert_eq!(capture("hello world", "o w"), Some((5, 3)));
}

#[test]
fn pattern_class_alpha_plus() {
    assert_eq!(find("hello world", "%a+"), Some((1, 5)));
    assert_eq!(capture("hello world", "%a+"), Some((1, 5)));
}

#[test]
fn pattern_class_digit_absent() {
    assert_eq!(find("hello world", "%d"), None);
    assert_eq!(capture("hello world", "%d"), None);
}

#[test]
fn pattern_class_digit_run() {
    assert_eq!(find("abc123", "%d+"), Some((4, 3)));
    assert_eq!(capture("abc123", "%d+"), Some((4, 3)));
}

#[test]
fn pattern_two_captures_last_wins() {
    assert_eq!(find("key = value", "(%a+) = (%a+)"), Some((1, 11)));
    assert_eq!(capture("key = value", "(%a+) = (%a+)"), Some((7, 5)));
}

#[test]
fn pattern_one_capture_second_word() {
    assert_eq!(find("key = value", "%a+ = (%a+)"), Some((1, 11)));
    assert_eq!(capture("key = value", "%a+ = (%a+)"), Some((7, 5)));
}

#[test]
fn pattern_lazy_dash_is_literal() {
    assert_eq!(find("  trim  ", "^%s*(.-)%s*$"), None);
    assert_eq!(capture("  trim  ", "^%s*(.-)%s*$"), None);
}

#[test]
fn pattern_caret_anchor_fails_midway() {
    assert_eq!(find("abc", "^b"), None);
    assert_eq!(capture("abc", "^b"), None);
}

#[test]
fn pattern_dollar_anchor_at_end() {
    assert_eq!(find("abc", "c$"), Some((3, 1)));
    assert_eq!(capture("abc", "c$"), Some((3, 1)));
}

#[test]
fn pattern_dollar_anchor_not_at_end() {
    assert_eq!(find("abc", "b$"), None);
    assert_eq!(capture("abc", "b$"), None);
}

#[test]
fn pattern_dash_is_not_a_quantifier() {
    assert_eq!(find("aaa", "a-"), None);
    assert_eq!(capture("aaa", "a-"), None);
}

#[test]
fn pattern_plus_is_greedy() {
    assert_eq!(find("hello", "l+"), Some((3, 2)));
    assert_eq!(capture("hello", "l+"), Some((3, 2)));
}

#[test]
fn pattern_star_matches_empty_at_start() {
    assert_eq!(find("hello", "l*"), Some((1, 0)));
    assert_eq!(capture("hello", "l*"), Some((1, 0)));
}

#[test]
fn pattern_star_of_absent_atom() {
    assert_eq!(find("hello", "x*"), Some((1, 0)));
    assert_eq!(capture("hello", "x*"), Some((1, 0)));
}

#[test]
fn pattern_optional_present() {
    assert_eq!(find("colour", "colou?r"), Some((1, 6)));
    assert_eq!(capture("colour", "colou?r"), Some((1, 6)));
}

#[test]
fn pattern_optional_absent() {
    assert_eq!(find("color", "colou?r"), Some((1, 5)));
    assert_eq!(capture("color", "colou?r"), Some((1, 5)));
}

#[test]
fn pattern_escaped_dot() {
    assert_eq!(find("a.b", "%."), Some((2, 1)));
    assert_eq!(capture("a.b", "%."), Some((2, 1)));
}

#[test]
fn pattern_dot_wildcard() {
    assert_eq!(find("a.b", "."), Some((1, 1)));
    assert_eq!(capture("a.b", "."), Some((1, 1)));
}

#[test]
fn pattern_escaped_brackets_with_capture() {
    assert_eq!(find("x=[12]", "%[(%d+)%]"), Some((3, 4)));
    assert_eq!(capture("x=[12]", "%[(%d+)%]"), Some((4, 2)));
}

#[test]
fn pattern_set_run() {
    assert_eq!(find("hello", "[aeiou]+"), Some((2, 1)));
    assert_eq!(capture("hello", "[aeiou]+"), Some((2, 1)));
}

#[test]
fn pattern_negated_set_run() {
    assert_eq!(find("hello", "[^aeiou]+"), Some((1, 1)));
    assert_eq!(capture("hello", "[^aeiou]+"), Some((1, 1)));
}

#[test]
fn pattern_upper_then_lowers() {
    assert_eq!(find("Hello World", "%u%l+"), Some((1, 5)));
    assert_eq!(capture("Hello World", "%u%l+"), Some((1, 5)));
}

#[test]
fn pattern_hex_capture() {
    assert_eq!(find("0x1F", "0x(%x+)"), Some((1, 4)));
    assert_eq!(capture("0x1F", "0x(%x+)"), Some((3, 2)));
}

#[test]
fn pattern_trailing_dash_in_set_is_literal() {
    assert_eq!(find("abc", "[a-]"), Some((1, 1)));
    assert_eq!(capture("abc", "[a-]"), Some((1, 1)));
}

#[test]
fn pattern_escaped_dash_in_set() {
    assert_eq!(find("a-c", "[%-]"), Some((2, 1)));
    assert_eq!(capture("a-c", "[%-]"), Some((2, 1)));
}

#[test]
fn pattern_empty_pattern_on_empty_subject() {
    assert_eq!(find("", ""), Some((1, 0)));
    assert_eq!(capture("", ""), Some((1, 0)));
}

#[test]
fn pattern_empty_pattern_matches_at_start() {
    assert_eq!(find("abc", ""), Some((1, 0)));
    assert_eq!(capture("abc", ""), Some((1, 0)));
}

#[test]
fn pattern_empty_capture() {
    assert_eq!(find("abc", "()"), Some((1, 0)));
    assert_eq!(capture("abc", "()"), Some((1, 0)));
}

#[test]
fn pattern_truncated_escape_never_matches() {
    assert_eq!(find("abc", "%"), None);
    assert_eq!(capture("abc", "%"), None);
}

#[test]
fn pattern_unclosed_set_spans_rest() {
    assert_eq!(find("abc", "[ab"), Some((1, 1)));
    assert_eq!(capture("abc", "[ab"), Some((1, 1)));
}

#[test]
fn pattern_space_class_matches_tab() {
    assert_eq!(find("tab\there", "%s"), Some((4, 1)));
    assert_eq!(capture("tab\there", "%s"), Some((4, 1)));
}

#[test]
fn pattern_whole_capture() {
    assert_eq!(find("x", "(x)"), Some((1, 1)));
    assert_eq!(capture("x", "(x)"), Some((1, 1)));
}

#[test]
fn pattern_capture_then_literal() {
    assert_eq!(find("xyz", "(y)z"), Some((2, 2)));
    assert_eq!(capture("xyz", "(y)z"), Some((2, 1)));
}

#[test]
fn pattern_last_path_component() {
    assert_eq!(find("path/to/file.lua", "[^/]+$"), Some((9, 8)));
    assert_eq!(capture("path/to/file.lua", "[^/]+$"), Some((9, 8)));
}

#[test]
fn pattern_date_fields() {
    assert_eq!(find("2024-05-07", "(%d+)-(%d+)-(%d+)"), Some((1, 10)));
    assert_eq!(capture("2024-05-07", "(%d+)-(%d+)-(%d+)"), Some((9, 2)));
}

#[test]
fn find_init_one_and_below_agree_with_find() {
    for init in [-5i64, 0, 1] {
        assert_eq!(
            lumelir_string_find_init(b"hello hello", b"llo", init),
            lumelir_string_match_extents(b"hello hello", b"llo")
        );
    }
    assert_eq!(lumelir_string_find_init(b"hello hello", b"llo", 1), 12884901891);
}

#[test]
fn find_init_skips_earlier_matches() {
    assert_eq!(unpack(lumelir_string_find_init(b"hello hello", b"llo", 4)), Some((9, 3)));
}

#[test]
fn find_init_past_end_finds_nothing() {
    assert_eq!(lumelir_string_find_init(b"hello", b"l", 10), 0);
    assert_eq!(lumelir_string_find_init(b"abc", b"c", 3), 4294967299);
    assert_eq!(lumelir_string_find_init(b"abc", b"c", 4), 0);
}

#[test]
fn find_init_empty_pattern_matches_at_init_clamped() {
    assert_eq!(lumelir_string_find_init(b"hello", b"", 3), 3);
    assert_eq!(lumelir_string_find_init(b"hello", b"", 99), 6);
}

#[test]
fn find_init_anchored_pattern_only_at_init() {
    assert_eq!(lumelir_string_find_init(b"hello", b"^h", 2), 0);
    assert_eq!(lumelir_string_find_init(b"hello", b"^e", 2), 4294967298);
}

#[test]
fn find_plain_first_occurrence() {
    assert_eq!(lumelir_string_find_plain(b"hello hello", b"llo"), 3);
    assert_eq!(lumelir_string_find_plain(b"a.b.c", b".c"), 4);
    assert_eq!(lumelir_string_find_plain(b"abc", b"abc"), 1);
}

#[test]
fn find_plain_absent_or_too_long() {
    assert_eq!(lumelir_string_find_plain(b"hello", b"xyz"), 0);
    assert_eq!(lumelir_string_find_plain(b"ab", b"abc"), 0);
    assert_eq!(lumelir_string_find_plain(b"", b"a"), 0);
}

#[test]
fn find_plain_empty_needle_matches_at_one() {
    assert_eq!(lumelir_string_find_plain(b"hello", b""), 1);
    assert_eq!(lumelir_string_find_plain(b"", b""), 1);
}

#[test]
fn find_plain_magic_chars_are_literal() {
    assert_eq!(lumelir_string_find_plain(b"50% off", b"%"), 3);
}

#[test]
fn starts_with_prefix() {
    assert!(rust_starts_with(b"hello", b"he"));
    assert!(rust_starts_with(b"hello", b""));
    assert!(rust_starts_with(b"hello", b"hello"));
    assert!(!rust_starts_with(b"hello", b"hex"));
    assert!(!rust_starts_with(b"he", b"hello"));
}

#[test]
fn not_negates() {
    assert!(!rust_not(true));
    assert!(rust_not(false));
}

#[test]
fn class_letters_and_complements() {
    assert!(matches_class(b'q', b'a'));
    assert!(!matches_class(b'7', b'a'));
    assert!(matches_class(b'7', b'A'));
    assert!(matches_class(b'\x0b', b's'));
    assert!(matches_class(b'_', b'p'));
    assert!(!matches_class(b'_', b'w'));
    assert!(matches_class(b'F', b'x'));
    assert!(!matches_class(b'G', b'x'));
    assert!(matches_class(0x7f, b'c'));
    assert!(matches_class(b'.', b'.'));
    assert!(!matches_class(b'a', b'.'));
}

#[test]
fn packed_extent_unpacks() {
    let v = lumelir_string_match_extents(b"xxabcxx", b"abc");
    assert_eq!(v & 0xffff_ffff, 3);
    assert_eq!(v >> 32, 3);
}

#[test]
fn capture_free_match_equals_find() {
    for (s, p) in [("hello world", "o w"), ("abc", "c$"), ("hello", "l+"), ("", "")] {
        assert_eq!(
            lumelir_string_match_capture1(s.as_bytes(), p.as_bytes()),
            lumelir_string_match_extents(s.as_bytes(), p.as_bytes())
        );
    }
}
