use lumelir::diag::{format_error, format_error_at, offset_to_line_col, snippet, HasOffset};

#[test]
fn snippet_single_line_source() {
    // 1-col-wide caret at the offset; gutter keeps two spaces.
    let s = snippet("abc", 1);
    assert_eq!(s, "  | abc\n  |  ^\n");
}

#[test]
fn snippet_caret_at_first_column() {
    let s = snippet("xyz", 0);
    assert_eq!(s, "  | xyz\n  | ^\n");
}

#[test]
fn snippet_picks_offending_line_in_multi_line_source() {
    // The error is on line 2 ("def"), col 2.
    let s = snippet("abc\ndef\nghi", 5);
    assert_eq!(s, "  | def\n  |  ^\n");
}

#[test]
fn snippet_caret_aligns_under_multibyte_char() {
    // 'あ' is 1 char wide. Offset 4 lands just after it in
    // "aあb" (byte 4 == 'b'). Caret should be at col 3.
    let s = snippet("aあb", 4);
    assert_eq!(s, "  | aあb\n  |   ^\n");
}

#[test]
fn snippet_clamps_offset_past_eof_to_last_line() {
    // Past EOF — caret lands one past the last char of the
    // last line.
    let s = snippet("abc", 99);
    assert_eq!(s, "  | abc\n  |    ^\n");
}

#[test]
fn snippet_empty_source_emits_blank_line_and_caret() {
    let s = snippet("", 0);
    assert_eq!(s, "  | \n  | ^\n");
}

#[test]
fn offset_zero_is_line_one_col_one() {
    assert_eq!(offset_to_line_col("abc", 0), (1, 1));
}

#[test]
fn offset_after_first_newline_starts_line_two() {
    assert_eq!(offset_to_line_col("abc\nxyz", 4), (2, 1));
}

#[test]
fn offset_at_third_line_first_char() {
    assert_eq!(offset_to_line_col("a\nb\nc", 4), (3, 1));
}

#[test]
fn col_advances_within_a_line() {
    // "abc": offset 2 → col 3 (1-based).
    assert_eq!(offset_to_line_col("abc", 2), (1, 3));
}

#[test]
fn col_counts_chars_not_bytes() {
    // 'あ' is 3 UTF-8 bytes. Offset 4 lands just after it.
    assert_eq!(offset_to_line_col("aあb", 4), (1, 3));
}

#[test]
fn out_of_range_offset_clamps_to_eof() {
    // No panic. Reports the position right after the last char.
    let (line, col) = offset_to_line_col("abc", 999);
    assert_eq!(line, 1);
    assert_eq!(col, 4);
}

#[test]
fn empty_source_offset_zero_is_line_one_col_one() {
    assert_eq!(offset_to_line_col("", 0), (1, 1));
}

#[test]
fn newline_at_end_doesnt_double_count_line() {
    // Offset right at the trailing newline byte is still on line 1.
    assert_eq!(offset_to_line_col("abc\n", 3), (1, 4));
}

#[test]
fn snippet_past_eof_after_trailing_newline_shows_empty_last_line() {
    assert_eq!(snippet("abc\n", 10), "  | \n  | ^\n");
    assert_eq!(offset_to_line_col("abc\n", 10), (2, 1));
}

#[test]
fn snippet_on_newline_byte_shows_line_it_closes() {
    assert_eq!(snippet("ab\ncd", 2), "  | ab\n  |   ^\n");
}

#[test]
fn snippet_is_two_lines_for_multiline_source() {
    let s = snippet("one\ntwo\nthree", 9);
    assert_eq!(s.matches('\n').count(), 2);
    assert!(s.ends_with('\n'));
    assert_eq!(s, "  | three\n  |  ^\n");
}

#[test]
fn caret_column_matches_reported_column() {
    let src = "x = 1\n  yあz = 2";
    let (_, col) = offset_to_line_col(src, 11);
    let s = snippet(src, 11);
    let caret_line = s.lines().nth(1).unwrap();
    assert_eq!(caret_line.chars().count() - "  | ".len(), col);
}

#[test]
fn format_error_at_renders_header_and_snippet() {
    let out = format_error_at("local x = \nprint(", "main.lua", "parse", 11, "unexpected token");
    assert_eq!(
        out,
        "main.lua:2:1: parse error: unexpected token\n  | print(\n  | ^\n"
    );
}

#[test]
fn format_error_at_renders_multi_digit_line_and_col() {
    let mut src = String::new();
    for _ in 0..11 {
        src.push('\n');
    }
    src.push_str("0123456789abc");
    let out = format_error_at(&src, "f.lua", "hir", 11 + 12, "bad");
    assert_eq!(out, "f.lua:12:13: hir error: bad\n  | 0123456789abc\n  |             ^\n");
}

struct At(usize);

impl HasOffset for At {
    fn spec_offset(&self) -> usize {
        self.0
    }

    fn offset(&self) -> usize {
        self.0
    }
}

#[test]
fn format_error_uses_the_error_offset() {
    let out = format_error("abc\ndef", "<inline>", "hir", &At(5), "unknown local");
    assert_eq!(out, "<inline>:2:2: hir error: unknown local\n  | def\n  |  ^\n");
}

#[test]
fn format_error_inside_multibyte_char_points_at_its_start() {
    // Byte 2 is inside 'あ' (bytes 1..4): rendered at the character itself.
    let out = format_error("aあb", "p", "parse", &At(2), "m");
    assert_eq!(out, "p:1:2: parse error: m\n  | aあb\n  |  ^\n");
}

#[test]
fn snippet_line_is_the_split_piece_of_the_reported_line() {
    let src = "first\nsé cond\n\nlast";
    for offset in [0usize, 3, 6, 9, 14, 15, 17, 40] {
        if !src.is_char_boundary(offset.min(src.len())) {
            continue;
        }
        let (l, c) = offset_to_line_col(src, offset);
        let line = src.split('\n').nth(l - 1).unwrap();
        let expected = format!("  | {}\n  | {}^\n", line, " ".repeat(c - 1));
        assert_eq!(snippet(src, offset), expected);
    }
}

#[test]
fn byte_after_a_newline_starts_the_next_line() {
    let src = "ab\ncé\nd";
    for (i, b) in src.bytes().enumerate() {
        if b == b'\n' {
            let (l, _) = offset_to_line_col(src, i);
            assert_eq!(offset_to_line_col(src, i + 1), (l + 1, 1));
        }
    }
}
