//! User-facing diagnostic rendering. Lower layers report byte
//! offsets into the source; here an offset becomes a 1-based
//! `(line, column)` pair, a source snippet with a caret under the
//! column, and the one-line `path:line:col: <layer> error: <message>`
//! header. Columns count Unicode scalar values from the start of the
//! line. Pure text logic, no I/O.

use vstd::prelude::*;
use vstd::utf8::*;

verus! {

broadcast use vstd::utf8::char_is_scalar;

/// Number of UTF-8 bytes that encode `cs`.
pub open spec fn byte_len(cs: Seq<char>) -> nat {
    encode_utf8(cs).len()
}

/// Number of UTF-8 bytes that encode `c`.
pub open spec fn char_width(c: char) -> nat {
    encode_scalar(c as u32).len()
}

/// Number of leading characters of `cs` whose encodings fit entirely
/// within the first `budget` bytes.
pub open spec fn chars_within(cs: Seq<char>, budget: int) -> nat
    decreases cs.len(),
{
    if cs.len() == 0 {
        0
    } else if char_width(cs[0]) <= budget {
        1 + chars_within(cs.drop_first(), budget - char_width(cs[0]))
    } else {
        0
    }
}

/// A byte offset clamped to the end of the source.
pub open spec fn clamp_offset(src: Seq<char>, offset: int) -> int {
    if offset < byte_len(src) {
        offset
    } else {
        byte_len(src) as int
    }
}

/// Index of the character at which the (clamped) byte offset points.
pub open spec fn char_pos(src: Seq<char>, offset: int) -> nat {
    chars_within(src, clamp_offset(src, offset))
}

/// The (clamped) byte offset falls between two characters, never
/// inside the encoding of one.
pub open spec fn on_char_boundary(src: Seq<char>, offset: int) -> bool {
    byte_len(src.take(char_pos(src, offset) as int)) == clamp_offset(src, offset)
}

/// Number of `\n` characters in `cs`.
pub open spec fn count_newlines(cs: Seq<char>) -> nat
    decreases cs.len(),
{
    if cs.len() == 0 {
        0
    } else {
        count_newlines(cs.drop_last()) + if cs.last() == '\n' {
            1nat
        } else {
            0nat
        }
    }
}

/// Index just past the last `\n` of `cs`, 0 when there is none: where
/// the line that `cs` ends in begins.
pub open spec fn line_start(cs: Seq<char>) -> int
    decreases cs.len(),
{
    if cs.len() == 0 {
        0
    } else if cs.last() == '\n' {
        cs.len() as int
    } else {
        line_start(cs.drop_last())
    }
}

/// Index of the first `\n` at or after `from`, or the end of `cs`.
pub open spec fn line_end(cs: Seq<char>, from: int) -> int
    decreases cs.len() - from,
{
    if from < 0 || from >= cs.len() {
        cs.len() as int
    } else if cs[from] == '\n' {
        from
    } else {
        line_end(cs, from + 1)
    }
}

/// 1-based line of the byte offset: one more than the newlines before it.
pub open spec fn spec_line(src: Seq<char>, offset: int) -> int {
    count_newlines(src.take(char_pos(src, offset) as int)) + 1int
}

/// 0-based column (in characters) of the byte offset within its line.
pub open spec fn spec_col0(src: Seq<char>, offset: int) -> int {
    let k = char_pos(src, offset) as int;
    k - line_start(src.take(k))
}

proof fn lemma_char_width(c: char)
    ensures
        1 <= char_width(c) <= 4,
        (c as u32) < 0x80 ==> char_width(c) == 1,
        0x80 <= (c as u32) < 0x800 ==> char_width(c) == 2,
        0x800 <= (c as u32) < 0x10000 ==> char_width(c) == 3,
        0x10000 <= (c as u32) ==> char_width(c) == 4,
{
}

proof fn lemma_encode_concat(a: Seq<char>, b: Seq<char>)
    ensures
        encode_utf8(a + b) == encode_utf8(a) + encode_utf8(b),
    decreases a.len(),
{
    if a.len() == 0 {
        assert(a + b =~= b);
        assert(encode_utf8(a) =~= Seq::<u8>::empty());
        assert(encode_utf8(a) + encode_utf8(b) =~= encode_utf8(b));
    } else {
        lemma_encode_concat(a.drop_first(), b);
        assert((a + b).drop_first() =~= a.drop_first() + b);
        assert((a + b)[0] == a[0]);
        assert(encode_utf8(a + b) =~= encode_scalar(a[0] as u32) + encode_utf8(a.drop_first() + b));
        assert(encode_utf8(a) + encode_utf8(b) =~= encode_scalar(a[0] as u32) + (encode_utf8(
            a.drop_first(),
        ) + encode_utf8(b)));
    }
}

proof fn lemma_byte_len_step(cs: Seq<char>, k: int)
    requires
        0 <= k < cs.len(),
    ensures
        byte_len(cs.take(k + 1)) == byte_len(cs.take(k)) + char_width(cs[k]),
{
    assert(cs.take(k + 1) =~= cs.take(k) + seq![cs[k]]);
    lemma_encode_concat(cs.take(k), seq![cs[k]]);
    assert(seq![cs[k]].drop_first() =~= Seq::<char>::empty());
    assert(encode_utf8(seq![cs[k]]) =~= encode_scalar(cs[k] as u32) + encode_utf8(
        Seq::<char>::empty(),
    ));
}

proof fn lemma_byte_len_ge(cs: Seq<char>)
    ensures
        byte_len(cs) >= cs.len(),
    decreases cs.len(),
{
    if cs.len() > 0 {
        lemma_byte_len_ge(cs.drop_first());
        lemma_char_width(cs[0]);
    }
}

/// UTF-8 byte width of one character.
fn utf8_width(c: char) -> (r: usize)
    ensures
        r == char_width(c),
        1 <= r <= 4,
{
    proof {
        lemma_char_width(c);
    }
    let v = c as u32;
    if v < 0x80 {
        1
    } else if v < 0x800 {
        2
    } else if v < 0x10000 {
        3
    } else {
        4
    }
}

proof fn lemma_prefix_step(cs: Seq<char>, k: int)
    requires
        0 <= k < cs.len(),
    ensures
        count_newlines(cs.take(k + 1)) == count_newlines(cs.take(k)) + if cs[k] == '\n' {
            1nat
        } else {
            0nat
        },
        line_start(cs.take(k + 1)) == if cs[k] == '\n' {
            k + 1
        } else {
            line_start(cs.take(k))
        },
{
    assert(cs.take(k + 1).drop_last() =~= cs.take(k));
    assert(cs.take(k + 1).last() == cs[k]);
}

proof fn lemma_skip_step(cs: Seq<char>, k: int)
    requires
        0 <= k < cs.len(),
    ensures
        cs.skip(k).len() > 0,
        cs.skip(k)[0] == cs[k],
        cs.skip(k).drop_first() == cs.skip(k + 1),
{
    assert(cs.skip(k).drop_first() =~= cs.skip(k + 1));
}

/// Walk the source once and find, for the byte offset: the character
/// index it points at (`k`, counting only characters that end at or
/// before the clamped offset), the newlines before it, where its line
/// starts and where its line ends (all as character indices).
fn locate(src: &str, offset: usize) -> (r: (usize, usize, usize, usize, usize))
    requires
        byte_len(src@) <= usize::MAX,
    ensures
        r.2 == char_pos(src@, offset as int),
        r.4 == byte_len(src@.take(r.2 as int)),
        r.0 <= r.2,
        r.0 == count_newlines(src@.take(r.2 as int)),
        r.1 == line_start(src@.take(r.2 as int)),
        r.3 == line_end(src@, r.2 as int),
        r.2 <= src@.len(),
        r.3 <= src@.len(),
{
    let total = src.len();
    proof {
        lemma_byte_len_ge(src@);
    }
    let clamped = if offset < total {
        offset
    } else {
        total
    };
    let mut pos: usize = 0;
    let mut k: usize = 0;
    let mut newlines: usize = 0;
    let mut ls: usize = 0;
    let mut counting = true;
    let mut done = false;
    let mut le: usize = 0;
    let mut idx: usize = 0;
    proof {
        assert(src@.take(0) =~= Seq::<char>::empty());
        assert(src@.skip(0) =~= src@);
    }
    for c in it: src.chars()
        invariant
            it.seq() == src@,
            idx == it.index(),
            idx <= src@.len(),
            src@.len() <= total,
            total == byte_len(src@),
            clamped == clamp_offset(src@, offset as int),
            k <= idx,
            newlines <= k,
            ls <= k,
            newlines == count_newlines(src@.take(k as int)),
            ls == line_start(src@.take(k as int)),
            pos == byte_len(src@.take(k as int)),
            counting ==> k == idx && pos <= clamped
                && chars_within(src@, clamped as int) == k + chars_within(
                src@.skip(k as int),
                clamped - pos,
            ),
            !counting ==> k == chars_within(src@, clamped as int),
            !counting && !done ==> line_end(src@, k as int) == line_end(src@, idx as int),
            done ==> !counting && le == line_end(src@, k as int) && le <= src@.len(),
    {
        if !done {
            if counting {
                let w = utf8_width(c);
                proof {
                    lemma_skip_step(src@, k as int);
                    lemma_byte_len_step(src@, k as int);
                    lemma_prefix_step(src@, k as int);
                }
                if w <= clamped - pos {
                    pos = pos + w;
                    k = k + 1;
                    if c == '\n' {
                        newlines = newlines + 1;
                        ls = k;
                    }
                } else {
                    counting = false;
                }
            }
            if !counting {
                if c == '\n' {
                    le = idx;
                    done = true;
                }
            }
        }
        idx = idx + 1;
    }
    if !done {
        le = idx;
        if counting {
            assert(src@.skip(k as int) =~= Seq::<char>::empty());
        }
    }
    (newlines, ls, k, le, pos)
}

proof fn lemma_line_start_bounds(cs: Seq<char>)
    ensures
        0 <= line_start(cs) <= cs.len(),
        forall|j: int| line_start(cs) <= j < cs.len() ==> cs[j] != '\n',
    decreases cs.len(),
{
    if cs.len() > 0 && cs.last() != '\n' {
        lemma_line_start_bounds(cs.drop_last());
        assert forall|j: int| line_start(cs) <= j < cs.len() implies cs[j] != '\n' by {
            if j < cs.len() - 1 {
                assert(cs.drop_last()[j] == cs[j]);
            }
        }
    }
}

proof fn lemma_line_end_bounds(cs: Seq<char>, from: int)
    requires
        0 <= from <= cs.len(),
    ensures
        from <= line_end(cs, from) <= cs.len(),
    decreases cs.len() - from,
{
    if from < cs.len() && cs[from] != '\n' {
        lemma_line_end_bounds(cs, from + 1);
    }
}

proof fn lemma_line_end_skip(cs: Seq<char>, from: int, to: int)
    requires
        0 <= from <= to <= cs.len(),
        forall|j: int| from <= j < to ==> cs[j] != '\n',
    ensures
        line_end(cs, from) == line_end(cs, to),
    decreases to - from,
{
    if from < to {
        lemma_line_end_skip(cs, from + 1, to);
    }
}

/// Where the line holding the offset starts and ends (character
/// indices), the offset's character index, and its newline count.
proof fn lemma_line_of_offset(src: Seq<char>, k: int)
    requires
        0 <= k <= src.len(),
    ensures
        0 <= line_start(src.take(k)) <= k,
        line_end(src, line_start(src.take(k))) == line_end(src, k),
        k <= line_end(src, k) <= src.len(),
{
    let pre = src.take(k);
    lemma_line_start_bounds(pre);
    assert forall|j: int| line_start(pre) <= j < k implies src[j] != '\n' by {
        assert(pre[j] == src[j]);
    }
    lemma_line_end_skip(src, line_start(pre), k);
    lemma_line_end_bounds(src, k);
}

/// 1-based line and column for a byte offset into `src`. Lines are
/// bounded by `\n`; the column counts characters from the start of the
/// line. Offsets past the end clamp to the end of the source.
pub fn offset_to_line_col(src: &str, offset: usize) -> (r: (usize, usize))
    requires
        byte_len(src@) < usize::MAX,
        on_char_boundary(src@, offset as int),
    ensures
        r.0 == spec_line(src@, offset as int),
        r.1 == spec_col0(src@, offset as int) + 1,
{
    let (newlines, ls, k, _le, _pos) = locate(src, offset);
    proof {
        lemma_line_of_offset(src@, k as int);
        lemma_byte_len_ge(src@);
    }
    (newlines + 1, k - ls + 1)
}

/// The four-character gutter that starts each snippet line.
pub open spec fn gutter() -> Seq<char> {
    seq![' ', ' ', '|', ' ']
}

/// `n` spaces.
pub open spec fn spaces(n: nat) -> Seq<char> {
    Seq::new(n, |_i: int| ' ')
}

/// The source line that holds the byte offset, without its `\n`.
pub open spec fn source_line(src: Seq<char>, offset: int) -> Seq<char> {
    let ls = line_start(src.take(char_pos(src, offset) as int));
    src.subrange(ls, line_end(src, ls))
}

/// The two-line snippet: the offending source line, then a caret
/// under the offset's column, each behind the gutter and ended by `\n`.
pub open spec fn spec_snippet(src: Seq<char>, offset: int) -> Seq<char> {
    gutter() + source_line(src, offset) + seq!['\n'] + gutter() + spaces(
        spec_col0(src, offset) as nat,
    ) + seq!['^', '\n']
}

/// Render the source line containing `offset` and a caret aligned
/// under the corresponding column. Out-of-range offsets clamp to the
/// end of the source; an empty source gives a blank line and a caret
/// in column 1.
pub fn snippet(src: &str, offset: usize) -> (r: String)
    requires
        byte_len(src@) < usize::MAX,
        on_char_boundary(src@, offset as int),
    ensures
        r@ == spec_snippet(src@, offset as int),
{
    let (_newlines, ls, k, le, _pos) = locate(src, offset);
    proof {
        lemma_line_of_offset(src@, k as int);
    }
    let line = src.substring_char(ls, le);
    let col_chars = k - ls;
    let mut out = String::new();
    proof {
        reveal_strlit("  | ");
        reveal_strlit("\n");
        reveal_strlit(" ");
        reveal_strlit("^\n");
    }
    out.append("  | ");
    out.append(line);
    out.append("\n");
    out.append("  | ");
    let ghost head = out@;
    let mut i: usize = 0;
    while i < col_chars
        invariant
            i <= col_chars,
            out@ == head + spaces(i as nat),
        decreases col_chars - i,
    {
        proof {
            reveal_strlit(" ");
        }
        out.append(" ");
        i = i + 1;
        assert(out@ =~= head + spaces(i as nat));
    }
    out.append("^\n");
    assert(out@ =~= spec_snippet(src@, offset as int));
    out
}

/// The decimal digit characters.
pub open spec fn digit_chars() -> Seq<char> {
    seq!['0', '1', '2', '3', '4', '5', '6', '7', '8', '9']
}

/// Decimal rendering of `n`, most significant digit first, no
/// leading zeros.
pub open spec fn decimal(n: nat) -> Seq<char>
    decreases n,
{
    if n < 10 {
        seq![digit_chars()[n as int]]
    } else {
        decimal(n / 10) + seq![digit_chars()[(n % 10) as int]]
    }
}

/// Append the decimal rendering of `n` to `out`.
pub(crate) fn append_decimal(out: &mut String, n: usize)
    ensures
        final(out)@ == old(out)@ + decimal(n as nat),
    decreases n,
{
    if n >= 10 {
        append_decimal(out, n / 10);
    }
    let d = n % 10;
    proof {
        reveal_strlit("0123456789");
    }
    let digit = "0123456789".substring_char(d, d + 1);
    assert(digit@ =~= seq![digit_chars()[d as int]]);
    out.append(digit);
    if n >= 10 {
        assert(out@ =~= old(out)@ + decimal(n as nat));
    } else {
        assert(out@ =~= old(out)@ + decimal(n as nat));
    }
}

/// Errors that carry a byte offset into the source they were produced
/// from; the CLI uses it to render each error with its location.
pub trait HasOffset {
    /// The byte offset the error reports.
    spec fn spec_offset(&self) -> usize;

    fn offset(&self) -> (r: usize)
        ensures
            r == self.spec_offset(),
    ;
}

/// The full diagnostic: `path:line:col: <layer> error: <message>`,
/// a newline, then the snippet.
pub open spec fn spec_error_text(
    src: Seq<char>,
    path: Seq<char>,
    layer: Seq<char>,
    offset: int,
    message: Seq<char>,
) -> Seq<char> {
    path + seq![':'] + decimal(spec_line(src, offset) as nat) + seq![':'] + decimal(
        (spec_col0(src, offset) + 1) as nat,
    ) + seq![':', ' '] + layer + seq![' ', 'e', 'r', 'r', 'o', 'r', ':', ' '] + message + seq!['\n']
        + spec_snippet(src, offset)
}

/// Render an error at a known byte offset as
/// `path:line:col: <layer> error: <message>` followed by the snippet.
pub fn format_error_at(src: &str, path: &str, layer: &str, offset: usize, message: &str) -> (r: String)
    requires
        byte_len(src@) < usize::MAX,
        on_char_boundary(src@, offset as int),
    ensures
        r@ == spec_error_text(src@, path@, layer@, offset as int, message@),
{
    let (line, col) = offset_to_line_col(src, offset);
    let snip = snippet(src, offset);
    proof {
        reveal_strlit(":");
        reveal_strlit(": ");
        reveal_strlit(" error: ");
        reveal_strlit("\n");
    }
    let mut out = String::new();
    out.append(path);
    out.append(":");
    append_decimal(&mut out, line);
    out.append(":");
    append_decimal(&mut out, col);
    out.append(": ");
    out.append(layer);
    out.append(" error: ");
    out.append(message);
    out.append("\n");
    out.append(snip.as_str());
    assert(out@ =~= spec_error_text(src@, path@, layer@, offset as int, message@));
    out
}

/// Byte offset where the character that the (clamped) `offset` points
/// into starts: the offset itself on a character boundary, else the
/// start of the multi-byte character it falls inside.
pub open spec fn char_start(src: Seq<char>, offset: int) -> int {
    byte_len(src.take(char_pos(src, offset) as int)) as int
}

/// The byte offset of the start of the character that `offset` points
/// into (the offset itself when it is a character boundary), clamped
/// to the end of the source.
fn floor_char_boundary(src: &str, offset: usize) -> (r: usize)
    requires
        byte_len(src@) <= usize::MAX,
    ensures
        r as int == char_start(src@, offset as int),
        r <= clamp_offset(src@, offset as int),
        on_char_boundary(src@, r as int),
        char_pos(src@, r as int) == char_pos(src@, offset as int),
        on_char_boundary(src@, offset as int) ==> r == clamp_offset(src@, offset as int),
{
    let (_newlines, _ls, k, _le, pos) = locate(src, offset);
    proof {
        lemma_floor_is_boundary(src@, offset as int, k as int);
    }
    pos
}

proof fn lemma_chars_within_prefix(cs: Seq<char>, budget: int, k: int)
    requires
        0 <= k <= cs.len(),
        byte_len(cs.take(k)) <= budget,
    ensures
        chars_within(cs, budget) >= k,
    decreases k,
{
    if k > 0 {
        lemma_byte_len_step(cs, 0);
        assert(cs.take(1) =~= seq![cs[0]]);
        assert(cs.take(0) =~= Seq::<char>::empty());
        lemma_encode_concat(seq![cs[0]], cs.drop_first().take(k - 1));
        assert(cs.take(k) =~= seq![cs[0]] + cs.drop_first().take(k - 1));
        assert(encode_utf8(cs.take(0)) =~= Seq::<u8>::empty());
        lemma_chars_within_prefix(cs.drop_first(), budget - char_width(cs[0]), k - 1);
    }
}

proof fn lemma_chars_within_bound(cs: Seq<char>, budget: int)
    ensures
        chars_within(cs, budget) <= cs.len(),
        byte_len(cs.take(chars_within(cs, budget) as int)) <= budget || chars_within(cs, budget) == 0,
    decreases cs.len(),
{
    if cs.len() > 0 && char_width(cs[0]) <= budget {
        let n = chars_within(cs.drop_first(), budget - char_width(cs[0]));
        lemma_chars_within_bound(cs.drop_first(), budget - char_width(cs[0]));
        lemma_encode_concat(seq![cs[0]], cs.drop_first().take(n as int));
        assert(cs.take(n + 1int) =~= seq![cs[0]] + cs.drop_first().take(n as int));
        assert(seq![cs[0]].drop_first() =~= Seq::<char>::empty());
        assert(encode_utf8(seq![cs[0]]) =~= encode_scalar(cs[0] as u32) + encode_utf8(
            Seq::<char>::empty(),
        ));
        if n == 0 {
            assert(cs.drop_first().take(0) =~= Seq::<char>::empty());
        }
    }
}

proof fn lemma_floor_is_boundary(src: Seq<char>, offset: int, k: int)
    requires
        k == char_pos(src, offset),
        k <= src.len(),
        0 <= offset,
    ensures
        on_char_boundary(src, byte_len(src.take(k)) as int),
        char_pos(src, byte_len(src.take(k)) as int) == k,
        byte_len(src.take(k)) <= clamp_offset(src, offset),
{
    let b = byte_len(src.take(k)) as int;
    let c = clamp_offset(src, offset);
    lemma_chars_within_bound(src, c);
    assert(src.take(0) =~= Seq::<char>::empty());
    assert(byte_len(src.take(k)) <= c);
    // b is within the source, so it clamps to itself.
    lemma_byte_len_prefix_le(src, k);
    assert(clamp_offset(src, b) == b);
    lemma_chars_within_prefix(src, b, k);
    lemma_chars_within_prefix(src, c, k);
    lemma_chars_within_mono(src, b, c);
    lemma_chars_within_bound(src, b);
}

proof fn lemma_byte_len_prefix_le(cs: Seq<char>, k: int)
    requires
        0 <= k <= cs.len(),
    ensures
        byte_len(cs.take(k)) <= byte_len(cs),
{
    lemma_encode_concat(cs.take(k), cs.skip(k));
    assert(cs.take(k) + cs.skip(k) =~= cs);
}

proof fn lemma_chars_within_mono(cs: Seq<char>, a: int, b: int)
    requires
        a <= b,
    ensures
        chars_within(cs, a) <= chars_within(cs, b),
    decreases cs.len(),
{
    if cs.len() > 0 && char_width(cs[0]) <= a {
        lemma_chars_within_mono(cs.drop_first(), a - char_width(cs[0]), b - char_width(cs[0]));
    }
}

/// Render an error as `path:line:col: <layer> error: <message>`
/// followed by the source snippet, where the error supplies its byte
/// offset and `message` is its display text. An offset inside a
/// multi-byte character is taken back to that character's start (the
/// spec functions place such an offset at that character).
pub fn format_error<E: HasOffset>(src: &str, path: &str, layer: &str, err: &E, message: &str) -> (r:
    String)
    requires
        byte_len(src@) < usize::MAX,
    ensures
        r@ == spec_error_text(src@, path@, layer@, err.spec_offset() as int, message@),
        on_char_boundary(src@, err.spec_offset() as int) ==> r@ == spec_error_text(
            src@,
            path@,
            layer@,
            clamp_offset(src@, err.spec_offset() as int),
            message@,
        ),
{
    let raw = err.offset();
    let offset = floor_char_boundary(src, raw);
    format_error_at(src, path, layer, offset, message)
}

proof fn lemma_count_newlines_concat(a: Seq<char>, b: Seq<char>)
    ensures
        count_newlines(a + b) == count_newlines(a) + count_newlines(b),
    decreases b.len(),
{
    if b.len() == 0 {
        assert(a + b =~= a);
    } else {
        lemma_count_newlines_concat(a, b.drop_last());
        assert((a + b).drop_last() =~= a + b.drop_last());
    }
}

proof fn lemma_no_newline_count(cs: Seq<char>)
    requires
        forall|j: int| 0 <= j < cs.len() ==> cs[j] != '\n',
    ensures
        count_newlines(cs) == 0,
    decreases cs.len(),
{
    if cs.len() > 0 {
        lemma_no_newline_count(cs.drop_last());
    }
}

proof fn lemma_line_end_no_newline(cs: Seq<char>, from: int)
    requires
        0 <= from <= cs.len(),
    ensures
        forall|j: int| from <= j < line_end(cs, from) ==> cs[j] != '\n',
    decreases cs.len() - from,
{
    if from < cs.len() && cs[from] != '\n' {
        lemma_line_end_no_newline(cs, from + 1);
    }
}

/// Law: a snippet is exactly two lines, each ended by `\n`: the source
/// line it shows never carries a newline of its own.
pub proof fn law_snippet_is_two_lines(src: Seq<char>, offset: int)
    ensures
        count_newlines(spec_snippet(src, offset)) == 2,
        spec_snippet(src, offset).last() == '\n',
{
    let k = char_pos(src, offset) as int;
    lemma_chars_within_bound(src, clamp_offset(src, offset));
    lemma_line_of_offset(src, k);
    let ls = line_start(src.take(k));
    let line = source_line(src, offset);
    lemma_line_end_no_newline(src, ls);
    assert forall|j: int| 0 <= j < line.len() implies line[j] != '\n' by {
        assert(line[j] == src[ls + j]);
    }
    lemma_no_newline_count(line);
    let sp = spaces((spec_col0(src, offset)) as nat);
    lemma_no_newline_count(sp);
    lemma_no_newline_count(gutter());
    let a = gutter() + line;
    lemma_count_newlines_concat(gutter(), line);
    let b = a + seq!['\n'];
    lemma_count_newlines_concat(a, seq!['\n']);
    assert(seq!['\n'].drop_last() =~= Seq::<char>::empty());
    let c = b + gutter();
    lemma_count_newlines_concat(b, gutter());
    let d = c + sp;
    lemma_count_newlines_concat(c, sp);
    lemma_count_newlines_concat(d, seq!['^', '\n']);
    assert(seq!['^', '\n'].drop_last() =~= seq!['^']);
    assert(seq!['^'].drop_last() =~= Seq::<char>::empty());
    assert(count_newlines(Seq::<char>::empty()) == 0);
    assert(count_newlines(seq!['\n']) == 1);
    assert(count_newlines(seq!['^']) == 0);
    assert(count_newlines(seq!['^', '\n']) == 1);
    assert(spec_snippet(src, offset) == d + seq!['^', '\n']);
}

proof fn lemma_zero_newlines(cs: Seq<char>)
    requires
        count_newlines(cs) == 0,
    ensures
        forall|j: int| 0 <= j < cs.len() ==> cs[j] != '\n',
    decreases cs.len(),
{
    if cs.len() > 0 {
        lemma_zero_newlines(cs.drop_last());
        assert forall|j: int| 0 <= j < cs.len() implies cs[j] != '\n' by {
            if j < cs.len() - 1 {
                assert(cs.drop_last()[j] == cs[j]);
            }
        }
    }
}

proof fn lemma_line_start_stable(cs: Seq<char>, k1: int, k2: int)
    requires
        0 <= k1 <= k2 <= cs.len(),
        forall|j: int| k1 <= j < k2 ==> cs[j] != '\n',
    ensures
        line_start(cs.take(k2)) == line_start(cs.take(k1)),
    decreases k2 - k1,
{
    if k1 < k2 {
        lemma_line_start_stable(cs, k1, k2 - 1);
        lemma_prefix_step(cs, k2 - 1);
    }
}

/// Law: two offsets that `offset_to_line_col` puts on the same line
/// get the same source line in their snippets.
pub proof fn law_same_line_same_snippet_line(src: Seq<char>, o1: int, o2: int)
    requires
        spec_line(src, o1) == spec_line(src, o2),
    ensures
        source_line(src, o1) == source_line(src, o2),
{
    let k1 = char_pos(src, o1) as int;
    let k2 = char_pos(src, o2) as int;
    lemma_chars_within_bound(src, clamp_offset(src, o1));
    lemma_chars_within_bound(src, clamp_offset(src, o2));
    let (a, b) = if k1 <= k2 { (k1, k2) } else { (k2, k1) };
    assert(src.take(b) =~= src.take(a) + src.subrange(a, b));
    lemma_count_newlines_concat(src.take(a), src.subrange(a, b));
    lemma_zero_newlines(src.subrange(a, b));
    assert forall|j: int| a <= j < b implies src[j] != '\n' by {
        assert(src.subrange(a, b)[j - a] == src[j]);
    }
    lemma_line_start_stable(src, a, b);
}

/// Law: an offset at or past the end of the source reports the same
/// position, and shows the same snippet, as the end of the source.
pub proof fn law_past_end_is_end(src: Seq<char>, offset: int)
    requires
        offset >= byte_len(src),
    ensures
        spec_line(src, offset) == spec_line(src, byte_len(src) as int),
        spec_col0(src, offset) == spec_col0(src, byte_len(src) as int),
        spec_snippet(src, offset) == spec_snippet(src, byte_len(src) as int),
        on_char_boundary(src, offset) == on_char_boundary(src, byte_len(src) as int),
{
}

proof fn lemma_char_pos_mono(src: Seq<char>, o1: int, o2: int)
    requires
        o1 <= o2,
    ensures
        char_pos(src, o1) <= char_pos(src, o2),
        char_pos(src, o2) <= src.len(),
{
    lemma_chars_within_mono(src, clamp_offset(src, o1), clamp_offset(src, o2));
    lemma_chars_within_bound(src, clamp_offset(src, o2));
}

/// Law: positions never go backwards: a larger offset is on a later
/// line, or on the same line at the same or a later column.
pub proof fn law_position_monotone(src: Seq<char>, o1: int, o2: int)
    requires
        o1 <= o2,
    ensures
        spec_line(src, o1) < spec_line(src, o2) || (spec_line(src, o1) == spec_line(src, o2)
            && spec_col0(src, o1) <= spec_col0(src, o2)),
{
    lemma_char_pos_mono(src, o1, o2);
    let a = char_pos(src, o1) as int;
    let b = char_pos(src, o2) as int;
    assert(src.take(b) =~= src.take(a) + src.subrange(a, b));
    lemma_count_newlines_concat(src.take(a), src.subrange(a, b));
    if count_newlines(src.subrange(a, b)) == 0 {
        lemma_zero_newlines(src.subrange(a, b));
        assert forall|j: int| a <= j < b implies src[j] != '\n' by {
            assert(src.subrange(a, b)[j - a] == src[j]);
        }
        lemma_line_start_stable(src, a, b);
    }
}

proof fn lemma_chars_within_exact(cs: Seq<char>, budget: int)
    requires
        budget >= 0,
    ensures
        chars_within(cs, budget) < cs.len() ==> byte_len(cs.take(chars_within(cs, budget) + 1int))
            > budget,
    decreases cs.len(),
{
    if cs.len() > 0 {
        let w = char_width(cs[0]);
        if w <= budget {
            let n = chars_within(cs.drop_first(), budget - w) as int;
            lemma_chars_within_exact(cs.drop_first(), budget - w);
            if n < cs.drop_first().len() {
                lemma_encode_concat(seq![cs[0]], cs.drop_first().take(n + 1));
                assert(cs.take(n + 2) =~= seq![cs[0]] + cs.drop_first().take(n + 1));
                assert(seq![cs[0]].drop_first() =~= Seq::<char>::empty());
                assert(encode_utf8(seq![cs[0]]) =~= encode_scalar(cs[0] as u32) + encode_utf8(
                    Seq::<char>::empty(),
                ));
            }
        } else {
            assert(cs.take(1) =~= seq![cs[0]]);
            assert(seq![cs[0]].drop_first() =~= Seq::<char>::empty());
            assert(encode_utf8(seq![cs[0]]) =~= encode_scalar(cs[0] as u32) + encode_utf8(
                Seq::<char>::empty(),
            ));
        }
    }
}

/// Law: the byte after a newline starts the next line at column 1.
pub proof fn law_newline_starts_next_line(src: Seq<char>, offset: int)
    requires
        0 <= offset < byte_len(src),
        on_char_boundary(src, offset),
        char_pos(src, offset) < src.len(),
        src[char_pos(src, offset) as int] == '\n',
    ensures
        spec_line(src, offset + 1) == spec_line(src, offset) + 1,
        spec_col0(src, offset + 1) == 0,
{
    let k = char_pos(src, offset) as int;
    lemma_char_width(src[k]);
    lemma_byte_len_step(src, k);
    lemma_byte_len_prefix_le(src, k + 1);
    assert(byte_len(src.take(k + 1)) == offset + 1);
    lemma_chars_within_prefix(src, offset + 1, k + 1);
    lemma_chars_within_exact(src, offset + 1);
    let m = chars_within(src, offset + 1) as int;
    lemma_chars_within_bound(src, offset + 1);
    if m > k + 1 {
        lemma_byte_len_step(src, k + 1);
        lemma_char_width(src[k + 1]);
        lemma_chars_within_prefix_fits(src, offset + 1, k + 2);
    }
    assert(m == k + 1);
    lemma_prefix_step(src, k);
}

/// Every prefix no longer than the counted one fits in the budget.
proof fn lemma_chars_within_prefix_fits(cs: Seq<char>, budget: int, j: int)
    requires
        budget >= 0,
        0 <= j <= chars_within(cs, budget),
    ensures
        byte_len(cs.take(j)) <= budget,
{
    lemma_chars_within_bound(cs, budget);
    lemma_take_byte_len_mono(cs, j, chars_within(cs, budget) as int);
}

proof fn lemma_take_byte_len_mono(cs: Seq<char>, a: int, b: int)
    requires
        0 <= a <= b <= cs.len(),
    ensures
        byte_len(cs.take(a)) <= byte_len(cs.take(b)),
{
    lemma_byte_len_prefix_le(cs.take(b), a);
    assert(cs.take(b).take(a) =~= cs.take(a));
}

/// Law: the snippet shows the line that `offset_to_line_col` reports and
/// puts the caret under its column: the line begins after exactly
/// `line - 1` newlines, holds no newline itself, its first `col - 1`
/// characters are the ones before the offset, and the caret follows
/// `col - 1` spaces.
pub proof fn law_snippet_matches_position(src: Seq<char>, offset: int)
    ensures
        ({
            let k = char_pos(src, offset) as int;
            let ls = line_start(src.take(k));
            let col0 = spec_col0(src, offset);
            &&& count_newlines(src.take(ls)) == spec_line(src, offset) - 1
            &&& forall|j: int|
                0 <= j < source_line(src, offset).len() ==> source_line(src, offset)[j] != '\n'
            &&& 0 <= col0 <= source_line(src, offset).len()
            &&& source_line(src, offset).take(col0) == src.subrange(ls, k)
            &&& spec_snippet(src, offset) == gutter() + source_line(src, offset) + seq!['\n']
                + gutter() + spaces(col0 as nat) + seq!['^', '\n']
        }),
{
    let k = char_pos(src, offset) as int;
    lemma_chars_within_bound(src, clamp_offset(src, offset));
    lemma_line_of_offset(src, k);
    let ls = line_start(src.take(k));
    lemma_line_start_bounds(src.take(k));
    assert forall|j: int| ls <= j < k implies src[j] != '\n' by {
        assert(src.take(k)[j] == src[j]);
    }
    assert(src.take(k) =~= src.take(ls) + src.subrange(ls, k));
    lemma_count_newlines_concat(src.take(ls), src.subrange(ls, k));
    assert forall|j: int| 0 <= j < src.subrange(ls, k).len() implies src.subrange(ls, k)[j] != '\n' by {
        assert(src.subrange(ls, k)[j] == src[ls + j]);
    }
    lemma_no_newline_count(src.subrange(ls, k));
    let line = source_line(src, offset);
    lemma_line_end_no_newline(src, ls);
    assert forall|j: int| 0 <= j < line.len() implies line[j] != '\n' by {
        assert(line[j] == src[ls + j]);
    }
    assert(line.take(k - ls) =~= src.subrange(ls, k));
}

/// The first byte of a character's encoding is the newline byte only
/// for the newline itself.
proof fn lemma_first_byte_newline(c: char)
    ensures
        encode_scalar(c as u32)[0] == 10u8 ==> c == '\n',
{
    let v = c as u32;
    if has_width_1_encoding(v) {
        assert((v & 0x7F) == v) by (bit_vector)
            requires
                v <= 0x7F,
        ;
    } else if has_width_2_encoding(v) {
        let x = ((v >> 6) & 0x1F) as u8;
        assert((0xC0u8 | x) != 10u8) by (bit_vector);
    } else if has_width_3_encoding(v) {
        let x = ((v >> 12) & 0x0F) as u8;
        assert((0xE0u8 | x) != 10u8) by (bit_vector);
    } else {
        let x = ((v >> 18) & 0x7) as u8;
        assert((0xF0u8 | x) != 10u8) by (bit_vector);
    }
}

/// Law: when the byte at a character boundary `offset` is a newline,
/// the byte after it starts the next line at column 1.
pub proof fn law_newline_byte_starts_next_line(src: Seq<char>, offset: int)
    requires
        0 <= offset < byte_len(src),
        on_char_boundary(src, offset),
        encode_utf8(src)[offset] == 10u8,
    ensures
        spec_line(src, offset + 1) == spec_line(src, offset) + 1,
        spec_col0(src, offset + 1) == 0,
{
    let k = char_pos(src, offset) as int;
    lemma_chars_within_bound(src, clamp_offset(src, offset));
    if k == src.len() {
        assert(src.take(k) =~= src);
    }
    assert(k < src.len());
    assert(src =~= src.take(k) + src.skip(k));
    lemma_encode_concat(src.take(k), src.skip(k));
    assert(src.skip(k)[0] == src[k]);
    assert(encode_utf8(src.skip(k)) == encode_scalar(src[k] as u32) + encode_utf8(src.skip(k).drop_first()));
    lemma_char_width(src[k]);
    assert(encode_utf8(src)[offset] == encode_scalar(src[k] as u32)[0]);
    lemma_first_byte_newline(src[k]);
    law_newline_starts_next_line(src, offset);
}

/// Start of the `i`-th piece (0-based) of `cs` split at each `\n`: the
/// index just past the `i`-th newline.
pub open spec fn piece_start(cs: Seq<char>, i: nat) -> int
    decreases i,
{
    if i == 0 {
        0
    } else {
        line_end(cs, piece_start(cs, (i - 1) as nat)) + 1
    }
}

/// The `i`-th piece (0-based) of `cs` split at each `\n`, as
/// `str::split('\n')` yields them: from just past the `i`-th newline
/// to the next newline or the end.
pub open spec fn split_piece(cs: Seq<char>, i: nat) -> Seq<char> {
    cs.subrange(piece_start(cs, i), line_end(cs, piece_start(cs, i)))
}

proof fn lemma_piece_start_of_prefix(src: Seq<char>, k: int)
    requires
        0 <= k <= src.len(),
    ensures
        piece_start(src, count_newlines(src.take(k))) == line_start(src.take(k)),
    decreases k,
{
    if k == 0 {
        assert(src.take(0) =~= Seq::<char>::empty());
    } else {
        lemma_piece_start_of_prefix(src, k - 1);
        lemma_prefix_step(src, k - 1);
        if src[k - 1] == '\n' {
            lemma_line_of_offset(src, k - 1);
        }
    }
}

/// Law: the line that the snippet shows is the `line`-th piece of the
/// source split at each `\n` (`line` as `offset_to_line_col` reports
/// it, 1-based), and the caret follows `col - 1` spaces.
pub proof fn law_snippet_shows_split_piece(src: Seq<char>, offset: int)
    ensures
        source_line(src, offset) == split_piece(src, (spec_line(src, offset) - 1) as nat),
        spec_snippet(src, offset) == gutter() + split_piece(src, (spec_line(src, offset) - 1) as nat)
            + seq!['\n'] + gutter() + spaces(spec_col0(src, offset) as nat) + seq!['^', '\n'],
{
    let k = char_pos(src, offset) as int;
    lemma_chars_within_bound(src, clamp_offset(src, offset));
    lemma_piece_start_of_prefix(src, k);
}

} // verus!
