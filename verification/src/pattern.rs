//! Lua string-pattern runtime used by the compiled programs for
//! `string.find` / `string.match`, plus the plain-substring and
//! prefix helpers of the Rust bridge.
//!
//! Supported syntax: literal bytes, `.`, `%X` character classes and
//! their complements, `%` escapes, `[...]` sets (with `^` negation and
//! `a-z` ranges), the quantifiers `*`, `+`, `?`, a single non-nested
//! capture `( ... )`, a leading `^` anchor and a trailing `$` anchor.

use vstd::prelude::*;

verus! {

pub open spec fn is_upper(c: u8) -> bool {
    0x41 <= c <= 0x5a
}

pub open spec fn is_lower(c: u8) -> bool {
    0x61 <= c <= 0x7a
}

pub open spec fn is_alpha(c: u8) -> bool {
    is_upper(c) || is_lower(c)
}

pub open spec fn is_digit(c: u8) -> bool {
    0x30 <= c <= 0x39
}

pub open spec fn is_alnum(c: u8) -> bool {
    is_alpha(c) || is_digit(c)
}

pub open spec fn is_punct(c: u8) -> bool {
    (0x21 <= c <= 0x2f) || (0x3a <= c <= 0x40) || (0x5b <= c <= 0x60) || (0x7b <= c <= 0x7e)
}

pub open spec fn is_hex(c: u8) -> bool {
    is_digit(c) || (0x41 <= c <= 0x46) || (0x61 <= c <= 0x66)
}

pub open spec fn is_control(c: u8) -> bool {
    c <= 0x1f || c == 0x7f
}

pub open spec fn is_space(c: u8) -> bool {
    c == 0x20 || c == 0x09 || c == 0x0a || c == 0x0d || c == 0x0b || c == 0x0c
}

/// Whether byte `c` belongs to the class letter `class` of a `%X`
/// escape (`a d s w p l u x c`); the upper-case letters are the
/// complements, and any other byte stands for itself (`%.`, `%%`).
pub open spec fn spec_matches_class(c: u8, class: u8) -> bool {
    if class == 0x61 { is_alpha(c) }            // 'a'
    else if class == 0x41 { !is_alpha(c) }      // 'A'
    else if class == 0x64 { is_digit(c) }       // 'd'
    else if class == 0x44 { !is_digit(c) }      // 'D'
    else if class == 0x73 { is_space(c) }       // 's'
    else if class == 0x53 { !is_space(c) }      // 'S'
    else if class == 0x77 { is_alnum(c) }       // 'w'
    else if class == 0x57 { !is_alnum(c) }      // 'W'
    else if class == 0x70 { is_punct(c) }       // 'p'
    else if class == 0x50 { !is_punct(c) }      // 'P'
    else if class == 0x6c { is_lower(c) }       // 'l'
    else if class == 0x4c { !is_lower(c) }      // 'L'
    else if class == 0x75 { is_upper(c) }       // 'u'
    else if class == 0x55 { !is_upper(c) }      // 'U'
    else if class == 0x78 { is_hex(c) }         // 'x'
    else if class == 0x58 { !is_hex(c) }        // 'X'
    else if class == 0x63 { is_control(c) }     // 'c'
    else if class == 0x43 { !is_control(c) }    // 'C'
    else { c == class }
}

/// `%X` class test on one byte.
pub fn matches_class(c: u8, class: u8) -> (r: bool)
    ensures
        r == spec_matches_class(c, class),
{
    let upper = 0x41 <= c && c <= 0x5a;
    let lower = 0x61 <= c && c <= 0x7a;
    let alpha = upper || lower;
    let digit = 0x30 <= c && c <= 0x39;
    let space = c == 0x20 || c == 0x09 || c == 0x0a || c == 0x0d || c == 0x0b || c == 0x0c;
    let punct = (0x21 <= c && c <= 0x2f) || (0x3a <= c && c <= 0x40) || (0x5b <= c && c <= 0x60)
        || (0x7b <= c && c <= 0x7e);
    let hex = digit || (0x41 <= c && c <= 0x46) || (0x61 <= c && c <= 0x66);
    let control = c <= 0x1f || c == 0x7f;
    let (base, negated) = if class == 0x61 || class == 0x41 {
        (alpha, class == 0x41)
    } else if class == 0x64 || class == 0x44 {
        (digit, class == 0x44)
    } else if class == 0x73 || class == 0x53 {
        (space, class == 0x53)
    } else if class == 0x77 || class == 0x57 {
        (alpha || digit, class == 0x57)
    } else if class == 0x70 || class == 0x50 {
        (punct, class == 0x50)
    } else if class == 0x6c || class == 0x4c {
        (lower, class == 0x4c)
    } else if class == 0x75 || class == 0x55 {
        (upper, class == 0x55)
    } else if class == 0x78 || class == 0x58 {
        (hex, class == 0x58)
    } else if class == 0x63 || class == 0x43 {
        (control, class == 0x43)
    } else {
        (c == class, false)
    };
    base != negated
}

pub const PERCENT: u8 = 0x25;
pub const DOT: u8 = 0x2e;
pub const LBRACKET: u8 = 0x5b;
pub const RBRACKET: u8 = 0x5d;
pub const CARET: u8 = 0x5e;
pub const DASH: u8 = 0x2d;
pub const DOLLAR: u8 = 0x24;
pub const LPAREN: u8 = 0x28;
pub const RPAREN: u8 = 0x29;
pub const STAR: u8 = 0x2a;
pub const PLUS: u8 = 0x2b;
pub const QUESTION: u8 = 0x3f;

/// Whether one of the set elements from index `j` up to the closing
/// `]` matches `c`: a `%X` class, an `a-z` range, or a literal byte.
pub open spec fn set_any(c: u8, pat: Seq<u8>, j: int) -> bool
    decreases pat.len() - j,
{
    if j < 0 || j >= pat.len() || pat[j] == RBRACKET {
        false
    } else if pat[j] == PERCENT && j + 1 < pat.len() {
        spec_matches_class(c, pat[j + 1]) || set_any(c, pat, j + 2)
    } else if j + 2 < pat.len() && pat[j + 1] == DASH && pat[j + 2] != RBRACKET {
        (pat[j] <= c && c <= pat[j + 2]) || set_any(c, pat, j + 3)
    } else {
        c == pat[j] || set_any(c, pat, j + 1)
    }
}

/// Whether the set opened by `[` at `p_i` is negated by a leading `^`.
pub open spec fn set_negated(pat: Seq<u8>, p_i: int) -> bool {
    p_i + 1 < pat.len() && pat[p_i + 1] == CARET
}

/// Index of the first element of the set opened at `p_i`.
pub open spec fn set_body_start(pat: Seq<u8>, p_i: int) -> int {
    if set_negated(pat, p_i) {
        p_i + 2
    } else {
        p_i + 1
    }
}

/// `[...]` set test: some element matches, flipped by `^`.
pub open spec fn spec_matches_set(c: u8, pat: Seq<u8>, p_i: int) -> bool {
    set_any(c, pat, set_body_start(pat, p_i)) != set_negated(pat, p_i)
}

/// Index of the `]` closing a set body scanned from `j`, where a
/// `%X` escape skips two bytes; `pat.len()` when the set is unclosed.
pub open spec fn set_close(pat: Seq<u8>, j: int) -> int
    decreases pat.len() - j,
{
    if j < 0 || j >= pat.len() {
        pat.len() as int
    } else if pat[j] == PERCENT && j + 1 < pat.len() {
        set_close(pat, j + 2)
    } else if pat[j] == RBRACKET {
        j
    } else {
        set_close(pat, j + 1)
    }
}

/// Byte length of the single-byte-class atom at `p_i`: 2 for `%X`,
/// the span through `]` for a set (the rest of the pattern when the
/// set is unclosed), 1 otherwise.
pub open spec fn spec_atom_len(pat: Seq<u8>, p_i: int) -> int {
    if pat[p_i] == PERCENT {
        2
    } else if pat[p_i] != LBRACKET {
        1
    } else {
        let close = set_close(pat, set_body_start(pat, p_i));
        if close < pat.len() {
            close - p_i + 1
        } else {
            pat.len() - p_i
        }
    }
}

/// Whether byte `c` matches the atom at `p_i`.
pub open spec fn spec_matches_atom(c: u8, pat: Seq<u8>, p_i: int) -> bool {
    if pat[p_i] == PERCENT {
        spec_matches_class(c, pat[p_i + 1])
    } else if pat[p_i] == DOT {
        true
    } else if pat[p_i] == LBRACKET {
        spec_matches_set(c, pat, p_i)
    } else {
        c == pat[p_i]
    }
}

/// What an atom test may read: the atom's first byte, and for `%X`
/// the class letter after it.
pub open spec fn atom_readable(pat: Seq<u8>, p_i: int) -> bool {
    &&& 0 <= p_i < pat.len()
    &&& pat[p_i] == PERCENT ==> p_i + 1 < pat.len()
}

proof fn lemma_set_close_ge(pat: Seq<u8>, j: int)
    requires
        0 <= j,
    ensures
        j <= set_close(pat, j) <= pat.len() || (j > pat.len() && set_close(pat, j) == pat.len()),
    decreases pat.len() - j,
{
    if j < pat.len() {
        if pat[j] == PERCENT && j + 1 < pat.len() {
            lemma_set_close_ge(pat, j + 2);
        } else if pat[j] != RBRACKET {
            lemma_set_close_ge(pat, j + 1);
        }
    }
}

/// An atom always spans at least one byte, and a set atom that fits
/// in the pattern ends with its closing `]`.
pub proof fn lemma_atom_len_positive(pat: Seq<u8>, p_i: int)
    requires
        0 <= p_i < pat.len(),
    ensures
        spec_atom_len(pat, p_i) >= 1,
{
    if pat[p_i] == LBRACKET {
        lemma_set_close_ge(pat, set_body_start(pat, p_i));
    }
}

/// `[...]` set test on one byte; `pat[p_i]` is the `[`.
pub fn matches_set(c: u8, pat: &[u8], p_i: usize) -> (r: bool)
    requires
        p_i < pat@.len(),
    ensures
        r == spec_matches_set(c, pat@, p_i as int),
{
    let n = pat.len();
    let mut j = p_i + 1;
    let negate = j < n && pat[j] == CARET;
    if negate {
        j += 1;
    }
    let mut matched = false;
    while j < n && pat[j] != RBRACKET
        invariant
            n == pat@.len(),
            p_i < pat@.len(),
            p_i + 1 <= j <= pat@.len(),
            negate == set_negated(pat@, p_i as int),
            set_any(c, pat@, set_body_start(pat@, p_i as int)) == (matched || set_any(
                c,
                pat@,
                j as int,
            )),
        decreases pat@.len() - j,
    {
        let b = pat[j];
        if b == PERCENT && j + 1 < pat.len() {
            if matches_class(c, pat[j + 1]) {
                matched = true;
            }
            j += 2;
            continue;
        }
        if n - j > 2 && pat[j + 1] == DASH && pat[j + 2] != RBRACKET {
            let lo = b;
            let hi = pat[j + 2];
            if c >= lo && c <= hi {
                matched = true;
            }
            j += 3;
            continue;
        }
        if c == b {
            matched = true;
        }
        j += 1;
    }
    matched != negate
}

/// Single-byte atom test: literal byte, `.`, `%X` class or `[...]` set.
pub fn matches_atom(c: u8, pat: &[u8], p_i: usize) -> (r: bool)
    requires
        atom_readable(pat@, p_i as int),
    ensures
        r == spec_matches_atom(c, pat@, p_i as int),
{
    let p = pat[p_i];
    if p == PERCENT {
        matches_class(c, pat[p_i + 1])
    } else if p == DOT {
        true
    } else if p == LBRACKET {
        matches_set(c, pat, p_i)
    } else {
        c == p
    }
}

/// Byte length of the atom starting at `p_i`.
pub fn atom_len(pat: &[u8], p_i: usize) -> (r: usize)
    requires
        p_i < pat@.len(),
    ensures
        r as int == spec_atom_len(pat@, p_i as int),
{
    let p = pat[p_i];
    if p == PERCENT {
        return 2;
    }
    if p != LBRACKET {
        return 1;
    }
    let mut j = p_i + 1;
    if j < pat.len() && pat[j] == CARET {
        j += 1;
    }
    proof {
        lemma_set_close_ge(pat@, j as int);
    }
    while j < pat.len()
        invariant
            p_i < pat@.len(),
            p_i + 1 <= j <= pat@.len(),
            pat@[p_i as int] == LBRACKET,
            set_close(pat@, set_body_start(pat@, p_i as int)) == set_close(pat@, j as int),
        decreases pat@.len() - j,
    {
        let b = pat[j];
        if b == PERCENT && j + 1 < pat.len() {
            j += 2;
            continue;
        }
        if b == RBRACKET {
            assert(set_close(pat@, j as int) == j);
            return j - p_i + 1;
        }
        j += 1;
    }
    pat.len() - p_i
}

/// State of the single non-nested capture threaded through a match.
#[derive(Clone, Copy)]
pub struct CapState {
    /// A `(` has been passed and its `)` not yet.
    pub has_pending: bool,
    /// Subject index at which the pending capture opened.
    pub pending_start: usize,
    /// A capture has been closed.
    pub captured: bool,
    /// Subject index range of the closed capture.
    pub cap_start: usize,
    pub cap_end: usize,
}

/// The capture state a search starts from.
pub open spec fn cap_init() -> CapState {
    CapState { has_pending: false, pending_start: 0, captured: false, cap_start: 0, cap_end: 0 }
}

impl CapState {
    /// No capture open, none closed.
    pub fn new() -> (r: CapState)
        ensures
            r == cap_init(),
    {
        CapState { has_pending: false, pending_start: 0, captured: false, cap_start: 0, cap_end: 0 }
    }
}

/// Number of consecutive subject bytes from `i` that match the atom
/// at `atom_p` (the greedy extent of `*` / `+`).
pub open spec fn greedy_count(s: Seq<u8>, i: int, pat: Seq<u8>, atom_p: int) -> nat
    decreases s.len() - i,
{
    if 0 <= i < s.len() && spec_matches_atom(s[i], pat, atom_p) {
        1 + greedy_count(s, i + 1, pat, atom_p)
    } else {
        0
    }
}

/// Backtracking match of `pat[pi..]` against `s[si..]` carrying the
/// capture state `cap`. `Some((end, cap'))` is the first success in
/// Lua's search order (greedy quantifiers, `?` tries the byte first);
/// `end` is the subject index where the match stops.
pub open spec fn spec_match(s: Seq<u8>, si: int, pat: Seq<u8>, pi: int, cap: CapState) -> Option<
    (int, CapState),
>
    decreases pat.len() - pi, 0int, 0int,
{
    if pi < 0 || pi >= pat.len() {
        Some((si, cap))
    } else if pi + 1 == pat.len() && pat[pi] == DOLLAR {
        if si == s.len() {
            Some((si, cap))
        } else {
            None
        }
    } else if pat[pi] == LPAREN {
        if cap.has_pending {
            None
        } else {
            spec_match(s, si, pat, pi + 1, CapState { has_pending: true, pending_start: si as usize, ..cap })
        }
    } else if pat[pi] == RPAREN {
        if !cap.has_pending {
            None
        } else {
            spec_match(
                s,
                si,
                pat,
                pi + 1,
                CapState {
                    has_pending: false,
                    captured: true,
                    cap_start: cap.pending_start,
                    cap_end: si as usize,
                    ..cap
                },
            )
        }
    } else {
        let after = pi + spec_atom_len(pat, pi);
        if after <= pi || after > pat.len() {
            None
        } else if after < pat.len() && pat[after] == STAR {
            spec_match_max(s, si, pat, pi, after + 1, 0, greedy_count(s, si, pat, pi), cap)
        } else if after < pat.len() && pat[after] == PLUS {
            spec_match_max(s, si, pat, pi, after + 1, 1, greedy_count(s, si, pat, pi), cap)
        } else if after < pat.len() && pat[after] == QUESTION {
            spec_match_opt(s, si, pat, pi, after + 1, cap)
        } else if si < 0 || si >= s.len() {
            None
        } else if spec_matches_atom(s[si], pat, pi) {
            spec_match(s, si + 1, pat, after, cap)
        } else {
            None
        }
    }
}

/// Greedy repetition: try the rest of the pattern after `count`
/// repetitions of the atom, then after one fewer, down to `min`.
pub open spec fn spec_match_max(
    s: Seq<u8>,
    si: int,
    pat: Seq<u8>,
    atom_p: int,
    rest_p: int,
    min: int,
    count: nat,
    cap: CapState,
) -> Option<(int, CapState)>
    decreases pat.len() - rest_p + 1, 0int, count,
{
    if rest_p < 0 || rest_p > pat.len() {
        None
    } else {
        let attempt = if count >= min {
            spec_match(s, si + count, pat, rest_p, cap)
        } else {
            None
        };
        if attempt is Some {
            attempt
        } else if count == 0 {
            None
        } else {
            spec_match_max(s, si, pat, atom_p, rest_p, min, (count - 1) as nat, cap)
        }
    }
}

/// Optional atom: with the byte consumed if it matches, else without.
pub open spec fn spec_match_opt(
    s: Seq<u8>,
    si: int,
    pat: Seq<u8>,
    atom_p: int,
    rest_p: int,
    cap: CapState,
) -> Option<(int, CapState)>
    decreases pat.len() - rest_p + 1, 0int, 0int,
{
    if rest_p < 0 || rest_p > pat.len() {
        None
    } else if 0 <= si < s.len() && spec_matches_atom(s[si], pat, atom_p) {
        match spec_match(s, si + 1, pat, rest_p, cap) {
            Some(r) => Some(r),
            None => spec_match(s, si, pat, rest_p, cap),
        }
    } else {
        spec_match(s, si, pat, rest_p, cap)
    }
}

/// What an exec matcher reports against its spec: on success the end
/// index and the capture state it leaves; on failure the capture
/// state is left as it was.
pub open spec fn match_reported(
    r: Option<usize>,
    old_cap: CapState,
    new_cap: CapState,
    expected: Option<(int, CapState)>,
) -> bool {
    match r {
        Some(e) => expected == Some((e as int, new_cap)),
        None => expected is None && new_cap == old_cap,
    }
}

proof fn lemma_greedy_bound(s: Seq<u8>, i: int, pat: Seq<u8>, atom_p: int)
    requires
        0 <= i <= s.len(),
    ensures
        greedy_count(s, i, pat, atom_p) <= s.len() - i,
    decreases s.len() - i,
{
    if i < s.len() && spec_matches_atom(s[i], pat, atom_p) {
        lemma_greedy_bound(s, i + 1, pat, atom_p);
    }
}

/// Well-formed capture state at subject index `si`: an open capture
/// started at or before `si`, a closed one lies within `[.., si]`.
pub open spec fn cap_wf(cap: CapState, si: int) -> bool {
    &&& cap.has_pending ==> cap.pending_start <= si
    &&& cap.captured ==> cap.cap_start <= cap.cap_end <= si
}

/// Law: a match never moves backwards, stays inside the subject, and
/// leaves a well-formed capture state behind (a closed capture lies
/// within the matched text).
pub proof fn law_match_stays_in_subject(s: Seq<u8>, si: int, pat: Seq<u8>, pi: int, cap: CapState)
    requires
        0 <= si <= s.len(),
        s.len() <= usize::MAX,
        cap_wf(cap, si),
    ensures
        spec_match(s, si, pat, pi, cap) matches Some((e, c)) ==> si <= e <= s.len() && cap_wf(c, e),
    decreases pat.len() - pi, 0int, 0int,
{
    if pi < 0 || pi >= pat.len() {
    } else if pi + 1 == pat.len() && pat[pi] == DOLLAR {
    } else if pat[pi] == LPAREN {
        if !cap.has_pending {
            law_match_stays_in_subject(s, si, pat, pi + 1, CapState { has_pending: true, pending_start: si as usize, ..cap });
        }
    } else if pat[pi] == RPAREN {
        if cap.has_pending {
            law_match_stays_in_subject(
                s,
                si,
                pat,
                pi + 1,
                CapState {
                    has_pending: false,
                    captured: true,
                    cap_start: cap.pending_start,
                    cap_end: si as usize,
                    ..cap
                },
            );
        }
    } else {
        let after = pi + spec_atom_len(pat, pi);
        if after <= pi || after > pat.len() {
        } else if after < pat.len() && (pat[after] == STAR || pat[after] == PLUS) {
            let min: int = if pat[after] == STAR { 0 } else { 1 };
            lemma_greedy_bound(s, si, pat, pi);
            lemma_match_max_result(s, si, pat, pi, after + 1, min, greedy_count(s, si, pat, pi), cap);
        } else if after < pat.len() && pat[after] == QUESTION {
            lemma_match_opt_result(s, si, pat, pi, after + 1, cap);
        } else if si < 0 || si >= s.len() {
        } else if spec_matches_atom(s[si], pat, pi) {
            law_match_stays_in_subject(s, si + 1, pat, after, cap);
        }
    }
}

proof fn lemma_match_max_result(
    s: Seq<u8>,
    si: int,
    pat: Seq<u8>,
    atom_p: int,
    rest_p: int,
    min: int,
    count: nat,
    cap: CapState,
)
    requires
        0 <= si,
        si + count <= s.len(),
        s.len() <= usize::MAX,
        cap_wf(cap, si),
    ensures
        spec_match_max(s, si, pat, atom_p, rest_p, min, count, cap) matches Some((e, c)) ==> si <= e
            <= s.len() && cap_wf(c, e),
    decreases pat.len() - rest_p + 1, 0int, count,
{
    if rest_p < 0 || rest_p > pat.len() {
    } else {
        if count >= min {
            law_match_stays_in_subject(s, si + count, pat, rest_p, cap);
        }
        if count > 0 {
            lemma_match_max_result(s, si, pat, atom_p, rest_p, min, (count - 1) as nat, cap);
        }
    }
}

proof fn lemma_match_opt_result(
    s: Seq<u8>,
    si: int,
    pat: Seq<u8>,
    atom_p: int,
    rest_p: int,
    cap: CapState,
)
    requires
        0 <= si <= s.len(),
        s.len() <= usize::MAX,
        cap_wf(cap, si),
    ensures
        spec_match_opt(s, si, pat, atom_p, rest_p, cap) matches Some((e, c)) ==> si <= e <= s.len()
            && cap_wf(c, e),
    decreases pat.len() - rest_p + 1, 0int, 0int,
{
    if rest_p < 0 || rest_p > pat.len() {
    } else {
        if 0 <= si < s.len() && spec_matches_atom(s[si], pat, atom_p) {
            law_match_stays_in_subject(s, si + 1, pat, rest_p, cap);
        }
        law_match_stays_in_subject(s, si, pat, rest_p, cap);
    }
}

/// Recursive backtracking match of `pat[p_i..]` against `s[s_i..]`.
/// Returns the subject index where the match ends; `cap` carries the
/// capture and is restored whenever an attempt fails.
pub fn match_pattern(s: &[u8], s_i: usize, pat: &[u8], p_i: usize, cap: &mut CapState) -> (r: Option<
    usize,
>)
    requires
        s_i <= s@.len(),
        p_i <= pat@.len(),
    ensures
        match_reported(r, *old(cap), *final(cap), spec_match(s@, s_i as int, pat@, p_i as int, *old(cap))),
    decreases pat@.len() - p_i, 0int,
{
    let n = pat.len();
    if p_i >= n {
        return Some(s_i);
    }
    if p_i + 1 == n && pat[p_i] == DOLLAR {
        return if s_i == s.len() {
            Some(s_i)
        } else {
            None
        };
    }
    if pat[p_i] == LPAREN {
        if cap.has_pending {
            return None;
        }
        let saved = *cap;
        cap.has_pending = true;
        cap.pending_start = s_i;
        let r = match_pattern(s, s_i, pat, p_i + 1, cap);
        if r.is_some() {
            return r;
        }
        *cap = saved;
        return None;
    }
    if pat[p_i] == RPAREN {
        if !cap.has_pending {
            return None;
        }
        let saved = *cap;
        cap.has_pending = false;
        cap.captured = true;
        cap.cap_start = saved.pending_start;
        cap.cap_end = s_i;
        let r = match_pattern(s, s_i, pat, p_i + 1, cap);
        if r.is_some() {
            return r;
        }
        *cap = saved;
        return None;
    }
    let alen = atom_len(pat, p_i);
    proof {
        lemma_atom_len_positive(pat@, p_i as int);
    }
    // A truncated escape or set never matches.
    if alen > n - p_i {
        return None;
    }
    let after_atom = p_i + alen;
    let quant: u8 = if after_atom < n {
        let q = pat[after_atom];
        if q == STAR || q == PLUS || q == QUESTION {
            q
        } else {
            0
        }
    } else {
        0
    };
    if quant == STAR {
        match_max(s, s_i, pat, p_i, after_atom + 1, 0, cap)
    } else if quant == PLUS {
        match_max(s, s_i, pat, p_i, after_atom + 1, 1, cap)
    } else if quant == QUESTION {
        match_opt(s, s_i, pat, p_i, after_atom + 1, cap)
    } else {
        if s_i >= s.len() {
            return None;
        }
        if matches_atom(s[s_i], pat, p_i) {
            match_pattern(s, s_i + 1, pat, after_atom, cap)
        } else {
            None
        }
    }
}

/// Greedy repetition of the atom at `atom_p` at least `min` times,
/// followed by `pat[rest_p..]`.
pub fn match_max(
    s: &[u8],
    s_i: usize,
    pat: &[u8],
    atom_p: usize,
    rest_p: usize,
    min: usize,
    cap: &mut CapState,
) -> (r: Option<usize>)
    requires
        s_i <= s@.len(),
        atom_readable(pat@, atom_p as int),
        atom_p < rest_p <= pat@.len(),
    ensures
        match_reported(
            r,
            *old(cap),
            *final(cap),
            spec_match_max(
                s@,
                s_i as int,
                pat@,
                atom_p as int,
                rest_p as int,
                min as int,
                greedy_count(s@, s_i as int, pat@, atom_p as int),
                *old(cap),
            ),
        ),
    decreases pat@.len() - rest_p + 1, 0int,
{
    let ghost cap0 = *cap;
    let ghost total = greedy_count(s@, s_i as int, pat@, atom_p as int);
    let n = s.len();
    let mut count: usize = 0;
    loop
        invariant
            n == s@.len(),
            s_i <= s@.len(),
            atom_readable(pat@, atom_p as int),
            s_i + count <= s@.len(),
            total == count + greedy_count(s@, (s_i + count) as int, pat@, atom_p as int),
        ensures
            s_i + count <= s@.len(),
            total == count,
        decreases s@.len() - s_i - count,
    {
        if s_i + count >= n {
            break;
        }
        if !matches_atom(s[s_i + count], pat, atom_p) {
            break;
        }
        count += 1;
    }
    loop
        invariant
            n == s@.len(),
            s_i + count <= s@.len(),
            atom_readable(pat@, atom_p as int),
            atom_p < rest_p <= pat@.len(),
            count <= total,
            total == greedy_count(s@, s_i as int, pat@, atom_p as int),
            cap0 == *old(cap),
            *cap == cap0,
            spec_match_max(s@, s_i as int, pat@, atom_p as int, rest_p as int, min as int, total, cap0)
                == spec_match_max(
                s@,
                s_i as int,
                pat@,
                atom_p as int,
                rest_p as int,
                min as int,
                count as nat,
                cap0,
            ),
        decreases count,
    {
        if count >= min {
            let saved = *cap;
            let r = match_pattern(s, s_i + count, pat, rest_p, cap);
            if r.is_some() {
                return r;
            }
            *cap = saved;
        }
        if count == 0 {
            return None;
        }
        count -= 1;
    }
}

/// Optional atom at `atom_p` followed by `pat[rest_p..]`.
pub fn match_opt(s: &[u8], s_i: usize, pat: &[u8], atom_p: usize, rest_p: usize, cap: &mut CapState) -> (r:
    Option<usize>)
    requires
        s_i <= s@.len(),
        atom_readable(pat@, atom_p as int),
        atom_p < rest_p <= pat@.len(),
    ensures
        match_reported(
            r,
            *old(cap),
            *final(cap),
            spec_match_opt(s@, s_i as int, pat@, atom_p as int, rest_p as int, *old(cap)),
        ),
    decreases pat@.len() - rest_p + 1, 0int,
{
    if s_i < s.len() && matches_atom(s[s_i], pat, atom_p) {
        let saved = *cap;
        let r = match_pattern(s, s_i + 1, pat, rest_p, cap);
        if r.is_some() {
            return r;
        }
        *cap = saved;
    }
    match_pattern(s, s_i, pat, rest_p, cap)
}

/// Match of the whole pattern body at subject index `start`:
/// `Some((consumed_bytes, capture_state))`.
pub open spec fn spec_try_match_at(s: Seq<u8>, start: int, body: Seq<u8>) -> Option<(int, CapState)> {
    match spec_match(s, start, body, 0, cap_init()) {
        Some((e, c)) => Some((e - start, c)),
        None => None,
    }
}

/// Try to match `pat` starting at `s[s_start]`; on success the number
/// of subject bytes consumed and the capture state.
pub fn try_match_at(s: &[u8], s_start: usize, pat: &[u8]) -> (r: Option<(usize, CapState)>)
    requires
        s_start <= s@.len(),
    ensures
        match r {
            Some((n, c)) => spec_try_match_at(s@, s_start as int, pat@) == Some((n as int, c))
                && s_start + n <= s@.len() && cap_wf(c, s_start + n),
            None => spec_try_match_at(s@, s_start as int, pat@) is None,
        },
{
    let _s_len = s.len();
    let mut cap = CapState::new();
    let ghost cap0 = cap;
    proof {
        law_match_stays_in_subject(s@, s_start as int, pat@, 0, cap0);
    }
    match match_pattern(s, s_start, pat, 0, &mut cap) {
        Some(end) => Some((end - s_start, cap)),
        None => None,
    }
}

/// Whether the pattern starts with the `^` anchor.
pub open spec fn is_anchored(pat: Seq<u8>) -> bool {
    pat.len() > 0 && pat[0] == CARET
}

/// The pattern without its `^` anchor.
pub open spec fn pattern_body(pat: Seq<u8>) -> Seq<u8> {
    if is_anchored(pat) {
        pat.subrange(1, pat.len() as int)
    } else {
        pat
    }
}

/// Leftmost start in `[start, stop]` at which `body` matches, with the
/// consumed length and capture state.
pub open spec fn first_match_from(s: Seq<u8>, body: Seq<u8>, start: int, stop: int) -> Option<
    (int, int, CapState),
>
    decreases stop + 1 - start,
{
    if start > stop {
        None
    } else {
        match spec_try_match_at(s, start, body) {
            Some((n, c)) => Some((start, n, c)),
            None => first_match_from(s, body, start + 1, stop),
        }
    }
}

/// Pattern search from byte offset `init`: an empty pattern matches at
/// `init` (clamped to the subject); an anchored pattern is tried only
/// at `init`; otherwise every start from `init` to the end of the
/// subject is tried in turn.
pub open spec fn spec_run_pattern_from(s: Seq<u8>, pat: Seq<u8>, init: int) -> Option<
    (int, int, CapState),
> {
    if pat.len() == 0 {
        Some((if init < s.len() { init } else { s.len() as int }, 0, cap_init()))
    } else if init > s.len() {
        None
    } else {
        first_match_from(
            s,
            pattern_body(pat),
            init,
            if is_anchored(pat) {
                init
            } else {
                s.len() as int
            },
        )
    }
}

/// Search for `pat` in `s` from byte offset `init_byte`; on success
/// the 0-based start, the matched length and the capture state.
pub fn run_pattern_from(s: &[u8], pat: &[u8], init_byte: usize) -> (r: Option<(usize, usize, CapState)>)
    ensures
        match r {
            Some((st, n, c)) => spec_run_pattern_from(s@, pat@, init_byte as int) == Some(
                (st as int, n as int, c),
            ) && st + n <= s@.len() && cap_wf(c, st + n),
            None => spec_run_pattern_from(s@, pat@, init_byte as int) is None,
        },
{
    let s_len = s.len();
    let pat_len = pat.len();
    if pat_len == 0 {
        let st = if init_byte < s_len {
            init_byte
        } else {
            s_len
        };
        return Some((st, 0, CapState::new()));
    }
    let anchored = pat[0] == CARET;
    let body: &[u8] = if anchored {
        &pat[1..pat_len]
    } else {
        pat
    };
    if init_byte > s_len {
        return None;
    }
    let mut start = init_byte;
    let stop = if anchored {
        init_byte
    } else {
        s_len
    };
    assert(body@ == pattern_body(pat@));
    loop
        invariant
            s_len == s@.len(),
            init_byte <= start <= stop <= s_len,
            body@ == pattern_body(pat@),
            stop == (if is_anchored(pat@) {
                init_byte as int
            } else {
                s_len as int
            }),
            pat@.len() > 0,
            first_match_from(s@, body@, init_byte as int, stop as int) == first_match_from(
                s@,
                body@,
                start as int,
                stop as int,
            ),
        decreases stop - start,
    {
        if let Some((consumed, cap)) = try_match_at(s, start, body) {
            return Some((start, consumed, cap));
        }
        if start >= stop {
            assert(first_match_from(s@, body@, start + 1, stop as int) is None);
            return None;
        }
        start += 1;
    }
}

/// Search for `pat` in the whole subject.
pub fn run_pattern(s: &[u8], pat: &[u8]) -> (r: Option<(usize, usize, CapState)>)
    ensures
        match r {
            Some((st, n, c)) => spec_run_pattern_from(s@, pat@, 0) == Some((st as int, n as int, c))
                && st + n <= s@.len() && cap_wf(c, st + n),
            None => spec_run_pattern_from(s@, pat@, 0) is None,
        },
{
    run_pattern_from(s, pat, 0)
}

/// The packed extent the runtime hands back to compiled code: the
/// 1-based start in the low 32 bits and the byte length above them.
pub open spec fn pack_extent(pos: i64, len: i64) -> i64 {
    (len << 32u64) | pos
}

/// The packed result of a search outcome: 0 when nothing matched.
pub open spec fn extent_code(found: Option<(int, int, CapState)>) -> i64 {
    match found {
        Some((st, n, _)) => pack_extent((st + 1) as i64, n as i64),
        None => 0,
    }
}

/// The packed result of a `string.match` outcome: the capture's
/// extent when the pattern closed a capture, the overall match
/// extent otherwise.
pub open spec fn capture_code(found: Option<(int, int, CapState)>) -> i64 {
    match found {
        Some((st, n, c)) => if c.captured {
            pack_extent((c.cap_start + 1) as i64, (c.cap_end - c.cap_start) as i64)
        } else {
            pack_extent((st + 1) as i64, n as i64)
        },
        None => 0,
    }
}

fn pack(pos: usize, len: usize) -> (r: i64)
    requires
        pos < i64::MAX,
        len <= i64::MAX,
    ensures
        r == pack_extent((pos + 1) as i64, len as i64),
{
    let p = (pos as i64) + 1;
    let l = len as i64;
    (l << 32u64) | p
}

/// `string.find(s, pat)` / `string.match(s, pat)` extent: packed
/// (1-based start, byte length) of the leftmost match, 0 when none.
pub fn lumelir_string_match_extents(s: &[u8], pat: &[u8]) -> (r: i64)
    requires
        s@.len() < i64::MAX,
    ensures
        r == extent_code(spec_run_pattern_from(s@, pat@, 0)),
{
    match run_pattern(s, pat) {
        Some((start, consumed, _cap)) => pack(start, consumed),
        None => 0,
    }
}

/// The 0-based byte offset a 1-based `init` argument starts from;
/// anything at or below 1 starts at the beginning.
pub open spec fn init_offset(init_1based: i64) -> int {
    if init_1based <= 1 {
        0
    } else {
        ((init_1based - 1) as usize) as int
    }
}

/// `string.find(s, pat, init)`: packed extent of the leftmost match
/// at or after the 1-based position `init`, 0 when none.
pub fn lumelir_string_find_init(s: &[u8], pat: &[u8], init_1based: i64) -> (r: i64)
    requires
        s@.len() < i64::MAX,
    ensures
        r == extent_code(spec_run_pattern_from(s@, pat@, init_offset(init_1based))),
{
    let init_byte: usize = if init_1based <= 1 {
        0
    } else {
        (init_1based - 1) as usize
    };
    match run_pattern_from(s, pat, init_byte) {
        Some((start, consumed, _cap)) => pack(start, consumed),
        None => 0,
    }
}

/// `string.match(s, pat)` with one capture: packed extent of the
/// capture when the pattern closed one, of the whole match otherwise,
/// 0 when nothing matched.
pub fn lumelir_string_match_capture1(s: &[u8], pat: &[u8]) -> (r: i64)
    requires
        s@.len() < i64::MAX,
    ensures
        r == capture_code(spec_run_pattern_from(s@, pat@, 0)),
{
    match run_pattern(s, pat) {
        Some((start, consumed, cap)) => {
            if cap.captured {
                pack(cap.cap_start, cap.cap_end - cap.cap_start)
            } else {
                pack(start, consumed)
            }
        },
        None => 0,
    }
}

/// `sub` occurs in `s` at byte index `i`.
pub open spec fn occurs_at(s: Seq<u8>, sub: Seq<u8>, i: int) -> bool {
    0 <= i && i + sub.len() <= s.len() && s.subrange(i, i + sub.len()) == sub
}

/// Plain (no magic characters) `string.find(s, sub)`: 1-based position
/// of the first occurrence, 1 for an empty `sub`, 0 when absent.
pub fn lumelir_string_find_plain(s: &[u8], sub: &[u8]) -> (r: i64)
    requires
        s@.len() < i64::MAX,
    ensures
        sub@.len() == 0 ==> r == 1,
        sub@.len() > 0 ==> (r == 0 <==> forall|i: int| !occurs_at(s@, sub@, i)),
        sub@.len() > 0 && r != 0 ==> occurs_at(s@, sub@, r - 1) && forall|k: int|
            0 <= k < r - 1 ==> !occurs_at(s@, sub@, k),
{
    let s_len = s.len();
    let sub_len = sub.len();
    if sub_len == 0 {
        return 1;
    }
    if sub_len > s_len {
        return 0;
    }
    let last = s_len - sub_len;
    let mut i: usize = 0;
    while i <= last
        invariant
            s_len == s@.len(),
            sub_len == sub@.len(),
            sub_len > 0,
            last == s_len - sub_len,
            s_len < i64::MAX,
            i <= last + 1,
            forall|k: int| 0 <= k < i ==> !occurs_at(s@, sub@, k),
        decreases last + 1 - i,
    {
        let mut j: usize = 0;
        while j < sub_len
            invariant
                s_len == s@.len(),
                sub_len == sub@.len(),
                i <= last,
                last == s_len - sub_len,
                j <= sub_len,
                forall|t: int| 0 <= t < j ==> s@[i + t] == sub@[t],
        ensures
            j <= sub_len,
            forall|t: int| 0 <= t < j ==> s@[i + t] == sub@[t],
            j < sub_len ==> s@[i + j] != sub@[j as int],
        decreases sub_len - j,
        {
            if s[i + j] != sub[j] {
                break;
            }
            j += 1;
        }
        if j == sub_len {
            assert(s@.subrange(i as int, i + sub_len) =~= sub@);
            assert(occurs_at(s@, sub@, i as int));
            return (i as i64) + 1;
        }
        assert(!occurs_at(s@, sub@, i as int)) by {
            if occurs_at(s@, sub@, i as int) {
                assert(s@.subrange(i as int, i + sub_len)[j as int] == sub@[j as int]);
            }
        }
        i += 1;
    }
    assert forall|k: int| !occurs_at(s@, sub@, k) by {
        if 0 <= k && k + sub_len <= s_len {
            assert(k < i);
        }
    }
    0
}

/// `rust.starts_with(s, prefix)`: whether `s` begins with `prefix`.
pub fn rust_starts_with(s: &[u8], prefix: &[u8]) -> (r: bool)
    ensures
        r == (prefix@.len() <= s@.len() && s@.subrange(0, prefix@.len() as int) == prefix@),
{
    let s_len = s.len();
    let p_len = prefix.len();
    if p_len > s_len {
        return false;
    }
    let mut i: usize = 0;
    while i < p_len
        invariant
            s_len == s@.len(),
            p_len == prefix@.len(),
            p_len <= s_len,
            i <= p_len,
            forall|t: int| 0 <= t < i ==> s@[t] == prefix@[t],
        decreases p_len - i,
    {
        if s[i] != prefix[i] {
            assert(s@.subrange(0, p_len as int)[i as int] != prefix@[i as int]);
            return false;
        }
        i += 1;
    }
    assert(s@.subrange(0, p_len as int) =~= prefix@);
    true
}

/// `rust.not(b)`: logical negation across the bridge.
pub fn rust_not(b: bool) -> (r: bool)
    ensures
        r == !b,
{
    !b
}

/// No `(` anywhere in `pat`.
pub open spec fn capture_free(pat: Seq<u8>) -> bool {
    forall|i: int| 0 <= i < pat.len() ==> pat[i] != LPAREN
}

proof fn lemma_capture_free_match(s: Seq<u8>, si: int, pat: Seq<u8>, pi: int, cap: CapState)
    requires
        capture_free(pat),
        !cap.captured,
        !cap.has_pending,
    ensures
        spec_match(s, si, pat, pi, cap) matches Some((e, c)) ==> c == cap,
    decreases pat.len() - pi, 0int, 0int,
{
    if pi < 0 || pi >= pat.len() {
    } else if pi + 1 == pat.len() && pat[pi] == DOLLAR {
    } else if pat[pi] == LPAREN {
        assert(false);
    } else if pat[pi] == RPAREN {
        assert(spec_match(s, si, pat, pi, cap) is None);
    } else {
        let after = pi + spec_atom_len(pat, pi);
        if after <= pi || after > pat.len() {
        } else if after < pat.len() && (pat[after] == STAR || pat[after] == PLUS) {
            let min: int = if pat[after] == STAR { 0 } else { 1 };
            lemma_capture_free_max(s, si, pat, pi, after + 1, min, greedy_count(s, si, pat, pi), cap);
        } else if after < pat.len() && pat[after] == QUESTION {
            if 0 <= si < s.len() && spec_matches_atom(s[si], pat, pi) {
                lemma_capture_free_match(s, si + 1, pat, after + 1, cap);
            }
            lemma_capture_free_match(s, si, pat, after + 1, cap);
            assert(spec_match(s, si, pat, pi, cap) == spec_match_opt(s, si, pat, pi, after + 1, cap));
            assert(spec_match_opt(s, si, pat, pi, after + 1, cap) matches Some((e, c)) ==> c == cap);
        } else if si < 0 || si >= s.len() {
        } else if spec_matches_atom(s[si], pat, pi) {
            lemma_capture_free_match(s, si + 1, pat, after, cap);
        }
    }
}

proof fn lemma_capture_free_max(
    s: Seq<u8>,
    si: int,
    pat: Seq<u8>,
    atom_p: int,
    rest_p: int,
    min: int,
    count: nat,
    cap: CapState,
)
    requires
        capture_free(pat),
        !cap.captured,
        !cap.has_pending,
    ensures
        spec_match_max(s, si, pat, atom_p, rest_p, min, count, cap) matches Some((e, c)) ==> c == cap,
    decreases pat.len() - rest_p + 1, 0int, count,
{
    if rest_p < 0 || rest_p > pat.len() {
    } else {
        if count >= min {
            lemma_capture_free_match(s, si + count, pat, rest_p, cap);
        }
        if count > 0 {
            lemma_capture_free_max(s, si, pat, atom_p, rest_p, min, (count - 1) as nat, cap);
        }
    }
}

proof fn lemma_first_match_capture_free(s: Seq<u8>, body: Seq<u8>, start: int, stop: int)
    requires
        capture_free(body),
    ensures
        first_match_from(s, body, start, stop) matches Some((st, n, c)) ==> !c.captured,
    decreases stop + 1 - start,
{
    if start <= stop {
        lemma_capture_free_match(s, start, body, 0, cap_init());
        if spec_try_match_at(s, start, body) is None {
            lemma_first_match_capture_free(s, body, start + 1, stop);
        }
    }
}

/// Law: when the pattern has no capture, `string.match` reports the
/// overall match extent, exactly as `string.find` does.
pub proof fn law_match_without_capture_is_find(s: Seq<u8>, pat: Seq<u8>)
    requires
        capture_free(pat),
    ensures
        capture_code(spec_run_pattern_from(s, pat, 0)) == extent_code(spec_run_pattern_from(s, pat, 0)),
{
    if pat.len() > 0 {
        let body = pattern_body(pat);
        assert(capture_free(body)) by {
            if is_anchored(pat) {
                assert forall|i: int| 0 <= i < body.len() implies body[i] != LPAREN by {
                    assert(body[i] == pat[i + 1]);
                }
            }
        }
        lemma_first_match_capture_free(
            s,
            body,
            0,
            if is_anchored(pat) { 0 } else { s.len() as int },
        );
    }
}

/// Law: an `init` of 1 (or anything below) searches from the start of
/// the subject, so the 3-argument `string.find` agrees with the
/// 2-argument one.
pub proof fn law_find_init_one_is_find(s: Seq<u8>, pat: Seq<u8>, init_1based: i64)
    requires
        init_1based <= 1,
    ensures
        extent_code(spec_run_pattern_from(s, pat, init_offset(init_1based))) == extent_code(
            spec_run_pattern_from(s, pat, 0),
        ),
{
}

/// Law: the search reports the leftmost start at which the pattern
/// matches. A reported start lies in `[start, stop]`, the body matches
/// there, and it matches at no earlier start; when nothing is reported
/// it matches at no start in the range.
pub proof fn law_first_match_is_leftmost(s: Seq<u8>, body: Seq<u8>, start: int, stop: int)
    ensures
        match first_match_from(s, body, start, stop) {
            Some((st, n, c)) => start <= st <= stop && spec_try_match_at(s, st, body) == Some((n, c))
                && forall|k: int| start <= k < st ==> spec_try_match_at(s, k, body) is None,
            None => forall|k: int| start <= k <= stop ==> spec_try_match_at(s, k, body) is None,
        },
    decreases stop + 1 - start,
{
    if start <= stop {
        law_first_match_is_leftmost(s, body, start + 1, stop);
    }
}

/// Law: an anchored pattern (`^...`) is tried only at the starting
/// offset, so any match it reports begins exactly there.
pub proof fn law_anchored_match_starts_at_init(s: Seq<u8>, pat: Seq<u8>, init: int)
    requires
        is_anchored(pat),
    ensures
        spec_run_pattern_from(s, pat, init) matches Some((st, n, c)) ==> st == init,
{
    law_first_match_is_leftmost(s, pattern_body(pat), init, init);
}

/// Law: the packed extent can be unpacked again: the low 32 bits give
/// back the 1-based start and the high bits the length, whenever the
/// start fits in 32 bits and the length in 31; and a match (start at
/// least 1) never packs to 0, the "no match" code.
pub proof fn law_pack_extent_roundtrip(pos: i64, len: i64)
    requires
        0 <= pos < 0x1_0000_0000,
        0 <= len < 0x8000_0000,
    ensures
        pack_extent(pos, len) & 0xffff_ffffi64 == pos,
        pack_extent(pos, len) >> 32u64 == len,
        pos >= 1 ==> pack_extent(pos, len) != 0,
{
    assert((((len << 32u64) | pos) & 0xffff_ffffi64 == pos) && (((len << 32u64) | pos) >> 32u64
        == len) && (pos >= 1 ==> ((len << 32u64) | pos) != 0)) by (bit_vector)
        requires
            0 <= pos < 0x1_0000_0000,
            0 <= len < 0x8000_0000,
    ;
}

/// A byte with a meaning of its own in a pattern somewhere.
pub open spec fn is_magic(b: u8) -> bool {
    b == PERCENT || b == DOT || b == LBRACKET || b == LPAREN || b == RPAREN || b == STAR || b
        == PLUS || b == QUESTION || b == DOLLAR || b == CARET
}

/// A non-empty pattern without any magic byte: it can only match itself.
pub open spec fn is_plain_pattern(pat: Seq<u8>) -> bool {
    pat.len() > 0 && forall|i: int| 0 <= i < pat.len() ==> !is_magic(#[trigger] pat[i])
}

proof fn lemma_plain_match(s: Seq<u8>, si: int, pat: Seq<u8>, pi: int, cap: CapState)
    requires
        is_plain_pattern(pat),
        0 <= pi <= pat.len(),
        0 <= si <= s.len(),
    ensures
        spec_match(s, si, pat, pi, cap) == (if si + (pat.len() - pi) <= s.len() && s.subrange(
            si,
            si + (pat.len() - pi),
        ) == pat.subrange(pi, pat.len() as int) {
            Some((si + (pat.len() - pi), cap))
        } else {
            None
        }),
    decreases pat.len() - pi,
{
    let n = pat.len() as int;
    if pi == n {
        assert(s.subrange(si, si) =~= pat.subrange(n, n));
    } else {
        assert(!is_magic(pat[pi]));
        assert(spec_atom_len(pat, pi) == 1);
        if pi + 1 < n {
            assert(!is_magic(pat[pi + 1]));
        }
        if si < s.len() {
            lemma_plain_match(s, si + 1, pat, pi + 1, cap);
            if si + (n - pi) <= s.len() {
                let a = s.subrange(si, si + (n - pi));
                let b = pat.subrange(pi, n);
                assert(a[0] == s[si] && b[0] == pat[pi]);
                assert(a.drop_first() =~= s.subrange(si + 1, si + 1 + (n - pi - 1)));
                assert(b.drop_first() =~= pat.subrange(pi + 1, n));
                if a == b {
                    assert(a.drop_first() == b.drop_first());
                } else if s[si] == pat[pi] && a.drop_first() == b.drop_first() {
                    assert forall|i: int| 0 <= i < a.len() implies a[i] == b[i] by {
                        if i > 0 {
                            assert(a[i] == a.drop_first()[i - 1]);
                            assert(b[i] == b.drop_first()[i - 1]);
                        }
                    }
                    assert(a =~= b);
                }
            }
        }
    }
}

proof fn lemma_plain_try(s: Seq<u8>, k: int, pat: Seq<u8>)
    requires
        is_plain_pattern(pat),
        0 <= k <= s.len(),
    ensures
        spec_try_match_at(s, k, pat) == (if occurs_at(s, pat, k) {
            Some((pat.len() as int, cap_init()))
        } else {
            None
        }),
{
    lemma_plain_match(s, k, pat, 0, cap_init());
    assert(pat.subrange(0, pat.len() as int) =~= pat);
}

proof fn lemma_plain_search(s: Seq<u8>, pat: Seq<u8>, start: int)
    requires
        is_plain_pattern(pat),
        0 <= start <= s.len(),
    ensures
        (forall|i: int| start <= i ==> !occurs_at(s, pat, i)) ==> first_match_from(
            s,
            pat,
            start,
            s.len() as int,
        ) is None,
        forall|k: int|
            start <= k && occurs_at(s, pat, k) && (forall|j: int| start <= j < k ==> !occurs_at(s, pat, j))
                ==> first_match_from(s, pat, start, s.len() as int) == Some(
                (k, pat.len() as int, cap_init()),
            ),
    decreases s.len() - start,
{
    lemma_plain_try(s, start, pat);
    if start < s.len() {
        lemma_plain_search(s, pat, start + 1);
    } else {
        assert(first_match_from(s, pat, start + 1, s.len() as int) is None);
    }
}

/// Law: a pattern without magic characters finds exactly what the
/// plain substring search finds: nothing when the needle does not
/// occur, else a match at its first occurrence spanning the needle.
pub proof fn law_plain_pattern_is_plain_find(s: Seq<u8>, pat: Seq<u8>)
    requires
        is_plain_pattern(pat),
    ensures
        (forall|i: int| !occurs_at(s, pat, i)) ==> spec_run_pattern_from(s, pat, 0) is None,
        forall|k: int|
            occurs_at(s, pat, k) && (forall|j: int| 0 <= j < k ==> !occurs_at(s, pat, j))
                ==> spec_run_pattern_from(s, pat, 0) == Some((k, pat.len() as int, cap_init())),
{
    assert(!is_magic(pat[0]));
    assert(pattern_body(pat) == pat);
    lemma_plain_search(s, pat, 0);
}

/// Law: what each `%X` class holds, byte by byte, in the ASCII ranges
/// of the C locale: `%a` letters, `%d` decimal digits, `%l` lower-case
/// and `%u` upper-case letters, `%w` letters and digits, `%x`
/// hexadecimal digits, `%s` the white-space bytes `\t \n \v \f \r`
/// and space, `%p` the printable non-alphanumeric non-space bytes, `%c`
/// the control bytes; each upper-case class letter is the complement of
/// its lower-case one, and any other byte after `%` stands for itself.
pub proof fn law_class_membership(c: u8, class: u8)
    ensures
        ({
            let letter = (0x41 <= c && c <= 0x5a) || (0x61 <= c && c <= 0x7a);
            let digit = 0x30 <= c && c <= 0x39;
            let lower = 0x61 <= c && c <= 0x7a;
            let upper = 0x41 <= c && c <= 0x5a;
            let space = (0x09 <= c && c <= 0x0d) || c == 0x20;
            let control = c < 0x20 || c == 0x7f;
            let printable = 0x21 <= c && c <= 0x7e;
            let punct = printable && !letter && !digit;
            let hex = digit || (0x41 <= c && c <= 0x46) || (0x61 <= c && c <= 0x66);
            &&& spec_matches_class(c, 0x61) == letter && spec_matches_class(c, 0x41) == !letter
            &&& spec_matches_class(c, 0x64) == digit && spec_matches_class(c, 0x44) == !digit
            &&& spec_matches_class(c, 0x6c) == lower && spec_matches_class(c, 0x4c) == !lower
            &&& spec_matches_class(c, 0x75) == upper && spec_matches_class(c, 0x55) == !upper
            &&& spec_matches_class(c, 0x77) == (letter || digit) && spec_matches_class(c, 0x57) == !(letter || digit)
            &&& spec_matches_class(c, 0x78) == hex && spec_matches_class(c, 0x58) == !hex
            &&& spec_matches_class(c, 0x73) == space && spec_matches_class(c, 0x53) == !space
            &&& spec_matches_class(c, 0x70) == punct && spec_matches_class(c, 0x50) == !punct
            &&& spec_matches_class(c, 0x63) == control && spec_matches_class(c, 0x43) == !control
            &&& !(class == 0x61 || class == 0x41 || class == 0x64 || class == 0x44 || class == 0x6c
                || class == 0x4c || class == 0x75 || class == 0x55 || class == 0x77 || class == 0x57
                || class == 0x78 || class == 0x58 || class == 0x73 || class == 0x53 || class == 0x70
                || class == 0x50 || class == 0x63 || class == 0x43) ==> spec_matches_class(c, class) == (c
                == class)
        }),
{
}

} // verus!
