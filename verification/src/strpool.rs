//! The module's string-literal pool: every string literal of the
//! chunk, deduplicated, ordered by the bytes of its UTF-8 encoding,
//! and named `lstr_<i>` after its rank, so the emitted globals do not
//! depend on the order the literals appear in.

use vstd::prelude::*;
use vstd::utf8::*;

use crate::hir::{HirChunk, HirExpr, HirExprKind, HirFunction, HirStmt, HirStmtKind};

verus! {

broadcast use vstd::utf8::encode_utf8_decode_utf8;

/// Lexicographic order on byte strings; a proper prefix comes first.
pub open spec fn bytes_lt(a: Seq<u8>, b: Seq<u8>) -> bool
    decreases a.len(),
{
    if a.len() == 0 {
        b.len() > 0
    } else if b.len() == 0 {
        false
    } else if a[0] != b[0] {
        a[0] < b[0]
    } else {
        bytes_lt(a.drop_first(), b.drop_first())
    }
}

/// Order on strings: by the bytes of their UTF-8 encodings.
pub open spec fn str_lt(a: Seq<char>, b: Seq<char>) -> bool {
    bytes_lt(encode_utf8(a), encode_utf8(b))
}

proof fn lemma_bytes_lt_irreflexive(a: Seq<u8>)
    ensures
        !bytes_lt(a, a),
    decreases a.len(),
{
    if a.len() > 0 {
        lemma_bytes_lt_irreflexive(a.drop_first());
    }
}

proof fn lemma_bytes_lt_transitive(a: Seq<u8>, b: Seq<u8>, c: Seq<u8>)
    requires
        bytes_lt(a, b),
        bytes_lt(b, c),
    ensures
        bytes_lt(a, c),
    decreases a.len(),
{
    if a.len() > 0 && b.len() > 0 && c.len() > 0 && a[0] == b[0] && b[0] == c[0] {
        lemma_bytes_lt_transitive(a.drop_first(), b.drop_first(), c.drop_first());
    }
}

proof fn lemma_bytes_lt_total(a: Seq<u8>, b: Seq<u8>)
    ensures
        a == b || bytes_lt(a, b) || bytes_lt(b, a),
    decreases a.len(),
{
    if a.len() > 0 && b.len() > 0 && a[0] == b[0] {
        lemma_bytes_lt_total(a.drop_first(), b.drop_first());
        if a.drop_first() == b.drop_first() {
            assert(a =~= seq![a[0]] + a.drop_first());
            assert(b =~= seq![b[0]] + b.drop_first());
        }
    } else if a.len() == 0 && b.len() == 0 {
        assert(a =~= b);
    }
}

proof fn lemma_bytes_lt_asymmetric(a: Seq<u8>, b: Seq<u8>)
    requires
        bytes_lt(a, b),
    ensures
        !bytes_lt(b, a),
    decreases a.len(),
{
    if a.len() > 0 && b.len() > 0 && a[0] == b[0] {
        lemma_bytes_lt_asymmetric(a.drop_first(), b.drop_first());
    }
}

/// Two distinct strings are ordered one way or the other.
proof fn lemma_str_lt_total(a: Seq<char>, b: Seq<char>)
    ensures
        a == b || str_lt(a, b) || str_lt(b, a),
{
    lemma_bytes_lt_total(encode_utf8(a), encode_utf8(b));
    if encode_utf8(a) == encode_utf8(b) {
        assert(decode_utf8(encode_utf8(a)) == a);
        assert(decode_utf8(encode_utf8(b)) == b);
    }
}

/// Outcome of comparing two byte strings.
#[derive(Clone, Copy, Debug, PartialEq, Eq, Structural)]
pub enum ByteOrder {
    Less,
    Equal,
    Greater,
}

/// Lexicographic comparison of two byte strings.
pub fn compare_bytes(a: &[u8], b: &[u8]) -> (r: ByteOrder)
    ensures
        (r is Less) == bytes_lt(a@, b@),
        (r is Equal) == (a@ == b@),
        (r is Greater) == bytes_lt(b@, a@),
{
    proof {
        lemma_bytes_lt_irreflexive(a@);
        lemma_bytes_lt_total(a@, b@);
        lemma_bytes_lt_asymmetric_both(a@, b@);
    }
    let na = a.len();
    let nb = b.len();
    let mut i: usize = 0;
    assert(a@.skip(0) =~= a@);
    assert(b@.skip(0) =~= b@);
    assert(a@.take(0) =~= b@.take(0));
    while i < na && i < nb
        invariant
            na == a@.len(),
            nb == b@.len(),
            i <= na,
            i <= nb,
            a@.take(i as int) == b@.take(i as int),
            bytes_lt(a@, b@) == bytes_lt(a@.skip(i as int), b@.skip(i as int)),
            bytes_lt(b@, a@) == bytes_lt(b@.skip(i as int), a@.skip(i as int)),
        decreases na - i,
    {
        if a[i] != b[i] {
            proof {
                assert(a@.skip(i as int)[0] == a@[i as int]);
                assert(b@.skip(i as int)[0] == b@[i as int]);
            }
            if a[i] < b[i] {
                return ByteOrder::Less;
            } else {
                return ByteOrder::Greater;
            }
        }
        proof {
            assert(a@.skip(i as int).drop_first() =~= a@.skip(i + 1));
            assert(b@.skip(i as int).drop_first() =~= b@.skip(i + 1));
            assert(a@.take(i + 1) =~= a@.take(i as int).push(a@[i as int]));
            assert(b@.take(i + 1) =~= b@.take(i as int).push(b@[i as int]));
        }
        i = i + 1;
    }
    if na == nb {
        assert(a@ =~= a@.take(i as int));
        assert(b@ =~= b@.take(i as int));
        ByteOrder::Equal
    } else if na < nb {
        assert(a@.skip(i as int).len() == 0);
        ByteOrder::Less
    } else {
        assert(b@.skip(i as int).len() == 0);
        ByteOrder::Greater
    }
}

proof fn lemma_bytes_lt_asymmetric_both(a: Seq<u8>, b: Seq<u8>)
    ensures
        !(bytes_lt(a, b) && bytes_lt(b, a)),
{
    if bytes_lt(a, b) {
        lemma_bytes_lt_asymmetric(a, b);
    }
}

/// Every string literal of an expression.
pub open spec fn expr_strings(e: HirExpr) -> Set<Seq<char>>
    decreases e,
{
    match e.kind {
        HirExprKind::Str(s) => set![s@],
        HirExprKind::BinOp { lhs, rhs, .. } => expr_strings(*lhs).union(expr_strings(*rhs)),
        HirExprKind::UnaryOp { operand, .. } => expr_strings(*operand),
        HirExprKind::Call { args, .. } => exprs_strings(args@),
        HirExprKind::Table(elems) => exprs_strings(elems@),
        HirExprKind::Index { target, key } => expr_strings(*target).union(expr_strings(*key)),
        HirExprKind::IndexTagged { target, key } => expr_strings(*target).union(expr_strings(*key)),
        HirExprKind::IsNil(operand) => expr_strings(*operand),
        HirExprKind::ArithStringCoerce(operand) => expr_strings(*operand),
        _ => Set::empty(),
    }
}

/// Every string literal of a list of expressions.
pub open spec fn exprs_strings(es: Seq<HirExpr>) -> Set<Seq<char>>
    decreases es,
{
    if es.len() == 0 {
        Set::empty()
    } else {
        exprs_strings(es.drop_last()).union(expr_strings(es.last()))
    }
}

/// Every string literal of a statement, its nested expressions and
/// nested bodies included.
pub open spec fn stmt_strings(st: HirStmt) -> Set<Seq<char>>
    decreases st,
{
    match st.kind {
        HirStmtKind::LocalInit { value, .. } => expr_strings(value),
        HirStmtKind::Assign { value, .. } => expr_strings(value),
        HirStmtKind::Block { stmts } => stmts_strings(stmts@),
        HirStmtKind::If { cond, then_body, elifs, else_body } => expr_strings(cond).union(
            stmts_strings(then_body@),
        ).union(elifs_strings(elifs@)).union(
            match else_body {
                Some(b) => stmts_strings(b@),
                None => Set::empty(),
            },
        ),
        HirStmtKind::While { cond, body, .. } => expr_strings(cond).union(stmts_strings(body@)),
        HirStmtKind::Repeat { body, cond, .. } => stmts_strings(body@).union(expr_strings(cond)),
        HirStmtKind::ForNumeric { start, stop, step, body, .. } => expr_strings(start).union(
            expr_strings(stop),
        ).union(expr_strings(step)).union(stmts_strings(body@)),
        HirStmtKind::ExprStmt(e) => expr_strings(e),
        HirStmtKind::MultiAssignFromCall { args, .. } => exprs_strings(args@),
        HirStmtKind::IndexAssign { target, key, value } => expr_strings(target).union(
            expr_strings(key),
        ).union(expr_strings(value)),
    }
}

/// Every string literal of a statement list.
pub open spec fn stmts_strings(ss: Seq<HirStmt>) -> Set<Seq<char>>
    decreases ss,
{
    if ss.len() == 0 {
        Set::empty()
    } else {
        stmts_strings(ss.drop_last()).union(stmt_strings(ss.last()))
    }
}

/// Every string literal of a list of `elseif` arms.
pub open spec fn elifs_strings(arms: Seq<(HirExpr, Vec<HirStmt>)>) -> Set<Seq<char>>
    decreases arms,
{
    if arms.len() == 0 {
        Set::empty()
    } else {
        elifs_strings(arms.drop_last()).union(expr_strings(arms.last().0)).union(
            stmts_strings(arms.last().1@),
        )
    }
}

/// Every string literal in the bodies of a list of functions.
pub open spec fn functions_strings(fs: Seq<HirFunction>) -> Set<Seq<char>>
    decreases fs.len(),
{
    if fs.len() == 0 {
        Set::empty()
    } else {
        functions_strings(fs.drop_last()).union(stmts_strings(fs.last().body@))
    }
}

/// Every string literal of a chunk: main statements and function bodies.
pub open spec fn chunk_strings(chunk: HirChunk) -> Set<Seq<char>> {
    stmts_strings(chunk.stmts@).union(functions_strings(chunk.functions@))
}

/// `x` is a string literal somewhere inside `e`: `e` itself, or inside
/// one of its operands, arguments, elements, targets or keys.
pub open spec fn literal_in_expr(x: Seq<char>, e: HirExpr) -> bool
    decreases e,
{
    match e.kind {
        HirExprKind::Str(s) => s@ == x,
        HirExprKind::BinOp { lhs, rhs, .. } => literal_in_expr(x, *lhs) || literal_in_expr(x, *rhs),
        HirExprKind::UnaryOp { operand, .. } => literal_in_expr(x, *operand),
        HirExprKind::Call { args, .. } => literal_in_some_expr(x, args@),
        HirExprKind::Table(elems) => literal_in_some_expr(x, elems@),
        HirExprKind::Index { target, key } => literal_in_expr(x, *target) || literal_in_expr(x, *key),
        HirExprKind::IndexTagged { target, key } => literal_in_expr(x, *target) || literal_in_expr(x, *key),
        HirExprKind::IsNil(operand) => literal_in_expr(x, *operand),
        HirExprKind::ArithStringCoerce(operand) => literal_in_expr(x, *operand),
        _ => false,
    }
}

/// `x` is a string literal inside one of the expressions `es`.
pub open spec fn literal_in_some_expr(x: Seq<char>, es: Seq<HirExpr>) -> bool
    decreases es,
{
    es.len() > 0 && (literal_in_expr(x, es.last()) || literal_in_some_expr(x, es.drop_last()))
}

/// `x` is a string literal somewhere inside `st`: in any expression it
/// holds, or in any statement of a body nested in it.
pub open spec fn literal_in_stmt(x: Seq<char>, st: HirStmt) -> bool
    decreases st,
{
    match st.kind {
        HirStmtKind::LocalInit { value, .. } => literal_in_expr(x, value),
        HirStmtKind::Assign { value, .. } => literal_in_expr(x, value),
        HirStmtKind::Block { stmts } => literal_in_some_stmt(x, stmts@),
        HirStmtKind::If { cond, then_body, elifs, else_body } => {
            ||| literal_in_expr(x, cond)
            ||| literal_in_some_stmt(x, then_body@)
            ||| literal_in_some_arm(x, elifs@)
            ||| match else_body {
                Some(b) => literal_in_some_stmt(x, b@),
                None => false,
            }
        },
        HirStmtKind::While { cond, body, .. } => literal_in_expr(x, cond) || literal_in_some_stmt(x, body@),
        HirStmtKind::Repeat { body, cond, .. } => literal_in_expr(x, cond) || literal_in_some_stmt(x, body@),
        HirStmtKind::ForNumeric { start, stop, step, body, .. } => {
            ||| literal_in_expr(x, start)
            ||| literal_in_expr(x, stop)
            ||| literal_in_expr(x, step)
            ||| literal_in_some_stmt(x, body@)
        },
        HirStmtKind::ExprStmt(e) => literal_in_expr(x, e),
        HirStmtKind::MultiAssignFromCall { args, .. } => literal_in_some_expr(x, args@),
        HirStmtKind::IndexAssign { target, key, value } => {
            ||| literal_in_expr(x, target)
            ||| literal_in_expr(x, key)
            ||| literal_in_expr(x, value)
        },
    }
}

/// `x` is a string literal inside one of the statements `ss`.
pub open spec fn literal_in_some_stmt(x: Seq<char>, ss: Seq<HirStmt>) -> bool
    decreases ss,
{
    ss.len() > 0 && (literal_in_stmt(x, ss.last()) || literal_in_some_stmt(x, ss.drop_last()))
}

/// `x` is a string literal in the condition or the body of one of the
/// `elseif` arms.
pub open spec fn literal_in_some_arm(x: Seq<char>, arms: Seq<(HirExpr, Vec<HirStmt>)>) -> bool
    decreases arms,
{
    arms.len() > 0 && ({
        ||| literal_in_expr(x, arms.last().0)
        ||| literal_in_some_stmt(x, arms.last().1@)
        ||| literal_in_some_arm(x, arms.drop_last())
    })
}

/// `x` is a string literal somewhere in the chunk: in a statement of the
/// main chunk or of a function body.
pub open spec fn literal_in_chunk(x: Seq<char>, chunk: HirChunk) -> bool {
    ||| exists|i: int| 0 <= i < chunk.stmts@.len() && #[trigger] literal_in_stmt(x, chunk.stmts@[i])
    ||| exists|f: int, i: int|
        0 <= f < chunk.functions@.len() && 0 <= i < chunk.functions@[f].body@.len()
            && #[trigger] literal_in_stmt(x, chunk.functions@[f].body@[i])
}

/// A literal inside one of `es` is one inside some element of `es`.
proof fn lemma_some_expr(x: Seq<char>, es: Seq<HirExpr>)
    ensures
        literal_in_some_expr(x, es) == exists|i: int| 0 <= i < es.len() && #[trigger] literal_in_expr(x, es[i]),
    decreases es.len(),
{
    if es.len() > 0 {
        let init = es.drop_last();
        lemma_some_expr(x, init);
        if exists|i: int| 0 <= i < es.len() && #[trigger] literal_in_expr(x, es[i]) {
            let i = choose|i: int| 0 <= i < es.len() && #[trigger] literal_in_expr(x, es[i]);
            if i < es.len() - 1 {
                assert(init[i] == es[i]);
            }
        }
        if exists|i: int| 0 <= i < init.len() && #[trigger] literal_in_expr(x, init[i]) {
            let i = choose|i: int| 0 <= i < init.len() && #[trigger] literal_in_expr(x, init[i]);
            assert(init[i] == es[i]);
        }
        if literal_in_expr(x, es.last()) {
            assert(literal_in_expr(x, es[es.len() - 1]));
        }
    }
}

/// A literal inside one of `ss` is one inside some element of `ss`.
proof fn lemma_some_stmt(x: Seq<char>, ss: Seq<HirStmt>)
    ensures
        literal_in_some_stmt(x, ss) == exists|i: int| 0 <= i < ss.len() && #[trigger] literal_in_stmt(x, ss[i]),
    decreases ss.len(),
{
    if ss.len() > 0 {
        let init = ss.drop_last();
        lemma_some_stmt(x, init);
        if exists|i: int| 0 <= i < ss.len() && #[trigger] literal_in_stmt(x, ss[i]) {
            let i = choose|i: int| 0 <= i < ss.len() && #[trigger] literal_in_stmt(x, ss[i]);
            if i < ss.len() - 1 {
                assert(init[i] == ss[i]);
            }
        }
        if exists|i: int| 0 <= i < init.len() && #[trigger] literal_in_stmt(x, init[i]) {
            let i = choose|i: int| 0 <= i < init.len() && #[trigger] literal_in_stmt(x, init[i]);
            assert(init[i] == ss[i]);
        }
        if literal_in_stmt(x, ss.last()) {
            assert(literal_in_stmt(x, ss[ss.len() - 1]));
        }
    }
}

proof fn lemma_expr_literals(x: Seq<char>, e: HirExpr)
    ensures
        expr_strings(e).contains(x) == literal_in_expr(x, e),
    decreases e,
{
    match e.kind {
        HirExprKind::BinOp { lhs, rhs, .. } => {
            lemma_expr_literals(x, *lhs);
            lemma_expr_literals(x, *rhs);
        },
        HirExprKind::UnaryOp { operand, .. } => lemma_expr_literals(x, *operand),
        HirExprKind::Call { args, .. } => lemma_exprs_literals(x, args@),
        HirExprKind::Table(elems) => lemma_exprs_literals(x, elems@),
        HirExprKind::Index { target, key } => {
            lemma_expr_literals(x, *target);
            lemma_expr_literals(x, *key);
        },
        HirExprKind::IndexTagged { target, key } => {
            lemma_expr_literals(x, *target);
            lemma_expr_literals(x, *key);
        },
        HirExprKind::IsNil(operand) => lemma_expr_literals(x, *operand),
        HirExprKind::ArithStringCoerce(operand) => lemma_expr_literals(x, *operand),
        _ => {},
    }
}

proof fn lemma_exprs_literals(x: Seq<char>, es: Seq<HirExpr>)
    ensures
        exprs_strings(es).contains(x) == literal_in_some_expr(x, es),
    decreases es,
{
    if es.len() > 0 {
        lemma_exprs_literals(x, es.drop_last());
        lemma_expr_literals(x, es.last());
    }
}

proof fn lemma_stmt_literals(x: Seq<char>, st: HirStmt)
    ensures
        stmt_strings(st).contains(x) == literal_in_stmt(x, st),
    decreases st,
{
    match st.kind {
        HirStmtKind::LocalInit { value, .. } => lemma_expr_literals(x, value),
        HirStmtKind::Assign { value, .. } => lemma_expr_literals(x, value),
        HirStmtKind::Block { stmts } => lemma_stmts_literals(x, stmts@),
        HirStmtKind::If { cond, then_body, elifs, else_body } => {
            lemma_expr_literals(x, cond);
            lemma_stmts_literals(x, then_body@);
            lemma_elifs_literals(x, elifs@);
            match else_body {
                Some(b) => lemma_stmts_literals(x, b@),
                None => {},
            }
        },
        HirStmtKind::While { cond, body, .. } => {
            lemma_expr_literals(x, cond);
            lemma_stmts_literals(x, body@);
        },
        HirStmtKind::Repeat { body, cond, .. } => {
            lemma_expr_literals(x, cond);
            lemma_stmts_literals(x, body@);
        },
        HirStmtKind::ForNumeric { start, stop, step, body, .. } => {
            lemma_expr_literals(x, start);
            lemma_expr_literals(x, stop);
            lemma_expr_literals(x, step);
            lemma_stmts_literals(x, body@);
        },
        HirStmtKind::ExprStmt(e) => lemma_expr_literals(x, e),
        HirStmtKind::MultiAssignFromCall { args, .. } => lemma_exprs_literals(x, args@),
        HirStmtKind::IndexAssign { target, key, value } => {
            lemma_expr_literals(x, target);
            lemma_expr_literals(x, key);
            lemma_expr_literals(x, value);
        },
    }
}

proof fn lemma_stmts_literals(x: Seq<char>, ss: Seq<HirStmt>)
    ensures
        stmts_strings(ss).contains(x) == literal_in_some_stmt(x, ss),
    decreases ss,
{
    if ss.len() > 0 {
        lemma_stmts_literals(x, ss.drop_last());
        lemma_stmt_literals(x, ss.last());
    }
}

proof fn lemma_elifs_literals(x: Seq<char>, arms: Seq<(HirExpr, Vec<HirStmt>)>)
    ensures
        elifs_strings(arms).contains(x) == literal_in_some_arm(x, arms),
    decreases arms,
{
    if arms.len() > 0 {
        lemma_elifs_literals(x, arms.drop_last());
        lemma_expr_literals(x, arms.last().0);
        lemma_stmts_literals(x, arms.last().1@);
    }
}

proof fn lemma_functions_literals(x: Seq<char>, fs: Seq<HirFunction>)
    ensures
        functions_strings(fs).contains(x) == exists|f: int, i: int|
            0 <= f < fs.len() && 0 <= i < fs[f].body@.len() && #[trigger] literal_in_stmt(x, fs[f].body@[i]),
    decreases fs.len(),
{
    if fs.len() > 0 {
        let init = fs.drop_last();
        let last = fs.last();
        lemma_functions_literals(x, init);
        lemma_stmts_literals(x, last.body@);
        lemma_some_stmt(x, last.body@);
        if exists|f: int, i: int| 0 <= f < fs.len() && 0 <= i < fs[f].body@.len() && #[trigger] literal_in_stmt(x, fs[f].body@[i]) {
            let (f, i) = choose|f: int, i: int|
                0 <= f < fs.len() && 0 <= i < fs[f].body@.len() && #[trigger] literal_in_stmt(x, fs[f].body@[i]);
            if f < fs.len() - 1 {
                assert(init[f] == fs[f]);
            } else {
                assert(last.body@[i] == fs[f].body@[i]);
            }
        }
        if exists|f: int, i: int| 0 <= f < init.len() && 0 <= i < init[f].body@.len() && #[trigger] literal_in_stmt(x, init[f].body@[i]) {
            let (f, i) = choose|f: int, i: int|
                0 <= f < init.len() && 0 <= i < init[f].body@.len() && #[trigger] literal_in_stmt(x, init[f].body@[i]);
            assert(init[f] == fs[f]);
        }
        if exists|i: int| 0 <= i < last.body@.len() && #[trigger] literal_in_stmt(x, last.body@[i]) {
            let i = choose|i: int| 0 <= i < last.body@.len() && #[trigger] literal_in_stmt(x, last.body@[i]);
            assert(literal_in_stmt(x, fs[fs.len() - 1].body@[i]));
        }
    }
}

/// The literals the pool is built from are exactly those that occur
/// somewhere in the chunk.
proof fn lemma_chunk_literals(x: Seq<char>, chunk: HirChunk)
    ensures
        chunk_strings(chunk).contains(x) == literal_in_chunk(x, chunk),
{
    lemma_stmts_literals(x, chunk.stmts@);
    lemma_some_stmt(x, chunk.stmts@);
    lemma_functions_literals(x, chunk.functions@);
}

/// `x` is one of the strings of `p`.
pub open spec fn in_pool(p: Seq<String>, x: Seq<char>) -> bool {
    exists|i: int| 0 <= i < p.len() && #[trigger] p[i]@ == x
}

/// The strings of `p` are in strictly increasing byte order.
pub open spec fn pool_sorted(p: Seq<String>) -> bool {
    forall|i: int, j: int| 0 <= i < j < p.len() ==> str_lt(#[trigger] p[i]@, #[trigger] p[j]@)
}

/// `p` holds exactly the strings of `before` together with `extra`.
pub open spec fn pool_extends(p: Seq<String>, before: Seq<String>, extra: Set<Seq<char>>) -> bool {
    forall|x: Seq<char>| #[trigger] in_pool(p, x) <==> in_pool(before, x) || extra.contains(x)
}

proof fn lemma_str_lt_transitive(a: Seq<char>, b: Seq<char>, c: Seq<char>)
    requires
        str_lt(a, b),
        str_lt(b, c),
    ensures
        str_lt(a, c),
{
    lemma_bytes_lt_transitive(encode_utf8(a), encode_utf8(b), encode_utf8(c));
}

proof fn lemma_str_lt_irreflexive(a: Seq<char>)
    ensures
        !str_lt(a, a),
{
    lemma_bytes_lt_irreflexive(encode_utf8(a));
}

/// Add one literal to a sorted pool, keeping it sorted and free of
/// duplicates.
fn insert_literal(pool: &mut Vec<String>, lit: &str)
    requires
        pool_sorted(old(pool)@),
    ensures
        pool_sorted(final(pool)@),
        pool_extends(final(pool)@, old(pool)@, set![lit@]),
{
    let n = pool.len();
    let lit_bytes = lit.as_bytes();
    let mut i: usize = 0;
    while i < n
        invariant
            n == pool@.len(),
            i <= n,
            pool_sorted(pool@),
            lit_bytes@ == encode_utf8(lit@),
            forall|k: int| 0 <= k < i ==> str_lt(#[trigger] pool@[k]@, lit@),
        ensures
            i <= n,
            forall|k: int| 0 <= k < i ==> str_lt(#[trigger] pool@[k]@, lit@),
            i < n ==> !str_lt(pool@[i as int]@, lit@),
        decreases n - i,
    {
        let here = pool[i].as_str().as_bytes();
        match compare_bytes(here, lit_bytes) {
            ByteOrder::Less => {
                i = i + 1;
            },
            _ => {
                break;
            },
        }
    }
    if i < n {
        let here = pool[i].as_str().as_bytes();
        if let ByteOrder::Equal = compare_bytes(here, lit_bytes) {
            proof {
                assert(pool@[i as int]@ == lit@) by {
                    assert(decode_utf8(encode_utf8(pool@[i as int]@)) == pool@[i as int]@);
                    assert(decode_utf8(encode_utf8(lit@)) == lit@);
                }
                assert forall|x: Seq<char>| #[trigger] in_pool(pool@, x) <==> in_pool(pool@, x)
                    || set![lit@].contains(x) by {
                    if x == lit@ {
                        assert(pool@[i as int]@ == x);
                    }
                }
            }
            return;
        }
        proof {
            lemma_str_lt_total(pool@[i as int]@, lit@);
        }
    }
    let ghost before = pool@;
    pool.insert(i, lit.to_owned());
    proof {
        assert(pool@ == before.insert(i as int, pool@[i as int]));
        assert(pool@[i as int]@ == lit@);
        assert forall|a: int, b: int| 0 <= a < b < pool@.len() implies str_lt(
            #[trigger] pool@[a]@,
            #[trigger] pool@[b]@,
        ) by {
            if b < i {
                assert(pool@[a] == before[a] && pool@[b] == before[b]);
            } else if b == i {
                assert(pool@[a] == before[a]);
            } else if a == i {
                assert(pool@[b] == before[b - 1]);
                if b - 1 > i {
                    assert(str_lt(before[i as int]@, before[b - 1]@));
                    lemma_str_lt_transitive(lit@, before[i as int]@, before[b - 1]@);
                }
            } else if a < i {
                assert(pool@[a] == before[a] && pool@[b] == before[b - 1]);
                assert(str_lt(before[a]@, lit@));
                if b - 1 == i as int {
                    lemma_str_lt_transitive(before[a]@, lit@, before[b - 1]@);
                } else {
                    assert(str_lt(before[a]@, before[b - 1]@));
                }
            } else {
                assert(pool@[a] == before[a - 1] && pool@[b] == before[b - 1]);
            }
        }
        assert forall|x: Seq<char>| #[trigger] in_pool(pool@, x) <==> in_pool(before, x) || set![
            lit@,
        ].contains(x) by {
            if in_pool(pool@, x) {
                let k = choose|k: int| 0 <= k < pool@.len() && #[trigger] pool@[k]@ == x;
                if k < i {
                    assert(before[k]@ == x);
                } else if k > i {
                    assert(before[k - 1]@ == x);
                }
            }
            if in_pool(before, x) {
                let k = choose|k: int| 0 <= k < before.len() && #[trigger] before[k]@ == x;
                if k < i {
                    assert(pool@[k]@ == x);
                } else {
                    assert(pool@[k + 1]@ == x);
                }
            }
            if x == lit@ {
                assert(pool@[i as int]@ == x);
            }
        }
    }
}

proof fn lemma_extends_trans(
    p2: Seq<String>,
    p1: Seq<String>,
    p0: Seq<String>,
    a: Set<Seq<char>>,
    b: Set<Seq<char>>,
)
    requires
        pool_extends(p1, p0, a),
        pool_extends(p2, p1, b),
    ensures
        pool_extends(p2, p0, a.union(b)),
{
    assert forall|x: Seq<char>| #[trigger] in_pool(p2, x) <==> in_pool(p0, x) || a.union(b).contains(
        x,
    ) by {
        assert(in_pool(p1, x) <==> in_pool(p0, x) || a.contains(x));
        assert(in_pool(p2, x) <==> in_pool(p1, x) || b.contains(x));
    }
}

proof fn lemma_extends_refl(p: Seq<String>)
    ensures
        pool_extends(p, p, Set::empty()),
{
}

/// Add the string literals of an expression to the pool.
fn visit_expr(e: &HirExpr, pool: &mut Vec<String>)
    requires
        pool_sorted(old(pool)@),
    ensures
        pool_sorted(final(pool)@),
        pool_extends(final(pool)@, old(pool)@, expr_strings(*e)),
    decreases e,
{
    let ghost p0 = pool@;
    match &e.kind {
        HirExprKind::Str(s) => {
            insert_literal(pool, s.as_str());
        },
        HirExprKind::BinOp { lhs, rhs, .. } => {
            visit_expr(lhs, pool);
            let ghost p1 = pool@;
            visit_expr(rhs, pool);
            proof {
                lemma_extends_trans(pool@, p1, p0, expr_strings(**lhs), expr_strings(**rhs));
            }
        },
        HirExprKind::UnaryOp { operand, .. } => {
            visit_expr(operand, pool);
        },
        HirExprKind::Call { args, .. } => {
            visit_exprs(args, pool);
        },
        HirExprKind::Table(elems) => {
            visit_exprs(elems, pool);
        },
        HirExprKind::Index { target, key } => {
            visit_expr(target, pool);
            let ghost p1 = pool@;
            visit_expr(key, pool);
            proof {
                lemma_extends_trans(pool@, p1, p0, expr_strings(**target), expr_strings(**key));
            }
        },
        HirExprKind::IndexTagged { target, key } => {
            visit_expr(target, pool);
            let ghost p1 = pool@;
            visit_expr(key, pool);
            proof {
                lemma_extends_trans(pool@, p1, p0, expr_strings(**target), expr_strings(**key));
            }
        },
        HirExprKind::IsNil(operand) => {
            visit_expr(operand, pool);
        },
        HirExprKind::ArithStringCoerce(operand) => {
            visit_expr(operand, pool);
        },
        _ => {
            proof {
                lemma_extends_refl(pool@);
            }
        },
    }
}

/// Add the string literals of a list of expressions to the pool.
fn visit_exprs(es: &Vec<HirExpr>, pool: &mut Vec<String>)
    requires
        pool_sorted(old(pool)@),
    ensures
        pool_sorted(final(pool)@),
        pool_extends(final(pool)@, old(pool)@, exprs_strings(es@)),
    decreases es,
{
    let ghost p0 = pool@;
    let n = es.len();
    let mut i: usize = 0;
    proof {
        assert(es@.take(0) =~= Seq::<HirExpr>::empty());
        lemma_extends_refl(pool@);
    }
    while i < n
        invariant
            n == es@.len(),
            i <= n,
            pool_sorted(pool@),
            pool_extends(pool@, p0, exprs_strings(es@.take(i as int))),
        decreases n - i,
    {
        let ghost p1 = pool@;
        visit_expr(&es[i], pool);
        proof {
            lemma_extends_trans(pool@, p1, p0, exprs_strings(es@.take(i as int)), expr_strings(es@[i as int]));
            assert(es@.take(i + 1).drop_last() =~= es@.take(i as int));
            assert(es@.take(i + 1).last() == es@[i as int]);
        }
        i = i + 1;
    }
    proof {
        assert(es@.take(n as int) =~= es@);
    }
}

/// Add the string literals of a statement to the pool.
fn visit_stmt(st: &HirStmt, pool: &mut Vec<String>)
    requires
        pool_sorted(old(pool)@),
    ensures
        pool_sorted(final(pool)@),
        pool_extends(final(pool)@, old(pool)@, stmt_strings(*st)),
    decreases st,
{
    let ghost p0 = pool@;
    match &st.kind {
        HirStmtKind::LocalInit { value, .. } => {
            visit_expr(value, pool);
        },
        HirStmtKind::Assign { value, .. } => {
            visit_expr(value, pool);
        },
        HirStmtKind::Block { stmts } => {
            visit_stmts(stmts, pool);
        },
        HirStmtKind::If { cond, then_body, elifs, else_body } => {
            visit_expr(cond, pool);
            let ghost p1 = pool@;
            visit_stmts(then_body, pool);
            let ghost p2 = pool@;
            visit_elifs(elifs, pool);
            let ghost p3 = pool@;
            proof {
                lemma_extends_trans(p2, p1, p0, expr_strings(*cond), stmts_strings(then_body@));
                lemma_extends_trans(
                    p3,
                    p2,
                    p0,
                    expr_strings(*cond).union(stmts_strings(then_body@)),
                    elifs_strings(elifs@),
                );
            }
            if let Some(b) = else_body {
                visit_stmts(b, pool);
                proof {
                    lemma_extends_trans(
                        pool@,
                        p3,
                        p0,
                        expr_strings(*cond).union(stmts_strings(then_body@)).union(
                            elifs_strings(elifs@),
                        ),
                        stmts_strings(b@),
                    );
                }
            } else {
                proof {
                    lemma_extends_trans(
                        pool@,
                        p3,
                        p0,
                        expr_strings(*cond).union(stmts_strings(then_body@)).union(
                            elifs_strings(elifs@),
                        ),
                        Set::empty(),
                    );
                }
            }
        },
        HirStmtKind::While { cond, body, .. } => {
            visit_expr(cond, pool);
            let ghost p1 = pool@;
            visit_stmts(body, pool);
            proof {
                lemma_extends_trans(pool@, p1, p0, expr_strings(*cond), stmts_strings(body@));
            }
        },
        HirStmtKind::Repeat { body, cond, .. } => {
            visit_stmts(body, pool);
            let ghost p1 = pool@;
            visit_expr(cond, pool);
            proof {
                lemma_extends_trans(pool@, p1, p0, stmts_strings(body@), expr_strings(*cond));
            }
        },
        HirStmtKind::ForNumeric { start, stop, step, body, .. } => {
            visit_expr(start, pool);
            let ghost p1 = pool@;
            visit_expr(stop, pool);
            let ghost p2 = pool@;
            visit_expr(step, pool);
            let ghost p3 = pool@;
            visit_stmts(body, pool);
            proof {
                lemma_extends_trans(p2, p1, p0, expr_strings(*start), expr_strings(*stop));
                lemma_extends_trans(
                    p3,
                    p2,
                    p0,
                    expr_strings(*start).union(expr_strings(*stop)),
                    expr_strings(*step),
                );
                lemma_extends_trans(
                    pool@,
                    p3,
                    p0,
                    expr_strings(*start).union(expr_strings(*stop)).union(expr_strings(*step)),
                    stmts_strings(body@),
                );
            }
        },
        HirStmtKind::ExprStmt(e) => {
            visit_expr(e, pool);
        },
        HirStmtKind::MultiAssignFromCall { args, .. } => {
            visit_exprs(args, pool);
        },
        HirStmtKind::IndexAssign { target, key, value } => {
            visit_expr(target, pool);
            let ghost p1 = pool@;
            visit_expr(key, pool);
            let ghost p2 = pool@;
            visit_expr(value, pool);
            proof {
                lemma_extends_trans(p2, p1, p0, expr_strings(*target), expr_strings(*key));
                lemma_extends_trans(
                    pool@,
                    p2,
                    p0,
                    expr_strings(*target).union(expr_strings(*key)),
                    expr_strings(*value),
                );
            }
        },
    }
}

/// Add the string literals of a statement list to the pool.
fn visit_stmts(ss: &Vec<HirStmt>, pool: &mut Vec<String>)
    requires
        pool_sorted(old(pool)@),
    ensures
        pool_sorted(final(pool)@),
        pool_extends(final(pool)@, old(pool)@, stmts_strings(ss@)),
    decreases ss,
{
    let ghost p0 = pool@;
    let n = ss.len();
    let mut i: usize = 0;
    proof {
        assert(ss@.take(0) =~= Seq::<HirStmt>::empty());
        lemma_extends_refl(pool@);
    }
    while i < n
        invariant
            n == ss@.len(),
            i <= n,
            pool_sorted(pool@),
            pool_extends(pool@, p0, stmts_strings(ss@.take(i as int))),
        decreases n - i,
    {
        let ghost p1 = pool@;
        visit_stmt(&ss[i], pool);
        proof {
            lemma_extends_trans(pool@, p1, p0, stmts_strings(ss@.take(i as int)), stmt_strings(ss@[i as int]));
            assert(ss@.take(i + 1).drop_last() =~= ss@.take(i as int));
            assert(ss@.take(i + 1).last() == ss@[i as int]);
        }
        i = i + 1;
    }
    proof {
        assert(ss@.take(n as int) =~= ss@);
    }
}

/// Add the string literals of a list of `elseif` arms to the pool.
fn visit_elifs(arms: &Vec<(HirExpr, Vec<HirStmt>)>, pool: &mut Vec<String>)
    requires
        pool_sorted(old(pool)@),
    ensures
        pool_sorted(final(pool)@),
        pool_extends(final(pool)@, old(pool)@, elifs_strings(arms@)),
    decreases arms,
{
    let ghost p0 = pool@;
    let n = arms.len();
    let mut i: usize = 0;
    proof {
        assert(arms@.take(0) =~= Seq::<(HirExpr, Vec<HirStmt>)>::empty());
        lemma_extends_refl(pool@);
    }
    while i < n
        invariant
            n == arms@.len(),
            i <= n,
            pool_sorted(pool@),
            pool_extends(pool@, p0, elifs_strings(arms@.take(i as int))),
        decreases n - i,
    {
        let ghost p1 = pool@;
        let arm = &arms[i];
        visit_expr(&arm.0, pool);
        let ghost p2 = pool@;
        visit_stmts(&arm.1, pool);
        proof {
            lemma_extends_trans(p2, p1, p0, elifs_strings(arms@.take(i as int)), expr_strings(arm.0));
            lemma_extends_trans(
                pool@,
                p2,
                p0,
                elifs_strings(arms@.take(i as int)).union(expr_strings(arm.0)),
                stmts_strings(arm.1@),
            );
            assert(arms@.take(i + 1).drop_last() =~= arms@.take(i as int));
            assert(arms@.take(i + 1).last() == arms@[i as int]);
        }
        i = i + 1;
    }
    proof {
        assert(arms@.take(n as int) =~= arms@);
    }
}

/// Global symbol name of the `i`-th pool entry: `lstr_<i>`.
pub open spec fn pool_name(i: nat) -> Seq<char> {
    seq!['l', 's', 't', 'r', '_'] + crate::diag::decimal(i)
}

/// Walk the chunk, collect every string literal, deduplicate, order
/// by UTF-8 bytes, and pair each with its global symbol name
/// `lstr_<rank>`.
pub fn collect_string_pool(chunk: &HirChunk) -> (r: Vec<(String, String)>)
    ensures
        forall|x: Seq<char>|
            (exists|i: int| 0 <= i < r@.len() && #[trigger] r@[i].0@ == x) <==> chunk_strings(
                *chunk,
            ).contains(x),
        forall|i: int, j: int|
            0 <= i < j < r@.len() ==> str_lt(#[trigger] r@[i].0@, #[trigger] r@[j].0@),
        forall|i: int| 0 <= i < r@.len() ==> #[trigger] r@[i].1@ == pool_name(i as nat),
        forall|x: Seq<char>|
            (exists|i: int| 0 <= i < r@.len() && #[trigger] r@[i].0@ == x) <==> literal_in_chunk(x, *chunk),
{
    let mut pool: Vec<String> = Vec::new();
    visit_stmts(&chunk.stmts, &mut pool);
    let ghost p_main = pool@;
    let fs = &chunk.functions;
    let nf = fs.len();
    let mut f: usize = 0;
    proof {
        assert(fs@.take(0) =~= Seq::<HirFunction>::empty());
        assert(pool_extends(pool@, Seq::<String>::empty(), stmts_strings(chunk.stmts@).union(
            functions_strings(fs@.take(0)),
        ))) by {
            assert(stmts_strings(chunk.stmts@).union(functions_strings(fs@.take(0))) =~= stmts_strings(
                chunk.stmts@,
            ));
        }
    }
    while f < nf
        invariant
            nf == fs@.len(),
            f <= nf,
            pool_sorted(pool@),
            pool_extends(
                pool@,
                Seq::<String>::empty(),
                stmts_strings(chunk.stmts@).union(functions_strings(fs@.take(f as int))),
            ),
        decreases nf - f,
    {
        let ghost p1 = pool@;
        visit_stmts(&fs[f].body, &mut pool);
        proof {
            lemma_extends_trans(
                pool@,
                p1,
                Seq::<String>::empty(),
                stmts_strings(chunk.stmts@).union(functions_strings(fs@.take(f as int))),
                stmts_strings(fs@[f as int].body@),
            );
            assert(fs@.take(f + 1).drop_last() =~= fs@.take(f as int));
            assert(fs@.take(f + 1).last() == fs@[f as int]);
            assert(stmts_strings(chunk.stmts@).union(functions_strings(fs@.take(f as int))).union(
                stmts_strings(fs@[f as int].body@),
            ) =~= stmts_strings(chunk.stmts@).union(functions_strings(fs@.take(f + 1))));
        }
        f = f + 1;
    }
    proof {
        assert(fs@.take(nf as int) =~= fs@);
    }
    let n = pool.len();
    let mut out: Vec<(String, String)> = Vec::new();
    let mut i: usize = 0;
    while i < n
        invariant
            n == pool@.len(),
            i <= n,
            out@.len() == i,
            forall|k: int| 0 <= k < i ==> #[trigger] out@[k].0@ == pool@[k]@,
            forall|k: int| 0 <= k < i ==> #[trigger] out@[k].1@ == pool_name(k as nat),
        decreases n - i,
    {
        let mut name = String::new();
        proof {
            reveal_strlit("lstr_");
        }
        name.append("lstr_");
        crate::diag::append_decimal(&mut name, i);
        let payload = pool[i].clone();
        out.push((payload, name));
        assert(out@[i as int].1@ =~= pool_name(i as nat));
        i = i + 1;
    }
    proof {
        assert forall|x: Seq<char>|
            (exists|i: int| 0 <= i < out@.len() && #[trigger] out@[i].0@ == x) <==> chunk_strings(
                *chunk,
            ).contains(x) by {
            assert(in_pool(pool@, x) <==> chunk_strings(*chunk).contains(x));
            if in_pool(pool@, x) {
                let k = choose|k: int| 0 <= k < pool@.len() && #[trigger] pool@[k]@ == x;
                assert(out@[k].0@ == x);
            }
            if exists|i: int| 0 <= i < out@.len() && #[trigger] out@[i].0@ == x {
                let k = choose|k: int| 0 <= k < out@.len() && #[trigger] out@[k].0@ == x;
                assert(pool@[k]@ == x);
            }
        }
        assert forall|x: Seq<char>|
            (exists|i: int| 0 <= i < out@.len() && #[trigger] out@[i].0@ == x) <==> literal_in_chunk(
                x,
                *chunk,
            ) by {
            lemma_chunk_literals(x, *chunk);
        }
        assert forall|a: int, b: int| 0 <= a < b < out@.len() implies str_lt(
            #[trigger] out@[a].0@,
            #[trigger] out@[b].0@,
        ) by {
            assert(out@[a].0@ == pool@[a]@);
            assert(out@[b].0@ == pool@[b]@);
        }
    }
    out
}

/// Strictly increasing in the pool's byte order.
pub open spec fn strictly_sorted(a: Seq<Seq<char>>) -> bool {
    forall|i: int, j: int| 0 <= i < j < a.len() ==> str_lt(#[trigger] a[i], #[trigger] a[j])
}

/// Law: the pool is determined by the set of literals alone, whatever
/// order they appear in: two strictly sorted lists of the same strings
/// are the same list (and so give every literal the same name).
pub proof fn law_pool_determined_by_literals(a: Seq<Seq<char>>, b: Seq<Seq<char>>)
    requires
        strictly_sorted(a),
        strictly_sorted(b),
        forall|x: Seq<char>| a.contains(x) <==> b.contains(x),
    ensures
        a == b,
    decreases a.len() + b.len(),
{
    if a.len() == 0 {
        if b.len() > 0 {
            assert(b.contains(b[0]));
        }
        assert(a =~= b);
    } else if b.len() == 0 {
        assert(a.contains(a[0]));
    } else {
        assert(a.contains(a[0]));
        let j = choose|j: int| 0 <= j < b.len() && b[j] == a[0];
        assert(b.contains(b[0]));
        let k = choose|k: int| 0 <= k < a.len() && a[k] == b[0];
        if j > 0 {
            assert(str_lt(b[0], b[j]));
            if k > 0 {
                assert(str_lt(a[0], a[k]));
                lemma_str_lt_transitive(b[0], a[0], b[0]);
            }
            lemma_str_lt_irreflexive(b[0]);
        }
        let a1 = a.drop_first();
        let b1 = b.drop_first();
        assert forall|x: Seq<char>| a1.contains(x) <==> b1.contains(x) by {
            if a1.contains(x) {
                let i = choose|i: int| 0 <= i < a1.len() && a1[i] == x;
                assert(str_lt(a[0], a[i + 1]));
                assert(b.contains(x));
                let m = choose|m: int| 0 <= m < b.len() && b[m] == x;
                if m == 0 {
                    lemma_str_lt_irreflexive(x);
                }
                assert(b1[m - 1] == x);
            }
            if b1.contains(x) {
                let i = choose|i: int| 0 <= i < b1.len() && b1[i] == x;
                assert(str_lt(b[0], b[i + 1]));
                assert(a.contains(x));
                let m = choose|m: int| 0 <= m < a.len() && a[m] == x;
                if m == 0 {
                    lemma_str_lt_irreflexive(x);
                }
                assert(a1[m - 1] == x);
            }
        }
        assert forall|i: int, j2: int| 0 <= i < j2 < a1.len() implies str_lt(
            #[trigger] a1[i],
            #[trigger] a1[j2],
        ) by {
            assert(str_lt(a[i + 1], a[j2 + 1]));
        }
        assert forall|i: int, j2: int| 0 <= i < j2 < b1.len() implies str_lt(
            #[trigger] b1[i],
            #[trigger] b1[j2],
        ) by {
            assert(str_lt(b[i + 1], b[j2 + 1]));
        }
        law_pool_determined_by_literals(a1, b1);
        assert(a =~= seq![a[0]] + a1);
        assert(b =~= seq![b[0]] + b1);
    }
}

} // verus!
