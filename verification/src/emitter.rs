//! Lowering of the HIR to MLIR operations for the scalar core of the
//! language: numbers, booleans and nil in local slots, arithmetic,
//! bitwise and comparison operators, `not`, `and` / `or` with
//! short-circuit evaluation, `print`, and the structured statements
//! (`if` / `elseif` / `else`, `while`, `repeat`, numeric `for`). A
//! construct outside that core is answered with
//! `CodegenError::UnsupportedExpr`.
//!
//! Each construct's operations are given by a spec function of the
//! construct and the first free SSA number; the emitting functions
//! append exactly those operations.

use vstd::prelude::*;

use crate::callabi::{MlirType, ValueKind};
use crate::emit::{
    cmpf_predicate,
    is_comparison,
    kind_to_mlir_type,
    print_plan,
    spec_kind_to_mlir_type,
    truthiness,
    CmpfPredicate,
    PrintPlan,
    Truthiness,
};
use crate::error::CodegenError;
use crate::hir::{
    BinOp,
    Builtin,
    Callee,
    HirChunk,
    HirExpr,
    HirExprKind,
    HirStmt,
    HirStmtKind,
    LocalId,
    LocalInfo,
    UnaryOp,
};
use crate::mlir::{ArithOp, LibmFn, MlirModule, Op};

verus! {

/// Kinds of the scalar core: they live in plain `f64` / `i1` slots.
pub open spec fn simple_kind(k: ValueKind) -> bool {
    k is Number || k is Bool || k is Nil
}

/// An emitted SSA value with its static kind.
#[derive(Clone, Copy, Debug, PartialEq, Eq, Structural)]
pub struct ValRef {
    pub id: usize,
    pub kind: ValueKind,
}

/// Operations emitted so far and the next free SSA number.
#[derive(Debug)]
pub struct EmitCx {
    pub ops: Vec<Op>,
    pub next: usize,
}

/// Operations that turn value `v` of kind `k` into its `i1` truth
/// value: `(ops, truth value, next free number)`. A Bool is its own
/// truth value; Nil is constantly false and a Number constantly true.
pub open spec fn spec_truth(v: nat, k: ValueKind, n: nat) -> (Seq<Op>, nat, nat) {
    match k {
        ValueKind::Bool => (Seq::empty(), v, n),
        ValueKind::Nil => (seq![Op::ConstI1 { result: n as usize, flag: false }], n, n + 1),
        _ => (seq![Op::ConstI1 { result: n as usize, flag: true }], n, n + 1),
    }
}

/// An SSA number as stored in an operation.
pub open spec fn sv(n: nat) -> usize {
    n as usize
}

/// A stored SSA number as a number.
pub open spec fn un(x: usize) -> nat {
    x as nat
}

/// The ordered predicate of a comparison operator.
pub open spec fn spec_cmpf(op: BinOp) -> CmpfPredicate {
    match op {
        BinOp::Lt => CmpfPredicate::Olt,
        BinOp::Le => CmpfPredicate::Ole,
        BinOp::Gt => CmpfPredicate::Ogt,
        BinOp::Ge => CmpfPredicate::Oge,
        BinOp::Eq => CmpfPredicate::Oeq,
        _ => CmpfPredicate::One,
    }
}

/// The integer operation of a bitwise operator.
pub open spec fn spec_bit_op(op: BinOp) -> ArithOp {
    match op {
        BinOp::BitAnd => ArithOp::Andi,
        BinOp::BitOr => ArithOp::Ori,
        BinOp::BitXor => ArithOp::Xori,
        BinOp::Shl => ArithOp::Shli,
        _ => ArithOp::Shrsi,
    }
}

/// Operations of a binary operator on two `f64` values `l` and `r`:
/// `(ops, result, next free number)`. `%` is `l - floor(l / r) * r`,
/// `//` is `floor(l / r)`, `^` calls `pow`, the bitwise operators work
/// on the truncated `i64`s, comparisons are ordered `arith.cmpf`.
/// `None` for `..`, `and`, `or`.
pub open spec fn spec_arith(op: BinOp, l: nat, r: nat, n: nat) -> Option<(Seq<Op>, nat, nat)> {
    let (lu, ru, nu) = (sv(l), sv(r), sv(n));
    match op {
        BinOp::Add => Some((seq![Op::Binary { result: nu, op: ArithOp::Addf, lhs: lu, rhs: ru }], n, n + 1)),
        BinOp::Sub => Some((seq![Op::Binary { result: nu, op: ArithOp::Subf, lhs: lu, rhs: ru }], n, n + 1)),
        BinOp::Mul => Some((seq![Op::Binary { result: nu, op: ArithOp::Mulf, lhs: lu, rhs: ru }], n, n + 1)),
        BinOp::Div => Some((seq![Op::Binary { result: nu, op: ArithOp::Divf, lhs: lu, rhs: ru }], n, n + 1)),
        BinOp::Mod => Some((
            seq![
                Op::Binary { result: nu, op: ArithOp::Divf, lhs: lu, rhs: ru },
                Op::Call1 { result: sv(n + 1), func: LibmFn::Floor, operand: nu },
                Op::Binary { result: sv(n + 2), op: ArithOp::Mulf, lhs: sv(n + 1), rhs: ru },
                Op::Binary { result: sv(n + 3), op: ArithOp::Subf, lhs: lu, rhs: sv(n + 2) },
            ],
            n + 3,
            n + 4,
        )),
        BinOp::Pow => Some((seq![Op::Call2 { result: nu, func: LibmFn::Pow, lhs: lu, rhs: ru }], n, n + 1)),
        BinOp::FloorDiv => Some((
            seq![
                Op::Binary { result: nu, op: ArithOp::Divf, lhs: lu, rhs: ru },
                Op::Call1 { result: sv(n + 1), func: LibmFn::Floor, operand: nu },
            ],
            n + 1,
            n + 2,
        )),
        BinOp::BitAnd | BinOp::BitOr | BinOp::BitXor | BinOp::Shl | BinOp::Shr => Some((
            seq![
                Op::FpToSi { result: nu, operand: lu },
                Op::FpToSi { result: sv(n + 1), operand: ru },
                Op::Binary { result: sv(n + 2), op: spec_bit_op(op), lhs: nu, rhs: sv(n + 1) },
                Op::SiToFp { result: sv(n + 3), operand: sv(n + 2) },
            ],
            n + 3,
            n + 4,
        )),
        BinOp::Lt | BinOp::Le | BinOp::Gt | BinOp::Ge | BinOp::Eq | BinOp::Ne => Some(
            (seq![Op::Cmpf { result: nu, pred: spec_cmpf(op), lhs: lu, rhs: ru }], n, n + 1),
        ),
        _ => None,
    }
}

/// The print operation for a value of a simple kind.
pub open spec fn spec_print_value(v: nat, k: ValueKind) -> Op {
    match k {
        ValueKind::Number => Op::PrintNumber { value: v as usize },
        ValueKind::Bool => Op::PrintBool { value: v as usize },
        _ => Op::PrintNil,
    }
}

/// `a and b` / `a or b` once `a` is emitted as `lv` of kind `lk` with
/// truth value `t`, the result numbered `res` and `b`'s operations
/// `rops` giving `rv`: an `scf.if` on `t` whose then-region evaluates
/// `b` for `and` and yields `a` for `or`, and the reverse in its
/// else-region.
pub open spec fn spec_short_circuit(
    is_and: bool,
    res: nat,
    t: nat,
    lv: nat,
    lk: ValueKind,
    rops: Seq<Op>,
    rv: nat,
) -> Seq<Op> {
    let open = seq![Op::IfValue { result: res as usize, cond: t as usize, ty: spec_kind_to_mlir_type(lk) }];
    if is_and {
        open + rops + seq![
            Op::YieldValue { value: rv as usize },
            Op::Else,
            Op::YieldValue { value: lv as usize },
            Op::EndIf,
        ]
    } else {
        open + seq![Op::YieldValue { value: lv as usize }, Op::Else] + rops + seq![
            Op::YieldValue { value: rv as usize },
            Op::EndIf,
        ]
    }
}

/// Operations of an expression whose SSA numbers start at `n`:
/// `(ops, value, kind, next free number)`, or `None` when the
/// expression is outside the scalar core.
pub open spec fn spec_expr(e: HirExpr, locals: Seq<LocalInfo>, n: nat) -> Option<
    (Seq<Op>, nat, ValueKind, nat),
>
    decreases e,
{
    match e.kind {
        HirExprKind::Number(bits) => Some(
            (seq![Op::ConstF64 { result: n as usize, bits }], n, ValueKind::Number, n + 1),
        ),
        HirExprKind::Bool(b) => Some(
            (seq![Op::ConstI1 { result: n as usize, flag: b }], n, ValueKind::Bool, n + 1),
        ),
        HirExprKind::Nil => Some(
            (seq![Op::ConstI1 { result: n as usize, flag: false }], n, ValueKind::Nil, n + 1),
        ),
        HirExprKind::Local(id) => {
            if id.0 < locals.len() && simple_kind(locals[id.0 as int].kind)
                && !locals[id.0 as int].is_captured {
                let k = locals[id.0 as int].kind;
                Some(
                    (
                        seq![Op::Load { result: n as usize, slot: id.0, ty: spec_kind_to_mlir_type(k) }],
                        n,
                        k,
                        n + 1,
                    ),
                )
            } else {
                None
            }
        },
        HirExprKind::BinOp { op, lhs, rhs } => {
            if op is And || op is Or {
                match spec_expr(*lhs, locals, n) {
                    Some((lops, lv, lk, n1)) => {
                        let (tops, t, n2) = spec_truth(lv, lk, n1);
                        match spec_expr(*rhs, locals, n2 + 1) {
                            Some((rops, rv, rk, n3)) => {
                                if rk == lk {
                                    Some(
                                        (
                                            lops + tops + spec_short_circuit(op is And, n2, t, lv, lk, rops, rv),
                                            n2,
                                            lk,
                                            n3,
                                        ),
                                    )
                                } else {
                                    None
                                }
                            },
                            None => None,
                        }
                    },
                    None => None,
                }
            } else {
                match spec_expr(*lhs, locals, n) {
                    Some((lops, lv, lk, n1)) => match spec_expr(*rhs, locals, n1) {
                        Some((rops, rv, rk, n2)) => {
                            if lk is Number && rk is Number {
                                match spec_arith(op, lv, rv, n2) {
                                    Some((aops, a, n3)) => Some(
                                        (
                                            lops + rops + aops,
                                            a,
                                            if is_comparison(op) {
                                                ValueKind::Bool
                                            } else {
                                                ValueKind::Number
                                            },
                                            n3,
                                        ),
                                    ),
                                    None => None,
                                }
                            } else {
                                None
                            }
                        },
                        None => None,
                    },
                    None => None,
                }
            }
        },
        HirExprKind::UnaryOp { op, operand } => match spec_expr(*operand, locals, n) {
            Some((ops, v, k, n1)) => match op {
                UnaryOp::Not => {
                    let (tops, t, n2) = spec_truth(v, k, n1);
                    Some(
                        (
                            ops + tops + seq![
                                Op::ConstI1 { result: n2 as usize, flag: true },
                                Op::Binary {
                                    result: (n2 + 1) as usize,
                                    op: ArithOp::Xori,
                                    lhs: t as usize,
                                    rhs: n2 as usize,
                                },
                            ],
                            n2 + 1,
                            ValueKind::Bool,
                            n2 + 2,
                        ),
                    )
                },
                UnaryOp::Neg => {
                    if k is Number {
                        Some(
                            (
                                ops + seq![Op::Negf { result: n1 as usize, operand: v as usize }],
                                n1,
                                ValueKind::Number,
                                n1 + 1,
                            ),
                        )
                    } else {
                        None
                    }
                },
                UnaryOp::BitNot => {
                    if k is Number {
                        Some(
                            (
                                ops + seq![
                                    Op::FpToSi { result: n1 as usize, operand: v as usize },
                                    Op::ConstI64 { result: (n1 + 1) as usize, imm: -1i64 },
                                    Op::Binary {
                                        result: (n1 + 2) as usize,
                                        op: ArithOp::Xori,
                                        lhs: n1 as usize,
                                        rhs: (n1 + 1) as usize,
                                    },
                                    Op::SiToFp { result: (n1 + 3) as usize, operand: (n1 + 2) as usize },
                                ],
                                n1 + 3,
                                ValueKind::Number,
                                n1 + 4,
                            ),
                        )
                    } else {
                        None
                    }
                },
                UnaryOp::Len => None,
            },
            None => None,
        },
        HirExprKind::Call { callee, args } => {
            if callee == Callee::Builtin(Builtin::Print) {
                match spec_print_args(args@, locals, n) {
                    Some((pops, n1)) => Some(
                        (
                            pops + seq![Op::PrintNewline, Op::ConstF64 { result: n1 as usize, bits: 0 }],
                            n1,
                            ValueKind::Number,
                            n1 + 1,
                        ),
                    ),
                    None => None,
                }
            } else {
                None
            }
        },
        _ => None,
    }
}

/// Operations printing the arguments of `print`, a tab between two
/// values: `(ops, next free number)`.
pub open spec fn spec_print_args(args: Seq<HirExpr>, locals: Seq<LocalInfo>, n: nat) -> Option<
    (Seq<Op>, nat),
>
    decreases args,
{
    if args.len() == 0 {
        Some((Seq::empty(), n))
    } else {
        match spec_print_args(args.drop_last(), locals, n) {
            Some((pops, n1)) => match spec_expr(args.last(), locals, n1) {
                Some((eops, v, k, n2)) => {
                    let sep = if args.len() > 1 {
                        seq![Op::PrintTab]
                    } else {
                        Seq::empty()
                    };
                    Some((pops + sep + eops + seq![spec_print_value(v, k)], n2))
                },
                None => None,
            },
            None => None,
        }
    }
}

/// The expression is in the scalar core and its numbering fits in `usize`.
pub open spec fn expr_fits(e: HirExpr, locals: Seq<LocalInfo>, n: nat) -> bool {
    spec_expr(e, locals, n) is Some && (spec_expr(e, locals, n)->0).3 <= usize::MAX
}

pub open spec fn print_args_fit(args: Seq<HirExpr>, locals: Seq<LocalInfo>, n: nat) -> bool {
    spec_print_args(args, locals, n) is Some && (spec_print_args(args, locals, n)->0).1 <= usize::MAX
}

/// Emitting an expression only moves the numbering forward, and every
/// value it yields has a simple kind and was numbered on the way.
#[verifier::rlimit(100)]
#[verifier::spinoff_prover]
pub proof fn lemma_expr_mono(e: HirExpr, locals: Seq<LocalInfo>, n: nat)
    ensures
        spec_expr(e, locals, n) is Some ==> {
            let t = spec_expr(e, locals, n)->0;
            &&& n <= t.1 < t.3
            &&& simple_kind(t.2)
        },
    decreases e,
{
    match e.kind {
        HirExprKind::BinOp { op, lhs, rhs } => {
            lemma_expr_mono(*lhs, locals, n);
            if let Some((lops, lv, lk, n1)) = spec_expr(*lhs, locals, n) {
                let (tops, t, n2) = spec_truth(lv, lk, n1);
                lemma_expr_mono(*rhs, locals, n2 + 1);
                lemma_expr_mono(*rhs, locals, n1);
            }
        },
        HirExprKind::UnaryOp { op, operand } => {
            lemma_expr_mono(*operand, locals, n);
        },
        HirExprKind::Call { callee, args } => {
            lemma_print_args_mono(args@, locals, n);
        },
        _ => {},
    }
}

pub proof fn lemma_print_args_mono(args: Seq<HirExpr>, locals: Seq<LocalInfo>, n: nat)
    ensures
        spec_print_args(args, locals, n) is Some ==> n <= (spec_print_args(args, locals, n)->0).1,
    decreases args,
{
    if args.len() > 0 {
        lemma_print_args_mono(args.drop_last(), locals, n);
        if let Some((pops, n1)) = spec_print_args(args.drop_last(), locals, n) {
            lemma_expr_mono(args.last(), locals, n1);
        }
    }
}

/// Whether `e` calls `next`: a call whose multiple results are only
/// taken by `local k, v = next(t, c)`.
pub open spec fn is_next_call(e: HirExpr) -> bool {
    e.kind matches HirExprKind::Call { callee: Callee::Builtin(Builtin::Next), .. }
}

/// The message refusing `next` in single-value position.
pub open spec fn next_single_value_msg() -> Seq<char> {
    NEXT_SINGLE_VALUE_MSG@
}

pub const NEXT_SINGLE_VALUE_MSG: &'static str =
    "next(t, k) in single-value position is not supported (ADR 0081); use `local k, v = next(t, c)`";

/// The error for `next` in single-value position.
fn next_single_value() -> (r: CodegenError)
    ensures
        r is UnsupportedExpr,
        r->UnsupportedExpr_0@ == next_single_value_msg(),
{
    CodegenError::UnsupportedExpr(String::from_str(NEXT_SINGLE_VALUE_MSG))
}

/// The error for constructs outside the scalar core.
fn unsupported() -> (r: CodegenError)
    ensures
        r is UnsupportedExpr,
{
    CodegenError::UnsupportedExpr(String::from_str("construct outside the scalar core"))
}

/// Takes the next SSA number.
fn fresh(cx: &mut EmitCx) -> (r: Result<usize, CodegenError>)
    ensures
        r is Ok <==> old(cx).next < usize::MAX,
        r is Ok ==> r->Ok_0 == old(cx).next && final(cx).next == old(cx).next + 1,
        r is Err ==> r->Err_0 is UnsupportedExpr,
        final(cx).ops@ == old(cx).ops@,
{
    if cx.next == usize::MAX {
        return Err(unsupported());
    }
    let id = cx.next;
    cx.next = cx.next + 1;
    Ok(id)
}

/// Emits the truth value of `v` (of a simple kind).
fn emit_truth(cx: &mut EmitCx, v: ValRef) -> (r: Result<usize, CodegenError>)
    requires
        simple_kind(v.kind),
    ensures
        ({
            let (tops, t, n2) = spec_truth(v.id as nat, v.kind, old(cx).next as nat);
            &&& r is Ok <==> n2 <= usize::MAX
            &&& r is Ok ==> r->Ok_0 == t && final(cx).ops@ == old(cx).ops@ + tops && final(cx).next == n2
            &&& r is Err ==> r->Err_0 is UnsupportedExpr
        }),
{
    match truthiness(v.kind) {
        Truthiness::OfValue => {
            proof {
                assert(old(cx).ops@ + Seq::<Op>::empty() =~= old(cx).ops@);
            }
            Ok(v.id)
        },
        Truthiness::Constant(b) => {
            let id = fresh(cx)?;
            cx.ops.push(Op::ConstI1 { result: id, flag: b });
            Ok(id)
        },
    }
}

/// Emits the operations of a binary operator on two `f64` values.
fn emit_arith(cx: &mut EmitCx, op: BinOp, l: usize, r: usize) -> (res: Result<usize, CodegenError>)
    requires
        spec_arith(op, un(l), un(r), un(old(cx).next)) is Some,
    ensures
        ({
            let (aops, a, n3) = spec_arith(op, un(l), un(r), un(old(cx).next))->0;
            &&& res is Ok <==> n3 <= usize::MAX
            &&& res is Ok ==> res->Ok_0 == a && final(cx).ops@ == old(cx).ops@ + aops && final(cx).next == n3
            &&& res is Err ==> res->Err_0 is UnsupportedExpr
        }),
{
    let ghost o = old(cx).ops@;
    match op {
        BinOp::Add | BinOp::Sub | BinOp::Mul | BinOp::Div => {
            let id = fresh(cx)?;
            let aop = match op {
                BinOp::Add => ArithOp::Addf,
                BinOp::Sub => ArithOp::Subf,
                BinOp::Mul => ArithOp::Mulf,
                _ => ArithOp::Divf,
            };
            cx.ops.push(Op::Binary { result: id, op: aop, lhs: l, rhs: r });
            Ok(id)
        },
        BinOp::Pow => {
            let id = fresh(cx)?;
            cx.ops.push(Op::Call2 { result: id, func: LibmFn::Pow, lhs: l, rhs: r });
            Ok(id)
        },
        BinOp::Mod => {
            let d = fresh(cx)?;
            let f = fresh(cx)?;
            let m = fresh(cx)?;
            let s = fresh(cx)?;
            cx.ops.push(Op::Binary { result: d, op: ArithOp::Divf, lhs: l, rhs: r });
            cx.ops.push(Op::Call1 { result: f, func: LibmFn::Floor, operand: d });
            cx.ops.push(Op::Binary { result: m, op: ArithOp::Mulf, lhs: f, rhs: r });
            cx.ops.push(Op::Binary { result: s, op: ArithOp::Subf, lhs: l, rhs: m });
            proof {
                assert(cx.ops@ =~= o + (spec_arith(op, un(l), un(r), un(old(cx).next))->0).0);
            }
            Ok(s)
        },
        BinOp::FloorDiv => {
            let d = fresh(cx)?;
            let f = fresh(cx)?;
            cx.ops.push(Op::Binary { result: d, op: ArithOp::Divf, lhs: l, rhs: r });
            cx.ops.push(Op::Call1 { result: f, func: LibmFn::Floor, operand: d });
            proof {
                assert(cx.ops@ =~= o + (spec_arith(op, un(l), un(r), un(old(cx).next))->0).0);
            }
            Ok(f)
        },
        BinOp::BitAnd | BinOp::BitOr | BinOp::BitXor | BinOp::Shl | BinOp::Shr => {
            let li = fresh(cx)?;
            let ri = fresh(cx)?;
            let b = fresh(cx)?;
            let back = fresh(cx)?;
            let iop = match op {
                BinOp::BitAnd => ArithOp::Andi,
                BinOp::BitOr => ArithOp::Ori,
                BinOp::BitXor => ArithOp::Xori,
                BinOp::Shl => ArithOp::Shli,
                _ => ArithOp::Shrsi,
            };
            cx.ops.push(Op::FpToSi { result: li, operand: l });
            cx.ops.push(Op::FpToSi { result: ri, operand: r });
            cx.ops.push(Op::Binary { result: b, op: iop, lhs: li, rhs: ri });
            cx.ops.push(Op::SiToFp { result: back, operand: b });
            proof {
                assert(cx.ops@ =~= o + (spec_arith(op, un(l), un(r), un(old(cx).next))->0).0);
            }
            Ok(back)
        },
        _ => {
            let id = fresh(cx)?;
            let pred = cmpf_predicate(op);
            cx.ops.push(Op::Cmpf { result: id, pred, lhs: l, rhs: r });
            Ok(id)
        },
    }
}

/// `r` and the operations between `before` and `after`, ending at
/// SSA number `next`, are what `spec_expr` gives for `e` from `n`; an
/// error exactly when `e` is outside the scalar core or its numbering
/// overflows.
pub open spec fn emitted_expr(
    e: HirExpr,
    locals: Seq<LocalInfo>,
    n: nat,
    before: Seq<Op>,
    r: Result<ValRef, CodegenError>,
    after: Seq<Op>,
    next: usize,
) -> bool {
    &&& r is Ok <==> expr_fits(e, locals, n)
    &&& r is Ok ==> ({
        let t = spec_expr(e, locals, n)->0;
        &&& after == before + t.0
        &&& r->Ok_0.id == t.1
        &&& r->Ok_0.kind == t.2
        &&& next == t.3
        &&& simple_kind(t.2)
    })
    &&& r is Err ==> r->Err_0 is UnsupportedExpr
    &&& is_next_call(e) ==> r is Err && r->Err_0->UnsupportedExpr_0@ == next_single_value_msg()
}

/// Emits the operations of an expression of the scalar core.
pub fn emit_expr(cx: &mut EmitCx, e: &HirExpr, locals: &[LocalInfo]) -> (r: Result<
    ValRef,
    CodegenError,
>)
    ensures
        emitted_expr(*e, locals@, un(old(cx).next), old(cx).ops@, r, final(cx).ops@, final(cx).next),
    decreases e, 2nat,
{
    let ghost n = un(old(cx).next);
    let ghost o = old(cx).ops@;
    proof {
        lemma_expr_mono(*e, locals@, n);
    }
    match &e.kind {
        HirExprKind::Number(bits) => {
            let id = fresh(cx)?;
            cx.ops.push(Op::ConstF64 { result: id, bits: *bits });
            proof {
                assert(cx.ops@ =~= o + (spec_expr(*e, locals@, n)->0).0);
            }
            Ok(ValRef { id, kind: ValueKind::Number })
        },
        HirExprKind::Bool(b) => {
            let id = fresh(cx)?;
            cx.ops.push(Op::ConstI1 { result: id, flag: *b });
            proof {
                assert(cx.ops@ =~= o + (spec_expr(*e, locals@, n)->0).0);
            }
            Ok(ValRef { id, kind: ValueKind::Bool })
        },
        HirExprKind::Nil => {
            let id = fresh(cx)?;
            cx.ops.push(Op::ConstI1 { result: id, flag: false });
            proof {
                assert(cx.ops@ =~= o + (spec_expr(*e, locals@, n)->0).0);
            }
            Ok(ValRef { id, kind: ValueKind::Nil })
        },
        HirExprKind::Local(lid) => {
            let idx = lid.0;
            if idx >= locals.len() {
                return Err(unsupported());
            }
            let info = locals[idx];
            let simple = match info.kind {
                ValueKind::Number | ValueKind::Bool | ValueKind::Nil => true,
                _ => false,
            };
            if !simple || info.is_captured {
                return Err(unsupported());
            }
            let id = fresh(cx)?;
            cx.ops.push(Op::Load { result: id, slot: idx, ty: kind_to_mlir_type(info.kind) });
            proof {
                assert(cx.ops@ =~= o + (spec_expr(*e, locals@, n)->0).0);
            }
            Ok(ValRef { id, kind: info.kind })
        },
        HirExprKind::BinOp { op, .. } => {
            if *op == BinOp::And || *op == BinOp::Or {
                emit_logical(cx, e, locals)
            } else {
                emit_binary(cx, e, locals)
            }
        },
        HirExprKind::UnaryOp { .. } => emit_unary(cx, e, locals),
        HirExprKind::Call { .. } => emit_call(cx, e, locals),
        _ => Err(unsupported()),
    }
}

/// `a and b` / `a or b`: `b` is evaluated inside the branch of an
/// `scf.if` on the truth value of `a`.
#[verifier::rlimit(100)]
#[verifier::spinoff_prover]
fn emit_logical(cx: &mut EmitCx, e: &HirExpr, locals: &[LocalInfo]) -> (r: Result<
    ValRef,
    CodegenError,
>)
    requires
        e.kind matches HirExprKind::BinOp { op, .. } && (op is And || op is Or),
    ensures
        emitted_expr(*e, locals@, un(old(cx).next), old(cx).ops@, r, final(cx).ops@, final(cx).next),
    decreases e, 1nat,
{
    let ghost n = un(old(cx).next);
    let ghost o = old(cx).ops@;
    if let HirExprKind::BinOp { op, lhs, rhs } = &e.kind {
        let l = match emit_expr(cx, lhs, locals) {
            Ok(l) => l,
            Err(err) => {
                proof {
                    if let Some((lops, lv, lk, n1)) = spec_expr(**lhs, locals@, n) {
                        let n2 = spec_truth(lv, lk, n1).2;
                        lemma_expr_mono(**rhs, locals@, n2 + 1);
                    }
                }
                return Err(err);
            },
        };
        let ghost n1 = un(cx.next);
        let ghost n2 = spec_truth(un(l.id), l.kind, n1).2;
        proof {
            lemma_expr_mono(**rhs, locals@, n2 + 1);
        }
        let t = emit_truth(cx, l)?;
        let res = fresh(cx)?;
        let ty = kind_to_mlir_type(l.kind);
        cx.ops.push(Op::IfValue { result: res, cond: t, ty });
        if *op == BinOp::And {
            let rr = emit_expr(cx, rhs, locals)?;
            if !(rr.kind == l.kind) {
                return Err(unsupported());
            }
            cx.ops.push(Op::YieldValue { value: rr.id });
            cx.ops.push(Op::Else);
            cx.ops.push(Op::YieldValue { value: l.id });
            cx.ops.push(Op::EndIf);
            proof {
                assert(cx.ops@ =~= o + (spec_expr(*e, locals@, n)->0).0);
            }
            Ok(ValRef { id: res, kind: l.kind })
        } else {
            cx.ops.push(Op::YieldValue { value: l.id });
            cx.ops.push(Op::Else);
            let rr = emit_expr(cx, rhs, locals)?;
            if !(rr.kind == l.kind) {
                return Err(unsupported());
            }
            cx.ops.push(Op::YieldValue { value: rr.id });
            cx.ops.push(Op::EndIf);
            proof {
                assert(cx.ops@ =~= o + (spec_expr(*e, locals@, n)->0).0);
            }
            Ok(ValRef { id: res, kind: l.kind })
        }
    } else {
        Err(unsupported())
    }
}

/// Arithmetic, bitwise and comparison operators on two numbers.
fn emit_binary(cx: &mut EmitCx, e: &HirExpr, locals: &[LocalInfo]) -> (r: Result<
    ValRef,
    CodegenError,
>)
    requires
        e.kind matches HirExprKind::BinOp { op, .. } && !(op is And || op is Or),
    ensures
        emitted_expr(*e, locals@, un(old(cx).next), old(cx).ops@, r, final(cx).ops@, final(cx).next),
    decreases e, 1nat,
{
    let ghost n = un(old(cx).next);
    let ghost o = old(cx).ops@;
    if let HirExprKind::BinOp { op, lhs, rhs } = &e.kind {
        let l = match emit_expr(cx, lhs, locals) {
            Ok(l) => l,
            Err(err) => {
                proof {
                    if let Some((lops, lv, lk, n1)) = spec_expr(**lhs, locals@, n) {
                        lemma_expr_mono(**rhs, locals@, n1);
                    }
                }
                return Err(err);
            },
        };
        let rr = emit_expr(cx, rhs, locals)?;
        let is_num = match (l.kind, rr.kind) {
            (ValueKind::Number, ValueKind::Number) => true,
            _ => false,
        };
        let arith_op = match op {
            BinOp::Concat | BinOp::And | BinOp::Or => false,
            _ => true,
        };
        if !is_num || !arith_op {
            return Err(unsupported());
        }
        let a = emit_arith(cx, *op, l.id, rr.id)?;
        let kind = if is_comparison_op(*op) {
            ValueKind::Bool
        } else {
            ValueKind::Number
        };
        proof {
            assert(cx.ops@ =~= o + (spec_expr(*e, locals@, n)->0).0);
        }
        Ok(ValRef { id: a, kind })
    } else {
        Err(unsupported())
    }
}

/// `not`, unary minus and `~` on a number.
fn emit_unary(cx: &mut EmitCx, e: &HirExpr, locals: &[LocalInfo]) -> (r: Result<
    ValRef,
    CodegenError,
>)
    requires
        e.kind is UnaryOp,
    ensures
        emitted_expr(*e, locals@, un(old(cx).next), old(cx).ops@, r, final(cx).ops@, final(cx).next),
    decreases e, 1nat,
{
    let ghost n = un(old(cx).next);
    let ghost o = old(cx).ops@;
    if let HirExprKind::UnaryOp { op, operand } = &e.kind {
        let v = emit_expr(cx, operand, locals)?;
        match op {
            UnaryOp::Not => {
                let t = emit_truth(cx, v)?;
                let one = fresh(cx)?;
                let x = fresh(cx)?;
                cx.ops.push(Op::ConstI1 { result: one, flag: true });
                cx.ops.push(Op::Binary { result: x, op: ArithOp::Xori, lhs: t, rhs: one });
                proof {
                    assert(cx.ops@ =~= o + (spec_expr(*e, locals@, n)->0).0);
                }
                Ok(ValRef { id: x, kind: ValueKind::Bool })
            },
            UnaryOp::Neg => {
                if !(v.kind == ValueKind::Number) {
                    return Err(unsupported());
                }
                let id = fresh(cx)?;
                cx.ops.push(Op::Negf { result: id, operand: v.id });
                proof {
                    assert(cx.ops@ =~= o + (spec_expr(*e, locals@, n)->0).0);
                }
                Ok(ValRef { id, kind: ValueKind::Number })
            },
            UnaryOp::BitNot => {
                if !(v.kind == ValueKind::Number) {
                    return Err(unsupported());
                }
                let i = fresh(cx)?;
                let m1 = fresh(cx)?;
                let x = fresh(cx)?;
                let f = fresh(cx)?;
                cx.ops.push(Op::FpToSi { result: i, operand: v.id });
                cx.ops.push(Op::ConstI64 { result: m1, imm: -1 });
                cx.ops.push(Op::Binary { result: x, op: ArithOp::Xori, lhs: i, rhs: m1 });
                cx.ops.push(Op::SiToFp { result: f, operand: x });
                proof {
                    assert(cx.ops@ =~= o + (spec_expr(*e, locals@, n)->0).0);
                }
                Ok(ValRef { id: f, kind: ValueKind::Number })
            },
            UnaryOp::Len => Err(unsupported()),
        }
    } else {
        Err(unsupported())
    }
}

/// `print(...)`: each argument printed by its kind, a tab between two,
/// a newline at the end; the call itself is the number `0`.
fn emit_call(cx: &mut EmitCx, e: &HirExpr, locals: &[LocalInfo]) -> (r: Result<
    ValRef,
    CodegenError,
>)
    requires
        e.kind is Call,
    ensures
        emitted_expr(*e, locals@, un(old(cx).next), old(cx).ops@, r, final(cx).ops@, final(cx).next),
    decreases e, 1nat,
{
    let ghost n = un(old(cx).next);
    let ghost o = old(cx).ops@;
    if let HirExprKind::Call { callee, args } = &e.kind {
        if *callee == Callee::Builtin(Builtin::Next) {
            return Err(next_single_value());
        }
        if !(*callee == Callee::Builtin(Builtin::Print)) {
            return Err(unsupported());
        }
        emit_print_args(cx, args, locals)?;
        let z = fresh(cx)?;
        cx.ops.push(Op::PrintNewline);
        cx.ops.push(Op::ConstF64 { result: z, bits: 0 });
        proof {
            assert(cx.ops@ =~= o + (spec_expr(*e, locals@, n)->0).0);
        }
        Ok(ValRef { id: z, kind: ValueKind::Number })
    } else {
        Err(unsupported())
    }
}

/// Whether `op` is one of the six comparisons.
fn is_comparison_op(op: BinOp) -> (r: bool)
    ensures
        r == is_comparison(op),
{
    match op {
        BinOp::Lt | BinOp::Le | BinOp::Gt | BinOp::Ge | BinOp::Eq | BinOp::Ne => true,
        _ => false,
    }
}

/// Emits the printing of `print`'s arguments, a tab between two values.
fn emit_print_args(cx: &mut EmitCx, args: &Vec<HirExpr>, locals: &[LocalInfo]) -> (r: Result<
    (),
    CodegenError,
>)
    ensures
        r is Ok <==> print_args_fit(args@, locals@, old(cx).next as nat),
        r is Ok ==> ({
            let t = spec_print_args(args@, locals@, old(cx).next as nat)->0;
            &&& final(cx).ops@ == old(cx).ops@ + t.0
            &&& final(cx).next == t.1
        }),
        r is Err ==> r->Err_0 is UnsupportedExpr,
    decreases args, 0nat,
{
    let ghost n = old(cx).next as nat;
    let ghost o = old(cx).ops@;
    let len = args.len();
    let mut i: usize = 0;
    proof {
        assert(args@.take(0) =~= Seq::<HirExpr>::empty());
        assert(o + Seq::<Op>::empty() =~= o);
    }
    while i < len
        invariant
            len == args@.len(),
            n == old(cx).next as nat,
            i <= len,
            print_args_fit(args@.take(i as int), locals@, n),
            cx.ops@ == o + (spec_print_args(args@.take(i as int), locals@, n)->0).0,
            cx.next == (spec_print_args(args@.take(i as int), locals@, n)->0).1,
        decreases len - i,
    {
        let ghost pre = args@.take(i + 1);
        proof {
            assert(pre.drop_last() =~= args@.take(i as int));
            assert(pre.last() == args@[i as int]);
            lemma_print_args_mono(args@, locals@, n);
            lemma_print_args_prefix(args@, locals@, n, i + 1);
        }
        let ghost before = cx.ops@;
        let ghost n1 = cx.next as nat;
        if i > 0 {
            cx.ops.push(Op::PrintTab);
        }
        let v = match emit_expr(cx, &args[i], locals) {
            Ok(v) => v,
            Err(err) => {
                proof {
                    assert(!expr_fits(pre.last(), locals@, n1));
                    lemma_expr_mono(pre.last(), locals@, n1);
                    assert(!print_args_fit(pre, locals@, n));
                    lemma_print_args_prefix(args@, locals@, n, i + 1);
                }
                return Err(err);
            },
        };
        let pop = match print_plan(v.kind) {
            PrintPlan::Number => Op::PrintNumber { value: v.id },
            PrintPlan::BoolName => Op::PrintBool { value: v.id },
            _ => Op::PrintNil,
        };
        cx.ops.push(pop);
        proof {
            let sep = if pre.len() > 1 {
                seq![Op::PrintTab]
            } else {
                Seq::<Op>::empty()
            };
            assert(cx.ops@ =~= o + (spec_print_args(pre, locals@, n)->0).0);
        }
        i = i + 1;
    }
    proof {
        assert(args@.take(len as int) =~= args@);
    }
    Ok(())
}

/// A prefix of the arguments that fails makes the whole list fail.
proof fn lemma_print_args_prefix(args: Seq<HirExpr>, locals: Seq<LocalInfo>, n: nat, k: int)
    requires
        0 <= k <= args.len(),
    ensures
        !print_args_fit(args.take(k), locals, n) ==> !print_args_fit(args, locals, n),
    decreases args.len() - k,
{
    if k < args.len() {
        lemma_print_args_prefix(args, locals, n, k + 1);
        let pre = args.take(k + 1);
        assert(pre.drop_last() =~= args.take(k));
        if let Some((pops, n1)) = spec_print_args(args.take(k), locals, n) {
            lemma_expr_mono(pre.last(), locals, n1);
        }
    } else {
        assert(args.take(k) =~= args);
    }
}


/// `id` names a slot of the scalar core that holds values of kind `k`.
pub open spec fn store_target(locals: Seq<LocalInfo>, id: LocalId, k: ValueKind) -> bool {
    id.0 < locals.len() && !locals[id.0 as int].is_captured && locals[id.0 as int].kind == k
        && simple_kind(k)
}

/// A loop's continue condition `c`, and-ed with "not broken" when the
/// loop has a break flag: `(ops, condition, next free number)`.
pub open spec fn spec_and_not_broken(
    c: nat,
    brk: Option<LocalId>,
    locals: Seq<LocalInfo>,
    n: nat,
) -> Option<(Seq<Op>, nat, nat)> {
    match brk {
        None => Some((Seq::empty(), c, n)),
        Some(id) => {
            if store_target(locals, id, ValueKind::Bool) && n + 4 <= usize::MAX {
                Some(
                    (
                        seq![
                            Op::Load { result: sv(n), slot: id.0, ty: MlirType::I1 },
                            Op::ConstI1 { result: sv(n + 1), flag: true },
                            Op::Binary { result: sv(n + 2), op: ArithOp::Xori, lhs: sv(n), rhs: sv(n + 1) },
                            Op::Binary { result: sv(n + 3), op: ArithOp::Andi, lhs: sv(c), rhs: sv(n + 2) },
                        ],
                        n + 3,
                        n + 4,
                    ),
                )
            } else {
                None
            }
        },
    }
}

/// The closing markers of `k` nested `elseif` arms.
pub open spec fn spec_closers(k: nat) -> Seq<Op>
    decreases k,
{
    if k == 0 {
        Seq::empty()
    } else {
        spec_closers((k - 1) as nat) + seq![Op::EndIf, Op::Yield]
    }
}

/// The numeric `for` loop's test, from SSA number `m`: load the
/// variable, the limit and the step, and compare with `<=` when the
/// step is positive and with `>=` otherwise; `m + 5` is the result.
#[verifier::opaque]
pub open spec fn spec_for_test(var: nat, stop_slot: nat, step_slot: nat, m: nat) -> Seq<Op> {
    seq![
        Op::Load { result: sv(m), slot: sv(var), ty: MlirType::F64 },
        Op::Load { result: sv(m + 1), slot: sv(stop_slot), ty: MlirType::F64 },
        Op::Load { result: sv(m + 2), slot: sv(step_slot), ty: MlirType::F64 },
        Op::ConstF64 { result: sv(m + 3), bits: 0 },
        Op::Cmpf { result: sv(m + 4), pred: CmpfPredicate::Ogt, lhs: sv(m + 2), rhs: sv(m + 3) },
        Op::IfValue { result: sv(m + 5), cond: sv(m + 4), ty: MlirType::I1 },
        Op::Cmpf { result: sv(m + 6), pred: CmpfPredicate::Ole, lhs: sv(m), rhs: sv(m + 1) },
        Op::YieldValue { value: sv(m + 6) },
        Op::Else,
        Op::Cmpf { result: sv(m + 7), pred: CmpfPredicate::Oge, lhs: sv(m), rhs: sv(m + 1) },
        Op::YieldValue { value: sv(m + 7) },
        Op::EndIf,
    ]
}

/// The numeric `for` loop's step, from SSA number `m`: `var += step`.
#[verifier::opaque]
pub open spec fn spec_for_step(var: nat, step_slot: nat, m: nat) -> Seq<Op> {
    seq![
        Op::Load { result: sv(m), slot: sv(var), ty: MlirType::F64 },
        Op::Load { result: sv(m + 1), slot: sv(step_slot), ty: MlirType::F64 },
        Op::Binary { result: sv(m + 2), op: ArithOp::Addf, lhs: sv(m), rhs: sv(m + 1) },
        Op::Store { value: sv(m + 2), slot: sv(var) },
    ]
}

/// The loop of a numeric `for` once its bounds sit in slots: the test,
/// the body `bops`, the step. Nothing of the start, limit or step
/// expressions is in it.
pub open spec fn spec_for_loop(
    var: nat,
    stop_slot: nat,
    step_slot: nat,
    m: nat,
    bkops: Seq<Op>,
    c: nat,
    bops: Seq<Op>,
    k: nat,
) -> Seq<Op> {
    seq![Op::While] + spec_for_test(var, stop_slot, step_slot, m) + bkops + seq![
        Op::Condition { cond: sv(c) },
        Op::Do,
    ] + bops + spec_for_step(var, step_slot, k) + seq![Op::Yield, Op::EndWhile]
}

/// Operations of a statement from SSA number `n`: `(ops, next free
/// number)`, or `None` when it is outside the scalar core or its
/// numbering overflows.
pub open spec fn spec_stmt(st: HirStmt, locals: Seq<LocalInfo>, n: nat) -> Option<(Seq<Op>, nat)>
    decreases st, 1nat,
{
    match st.kind {
        HirStmtKind::LocalInit { id, value } => spec_assign(id, value, locals, n),
        HirStmtKind::Assign { id, value } => spec_assign(id, value, locals, n),
        HirStmtKind::Block { stmts } => spec_stmts(stmts@, locals, n),
        HirStmtKind::If { cond, then_body, elifs, else_body } => {
            if expr_fits(cond, locals, n) {
                let (cops, c, ck, n1) = spec_expr(cond, locals, n)->0;
                let (tops, t, n2) = spec_truth(c, ck, n1);
                if n2 <= usize::MAX {
                    match spec_stmts(then_body@, locals, n2) {
                        Some((bops, n3)) => match spec_if_tail(st, locals, n3) {
                            Some((tail, n5)) => Some(
                                (
                                    cops + tops + seq![Op::If { cond: sv(t) }] + bops + seq![
                                        Op::Yield,
                                        Op::Else,
                                    ] + tail,
                                    n5,
                                ),
                            ),
                            None => None,
                        },
                        None => None,
                    }
                } else {
                    None
                }
            } else {
                None
            }
        },
        HirStmtKind::While { cond, body, break_id } => {
            if expr_fits(cond, locals, n) {
                let (cops, c, ck, n1) = spec_expr(cond, locals, n)->0;
                let (tops, t, n2) = spec_truth(c, ck, n1);
                if n2 <= usize::MAX {
                    match spec_and_not_broken(t, break_id, locals, n2) {
                        Some((bkops, c2, n3)) => match spec_stmts(body@, locals, n3) {
                            Some((bops, n4)) => Some(
                                (
                                    seq![Op::While] + cops + tops + bkops + seq![
                                        Op::Condition { cond: sv(c2) },
                                        Op::Do,
                                    ] + bops + seq![Op::Yield, Op::EndWhile],
                                    n4,
                                ),
                            ),
                            None => None,
                        },
                        None => None,
                    }
                } else {
                    None
                }
            } else {
                None
            }
        },
        HirStmtKind::Repeat { body, cond, break_id } => match spec_stmts(body@, locals, n) {
            Some((bops, n1)) => {
                if expr_fits(cond, locals, n1) {
                    let (cops, c, ck, n2) = spec_expr(cond, locals, n1)->0;
                    let (tops, t, n3) = spec_truth(c, ck, n2);
                    if n3 + 2 <= usize::MAX {
                        match spec_and_not_broken(n3 + 1, break_id, locals, n3 + 2) {
                            Some((bkops, c2, n4)) => Some(
                                (
                                    seq![Op::While] + bops + cops + tops + seq![
                                        Op::ConstI1 { result: sv(n3), flag: true },
                                        Op::Binary { result: sv(n3 + 1), op: ArithOp::Xori, lhs: sv(t), rhs: sv(n3) },
                                    ] + bkops + seq![
                                        Op::Condition { cond: sv(c2) },
                                        Op::Do,
                                        Op::Yield,
                                        Op::EndWhile,
                                    ],
                                    n4,
                                ),
                            ),
                            None => None,
                        }
                    } else {
                        None
                    }
                } else {
                    None
                }
            },
            None => None,
        },
        HirStmtKind::ForNumeric { var_id, start, stop, step, body, break_id } => {
            if store_target(locals, var_id, ValueKind::Number) && expr_fits(start, locals, n) {
                let (aops, a, ak, n1) = spec_expr(start, locals, n)->0;
                if expr_fits(stop, locals, n1) {
                    let (bops0, b, bk, n2) = spec_expr(stop, locals, n1)->0;
                    if expr_fits(step, locals, n2) {
                        let (pops, p, pk, n3) = spec_expr(step, locals, n2)->0;
                        if ak is Number && bk is Number && pk is Number {
                            match spec_for_rest(var_id, a, b, p, break_id, body@, locals, n3) {
                                Some((rest, n5)) => Some((aops + bops0 + pops + rest, n5)),
                                None => None,
                            }
                        } else {
                            None
                        }
                    } else {
                        None
                    }
                } else {
                    None
                }
            } else {
                None
            }
        },
        HirStmtKind::ExprStmt(e) => {
            if expr_fits(e, locals, n) {
                let t = spec_expr(e, locals, n)->0;
                Some((t.0, t.3))
            } else {
                None
            }
        },
        _ => None,
    }
}

/// A numeric `for` once its start, limit and step are the values `a`,
/// `b`, `p` and SSA numbers start at `n3`: two slots for the limit and
/// the step, the three stores, then the loop.
pub open spec fn spec_for_rest(
    var_id: LocalId,
    a: nat,
    b: nat,
    p: nat,
    break_id: Option<LocalId>,
    body: Seq<HirStmt>,
    locals: Seq<LocalInfo>,
    n3: nat,
) -> Option<(Seq<Op>, nat)>
    decreases body, 2nat,
{
    if n3 + 10 <= usize::MAX {
        let setup = seq![
            Op::Alloca { result: sv(n3), ty: MlirType::F64 },
            Op::Alloca { result: sv(n3 + 1), ty: MlirType::F64 },
            Op::Store { value: sv(a), slot: var_id.0 },
            Op::Store { value: sv(b), slot: sv(n3) },
            Op::Store { value: sv(p), slot: sv(n3 + 1) },
        ];
        match spec_and_not_broken(n3 + 7, break_id, locals, n3 + 10) {
            Some((bkops, c2, n4)) => match spec_stmts(body, locals, n4) {
                Some((body_ops, n5)) => {
                    if n5 + 3 <= usize::MAX {
                        Some(
                            (
                                setup + spec_for_loop(
                                    var_id.0 as nat,
                                    n3,
                                    n3 + 1,
                                    n3 + 2,
                                    bkops,
                                    c2,
                                    body_ops,
                                    n5,
                                ),
                                n5 + 3,
                            ),
                        )
                    } else {
                        None
                    }
                },
                None => None,
            },
            None => None,
        }
    } else {
        None
    }
}

/// The else-region of an `if` from SSA number `n3`: the `elseif`
/// arms nested one in the other, the `else` body at the innermost,
/// then the closing markers.
pub open spec fn spec_if_tail(st: HirStmt, locals: Seq<LocalInfo>, n3: nat) -> Option<(Seq<Op>, nat)>
    decreases st, 0nat,
{
    match st.kind {
        HirStmtKind::If { elifs, else_body, .. } => match spec_elifs(elifs@, locals, n3) {
            Some((eops, n4)) => match (match else_body {
                Some(b) => spec_stmts(b@, locals, n4),
                None => Some((Seq::empty(), n4)),
            }) {
                Some((lops, n5)) => Some(
                    (eops + lops + seq![Op::Yield] + spec_closers(elifs@.len()) + seq![Op::EndIf], n5),
                ),
                None => None,
            },
            None => None,
        },
        _ => None,
    }
}

/// `id = value` into a slot of the scalar core.
pub open spec fn spec_assign(id: LocalId, value: HirExpr, locals: Seq<LocalInfo>, n: nat) -> Option<
    (Seq<Op>, nat),
> {
    if expr_fits(value, locals, n) {
        let (ops, v, k, n1) = spec_expr(value, locals, n)->0;
        if store_target(locals, id, k) {
            Some((ops + seq![Op::Store { value: sv(v), slot: id.0 }], n1))
        } else {
            None
        }
    } else {
        None
    }
}

/// Operations of a statement list, one statement after the other.
pub open spec fn spec_stmts(ss: Seq<HirStmt>, locals: Seq<LocalInfo>, n: nat) -> Option<
    (Seq<Op>, nat),
>
    decreases ss, 1nat,
{
    if ss.len() == 0 {
        Some((Seq::empty(), n))
    } else {
        match spec_stmts(ss.drop_last(), locals, n) {
            Some((ops, n1)) => match spec_stmt(ss.last(), locals, n1) {
                Some((sops, n2)) => Some((ops + sops, n2)),
                None => None,
            },
            None => None,
        }
    }
}

/// The opening part of each `elseif` arm: its condition, an `scf.if`
/// on its truth value, its body, and the switch to the else-region
/// that holds the next arm.
pub open spec fn spec_elifs(arms: Seq<(HirExpr, Vec<HirStmt>)>, locals: Seq<LocalInfo>, n: nat) -> Option<
    (Seq<Op>, nat),
>
    decreases arms, 1nat,
{
    if arms.len() == 0 {
        Some((Seq::empty(), n))
    } else {
        match spec_elifs(arms.drop_last(), locals, n) {
            Some((pops, n1)) => {
                let arm = arms.last();
                if expr_fits(arm.0, locals, n1) {
                    let (cops, c, ck, n2) = spec_expr(arm.0, locals, n1)->0;
                    let (tops, t, n3) = spec_truth(c, ck, n2);
                    if n3 <= usize::MAX {
                        match spec_stmts(arm.1@, locals, n3) {
                            Some((bops, n4)) => Some(
                                (
                                    pops + cops + tops + seq![Op::If { cond: sv(t) }] + bops + seq![
                                        Op::Yield,
                                        Op::Else,
                                    ],
                                    n4,
                                ),
                            ),
                            None => None,
                        }
                    } else {
                        None
                    }
                } else {
                    None
                }
            },
            None => None,
        }
    }
}

/// `r` and the operations between `before` and `after`, ending at SSA
/// number `next`, are what `spec_stmt` gives for `st` from `n`.
pub open spec fn emitted_stmts(
    t: Option<(Seq<Op>, nat)>,
    before: Seq<Op>,
    r: Result<(), CodegenError>,
    after: Seq<Op>,
    next: usize,
) -> bool {
    &&& r is Ok <==> t is Some
    &&& r is Ok ==> after == before + (t->0).0 && next == (t->0).1
    &&& r is Err ==> r->Err_0 is UnsupportedExpr
}

/// Emits the operations of a statement.
pub fn emit_stmt(cx: &mut EmitCx, st: &HirStmt, locals: &[LocalInfo]) -> (r: Result<
    (),
    CodegenError,
>)
    ensures
        emitted_stmts(spec_stmt(*st, locals@, un(old(cx).next)), old(cx).ops@, r, final(cx).ops@, final(cx).next),
    decreases st, 2nat,
{
    let ghost n = un(old(cx).next);
    let ghost o = old(cx).ops@;
    match &st.kind {
        HirStmtKind::LocalInit { id, value } => emit_assign(cx, *id, value, locals),
        HirStmtKind::Assign { id, value } => emit_assign(cx, *id, value, locals),
        HirStmtKind::Block { stmts } => emit_stmts(cx, stmts, locals),
        HirStmtKind::If { .. } => emit_if(cx, st, locals),
        HirStmtKind::While { .. } => emit_while(cx, st, locals),
        HirStmtKind::Repeat { .. } => emit_repeat(cx, st, locals),
        HirStmtKind::ForNumeric { .. } => emit_for(cx, st, locals),
        HirStmtKind::ExprStmt(e) => {
            match emit_expr(cx, e, locals) {
                Ok(_) => Ok(()),
                Err(err) => Err(err),
            }
        },
        _ => Err(unsupported()),
    }
}

/// Emits `id = value`.
fn emit_assign(cx: &mut EmitCx, id: LocalId, value: &HirExpr, locals: &[LocalInfo]) -> (r: Result<
    (),
    CodegenError,
>)
    ensures
        emitted_stmts(spec_assign(id, *value, locals@, un(old(cx).next)), old(cx).ops@, r, final(cx).ops@, final(cx).next),
{
    let ghost o = old(cx).ops@;
    let ghost n = un(old(cx).next);
    let v = emit_expr(cx, value, locals)?;
    if id.0 >= locals.len() || locals[id.0].is_captured || !(locals[id.0].kind == v.kind) {
        return Err(unsupported());
    }
    cx.ops.push(Op::Store { value: v.id, slot: id.0 });
    proof {
        assert(cx.ops@ =~= o + (spec_assign(id, *value, locals@, n)->0).0);
    }
    Ok(())
}

/// Emits the "and not broken" part of a loop condition.
fn emit_and_not_broken(cx: &mut EmitCx, c: usize, brk: Option<LocalId>, locals: &[LocalInfo]) -> (r: Result<
    usize,
    CodegenError,
>)
    ensures
        ({
            let t = spec_and_not_broken(un(c), brk, locals@, un(old(cx).next));
            &&& r is Ok <==> t is Some
            &&& r is Ok ==> final(cx).ops@ == old(cx).ops@ + (t->0).0 && r->Ok_0 == (t->0).1
                && final(cx).next == (t->0).2
            &&& r is Err ==> r->Err_0 is UnsupportedExpr
        }),
{
    let ghost o = old(cx).ops@;
    match brk {
        None => {
            proof {
                assert(o + Seq::<Op>::empty() =~= o);
            }
            Ok(c)
        },
        Some(id) => {
            if id.0 >= locals.len() || locals[id.0].is_captured || !(locals[id.0].kind
                == ValueKind::Bool) {
                return Err(unsupported());
            }
            if cx.next > usize::MAX - 4 {
                return Err(unsupported());
            }
            let b = fresh(cx)?;
            let one = fresh(cx)?;
            let nb = fresh(cx)?;
            let res = fresh(cx)?;
            cx.ops.push(Op::Load { result: b, slot: id.0, ty: MlirType::I1 });
            cx.ops.push(Op::ConstI1 { result: one, flag: true });
            cx.ops.push(Op::Binary { result: nb, op: ArithOp::Xori, lhs: b, rhs: one });
            cx.ops.push(Op::Binary { result: res, op: ArithOp::Andi, lhs: c, rhs: nb });
            proof {
                assert(cx.ops@ =~= o + (spec_and_not_broken(un(c), brk, locals@, un(old(cx).next))->0).0);
            }
            Ok(res)
        },
    }
}

/// Emits a statement list.
fn emit_stmts(cx: &mut EmitCx, ss: &Vec<HirStmt>, locals: &[LocalInfo]) -> (r: Result<
    (),
    CodegenError,
>)
    ensures
        emitted_stmts(spec_stmts(ss@, locals@, un(old(cx).next)), old(cx).ops@, r, final(cx).ops@, final(cx).next),
    decreases ss, 0nat,
{
    let ghost n = un(old(cx).next);
    let ghost o = old(cx).ops@;
    let len = ss.len();
    let mut i: usize = 0;
    proof {
        assert(ss@.take(0) =~= Seq::<HirStmt>::empty());
        assert(o + Seq::<Op>::empty() =~= o);
    }
    while i < len
        invariant
            len == ss@.len(),
            n == un(old(cx).next),
            i <= len,
            spec_stmts(ss@.take(i as int), locals@, n) is Some,
            cx.ops@ == o + (spec_stmts(ss@.take(i as int), locals@, n)->0).0,
            cx.next == (spec_stmts(ss@.take(i as int), locals@, n)->0).1,
        decreases len - i,
    {
        let ghost pre = ss@.take(i + 1);
        proof {
            assert(pre.drop_last() =~= ss@.take(i as int));
            assert(pre.last() == ss@[i as int]);
        }
        match emit_stmt(cx, &ss[i], locals) {
            Ok(()) => {},
            Err(err) => {
                proof {
                    lemma_stmts_prefix(ss@, locals@, n, i + 1);
                }
                return Err(err);
            },
        }
        proof {
            assert(cx.ops@ =~= o + (spec_stmts(pre, locals@, n)->0).0);
        }
        i = i + 1;
    }
    proof {
        assert(ss@.take(len as int) =~= ss@);
    }
    Ok(())
}

/// A failing prefix of a statement list makes the list fail.
proof fn lemma_stmts_prefix(ss: Seq<HirStmt>, locals: Seq<LocalInfo>, n: nat, k: int)
    requires
        0 <= k <= ss.len(),
    ensures
        spec_stmts(ss.take(k), locals, n) is None ==> spec_stmts(ss, locals, n) is None,
    decreases ss.len() - k,
{
    if k < ss.len() {
        lemma_stmts_prefix(ss, locals, n, k + 1);
        assert(ss.take(k + 1).drop_last() =~= ss.take(k));
    } else {
        assert(ss.take(k) =~= ss);
    }
}

/// A failing prefix of the `elseif` arms makes the arms fail.
proof fn lemma_elifs_prefix(arms: Seq<(HirExpr, Vec<HirStmt>)>, locals: Seq<LocalInfo>, n: nat, k: int)
    requires
        0 <= k <= arms.len(),
    ensures
        spec_elifs(arms.take(k), locals, n) is None ==> spec_elifs(arms, locals, n) is None,
    decreases arms.len() - k,
{
    if k < arms.len() {
        lemma_elifs_prefix(arms, locals, n, k + 1);
        assert(arms.take(k + 1).drop_last() =~= arms.take(k));
    } else {
        assert(arms.take(k) =~= arms);
    }
}

/// Emits the opening parts of the `elseif` arms.
fn emit_elifs(cx: &mut EmitCx, arms: &Vec<(HirExpr, Vec<HirStmt>)>, locals: &[LocalInfo]) -> (r: Result<
    (),
    CodegenError,
>)
    ensures
        emitted_stmts(spec_elifs(arms@, locals@, un(old(cx).next)), old(cx).ops@, r, final(cx).ops@, final(cx).next),
    decreases arms, 0nat,
{
    let ghost n = un(old(cx).next);
    let ghost o = old(cx).ops@;
    let len = arms.len();
    let mut i: usize = 0;
    proof {
        assert(arms@.take(0) =~= Seq::<(HirExpr, Vec<HirStmt>)>::empty());
        assert(o + Seq::<Op>::empty() =~= o);
    }
    while i < len
        invariant
            len == arms@.len(),
            n == un(old(cx).next),
            i <= len,
            spec_elifs(arms@.take(i as int), locals@, n) is Some,
            cx.ops@ == o + (spec_elifs(arms@.take(i as int), locals@, n)->0).0,
            cx.next == (spec_elifs(arms@.take(i as int), locals@, n)->0).1,
        decreases len - i,
    {
        let ghost pre = arms@.take(i + 1);
        proof {
            assert(pre.drop_last() =~= arms@.take(i as int));
            assert(pre.last() == arms@[i as int]);
            lemma_elifs_prefix(arms@, locals@, n, i + 1);
        }
        let arm = &arms[i];
        let c = emit_expr(cx, &arm.0, locals)?;
        let t = emit_truth(cx, c)?;
        cx.ops.push(Op::If { cond: t });
        emit_stmts(cx, &arm.1, locals)?;
        cx.ops.push(Op::Yield);
        cx.ops.push(Op::Else);
        proof {
            assert(cx.ops@ =~= o + (spec_elifs(pre, locals@, n)->0).0);
        }
        i = i + 1;
    }
    proof {
        assert(arms@.take(len as int) =~= arms@);
    }
    Ok(())
}

/// Emits `k` pairs of closing markers.
fn emit_closers(cx: &mut EmitCx, k: usize)
    ensures
        final(cx).ops@ == old(cx).ops@ + spec_closers(k as nat),
        final(cx).next == old(cx).next,
{
    let ghost o = old(cx).ops@;
    let mut i: usize = 0;
    proof {
        assert(o + spec_closers(0) =~= o);
    }
    while i < k
        invariant
            i <= k,
            cx.ops@ == o + spec_closers(i as nat),
            cx.next == old(cx).next,
        decreases k - i,
    {
        cx.ops.push(Op::EndIf);
        cx.ops.push(Op::Yield);
        proof {
            assert(cx.ops@ =~= o + spec_closers((i + 1) as nat));
        }
        i = i + 1;
    }
}

/// Emits `if` / `elseif` / `else` as nested `scf.if`s.
#[verifier::rlimit(100)]
#[verifier::spinoff_prover]
fn emit_if(cx: &mut EmitCx, st: &HirStmt, locals: &[LocalInfo]) -> (r: Result<(), CodegenError>)
    requires
        st.kind is If,
    ensures
        emitted_stmts(spec_stmt(*st, locals@, un(old(cx).next)), old(cx).ops@, r, final(cx).ops@, final(cx).next),
    decreases st, 1nat,
{
    let ghost n = un(old(cx).next);
    let ghost o = old(cx).ops@;
    if let HirStmtKind::If { cond, then_body, .. } = &st.kind {
        let c = emit_expr(cx, cond, locals)?;
        let t = emit_truth(cx, c)?;
        cx.ops.push(Op::If { cond: t });
        emit_stmts(cx, then_body, locals)?;
        cx.ops.push(Op::Yield);
        cx.ops.push(Op::Else);
        emit_if_tail(cx, st, locals)?;
        proof {
            assert(cx.ops@ =~= o + (spec_stmt(*st, locals@, n)->0).0);
        }
        Ok(())
    } else {
        Err(unsupported())
    }
}

/// Emits the else-region of an `if`.
#[verifier::rlimit(100)]
#[verifier::spinoff_prover]
fn emit_if_tail(cx: &mut EmitCx, st: &HirStmt, locals: &[LocalInfo]) -> (r: Result<(), CodegenError>)
    requires
        st.kind is If,
    ensures
        emitted_stmts(spec_if_tail(*st, locals@, un(old(cx).next)), old(cx).ops@, r, final(cx).ops@, final(cx).next),
    decreases st, 0nat,
{
    let ghost n = un(old(cx).next);
    let ghost o = old(cx).ops@;
    if let HirStmtKind::If { elifs, else_body, .. } = &st.kind {
        emit_elifs(cx, elifs, locals)?;
        let ghost o4 = cx.ops@;
        match else_body {
            Some(b) => {
                emit_stmts(cx, b, locals)?;
            },
            None => {
                proof {
                    assert(o4 + Seq::<Op>::empty() =~= o4);
                }
            },
        }
        cx.ops.push(Op::Yield);
        emit_closers(cx, elifs.len());
        cx.ops.push(Op::EndIf);
        proof {
            assert(cx.ops@ =~= o + (spec_if_tail(*st, locals@, n)->0).0);
        }
        Ok(())
    } else {
        Err(unsupported())
    }
}

/// Emits `while cond do body end` as an `scf.while`.
#[verifier::rlimit(100)]
#[verifier::spinoff_prover]
fn emit_while(cx: &mut EmitCx, st: &HirStmt, locals: &[LocalInfo]) -> (r: Result<(), CodegenError>)
    requires
        st.kind is While,
    ensures
        emitted_stmts(spec_stmt(*st, locals@, un(old(cx).next)), old(cx).ops@, r, final(cx).ops@, final(cx).next),
    decreases st, 1nat,
{
    let ghost n = un(old(cx).next);
    let ghost o = old(cx).ops@;
    if let HirStmtKind::While { cond, body, break_id } = &st.kind {
        cx.ops.push(Op::While);
        let c = emit_expr(cx, cond, locals)?;
        let t = emit_truth(cx, c)?;
        let c2 = emit_and_not_broken(cx, t, *break_id, locals)?;
        cx.ops.push(Op::Condition { cond: c2 });
        cx.ops.push(Op::Do);
        emit_stmts(cx, body, locals)?;
        cx.ops.push(Op::Yield);
        cx.ops.push(Op::EndWhile);
        proof {
            assert(cx.ops@ =~= o + (spec_stmt(*st, locals@, n)->0).0);
        }
        Ok(())
    } else {
        Err(unsupported())
    }
}

/// Emits `repeat body until cond`: the body and the test both sit in
/// the before-region of an `scf.while`, which goes on while the
/// condition is false.
#[verifier::rlimit(100)]
#[verifier::spinoff_prover]
fn emit_repeat(cx: &mut EmitCx, st: &HirStmt, locals: &[LocalInfo]) -> (r: Result<(), CodegenError>)
    requires
        st.kind is Repeat,
    ensures
        emitted_stmts(spec_stmt(*st, locals@, un(old(cx).next)), old(cx).ops@, r, final(cx).ops@, final(cx).next),
    decreases st, 1nat,
{
    let ghost n = un(old(cx).next);
    let ghost o = old(cx).ops@;
    if let HirStmtKind::Repeat { body, cond, break_id } = &st.kind {
        cx.ops.push(Op::While);
        emit_stmts(cx, body, locals)?;
        let c = emit_expr(cx, cond, locals)?;
        let t = emit_truth(cx, c)?;
        if cx.next > usize::MAX - 2 {
            return Err(unsupported());
        }
        let one = fresh(cx)?;
        let cont = fresh(cx)?;
        cx.ops.push(Op::ConstI1 { result: one, flag: true });
        cx.ops.push(Op::Binary { result: cont, op: ArithOp::Xori, lhs: t, rhs: one });
        let c2 = emit_and_not_broken(cx, cont, *break_id, locals)?;
        cx.ops.push(Op::Condition { cond: c2 });
        cx.ops.push(Op::Do);
        cx.ops.push(Op::Yield);
        cx.ops.push(Op::EndWhile);
        proof {
            assert(cx.ops@ =~= o + (spec_stmt(*st, locals@, n)->0).0);
        }
        Ok(())
    } else {
        Err(unsupported())
    }
}

/// Emits the test of a numeric `for` loop.
fn emit_for_test(cx: &mut EmitCx, var: usize, stop_slot: usize, step_slot: usize) -> (r: usize)
    requires
        old(cx).next + 8 <= usize::MAX,
    ensures
        final(cx).ops@ == old(cx).ops@ + spec_for_test(un(var), un(stop_slot), un(step_slot), un(old(cx).next)),
        final(cx).next == old(cx).next + 8,
        r == old(cx).next + 5,
{
    let ghost o = old(cx).ops@;
    let m = cx.next;
    cx.next = m + 8;
    cx.ops.push(Op::Load { result: m, slot: var, ty: MlirType::F64 });
    cx.ops.push(Op::Load { result: m + 1, slot: stop_slot, ty: MlirType::F64 });
    cx.ops.push(Op::Load { result: m + 2, slot: step_slot, ty: MlirType::F64 });
    cx.ops.push(Op::ConstF64 { result: m + 3, bits: 0 });
    cx.ops.push(Op::Cmpf { result: m + 4, pred: CmpfPredicate::Ogt, lhs: m + 2, rhs: m + 3 });
    cx.ops.push(Op::IfValue { result: m + 5, cond: m + 4, ty: MlirType::I1 });
    cx.ops.push(Op::Cmpf { result: m + 6, pred: CmpfPredicate::Ole, lhs: m, rhs: m + 1 });
    cx.ops.push(Op::YieldValue { value: m + 6 });
    cx.ops.push(Op::Else);
    cx.ops.push(Op::Cmpf { result: m + 7, pred: CmpfPredicate::Oge, lhs: m, rhs: m + 1 });
    cx.ops.push(Op::YieldValue { value: m + 7 });
    cx.ops.push(Op::EndIf);
    proof {
        reveal(spec_for_test);
        assert(cx.ops@ =~= o + spec_for_test(un(var), un(stop_slot), un(step_slot), un(m)));
    }
    m + 5
}

/// Emits the step of a numeric `for` loop.
fn emit_for_step(cx: &mut EmitCx, var: usize, step_slot: usize)
    requires
        old(cx).next + 3 <= usize::MAX,
    ensures
        final(cx).ops@ == old(cx).ops@ + spec_for_step(un(var), un(step_slot), un(old(cx).next)),
        final(cx).next == old(cx).next + 3,
{
    let ghost o = old(cx).ops@;
    let k = cx.next;
    cx.next = k + 3;
    cx.ops.push(Op::Load { result: k, slot: var, ty: MlirType::F64 });
    cx.ops.push(Op::Load { result: k + 1, slot: step_slot, ty: MlirType::F64 });
    cx.ops.push(Op::Binary { result: k + 2, op: ArithOp::Addf, lhs: k, rhs: k + 1 });
    cx.ops.push(Op::Store { value: k + 2, slot: var });
    proof {
        reveal(spec_for_step);
        assert(cx.ops@ =~= o + spec_for_step(un(var), un(step_slot), un(k)));
    }
}

/// Emits a numeric `for`: start, limit and step are evaluated once,
/// before the loop, into the variable's slot and two fresh slots.
#[verifier::rlimit(100)]
#[verifier::spinoff_prover]
fn emit_for(cx: &mut EmitCx, st: &HirStmt, locals: &[LocalInfo]) -> (r: Result<(), CodegenError>)
    requires
        st.kind is ForNumeric,
    ensures
        emitted_stmts(spec_stmt(*st, locals@, un(old(cx).next)), old(cx).ops@, r, final(cx).ops@, final(cx).next),
    decreases st, 1nat,
{
    let ghost n = un(old(cx).next);
    let ghost o = old(cx).ops@;
    if let HirStmtKind::ForNumeric { var_id, start, stop, step, body, break_id } = &st.kind {
        let var = var_id.0;
        if var >= locals.len() || locals[var].is_captured || !(locals[var].kind == ValueKind::Number) {
            return Err(unsupported());
        }
        let a = emit_expr(cx, start, locals)?;
        let b = emit_expr(cx, stop, locals)?;
        let p = emit_expr(cx, step, locals)?;
        if !(a.kind == ValueKind::Number) || !(b.kind == ValueKind::Number) || !(p.kind
            == ValueKind::Number) {
            return Err(unsupported());
        }
        emit_for_rest(cx, st, a.id, b.id, p.id, locals)?;
        proof {
            assert(cx.ops@ =~= o + (spec_stmt(*st, locals@, n)->0).0);
        }
        Ok(())
    } else {
        Err(unsupported())
    }
}

/// Emits the slots, stores and loop of a numeric `for` whose bounds
/// are the values `a`, `b`, `p`.
#[verifier::rlimit(100)]
#[verifier::spinoff_prover]
fn emit_for_rest(cx: &mut EmitCx, st: &HirStmt, a: usize, b: usize, p: usize, locals: &[LocalInfo]) -> (r: Result<
    (),
    CodegenError,
>)
    requires
        st.kind matches HirStmtKind::ForNumeric { var_id, .. } && var_id.0 < locals@.len(),
    ensures
        st.kind matches HirStmtKind::ForNumeric { var_id, body, break_id, .. } && emitted_stmts(
            spec_for_rest(var_id, un(a), un(b), un(p), break_id, body@, locals@, un(old(cx).next)),
            old(cx).ops@,
            r,
            final(cx).ops@,
            final(cx).next,
        ),
    decreases st, 0nat,
{
    let ghost n3 = un(old(cx).next);
    let ghost o = old(cx).ops@;
    if let HirStmtKind::ForNumeric { var_id, body, break_id, .. } = &st.kind {
        let var = var_id.0;
        if cx.next > usize::MAX - 10 {
            return Err(unsupported());
        }
        let stop_slot = cx.next;
        let step_slot = cx.next + 1;
        cx.next = cx.next + 2;
        cx.ops.push(Op::Alloca { result: stop_slot, ty: MlirType::F64 });
        cx.ops.push(Op::Alloca { result: step_slot, ty: MlirType::F64 });
        cx.ops.push(Op::Store { value: a, slot: var });
        cx.ops.push(Op::Store { value: b, slot: stop_slot });
        cx.ops.push(Op::Store { value: p, slot: step_slot });
        cx.ops.push(Op::While);
        let c = emit_for_test(cx, var, stop_slot, step_slot);
        let c2 = emit_and_not_broken(cx, c, *break_id, locals)?;
        cx.ops.push(Op::Condition { cond: c2 });
        cx.ops.push(Op::Do);
        emit_stmts(cx, body, locals)?;
        if cx.next > usize::MAX - 3 {
            return Err(unsupported());
        }
        emit_for_step(cx, var, step_slot);
        cx.ops.push(Op::Yield);
        cx.ops.push(Op::EndWhile);
        proof {
            assert(cx.ops@ =~= o + (spec_for_rest(*var_id, un(a), un(b), un(p), *break_id, body@, locals@, n3)->0).0);
        }
        Ok(())
    } else {
        Err(unsupported())
    }
}

/// The locals of the main chunk all live in slots of the scalar core.
pub open spec fn simple_locals(locals: Seq<LocalInfo>) -> bool {
    forall|i: int| 0 <= i < locals.len() ==> simple_kind(#[trigger] locals[i].kind) && !locals[i].is_captured
}

/// One `llvm.alloca` per local, the slot of local `i` numbered `i`.
pub open spec fn spec_slots(locals: Seq<LocalInfo>) -> Seq<Op> {
    Seq::new(locals.len(), |i: int| Op::Alloca { result: sv(i as nat), ty: spec_kind_to_mlir_type(locals[i].kind) })
}

/// The body of `@main` for a chunk: the slots of its locals, its
/// statements, and `return 0`: `(ops, number of SSA values)`; `None`
/// when the chunk defines functions or leaves the scalar core.
pub open spec fn spec_module(chunk: HirChunk) -> Option<(Seq<Op>, nat)> {
    let locals = chunk.locals@;
    if chunk.functions@.len() == 0 && simple_locals(locals) {
        match spec_stmts(chunk.stmts@, locals, locals.len()) {
            Some((ops, n1)) => {
                if n1 + 1 <= usize::MAX {
                    Some(
                        (
                            spec_slots(locals) + ops + seq![
                                Op::ConstI64 { result: sv(n1), imm: 0 },
                                Op::Return { value: sv(n1) },
                            ],
                            n1 + 1,
                        ),
                    )
                } else {
                    None
                }
            },
            None => None,
        }
    } else {
        None
    }
}

/// Lowers a chunk to the body of `@main`.
pub fn emit_module(chunk: &HirChunk) -> (r: Result<MlirModule, CodegenError>)
    ensures
        r is Ok <==> spec_module(*chunk) is Some,
        r is Ok ==> r->Ok_0.main_ops@ == (spec_module(*chunk)->0).0 && r->Ok_0.value_count == (
        spec_module(*chunk)->0).1,
        r is Err ==> r->Err_0 is UnsupportedExpr,
{
    if chunk.functions.len() > 0 {
        return Err(unsupported());
    }
    let locals = chunk.locals.as_slice();
    let len = locals.len();
    let mut cx = EmitCx { ops: Vec::new(), next: 0 };
    let mut i: usize = 0;
    while i < len
        invariant
            len == locals@.len(),
            locals@ == chunk.locals@,
            i <= len,
            cx.next == i,
            cx.ops@ == spec_slots(locals@).take(i as int),
            forall|j: int| 0 <= j < i ==> simple_kind(#[trigger] locals@[j].kind) && !locals@[j].is_captured,
        decreases len - i,
    {
        let info = locals[i];
        let simple = match info.kind {
            ValueKind::Number | ValueKind::Bool | ValueKind::Nil => true,
            _ => false,
        };
        if !simple || info.is_captured {
            return Err(unsupported());
        }
        cx.ops.push(Op::Alloca { result: i, ty: kind_to_mlir_type(info.kind) });
        proof {
            assert(cx.ops@ =~= spec_slots(locals@).take(i + 1));
        }
        cx.next = i + 1;
        i = i + 1;
    }
    proof {
        assert(spec_slots(locals@).take(len as int) =~= spec_slots(locals@));
    }
    emit_stmts(&mut cx, &chunk.stmts, locals)?;
    if cx.next == usize::MAX {
        return Err(unsupported());
    }
    let z = cx.next;
    cx.next = z + 1;
    cx.ops.push(Op::ConstI64 { result: z, imm: 0 });
    cx.ops.push(Op::Return { value: z });
    proof {
        assert(cx.ops@ =~= (spec_module(*chunk)->0).0);
    }
    Ok(MlirModule { main_ops: cx.ops, value_count: cx.next })
}


/// How two `f64` values compare: one of the three orders, or unordered
/// when either is a NaN.
#[derive(Clone, Copy, Debug, PartialEq, Eq, Structural)]
pub enum FloatOrder {
    Less,
    Equal,
    Greater,
    Unordered,
}

/// Whether an `arith.cmpf` predicate holds of two values that compare
/// as `ord`: the ordered predicates never hold when they are unordered,
/// `une` always does.
pub open spec fn cmpf_holds(pred: CmpfPredicate, ord: FloatOrder) -> bool {
    match ord {
        FloatOrder::Unordered => pred is Une,
        _ => match pred {
            CmpfPredicate::Olt => ord is Less,
            CmpfPredicate::Ole => ord is Less || ord is Equal,
            CmpfPredicate::Ogt => ord is Greater,
            CmpfPredicate::Oge => ord is Greater || ord is Equal,
            CmpfPredicate::Oeq => ord is Equal,
            CmpfPredicate::One => !(ord is Equal),
            CmpfPredicate::Une => !(ord is Equal),
        },
    }
}

/// Law: `a and b` evaluates `b` only when `a` is truthy: the operations
/// of `b` lie in the then-region of an `scf.if` on the truth value of
/// `a`, and the else-region yields `a` itself.
pub proof fn law_and_evaluates_rhs_only_when_truthy(e: HirExpr, locals: Seq<LocalInfo>, n: nat)
    requires
        e.kind matches HirExprKind::BinOp { op, .. } && op is And,
        expr_fits(e, locals, n),
    ensures
        e.kind matches HirExprKind::BinOp { lhs, rhs, .. } && ({
            let (lops, lv, lk, n1) = spec_expr(*lhs, locals, n)->0;
            let (tops, t, n2) = spec_truth(lv, lk, n1);
            let (rops, rv, rk, n3) = spec_expr(*rhs, locals, n2 + 1)->0;
            &&& (spec_expr(e, locals, n)->0).0 == lops + tops + seq![
                Op::IfValue { result: sv(n2), cond: sv(t), ty: spec_kind_to_mlir_type(lk) },
            ] + rops + seq![
                Op::YieldValue { value: sv(rv) },
                Op::Else,
                Op::YieldValue { value: sv(lv) },
                Op::EndIf,
            ]
            &&& (spec_expr(e, locals, n)->0).1 == n2
        }),
{
    if let HirExprKind::BinOp { op, lhs, rhs } = e.kind {
        let (lops, lv, lk, n1) = spec_expr(*lhs, locals, n)->0;
        let (tops, t, n2) = spec_truth(lv, lk, n1);
        let (rops, rv, rk, n3) = spec_expr(*rhs, locals, n2 + 1)->0;
        let open = seq![Op::IfValue { result: sv(n2), cond: sv(t), ty: spec_kind_to_mlir_type(lk) }];
        assert(lops + tops + spec_short_circuit(true, n2, t, lv, lk, rops, rv) =~= lops + tops + open
            + rops + seq![
            Op::YieldValue { value: sv(rv) },
            Op::Else,
            Op::YieldValue { value: sv(lv) },
            Op::EndIf,
        ]);
    }
}

/// Law: `a or b` evaluates `b` only when `a` is falsy: the then-region
/// of the `scf.if` on the truth value of `a` yields `a`, and the
/// operations of `b` lie in its else-region.
pub proof fn law_or_evaluates_rhs_only_when_falsy(e: HirExpr, locals: Seq<LocalInfo>, n: nat)
    requires
        e.kind matches HirExprKind::BinOp { op, .. } && op is Or,
        expr_fits(e, locals, n),
    ensures
        e.kind matches HirExprKind::BinOp { lhs, rhs, .. } && ({
            let (lops, lv, lk, n1) = spec_expr(*lhs, locals, n)->0;
            let (tops, t, n2) = spec_truth(lv, lk, n1);
            let (rops, rv, rk, n3) = spec_expr(*rhs, locals, n2 + 1)->0;
            &&& (spec_expr(e, locals, n)->0).0 == lops + tops + seq![
                Op::IfValue { result: sv(n2), cond: sv(t), ty: spec_kind_to_mlir_type(lk) },
                Op::YieldValue { value: sv(lv) },
                Op::Else,
            ] + rops + seq![Op::YieldValue { value: sv(rv) }, Op::EndIf]
            &&& (spec_expr(e, locals, n)->0).1 == n2
        }),
{
    if let HirExprKind::BinOp { op, lhs, rhs } = e.kind {
        let (lops, lv, lk, n1) = spec_expr(*lhs, locals, n)->0;
        let (tops, t, n2) = spec_truth(lv, lk, n1);
        let (rops, rv, rk, n3) = spec_expr(*rhs, locals, n2 + 1)->0;
        let open = seq![Op::IfValue { result: sv(n2), cond: sv(t), ty: spec_kind_to_mlir_type(lk) }];
        assert(lops + tops + spec_short_circuit(false, n2, t, lv, lk, rops, rv) =~= lops + tops
            + seq![
            Op::IfValue { result: sv(n2), cond: sv(t), ty: spec_kind_to_mlir_type(lk) },
            Op::YieldValue { value: sv(lv) },
            Op::Else,
        ] + rops + seq![Op::YieldValue { value: sv(rv) }, Op::EndIf]);
    }
}

/// Law: a numeric `for` evaluates its start, limit and step once: their
/// operations come first, one after the other, before the loop opens,
/// and the loop itself is built from the slots and the body alone.
#[verifier::rlimit(100)]
#[verifier::spinoff_prover]
pub proof fn law_for_bounds_evaluated_once(st: HirStmt, locals: Seq<LocalInfo>, n: nat)
    requires
        st.kind is ForNumeric,
        spec_stmt(st, locals, n) is Some,
    ensures
        st.kind matches HirStmtKind::ForNumeric { var_id, start, stop, step, body, break_id } && ({
            let (aops, a, ak, n1) = spec_expr(start, locals, n)->0;
            let (bops, b, bk, n2) = spec_expr(stop, locals, n1)->0;
            let (pops, p, pk, n3) = spec_expr(step, locals, n2)->0;
            let ops = (spec_stmt(st, locals, n)->0).0;
            let pre = aops + bops + pops;
            &&& ops.take(pre.len() as int) == pre
            &&& ops.skip(pre.len() as int).take(5) == seq![
                Op::Alloca { result: sv(n3), ty: MlirType::F64 },
                Op::Alloca { result: sv(n3 + 1), ty: MlirType::F64 },
                Op::Store { value: sv(a), slot: var_id.0 },
                Op::Store { value: sv(b), slot: sv(n3) },
                Op::Store { value: sv(p), slot: sv(n3 + 1) },
            ]
            &&& exists|bkops: Seq<Op>, c: nat, body_ops: Seq<Op>, k: nat|
                ops.skip(pre.len() + 5int) == #[trigger] spec_for_loop(
                    var_id.0 as nat,
                    n3,
                    n3 + 1,
                    n3 + 2,
                    bkops,
                    c,
                    body_ops,
                    k,
                )
        }),
{
    if let HirStmtKind::ForNumeric { var_id, start, stop, step, body, break_id } = st.kind {
        let (aops, a, ak, n1) = spec_expr(start, locals, n)->0;
        let (bops, b, bk, n2) = spec_expr(stop, locals, n1)->0;
        let (pops, p, pk, n3) = spec_expr(step, locals, n2)->0;
        let ops = (spec_stmt(st, locals, n)->0).0;
        let pre = aops + bops + pops;
        let rest = (spec_for_rest(var_id, a, b, p, break_id, body@, locals, n3)->0).0;
        assert(ops == pre + rest);
        assert(ops.take(pre.len() as int) =~= pre);
        let setup = seq![
            Op::Alloca { result: sv(n3), ty: MlirType::F64 },
            Op::Alloca { result: sv(n3 + 1), ty: MlirType::F64 },
            Op::Store { value: sv(a), slot: var_id.0 },
            Op::Store { value: sv(b), slot: sv(n3) },
            Op::Store { value: sv(p), slot: sv(n3 + 1) },
        ];
        let (bkops, c2, n4) = spec_and_not_broken(n3 + 7, break_id, locals, n3 + 10)->0;
        let (body_ops, n5) = spec_stmts(body@, locals, n4)->0;
        let lp = spec_for_loop(var_id.0 as nat, n3, n3 + 1, n3 + 2, bkops, c2, body_ops, n5);
        assert(rest == setup + lp);
        assert(ops.skip(pre.len() as int).take(5) =~= setup);
        assert(ops.skip(pre.len() + 5int) =~= lp);
    }
}

/// Whether Lua's comparison `op` holds of two numbers that compare as
/// `ord`: every comparison with a NaN is false but `~=`, which is true.
pub open spec fn lua_comparison_holds(op: BinOp, ord: FloatOrder) -> bool {
    match op {
        BinOp::Lt => ord is Less,
        BinOp::Le => ord is Less || ord is Equal,
        BinOp::Gt => ord is Greater,
        BinOp::Ge => ord is Greater || ord is Equal,
        BinOp::Eq => ord is Equal,
        _ => !(ord is Equal),
    }
}

/// Law: a comparison of two numbers is a final `arith.cmpf` of the
/// left operand's value with the right one's, whose predicate holds
/// exactly when the operator does (for `~=`, on values that are not
/// NaN: its `one` predicate is false on a NaN, where Lua's `~=` is
/// true); the result is a boolean.
pub proof fn law_comparison_means_operator(e: HirExpr, locals: Seq<LocalInfo>, n: nat)
    requires
        e.kind matches HirExprKind::BinOp { op, .. } && is_comparison(op),
        spec_expr(e, locals, n) is Some,
    ensures
        ({
            let op = e.kind->BinOp_op;
            let t = spec_expr(e, locals, n)->0;
            let l = spec_expr(*e.kind->lhs, locals, n)->0;
            let r = spec_expr(*e.kind->rhs, locals, l.3)->0;
            let last = t.0.last();
            &&& spec_expr(*e.kind->lhs, locals, n) is Some
            &&& spec_expr(*e.kind->rhs, locals, l.3) is Some
            &&& l.2 is Number && r.2 is Number
            &&& t.0.len() > 0 && last is Cmpf
            &&& last->Cmpf_lhs == sv(l.1) && last->Cmpf_rhs == sv(r.1)
            &&& last->Cmpf_result == sv(t.1)
            &&& t.2 is Bool
            &&& forall|ord: FloatOrder|
                !(op is Ne && ord is Unordered) ==> cmpf_holds(last->Cmpf_pred, ord)
                    == lua_comparison_holds(op, ord)
        }),
{
    if let HirExprKind::BinOp { op, lhs, rhs } = e.kind {
        let (lops, lv, lk, n1) = spec_expr(*lhs, locals, n)->0;
        let (rops, rv, rk, n2) = spec_expr(*rhs, locals, n1)->0;
        let t = spec_expr(e, locals, n)->0;
        assert(t.0 =~= lops + rops + seq![Op::Cmpf { result: sv(n2), pred: spec_cmpf(op), lhs: sv(lv), rhs: sv(rv) }]);
    }
}

/// Law: on two values that are ordered (neither is a NaN), `~=` holds
/// exactly when `==` does not.
pub proof fn law_ne_is_negated_eq(ord: FloatOrder)
    requires
        !(ord is Unordered),
    ensures
        cmpf_holds(CmpfPredicate::One, ord) == !cmpf_holds(CmpfPredicate::Oeq, ord),
{
}

/// Law: `a ~= b` and `a == b` emit the same operations but for the
/// predicate of the final comparison, `one` in place of `oeq`.
pub proof fn law_ne_and_eq_emit_alike(ne: HirExpr, eq: HirExpr, locals: Seq<LocalInfo>, n: nat)
    requires
        ne.kind matches HirExprKind::BinOp { op, .. } && op is Ne,
        eq.kind matches HirExprKind::BinOp { op, .. } && op is Eq,
        ne.kind->lhs == eq.kind->lhs,
        ne.kind->rhs == eq.kind->rhs,
        spec_expr(eq, locals, n) is Some,
    ensures
        spec_expr(ne, locals, n) is Some,
        ({
            let t_ne = spec_expr(ne, locals, n)->0;
            let t_eq = spec_expr(eq, locals, n)->0;
            let last = t_eq.0.last();
            &&& last is Cmpf && last->Cmpf_pred == CmpfPredicate::Oeq
            &&& t_ne.0 == t_eq.0.drop_last().push(
                Op::Cmpf { result: last->Cmpf_result, pred: CmpfPredicate::One, lhs: last->Cmpf_lhs, rhs: last->Cmpf_rhs },
            )
            &&& t_ne.1 == t_eq.1 && t_ne.2 == t_eq.2 && t_ne.3 == t_eq.3
        }),
{
    if let HirExprKind::BinOp { op, lhs, rhs } = eq.kind {
        let (lops, lv, lk, n1) = spec_expr(*lhs, locals, n)->0;
        let (rops, rv, rk, n2) = spec_expr(*rhs, locals, n1)->0;
        let t_ne = spec_expr(ne, locals, n)->0;
        let t_eq = spec_expr(eq, locals, n)->0;
        assert(t_eq.0.drop_last() =~= lops + rops);
        assert(t_ne.0 =~= t_eq.0.drop_last().push(
            Op::Cmpf { result: sv(n2), pred: CmpfPredicate::One, lhs: sv(lv), rhs: sv(rv) },
        ));
    }
}


/// The SSA number an operation defines, if it defines one.
pub open spec fn op_result(op: Op) -> Option<usize> {
    match op {
        Op::Alloca { result, .. } => Some(result),
        Op::ConstF64 { result, .. } => Some(result),
        Op::ConstI1 { result, .. } => Some(result),
        Op::ConstI64 { result, .. } => Some(result),
        Op::Load { result, .. } => Some(result),
        Op::Binary { result, .. } => Some(result),
        Op::Negf { result, .. } => Some(result),
        Op::Cmpf { result, .. } => Some(result),
        Op::FpToSi { result, .. } => Some(result),
        Op::SiToFp { result, .. } => Some(result),
        Op::Call1 { result, .. } => Some(result),
        Op::Call2 { result, .. } => Some(result),
        Op::IfValue { result, .. } => Some(result),
        _ => None,
    }
}

/// The SSA numbers a list of operations defines, in order.
pub open spec fn results(ops: Seq<Op>) -> Seq<usize>
    decreases ops.len(),
{
    if ops.len() == 0 {
        Seq::empty()
    } else {
        results(ops.drop_last()) + match op_result(ops.last()) {
            Some(r) => seq![r],
            None => Seq::empty(),
        }
    }
}

/// The numbers `from, from + 1, ..., to - 1`.
pub open spec fn numbered(from: nat, to: nat) -> Seq<usize> {
    Seq::new((to - from) as nat, |i: int| sv((from + i) as nat))
}

proof fn lemma_results_concat(a: Seq<Op>, b: Seq<Op>)
    ensures
        results(a + b) == results(a) + results(b),
    decreases b.len(),
{
    if b.len() == 0 {
        assert(a + b =~= a);
        assert(results(a) + results(b) =~= results(a));
    } else {
        lemma_results_concat(a, b.drop_last());
        assert((a + b).drop_last() =~= a + b.drop_last());
        assert((a + b).last() == b.last());
        assert(results(a) + results(b.drop_last()) + match op_result(b.last()) {
            Some(r) => seq![r],
            None => Seq::<usize>::empty(),
        } =~= results(a) + (results(b.drop_last()) + match op_result(b.last()) {
            Some(r) => seq![r],
            None => Seq::<usize>::empty(),
        }));
    }
}

proof fn lemma_results_one(op: Op)
    ensures
        results(seq![op]) == match op_result(op) {
            Some(r) => seq![r],
            None => Seq::<usize>::empty(),
        },
{
    assert(seq![op].drop_last() =~= Seq::<Op>::empty());
    assert(results(Seq::<Op>::empty()) + match op_result(op) {
        Some(r) => seq![r],
        None => Seq::<usize>::empty(),
    } =~= match op_result(op) {
        Some(r) => seq![r],
        None => Seq::<usize>::empty(),
    });
}

proof fn lemma_results_two(a: Op, b: Op)
    ensures
        results(seq![a, b]) == results(seq![a]) + results(seq![b]),
{
    assert(seq![a, b] =~= seq![a] + seq![b]);
    lemma_results_concat(seq![a], seq![b]);
}

proof fn lemma_numbered_concat(a: nat, b: nat, c: nat)
    requires
        a <= b <= c,
    ensures
        numbered(a, b) + numbered(b, c) == numbered(a, c),
{
    assert(numbered(a, b) + numbered(b, c) =~= numbered(a, c));
}

proof fn lemma_numbered_one(a: nat)
    ensures
        numbered(a, a + 1) == seq![sv(a)],
{
    assert(numbered(a, a + 1) =~= seq![sv(a)]);
}

proof fn lemma_truth_numbering(v: nat, k: ValueKind, n: nat)
    ensures
        results(spec_truth(v, k, n).0) == numbered(n, spec_truth(v, k, n).2),
        n <= spec_truth(v, k, n).2,
{
    match k {
        ValueKind::Bool => {
            assert(results(Seq::<Op>::empty()) =~= numbered(n, n));
        },
        _ => {
            lemma_results_one(spec_truth(v, k, n).0[0]);
            assert(spec_truth(v, k, n).0 =~= seq![spec_truth(v, k, n).0[0]]);
            lemma_numbered_one(n);
        },
    }
}


proof fn lemma_results_consecutive(ops: Seq<Op>, n: nat)
    requires
        forall|i: int| 0 <= i < ops.len() ==> op_result(#[trigger] ops[i]) == Some(sv((n + i) as nat)),
    ensures
        results(ops) == numbered(n, n + ops.len()),
    decreases ops.len(),
{
    if ops.len() > 0 {
        lemma_results_consecutive(ops.drop_last(), n);
        assert(op_result(ops.last()) == Some(sv((n + ops.len() - 1) as nat)));
        assert(numbered(n, (n + ops.len() - 1) as nat) + seq![sv((n + ops.len() - 1) as nat)]
            =~= numbered(n, n + ops.len()));
    } else {
        assert(numbered(n, n) =~= Seq::<usize>::empty());
    }
}

proof fn lemma_results_silent(ops: Seq<Op>)
    requires
        forall|i: int| 0 <= i < ops.len() ==> op_result(#[trigger] ops[i]) is None,
    ensures
        results(ops) == Seq::<usize>::empty(),
    decreases ops.len(),
{
    if ops.len() > 0 {
        lemma_results_silent(ops.drop_last());
        assert(op_result(ops.last()) is None);
        assert(Seq::<usize>::empty() + Seq::<usize>::empty() =~= Seq::<usize>::empty());
    }
}

/// Numbering of `a and b` / `a or b` from that of its operands.
proof fn lemma_logical_numbering(e: HirExpr, locals: Seq<LocalInfo>, n: nat)
    requires
        e.kind matches HirExprKind::BinOp { op, .. } && (op is And || op is Or),
        spec_expr(e, locals, n) is Some,
        e.kind matches HirExprKind::BinOp { lhs, rhs, .. } && ({
            let (lops, lv, lk, n1) = spec_expr(*lhs, locals, n)->0;
            let n2 = spec_truth(lv, lk, n1).2;
            let (rops, rv, rk, n3) = spec_expr(*rhs, locals, n2 + 1)->0;
            &&& results(lops) == numbered(n, n1) && n <= n1
            &&& results(rops) == numbered(n2 + 1, n3) && n2 + 1 <= n3
        }),
    ensures
        results((spec_expr(e, locals, n)->0).0) == numbered(n, (spec_expr(e, locals, n)->0).3),
{
    if let HirExprKind::BinOp { op, lhs, rhs } = e.kind {
        let (lops, lv, lk, n1) = spec_expr(*lhs, locals, n)->0;
        let (tops, tv, n2) = spec_truth(lv, lk, n1);
        lemma_truth_numbering(lv, lk, n1);
        let (rops, rv, rk, n3) = spec_expr(*rhs, locals, n2 + 1)->0;
        let open = seq![Op::IfValue { result: sv(n2), cond: sv(tv), ty: spec_kind_to_mlir_type(lk) }];
        lemma_results_consecutive(open, n2);
        lemma_results_concat(lops, tops);
        lemma_results_concat(lops + tops, spec_short_circuit(op is And, n2, tv, lv, lk, rops, rv));
        if op is And {
            let close = seq![
                Op::YieldValue { value: sv(rv) },
                Op::Else,
                Op::YieldValue { value: sv(lv) },
                Op::EndIf,
            ];
            lemma_results_silent(close);
            lemma_results_concat(open, rops);
            lemma_results_concat(open + rops, close);
        } else {
            let mid = seq![Op::YieldValue { value: sv(lv) }, Op::Else];
            let close = seq![Op::YieldValue { value: sv(rv) }, Op::EndIf];
            lemma_results_silent(mid);
            lemma_results_silent(close);
            lemma_results_concat(open, mid);
            lemma_results_concat(open + mid, rops);
            lemma_results_concat(open + mid + rops, close);
        }
        lemma_numbered_concat(n, n1, n2);
        lemma_numbered_concat(n, n2, n2 + 1);
        lemma_numbered_concat(n, n2 + 1, n3);
    }
}

/// Numbering of an arithmetic, bitwise or comparison operator from
/// that of its operands.
proof fn lemma_binary_numbering(e: HirExpr, locals: Seq<LocalInfo>, n: nat)
    requires
        e.kind matches HirExprKind::BinOp { op, .. } && !(op is And || op is Or),
        spec_expr(e, locals, n) is Some,
        e.kind matches HirExprKind::BinOp { lhs, rhs, .. } && ({
            let (lops, lv, lk, n1) = spec_expr(*lhs, locals, n)->0;
            let (rops, rv, rk, n2) = spec_expr(*rhs, locals, n1)->0;
            &&& results(lops) == numbered(n, n1) && n <= n1
            &&& results(rops) == numbered(n1, n2) && n1 <= n2
        }),
    ensures
        results((spec_expr(e, locals, n)->0).0) == numbered(n, (spec_expr(e, locals, n)->0).3),
{
    if let HirExprKind::BinOp { op, lhs, rhs } = e.kind {
        let (lops, lv, lk, n1) = spec_expr(*lhs, locals, n)->0;
        let (rops, rv, rk, n2) = spec_expr(*rhs, locals, n1)->0;
        let (aops, a, n3) = spec_arith(op, lv, rv, n2)->0;
        lemma_results_consecutive(aops, n2);
        lemma_results_concat(lops, rops);
        lemma_results_concat(lops + rops, aops);
        lemma_numbered_concat(n, n1, n2);
        lemma_numbered_concat(n, n2, n3);
    }
}

/// Numbering of a unary operator from that of its operand.
proof fn lemma_unary_numbering(e: HirExpr, locals: Seq<LocalInfo>, n: nat)
    requires
        e.kind is UnaryOp,
        spec_expr(e, locals, n) is Some,
        e.kind matches HirExprKind::UnaryOp { operand, .. } && ({
            let (ops, v, k, n1) = spec_expr(*operand, locals, n)->0;
            results(ops) == numbered(n, n1) && n <= n1
        }),
    ensures
        results((spec_expr(e, locals, n)->0).0) == numbered(n, (spec_expr(e, locals, n)->0).3),
{
    if let HirExprKind::UnaryOp { op, operand } = e.kind {
        let (ops, v, k, n1) = spec_expr(*operand, locals, n)->0;
        let t = spec_expr(e, locals, n)->0;
        match op {
            UnaryOp::Not => {
                let (tops, tv, n2) = spec_truth(v, k, n1);
                lemma_truth_numbering(v, k, n1);
                let tail = seq![
                    Op::ConstI1 { result: sv(n2), flag: true },
                    Op::Binary { result: sv(n2 + 1), op: ArithOp::Xori, lhs: sv(tv), rhs: sv(n2) },
                ];
                lemma_results_consecutive(tail, n2);
                lemma_results_concat(ops, tops);
                lemma_results_concat(ops + tops, tail);
                lemma_numbered_concat(n, n1, n2);
                lemma_numbered_concat(n, n2, n2 + 2);
            },
            _ => {
                let tail = t.0.skip(ops.len() as int);
                assert(t.0 =~= ops + tail);
                lemma_results_consecutive(tail, n1);
                lemma_results_concat(ops, tail);
                lemma_numbered_concat(n, n1, t.3);
            },
        }
    }
}

/// Law: the operations emitted for an expression define the SSA
/// numbers `n, n + 1, ...` up to the next free number, each once and
/// in the order the operations appear.
pub proof fn law_expr_numbering(e: HirExpr, locals: Seq<LocalInfo>, n: nat)
    requires
        spec_expr(e, locals, n) is Some,
    ensures
        results((spec_expr(e, locals, n)->0).0) == numbered(n, (spec_expr(e, locals, n)->0).3),
    decreases e,
{
    let t = spec_expr(e, locals, n)->0;
    match e.kind {
        HirExprKind::BinOp { op, lhs, rhs } => {
            let (lops, lv, lk, n1) = spec_expr(*lhs, locals, n)->0;
            law_expr_numbering(*lhs, locals, n);
            lemma_expr_mono(*lhs, locals, n);
            if op is And || op is Or {
                let n2 = spec_truth(lv, lk, n1).2;
                lemma_truth_numbering(lv, lk, n1);
                law_expr_numbering(*rhs, locals, n2 + 1);
                lemma_expr_mono(*rhs, locals, n2 + 1);
                lemma_logical_numbering(e, locals, n);
            } else {
                law_expr_numbering(*rhs, locals, n1);
                lemma_expr_mono(*rhs, locals, n1);
                lemma_binary_numbering(e, locals, n);
            }
        },
        HirExprKind::UnaryOp { op, operand } => {
            law_expr_numbering(*operand, locals, n);
            lemma_expr_mono(*operand, locals, n);
            lemma_unary_numbering(e, locals, n);
        },
        HirExprKind::Call { callee, args } => {
            let (pops, n1) = spec_print_args(args@, locals, n)->0;
            lemma_print_args_numbering(args@, locals, n);
            lemma_print_args_mono(args@, locals, n);
            let tail = seq![Op::PrintNewline, Op::ConstF64 { result: sv(n1), bits: 0 }];
            lemma_results_two(tail[0], tail[1]);
            assert(tail =~= seq![tail[0], tail[1]]);
            lemma_results_one(tail[0]);
            lemma_results_one(tail[1]);
            lemma_results_concat(pops, tail);
            lemma_numbered_one(n1);
            lemma_numbered_concat(n, n1, n1 + 1);
            assert(Seq::<usize>::empty() + seq![sv(n1)] =~= seq![sv(n1)]);
        },
        _ => {
            lemma_results_consecutive(t.0, n);
        },
    }
}

proof fn lemma_print_args_numbering(args: Seq<HirExpr>, locals: Seq<LocalInfo>, n: nat)
    requires
        spec_print_args(args, locals, n) is Some,
    ensures
        results((spec_print_args(args, locals, n)->0).0) == numbered(n, (spec_print_args(args, locals, n)->0).1),
    decreases args,
{
    if args.len() == 0 {
        assert(results(Seq::<Op>::empty()) =~= numbered(n, n));
    } else {
        let (pops, n1) = spec_print_args(args.drop_last(), locals, n)->0;
        lemma_print_args_numbering(args.drop_last(), locals, n);
        lemma_print_args_mono(args.drop_last(), locals, n);
        let (eops, v, k, n2) = spec_expr(args.last(), locals, n1)->0;
        law_expr_numbering(args.last(), locals, n1);
        lemma_expr_mono(args.last(), locals, n1);
        let sep = if args.len() > 1 {
            seq![Op::PrintTab]
        } else {
            Seq::<Op>::empty()
        };
        let pv = seq![spec_print_value(v, k)];
        lemma_results_silent(sep);
        lemma_results_silent(pv);
        lemma_results_concat(pops, sep);
        lemma_results_concat(pops + sep, eops);
        lemma_results_concat(pops + sep + eops, pv);
        lemma_numbered_concat(n, n1, n2);
    }
}


proof fn lemma_and_not_broken_numbering(c: nat, brk: Option<LocalId>, locals: Seq<LocalInfo>, n: nat)
    requires
        spec_and_not_broken(c, brk, locals, n) is Some,
    ensures
        results((spec_and_not_broken(c, brk, locals, n)->0).0) == numbered(n, (spec_and_not_broken(c, brk, locals, n)->0).2),
        n <= (spec_and_not_broken(c, brk, locals, n)->0).2,
{
    let t = spec_and_not_broken(c, brk, locals, n)->0;
    lemma_results_consecutive(t.0, n);
}

/// Results of `a + b + c` where the pieces are numbered one after the other.
proof fn lemma_results_chain3(a: Seq<Op>, b: Seq<Op>, c: Seq<Op>, x: nat, y: nat, z: nat, w: nat)
    requires
        results(a) == numbered(x, y),
        results(b) == numbered(y, z),
        results(c) == numbered(z, w),
        x <= y <= z <= w,
    ensures
        results(a + b + c) == numbered(x, w),
{
    lemma_results_concat(a, b);
    lemma_results_concat(a + b, c);
    lemma_numbered_concat(x, y, z);
    lemma_numbered_concat(x, z, w);
}

proof fn lemma_results_closers(k: nat)
    ensures
        results(spec_closers(k)) == Seq::<usize>::empty(),
    decreases k,
{
    if k > 0 {
        lemma_results_closers((k - 1) as nat);
        lemma_results_silent(seq![Op::EndIf, Op::Yield]);
        lemma_results_concat(spec_closers((k - 1) as nat), seq![Op::EndIf, Op::Yield]);
    }
}

proof fn lemma_empty_numbered(n: nat)
    ensures
        numbered(n, n) == Seq::<usize>::empty(),
        results(Seq::<Op>::empty()) == Seq::<usize>::empty(),
{
    assert(numbered(n, n) =~= Seq::<usize>::empty());
}

/// The operations of an `if` from those of its parts.
pub open spec fn spec_if_parts(st: HirStmt, locals: Seq<LocalInfo>, n: nat) -> (Seq<Op>, Seq<Op>, Seq<Op>, Seq<Op>, nat, nat, nat, nat) {
    match st.kind {
        HirStmtKind::If { cond, then_body, .. } => {
            let (cops, c, ck, n1) = spec_expr(cond, locals, n)->0;
            let (tops, tv, n2) = spec_truth(c, ck, n1);
            let (bops, n3) = spec_stmts(then_body@, locals, n2)->0;
            let (tail, n5) = spec_if_tail(st, locals, n3)->0;
            (cops + tops, seq![Op::If { cond: sv(tv) }], bops, tail, n1, n2, n3, n5)
        },
        _ => (Seq::empty(), Seq::empty(), Seq::empty(), Seq::empty(), n, n, n, n),
    }
}

proof fn lemma_if_shape(st: HirStmt, locals: Seq<LocalInfo>, n: nat)
    requires
        st.kind is If,
        spec_stmt(st, locals, n) is Some,
    ensures
        ({
            let (head, open, bops, tail, n1, n2, n3, n5) = spec_if_parts(st, locals, n);
            spec_stmt(st, locals, n)->0 == (head + open + bops + seq![Op::Yield, Op::Else] + tail, n5)
        }),
{
}

/// Numbering of an `if` from that of its then-body and else-region.
#[verifier::rlimit(100)]
#[verifier::spinoff_prover]
proof fn lemma_if_numbering(st: HirStmt, locals: Seq<LocalInfo>, n: nat)
    requires
        st.kind is If,
        spec_stmt(st, locals, n) is Some,
        ({
            let (head, open, bops, tail, n1, n2, n3, n5) = spec_if_parts(st, locals, n);
            &&& results(head) == numbered(n, n2) && n <= n2
            &&& results(bops) == numbered(n2, n3) && n2 <= n3
            &&& results(tail) == numbered(n3, n5) && n3 <= n5
        }),
    ensures
        results((spec_stmt(st, locals, n)->0).0) == numbered(n, (spec_stmt(st, locals, n)->0).1),
        n <= (spec_stmt(st, locals, n)->0).1,
{
    lemma_if_shape(st, locals, n);
    let (head, open, bops, tail, n1, n2, n3, n5) = spec_if_parts(st, locals, n);
    let mid = seq![Op::Yield, Op::Else];
    lemma_results_silent(open);
    lemma_results_silent(mid);
    lemma_empty_numbered(n2);
    lemma_empty_numbered(n3);
    lemma_results_chain3(head, open, bops, n, n2, n2, n3);
    lemma_results_chain3(head + open + bops, mid, tail, n, n3, n3, n5);
}

/// Numbering of a `while` from that of its body.
#[verifier::rlimit(100)]
#[verifier::spinoff_prover]
proof fn lemma_while_numbering(st: HirStmt, locals: Seq<LocalInfo>, n: nat)
    requires
        st.kind is While,
        spec_stmt(st, locals, n) is Some,
        st.kind matches HirStmtKind::While { cond, body, break_id } && ({
            let (cops, c, ck, n1) = spec_expr(cond, locals, n)->0;
            let (tops, tv, n2) = spec_truth(c, ck, n1);
            let n3 = (spec_and_not_broken(tv, break_id, locals, n2)->0).2;
            let (bops, n4) = spec_stmts(body@, locals, n3)->0;
            results(bops) == numbered(n3, n4) && n3 <= n4
        }),
    ensures
        results((spec_stmt(st, locals, n)->0).0) == numbered(n, (spec_stmt(st, locals, n)->0).1),
        n <= (spec_stmt(st, locals, n)->0).1,
{
    lemma_empty_numbered(n);
    if let HirStmtKind::While { cond, body, break_id } = st.kind {
            let (cops, c, ck, n1) = spec_expr(cond, locals, n)->0;
            law_expr_numbering(cond, locals, n);
            lemma_expr_mono(cond, locals, n);
            let (tops, tv, n2) = spec_truth(c, ck, n1);
            lemma_truth_numbering(c, ck, n1);
            let (bkops, c2, n3) = spec_and_not_broken(tv, break_id, locals, n2)->0;
            lemma_and_not_broken_numbering(tv, break_id, locals, n2);
            let (bops, n4) = spec_stmts(body@, locals, n3)->0;
            let head = seq![Op::While];
            let mid = seq![Op::Condition { cond: sv(c2) }, Op::Do];
            let close = seq![Op::Yield, Op::EndWhile];
            lemma_results_silent(head);
            lemma_results_silent(mid);
            lemma_results_silent(close);
            lemma_empty_numbered(n3);
            lemma_empty_numbered(n4);
            lemma_results_chain3(head, cops, tops, n, n, n1, n2);
            lemma_results_chain3(head + cops + tops, bkops, mid, n, n2, n3, n3);
            lemma_results_chain3(head + cops + tops + bkops + mid, bops, close, n, n3, n4, n4);
    }
}

/// Numbering of a `repeat` from that of its body.
#[verifier::rlimit(100)]
#[verifier::spinoff_prover]
proof fn lemma_repeat_numbering(st: HirStmt, locals: Seq<LocalInfo>, n: nat)
    requires
        st.kind is Repeat,
        spec_stmt(st, locals, n) is Some,
        st.kind matches HirStmtKind::Repeat { body, .. } && ({
            let (bops, n1) = spec_stmts(body@, locals, n)->0;
            results(bops) == numbered(n, n1) && n <= n1
        }),
    ensures
        results((spec_stmt(st, locals, n)->0).0) == numbered(n, (spec_stmt(st, locals, n)->0).1),
        n <= (spec_stmt(st, locals, n)->0).1,
{
    lemma_empty_numbered(n);
    if let HirStmtKind::Repeat { body, cond, break_id } = st.kind {
            let (bops, n1) = spec_stmts(body@, locals, n)->0;
            let (cops, c, ck, n2) = spec_expr(cond, locals, n1)->0;
            law_expr_numbering(cond, locals, n1);
            lemma_expr_mono(cond, locals, n1);
            let (tops, tv, n3) = spec_truth(c, ck, n2);
            lemma_truth_numbering(c, ck, n2);
            let neg = seq![
                Op::ConstI1 { result: sv(n3), flag: true },
                Op::Binary { result: sv(n3 + 1), op: ArithOp::Xori, lhs: sv(tv), rhs: sv(n3) },
            ];
            lemma_results_consecutive(neg, n3);
            let (bkops, c2, n4) = spec_and_not_broken(n3 + 1, break_id, locals, n3 + 2)->0;
            lemma_and_not_broken_numbering(n3 + 1, break_id, locals, n3 + 2);
            let head = seq![Op::While];
            let close = seq![Op::Condition { cond: sv(c2) }, Op::Do, Op::Yield, Op::EndWhile];
            lemma_results_silent(head);
            lemma_results_silent(close);
            lemma_empty_numbered(n4);
            lemma_results_chain3(head, bops, cops, n, n, n1, n2);
            lemma_results_chain3(head + bops + cops, tops, neg, n, n2, n3, n3 + 2);
            lemma_results_chain3(head + bops + cops + tops + neg, bkops, close, n, n3 + 2, n4, n4);
    }
}

/// Law: the operations emitted for a statement define the SSA numbers
/// `n, n + 1, ...` up to the next free number, each once and in order.
#[verifier::rlimit(100)]
#[verifier::spinoff_prover]
pub proof fn law_stmt_numbering(st: HirStmt, locals: Seq<LocalInfo>, n: nat)
    requires
        spec_stmt(st, locals, n) is Some,
    ensures
        results((spec_stmt(st, locals, n)->0).0) == numbered(n, (spec_stmt(st, locals, n)->0).1),
        n <= (spec_stmt(st, locals, n)->0).1,
    decreases st, 1nat,
{
    lemma_empty_numbered(n);
    match st.kind {
        HirStmtKind::LocalInit { id, value } => {
            lemma_assign_numbering(id, value, locals, n);
        },
        HirStmtKind::Assign { id, value } => {
            lemma_assign_numbering(id, value, locals, n);
        },
        HirStmtKind::Block { stmts } => {
            lemma_stmts_numbering(stmts@, locals, n);
        },
        HirStmtKind::If { cond, then_body, .. } => {
            let (cops, c, ck, n1) = spec_expr(cond, locals, n)->0;
            law_expr_numbering(cond, locals, n);
            lemma_expr_mono(cond, locals, n);
            let (tops, tv, n2) = spec_truth(c, ck, n1);
            lemma_truth_numbering(c, ck, n1);
            lemma_results_concat(cops, tops);
            lemma_numbered_concat(n, n1, n2);
            lemma_stmts_numbering(then_body@, locals, n2);
            let n3 = (spec_stmts(then_body@, locals, n2)->0).1;
            lemma_if_tail_numbering(st, locals, n3);
            lemma_if_numbering(st, locals, n);
        },
        HirStmtKind::While { cond, body, break_id } => {
            let (cops, c, ck, n1) = spec_expr(cond, locals, n)->0;
            lemma_expr_mono(cond, locals, n);
            let (tops, tv, n2) = spec_truth(c, ck, n1);
            lemma_truth_numbering(c, ck, n1);
            let n3 = (spec_and_not_broken(tv, break_id, locals, n2)->0).2;
            lemma_and_not_broken_numbering(tv, break_id, locals, n2);
            lemma_stmts_numbering(body@, locals, n3);
            lemma_while_numbering(st, locals, n);
        },
        HirStmtKind::Repeat { body, .. } => {
            lemma_stmts_numbering(body@, locals, n);
            lemma_repeat_numbering(st, locals, n);
        },
        HirStmtKind::ForNumeric { var_id, start, stop, step, body, break_id } => {
            let (aops, a, ak, n1) = spec_expr(start, locals, n)->0;
            law_expr_numbering(start, locals, n);
            lemma_expr_mono(start, locals, n);
            let (bops0, b, bk, n2) = spec_expr(stop, locals, n1)->0;
            law_expr_numbering(stop, locals, n1);
            lemma_expr_mono(stop, locals, n1);
            let (pops, p, pk, n3) = spec_expr(step, locals, n2)->0;
            law_expr_numbering(step, locals, n2);
            lemma_expr_mono(step, locals, n2);
            let (rest, n5) = spec_for_rest(var_id, a, b, p, break_id, body@, locals, n3)->0;
            lemma_for_rest_numbering(var_id, a, b, p, break_id, body@, locals, n3);
            lemma_results_chain3(aops, bops0, pops, n, n1, n2, n3);
            lemma_results_concat(aops + bops0 + pops, rest);
            lemma_numbered_concat(n, n3, n5);
        },
        HirStmtKind::ExprStmt(e) => {
            law_expr_numbering(e, locals, n);
            lemma_expr_mono(e, locals, n);
        },
        _ => {},
    }
}

proof fn lemma_assign_numbering(id: LocalId, value: HirExpr, locals: Seq<LocalInfo>, n: nat)
    requires
        spec_assign(id, value, locals, n) is Some,
    ensures
        results((spec_assign(id, value, locals, n)->0).0) == numbered(n, (spec_assign(id, value, locals, n)->0).1),
        n <= (spec_assign(id, value, locals, n)->0).1,
{
    let (ops, v, k, n1) = spec_expr(value, locals, n)->0;
    law_expr_numbering(value, locals, n);
    lemma_expr_mono(value, locals, n);
    let st = seq![Op::Store { value: sv(v), slot: id.0 }];
    lemma_results_silent(st);
    lemma_results_concat(ops, st);
    assert(numbered(n, n1) + Seq::<usize>::empty() =~= numbered(n, n1));
}

proof fn lemma_stmts_numbering(ss: Seq<HirStmt>, locals: Seq<LocalInfo>, n: nat)
    requires
        spec_stmts(ss, locals, n) is Some,
    ensures
        results((spec_stmts(ss, locals, n)->0).0) == numbered(n, (spec_stmts(ss, locals, n)->0).1),
        n <= (spec_stmts(ss, locals, n)->0).1,
    decreases ss, 1nat,
{
    lemma_empty_numbered(n);
    if ss.len() > 0 {
        let (ops, n1) = spec_stmts(ss.drop_last(), locals, n)->0;
        lemma_stmts_numbering(ss.drop_last(), locals, n);
        let (sops, n2) = spec_stmt(ss.last(), locals, n1)->0;
        law_stmt_numbering(ss.last(), locals, n1);
        lemma_results_concat(ops, sops);
        lemma_numbered_concat(n, n1, n2);
    }
}

proof fn lemma_elifs_numbering(arms: Seq<(HirExpr, Vec<HirStmt>)>, locals: Seq<LocalInfo>, n: nat)
    requires
        spec_elifs(arms, locals, n) is Some,
    ensures
        results((spec_elifs(arms, locals, n)->0).0) == numbered(n, (spec_elifs(arms, locals, n)->0).1),
        n <= (spec_elifs(arms, locals, n)->0).1,
    decreases arms, 1nat,
{
    lemma_empty_numbered(n);
    if arms.len() > 0 {
        let (pops, n1) = spec_elifs(arms.drop_last(), locals, n)->0;
        lemma_elifs_numbering(arms.drop_last(), locals, n);
        let arm = arms.last();
        let (cops, c, ck, n2) = spec_expr(arm.0, locals, n1)->0;
        law_expr_numbering(arm.0, locals, n1);
        lemma_expr_mono(arm.0, locals, n1);
        let (tops, tv, n3) = spec_truth(c, ck, n2);
        lemma_truth_numbering(c, ck, n2);
        let (bops, n4) = spec_stmts(arm.1@, locals, n3)->0;
        lemma_stmts_numbering(arm.1@, locals, n3);
        let open = seq![Op::If { cond: sv(tv) }];
        let mid = seq![Op::Yield, Op::Else];
        lemma_results_silent(open);
        lemma_results_silent(mid);
        lemma_empty_numbered(n3);
        lemma_results_chain3(pops, cops, tops, n, n1, n2, n3);
        lemma_results_chain3(pops + cops + tops, open, bops, n, n3, n3, n4);
        lemma_results_concat(pops + cops + tops + open + bops, mid);
        assert(numbered(n, n4) + Seq::<usize>::empty() =~= numbered(n, n4));
    }
}

proof fn lemma_if_tail_numbering(st: HirStmt, locals: Seq<LocalInfo>, n3: nat)
    requires
        spec_if_tail(st, locals, n3) is Some,
    ensures
        results((spec_if_tail(st, locals, n3)->0).0) == numbered(n3, (spec_if_tail(st, locals, n3)->0).1),
        n3 <= (spec_if_tail(st, locals, n3)->0).1,
    decreases st, 0nat,
{
    lemma_empty_numbered(n3);
    if let HirStmtKind::If { elifs, else_body, .. } = st.kind {
        let (eops, n4) = spec_elifs(elifs@, locals, n3)->0;
        lemma_elifs_numbering(elifs@, locals, n3);
        lemma_empty_numbered(n4);
        let (lops, n5) = (match else_body {
            Some(b) => spec_stmts(b@, locals, n4),
            None => Some((Seq::<Op>::empty(), n4)),
        })->0;
        match else_body {
            Some(b) => {
                lemma_stmts_numbering(b@, locals, n4);
            },
            None => {},
        }
        let y = seq![Op::Yield];
        let e = seq![Op::EndIf];
        lemma_results_silent(y);
        lemma_results_silent(e);
        lemma_results_closers(elifs@.len());
        lemma_empty_numbered(n5);
        lemma_results_chain3(eops, lops, y, n3, n4, n5, n5);
        lemma_results_chain3(eops + lops + y, spec_closers(elifs@.len()), e, n3, n5, n5, n5);
    }
}

#[verifier::rlimit(100)]
#[verifier::spinoff_prover]
proof fn lemma_for_rest_numbering(
    var_id: LocalId,
    a: nat,
    b: nat,
    p: nat,
    break_id: Option<LocalId>,
    body: Seq<HirStmt>,
    locals: Seq<LocalInfo>,
    n3: nat,
)
    requires
        spec_for_rest(var_id, a, b, p, break_id, body, locals, n3) is Some,
    ensures
        results((spec_for_rest(var_id, a, b, p, break_id, body, locals, n3)->0).0) == numbered(
            n3,
            (spec_for_rest(var_id, a, b, p, break_id, body, locals, n3)->0).1,
        ),
        n3 <= (spec_for_rest(var_id, a, b, p, break_id, body, locals, n3)->0).1,
    decreases body, 2nat,
{
    let setup = seq![
        Op::Alloca { result: sv(n3), ty: MlirType::F64 },
        Op::Alloca { result: sv(n3 + 1), ty: MlirType::F64 },
        Op::Store { value: sv(a), slot: var_id.0 },
        Op::Store { value: sv(b), slot: sv(n3) },
        Op::Store { value: sv(p), slot: sv(n3 + 1) },
    ];
    let allocs = seq![
        Op::Alloca { result: sv(n3), ty: MlirType::F64 },
        Op::Alloca { result: sv(n3 + 1), ty: MlirType::F64 },
    ];
    let stores = seq![
        Op::Store { value: sv(a), slot: var_id.0 },
        Op::Store { value: sv(b), slot: sv(n3) },
        Op::Store { value: sv(p), slot: sv(n3 + 1) },
    ];
    assert(setup =~= allocs + stores);
    lemma_results_consecutive(allocs, n3);
    lemma_results_silent(stores);
    lemma_results_concat(allocs, stores);
    let (bkops, c2, n4) = spec_and_not_broken(n3 + 7, break_id, locals, n3 + 10)->0;
    lemma_and_not_broken_numbering(n3 + 7, break_id, locals, n3 + 10);
    let (body_ops, n5) = spec_stmts(body, locals, n4)->0;
    lemma_stmts_numbering(body, locals, n4);
    let test = spec_for_test(var_id.0 as nat, n3, n3 + 1, n3 + 2);
    let step = spec_for_step(var_id.0 as nat, n3 + 1, n5);
    reveal(spec_for_test);
    reveal(spec_for_step);
    lemma_results_test(test, n3 + 2);
    lemma_results_step(step, n5);
    let head = seq![Op::While];
    let mid = seq![Op::Condition { cond: sv(c2) }, Op::Do];
    let close = seq![Op::Yield, Op::EndWhile];
    lemma_results_silent(head);
    lemma_results_silent(mid);
    lemma_results_silent(close);
    lemma_empty_numbered(n3 + 2);
    lemma_results_chain3(allocs + stores, head, test, n3, n3 + 2, n3 + 2, n3 + 10);
    lemma_empty_numbered(n4);
    lemma_empty_numbered(n5 + 3);
    lemma_results_chain3(allocs + stores + head + test, bkops, mid, n3, n3 + 10, n4, n4);
    lemma_results_chain3(allocs + stores + head + test + bkops + mid, body_ops, step, n3, n4, n5, n5 + 3);
    lemma_results_concat(allocs + stores + head + test + bkops + mid + body_ops + step, close);
    assert(setup + spec_for_loop(var_id.0 as nat, n3, n3 + 1, n3 + 2, bkops, c2, body_ops, n5)
        =~= allocs + stores + head + test + bkops + mid + body_ops + step + close);
    assert(numbered(n3, n5 + 3) + Seq::<usize>::empty() =~= numbered(n3, n5 + 3));
}

proof fn lemma_results_test(test: Seq<Op>, m: nat)
    requires
        test == spec_for_test(test[0]->Load_slot as nat, test[1]->Load_slot as nat, test[2]->Load_slot as nat, m),
    ensures
        results(test) == numbered(m, m + 8),
{
    reveal(spec_for_test);
    let defs = seq![test[0], test[1], test[2], test[3], test[4], test[5], test[6]];
    let t1 = seq![test[7], test[8]];
    let d8 = seq![test[9]];
    let t2 = seq![test[10], test[11]];
    assert(test =~= defs + t1 + d8 + t2);
    lemma_results_consecutive(defs, m);
    lemma_results_silent(t1);
    lemma_results_consecutive(d8, m + 7);
    lemma_results_silent(t2);
    lemma_empty_numbered(m + 7);
    lemma_results_chain3(defs, t1, d8, m, m + 7, m + 7, m + 8);
    lemma_results_concat(defs + t1 + d8, t2);
    assert(numbered(m, m + 8) + Seq::<usize>::empty() =~= numbered(m, m + 8));
}

proof fn lemma_results_step(step: Seq<Op>, k: nat)
    requires
        step == spec_for_step(step[0]->Load_slot as nat, step[1]->Load_slot as nat, k),
    ensures
        results(step) == numbered(k, k + 3),
{
    reveal(spec_for_step);
    let defs = seq![step[0], step[1], step[2]];
    let st = seq![step[3]];
    assert(step =~= defs + st);
    lemma_results_consecutive(defs, k);
    lemma_results_silent(st);
    lemma_results_concat(defs, st);
    assert(numbered(k, k + 3) + Seq::<usize>::empty() =~= numbered(k, k + 3));
}

/// Law: the body of `@main` defines the SSA numbers `0, 1, ...` up to
/// its value count, each once and in order: first the slots of the
/// locals, then the values of the statements, then the exit code.
pub proof fn law_module_numbering(chunk: HirChunk)
    requires
        spec_module(chunk) is Some,
    ensures
        results((spec_module(chunk)->0).0) == numbered(0, (spec_module(chunk)->0).1),
{
    let locals = chunk.locals@;
    let (ops, n1) = spec_stmts(chunk.stmts@, locals, locals.len())->0;
    lemma_stmts_numbering(chunk.stmts@, locals, locals.len());
    let slots = spec_slots(locals);
    lemma_results_consecutive(slots, 0);
    let tail = seq![Op::ConstI64 { result: sv(n1), imm: 0 }, Op::Return { value: sv(n1) }];
    let t0 = seq![tail[0]];
    let t1 = seq![tail[1]];
    assert(tail =~= t0 + t1);
    lemma_results_consecutive(t0, n1);
    lemma_results_silent(t1);
    lemma_results_concat(t0, t1);
    assert(numbered(n1, n1 + 1) + Seq::<usize>::empty() =~= numbered(n1, n1 + 1));
    lemma_results_chain3(slots, ops, tail, 0, locals.len(), n1, n1 + 1);
}

} // verus!
