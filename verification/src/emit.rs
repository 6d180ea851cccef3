//! The pure decisions of the MLIR emitter: which comparison predicate
//! an operator lowers to, which operators go through the tagged
//! arithmetic dispatch, which MLIR type a value kind is given, how a
//! callee's results are returned, and the module's string-literal pool.

use vstd::prelude::*;

use crate::callabi::{MlirType, ValueKind};
use crate::hir::{BinOp, HirExpr, HirExprKind, LocalId, LocalInfo};

pub use crate::strpool::collect_string_pool;

verus! {

/// Floating-point comparison predicates: the ordered ones, false on a
/// NaN operand as Lua's comparisons require, and `une`, true on a NaN
/// operand, with which the emitter tests for NaN.
#[derive(Clone, Copy, Debug, PartialEq, Eq, Structural)]
pub enum CmpfPredicate {
    Olt,
    Ole,
    Ogt,
    Oge,
    Oeq,
    One,
    Une,
}

/// The six comparison operators.
pub open spec fn is_comparison(op: BinOp) -> bool {
    op is Lt || op is Le || op is Gt || op is Ge || op is Eq || op is Ne
}

/// Ordered `arith.cmpf` predicate for a comparison operator.
pub fn cmpf_predicate(op: BinOp) -> (r: CmpfPredicate)
    requires
        is_comparison(op),
    ensures
        op is Lt ==> r is Olt,
        op is Le ==> r is Ole,
        op is Gt ==> r is Ogt,
        op is Ge ==> r is Oge,
        op is Eq ==> r is Oeq,
        op is Ne ==> r is One,
{
    match op {
        BinOp::Lt => CmpfPredicate::Olt,
        BinOp::Le => CmpfPredicate::Ole,
        BinOp::Gt => CmpfPredicate::Ogt,
        BinOp::Ge => CmpfPredicate::Oge,
        BinOp::Eq => CmpfPredicate::Oeq,
        _ => CmpfPredicate::One,
    }
}

/// The arithmetic and bitwise operators whose tagged operands go
/// through the run-time arithmetic dispatch.
pub open spec fn spec_tagged_arith_eligible(op: BinOp) -> bool {
    op is Add || op is Sub || op is Mul || op is Div || op is Mod || op is Pow || op is FloorDiv
        || op is BitAnd || op is BitOr || op is BitXor || op is Shl || op is Shr
}

/// Whether `op` routes tagged operands through the arithmetic dispatch:
/// the 7 arithmetic and 5 bitwise operators; ordering, equality,
/// concatenation and the logical operators have their own handlers.
pub fn is_tagged_arith_eligible_op(op: BinOp) -> (r: bool)
    ensures
        r == spec_tagged_arith_eligible(op),
{
    match op {
        BinOp::Add | BinOp::Sub | BinOp::Mul | BinOp::Div | BinOp::Mod | BinOp::Pow
        | BinOp::FloorDiv | BinOp::BitAnd | BinOp::BitOr | BinOp::BitXor | BinOp::Shl
        | BinOp::Shr => true,
        _ => false,
    }
}

/// Law: no operator goes through both the comparison lowering and the
/// tagged arithmetic dispatch.
pub proof fn law_comparison_not_tagged_arith(op: BinOp)
    ensures
        !(is_comparison(op) && spec_tagged_arith_eligible(op)),
{
}

/// `Some(id)` exactly when `e` reads a local whose slot is a tagged
/// value: the one expression shape that needs run-time tag dispatch.
pub fn tagged_local_idx(e: &HirExpr, locals: &[LocalInfo]) -> (r: Option<LocalId>)
    requires
        e.kind matches HirExprKind::Local(id) ==> id.0 < locals@.len(),
    ensures
        r == match e.kind {
            HirExprKind::Local(id) => if locals@[id.0 as int].kind is TaggedValue {
                Some(id)
            } else {
                None
            },
            _ => None,
        },
{
    if let HirExprKind::Local(LocalId(idx)) = &e.kind {
        if matches!(locals[*idx].kind, ValueKind::TaggedValue) {
            return Some(LocalId(*idx));
        }
    }
    None
}

/// MLIR type of slots and yielded values of a kind: Number and tagged
/// values are `f64` once read, Bool / Nil / Function are `i1`, String
/// and Table are pointers.
pub open spec fn spec_kind_to_mlir_type(kind: ValueKind) -> MlirType {
    match kind {
        ValueKind::Number | ValueKind::TaggedValue => MlirType::F64,
        ValueKind::Bool | ValueKind::Nil | ValueKind::Function(_) => MlirType::I1,
        ValueKind::String | ValueKind::Table => MlirType::Ptr,
    }
}

/// MLIR type used for slots / yields of values of the given kind.
pub fn kind_to_mlir_type(kind: ValueKind) -> (r: MlirType)
    ensures
        r == spec_kind_to_mlir_type(kind),
{
    match kind {
        ValueKind::Number => MlirType::F64,
        ValueKind::Bool | ValueKind::Nil | ValueKind::Function(_) => MlirType::I1,
        ValueKind::String | ValueKind::Table => MlirType::Ptr,
        ValueKind::TaggedValue => MlirType::F64,
    }
}

/// MLIR type of a function parameter: Number is `f64`, Bool / Nil are
/// `i1`, and functions, strings and tables travel as pointers.
pub open spec fn spec_param_mlir_type(kind: ValueKind) -> MlirType {
    match kind {
        ValueKind::Number => MlirType::F64,
        ValueKind::Bool | ValueKind::Nil => MlirType::I1,
        _ => MlirType::Ptr,
    }
}

/// MLIR type for a function parameter of a static kind; tagged values
/// are not a parameter kind.
pub fn param_mlir_type(kind: ValueKind) -> (r: MlirType)
    requires
        !(kind is TaggedValue),
    ensures
        r == spec_param_mlir_type(kind),
{
    match kind {
        ValueKind::Number => MlirType::F64,
        ValueKind::Function(_) => MlirType::Ptr,
        ValueKind::Bool | ValueKind::Nil => MlirType::I1,
        ValueKind::String => MlirType::Ptr,
        _ => MlirType::Ptr,
    }
}

/// Return type of an LLVM-dialect callee for its flattened result list.
#[derive(Debug, PartialEq, Eq)]
pub enum CalleeRet {
    /// `!llvm.void`: no results.
    Void,
    /// The single result type itself.
    Single(MlirType),
    /// `!llvm.struct<(...)>` over all the results.
    Struct(Vec<MlirType>),
}

/// Callee return type: void for no results, the type itself for one,
/// a struct of all of them for two or more.
pub fn llvm_callee_ret_ty(ret_types: &[MlirType]) -> (r: CalleeRet)
    ensures
        ret_types@.len() == 0 ==> r is Void,
        ret_types@.len() == 1 ==> r == CalleeRet::Single(ret_types@[0]),
        ret_types@.len() >= 2 ==> (r matches CalleeRet::Struct(v) && v@ == ret_types@),
{
    let n = ret_types.len();
    if n == 0 {
        CalleeRet::Void
    } else if n == 1 {
        CalleeRet::Single(ret_types[0])
    } else {
        let mut v: Vec<MlirType> = Vec::new();
        let mut i: usize = 0;
        while i < n
            invariant
                n == ret_types@.len(),
                i <= n,
                v@ == ret_types@.take(i as int),
            decreases n - i,
        {
            v.push(ret_types[i]);
            i = i + 1;
            assert(v@ =~= ret_types@.take(i as int));
        }
        assert(ret_types@.take(n as int) =~= ret_types@);
        CalleeRet::Struct(v)
    }
}

/// How a binary operator on two `f64` operands is lowered.
#[derive(Clone, Copy, Debug, PartialEq, Eq, Structural)]
pub enum BinOpLowering {
    Addf,
    Subf,
    Mulf,
    Divf,
    /// Lua modulo: `a - floor(a / b) * b`.
    LuaMod,
    /// libm `pow`.
    LibmPow,
    /// `floor(a / b)` through libm `floor`.
    FloorOfDivf,
    /// Both operands truncated to `i64`, the integer op, back to `f64`.
    IntAndi,
    IntOri,
    IntXori,
    IntShli,
    IntShrsi,
    /// An ordered `arith.cmpf` with the given predicate, giving `i1`.
    Cmpf(CmpfPredicate),
}

/// The operators `emit_binop` lowers itself: all but `and` / `or`
/// (short-circuit forms) and `..` (concatenation), which the
/// expression emitter handles before reaching it.
pub open spec fn is_direct_binop(op: BinOp) -> bool {
    !(op is And || op is Or || op is Concat)
}

/// The lowering of each directly lowered operator.
pub open spec fn spec_binop_lowering(op: BinOp) -> BinOpLowering {
    match op {
        BinOp::Add => BinOpLowering::Addf,
        BinOp::Sub => BinOpLowering::Subf,
        BinOp::Mul => BinOpLowering::Mulf,
        BinOp::Div => BinOpLowering::Divf,
        BinOp::Mod => BinOpLowering::LuaMod,
        BinOp::Pow => BinOpLowering::LibmPow,
        BinOp::FloorDiv => BinOpLowering::FloorOfDivf,
        BinOp::BitAnd => BinOpLowering::IntAndi,
        BinOp::BitOr => BinOpLowering::IntOri,
        BinOp::BitXor => BinOpLowering::IntXori,
        BinOp::Shl => BinOpLowering::IntShli,
        BinOp::Shr => BinOpLowering::IntShrsi,
        BinOp::Lt => BinOpLowering::Cmpf(CmpfPredicate::Olt),
        BinOp::Le => BinOpLowering::Cmpf(CmpfPredicate::Ole),
        BinOp::Gt => BinOpLowering::Cmpf(CmpfPredicate::Ogt),
        BinOp::Ge => BinOpLowering::Cmpf(CmpfPredicate::Oge),
        BinOp::Eq => BinOpLowering::Cmpf(CmpfPredicate::Oeq),
        _ => BinOpLowering::Cmpf(CmpfPredicate::One),
    }
}

/// Which operation a directly lowered binary operator becomes:
/// float arithmetic, the Lua modulo / power / floor-division helpers,
/// integer bitwise ops, or an ordered float comparison.
pub fn binop_lowering(op: BinOp) -> (r: BinOpLowering)
    requires
        is_direct_binop(op),
    ensures
        r == spec_binop_lowering(op),
{
    match op {
        BinOp::Add => BinOpLowering::Addf,
        BinOp::Sub => BinOpLowering::Subf,
        BinOp::Mul => BinOpLowering::Mulf,
        BinOp::Div => BinOpLowering::Divf,
        BinOp::Mod => BinOpLowering::LuaMod,
        BinOp::Pow => BinOpLowering::LibmPow,
        BinOp::FloorDiv => BinOpLowering::FloorOfDivf,
        BinOp::BitAnd => BinOpLowering::IntAndi,
        BinOp::BitOr => BinOpLowering::IntOri,
        BinOp::BitXor => BinOpLowering::IntXori,
        BinOp::Shl => BinOpLowering::IntShli,
        BinOp::Shr => BinOpLowering::IntShrsi,
        _ => BinOpLowering::Cmpf(cmpf_predicate(op)),
    }
}

/// Law: exactly the comparison operators lower to a comparison, and
/// the tagged arithmetic dispatch covers exactly the operators that
/// lower to arithmetic or bitwise operations.
pub proof fn law_binop_lowering_classes(op: BinOp)
    requires
        is_direct_binop(op),
    ensures
        (spec_binop_lowering(op) is Cmpf) == is_comparison(op),
        !(spec_binop_lowering(op) is Cmpf) == spec_tagged_arith_eligible(op),
{
}

/// How the truth value of a value of a static kind is obtained.
#[derive(Clone, Copy, Debug, PartialEq, Eq, Structural)]
pub enum Truthiness {
    /// Known at compile time.
    Constant(bool),
    /// The value itself (an `i1`).
    OfValue,
}

/// Truth value of a value of the given kind: a Bool is its own truth
/// value; Nil is always false; numbers, strings, tables and tagged
/// values read as numbers are always true. Function values never
/// reach a truth test.
pub fn truthiness(kind: ValueKind) -> (r: Truthiness)
    requires
        !(kind is Function),
    ensures
        kind is Bool ==> r is OfValue,
        kind is Nil ==> r == Truthiness::Constant(false),
        !(kind is Bool) && !(kind is Nil) ==> r == Truthiness::Constant(true),
{
    match kind {
        ValueKind::Bool => Truthiness::OfValue,
        ValueKind::Nil => Truthiness::Constant(false),
        _ => Truthiness::Constant(true),
    }
}

/// How `print` renders one argument of a static kind: which printf
/// format global it uses and what it passes.
#[derive(Clone, Copy, Debug, PartialEq, Eq, Structural)]
pub enum PrintPlan {
    /// `%g` (`fmt_raw`) on the number.
    Number,
    /// `%s` (`fmt_str_raw`) on `s_true` or `s_false`, chosen by the value.
    BoolName,
    /// `%s` on `s_nil`.
    NilName,
    /// `%s` on the string itself.
    Str,
}

/// `print` rendering for a value of the given kind; tagged values
/// arrive already read as numbers. Functions and tables never reach
/// `print` directly.
pub fn print_plan(kind: ValueKind) -> (r: PrintPlan)
    requires
        !(kind is Function),
        !(kind is Table),
    ensures
        (kind is Number || kind is TaggedValue) ==> r is Number,
        kind is Bool ==> r is BoolName,
        kind is Nil ==> r is NilName,
        kind is String ==> r is Str,
{
    match kind {
        ValueKind::Bool => PrintPlan::BoolName,
        ValueKind::Nil => PrintPlan::NilName,
        ValueKind::String => PrintPlan::Str,
        _ => PrintPlan::Number,
    }
}

} // verus!
