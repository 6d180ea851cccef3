//! The emitted MLIR as plain values: a flat list of operations in the
//! order they appear in the module's text, where a structured
//! `scf.if` / `scf.while` opens with a marker operation, its regions are
//! separated by `Else` / `Do`, each region ends with a yield or a
//! condition, and a closing marker ends it. SSA values are numbered;
//! an operation that defines one carries its number in `result`.

use vstd::prelude::*;

use crate::callabi::{MlirType, ValueKind};
use crate::emit::CmpfPredicate;

verus! {

/// Two-operand `arith` operations: the `f64` ones and the integer ones
/// (on `i64` for the bitwise operators, on `i1` for truth values).
#[derive(Clone, Copy, Debug, PartialEq, Eq, Structural)]
pub enum ArithOp {
    Addf,
    Subf,
    Mulf,
    Divf,
    Andi,
    Ori,
    Xori,
    Shli,
    Shrsi,
    Shrui,
    Addi,
    Subi,
    Muli,
    Divsi,
}

/// `arith.cmpi` predicates.
#[derive(Clone, Copy, Debug, PartialEq, Eq, Structural)]
pub enum IntPredicate {
    Eq,
    Ne,
    Slt,
    Sle,
    Sgt,
    Sge,
    Ult,
    Uge,
}

/// Module-level symbols the runtime helpers take the address of.
#[derive(Clone, Copy, Debug, PartialEq, Eq, Structural)]
pub enum Global {
    /// The C library's `stdout` stream (its symbol depends on the host).
    Stdout,
    /// The string object holding a newline.
    SNewline,
    /// Diagnostic: an allocation request of 4 GiB or more.
    SGcAllocTooLarge,
    /// Diagnostic: the allocator returned null.
    SGcOom,
    /// Diagnostic: a table indexed with nil.
    STableIndexNil,
    /// Diagnostic: a table indexed with NaN.
    STableIndexNan,
    /// Diagnostic: a key that a strict lookup did not find.
    STableMissingKey,
    /// The string objects `nil`, `true`, `false`, `function`, `table`.
    SNil,
    STrue,
    SFalse,
    STypenameFunction,
    STypenameTable,
    /// The `%.14g` format of `tostring` on a number.
    FmtTostringG,
    /// Head of the list of collectable objects (as an `i64`).
    GcHead,
    /// Bytes currently allocated through the collector.
    GcTotalBytes,
    /// Allocation volume that triggers a collection.
    GcThreshold,
    /// Collector pause, in percent.
    GcPause,
}

/// Functions of the C library and of the runtime that emitted code calls.
#[derive(Clone, Copy, Debug, PartialEq, Eq, Structural)]
pub enum ExtFn {
    Malloc,
    Free,
    Fwrite,
    Exit,
    GcMark,
    GcSweep,
    Strlen,
    Strcmp,
    Snprintf,
}

/// The libm functions the emitter calls (`llvm.call @floor` / `@pow`).
#[derive(Clone, Copy, Debug, PartialEq, Eq, Structural)]
pub enum LibmFn {
    Floor,
    Pow,
}

/// One MLIR operation, or one marker of a structured operation.
#[allow(inconsistent_fields)]
#[derive(Clone, Copy, Debug, PartialEq, Eq, Structural)]
pub enum Op {
    /// `llvm.alloca` of a slot holding a value of type `ty`.
    Alloca { result: usize, ty: MlirType },
    /// `arith.constant` of the `f64` with the given bit pattern.
    ConstF64 { result: usize, bits: u64 },
    /// `arith.constant` of an `i1`.
    ConstI1 { result: usize, flag: bool },
    /// `arith.constant` of an `i64`.
    ConstI64 { result: usize, imm: i64 },
    /// `llvm.load` of a `ty` from the slot `slot`.
    Load { result: usize, slot: usize, ty: MlirType },
    /// `llvm.store` of `value` into the slot `slot`.
    Store { value: usize, slot: usize },
    Binary { result: usize, op: ArithOp, lhs: usize, rhs: usize },
    /// `arith.negf`.
    Negf { result: usize, operand: usize },
    /// `arith.cmpf` with an ordered predicate.
    Cmpf { result: usize, pred: CmpfPredicate, lhs: usize, rhs: usize },
    /// `arith.fptosi` to `i64`.
    FpToSi { result: usize, operand: usize },
    /// `arith.sitofp` to `f64`.
    SiToFp { result: usize, operand: usize },
    /// A one-argument libm call.
    Call1 { result: usize, func: LibmFn, operand: usize },
    /// A two-argument libm call.
    Call2 { result: usize, func: LibmFn, lhs: usize, rhs: usize },
    /// `printf("%.14g", value)`.
    PrintNumber { value: usize },
    /// `printf("%s", value ? "true" : "false")`.
    PrintBool { value: usize },
    /// `printf("%s", "nil")`.
    PrintNil,
    /// `printf("\t")`.
    PrintTab,
    /// `printf("\n")`.
    PrintNewline,
    /// Opens an `scf.if` on `cond` without results.
    If { cond: usize },
    /// Opens an `scf.if` on `cond` whose result `result` has type `ty`.
    IfValue { result: usize, cond: usize, ty: MlirType },
    /// Ends the then-region of an `scf.if` and opens its else-region.
    Else,
    /// `scf.yield` with no value.
    Yield,
    /// `scf.yield` of `value`.
    YieldValue { value: usize },
    /// Closes an `scf.if`.
    EndIf,
    /// Opens an `scf.while` and its before-region.
    While,
    /// `scf.condition(cond)`, the end of the before-region.
    Condition { cond: usize },
    /// Opens the after-region of an `scf.while`.
    Do,
    /// Closes an `scf.while`.
    EndWhile,
    /// `llvm.return` of `value`.
    Return { value: usize },
    /// `llvm.mlir.addressof` of a module-level symbol.
    AddressOf { result: usize, global: Global },
    /// `arith.constant` of an integer of type `ty`.
    ConstInt { result: usize, ty: MlirType, imm: i64 },
    /// `arith.cmpi`.
    Cmpi { result: usize, pred: IntPredicate, lhs: usize, rhs: usize },
    /// `arith.select`.
    Select { result: usize, cond: usize, on_true: usize, on_false: usize },
    /// `arith.trunci` of an `i64` to `ty`.
    Trunci { result: usize, operand: usize, ty: MlirType },
    /// `llvm.ptrtoint` to `i64`.
    PtrToInt { result: usize, operand: usize },
    /// `llvm.inttoptr` from `i64`.
    IntToPtr { result: usize, operand: usize },
    /// `llvm.getelementptr` of `offset` bytes from `base`.
    Gep { result: usize, base: usize, offset: usize },
    /// `llvm.call` of `func` on its first `argc` of `a0..a3`, returning a `ty`.
    CallExt { result: usize, func: ExtFn, ty: MlirType, argc: usize, a0: usize, a1: usize, a2: usize, a3: usize },
    /// `llvm.call` of `func` on its first `argc` of `a0..a3`, returning nothing.
    CallExtVoid { func: ExtFn, argc: usize, a0: usize, a1: usize, a2: usize, a3: usize },
    /// Opens an `scf.while` carrying one value of type `ty`, starting at
    /// `init`; `arg` is the before-region's argument and `result` the
    /// loop's result.
    WhileIter { result: usize, init: usize, arg: usize, ty: MlirType },
    /// `scf.condition(cond) value`, the end of a carrying before-region.
    ConditionWith { cond: usize, value: usize },
    /// Opens the after-region of a carrying `scf.while`; `arg` is its argument.
    DoWith { arg: usize },
    /// `arith.extui` of an `i8` to `i64`.
    ExtUi { result: usize, operand: usize },
    /// Opens an `scf.while` carrying two `i64` values, starting at
    /// `init` and `init2`; `arg`, `arg2` are the before-region's
    /// arguments and `result`, `result2` the loop's results.
    WhileIter2 { result: usize, result2: usize, init: usize, init2: usize, arg: usize, arg2: usize },
    /// `scf.condition(cond) value, value2`.
    ConditionWith2 { cond: usize, value: usize, value2: usize },
    /// Opens the after-region of a two-value `scf.while`.
    DoWith2 { arg: usize, arg2: usize },
    /// `scf.yield value, value2`.
    YieldValue2 { value: usize, value2: usize },
    /// `llvm.mlir.zero` of `!llvm.ptr`.
    NullPtr { result: usize },
    /// The tagged-value store of nil into the 16-byte slot `slot`, as
    /// the tagged-value layer emits it.
    StoreNilTagged { slot: usize },
    /// `llvm.alloca` of `count` values of type `ty`.
    AllocaOf { result: usize, count: usize, ty: MlirType },
    /// `arith.bitcast` to `ty`.
    Bitcast { result: usize, operand: usize, ty: MlirType },
    /// Opens `llvm.func @__lumelir_next(ptr, i64, i64) -> struct<(i64, i64, i64, i64)>`;
    /// `arg`, `arg2`, `arg3` are its parameters.
    FuncNext { arg: usize, arg2: usize, arg3: usize },
    /// `llvm.return` of the four `i64` values packed into the return struct.
    Return4 { a: usize, b: usize, c: usize, d: usize },
    /// Closes a function.
    EndFunc,
    /// `llvm.trunc` to `ty`.
    LlvmTrunc { result: usize, operand: usize, ty: MlirType },
    /// The tagged-value layer's read of the tag (`result`) and of the
    /// payload pointer (`result + 1`) of the 16-byte slot `slot`.
    TagAndPayload { result: usize, slot: usize },
    /// The tagged-value layer's fatal error on an unknown tag.
    UnknownTagTrap,
    /// The tagged-value layer's equality of two tagged slots, an `i1`.
    TaggedEqSlots { result: usize, lhs: usize, rhs: usize },
    /// The tagged-value layer's 16-byte search-key slot holding `value`
    /// of static kind `kind`.
    SearchKeySlot { result: usize, value: usize, kind: ValueKind },
}

/// The body of the `@main` function of an emitted module, with the
/// number of SSA values it defines (numbered `0..value_count`).
#[derive(Debug)]
pub struct MlirModule {
    pub main_ops: Vec<Op>,
    pub value_count: usize,
}

} // verus!
