//! Emission of the runtime helpers that compiled programs inline: the
//! LLVM-dialect primitives (constants, loads, stores, byte-offset
//! pointers, calls), printing a boxed string object, the fatal-error
//! exit, the null-checked allocation, and the garbage-collected
//! allocation with its collection trigger.
//!
//! Each emitter is given by a spec function from an emission state
//! `(operations so far, next free SSA number)` to the state after it
//! (and, where it yields one, the SSA number of its value); the
//! emitting functions move an `EmitCx` exactly as their spec says.

use vstd::prelude::*;

use crate::callabi::MlirType;
use crate::emitter::{sv, un, EmitCx};
use crate::error::CodegenError;
use crate::emit::CmpfPredicate;
use crate::mlir::{ArithOp, ExtFn, Global, IntPredicate, Op};

verus! {

/// An emission state: the operations emitted so far and the next free
/// SSA number.
pub type St = (Seq<Op>, nat);

/// The emission state of a context.
pub open spec fn st(cx: EmitCx) -> St {
    (cx.ops@, un(cx.next))
}

/// Appends an operation that defines no value.
pub open spec fn p_mark(s: St, op: Op) -> St {
    (s.0.push(op), s.1)
}

/// `arith.constant imm : ty`.
pub open spec fn p_const(s: St, ty: MlirType, imm: i64) -> (St, nat) {
    ((s.0.push(Op::ConstInt { result: sv(s.1), ty, imm }), s.1 + 1), s.1)
}

/// A two-operand `arith` operation.
pub open spec fn p_bin(s: St, op: ArithOp, lhs: nat, rhs: nat) -> (St, nat) {
    ((s.0.push(Op::Binary { result: sv(s.1), op, lhs: sv(lhs), rhs: sv(rhs) }), s.1 + 1), s.1)
}

/// `arith.cmpi`.
pub open spec fn p_icompare(s: St, pred: IntPredicate, lhs: nat, rhs: nat) -> (St, nat) {
    ((s.0.push(Op::Cmpi { result: sv(s.1), pred, lhs: sv(lhs), rhs: sv(rhs) }), s.1 + 1), s.1)
}

/// `arith.select`.
pub open spec fn p_select(s: St, cond: nat, on_true: nat, on_false: nat) -> (St, nat) {
    (
        (
            s.0.push(
                Op::Select { result: sv(s.1), cond: sv(cond), on_true: sv(on_true), on_false: sv(on_false) },
            ),
            s.1 + 1,
        ),
        s.1,
    )
}

/// `arith.trunci` to `ty`.
pub open spec fn p_trunc(s: St, operand: nat, ty: MlirType) -> (St, nat) {
    ((s.0.push(Op::Trunci { result: sv(s.1), operand: sv(operand), ty }), s.1 + 1), s.1)
}

/// `llvm.ptrtoint`.
pub open spec fn p_ptrtoint(s: St, operand: nat) -> (St, nat) {
    ((s.0.push(Op::PtrToInt { result: sv(s.1), operand: sv(operand) }), s.1 + 1), s.1)
}

/// `llvm.inttoptr`.
pub open spec fn p_inttoptr(s: St, operand: nat) -> (St, nat) {
    ((s.0.push(Op::IntToPtr { result: sv(s.1), operand: sv(operand) }), s.1 + 1), s.1)
}

/// `llvm.getelementptr` of a run-time byte offset.
pub open spec fn p_gep(s: St, base: nat, offset: nat) -> (St, nat) {
    ((s.0.push(Op::Gep { result: sv(s.1), base: sv(base), offset: sv(offset) }), s.1 + 1), s.1)
}

/// `llvm.mlir.addressof`.
pub open spec fn p_addr(s: St, global: Global) -> (St, nat) {
    ((s.0.push(Op::AddressOf { result: sv(s.1), global }), s.1 + 1), s.1)
}

/// `llvm.load` of a `ty`.
pub open spec fn p_load(s: St, slot: nat, ty: MlirType) -> (St, nat) {
    ((s.0.push(Op::Load { result: sv(s.1), slot: sv(slot), ty }), s.1 + 1), s.1)
}

/// `llvm.store`.
pub open spec fn p_store(s: St, value: nat, slot: nat) -> St {
    p_mark(s, Op::Store { value: sv(value), slot: sv(slot) })
}

/// A call with a result.
pub open spec fn p_call(
    s: St,
    func: ExtFn,
    ty: MlirType,
    argc: usize,
    a0: nat,
    a1: nat,
    a2: nat,
    a3: nat,
) -> (St, nat) {
    (
        (
            s.0.push(
                Op::CallExt {
                    result: sv(s.1),
                    func,
                    ty,
                    argc,
                    a0: sv(a0),
                    a1: sv(a1),
                    a2: sv(a2),
                    a3: sv(a3),
                },
            ),
            s.1 + 1,
        ),
        s.1,
    )
}

/// A byte-offset pointer with a constant offset: the `i64` constant,
/// then the `getelementptr`.
pub open spec fn sp_byte_offset(s: St, base: nat, off: i64) -> (St, nat) {
    let (s, c) = p_const(s, MlirType::I64, off);
    p_gep(s, base, c)
}

/// Writes the boxed string object `obj` (an `i64` length, then the
/// bytes from offset 8) to `stdout` with `fwrite`.
pub open spec fn sp_print_string_obj(s: St, obj: nat) -> St {
    let (s, len) = p_load(s, obj, MlirType::I64);
    let (s, data) = sp_byte_offset(s, obj, 8);
    let (s, one) = p_const(s, MlirType::I64, 1);
    let (s, out_addr) = p_addr(s, Global::Stdout);
    let (s, out) = p_load(s, out_addr, MlirType::Ptr);
    let (s, _w) = p_call(s, ExtFn::Fwrite, MlirType::I64, 4, data, one, len, out);
    s
}

/// Prints the string object `msg` and a newline, then calls `exit(1)`.
pub open spec fn sp_exit_with_message(s: St, msg: nat) -> St {
    let s = sp_print_string_obj(s, msg);
    let (s, nl) = p_addr(s, Global::SNewline);
    let s = sp_print_string_obj(s, nl);
    let (s, one) = p_const(s, MlirType::I32, 1);
    p_mark(
        s,
        Op::CallExtVoid { func: ExtFn::Exit, argc: 1, a0: sv(one), a1: 0, a2: 0, a3: 0 },
    )
}

/// `malloc(size)`, and when it returns null, the diagnostic `oom` and
/// `exit(1)`; the value is the allocated pointer.
pub open spec fn sp_alloc_checked(s: St, size: nat, oom: Global) -> (St, nat) {
    let (s, p) = p_call(s, ExtFn::Malloc, MlirType::Ptr, 1, size, 0, 0, 0);
    let (s, pi) = p_ptrtoint(s, p);
    let (s, zero) = p_const(s, MlirType::I64, 0);
    let (s, is_null) = p_icompare(s, IntPredicate::Eq, pi, zero);
    let s = p_mark(s, Op::If { cond: sv(is_null) });
    let (s, msg) = p_addr(s, oom);
    let s = sp_exit_with_message(s, msg);
    let s = p_mark(s, Op::Yield);
    let s = p_mark(s, Op::Else);
    let s = p_mark(s, Op::Yield);
    let s = p_mark(s, Op::EndIf);
    (s, p)
}

/// The layout of a collectable object's header, and the cap on the
/// collection threshold.
#[derive(Clone, Copy, Debug, PartialEq, Eq, Structural)]
pub struct GcLayout {
    /// Bytes of header before the payload.
    pub header_size: i64,
    /// Offset of the `i8` mark.
    pub off_mark: i64,
    /// Offset of the `i8` type tag.
    pub off_type_tag: i64,
    /// Offset of the `i32` payload size.
    pub off_size: i64,
    /// Offset of the pointer to the next object.
    pub off_next: i64,
    /// Largest collection threshold.
    pub threshold_cap: i64,
}

/// Collects when the allocation of `total` more bytes would reach the
/// threshold, then sets the threshold to `total_bytes * pause / 100`
/// when that is larger, capped at `threshold_cap`.
pub open spec fn sp_gc_trigger(s: St, total: nat, lay: GcLayout) -> St {
    let (s, bytes_addr) = p_addr(s, Global::GcTotalBytes);
    let (s, cur) = p_load(s, bytes_addr, MlirType::I64);
    let (s, projected) = p_bin(s, ArithOp::Addi, cur, total);
    let (s, thr_addr) = p_addr(s, Global::GcThreshold);
    let (s, thr) = p_load(s, thr_addr, MlirType::I64);
    let (s, should) = p_icompare(s, IntPredicate::Sge, projected, thr);
    let s = p_mark(s, Op::If { cond: sv(should) });
    let s = p_mark(s, Op::CallExtVoid { func: ExtFn::GcMark, argc: 0, a0: 0, a1: 0, a2: 0, a3: 0 });
    let s = p_mark(s, Op::CallExtVoid { func: ExtFn::GcSweep, argc: 0, a0: 0, a1: 0, a2: 0, a3: 0 });
    let (s, bytes_post_addr) = p_addr(s, Global::GcTotalBytes);
    let (s, post) = p_load(s, bytes_post_addr, MlirType::I64);
    let (s, pause_addr) = p_addr(s, Global::GcPause);
    let (s, pause) = p_load(s, pause_addr, MlirType::I64);
    let (s, mul) = p_bin(s, ArithOp::Muli, post, pause);
    let (s, hundred) = p_const(s, MlirType::I64, 100);
    let (s, grown) = p_bin(s, ArithOp::Divsi, mul, hundred);
    let (s, thr_addr2) = p_addr(s, Global::GcThreshold);
    let (s, cur_thr) = p_load(s, thr_addr2, MlirType::I64);
    let (s, needs) = p_icompare(s, IntPredicate::Sgt, grown, cur_thr);
    let s = p_mark(s, Op::If { cond: sv(needs) });
    let (s, cap) = p_const(s, MlirType::I64, lay.threshold_cap);
    let (s, over) = p_icompare(s, IntPredicate::Sgt, grown, cap);
    let (s, capped) = p_select(s, over, cap, grown);
    let s = p_store(s, capped, thr_addr2);
    let s = p_mark(s, Op::Yield);
    let s = p_mark(s, Op::Else);
    let s = p_mark(s, Op::Yield);
    let s = p_mark(s, Op::EndIf);
    let s = p_mark(s, Op::Yield);
    let s = p_mark(s, Op::Else);
    let s = p_mark(s, Op::Yield);
    p_mark(s, Op::EndIf)
}

/// Fills the header of the fresh object at `raw` (mark 0, the type
/// tag, the payload size as `i32`, the old list head as next), makes it
/// the list head, and adds `total` to the allocated bytes.
pub open spec fn sp_gc_link(s: St, raw: nat, payload: nat, total: nat, type_tag: u8, lay: GcLayout) -> St {
    let (s, mark_ptr) = sp_byte_offset(s, raw, lay.off_mark);
    let (s, zero8) = p_const(s, MlirType::I8, 0);
    let s = p_store(s, zero8, mark_ptr);
    let (s, tag_ptr) = sp_byte_offset(s, raw, lay.off_type_tag);
    let (s, tag) = p_const(s, MlirType::I8, type_tag as i64);
    let s = p_store(s, tag, tag_ptr);
    let (s, size_ptr) = sp_byte_offset(s, raw, lay.off_size);
    let (s, size32) = p_trunc(s, payload, MlirType::I32);
    let s = p_store(s, size32, size_ptr);
    let (s, head_addr) = p_addr(s, Global::GcHead);
    let (s, head_int) = p_load(s, head_addr, MlirType::I64);
    let (s, head_ptr) = p_inttoptr(s, head_int);
    let (s, next_ptr) = sp_byte_offset(s, raw, lay.off_next);
    let s = p_store(s, head_ptr, next_ptr);
    let (s, raw_int) = p_ptrtoint(s, raw);
    let s = p_store(s, raw_int, head_addr);
    let (s, bytes_addr) = p_addr(s, Global::GcTotalBytes);
    let (s, old_bytes) = p_load(s, bytes_addr, MlirType::I64);
    let (s, new_bytes) = p_bin(s, ArithOp::Addi, old_bytes, total);
    p_store(s, new_bytes, bytes_addr)
}

/// Allocation of a collectable object with a `payload`-byte payload:
/// a fatal error for 4 GiB or more, the collection trigger, the checked
/// `malloc` of header and payload, the header, and the payload pointer
/// as value.
pub open spec fn sp_gc_alloc(s: St, payload: nat, type_tag: u8, lay: GcLayout) -> (St, nat) {
    let (s, four_gib) = p_const(s, MlirType::I64, 4294967296);
    let (s, too_large) = p_icompare(s, IntPredicate::Uge, payload, four_gib);
    let s = p_mark(s, Op::If { cond: sv(too_large) });
    let (s, msg) = p_addr(s, Global::SGcAllocTooLarge);
    let s = sp_exit_with_message(s, msg);
    let s = p_mark(s, Op::Yield);
    let s = p_mark(s, Op::Else);
    let s = p_mark(s, Op::Yield);
    let s = p_mark(s, Op::EndIf);
    let (s, hsize) = p_const(s, MlirType::I64, lay.header_size);
    let (s, total) = p_bin(s, ArithOp::Addi, payload, hsize);
    let s = sp_gc_trigger(s, total, lay);
    let (s, raw) = sp_alloc_checked(s, total, Global::SGcOom);
    let s = sp_gc_link(s, raw, payload, total, type_tag, lay);
    sp_byte_offset(s, raw, lay.header_size)
}

/// SSA numbers one allocation defines.
pub open spec fn gc_alloc_ids() -> nat {
    81
}

pub(crate) fn e_mark(cx: &mut EmitCx, op: Op)
    ensures
        st(*final(cx)) == p_mark(st(*old(cx)), op),
{
    cx.ops.push(op);
}

pub(crate) fn e_const(cx: &mut EmitCx, ty: MlirType, imm: i64) -> (v: usize)
    requires
        old(cx).next < usize::MAX,
    ensures
        (st(*final(cx)), un(v)) == p_const(st(*old(cx)), ty, imm),
{
    let v = cx.next;
    cx.ops.push(Op::ConstInt { result: v, ty, imm });
    cx.next = v + 1;
    v
}

pub(crate) fn e_bin(cx: &mut EmitCx, op: ArithOp, lhs: usize, rhs: usize) -> (v: usize)
    requires
        old(cx).next < usize::MAX,
    ensures
        (st(*final(cx)), un(v)) == p_bin(st(*old(cx)), op, un(lhs), un(rhs)),
{
    let v = cx.next;
    cx.ops.push(Op::Binary { result: v, op, lhs, rhs });
    cx.next = v + 1;
    v
}

pub(crate) fn e_icompare(cx: &mut EmitCx, pred: IntPredicate, lhs: usize, rhs: usize) -> (v: usize)
    requires
        old(cx).next < usize::MAX,
    ensures
        (st(*final(cx)), un(v)) == p_icompare(st(*old(cx)), pred, un(lhs), un(rhs)),
{
    let v = cx.next;
    cx.ops.push(Op::Cmpi { result: v, pred, lhs, rhs });
    cx.next = v + 1;
    v
}

pub(crate) fn e_select(cx: &mut EmitCx, cond: usize, on_true: usize, on_false: usize) -> (v: usize)
    requires
        old(cx).next < usize::MAX,
    ensures
        (st(*final(cx)), un(v)) == p_select(st(*old(cx)), un(cond), un(on_true), un(on_false)),
{
    let v = cx.next;
    cx.ops.push(Op::Select { result: v, cond, on_true, on_false });
    cx.next = v + 1;
    v
}

pub(crate) fn e_trunc(cx: &mut EmitCx, operand: usize, ty: MlirType) -> (v: usize)
    requires
        old(cx).next < usize::MAX,
    ensures
        (st(*final(cx)), un(v)) == p_trunc(st(*old(cx)), un(operand), ty),
{
    let v = cx.next;
    cx.ops.push(Op::Trunci { result: v, operand, ty });
    cx.next = v + 1;
    v
}

pub(crate) fn e_ptrtoint(cx: &mut EmitCx, operand: usize) -> (v: usize)
    requires
        old(cx).next < usize::MAX,
    ensures
        (st(*final(cx)), un(v)) == p_ptrtoint(st(*old(cx)), un(operand)),
{
    let v = cx.next;
    cx.ops.push(Op::PtrToInt { result: v, operand });
    cx.next = v + 1;
    v
}

pub(crate) fn e_inttoptr(cx: &mut EmitCx, operand: usize) -> (v: usize)
    requires
        old(cx).next < usize::MAX,
    ensures
        (st(*final(cx)), un(v)) == p_inttoptr(st(*old(cx)), un(operand)),
{
    let v = cx.next;
    cx.ops.push(Op::IntToPtr { result: v, operand });
    cx.next = v + 1;
    v
}

pub(crate) fn e_gep(cx: &mut EmitCx, base: usize, offset: usize) -> (v: usize)
    requires
        old(cx).next < usize::MAX,
    ensures
        (st(*final(cx)), un(v)) == p_gep(st(*old(cx)), un(base), un(offset)),
{
    let v = cx.next;
    cx.ops.push(Op::Gep { result: v, base, offset });
    cx.next = v + 1;
    v
}

pub(crate) fn e_addr(cx: &mut EmitCx, global: Global) -> (v: usize)
    requires
        old(cx).next < usize::MAX,
    ensures
        (st(*final(cx)), un(v)) == p_addr(st(*old(cx)), global),
{
    let v = cx.next;
    cx.ops.push(Op::AddressOf { result: v, global });
    cx.next = v + 1;
    v
}

pub(crate) fn e_load(cx: &mut EmitCx, slot: usize, ty: MlirType) -> (v: usize)
    requires
        old(cx).next < usize::MAX,
    ensures
        (st(*final(cx)), un(v)) == p_load(st(*old(cx)), un(slot), ty),
{
    let v = cx.next;
    cx.ops.push(Op::Load { result: v, slot, ty });
    cx.next = v + 1;
    v
}

pub(crate) fn e_store(cx: &mut EmitCx, value: usize, slot: usize)
    ensures
        st(*final(cx)) == p_store(st(*old(cx)), un(value), un(slot)),
{
    cx.ops.push(Op::Store { value, slot });
}

pub(crate) fn e_call(
    cx: &mut EmitCx,
    func: ExtFn,
    ty: MlirType,
    argc: usize,
    a0: usize,
    a1: usize,
    a2: usize,
    a3: usize,
) -> (v: usize)
    requires
        old(cx).next < usize::MAX,
    ensures
        (st(*final(cx)), un(v)) == p_call(st(*old(cx)), func, ty, argc, un(a0), un(a1), un(a2), un(a3)),
{
    let v = cx.next;
    cx.ops.push(Op::CallExt { result: v, func, ty, argc, a0, a1, a2, a3 });
    cx.next = v + 1;
    v
}

/// Emits a byte-offset pointer `base + off`.
pub(crate) fn emit_byte_offset_ptr(cx: &mut EmitCx, base: usize, off: i64) -> (v: usize)
    requires
        old(cx).next + 2 <= usize::MAX,
    ensures
        (st(*final(cx)), un(v)) == sp_byte_offset(st(*old(cx)), un(base), off),
{
    let c = e_const(cx, MlirType::I64, off);
    e_gep(cx, base, c)
}

/// Emits the printing of a boxed string object to `stdout`.
pub(crate) fn emit_print_string_obj(cx: &mut EmitCx, obj: usize)
    requires
        old(cx).next + 7 <= usize::MAX,
    ensures
        st(*final(cx)) == sp_print_string_obj(st(*old(cx)), un(obj)),
        final(cx).next == old(cx).next + 7,
{
    let len = e_load(cx, obj, MlirType::I64);
    let data = emit_byte_offset_ptr(cx, obj, 8);
    let one = e_const(cx, MlirType::I64, 1);
    let out_addr = e_addr(cx, Global::Stdout);
    let out = e_load(cx, out_addr, MlirType::Ptr);
    let _w = e_call(cx, ExtFn::Fwrite, MlirType::I64, 4, data, one, len, out);
}

/// Emits printing `msg` and a newline, then `exit(1)`.
pub(crate) fn emit_exit_with_message(cx: &mut EmitCx, msg: usize)
    requires
        old(cx).next + 16 <= usize::MAX,
    ensures
        st(*final(cx)) == sp_exit_with_message(st(*old(cx)), un(msg)),
        final(cx).next == old(cx).next + 16,
{
    emit_print_string_obj(cx, msg);
    let nl = e_addr(cx, Global::SNewline);
    emit_print_string_obj(cx, nl);
    let one = e_const(cx, MlirType::I32, 1);
    e_mark(cx, Op::CallExtVoid { func: ExtFn::Exit, argc: 1, a0: one, a1: 0, a2: 0, a3: 0 });
}

/// Emits `malloc(size)` with its null check.
pub(crate) fn emit_alloc_checked(cx: &mut EmitCx, size: usize, oom: Global) -> (v: usize)
    requires
        old(cx).next + 21 <= usize::MAX,
    ensures
        (st(*final(cx)), un(v)) == sp_alloc_checked(st(*old(cx)), un(size), oom),
        final(cx).next == old(cx).next + 21,
{
    let p = e_call(cx, ExtFn::Malloc, MlirType::Ptr, 1, size, 0, 0, 0);
    let pi = e_ptrtoint(cx, p);
    let zero = e_const(cx, MlirType::I64, 0);
    let is_null = e_icompare(cx, IntPredicate::Eq, pi, zero);
    e_mark(cx, Op::If { cond: is_null });
    let msg = e_addr(cx, oom);
    emit_exit_with_message(cx, msg);
    e_mark(cx, Op::Yield);
    e_mark(cx, Op::Else);
    e_mark(cx, Op::Yield);
    e_mark(cx, Op::EndIf);
    p
}

fn emit_gc_trigger(cx: &mut EmitCx, total: usize, lay: GcLayout)
    requires
        old(cx).next + 19 <= usize::MAX,
    ensures
        st(*final(cx)) == sp_gc_trigger(st(*old(cx)), un(total), lay),
        final(cx).next == old(cx).next + 19,
{
    let bytes_addr = e_addr(cx, Global::GcTotalBytes);
    let cur = e_load(cx, bytes_addr, MlirType::I64);
    let projected = e_bin(cx, ArithOp::Addi, cur, total);
    let thr_addr = e_addr(cx, Global::GcThreshold);
    let thr = e_load(cx, thr_addr, MlirType::I64);
    let should = e_icompare(cx, IntPredicate::Sge, projected, thr);
    e_mark(cx, Op::If { cond: should });
    e_mark(cx, Op::CallExtVoid { func: ExtFn::GcMark, argc: 0, a0: 0, a1: 0, a2: 0, a3: 0 });
    e_mark(cx, Op::CallExtVoid { func: ExtFn::GcSweep, argc: 0, a0: 0, a1: 0, a2: 0, a3: 0 });
    let bytes_post_addr = e_addr(cx, Global::GcTotalBytes);
    let post = e_load(cx, bytes_post_addr, MlirType::I64);
    let pause_addr = e_addr(cx, Global::GcPause);
    let pause = e_load(cx, pause_addr, MlirType::I64);
    let mul = e_bin(cx, ArithOp::Muli, post, pause);
    let hundred = e_const(cx, MlirType::I64, 100);
    let grown = e_bin(cx, ArithOp::Divsi, mul, hundred);
    let thr_addr2 = e_addr(cx, Global::GcThreshold);
    let cur_thr = e_load(cx, thr_addr2, MlirType::I64);
    let needs = e_icompare(cx, IntPredicate::Sgt, grown, cur_thr);
    e_mark(cx, Op::If { cond: needs });
    let cap = e_const(cx, MlirType::I64, lay.threshold_cap);
    let over = e_icompare(cx, IntPredicate::Sgt, grown, cap);
    let capped = e_select(cx, over, cap, grown);
    e_store(cx, capped, thr_addr2);
    e_mark(cx, Op::Yield);
    e_mark(cx, Op::Else);
    e_mark(cx, Op::Yield);
    e_mark(cx, Op::EndIf);
    e_mark(cx, Op::Yield);
    e_mark(cx, Op::Else);
    e_mark(cx, Op::Yield);
    e_mark(cx, Op::EndIf);
}

fn emit_gc_link(cx: &mut EmitCx, raw: usize, payload: usize, total: usize, type_tag: u8, lay: GcLayout)
    requires
        old(cx).next + 18 <= usize::MAX,
    ensures
        st(*final(cx)) == sp_gc_link(st(*old(cx)), un(raw), un(payload), un(total), type_tag, lay),
        final(cx).next == old(cx).next + 18,
{
    let mark_ptr = emit_byte_offset_ptr(cx, raw, lay.off_mark);
    let zero8 = e_const(cx, MlirType::I8, 0);
    e_store(cx, zero8, mark_ptr);
    let tag_ptr = emit_byte_offset_ptr(cx, raw, lay.off_type_tag);
    let tag = e_const(cx, MlirType::I8, type_tag as i64);
    e_store(cx, tag, tag_ptr);
    let size_ptr = emit_byte_offset_ptr(cx, raw, lay.off_size);
    let size32 = e_trunc(cx, payload, MlirType::I32);
    e_store(cx, size32, size_ptr);
    let head_addr = e_addr(cx, Global::GcHead);
    let head_int = e_load(cx, head_addr, MlirType::I64);
    let head_ptr = e_inttoptr(cx, head_int);
    let next_ptr = emit_byte_offset_ptr(cx, raw, lay.off_next);
    e_store(cx, head_ptr, next_ptr);
    let raw_int = e_ptrtoint(cx, raw);
    e_store(cx, raw_int, head_addr);
    let bytes_addr = e_addr(cx, Global::GcTotalBytes);
    let old_bytes = e_load(cx, bytes_addr, MlirType::I64);
    let new_bytes = e_bin(cx, ArithOp::Addi, old_bytes, total);
    e_store(cx, new_bytes, bytes_addr);
}

/// Emits the allocation of a collectable object whose payload is
/// `payload` bytes (an `i64` value) and whose header carries
/// `type_tag`; the value is the payload pointer. An error exactly when
/// the SSA numbering would overflow.
pub fn emit_gc_alloc(cx: &mut EmitCx, payload: usize, type_tag: u8, lay: GcLayout) -> (r: Result<
    usize,
    CodegenError,
>)
    ensures
        r is Ok <==> old(cx).next + gc_alloc_ids() <= usize::MAX,
        r is Ok ==> (st(*final(cx)), un(r->Ok_0)) == sp_gc_alloc(st(*old(cx)), un(payload), type_tag, lay)
            && final(cx).next == old(cx).next + gc_alloc_ids(),
        r is Err ==> r->Err_0 is UnsupportedExpr,
{
    if cx.next > usize::MAX - 81 {
        return Err(CodegenError::UnsupportedExpr(String::from_str("SSA numbering overflow")));
    }
    let four_gib = e_const(cx, MlirType::I64, 4294967296);
    let too_large = e_icompare(cx, IntPredicate::Uge, payload, four_gib);
    e_mark(cx, Op::If { cond: too_large });
    let msg = e_addr(cx, Global::SGcAllocTooLarge);
    emit_exit_with_message(cx, msg);
    e_mark(cx, Op::Yield);
    e_mark(cx, Op::Else);
    e_mark(cx, Op::Yield);
    e_mark(cx, Op::EndIf);
    let hsize = e_const(cx, MlirType::I64, lay.header_size);
    let total = e_bin(cx, ArithOp::Addi, payload, hsize);
    emit_gc_trigger(cx, total, lay);
    let raw = emit_alloc_checked(cx, total, Global::SGcOom);
    emit_gc_link(cx, raw, payload, total, type_tag, lay);
    Ok(emit_byte_offset_ptr(cx, raw, lay.header_size))
}


/// `arith.cmpf`.
pub open spec fn p_fcompare(s: St, pred: CmpfPredicate, lhs: nat, rhs: nat) -> (St, nat) {
    ((s.0.push(Op::Cmpf { result: sv(s.1), pred, lhs: sv(lhs), rhs: sv(rhs) }), s.1 + 1), s.1)
}

/// `arith.extui` to `i64`.
pub open spec fn p_extui(s: St, operand: nat) -> (St, nat) {
    ((s.0.push(Op::ExtUi { result: sv(s.1), operand: sv(operand) }), s.1 + 1), s.1)
}

/// Opens an `scf.if` with one result of type `ty`.
pub open spec fn p_ifv(s: St, cond: nat, ty: MlirType) -> (St, nat) {
    ((s.0.push(Op::IfValue { result: sv(s.1), cond: sv(cond), ty }), s.1 + 1), s.1)
}

/// `scf.yield value`.
pub open spec fn p_yieldv(s: St, value: nat) -> St {
    p_mark(s, Op::YieldValue { value: sv(value) })
}

/// Opens an `scf.while` carrying one `i64` from `init`: `(state,
/// result, before-region argument)`.
pub open spec fn p_while1(s: St, init: nat) -> (St, nat, nat) {
    (
        (s.0.push(Op::WhileIter { result: sv(s.1), init: sv(init), arg: sv(s.1 + 1), ty: MlirType::I64 }), s.1 + 2),
        s.1,
        s.1 + 1,
    )
}

/// Opens the after-region of a one-value loop: `(state, argument)`.
pub open spec fn p_do1(s: St) -> (St, nat) {
    ((s.0.push(Op::DoWith { arg: sv(s.1) }), s.1 + 1), s.1)
}

/// Opens an `scf.while` carrying two `i64`s: `(state, first result,
/// first argument, second argument)`; the second result is numbered
/// right after the first.
pub open spec fn p_while2(s: St, init: nat, init2: nat) -> (St, nat, nat, nat) {
    (
        (
            s.0.push(
                Op::WhileIter2 {
                    result: sv(s.1),
                    result2: sv(s.1 + 1),
                    init: sv(init),
                    init2: sv(init2),
                    arg: sv(s.1 + 2),
                    arg2: sv(s.1 + 3),
                },
            ),
            s.1 + 4,
        ),
        s.1,
        s.1 + 2,
        s.1 + 3,
    )
}

/// Opens the after-region of a two-value loop: `(state, argument,
/// second argument)`.
pub open spec fn p_do2(s: St) -> (St, nat, nat) {
    ((s.0.push(Op::DoWith2 { arg: sv(s.1), arg2: sv(s.1 + 1) }), s.1 + 2), s.1, s.1 + 1)
}

/// The layout of tagged values: the tag numbers and the 16-byte
/// `{tag, payload}` slot.
#[derive(Clone, Copy, Debug, PartialEq, Eq, Structural)]
pub struct TagLayout {
    pub tag_nil: i64,
    pub tag_bool: i64,
    pub tag_number: i64,
    pub tag_string: i64,
    pub tag_function: i64,
    pub tag_table: i64,
    /// Tag of a hash entry whose key was deleted.
    pub tag_deleted: i64,
    /// Offset of the payload in a tagged slot.
    pub off_value: i64,
    /// Bytes of a tagged slot.
    pub slot_size: i64,
}

/// FNV-1a offset basis.
pub open spec fn fnv_basis() -> i64 {
    -3750763034362895579i64
}

/// FNV-1a prime.
pub open spec fn fnv_prime() -> i64 {
    1099511628211i64
}

/// FNV-1a hash of the NUL-terminated string at `str_ptr`: a loop
/// carrying the hash and the index up to `strlen`.
pub open spec fn sp_string_hash(s: St, str_ptr: nat) -> (St, nat) {
    let (s, len) = p_call(s, ExtFn::Strlen, MlirType::I64, 1, str_ptr, 0, 0, 0);
    let (s, h0) = p_const(s, MlirType::I64, fnv_basis());
    let (s, i0) = p_const(s, MlirType::I64, 0);
    let (s, r, ha, ia) = p_while2(s, h0, i0);
    let (s, go) = p_icompare(s, IntPredicate::Slt, ia, len);
    let s = p_mark(s, Op::ConditionWith2 { cond: sv(go), value: sv(ha), value2: sv(ia) });
    let (s, hb, ib) = p_do2(s);
    let (s, bp) = p_gep(s, str_ptr, ib);
    let (s, b8) = p_load(s, bp, MlirType::I8);
    let (s, b64) = p_extui(s, b8);
    let (s, x) = p_bin(s, ArithOp::Xori, hb, b64);
    let (s, prime) = p_const(s, MlirType::I64, fnv_prime());
    let (s, nh) = p_bin(s, ArithOp::Muli, x, prime);
    let (s, one) = p_const(s, MlirType::I64, 1);
    let (s, ni) = p_bin(s, ArithOp::Addi, ib, one);
    let s = p_mark(s, Op::YieldValue2 { value: sv(nh), value2: sv(ni) });
    let s = p_mark(s, Op::EndWhile);
    (s, r)
}

/// Hash of the key in the tagged slot `slot`: the string hash of a
/// string key, the payload bits times the FNV prime otherwise.
pub open spec fn sp_key_hash(s: St, slot: nat, lay: TagLayout) -> (St, nat) {
    let (s, tag) = p_load(s, slot, MlirType::I64);
    let (s, pp) = sp_byte_offset(s, slot, lay.off_value);
    let (s, prime) = p_const(s, MlirType::I64, fnv_prime());
    let (s, ts) = p_const(s, MlirType::I64, lay.tag_string);
    let (s, is_str) = p_icompare(s, IntPredicate::Eq, tag, ts);
    let (s, r) = p_ifv(s, is_str, MlirType::I64);
    let (s, sp) = p_load(s, pp, MlirType::Ptr);
    let (s, h) = sp_string_hash(s, sp);
    let s = p_yieldv(s, h);
    let s = p_mark(s, Op::Else);
    let (s, bits) = p_load(s, pp, MlirType::I64);
    let (s, h2) = p_bin(s, ArithOp::Muli, bits, prime);
    let s = p_yieldv(s, h2);
    let s = p_mark(s, Op::EndIf);
    (s, r)
}

/// Key equality of the tagged slots `a` and `b`: equal tags, then
/// `strcmp` for strings, ordered `==` for numbers, bit equality of the
/// payloads otherwise.
pub open spec fn sp_key_eq(s: St, a: nat, b: nat, lay: TagLayout) -> (St, nat) {
    let (s, ta) = p_load(s, a, MlirType::I64);
    let (s, tb) = p_load(s, b, MlirType::I64);
    let (s, same) = p_icompare(s, IntPredicate::Eq, ta, tb);
    let (s, pa) = sp_byte_offset(s, a, lay.off_value);
    let (s, pb) = sp_byte_offset(s, b, lay.off_value);
    let (s, r) = p_ifv(s, same, MlirType::I1);
    let (s, ts) = p_const(s, MlirType::I64, lay.tag_string);
    let (s, is_str) = p_icompare(s, IntPredicate::Eq, ta, ts);
    let (s, rs) = p_ifv(s, is_str, MlirType::I1);
    let (s, sa) = p_load(s, pa, MlirType::Ptr);
    let (s, sb) = p_load(s, pb, MlirType::Ptr);
    let (s, c) = p_call(s, ExtFn::Strcmp, MlirType::I32, 2, sa, sb, 0, 0);
    let (s, z) = p_const(s, MlirType::I32, 0);
    let (s, seq_) = p_icompare(s, IntPredicate::Eq, c, z);
    let s = p_yieldv(s, seq_);
    let s = p_mark(s, Op::Else);
    let (s, tn) = p_const(s, MlirType::I64, lay.tag_number);
    let (s, is_num) = p_icompare(s, IntPredicate::Eq, ta, tn);
    let (s, rn) = p_ifv(s, is_num, MlirType::I1);
    let (s, fa) = p_load(s, pa, MlirType::F64);
    let (s, fb) = p_load(s, pb, MlirType::F64);
    let (s, feq) = p_fcompare(s, CmpfPredicate::Oeq, fa, fb);
    let s = p_yieldv(s, feq);
    let s = p_mark(s, Op::Else);
    let (s, ia) = p_load(s, pa, MlirType::I64);
    let (s, ib) = p_load(s, pb, MlirType::I64);
    let (s, ieq) = p_icompare(s, IntPredicate::Eq, ia, ib);
    let s = p_yieldv(s, ieq);
    let s = p_mark(s, Op::EndIf);
    let s = p_yieldv(s, rn);
    let s = p_mark(s, Op::EndIf);
    let s = p_yieldv(s, rs);
    let s = p_mark(s, Op::Else);
    let (s, f) = p_const(s, MlirType::I1, 0);
    let s = p_yieldv(s, f);
    let s = p_mark(s, Op::EndIf);
    (s, r)
}

/// How a hash key of a given tag is policed before a lookup.
#[derive(Clone, Copy, Debug, PartialEq, Eq, Structural)]
pub enum KeyPolicy {
    /// A nil key is a fatal error.
    TrapNil,
    /// A NaN key is a fatal error.
    CheckNaN,
}

/// The policies for nil keys and for number keys, in order.
#[derive(Debug)]
pub struct KeyPolicies {
    pub nil: Vec<KeyPolicy>,
    pub number: Vec<KeyPolicy>,
}

/// `scf.if cond { diagnostic msg; exit(1) }`.
pub open spec fn sp_trap_if(s: St, cond: nat, msg: Global) -> St {
    let s = p_mark(s, Op::If { cond: sv(cond) });
    let (s, m) = p_addr(s, msg);
    let s = sp_exit_with_message(s, m);
    let s = p_mark(s, Op::Yield);
    let s = p_mark(s, Op::Else);
    let s = p_mark(s, Op::Yield);
    p_mark(s, Op::EndIf)
}

/// One policy applied to the key in `slot`.
pub open spec fn sp_policy(s: St, slot: nat, p: KeyPolicy, lay: TagLayout) -> St {
    match p {
        KeyPolicy::TrapNil => {
            let (s, m) = p_addr(s, Global::STableIndexNil);
            sp_exit_with_message(s, m)
        },
        KeyPolicy::CheckNaN => {
            let (s, pp) = sp_byte_offset(s, slot, lay.off_value);
            let (s, v) = p_load(s, pp, MlirType::F64);
            let (s, nan) = p_fcompare(s, CmpfPredicate::Une, v, v);
            sp_trap_if(s, nan, Global::STableIndexNan)
        },
    }
}

pub open spec fn policy_ids(p: KeyPolicy) -> nat {
    match p {
        KeyPolicy::TrapNil => 17,
        KeyPolicy::CheckNaN => 21,
    }
}

/// The policies `ps`, one after the other.
pub open spec fn sp_policies(s: St, slot: nat, ps: Seq<KeyPolicy>, lay: TagLayout) -> St
    decreases ps.len(),
{
    if ps.len() == 0 {
        s
    } else {
        sp_policy(sp_policies(s, slot, ps.drop_last(), lay), slot, ps.last(), lay)
    }
}

pub open spec fn policies_ids(ps: Seq<KeyPolicy>) -> nat
    decreases ps.len(),
{
    if ps.len() == 0 {
        0
    } else {
        policies_ids(ps.drop_last()) + policy_ids(ps.last())
    }
}

/// When the key's tag `tag` is `tag_const`, the policies `ps`; nothing
/// when there are none.
pub open spec fn sp_gate_tag(s: St, slot: nat, tag: nat, tag_const: i64, ps: Seq<KeyPolicy>, lay: TagLayout) -> St {
    if ps.len() == 0 {
        s
    } else {
        let (s, c) = p_const(s, MlirType::I64, tag_const);
        let (s, m) = p_icompare(s, IntPredicate::Eq, tag, c);
        let s = p_mark(s, Op::If { cond: sv(m) });
        let s = sp_policies(s, slot, ps, lay);
        let s = p_mark(s, Op::Yield);
        let s = p_mark(s, Op::Else);
        let s = p_mark(s, Op::Yield);
        p_mark(s, Op::EndIf)
    }
}

pub open spec fn gate_tag_ids(ps: Seq<KeyPolicy>) -> nat {
    if ps.len() == 0 {
        0
    } else {
        2 + policies_ids(ps)
    }
}

/// The run-time validity check of a search key: its tag is read once,
/// then the nil policies and the number policies.
pub open spec fn sp_validity_gate(s: St, slot: nat, lay: TagLayout, nil: Seq<KeyPolicy>, number: Seq<KeyPolicy>) -> St {
    let (s, tag) = p_load(s, slot, MlirType::I64);
    let s = sp_gate_tag(s, slot, tag, lay.tag_nil, nil, lay);
    sp_gate_tag(s, slot, tag, lay.tag_number, number, lay)
}

pub open spec fn gate_ids(nil: Seq<KeyPolicy>, number: Seq<KeyPolicy>) -> nat {
    1 + gate_tag_ids(nil) + gate_tag_ids(number)
}

/// Hash table layout: the header's capacity and entries offsets, and
/// the 32-byte entry.
pub open spec fn hash_off_entries() -> i64 {
    16
}

pub open spec fn hash_entry_size() -> i64 {
    32
}

/// The open-addressing probe for the key in `key_slot` in the hash part
/// `hash_buf` of capacity `cap` (a power of two): after the validity
/// gate, start at `hash & (cap - 1)` and step by one bucket until an
/// empty bucket or an equal key, skipping deleted entries; the value is
/// the bucket index.
pub open spec fn sp_probe_loop(
    s: St,
    hash_buf: nat,
    cap: nat,
    key_slot: nat,
    lay: TagLayout,
    nil: Seq<KeyPolicy>,
    number: Seq<KeyPolicy>,
) -> (St, nat) {
    let s = sp_validity_gate(s, key_slot, lay, nil, number);
    let (s, one) = p_const(s, MlirType::I64, 1);
    let (s, mask) = p_bin(s, ArithOp::Subi, cap, one);
    let (s, hash) = sp_key_hash(s, key_slot, lay);
    let (s, start) = p_bin(s, ArithOp::Andi, hash, mask);
    let (s, r, bucket) = p_while1(s, start);
    let (s, esize) = p_const(s, MlirType::I64, hash_entry_size());
    let (s, ebase) = p_const(s, MlirType::I64, hash_off_entries());
    let (s, boff) = p_bin(s, ArithOp::Muli, bucket, esize);
    let (s, eoff) = p_bin(s, ArithOp::Addi, boff, ebase);
    let (s, entry) = p_gep(s, hash_buf, eoff);
    let (s, ktag) = p_load(s, entry, MlirType::I64);
    let (s, tnil) = p_const(s, MlirType::I64, lay.tag_nil);
    let (s, is_null) = p_icompare(s, IntPredicate::Eq, ktag, tnil);
    let (s, tdel) = p_const(s, MlirType::I64, lay.tag_deleted);
    let (s, is_del) = p_icompare(s, IntPredicate::Eq, ktag, tdel);
    let (s, skip) = p_bin(s, ArithOp::Ori, is_null, is_del);
    let (s, eq) = p_ifv(s, skip, MlirType::I1);
    let (s, f) = p_const(s, MlirType::I1, 0);
    let s = p_yieldv(s, f);
    let s = p_mark(s, Op::Else);
    let (s, e2) = sp_key_eq(s, entry, key_slot, lay);
    let s = p_yieldv(s, e2);
    let s = p_mark(s, Op::EndIf);
    let (s, stop) = p_bin(s, ArithOp::Ori, is_null, eq);
    let (s, t) = p_const(s, MlirType::I1, 1);
    let (s, go) = p_bin(s, ArithOp::Xori, stop, t);
    let s = p_mark(s, Op::ConditionWith { cond: sv(go), value: sv(bucket) });
    let (s, b2) = p_do1(s);
    let (s, one2) = p_const(s, MlirType::I64, 1);
    let (s, plus) = p_bin(s, ArithOp::Addi, b2, one2);
    let (s, nb) = p_bin(s, ArithOp::Andi, plus, mask);
    let s = p_yieldv(s, nb);
    let s = p_mark(s, Op::EndWhile);
    (s, r)
}

/// The policies number exactly `policies_ids` values.
pub(crate) proof fn lemma_policies_count(s: St, slot: nat, ps: Seq<KeyPolicy>, lay: TagLayout)
    ensures
        sp_policies(s, slot, ps, lay).1 == s.1 + policies_ids(ps),
    decreases ps.len(),
{
    if ps.len() > 0 {
        lemma_policies_count(s, slot, ps.drop_last(), lay);
    }
}

/// The probe loop numbers exactly `probe_ids` values.
pub(crate) proof fn lemma_probe_loop_count(
    s: St,
    hash_buf: nat,
    cap: nat,
    key_slot: nat,
    lay: TagLayout,
    nil: Seq<KeyPolicy>,
    number: Seq<KeyPolicy>,
)
    ensures
        sp_probe_loop(s, hash_buf, cap, key_slot, lay, nil, number).0.1 == s.1 + probe_ids(nil, number),
{
    let (s1, tag) = p_load(s, key_slot, MlirType::I64);
    if nil.len() > 0 {
        let (s2, c) = p_const(s1, MlirType::I64, lay.tag_nil);
        let (s3, m) = p_icompare(s2, IntPredicate::Eq, tag, c);
        lemma_policies_count(p_mark(s3, Op::If { cond: sv(m) }), key_slot, nil, lay);
    }
    let s4 = sp_gate_tag(s1, key_slot, tag, lay.tag_nil, nil, lay);
    assert(s4.1 == s1.1 + gate_tag_ids(nil));
    if number.len() > 0 {
        let (s2, c) = p_const(s4, MlirType::I64, lay.tag_number);
        let (s3, m) = p_icompare(s2, IntPredicate::Eq, tag, c);
        lemma_policies_count(p_mark(s3, Op::If { cond: sv(m) }), key_slot, number, lay);
    }
    assert(sp_validity_gate(s, key_slot, lay, nil, number).1 == s.1 + gate_ids(nil, number));
}

pub open spec fn probe_ids(nil: Seq<KeyPolicy>, number: Seq<KeyPolicy>) -> nat {
    79 + gate_ids(nil, number)
}

pub(crate) fn e_fcompare(cx: &mut EmitCx, pred: CmpfPredicate, lhs: usize, rhs: usize) -> (v: usize)
    requires
        old(cx).next < usize::MAX,
    ensures
        (st(*final(cx)), un(v)) == p_fcompare(st(*old(cx)), pred, un(lhs), un(rhs)),
{
    let v = cx.next;
    cx.ops.push(Op::Cmpf { result: v, pred, lhs, rhs });
    cx.next = v + 1;
    v
}

pub(crate) fn e_extui(cx: &mut EmitCx, operand: usize) -> (v: usize)
    requires
        old(cx).next < usize::MAX,
    ensures
        (st(*final(cx)), un(v)) == p_extui(st(*old(cx)), un(operand)),
{
    let v = cx.next;
    cx.ops.push(Op::ExtUi { result: v, operand });
    cx.next = v + 1;
    v
}

pub(crate) fn e_ifv(cx: &mut EmitCx, cond: usize, ty: MlirType) -> (v: usize)
    requires
        old(cx).next < usize::MAX,
    ensures
        (st(*final(cx)), un(v)) == p_ifv(st(*old(cx)), un(cond), ty),
{
    let v = cx.next;
    cx.ops.push(Op::IfValue { result: v, cond, ty });
    cx.next = v + 1;
    v
}

pub(crate) fn e_yieldv(cx: &mut EmitCx, value: usize)
    ensures
        st(*final(cx)) == p_yieldv(st(*old(cx)), un(value)),
{
    cx.ops.push(Op::YieldValue { value });
}

pub(crate) fn e_while1(cx: &mut EmitCx, init: usize) -> (r: (usize, usize))
    requires
        old(cx).next + 2 <= usize::MAX,
    ensures
        (st(*final(cx)), un(r.0), un(r.1)) == p_while1(st(*old(cx)), un(init)),
{
    let v = cx.next;
    cx.ops.push(Op::WhileIter { result: v, init, arg: v + 1, ty: MlirType::I64 });
    cx.next = v + 2;
    (v, v + 1)
}

pub(crate) fn e_do1(cx: &mut EmitCx) -> (v: usize)
    requires
        old(cx).next < usize::MAX,
    ensures
        (st(*final(cx)), un(v)) == p_do1(st(*old(cx))),
{
    let v = cx.next;
    cx.ops.push(Op::DoWith { arg: v });
    cx.next = v + 1;
    v
}

pub(crate) fn e_while2(cx: &mut EmitCx, init: usize, init2: usize) -> (r: (usize, usize, usize))
    requires
        old(cx).next + 4 <= usize::MAX,
    ensures
        (st(*final(cx)), un(r.0), un(r.1), un(r.2)) == p_while2(st(*old(cx)), un(init), un(init2)),
{
    let v = cx.next;
    cx.ops.push(Op::WhileIter2 { result: v, result2: v + 1, init, init2, arg: v + 2, arg2: v + 3 });
    cx.next = v + 4;
    (v, v + 2, v + 3)
}

pub(crate) fn e_do2(cx: &mut EmitCx) -> (r: (usize, usize))
    requires
        old(cx).next + 2 <= usize::MAX,
    ensures
        (st(*final(cx)), un(r.0), un(r.1)) == p_do2(st(*old(cx))),
{
    let v = cx.next;
    cx.ops.push(Op::DoWith2 { arg: v, arg2: v + 1 });
    cx.next = v + 2;
    (v, v + 1)
}

/// Emits the FNV-1a hash of a NUL-terminated string.
pub(crate) fn emit_string_hash(cx: &mut EmitCx, str_ptr: usize) -> (v: usize)
    requires
        old(cx).next + 18 <= usize::MAX,
    ensures
        (st(*final(cx)), un(v)) == sp_string_hash(st(*old(cx)), un(str_ptr)),
        final(cx).next == old(cx).next + 18,
{
    let len = e_call(cx, ExtFn::Strlen, MlirType::I64, 1, str_ptr, 0, 0, 0);
    let h0 = e_const(cx, MlirType::I64, -3750763034362895579i64);
    let i0 = e_const(cx, MlirType::I64, 0);
    let (r, ha, ia) = e_while2(cx, h0, i0);
    let go = e_icompare(cx, IntPredicate::Slt, ia, len);
    e_mark(cx, Op::ConditionWith2 { cond: go, value: ha, value2: ia });
    let (hb, ib) = e_do2(cx);
    let bp = e_gep(cx, str_ptr, ib);
    let b8 = e_load(cx, bp, MlirType::I8);
    let b64 = e_extui(cx, b8);
    let x = e_bin(cx, ArithOp::Xori, hb, b64);
    let prime = e_const(cx, MlirType::I64, 1099511628211i64);
    let nh = e_bin(cx, ArithOp::Muli, x, prime);
    let one = e_const(cx, MlirType::I64, 1);
    let ni = e_bin(cx, ArithOp::Addi, ib, one);
    e_mark(cx, Op::YieldValue2 { value: nh, value2: ni });
    e_mark(cx, Op::EndWhile);
    r
}

/// Emits the hash of the key in a tagged slot.
pub(crate) fn emit_key_hash(cx: &mut EmitCx, slot: usize, lay: TagLayout) -> (v: usize)
    requires
        old(cx).next + 28 <= usize::MAX,
    ensures
        (st(*final(cx)), un(v)) == sp_key_hash(st(*old(cx)), un(slot), lay),
        final(cx).next == old(cx).next + 28,
{
    let tag = e_load(cx, slot, MlirType::I64);
    let pp = emit_byte_offset_ptr(cx, slot, lay.off_value);
    let prime = e_const(cx, MlirType::I64, 1099511628211i64);
    let ts = e_const(cx, MlirType::I64, lay.tag_string);
    let is_str = e_icompare(cx, IntPredicate::Eq, tag, ts);
    let r = e_ifv(cx, is_str, MlirType::I64);
    let sp = e_load(cx, pp, MlirType::Ptr);
    let h = emit_string_hash(cx, sp);
    e_yieldv(cx, h);
    e_mark(cx, Op::Else);
    let bits = e_load(cx, pp, MlirType::I64);
    let h2 = e_bin(cx, ArithOp::Muli, bits, prime);
    e_yieldv(cx, h2);
    e_mark(cx, Op::EndIf);
    r
}

/// Emits the key equality of two tagged slots.
pub(crate) fn emit_key_eq(cx: &mut EmitCx, a: usize, b: usize, lay: TagLayout) -> (v: usize)
    requires
        old(cx).next + 26 <= usize::MAX,
    ensures
        (st(*final(cx)), un(v)) == sp_key_eq(st(*old(cx)), un(a), un(b), lay),
        final(cx).next == old(cx).next + 26,
{
    let ta = e_load(cx, a, MlirType::I64);
    let tb = e_load(cx, b, MlirType::I64);
    let same = e_icompare(cx, IntPredicate::Eq, ta, tb);
    let pa = emit_byte_offset_ptr(cx, a, lay.off_value);
    let pb = emit_byte_offset_ptr(cx, b, lay.off_value);
    let r = e_ifv(cx, same, MlirType::I1);
    let ts = e_const(cx, MlirType::I64, lay.tag_string);
    let is_str = e_icompare(cx, IntPredicate::Eq, ta, ts);
    let rs = e_ifv(cx, is_str, MlirType::I1);
    let sa = e_load(cx, pa, MlirType::Ptr);
    let sb = e_load(cx, pb, MlirType::Ptr);
    let c = e_call(cx, ExtFn::Strcmp, MlirType::I32, 2, sa, sb, 0, 0);
    let z = e_const(cx, MlirType::I32, 0);
    let seq_ = e_icompare(cx, IntPredicate::Eq, c, z);
    e_yieldv(cx, seq_);
    e_mark(cx, Op::Else);
    let tn = e_const(cx, MlirType::I64, lay.tag_number);
    let is_num = e_icompare(cx, IntPredicate::Eq, ta, tn);
    let rn = e_ifv(cx, is_num, MlirType::I1);
    let fa = e_load(cx, pa, MlirType::F64);
    let fb = e_load(cx, pb, MlirType::F64);
    let feq = e_fcompare(cx, CmpfPredicate::Oeq, fa, fb);
    e_yieldv(cx, feq);
    e_mark(cx, Op::Else);
    let ia = e_load(cx, pa, MlirType::I64);
    let ib = e_load(cx, pb, MlirType::I64);
    let ieq = e_icompare(cx, IntPredicate::Eq, ia, ib);
    e_yieldv(cx, ieq);
    e_mark(cx, Op::EndIf);
    e_yieldv(cx, rn);
    e_mark(cx, Op::EndIf);
    e_yieldv(cx, rs);
    e_mark(cx, Op::Else);
    let f = e_const(cx, MlirType::I1, 0);
    e_yieldv(cx, f);
    e_mark(cx, Op::EndIf);
    r
}

/// Emits `scf.if cond { diagnostic msg; exit(1) }`.
pub(crate) fn emit_trap_if(cx: &mut EmitCx, cond: usize, msg: Global)
    requires
        old(cx).next + 17 <= usize::MAX,
    ensures
        st(*final(cx)) == sp_trap_if(st(*old(cx)), un(cond), msg),
        final(cx).next == old(cx).next + 17,
{
    e_mark(cx, Op::If { cond });
    let m = e_addr(cx, msg);
    emit_exit_with_message(cx, m);
    e_mark(cx, Op::Yield);
    e_mark(cx, Op::Else);
    e_mark(cx, Op::Yield);
    e_mark(cx, Op::EndIf);
}

fn emit_policy(cx: &mut EmitCx, slot: usize, p: KeyPolicy, lay: TagLayout)
    requires
        old(cx).next + policy_ids(p) <= usize::MAX,
    ensures
        st(*final(cx)) == sp_policy(st(*old(cx)), un(slot), p, lay),
        final(cx).next == old(cx).next + policy_ids(p),
{
    match p {
        KeyPolicy::TrapNil => {
            let m = e_addr(cx, Global::STableIndexNil);
            emit_exit_with_message(cx, m);
        },
        KeyPolicy::CheckNaN => {
            let pp = emit_byte_offset_ptr(cx, slot, lay.off_value);
            let v = e_load(cx, pp, MlirType::F64);
            let nan = e_fcompare(cx, CmpfPredicate::Une, v, v);
            emit_trap_if(cx, nan, Global::STableIndexNan);
        },
    }
}

proof fn lemma_policies_ids_prefix(ps: Seq<KeyPolicy>, i: int)
    requires
        0 <= i <= ps.len(),
    ensures
        policies_ids(ps.take(i)) <= policies_ids(ps),
    decreases ps.len() - i,
{
    if i < ps.len() {
        lemma_policies_ids_prefix(ps, i + 1);
        assert(ps.take(i + 1).drop_last() =~= ps.take(i));
    } else {
        assert(ps.take(i) =~= ps);
    }
}

fn emit_policies(cx: &mut EmitCx, slot: usize, ps: &Vec<KeyPolicy>, lay: TagLayout)
    requires
        old(cx).next + policies_ids(ps@) <= usize::MAX,
    ensures
        st(*final(cx)) == sp_policies(st(*old(cx)), un(slot), ps@, lay),
        final(cx).next == old(cx).next + policies_ids(ps@),
{
    let ghost s0 = st(*old(cx));
    let len = ps.len();
    let mut i: usize = 0;
    proof {
        assert(ps@.take(0) =~= Seq::<KeyPolicy>::empty());
    }
    while i < len
        invariant
            len == ps@.len(),
            i <= len,
            s0.1 + policies_ids(ps@) <= usize::MAX,
            st(*cx) == sp_policies(s0, un(slot), ps@.take(i as int), lay),
            un(cx.next) == s0.1 + policies_ids(ps@.take(i as int)),
        decreases len - i,
    {
        let ghost pre = ps@.take(i + 1);
        proof {
            assert(pre.drop_last() =~= ps@.take(i as int));
            assert(pre.last() == ps@[i as int]);
            lemma_policies_ids_prefix(ps@, i + 1);
        }
        emit_policy(cx, slot, ps[i], lay);
        i = i + 1;
    }
    proof {
        assert(ps@.take(len as int) =~= ps@);
    }
}

fn emit_gate_tag(cx: &mut EmitCx, slot: usize, tag: usize, tag_const: i64, ps: &Vec<KeyPolicy>, lay: TagLayout)
    requires
        old(cx).next + gate_tag_ids(ps@) <= usize::MAX,
    ensures
        st(*final(cx)) == sp_gate_tag(st(*old(cx)), un(slot), un(tag), tag_const, ps@, lay),
        final(cx).next == old(cx).next + gate_tag_ids(ps@),
{
    if ps.len() == 0 {
        return;
    }
    let c = e_const(cx, MlirType::I64, tag_const);
    let m = e_icompare(cx, IntPredicate::Eq, tag, c);
    e_mark(cx, Op::If { cond: m });
    emit_policies(cx, slot, ps, lay);
    e_mark(cx, Op::Yield);
    e_mark(cx, Op::Else);
    e_mark(cx, Op::Yield);
    e_mark(cx, Op::EndIf);
}

/// Emits the run-time validity check of a search key.
pub(crate) fn emit_validity_gate(cx: &mut EmitCx, slot: usize, lay: TagLayout, pol: &KeyPolicies)
    requires
        old(cx).next + gate_ids(pol.nil@, pol.number@) <= usize::MAX,
    ensures
        st(*final(cx)) == sp_validity_gate(st(*old(cx)), un(slot), lay, pol.nil@, pol.number@),
        final(cx).next == old(cx).next + gate_ids(pol.nil@, pol.number@),
{
    let tag = e_load(cx, slot, MlirType::I64);
    emit_gate_tag(cx, slot, tag, lay.tag_nil, &pol.nil, lay);
    emit_gate_tag(cx, slot, tag, lay.tag_number, &pol.number, lay);
}

pub(crate) fn emit_probe_body(
    cx: &mut EmitCx,
    hash_buf: usize,
    cap: usize,
    key_slot: usize,
    lay: TagLayout,
    pol: &KeyPolicies,
) -> (v: usize)
    requires
        old(cx).next + probe_ids(pol.nil@, pol.number@) <= usize::MAX,
    ensures
        (st(*final(cx)), un(v)) == sp_probe_loop(st(*old(cx)), un(hash_buf), un(cap), un(key_slot), lay, pol.nil@, pol.number@),
        final(cx).next == old(cx).next + probe_ids(pol.nil@, pol.number@),
{
    emit_validity_gate(cx, key_slot, lay, pol);
    let one = e_const(cx, MlirType::I64, 1);
    let mask = e_bin(cx, ArithOp::Subi, cap, one);
    let hash = emit_key_hash(cx, key_slot, lay);
    let start = e_bin(cx, ArithOp::Andi, hash, mask);
    let (r, bucket) = e_while1(cx, start);
    let esize = e_const(cx, MlirType::I64, 32);
    let ebase = e_const(cx, MlirType::I64, 16);
    let boff = e_bin(cx, ArithOp::Muli, bucket, esize);
    let eoff = e_bin(cx, ArithOp::Addi, boff, ebase);
    let entry = e_gep(cx, hash_buf, eoff);
    let ktag = e_load(cx, entry, MlirType::I64);
    let tnil = e_const(cx, MlirType::I64, lay.tag_nil);
    let is_null = e_icompare(cx, IntPredicate::Eq, ktag, tnil);
    let tdel = e_const(cx, MlirType::I64, lay.tag_deleted);
    let is_del = e_icompare(cx, IntPredicate::Eq, ktag, tdel);
    let skip = e_bin(cx, ArithOp::Ori, is_null, is_del);
    let eq = e_ifv(cx, skip, MlirType::I1);
    let f = e_const(cx, MlirType::I1, 0);
    e_yieldv(cx, f);
    e_mark(cx, Op::Else);
    let e2 = emit_key_eq(cx, entry, key_slot, lay);
    e_yieldv(cx, e2);
    e_mark(cx, Op::EndIf);
    let stop = e_bin(cx, ArithOp::Ori, is_null, eq);
    let t = e_const(cx, MlirType::I1, 1);
    let go = e_bin(cx, ArithOp::Xori, stop, t);
    e_mark(cx, Op::ConditionWith { cond: go, value: bucket });
    let b2 = e_do1(cx);
    let one2 = e_const(cx, MlirType::I64, 1);
    let plus = e_bin(cx, ArithOp::Addi, b2, one2);
    let nb = e_bin(cx, ArithOp::Andi, plus, mask);
    e_yieldv(cx, nb);
    e_mark(cx, Op::EndWhile);
    r
}

/// Emits the open-addressing probe of a hash part for the key in
/// `key_slot`; the value is the bucket where the probe stops. An error
/// exactly when the SSA numbering would overflow.
pub fn emit_hash_probe_loop(
    cx: &mut EmitCx,
    hash_buf: usize,
    cap: usize,
    key_slot: usize,
    lay: TagLayout,
    pol: &KeyPolicies,
) -> (r: Result<usize, CodegenError>)
    ensures
        r is Ok <==> old(cx).next + probe_ids(pol.nil@, pol.number@) <= usize::MAX,
        r is Ok ==> (st(*final(cx)), un(r->Ok_0)) == sp_probe_loop(
            st(*old(cx)),
            un(hash_buf),
            un(cap),
            un(key_slot),
            lay,
            pol.nil@,
            pol.number@,
        ),
        r is Err ==> r->Err_0 is UnsupportedExpr,
{
    let k = probe_id_count(pol);
    if k.is_none() || cx.next > usize::MAX - k.unwrap() {
        return Err(CodegenError::UnsupportedExpr(String::from_str("SSA numbering overflow")));
    }
    Ok(emit_probe_body(cx, hash_buf, cap, key_slot, lay, pol))
}

/// `Some(probe_ids(..))` when it fits in `usize`.
pub(crate) fn probe_id_count(pol: &KeyPolicies) -> (r: Option<usize>)
    ensures
        r is Some <==> probe_ids(pol.nil@, pol.number@) <= usize::MAX,
        r is Some ==> r->0 == probe_ids(pol.nil@, pol.number@),
{
    let a = gate_tag_count(&pol.nil);
    let b = gate_tag_count(&pol.number);
    match (a, b) {
        (Some(x), Some(y)) => {
            if x <= usize::MAX - 80 - y {
                Some(80 + x + y)
            } else {
                None
            }
        },
        _ => None,
    }
}

/// `Some(gate_tag_ids(ps))` when it fits in `usize`, given at most a
/// small bound.
fn gate_tag_count(ps: &Vec<KeyPolicy>) -> (r: Option<usize>)
    ensures
        r is Some <==> gate_tag_ids(ps@) <= usize::MAX - 80,
        r is Some ==> r->0 == gate_tag_ids(ps@),
{
    if ps.len() == 0 {
        return Some(0);
    }
    let mut total: usize = 2;
    let mut i: usize = 0;
    proof {
        assert(ps@.take(0) =~= Seq::<KeyPolicy>::empty());
    }
    while i < ps.len()
        invariant
            i <= ps@.len(),
            ps@.len() > 0,
            total == 2 + policies_ids(ps@.take(i as int)),
            total <= usize::MAX - 80,
        decreases ps@.len() - i,
    {
        proof {
            assert(ps@.take(i + 1).drop_last() =~= ps@.take(i as int));
            lemma_policies_ids_prefix(ps@, i + 1);
        }
        let w: usize = match ps[i] {
            KeyPolicy::TrapNil => 17,
            KeyPolicy::CheckNaN => 21,
        };
        if total > usize::MAX - 80 - w {
            return None;
        }
        total = total + w;
        i = i + 1;
    }
    proof {
        assert(ps@.take(ps@.len() as int) =~= ps@);
    }
    Some(total)
}


/// `llvm.mlir.zero : !llvm.ptr`.
pub open spec fn p_null(s: St) -> (St, nat) {
    ((s.0.push(Op::NullPtr { result: sv(s.1) }), s.1 + 1), s.1)
}

pub(crate) fn e_null(cx: &mut EmitCx) -> (v: usize)
    requires
        old(cx).next < usize::MAX,
    ensures
        (st(*final(cx)), un(v)) == p_null(st(*old(cx))),
{
    let v = cx.next;
    cx.ops.push(Op::NullPtr { result: v });
    cx.next = v + 1;
    v
}

/// Offsets of a table header's hash-part pointer, and of a hash part's
/// capacity and count.
pub open spec fn table_off_hash_buf() -> i64 {
    24
}

pub open spec fn hash_off_cap() -> i64 {
    0
}

pub open spec fn hash_off_count() -> i64 {
    8
}

/// Offset of an entry's value slot.
pub open spec fn hash_entry_off_value_slot() -> i64 {
    16
}

/// Byte offset of bucket `i` in a hash part: `i * 32 + 16`.
pub open spec fn sp_entry_offset(s: St, i: nat) -> (St, nat) {
    let (s, es) = p_const(s, MlirType::I64, hash_entry_size());
    let (s, eo) = p_const(s, MlirType::I64, hash_off_entries());
    let (s, part) = p_bin(s, ArithOp::Muli, i, es);
    p_bin(s, ArithOp::Addi, part, eo)
}

/// The loop that clears the keys of a fresh hash part `buf` of
/// capacity `cap`, storing `null` in each bucket's key word.
pub open spec fn sp_clear_keys(s: St, buf: nat, cap: nat, null: nat) -> St {
    let (s, zero) = p_const(s, MlirType::I64, 0);
    let (s, _r, i) = p_while1(s, zero);
    let (s, go) = p_icompare(s, IntPredicate::Slt, i, cap);
    let s = p_mark(s, Op::ConditionWith { cond: sv(go), value: sv(i) });
    let (s, j) = p_do1(s);
    let (s, off) = sp_entry_offset(s, j);
    let (s, key) = p_gep(s, buf, off);
    let s = p_store(s, null, key);
    let (s, one) = p_const(s, MlirType::I64, 1);
    let (s, nj) = p_bin(s, ArithOp::Addi, j, one);
    let s = p_yieldv(s, nj);
    p_mark(s, Op::EndWhile)
}

/// Moves the occupied entry at `old_entry` into the hash part `buf` of
/// capacity `cap`: probe for its key, then copy the key's tag and
/// payload and the value's tag and payload.
pub open spec fn sp_migrate_entry(
    s: St,
    old_entry: nat,
    buf: nat,
    cap: nat,
    lay: TagLayout,
    nil: Seq<KeyPolicy>,
    number: Seq<KeyPolicy>,
) -> St {
    let (s, bucket) = sp_probe_loop(s, buf, cap, old_entry, lay, nil, number);
    let (s, off) = sp_entry_offset(s, bucket);
    let (s, ne) = p_gep(s, buf, off);
    let (s, ktag) = p_load(s, old_entry, MlirType::I64);
    let s = p_store(s, ktag, ne);
    let (s, okp) = sp_byte_offset(s, old_entry, lay.off_value);
    let (s, kpay) = p_load(s, okp, MlirType::I64);
    let (s, nkp) = sp_byte_offset(s, ne, lay.off_value);
    let s = p_store(s, kpay, nkp);
    let (s, vso) = p_const(s, MlirType::I64, hash_entry_off_value_slot());
    let (s, ovs) = p_gep(s, old_entry, vso);
    let (s, nvs) = p_gep(s, ne, vso);
    let (s, vtag) = p_load(s, ovs, MlirType::I64);
    let s = p_store(s, vtag, nvs);
    let (s, ovp) = sp_byte_offset(s, ovs, lay.off_value);
    let (s, v) = p_load(s, ovp, MlirType::F64);
    let (s, nvp) = sp_byte_offset(s, nvs, lay.off_value);
    p_store(s, v, nvp)
}

/// The loop over the `cap` buckets of the old hash part `old`,
/// migrating each occupied entry (neither nil nor deleted) into `buf`
/// of capacity `new_cap`.
pub open spec fn sp_rehash(
    s: St,
    old: nat,
    cap: nat,
    buf: nat,
    new_cap: nat,
    lay: TagLayout,
    nil: Seq<KeyPolicy>,
    number: Seq<KeyPolicy>,
) -> St {
    let (s, zero) = p_const(s, MlirType::I64, 0);
    let (s, _r, i) = p_while1(s, zero);
    let (s, go) = p_icompare(s, IntPredicate::Slt, i, cap);
    let s = p_mark(s, Op::ConditionWith { cond: sv(go), value: sv(i) });
    let (s, j) = p_do1(s);
    let (s, off) = sp_entry_offset(s, j);
    let (s, oe) = p_gep(s, old, off);
    let (s, ktag) = p_load(s, oe, MlirType::I64);
    let (s, tn) = p_const(s, MlirType::I64, lay.tag_nil);
    let (s, not_nil) = p_icompare(s, IntPredicate::Ne, ktag, tn);
    let (s, td) = p_const(s, MlirType::I64, lay.tag_deleted);
    let (s, not_del) = p_icompare(s, IntPredicate::Ne, ktag, td);
    let (s, occupied) = p_bin(s, ArithOp::Andi, not_nil, not_del);
    let s = p_mark(s, Op::If { cond: sv(occupied) });
    let s = sp_migrate_entry(s, oe, buf, new_cap, lay, nil, number);
    let s = p_mark(s, Op::Yield);
    let s = p_mark(s, Op::Else);
    let s = p_mark(s, Op::Yield);
    let s = p_mark(s, Op::EndIf);
    let (s, one) = p_const(s, MlirType::I64, 1);
    let (s, nj) = p_bin(s, ArithOp::Addi, j, one);
    let s = p_yieldv(s, nj);
    p_mark(s, Op::EndWhile)
}

/// Growth of the hash part of the table at `table` once it is three
/// quarters full (`4 * count >= 3 * cap`): a part of twice the
/// capacity with the same count and cleared keys, every occupied entry
/// of the old part migrated into it, the old part freed, and the new
/// one installed in the header.
pub open spec fn sp_hash_grow(s: St, table: nat, lay: TagLayout, nil: Seq<KeyPolicy>, number: Seq<KeyPolicy>) -> St {
    let (s, hbs) = sp_byte_offset(s, table, table_off_hash_buf());
    let (s, hb) = p_load(s, hbs, MlirType::Ptr);
    let (s, caps) = sp_byte_offset(s, hb, hash_off_cap());
    let (s, cap) = p_load(s, caps, MlirType::I64);
    let (s, cnts) = sp_byte_offset(s, hb, hash_off_count());
    let (s, count) = p_load(s, cnts, MlirType::I64);
    let (s, four) = p_const(s, MlirType::I64, 4);
    let (s, three) = p_const(s, MlirType::I64, 3);
    let (s, count4) = p_bin(s, ArithOp::Muli, count, four);
    let (s, cap3) = p_bin(s, ArithOp::Muli, cap, three);
    let (s, need) = p_icompare(s, IntPredicate::Sge, count4, cap3);
    let s = p_mark(s, Op::If { cond: sv(need) });
    let (s, two) = p_const(s, MlirType::I64, 2);
    let (s, new_cap) = p_bin(s, ArithOp::Muli, cap, two);
    let (s, es) = p_const(s, MlirType::I64, hash_entry_size());
    let (s, entries) = p_bin(s, ArithOp::Muli, new_cap, es);
    let (s, ho) = p_const(s, MlirType::I64, hash_off_entries());
    let (s, total) = p_bin(s, ArithOp::Addi, entries, ho);
    let (s, buf) = p_call(s, ExtFn::Malloc, MlirType::Ptr, 1, total, 0, 0, 0);
    let (s, ncs) = sp_byte_offset(s, buf, hash_off_cap());
    let s = p_store(s, new_cap, ncs);
    let (s, nks) = sp_byte_offset(s, buf, hash_off_count());
    let s = p_store(s, count, nks);
    let (s, null) = p_null(s);
    let s = sp_clear_keys(s, buf, new_cap, null);
    let s = sp_rehash(s, hb, cap, buf, new_cap, lay, nil, number);
    let s = p_mark(s, Op::CallExtVoid { func: ExtFn::Free, argc: 1, a0: sv(hb), a1: 0, a2: 0, a3: 0 });
    let (s, hhs) = sp_byte_offset(s, table, table_off_hash_buf());
    let s = p_store(s, buf, hhs);
    let s = p_mark(s, Op::Yield);
    let s = p_mark(s, Op::Else);
    let s = p_mark(s, Op::Yield);
    p_mark(s, Op::EndIf)
}

pub open spec fn grow_ids(nil: Seq<KeyPolicy>, number: Seq<KeyPolicy>) -> nat {
    78 + probe_ids(nil, number)
}

fn emit_entry_offset(cx: &mut EmitCx, i: usize) -> (v: usize)
    requires
        old(cx).next + 4 <= usize::MAX,
    ensures
        (st(*final(cx)), un(v)) == sp_entry_offset(st(*old(cx)), un(i)),
        final(cx).next == old(cx).next + 4,
{
    let es = e_const(cx, MlirType::I64, 32);
    let eo = e_const(cx, MlirType::I64, 16);
    let part = e_bin(cx, ArithOp::Muli, i, es);
    e_bin(cx, ArithOp::Addi, part, eo)
}

fn emit_clear_keys(cx: &mut EmitCx, buf: usize, cap: usize, null: usize)
    requires
        old(cx).next + 12 <= usize::MAX,
    ensures
        st(*final(cx)) == sp_clear_keys(st(*old(cx)), un(buf), un(cap), un(null)),
        final(cx).next == old(cx).next + 12,
{
    let zero = e_const(cx, MlirType::I64, 0);
    let (_r, i) = e_while1(cx, zero);
    let go = e_icompare(cx, IntPredicate::Slt, i, cap);
    e_mark(cx, Op::ConditionWith { cond: go, value: i });
    let j = e_do1(cx);
    let off = emit_entry_offset(cx, j);
    let key = e_gep(cx, buf, off);
    e_store(cx, null, key);
    let one = e_const(cx, MlirType::I64, 1);
    let nj = e_bin(cx, ArithOp::Addi, j, one);
    e_yieldv(cx, nj);
    e_mark(cx, Op::EndWhile);
}

fn emit_migrate_entry(cx: &mut EmitCx, old_entry: usize, buf: usize, cap: usize, lay: TagLayout, pol: &KeyPolicies)
    requires
        old(cx).next + 20 + probe_ids(pol.nil@, pol.number@) <= usize::MAX,
    ensures
        st(*final(cx)) == sp_migrate_entry(st(*old(cx)), un(old_entry), un(buf), un(cap), lay, pol.nil@, pol.number@),
        final(cx).next == old(cx).next + 20 + probe_ids(pol.nil@, pol.number@),
{
    let bucket = emit_probe_body(cx, buf, cap, old_entry, lay, pol);
    let off = emit_entry_offset(cx, bucket);
    let ne = e_gep(cx, buf, off);
    let ktag = e_load(cx, old_entry, MlirType::I64);
    e_store(cx, ktag, ne);
    let okp = emit_byte_offset_ptr(cx, old_entry, lay.off_value);
    let kpay = e_load(cx, okp, MlirType::I64);
    let nkp = emit_byte_offset_ptr(cx, ne, lay.off_value);
    e_store(cx, kpay, nkp);
    let vso = e_const(cx, MlirType::I64, 16);
    let ovs = e_gep(cx, old_entry, vso);
    let nvs = e_gep(cx, ne, vso);
    let vtag = e_load(cx, ovs, MlirType::I64);
    e_store(cx, vtag, nvs);
    let ovp = emit_byte_offset_ptr(cx, ovs, lay.off_value);
    let v = e_load(cx, ovp, MlirType::F64);
    let nvp = emit_byte_offset_ptr(cx, nvs, lay.off_value);
    e_store(cx, v, nvp);
}

fn emit_rehash(
    cx: &mut EmitCx,
    old_buf: usize,
    cap: usize,
    buf: usize,
    new_cap: usize,
    lay: TagLayout,
    pol: &KeyPolicies,
)
    requires
        old(cx).next + 38 + probe_ids(pol.nil@, pol.number@) <= usize::MAX,
    ensures
        st(*final(cx)) == sp_rehash(st(*old(cx)), un(old_buf), un(cap), un(buf), un(new_cap), lay, pol.nil@, pol.number@),
        final(cx).next == old(cx).next + 38 + probe_ids(pol.nil@, pol.number@),
{
    let zero = e_const(cx, MlirType::I64, 0);
    let (_r, i) = e_while1(cx, zero);
    let go = e_icompare(cx, IntPredicate::Slt, i, cap);
    e_mark(cx, Op::ConditionWith { cond: go, value: i });
    let j = e_do1(cx);
    let off = emit_entry_offset(cx, j);
    let oe = e_gep(cx, old_buf, off);
    let ktag = e_load(cx, oe, MlirType::I64);
    let tn = e_const(cx, MlirType::I64, lay.tag_nil);
    let not_nil = e_icompare(cx, IntPredicate::Ne, ktag, tn);
    let td = e_const(cx, MlirType::I64, lay.tag_deleted);
    let not_del = e_icompare(cx, IntPredicate::Ne, ktag, td);
    let occupied = e_bin(cx, ArithOp::Andi, not_nil, not_del);
    e_mark(cx, Op::If { cond: occupied });
    emit_migrate_entry(cx, oe, buf, new_cap, lay, pol);
    e_mark(cx, Op::Yield);
    e_mark(cx, Op::Else);
    e_mark(cx, Op::Yield);
    e_mark(cx, Op::EndIf);
    let one = e_const(cx, MlirType::I64, 1);
    let nj = e_bin(cx, ArithOp::Addi, j, one);
    e_yieldv(cx, nj);
    e_mark(cx, Op::EndWhile);
}

fn emit_hash_grow_body(cx: &mut EmitCx, table: usize, lay: TagLayout, pol: &KeyPolicies)
    requires
        old(cx).next + grow_ids(pol.nil@, pol.number@) <= usize::MAX,
    ensures
        st(*final(cx)) == sp_hash_grow(st(*old(cx)), un(table), lay, pol.nil@, pol.number@),
        final(cx).next == old(cx).next + grow_ids(pol.nil@, pol.number@),
{
    let hbs = emit_byte_offset_ptr(cx, table, 24);
    let hb = e_load(cx, hbs, MlirType::Ptr);
    let caps = emit_byte_offset_ptr(cx, hb, 0);
    let cap = e_load(cx, caps, MlirType::I64);
    let cnts = emit_byte_offset_ptr(cx, hb, 8);
    let count = e_load(cx, cnts, MlirType::I64);
    let four = e_const(cx, MlirType::I64, 4);
    let three = e_const(cx, MlirType::I64, 3);
    let count4 = e_bin(cx, ArithOp::Muli, count, four);
    let cap3 = e_bin(cx, ArithOp::Muli, cap, three);
    let need = e_icompare(cx, IntPredicate::Sge, count4, cap3);
    e_mark(cx, Op::If { cond: need });
    let two = e_const(cx, MlirType::I64, 2);
    let new_cap = e_bin(cx, ArithOp::Muli, cap, two);
    let es = e_const(cx, MlirType::I64, 32);
    let entries = e_bin(cx, ArithOp::Muli, new_cap, es);
    let ho = e_const(cx, MlirType::I64, 16);
    let total = e_bin(cx, ArithOp::Addi, entries, ho);
    let buf = e_call(cx, ExtFn::Malloc, MlirType::Ptr, 1, total, 0, 0, 0);
    let ncs = emit_byte_offset_ptr(cx, buf, 0);
    e_store(cx, new_cap, ncs);
    let nks = emit_byte_offset_ptr(cx, buf, 8);
    e_store(cx, count, nks);
    let null = e_null(cx);
    emit_clear_keys(cx, buf, new_cap, null);
    emit_rehash(cx, hb, cap, buf, new_cap, lay, pol);
    e_mark(cx, Op::CallExtVoid { func: ExtFn::Free, argc: 1, a0: hb, a1: 0, a2: 0, a3: 0 });
    let hhs = emit_byte_offset_ptr(cx, table, 24);
    e_store(cx, buf, hhs);
    e_mark(cx, Op::Yield);
    e_mark(cx, Op::Else);
    e_mark(cx, Op::Yield);
    e_mark(cx, Op::EndIf);
}

/// Emits the growth check and growth of the hash part of the table at
/// `table`. An error exactly when the SSA numbering would overflow.
pub fn emit_hash_grow_if_needed(cx: &mut EmitCx, table: usize, lay: TagLayout, pol: &KeyPolicies) -> (r: Result<
    (),
    CodegenError,
>)
    ensures
        r is Ok <==> old(cx).next + grow_ids(pol.nil@, pol.number@) <= usize::MAX,
        r is Ok ==> st(*final(cx)) == sp_hash_grow(st(*old(cx)), un(table), lay, pol.nil@, pol.number@),
        r is Err ==> r->Err_0 is UnsupportedExpr,
{
    let k = match probe_id_count(pol) {
        Some(k) => k,
        None => {
            return Err(CodegenError::UnsupportedExpr(String::from_str("SSA numbering overflow")));
        },
    };
    if k > usize::MAX - 78 || cx.next > usize::MAX - 78 - k {
        return Err(CodegenError::UnsupportedExpr(String::from_str("SSA numbering overflow")));
    }
    emit_hash_grow_body(cx, table, lay, pol);
    Ok(())
}

/// What a lookup does when the key is absent.
#[derive(Clone, Copy, Debug, PartialEq, Eq, Structural)]
pub enum MissOutcome {
    /// The destination slot gets nil.
    NilOnMissing,
    /// A fatal error.
    TrapMissing,
}

pub open spec fn sp_miss(s: St, dst: nat, outcome: MissOutcome) -> St {
    match outcome {
        MissOutcome::NilOnMissing => p_mark(s, Op::StoreNilTagged { slot: sv(dst) }),
        MissOutcome::TrapMissing => {
            let (s, m) = p_addr(s, Global::STableMissingKey);
            sp_exit_with_message(s, m)
        },
    }
}

pub open spec fn miss_ids(outcome: MissOutcome) -> nat {
    match outcome {
        MissOutcome::NilOnMissing => 0,
        MissOutcome::TrapMissing => 17,
    }
}

/// Lookup of the key in `key_slot` in the hash part of the table at
/// `table`, copying the found value slot into `dst`: a miss when the
/// table has no hash part or the probe stops at an empty bucket.
pub open spec fn sp_hash_lookup(
    s: St,
    table: nat,
    key_slot: nat,
    dst: nat,
    outcome: MissOutcome,
    lay: TagLayout,
    nil: Seq<KeyPolicy>,
    number: Seq<KeyPolicy>,
) -> St {
    let (s, hbs) = sp_byte_offset(s, table, table_off_hash_buf());
    let (s, hb) = p_load(s, hbs, MlirType::Ptr);
    let (s, hbi) = p_ptrtoint(s, hb);
    let (s, zero) = p_const(s, MlirType::I64, 0);
    let (s, no_hash) = p_icompare(s, IntPredicate::Eq, hbi, zero);
    let s = p_mark(s, Op::If { cond: sv(no_hash) });
    let s = sp_miss(s, dst, outcome);
    let s = p_mark(s, Op::Yield);
    let s = p_mark(s, Op::Else);
    let (s, caps) = sp_byte_offset(s, hb, hash_off_cap());
    let (s, cap) = p_load(s, caps, MlirType::I64);
    let (s, bucket) = sp_probe_loop(s, hb, cap, key_slot, lay, nil, number);
    let (s, es) = p_const(s, MlirType::I64, hash_entry_size());
    let (s, boff) = p_bin(s, ArithOp::Muli, bucket, es);
    let (s, eb) = p_const(s, MlirType::I64, hash_off_entries());
    let (s, eoff) = p_bin(s, ArithOp::Addi, boff, eb);
    let (s, entry) = p_gep(s, hb, eoff);
    let (s, key_at) = p_load(s, entry, MlirType::Ptr);
    let (s, key_int) = p_ptrtoint(s, key_at);
    let (s, zero2) = p_const(s, MlirType::I64, 0);
    let (s, empty) = p_icompare(s, IntPredicate::Eq, key_int, zero2);
    let s = p_mark(s, Op::If { cond: sv(empty) });
    let s = sp_miss(s, dst, outcome);
    let s = p_mark(s, Op::Yield);
    let s = p_mark(s, Op::Else);
    let (s, vs) = sp_byte_offset(s, entry, hash_entry_off_value_slot());
    let (s, tag) = p_load(s, vs, MlirType::I64);
    let s = p_store(s, tag, dst);
    let (s, svp) = sp_byte_offset(s, vs, lay.off_value);
    let (s, dvp) = sp_byte_offset(s, dst, lay.off_value);
    let (s, payload) = p_load(s, svp, MlirType::I64);
    let s = p_store(s, payload, dvp);
    let s = p_mark(s, Op::Yield);
    let s = p_mark(s, Op::EndIf);
    let s = p_mark(s, Op::Yield);
    p_mark(s, Op::EndIf)
}

pub open spec fn lookup_ids(outcome: MissOutcome, nil: Seq<KeyPolicy>, number: Seq<KeyPolicy>) -> nat {
    26 + 2 * miss_ids(outcome) + probe_ids(nil, number)
}

fn emit_miss(cx: &mut EmitCx, dst: usize, outcome: MissOutcome)
    requires
        old(cx).next + miss_ids(outcome) <= usize::MAX,
    ensures
        st(*final(cx)) == sp_miss(st(*old(cx)), un(dst), outcome),
        final(cx).next == old(cx).next + miss_ids(outcome),
{
    match outcome {
        MissOutcome::NilOnMissing => e_mark(cx, Op::StoreNilTagged { slot: dst }),
        MissOutcome::TrapMissing => {
            let m = e_addr(cx, Global::STableMissingKey);
            emit_exit_with_message(cx, m);
        },
    }
}

#[verifier::rlimit(100)]
#[verifier::spinoff_prover]
fn emit_hash_lookup_body(
    cx: &mut EmitCx,
    table: usize,
    key_slot: usize,
    dst: usize,
    outcome: MissOutcome,
    lay: TagLayout,
    pol: &KeyPolicies,
)
    requires
        old(cx).next + lookup_ids(outcome, pol.nil@, pol.number@) <= usize::MAX,
    ensures
        st(*final(cx)) == sp_hash_lookup(st(*old(cx)), un(table), un(key_slot), un(dst), outcome, lay, pol.nil@, pol.number@),
{
    let hbs = emit_byte_offset_ptr(cx, table, 24);
    let hb = e_load(cx, hbs, MlirType::Ptr);
    let hbi = e_ptrtoint(cx, hb);
    let zero = e_const(cx, MlirType::I64, 0);
    let no_hash = e_icompare(cx, IntPredicate::Eq, hbi, zero);
    e_mark(cx, Op::If { cond: no_hash });
    emit_miss(cx, dst, outcome);
    e_mark(cx, Op::Yield);
    e_mark(cx, Op::Else);
    let caps = emit_byte_offset_ptr(cx, hb, 0);
    let cap = e_load(cx, caps, MlirType::I64);
    let bucket = emit_probe_body(cx, hb, cap, key_slot, lay, pol);
    let es = e_const(cx, MlirType::I64, 32);
    let boff = e_bin(cx, ArithOp::Muli, bucket, es);
    let eb = e_const(cx, MlirType::I64, 16);
    let eoff = e_bin(cx, ArithOp::Addi, boff, eb);
    let entry = e_gep(cx, hb, eoff);
    let key_at = e_load(cx, entry, MlirType::Ptr);
    let key_int = e_ptrtoint(cx, key_at);
    let zero2 = e_const(cx, MlirType::I64, 0);
    let empty = e_icompare(cx, IntPredicate::Eq, key_int, zero2);
    e_mark(cx, Op::If { cond: empty });
    emit_miss(cx, dst, outcome);
    e_mark(cx, Op::Yield);
    e_mark(cx, Op::Else);
    let vs = emit_byte_offset_ptr(cx, entry, 16);
    let tag = e_load(cx, vs, MlirType::I64);
    e_store(cx, tag, dst);
    let svp = emit_byte_offset_ptr(cx, vs, lay.off_value);
    let dvp = emit_byte_offset_ptr(cx, dst, lay.off_value);
    let payload = e_load(cx, svp, MlirType::I64);
    e_store(cx, payload, dvp);
    e_mark(cx, Op::Yield);
    e_mark(cx, Op::EndIf);
    e_mark(cx, Op::Yield);
    e_mark(cx, Op::EndIf);
}

/// Emits the lookup of the key in `key_slot` in the hash part of the
/// table at `table` into the tagged slot `dst`. An error exactly when
/// the SSA numbering would overflow.
pub fn emit_hash_lookup_into_tagged_slot(
    cx: &mut EmitCx,
    table: usize,
    key_slot: usize,
    dst: usize,
    outcome: MissOutcome,
    lay: TagLayout,
    pol: &KeyPolicies,
) -> (r: Result<(), CodegenError>)
    ensures
        r is Ok <==> old(cx).next + lookup_ids(outcome, pol.nil@, pol.number@) <= usize::MAX,
        r is Ok ==> st(*final(cx)) == sp_hash_lookup(
            st(*old(cx)),
            un(table),
            un(key_slot),
            un(dst),
            outcome,
            lay,
            pol.nil@,
            pol.number@,
        ),
        r is Err ==> r->Err_0 is UnsupportedExpr,
{
    let k = probe_id_count(pol);
    let m: usize = match outcome {
        MissOutcome::NilOnMissing => 0,
        MissOutcome::TrapMissing => 17,
    };
    let k = match k {
        Some(k) => k,
        None => {
            return Err(CodegenError::UnsupportedExpr(String::from_str("SSA numbering overflow")));
        },
    };
    if k > usize::MAX - 26 - 2 * m || cx.next > usize::MAX - 26 - 2 * m - k {
        return Err(CodegenError::UnsupportedExpr(String::from_str("SSA numbering overflow")));
    }
    emit_hash_lookup_body(cx, table, key_slot, dst, outcome, lay, pol);
    Ok(())
}


/// `llvm.alloca` of one value of type `ty`, preceded by its count.
pub open spec fn sp_alloca1(s: St, ty: MlirType) -> (St, nat) {
    let (s, one) = p_const(s, MlirType::I64, 1);
    ((s.0.push(Op::AllocaOf { result: sv(s.1), count: sv(one), ty }), s.1 + 1), s.1)
}

/// `arith.bitcast`.
pub open spec fn p_bitcast(s: St, operand: nat, ty: MlirType) -> (St, nat) {
    ((s.0.push(Op::Bitcast { result: sv(s.1), operand: sv(operand), ty }), s.1 + 1), s.1)
}

/// `arith.sitofp`.
pub open spec fn p_sitofp(s: St, operand: nat) -> (St, nat) {
    ((s.0.push(Op::SiToFp { result: sv(s.1), operand: sv(operand) }), s.1 + 1), s.1)
}

/// `scf.if cond { store true into slot }`.
pub open spec fn sp_set_flag_if(s: St, cond: nat, slot: nat) -> St {
    let s = p_mark(s, Op::If { cond: sv(cond) });
    let (s, t) = p_const(s, MlirType::I1, 1);
    let s = p_store(s, t, slot);
    let s = p_mark(s, Op::Yield);
    let s = p_mark(s, Op::Else);
    let s = p_mark(s, Op::Yield);
    p_mark(s, Op::EndIf)
}

/// The values the parts of `__lumelir_next` share: the table and the
/// previous key's tag and payload (the parameters), the array length,
/// the array and hash parts, the four result slots, and the `done`
/// and `found` flags.
#[derive(Clone, Copy, Debug, PartialEq, Eq, Structural)]
pub struct NextVals {
    pub table: usize,
    pub prev_tag: usize,
    pub prev_pay: usize,
    pub len: usize,
    pub arr: usize,
    pub hash: usize,
    pub k_tag: usize,
    pub k_pay: usize,
    pub v_tag: usize,
    pub v_pay: usize,
    pub done: usize,
    pub found: usize,
}

/// The function's opening: its parameters, the table's length, array
/// part and hash part, the result slots set to `(nil, nil)`, `done`
/// false, and `found` true exactly when the previous key is nil.
pub open spec fn sp_next_prologue(s: St, lay: TagLayout) -> (St, NextVals) {
    let t = s.1;
    let s = (s.0.push(Op::FuncNext { arg: sv(t), arg2: sv(t + 1), arg3: sv(t + 2) }), s.1 + 3);
    let (s, ls) = sp_byte_offset(s, t, 0);
    let (s, len) = p_load(s, ls, MlirType::I64);
    let (s, as_) = sp_byte_offset(s, t, 16);
    let (s, arr) = p_load(s, as_, MlirType::Ptr);
    let (s, hs) = sp_byte_offset(s, t, table_off_hash_buf());
    let (s, hash) = p_load(s, hs, MlirType::Ptr);
    let (s, k_tag) = sp_alloca1(s, MlirType::I64);
    let (s, k_pay) = sp_alloca1(s, MlirType::I64);
    let (s, v_tag) = sp_alloca1(s, MlirType::I64);
    let (s, v_pay) = sp_alloca1(s, MlirType::I64);
    let (s, done) = sp_alloca1(s, MlirType::I1);
    let (s, found) = sp_alloca1(s, MlirType::I1);
    let (s, nil) = p_const(s, MlirType::I64, lay.tag_nil);
    let (s, zero) = p_const(s, MlirType::I64, 0);
    let s = p_store(s, nil, k_tag);
    let s = p_store(s, zero, k_pay);
    let s = p_store(s, nil, v_tag);
    let s = p_store(s, zero, v_pay);
    let (s, f) = p_const(s, MlirType::I1, 0);
    let s = p_store(s, f, done);
    let (s, prev_nil) = p_icompare(s, IntPredicate::Eq, t + 1nat, nil);
    let s = p_store(s, prev_nil, found);
    (
        s,
        NextVals {
            table: sv(t),
            prev_tag: sv(t + 1),
            prev_pay: sv(t + 2),
            len: sv(len),
            arr: sv(arr),
            hash: sv(hash),
            k_tag: sv(k_tag),
            k_pay: sv(k_pay),
            v_tag: sv(v_tag),
            v_pay: sv(v_pay),
            done: sv(done),
            found: sv(found),
        },
    )
}

/// The walk of the array part, indices `1..=len` while not done: the
/// previous key is found when it is the number equal to the index; the
/// first live element after it is recorded as `(index, value)`.
pub open spec fn sp_next_array(s: St, v: NextVals, lay: TagLayout) -> St {
    let (s, one) = p_const(s, MlirType::I64, 1);
    let (s, _r, i) = p_while1(s, one);
    let (s, le) = p_icompare(s, IntPredicate::Sle, i, un(v.len));
    let (s, d) = p_load(s, un(v.done), MlirType::I1);
    let (s, t1) = p_const(s, MlirType::I1, 1);
    let (s, nd) = p_bin(s, ArithOp::Xori, d, t1);
    let (s, go) = p_bin(s, ArithOp::Andi, le, nd);
    let s = p_mark(s, Op::ConditionWith { cond: sv(go), value: sv(i) });
    let (s, j) = p_do1(s);
    let (s, one_in) = p_const(s, MlirType::I64, 1);
    let (s, jm1) = p_bin(s, ArithOp::Subi, j, one_in);
    let (s, esz) = p_const(s, MlirType::I64, lay.slot_size);
    let (s, off) = p_bin(s, ArithOp::Muli, jm1, esz);
    let (s, slot) = p_gep(s, un(v.arr), off);
    let (s, stag) = p_load(s, slot, MlirType::I64);
    let (s, nil) = p_const(s, MlirType::I64, lay.tag_nil);
    let (s, live) = p_icompare(s, IntPredicate::Ne, stag, nil);
    let (s, fnd) = p_load(s, un(v.found), MlirType::I1);
    let (s, tnum) = p_const(s, MlirType::I64, lay.tag_number);
    let (s, prev_num) = p_icompare(s, IntPredicate::Eq, un(v.prev_tag), tnum);
    let (s, jf) = p_sitofp(s, j);
    let (s, pf) = p_bitcast(s, un(v.prev_pay), MlirType::F64);
    let (s, same) = p_fcompare(s, CmpfPredicate::Oeq, jf, pf);
    let (s, is_prev) = p_bin(s, ArithOp::Andi, prev_num, same);
    let (s, t2) = p_const(s, MlirType::I1, 1);
    let (s, nf) = p_bin(s, ArithOp::Xori, fnd, t2);
    let (s, mark) = p_bin(s, ArithOp::Andi, nf, is_prev);
    let s = sp_set_flag_if(s, mark, un(v.found));
    let (s, fnd2) = p_load(s, un(v.found), MlirType::I1);
    let (s, lf) = p_bin(s, ArithOp::Andi, live, fnd2);
    let (s, t3) = p_const(s, MlirType::I1, 1);
    let (s, not_prev) = p_bin(s, ArithOp::Xori, is_prev, t3);
    let (s, rec) = p_bin(s, ArithOp::Andi, lf, not_prev);
    let s = p_mark(s, Op::If { cond: sv(rec) });
    let (s, tn) = p_const(s, MlirType::I64, lay.tag_number);
    let s = p_store(s, tn, un(v.k_tag));
    let (s, jf2) = p_sitofp(s, j);
    let (s, jbits) = p_bitcast(s, jf2, MlirType::I64);
    let s = p_store(s, jbits, un(v.k_pay));
    let (s, vt) = p_load(s, slot, MlirType::I64);
    let s = p_store(s, vt, un(v.v_tag));
    let (s, vpp) = sp_byte_offset(s, slot, lay.off_value);
    let (s, vp) = p_load(s, vpp, MlirType::I64);
    let s = p_store(s, vp, un(v.v_pay));
    let (s, t4) = p_const(s, MlirType::I1, 1);
    let s = p_store(s, t4, un(v.done));
    let s = p_mark(s, Op::Yield);
    let s = p_mark(s, Op::Else);
    let s = p_mark(s, Op::Yield);
    let s = p_mark(s, Op::EndIf);
    let (s, one2) = p_const(s, MlirType::I64, 1);
    let (s, jn) = p_bin(s, ArithOp::Addi, j, one2);
    let s = p_yieldv(s, jn);
    p_mark(s, Op::EndWhile)
}

/// The walk of the hash part when there is one and nothing was
/// recorded yet, buckets `0..cap` while not done: the previous key is
/// found when tag and payload are equal; the first live entry after it
/// is recorded as `(key, value)`.
pub open spec fn sp_next_hash(s: St, v: NextVals, lay: TagLayout) -> St {
    let (s, hi) = p_ptrtoint(s, un(v.hash));
    let (s, z) = p_const(s, MlirType::I64, 0);
    let (s, has) = p_icompare(s, IntPredicate::Ne, hi, z);
    let (s, d) = p_load(s, un(v.done), MlirType::I1);
    let (s, t1) = p_const(s, MlirType::I1, 1);
    let (s, nd) = p_bin(s, ArithOp::Xori, d, t1);
    let (s, guard) = p_bin(s, ArithOp::Andi, has, nd);
    let s = p_mark(s, Op::If { cond: sv(guard) });
    let (s, cs) = sp_byte_offset(s, un(v.hash), hash_off_cap());
    let (s, cap) = p_load(s, cs, MlirType::I64);
    let (s, zb) = p_const(s, MlirType::I64, 0);
    let (s, _r, b) = p_while1(s, zb);
    let (s, lt) = p_icompare(s, IntPredicate::Slt, b, cap);
    let (s, d2) = p_load(s, un(v.done), MlirType::I1);
    let (s, t2) = p_const(s, MlirType::I1, 1);
    let (s, nd2) = p_bin(s, ArithOp::Xori, d2, t2);
    let (s, go) = p_bin(s, ArithOp::Andi, lt, nd2);
    let s = p_mark(s, Op::ConditionWith { cond: sv(go), value: sv(b) });
    let s = sp_next_hash_step(s, v, cap, lay);
    let s = p_mark(s, Op::EndWhile);
    let s = p_mark(s, Op::Yield);
    let s = p_mark(s, Op::Else);
    let s = p_mark(s, Op::Yield);
    p_mark(s, Op::EndIf)
}

/// The after-region of the hash walk: one bucket.
pub open spec fn sp_next_hash_step(s: St, v: NextVals, cap: nat, lay: TagLayout) -> St {
    let (s, b) = p_do1(s);
    let (s, eb) = p_const(s, MlirType::I64, hash_off_entries());
    let (s, es) = p_const(s, MlirType::I64, hash_entry_size());
    let (s, bo) = p_bin(s, ArithOp::Muli, b, es);
    let (s, eo) = p_bin(s, ArithOp::Addi, bo, eb);
    let (s, e) = p_gep(s, un(v.hash), eo);
    let (s, kt) = p_load(s, e, MlirType::I64);
    let (s, nc) = p_const(s, MlirType::I64, lay.tag_nil);
    let (s, dc) = p_const(s, MlirType::I64, lay.tag_deleted);
    let (s, nn) = p_icompare(s, IntPredicate::Ne, kt, nc);
    let (s, ndl) = p_icompare(s, IntPredicate::Ne, kt, dc);
    let (s, live) = p_bin(s, ArithOp::Andi, nn, ndl);
    let (s, teq) = p_icompare(s, IntPredicate::Eq, kt, un(v.prev_tag));
    let (s, kpp) = sp_byte_offset(s, e, lay.off_value);
    let (s, kp) = p_load(s, kpp, MlirType::I64);
    let (s, peq) = p_icompare(s, IntPredicate::Eq, kp, un(v.prev_pay));
    let (s, keq) = p_bin(s, ArithOp::Andi, teq, peq);
    let (s, fnd) = p_load(s, un(v.found), MlirType::I1);
    let (s, t1) = p_const(s, MlirType::I1, 1);
    let (s, nf) = p_bin(s, ArithOp::Xori, fnd, t1);
    let (s, lnf) = p_bin(s, ArithOp::Andi, live, nf);
    let (s, mark) = p_bin(s, ArithOp::Andi, lnf, keq);
    let s = sp_set_flag_if(s, mark, un(v.found));
    let (s, fnd2) = p_load(s, un(v.found), MlirType::I1);
    let (s, lf) = p_bin(s, ArithOp::Andi, live, fnd2);
    let (s, t2) = p_const(s, MlirType::I1, 1);
    let (s, nke) = p_bin(s, ArithOp::Xori, keq, t2);
    let (s, rec) = p_bin(s, ArithOp::Andi, lf, nke);
    let s = p_mark(s, Op::If { cond: sv(rec) });
    let s = p_store(s, kt, un(v.k_tag));
    let s = p_store(s, kp, un(v.k_pay));
    let (s, vtp) = sp_byte_offset(s, e, hash_entry_off_value_slot());
    let (s, vt) = p_load(s, vtp, MlirType::I64);
    let (s, vpp) = sp_byte_offset(s, e, (hash_entry_off_value_slot() + lay.off_value) as i64);
    let (s, vp) = p_load(s, vpp, MlirType::I64);
    let s = p_store(s, vt, un(v.v_tag));
    let s = p_store(s, vp, un(v.v_pay));
    let (s, t3) = p_const(s, MlirType::I1, 1);
    let s = p_store(s, t3, un(v.done));
    let s = p_mark(s, Op::Yield);
    let s = p_mark(s, Op::Else);
    let s = p_mark(s, Op::Yield);
    let s = p_mark(s, Op::EndIf);
    let (s, oh) = p_const(s, MlirType::I64, 1);
    let (s, bn) = p_bin(s, ArithOp::Addi, b, oh);
    p_yieldv(s, bn)
}

/// The function's end: the four result slots returned.
pub open spec fn sp_next_epilogue(s: St, v: NextVals) -> St {
    let (s, a) = p_load(s, un(v.k_tag), MlirType::I64);
    let (s, b) = p_load(s, un(v.k_pay), MlirType::I64);
    let (s, c) = p_load(s, un(v.v_tag), MlirType::I64);
    let (s, d) = p_load(s, un(v.v_pay), MlirType::I64);
    let s = p_mark(s, Op::Return4 { a: sv(a), b: sv(b), c: sv(c), d: sv(d) });
    p_mark(s, Op::EndFunc)
}

/// `__lumelir_next(t, prev_tag, prev_payload)`: Lua's `next`, walking
/// the array part then the hash part and returning the entry after the
/// previous key as `(key_tag, key_payload, value_tag, value_payload)`,
/// or `(nil, 0, nil, 0)` when there is none.
pub open spec fn sp_next_function(s: St, lay: TagLayout) -> St {
    let (s, v) = sp_next_prologue(s, lay);
    let s = sp_next_array(s, v, lay);
    let s = sp_next_hash(s, v, lay);
    sp_next_epilogue(s, v)
}

/// SSA numbers the function defines.
pub open spec fn next_fn_ids() -> nat {
    131
}

fn emit_alloca1(cx: &mut EmitCx, ty: MlirType) -> (v: usize)
    requires
        old(cx).next + 2 <= usize::MAX,
    ensures
        (st(*final(cx)), un(v)) == sp_alloca1(st(*old(cx)), ty),
        final(cx).next == old(cx).next + 2,
{
    let one = e_const(cx, MlirType::I64, 1);
    let v = cx.next;
    cx.ops.push(Op::AllocaOf { result: v, count: one, ty });
    cx.next = v + 1;
    v
}

pub(crate) fn e_bitcast(cx: &mut EmitCx, operand: usize, ty: MlirType) -> (v: usize)
    requires
        old(cx).next < usize::MAX,
    ensures
        (st(*final(cx)), un(v)) == p_bitcast(st(*old(cx)), un(operand), ty),
{
    let v = cx.next;
    cx.ops.push(Op::Bitcast { result: v, operand, ty });
    cx.next = v + 1;
    v
}

pub(crate) fn e_sitofp(cx: &mut EmitCx, operand: usize) -> (v: usize)
    requires
        old(cx).next < usize::MAX,
    ensures
        (st(*final(cx)), un(v)) == p_sitofp(st(*old(cx)), un(operand)),
{
    let v = cx.next;
    cx.ops.push(Op::SiToFp { result: v, operand });
    cx.next = v + 1;
    v
}

fn emit_set_flag_if(cx: &mut EmitCx, cond: usize, slot: usize)
    requires
        old(cx).next + 1 <= usize::MAX,
    ensures
        st(*final(cx)) == sp_set_flag_if(st(*old(cx)), un(cond), un(slot)),
        final(cx).next == old(cx).next + 1,
{
    e_mark(cx, Op::If { cond });
    let t = e_const(cx, MlirType::I1, 1);
    e_store(cx, t, slot);
    e_mark(cx, Op::Yield);
    e_mark(cx, Op::Else);
    e_mark(cx, Op::Yield);
    e_mark(cx, Op::EndIf);
}

fn emit_next_prologue(cx: &mut EmitCx, lay: TagLayout) -> (v: NextVals)
    requires
        old(cx).next + 28 <= usize::MAX,
    ensures
        (st(*final(cx)), v) == sp_next_prologue(st(*old(cx)), lay),
        final(cx).next == old(cx).next + 28,
{
    let t = cx.next;
    cx.ops.push(Op::FuncNext { arg: t, arg2: t + 1, arg3: t + 2 });
    cx.next = t + 3;
    let ls = emit_byte_offset_ptr(cx, t, 0);
    let len = e_load(cx, ls, MlirType::I64);
    let as_ = emit_byte_offset_ptr(cx, t, 16);
    let arr = e_load(cx, as_, MlirType::Ptr);
    let hs = emit_byte_offset_ptr(cx, t, 24);
    let hash = e_load(cx, hs, MlirType::Ptr);
    let k_tag = emit_alloca1(cx, MlirType::I64);
    let k_pay = emit_alloca1(cx, MlirType::I64);
    let v_tag = emit_alloca1(cx, MlirType::I64);
    let v_pay = emit_alloca1(cx, MlirType::I64);
    let done = emit_alloca1(cx, MlirType::I1);
    let found = emit_alloca1(cx, MlirType::I1);
    let nil = e_const(cx, MlirType::I64, lay.tag_nil);
    let zero = e_const(cx, MlirType::I64, 0);
    e_store(cx, nil, k_tag);
    e_store(cx, zero, k_pay);
    e_store(cx, nil, v_tag);
    e_store(cx, zero, v_pay);
    let f = e_const(cx, MlirType::I1, 0);
    e_store(cx, f, done);
    let prev_nil = e_icompare(cx, IntPredicate::Eq, t + 1, nil);
    e_store(cx, prev_nil, found);
    NextVals {
        table: t,
        prev_tag: t + 1,
        prev_pay: t + 2,
        len,
        arr,
        hash,
        k_tag,
        k_pay,
        v_tag,
        v_pay,
        done,
        found,
    }
}

fn emit_next_array(cx: &mut EmitCx, v: NextVals, lay: TagLayout)
    requires
        old(cx).next + 43 <= usize::MAX,
    ensures
        st(*final(cx)) == sp_next_array(st(*old(cx)), v, lay),
        final(cx).next == old(cx).next + 43,
{
    let one = e_const(cx, MlirType::I64, 1);
    let (_r, i) = e_while1(cx, one);
    let le = e_icompare(cx, IntPredicate::Sle, i, v.len);
    let d = e_load(cx, v.done, MlirType::I1);
    let t1 = e_const(cx, MlirType::I1, 1);
    let nd = e_bin(cx, ArithOp::Xori, d, t1);
    let go = e_bin(cx, ArithOp::Andi, le, nd);
    e_mark(cx, Op::ConditionWith { cond: go, value: i });
    let j = e_do1(cx);
    let one_in = e_const(cx, MlirType::I64, 1);
    let jm1 = e_bin(cx, ArithOp::Subi, j, one_in);
    let esz = e_const(cx, MlirType::I64, lay.slot_size);
    let off = e_bin(cx, ArithOp::Muli, jm1, esz);
    let slot = e_gep(cx, v.arr, off);
    let stag = e_load(cx, slot, MlirType::I64);
    let nil = e_const(cx, MlirType::I64, lay.tag_nil);
    let live = e_icompare(cx, IntPredicate::Ne, stag, nil);
    let fnd = e_load(cx, v.found, MlirType::I1);
    let tnum = e_const(cx, MlirType::I64, lay.tag_number);
    let prev_num = e_icompare(cx, IntPredicate::Eq, v.prev_tag, tnum);
    let jf = e_sitofp(cx, j);
    let pf = e_bitcast(cx, v.prev_pay, MlirType::F64);
    let same = e_fcompare(cx, CmpfPredicate::Oeq, jf, pf);
    let is_prev = e_bin(cx, ArithOp::Andi, prev_num, same);
    let t2 = e_const(cx, MlirType::I1, 1);
    let nf = e_bin(cx, ArithOp::Xori, fnd, t2);
    let mark = e_bin(cx, ArithOp::Andi, nf, is_prev);
    emit_set_flag_if(cx, mark, v.found);
    let fnd2 = e_load(cx, v.found, MlirType::I1);
    let lf = e_bin(cx, ArithOp::Andi, live, fnd2);
    let t3 = e_const(cx, MlirType::I1, 1);
    let not_prev = e_bin(cx, ArithOp::Xori, is_prev, t3);
    let rec = e_bin(cx, ArithOp::Andi, lf, not_prev);
    e_mark(cx, Op::If { cond: rec });
    let tn = e_const(cx, MlirType::I64, lay.tag_number);
    e_store(cx, tn, v.k_tag);
    let jf2 = e_sitofp(cx, j);
    let jbits = e_bitcast(cx, jf2, MlirType::I64);
    e_store(cx, jbits, v.k_pay);
    let vt = e_load(cx, slot, MlirType::I64);
    e_store(cx, vt, v.v_tag);
    let vpp = emit_byte_offset_ptr(cx, slot, lay.off_value);
    let vp = e_load(cx, vpp, MlirType::I64);
    e_store(cx, vp, v.v_pay);
    let t4 = e_const(cx, MlirType::I1, 1);
    e_store(cx, t4, v.done);
    e_mark(cx, Op::Yield);
    e_mark(cx, Op::Else);
    e_mark(cx, Op::Yield);
    e_mark(cx, Op::EndIf);
    let one2 = e_const(cx, MlirType::I64, 1);
    let jn = e_bin(cx, ArithOp::Addi, j, one2);
    e_yieldv(cx, jn);
    e_mark(cx, Op::EndWhile);
}

fn emit_next_hash_step(cx: &mut EmitCx, v: NextVals, cap: usize, lay: TagLayout)
    requires
        old(cx).next + 38 <= usize::MAX,
        lay.off_value <= i64::MAX - 16,
    ensures
        st(*final(cx)) == sp_next_hash_step(st(*old(cx)), v, un(cap), lay),
        final(cx).next == old(cx).next + 38,
{
    let b = e_do1(cx);
    let eb = e_const(cx, MlirType::I64, 16);
    let es = e_const(cx, MlirType::I64, 32);
    let bo = e_bin(cx, ArithOp::Muli, b, es);
    let eo = e_bin(cx, ArithOp::Addi, bo, eb);
    let e = e_gep(cx, v.hash, eo);
    let kt = e_load(cx, e, MlirType::I64);
    let nc = e_const(cx, MlirType::I64, lay.tag_nil);
    let dc = e_const(cx, MlirType::I64, lay.tag_deleted);
    let nn = e_icompare(cx, IntPredicate::Ne, kt, nc);
    let ndl = e_icompare(cx, IntPredicate::Ne, kt, dc);
    let live = e_bin(cx, ArithOp::Andi, nn, ndl);
    let teq = e_icompare(cx, IntPredicate::Eq, kt, v.prev_tag);
    let kpp = emit_byte_offset_ptr(cx, e, lay.off_value);
    let kp = e_load(cx, kpp, MlirType::I64);
    let peq = e_icompare(cx, IntPredicate::Eq, kp, v.prev_pay);
    let keq = e_bin(cx, ArithOp::Andi, teq, peq);
    let fnd = e_load(cx, v.found, MlirType::I1);
    let t1 = e_const(cx, MlirType::I1, 1);
    let nf = e_bin(cx, ArithOp::Xori, fnd, t1);
    let lnf = e_bin(cx, ArithOp::Andi, live, nf);
    let mark = e_bin(cx, ArithOp::Andi, lnf, keq);
    emit_set_flag_if(cx, mark, v.found);
    let fnd2 = e_load(cx, v.found, MlirType::I1);
    let lf = e_bin(cx, ArithOp::Andi, live, fnd2);
    let t2 = e_const(cx, MlirType::I1, 1);
    let nke = e_bin(cx, ArithOp::Xori, keq, t2);
    let rec = e_bin(cx, ArithOp::Andi, lf, nke);
    e_mark(cx, Op::If { cond: rec });
    e_store(cx, kt, v.k_tag);
    e_store(cx, kp, v.k_pay);
    let vtp = emit_byte_offset_ptr(cx, e, 16);
    let vt = e_load(cx, vtp, MlirType::I64);
    let vpp = emit_byte_offset_ptr(cx, e, 16 + lay.off_value);
    let vp = e_load(cx, vpp, MlirType::I64);
    e_store(cx, vt, v.v_tag);
    e_store(cx, vp, v.v_pay);
    let t3 = e_const(cx, MlirType::I1, 1);
    e_store(cx, t3, v.done);
    e_mark(cx, Op::Yield);
    e_mark(cx, Op::Else);
    e_mark(cx, Op::Yield);
    e_mark(cx, Op::EndIf);
    let oh = e_const(cx, MlirType::I64, 1);
    let bn = e_bin(cx, ArithOp::Addi, b, oh);
    e_yieldv(cx, bn);
}

fn emit_next_hash(cx: &mut EmitCx, v: NextVals, lay: TagLayout)
    requires
        old(cx).next + 56 <= usize::MAX,
        lay.off_value <= i64::MAX - 16,
    ensures
        st(*final(cx)) == sp_next_hash(st(*old(cx)), v, lay),
        final(cx).next == old(cx).next + 56,
{
    let hi = e_ptrtoint(cx, v.hash);
    let z = e_const(cx, MlirType::I64, 0);
    let has = e_icompare(cx, IntPredicate::Ne, hi, z);
    let d = e_load(cx, v.done, MlirType::I1);
    let t1 = e_const(cx, MlirType::I1, 1);
    let nd = e_bin(cx, ArithOp::Xori, d, t1);
    let guard = e_bin(cx, ArithOp::Andi, has, nd);
    e_mark(cx, Op::If { cond: guard });
    let cs = emit_byte_offset_ptr(cx, v.hash, 0);
    let cap = e_load(cx, cs, MlirType::I64);
    let zb = e_const(cx, MlirType::I64, 0);
    let (_r, b) = e_while1(cx, zb);
    let lt = e_icompare(cx, IntPredicate::Slt, b, cap);
    let d2 = e_load(cx, v.done, MlirType::I1);
    let t2 = e_const(cx, MlirType::I1, 1);
    let nd2 = e_bin(cx, ArithOp::Xori, d2, t2);
    let go = e_bin(cx, ArithOp::Andi, lt, nd2);
    e_mark(cx, Op::ConditionWith { cond: go, value: b });
    emit_next_hash_step(cx, v, cap, lay);
    e_mark(cx, Op::EndWhile);
    e_mark(cx, Op::Yield);
    e_mark(cx, Op::Else);
    e_mark(cx, Op::Yield);
    e_mark(cx, Op::EndIf);
}

fn emit_next_epilogue(cx: &mut EmitCx, v: NextVals)
    requires
        old(cx).next + 4 <= usize::MAX,
    ensures
        st(*final(cx)) == sp_next_epilogue(st(*old(cx)), v),
        final(cx).next == old(cx).next + 4,
{
    let a = e_load(cx, v.k_tag, MlirType::I64);
    let b = e_load(cx, v.k_pay, MlirType::I64);
    let c = e_load(cx, v.v_tag, MlirType::I64);
    let d = e_load(cx, v.v_pay, MlirType::I64);
    e_mark(cx, Op::Return4 { a, b, c, d });
    e_mark(cx, Op::EndFunc);
}

/// Emits the `__lumelir_next` function. An error exactly when the SSA
/// numbering would overflow.
pub fn emit_lumelir_next_function(cx: &mut EmitCx, lay: TagLayout) -> (r: Result<(), CodegenError>)
    requires
        lay.off_value <= i64::MAX - 16,
    ensures
        r is Ok <==> old(cx).next + next_fn_ids() <= usize::MAX,
        r is Ok ==> st(*final(cx)) == sp_next_function(st(*old(cx)), lay) && final(cx).next
            == old(cx).next + next_fn_ids(),
        r is Err ==> r->Err_0 is UnsupportedExpr,
{
    if cx.next > usize::MAX - 131 {
        return Err(CodegenError::UnsupportedExpr(String::from_str("SSA numbering overflow")));
    }
    let v = emit_next_prologue(cx, lay);
    emit_next_array(cx, v, lay);
    emit_next_hash(cx, v, lay);
    emit_next_epilogue(cx, v);
    Ok(())
}

} // verus!
