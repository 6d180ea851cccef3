//! Emission of the run-time dispatch on tagged values: `tostring` of a
//! tagged slot, `t[k] == nil` on a table, and `==` / `~=` with a tagged
//! operand. Their specs extend an emission state as in `runtime`; the
//! operand expressions go through the scalar-core emitter.

use vstd::prelude::*;

use crate::callabi::{MlirType, ValueKind};
use crate::emit::CmpfPredicate;
use crate::emitter::{cmpf_holds, emit_expr, expr_fits, lemma_expr_mono, spec_expr, sv, un, EmitCx, FloatOrder};
use crate::error::CodegenError;
use crate::hir::{HirExpr, HirExprKind, LocalInfo};
use crate::mlir::{ArithOp, ExtFn, Global, IntPredicate, Op};
use crate::runtime::{
    e_addr,
    e_bin,
    e_call,
    e_const,
    e_fcompare,
    e_icompare,
    e_ifv,
    e_load,
    e_mark,
    e_ptrtoint,
    e_select,
    e_yieldv,
    emit_byte_offset_ptr,
    emit_probe_body,
    lemma_probe_loop_count,
    p_addr,
    p_bin,
    p_call,
    p_const,
    p_fcompare,
    p_gep,
    p_icompare,
    p_ifv,
    p_load,
    p_mark,
    p_ptrtoint,
    p_select,
    p_yieldv,
    probe_id_count,
    probe_ids,
    sp_byte_offset,
    sp_probe_loop,
    st,
    KeyPolicies,
    KeyPolicy,
    St,
    TagLayout,
};

verus! {

/// The tagged-value layer's tag and payload pointer of `slot`:
/// `(state, tag, payload pointer)`.
pub open spec fn p_tag_payload(s: St, slot: nat) -> (St, nat, nat) {
    ((s.0.push(Op::TagAndPayload { result: sv(s.1), slot: sv(slot) }), s.1 + 2), s.1, s.1 + 1)
}

/// `tostring` of a number: a 32-byte buffer from `malloc`, filled by
/// `snprintf` with the `%.14g` format; the value is the buffer.
pub open spec fn sp_tostring_number(s: St, value: nat) -> (St, nat) {
    let (s, size) = p_const(s, MlirType::I64, 32);
    let (s, buf) = p_call(s, ExtFn::Malloc, MlirType::Ptr, 1, size, 0, 0, 0);
    let (s, fmt) = p_addr(s, Global::FmtTostringG);
    let (s, _n) = p_call(s, ExtFn::Snprintf, MlirType::I32, 4, buf, size, fmt, value);
    (s, buf)
}

/// One arm of the tag chain: `scf.if tag == tag_const -> ptr`; the
/// state, the result and the branch condition.
pub open spec fn sp_tag_arm(s: St, tag: nat, tag_const: i64) -> (St, nat) {
    let (s, c) = p_const(s, MlirType::I64, tag_const);
    let (s, is) = p_icompare(s, IntPredicate::Eq, tag, c);
    p_ifv(s, is, MlirType::Ptr)
}

/// `tostring` of the tagged slot `slot`: a chain of `scf.if`s on the
/// tag giving `"nil"`, the formatted number, `"true"` / `"false"`, the
/// string itself, `"function"`, `"table"`, and a fatal error on any
/// other tag.
pub open spec fn sp_tostring_tagged(s: St, slot: nat, lay: TagLayout) -> (St, nat) {
    let (s, tag, vp) = p_tag_payload(s, slot);
    let (s, r) = sp_tag_arm(s, tag, lay.tag_nil);
    let (s, ns) = p_addr(s, Global::SNil);
    let s = p_yieldv(s, ns);
    let s = p_mark(s, Op::Else);
    let (s, rn) = sp_tag_arm(s, tag, lay.tag_number);
    let (s, f) = p_load(s, vp, MlirType::F64);
    let (s, fs) = sp_tostring_number(s, f);
    let s = p_yieldv(s, fs);
    let s = p_mark(s, Op::Else);
    let (s, rb) = sp_tag_arm(s, tag, lay.tag_bool);
    let (s, p64) = p_load(s, vp, MlirType::I64);
    let (s, z) = p_const(s, MlirType::I64, 0);
    let (s, p1) = p_icompare(s, IntPredicate::Ne, p64, z);
    let (s, t) = p_addr(s, Global::STrue);
    let (s, fl) = p_addr(s, Global::SFalse);
    let (s, ch) = p_select(s, p1, t, fl);
    let s = p_yieldv(s, ch);
    let s = p_mark(s, Op::Else);
    let (s, rs) = sp_tag_arm(s, tag, lay.tag_string);
    let (s, sp) = p_load(s, vp, MlirType::Ptr);
    let s = p_yieldv(s, sp);
    let s = p_mark(s, Op::Else);
    let (s, rf) = sp_tag_arm(s, tag, lay.tag_function);
    let (s, fnm) = p_addr(s, Global::STypenameFunction);
    let s = p_yieldv(s, fnm);
    let s = p_mark(s, Op::Else);
    let (s, rt) = sp_tag_arm(s, tag, lay.tag_table);
    let (s, tnm) = p_addr(s, Global::STypenameTable);
    let s = p_yieldv(s, tnm);
    let s = p_mark(s, Op::Else);
    let s = p_mark(s, Op::UnknownTagTrap);
    let (s, ph) = p_addr(s, Global::STypenameFunction);
    let s = p_yieldv(s, ph);
    let s = p_mark(s, Op::EndIf);
    let s = p_yieldv(s, rt);
    let s = p_mark(s, Op::EndIf);
    let s = p_yieldv(s, rf);
    let s = p_mark(s, Op::EndIf);
    let s = p_yieldv(s, rs);
    let s = p_mark(s, Op::EndIf);
    let s = p_yieldv(s, rb);
    let s = p_mark(s, Op::EndIf);
    let s = p_yieldv(s, rn);
    let s = p_mark(s, Op::EndIf);
    (s, r)
}

fn e_tag_payload(cx: &mut EmitCx, slot: usize) -> (r: (usize, usize))
    requires
        old(cx).next + 2 <= usize::MAX,
    ensures
        (st(*final(cx)), un(r.0), un(r.1)) == p_tag_payload(st(*old(cx)), un(slot)),
{
    let v = cx.next;
    cx.ops.push(Op::TagAndPayload { result: v, slot });
    cx.next = v + 2;
    (v, v + 1)
}

fn emit_tostring_number(cx: &mut EmitCx, value: usize) -> (v: usize)
    requires
        old(cx).next + 4 <= usize::MAX,
    ensures
        (st(*final(cx)), un(v)) == sp_tostring_number(st(*old(cx)), un(value)),
        final(cx).next == old(cx).next + 4,
{
    let size = e_const(cx, MlirType::I64, 32);
    let buf = e_call(cx, ExtFn::Malloc, MlirType::Ptr, 1, size, 0, 0, 0);
    let fmt = e_addr(cx, Global::FmtTostringG);
    let _n = e_call(cx, ExtFn::Snprintf, MlirType::I32, 4, buf, size, fmt, value);
    buf
}

fn emit_tag_arm(cx: &mut EmitCx, tag: usize, tag_const: i64) -> (v: usize)
    requires
        old(cx).next + 3 <= usize::MAX,
    ensures
        (st(*final(cx)), un(v)) == sp_tag_arm(st(*old(cx)), un(tag), tag_const),
        final(cx).next == old(cx).next + 3,
{
    let c = e_const(cx, MlirType::I64, tag_const);
    let is = e_icompare(cx, IntPredicate::Eq, tag, c);
    e_ifv(cx, is, MlirType::Ptr)
}

/// SSA numbers `tostring` of a tagged slot defines.
pub open spec fn tostring_ids() -> nat {
    36
}

/// Emits `tostring` of the tagged slot `slot`; the value is the string
/// pointer. An error exactly when the SSA numbering would overflow.
pub fn emit_tostring_tagged_local(cx: &mut EmitCx, slot: usize, lay: TagLayout) -> (r: Result<
    usize,
    CodegenError,
>)
    ensures
        r is Ok <==> old(cx).next + tostring_ids() <= usize::MAX,
        r is Ok ==> (st(*final(cx)), un(r->Ok_0)) == sp_tostring_tagged(st(*old(cx)), un(slot), lay)
            && final(cx).next == old(cx).next + tostring_ids(),
        r is Err ==> r->Err_0 is UnsupportedExpr,
{
    if cx.next > usize::MAX - 36 {
        return Err(CodegenError::UnsupportedExpr(String::from_str("SSA numbering overflow")));
    }
    let (tag, vp) = e_tag_payload(cx, slot);
    let r = emit_tag_arm(cx, tag, lay.tag_nil);
    let ns = e_addr(cx, Global::SNil);
    e_yieldv(cx, ns);
    e_mark(cx, Op::Else);
    let rn = emit_tag_arm(cx, tag, lay.tag_number);
    let f = e_load(cx, vp, MlirType::F64);
    let fs = emit_tostring_number(cx, f);
    e_yieldv(cx, fs);
    e_mark(cx, Op::Else);
    let rb = emit_tag_arm(cx, tag, lay.tag_bool);
    let p64 = e_load(cx, vp, MlirType::I64);
    let z = e_const(cx, MlirType::I64, 0);
    let p1 = e_icompare(cx, IntPredicate::Ne, p64, z);
    let t = e_addr(cx, Global::STrue);
    let fl = e_addr(cx, Global::SFalse);
    let ch = e_select(cx, p1, t, fl);
    e_yieldv(cx, ch);
    e_mark(cx, Op::Else);
    let rs = emit_tag_arm(cx, tag, lay.tag_string);
    let sp = e_load(cx, vp, MlirType::Ptr);
    e_yieldv(cx, sp);
    e_mark(cx, Op::Else);
    let rf = emit_tag_arm(cx, tag, lay.tag_function);
    let fnm = e_addr(cx, Global::STypenameFunction);
    e_yieldv(cx, fnm);
    e_mark(cx, Op::Else);
    let rt = emit_tag_arm(cx, tag, lay.tag_table);
    let tnm = e_addr(cx, Global::STypenameTable);
    e_yieldv(cx, tnm);
    e_mark(cx, Op::Else);
    e_mark(cx, Op::UnknownTagTrap);
    let ph = e_addr(cx, Global::STypenameFunction);
    e_yieldv(cx, ph);
    e_mark(cx, Op::EndIf);
    e_yieldv(cx, rt);
    e_mark(cx, Op::EndIf);
    e_yieldv(cx, rf);
    e_mark(cx, Op::EndIf);
    e_yieldv(cx, rs);
    e_mark(cx, Op::EndIf);
    e_yieldv(cx, rb);
    e_mark(cx, Op::EndIf);
    e_yieldv(cx, rn);
    e_mark(cx, Op::EndIf);
    Ok(r)
}

/// An expression of the scalar core emitted from state `s`: `(state,
/// value, kind)`, or `None` when it is outside the core or its
/// numbering overflows.
pub open spec fn sp_expr(s: St, e: HirExpr, locals: Seq<LocalInfo>) -> Option<(St, nat, ValueKind)> {
    if expr_fits(e, locals, s.1) {
        let t = spec_expr(e, locals, s.1)->0;
        Some(((s.0 + t.0, t.3), t.1, t.2))
    } else {
        None
    }
}

/// The slot of a local of kind `kind` read by `e`, when `e` is such a
/// local outside closures.
pub open spec fn local_slot_of_kind(e: HirExpr, locals: Seq<LocalInfo>, kind: ValueKind) -> Option<nat> {
    match e.kind {
        HirExprKind::Local(id) => {
            if id.0 < locals.len() && locals[id.0 as int].kind == kind && !locals[id.0 as int].is_captured {
                Some(id.0 as nat)
            } else {
                None
            }
        },
        _ => None,
    }
}

/// `arith.fptosi`.
pub open spec fn p_fptosi(s: St, operand: nat) -> (St, nat) {
    ((s.0.push(Op::FpToSi { result: sv(s.1), operand: sv(operand) }), s.1 + 1), s.1)
}

/// The array path of `t[k] == nil` with a number key `kv`: true when
/// the truncated key is outside `1..=len`, else whether the element's
/// tag is nil.
#[verifier::opaque]
pub open spec fn sp_isnil_array(s: St, tp: nat, tr: nat, kv: nat, lay: TagLayout) -> (St, nat) {
    let (s, ki) = p_fptosi(s, kv);
    let (s, len) = p_load(s, tp, MlirType::I64);
    let (s, one) = p_const(s, MlirType::I64, 1);
    let (s, small) = p_icompare(s, IntPredicate::Slt, ki, one);
    let (s, big) = p_icompare(s, IntPredicate::Sgt, ki, len);
    let (s, oob) = p_bin(s, ArithOp::Ori, small, big);
    let (s, r) = p_ifv(s, oob, MlirType::I1);
    let s = p_yieldv(s, tr);
    let s = p_mark(s, Op::Else);
    let (s, abs_) = sp_byte_offset(s, tp, 16);
    let (s, ab) = p_load(s, abs_, MlirType::Ptr);
    let (s, one2) = p_const(s, MlirType::I64, 1);
    let (s, k0) = p_bin(s, ArithOp::Subi, ki, one2);
    let (s, esz) = p_const(s, MlirType::I64, lay.slot_size);
    let (s, off) = p_bin(s, ArithOp::Muli, k0, esz);
    let (s, ep) = p_gep(s, ab, off);
    let (s, tag) = p_load(s, ep, MlirType::I64);
    let (s, tn) = p_const(s, MlirType::I64, lay.tag_nil);
    let (s, isn) = p_icompare(s, IntPredicate::Eq, tag, tn);
    let s = p_yieldv(s, isn);
    let s = p_mark(s, Op::EndIf);
    (s, r)
}

/// The bucket step of the hash path: the probe for the key slot `ks`
/// in the hash part `hb`, then true when the bucket found is empty,
/// else whether the entry's value tag is nil.
pub open spec fn sp_isnil_bucket(
    s: St,
    hb: nat,
    ks: nat,
    lay: TagLayout,
    nil: Seq<KeyPolicy>,
    number: Seq<KeyPolicy>,
) -> (St, nat) {
    let (s, cs) = sp_byte_offset(s, hb, 0);
    let (s, cap) = p_load(s, cs, MlirType::I64);
    let (s, bucket) = sp_probe_loop(s, hb, cap, ks, lay, nil, number);
    let (s, es) = p_const(s, MlirType::I64, 32);
    let (s, bo) = p_bin(s, ArithOp::Muli, bucket, es);
    let (s, eb) = p_const(s, MlirType::I64, 16);
    let (s, eo) = p_bin(s, ArithOp::Addi, bo, eb);
    let (s, ep) = p_gep(s, hb, eo);
    let (s, ka) = p_load(s, ep, MlirType::Ptr);
    let (s, kai) = p_ptrtoint(s, ka);
    let (s, z2) = p_const(s, MlirType::I64, 0);
    let (s, empty) = p_icompare(s, IntPredicate::Eq, kai, z2);
    let (s, ri) = p_ifv(s, empty, MlirType::I1);
    let (s, it) = p_const(s, MlirType::I1, 1);
    let s = p_yieldv(s, it);
    let s = p_mark(s, Op::Else);
    let (s, vs) = sp_byte_offset(s, ep, 16);
    let (s, tag) = p_load(s, vs, MlirType::I64);
    let (s, tn) = p_const(s, MlirType::I64, lay.tag_nil);
    let (s, isn) = p_icompare(s, IntPredicate::Eq, tag, tn);
    let s = p_yieldv(s, isn);
    let s = p_mark(s, Op::EndIf);
    (s, ri)
}

/// The hash path of `t[k] == nil` with a key `kv` of kind `kk`: true
/// when there is no hash part, else the bucket step.
#[verifier::opaque]
pub open spec fn sp_isnil_hash(
    s: St,
    tp: nat,
    tr: nat,
    kv: nat,
    kk: ValueKind,
    lay: TagLayout,
    nil: Seq<KeyPolicy>,
    number: Seq<KeyPolicy>,
) -> (St, nat) {
    let ks = s.1;
    let s = (s.0.push(Op::SearchKeySlot { result: sv(ks), value: sv(kv), kind: kk }), s.1 + 1);
    let (s, hbs) = sp_byte_offset(s, tp, 24);
    let (s, hb) = p_load(s, hbs, MlirType::Ptr);
    let (s, hbi) = p_ptrtoint(s, hb);
    let (s, z) = p_const(s, MlirType::I64, 0);
    let (s, none) = p_icompare(s, IntPredicate::Eq, hbi, z);
    let (s, r) = p_ifv(s, none, MlirType::I1);
    let s = p_yieldv(s, tr);
    let s = p_mark(s, Op::Else);
    let (s, ri) = sp_isnil_bucket(s, hb, ks, lay, nil, number);
    let s = p_yieldv(s, ri);
    let s = p_mark(s, Op::EndIf);
    (s, r)
}

/// `t[k] == nil` for a table local `t` (a pointer slot) and a key of
/// the scalar core: the table pointer, the constant `true`, the key,
/// then the array path for a number key and the hash path for a
/// boolean key; `None` for other targets or keys.
pub open spec fn sp_isnil_index(
    s: St,
    target: HirExpr,
    key: HirExpr,
    locals: Seq<LocalInfo>,
    lay: TagLayout,
    nil: Seq<KeyPolicy>,
    number: Seq<KeyPolicy>,
) -> Option<(St, nat)> {
    match local_slot_of_kind(target, locals, ValueKind::Table) {
        Some(slot) => {
            let (s, tp) = p_load(s, slot, MlirType::Ptr);
            let (s, tr) = p_const(s, MlirType::I1, 1);
            sp_isnil_key(s, tp, tr, key, locals, lay, nil, number)
        },
        None => None,
    }
}

/// The key of `t[k] == nil` and the path its kind selects: the array
/// path for a number, the hash path for a boolean, `None` otherwise.
pub open spec fn sp_isnil_key(
    s: St,
    tp: nat,
    tr: nat,
    key: HirExpr,
    locals: Seq<LocalInfo>,
    lay: TagLayout,
    nil: Seq<KeyPolicy>,
    number: Seq<KeyPolicy>,
) -> Option<(St, nat)> {
    match sp_expr(s, key, locals) {
        Some((s, kv, kk)) => match kk {
            ValueKind::Number => Some(sp_isnil_array(s, tp, tr, kv, lay)),
            ValueKind::Bool => Some(sp_isnil_hash(s, tp, tr, kv, kk, lay, nil, number)),
            _ => None,
        },
        None => None,
    }
}

proof fn lemma_isnil_array_count(s: St, tp: nat, tr: nat, kv: nat, lay: TagLayout)
    ensures
        sp_isnil_array(s, tp, tr, kv, lay).0.1 == s.1 + 18,
{
    reveal(sp_isnil_array);
}

proof fn lemma_isnil_hash_count(
    s: St,
    tp: nat,
    tr: nat,
    kv: nat,
    kk: ValueKind,
    lay: TagLayout,
    nil: Seq<KeyPolicy>,
    number: Seq<KeyPolicy>,
)
    ensures
        sp_isnil_hash(s, tp, tr, kv, kk, lay, nil, number).0.1 == s.1 + 27 + probe_ids(nil, number),
{
    reveal(sp_isnil_hash);
    let ks = s.1;
    let s = (s.0.push(Op::SearchKeySlot { result: sv(ks), value: sv(kv), kind: kk }), s.1 + 1);
    let (s, hbs) = sp_byte_offset(s, tp, 24);
    let (s, hb) = p_load(s, hbs, MlirType::Ptr);
    let (s, hbi) = p_ptrtoint(s, hb);
    let (s, z) = p_const(s, MlirType::I64, 0);
    let (s, none) = p_icompare(s, IntPredicate::Eq, hbi, z);
    let (s, r) = p_ifv(s, none, MlirType::I1);
    let s = p_yieldv(s, tr);
    let s = p_mark(s, Op::Else);
    let (s1, cs) = sp_byte_offset(s, hb, 0);
    let (s2, cap) = p_load(s1, cs, MlirType::I64);
    lemma_probe_loop_count(s2, hb, cap, ks, lay, nil, number);
}

pub(crate) fn e_fptosi(cx: &mut EmitCx, operand: usize) -> (v: usize)
    requires
        old(cx).next < usize::MAX,
    ensures
        (st(*final(cx)), un(v)) == p_fptosi(st(*old(cx)), un(operand)),
{
    let v = cx.next;
    cx.ops.push(Op::FpToSi { result: v, operand });
    cx.next = v + 1;
    v
}

fn emit_isnil_array(cx: &mut EmitCx, tp: usize, tr: usize, kv: usize, lay: TagLayout) -> (v: usize)
    requires
        old(cx).next + 18 <= usize::MAX,
    ensures
        (st(*final(cx)), un(v)) == sp_isnil_array(st(*old(cx)), un(tp), un(tr), un(kv), lay),
        final(cx).next == old(cx).next + 18,
{
    reveal(sp_isnil_array);
    let ki = e_fptosi(cx, kv);
    let len = e_load(cx, tp, MlirType::I64);
    let one = e_const(cx, MlirType::I64, 1);
    let small = e_icompare(cx, IntPredicate::Slt, ki, one);
    let big = e_icompare(cx, IntPredicate::Sgt, ki, len);
    let oob = e_bin(cx, ArithOp::Ori, small, big);
    let r = e_ifv(cx, oob, MlirType::I1);
    e_yieldv(cx, tr);
    e_mark(cx, Op::Else);
    let abs_ = emit_byte_offset_ptr(cx, tp, 16);
    let ab = e_load(cx, abs_, MlirType::Ptr);
    let one2 = e_const(cx, MlirType::I64, 1);
    let k0 = e_bin(cx, ArithOp::Subi, ki, one2);
    let esz = e_const(cx, MlirType::I64, lay.slot_size);
    let off = e_bin(cx, ArithOp::Muli, k0, esz);
    let ep = crate::runtime::e_gep(cx, ab, off);
    let tag = e_load(cx, ep, MlirType::I64);
    let tn = e_const(cx, MlirType::I64, lay.tag_nil);
    let isn = e_icompare(cx, IntPredicate::Eq, tag, tn);
    e_yieldv(cx, isn);
    e_mark(cx, Op::EndIf);
    r
}

fn emit_isnil_bucket(cx: &mut EmitCx, hb: usize, ks: usize, lay: TagLayout, pol: &KeyPolicies) -> (v: usize)
    requires
        old(cx).next + 19 + probe_ids(pol.nil@, pol.number@) <= usize::MAX,
    ensures
        (st(*final(cx)), un(v)) == sp_isnil_bucket(st(*old(cx)), un(hb), un(ks), lay, pol.nil@, pol.number@),
        final(cx).next == old(cx).next + 19 + probe_ids(pol.nil@, pol.number@),
{
    let cs = emit_byte_offset_ptr(cx, hb, 0);
    let cap = e_load(cx, cs, MlirType::I64);
    let bucket = emit_probe_body(cx, hb, cap, ks, lay, pol);
    let es = e_const(cx, MlirType::I64, 32);
    let bo = e_bin(cx, ArithOp::Muli, bucket, es);
    let eb = e_const(cx, MlirType::I64, 16);
    let eo = e_bin(cx, ArithOp::Addi, bo, eb);
    let ep = crate::runtime::e_gep(cx, hb, eo);
    let ka = e_load(cx, ep, MlirType::Ptr);
    let kai = e_ptrtoint(cx, ka);
    let z2 = e_const(cx, MlirType::I64, 0);
    let empty = e_icompare(cx, IntPredicate::Eq, kai, z2);
    let ri = e_ifv(cx, empty, MlirType::I1);
    let it = e_const(cx, MlirType::I1, 1);
    e_yieldv(cx, it);
    e_mark(cx, Op::Else);
    let vs = emit_byte_offset_ptr(cx, ep, 16);
    let tag = e_load(cx, vs, MlirType::I64);
    let tn = e_const(cx, MlirType::I64, lay.tag_nil);
    let isn = e_icompare(cx, IntPredicate::Eq, tag, tn);
    e_yieldv(cx, isn);
    e_mark(cx, Op::EndIf);
    ri
}

fn emit_isnil_hash(
    cx: &mut EmitCx,
    tp: usize,
    tr: usize,
    kv: usize,
    kk: ValueKind,
    lay: TagLayout,
    pol: &KeyPolicies,
) -> (v: usize)
    requires
        old(cx).next + 27 + probe_ids(pol.nil@, pol.number@) <= usize::MAX,
    ensures
        (st(*final(cx)), un(v)) == sp_isnil_hash(st(*old(cx)), un(tp), un(tr), un(kv), kk, lay, pol.nil@, pol.number@),
        final(cx).next == old(cx).next + 27 + probe_ids(pol.nil@, pol.number@),
{
    reveal(sp_isnil_hash);
    let ks = cx.next;
    cx.ops.push(Op::SearchKeySlot { result: ks, value: kv, kind: kk });
    cx.next = ks + 1;
    let hbs = emit_byte_offset_ptr(cx, tp, 24);
    let hb = e_load(cx, hbs, MlirType::Ptr);
    let hbi = e_ptrtoint(cx, hb);
    let z = e_const(cx, MlirType::I64, 0);
    let none = e_icompare(cx, IntPredicate::Eq, hbi, z);
    let r = e_ifv(cx, none, MlirType::I1);
    e_yieldv(cx, tr);
    e_mark(cx, Op::Else);
    let ri = emit_isnil_bucket(cx, hb, ks, lay, pol);
    e_yieldv(cx, ri);
    e_mark(cx, Op::EndIf);
    r
}

fn overflow() -> (e: CodegenError)
    ensures
        e is UnsupportedExpr,
{
    CodegenError::UnsupportedExpr(String::from_str("SSA numbering overflow"))
}

fn outside_core() -> (e: CodegenError)
    ensures
        e is UnsupportedExpr,
{
    CodegenError::UnsupportedExpr(String::from_str("construct outside the scalar core"))
}

fn emit_isnil_key(
    cx: &mut EmitCx,
    tp: usize,
    tr: usize,
    key: &HirExpr,
    locals: &[LocalInfo],
    lay: TagLayout,
    pol: &KeyPolicies,
) -> (r: Result<usize, CodegenError>)
    ensures
        ({
            let t = sp_isnil_key(st(*old(cx)), un(tp), un(tr), *key, locals@, lay, pol.nil@, pol.number@);
            &&& r is Ok <==> (t is Some && (t->0).0.1 <= usize::MAX)
            &&& r is Ok ==> (st(*final(cx)), un(r->Ok_0)) == t->0
            &&& r is Err ==> r->Err_0 is UnsupportedExpr
        }),
{
    let ghost s0 = st(*old(cx));
    let kv = emit_expr(cx, key, locals)?;
    proof {
        assert(sp_expr(s0, *key, locals@) == Some((st(*cx), un(kv.id), kv.kind)));
    }
    match kv.kind {
        ValueKind::Number => {
            if cx.next > usize::MAX - 18 {
                proof {
                    lemma_isnil_array_count(st(*cx), un(tp), un(tr), un(kv.id), lay);
                }
                return Err(overflow());
            }
            Ok(emit_isnil_array(cx, tp, tr, kv.id, lay))
        },
        ValueKind::Bool => {
            proof {
                lemma_isnil_hash_count(st(*cx), un(tp), un(tr), un(kv.id), kv.kind, lay, pol.nil@, pol.number@);
            }
            let k = match probe_id_count(pol) {
                Some(k) => k,
                None => {
                    return Err(overflow());
                },
            };
            if k > usize::MAX - 27 || cx.next > usize::MAX - 27 - k {
                return Err(overflow());
            }
            Ok(emit_isnil_hash(cx, tp, tr, kv.id, kv.kind, lay, pol))
        },
        _ => Err(outside_core()),
    }
}

/// Emits `t[k] == nil`; the value is the `i1` answer. An error exactly
/// when `sp_isnil_index` has none or the numbering would overflow.
pub fn emit_isnil_index(
    cx: &mut EmitCx,
    target: &HirExpr,
    key: &HirExpr,
    locals: &[LocalInfo],
    lay: TagLayout,
    pol: &KeyPolicies,
) -> (r: Result<usize, CodegenError>)
    ensures
        ({
            let t = sp_isnil_index(st(*old(cx)), *target, *key, locals@, lay, pol.nil@, pol.number@);
            &&& r is Ok <==> (t is Some && (t->0).0.1 <= usize::MAX)
            &&& r is Ok ==> (st(*final(cx)), un(r->Ok_0)) == t->0
            &&& r is Err ==> r->Err_0 is UnsupportedExpr
        }),
{
    let slot = match &target.kind {
        HirExprKind::Local(id) => {
            if id.0 >= locals.len() || locals[id.0].is_captured || !(locals[id.0].kind == ValueKind::Table) {
                return Err(outside_core());
            }
            id.0
        },
        _ => {
            return Err(outside_core());
        },
    };
    let ghost s0 = st(*old(cx));
    if cx.next > usize::MAX - 2 {
        proof {
            let (s1, tp) = p_load(s0, un(slot), MlirType::Ptr);
            let (s2, tr) = p_const(s1, MlirType::I1, 1);
            lemma_expr_mono(*key, locals@, s2.1);
        }
        return Err(overflow());
    }
    let tp = e_load(cx, slot, MlirType::Ptr);
    let tr = e_const(cx, MlirType::I1, 1);
    emit_isnil_key(cx, tp, tr, key, locals, lay, pol)
}

/// `eq` negated for `~=`.
pub open spec fn sp_negate_if(s: St, eq: nat, is_ne: bool) -> (St, nat) {
    if is_ne {
        let (s, one) = p_const(s, MlirType::I1, 1);
        p_bin(s, ArithOp::Xori, eq, one)
    } else {
        (s, eq)
    }
}

/// `llvm.trunc`.
pub open spec fn p_trunc_llvm(s: St, operand: nat, ty: MlirType) -> (St, nat) {
    ((s.0.push(Op::LlvmTrunc { result: sv(s.1), operand: sv(operand), ty }), s.1 + 1), s.1)
}

/// The comparison of the tagged slot `slot` with the typed value `tv`
/// of kind `k` (a number or a boolean): false unless the tag is `k`'s,
/// else the payload compared with `tv`.
pub open spec fn sp_tagged_vs_typed(s: St, slot: nat, tv: nat, k: ValueKind, lay: TagLayout) -> (St, nat) {
    let expected = if k is Number {
        lay.tag_number
    } else {
        lay.tag_bool
    };
    let (s, tag) = p_load(s, slot, MlirType::I64);
    let (s, ec) = p_const(s, MlirType::I64, expected);
    let (s, tm) = p_icompare(s, IntPredicate::Eq, tag, ec);
    let (s, r) = p_ifv(s, tm, MlirType::I1);
    let (s, vp) = sp_byte_offset(s, slot, lay.off_value);
    let (s, eq) = if k is Number {
        let (s, pl) = p_load(s, vp, MlirType::F64);
        p_fcompare(s, CmpfPredicate::Oeq, pl, tv)
    } else {
        let (s, pl) = p_load(s, vp, MlirType::I64);
        let (s, b) = p_trunc_llvm(s, pl, MlirType::I1);
        p_icompare(s, IntPredicate::Eq, b, tv)
    };
    let s = p_yieldv(s, eq);
    let s = p_mark(s, Op::Else);
    let (s, z) = p_const(s, MlirType::I1, 0);
    let s = p_yieldv(s, z);
    let s = p_mark(s, Op::EndIf);
    (s, r)
}

/// `==` (or `~=` when `is_ne`) with a tagged-local operand: both
/// tagged, the tagged-value layer's slot equality; one tagged, the
/// other operand emitted and compared by tag and payload; neither, or
/// a nil-kind operand, nothing to do (`Some(None)`, no operation
/// emitted). `None` when the typed operand is outside the scalar core.
pub open spec fn sp_tagged_eq(
    s: St,
    is_ne: bool,
    lhs: HirExpr,
    rhs: HirExpr,
    locals: Seq<LocalInfo>,
    lay: TagLayout,
) -> Option<Option<(St, nat)>> {
    let lt = local_slot_of_kind(lhs, locals, ValueKind::TaggedValue);
    let rt = local_slot_of_kind(rhs, locals, ValueKind::TaggedValue);
    if lt is Some && rt is Some {
        let eq = s.1;
        let s = (s.0.push(Op::TaggedEqSlots { result: sv(eq), lhs: sv(lt->0), rhs: sv(rt->0) }), s.1 + 1);
        Some(Some(sp_negate_if(s, eq, is_ne)))
    } else if lt is None && rt is None {
        Some(None)
    } else {
        let slot = if lt is Some {
            lt->0
        } else {
            rt->0
        };
        let typed = if lt is Some {
            rhs
        } else {
            lhs
        };
        match sp_expr(s, typed, locals) {
            Some((s2, tv, k)) => {
                if k is Number || k is Bool {
                    let (s3, r) = sp_tagged_vs_typed(s2, slot, tv, k, lay);
                    Some(Some(sp_negate_if(s3, r, is_ne)))
                } else {
                    Some(None)
                }
            },
            None => None,
        }
    }
}

/// SSA numbers the comparison with a typed value of kind `k` defines.
pub open spec fn typed_cmp_ids(k: ValueKind) -> nat {
    if k is Number {
        9
    } else {
        10
    }
}

fn e_trunc_llvm(cx: &mut EmitCx, operand: usize, ty: MlirType) -> (v: usize)
    requires
        old(cx).next < usize::MAX,
    ensures
        (st(*final(cx)), un(v)) == p_trunc_llvm(st(*old(cx)), un(operand), ty),
{
    let v = cx.next;
    cx.ops.push(Op::LlvmTrunc { result: v, operand, ty });
    cx.next = v + 1;
    v
}

fn emit_negate_if(cx: &mut EmitCx, eq: usize, is_ne: bool) -> (v: usize)
    requires
        is_ne ==> old(cx).next + 2 <= usize::MAX,
    ensures
        (st(*final(cx)), un(v)) == sp_negate_if(st(*old(cx)), un(eq), is_ne),
{
    if is_ne {
        let one = e_const(cx, MlirType::I1, 1);
        e_bin(cx, ArithOp::Xori, eq, one)
    } else {
        eq
    }
}

fn emit_tagged_vs_typed(cx: &mut EmitCx, slot: usize, tv: usize, k: ValueKind, lay: TagLayout) -> (v: usize)
    requires
        old(cx).next + typed_cmp_ids(k) <= usize::MAX,
        k is Number || k is Bool,
    ensures
        (st(*final(cx)), un(v)) == sp_tagged_vs_typed(st(*old(cx)), un(slot), un(tv), k, lay),
        final(cx).next == old(cx).next + typed_cmp_ids(k),
{
    let is_num = match k {
        ValueKind::Number => true,
        _ => false,
    };
    let expected = if is_num {
        lay.tag_number
    } else {
        lay.tag_bool
    };
    let tag = e_load(cx, slot, MlirType::I64);
    let ec = e_const(cx, MlirType::I64, expected);
    let tm = e_icompare(cx, IntPredicate::Eq, tag, ec);
    let r = e_ifv(cx, tm, MlirType::I1);
    let vp = emit_byte_offset_ptr(cx, slot, lay.off_value);
    let eq = if is_num {
        let pl = e_load(cx, vp, MlirType::F64);
        e_fcompare(cx, CmpfPredicate::Oeq, pl, tv)
    } else {
        let pl = e_load(cx, vp, MlirType::I64);
        let b = e_trunc_llvm(cx, pl, MlirType::I1);
        e_icompare(cx, IntPredicate::Eq, b, tv)
    };
    e_yieldv(cx, eq);
    e_mark(cx, Op::Else);
    let z = e_const(cx, MlirType::I1, 0);
    e_yieldv(cx, z);
    e_mark(cx, Op::EndIf);
    r
}

/// The slot of `e` when it reads a tagged local outside closures.
fn tagged_slot(e: &HirExpr, locals: &[LocalInfo]) -> (r: Option<usize>)
    ensures
        r == match local_slot_of_kind(*e, locals@, ValueKind::TaggedValue) {
            Some(x) => Some(sv(x)),
            None => None::<usize>,
        },
{
    match &e.kind {
        HirExprKind::Local(id) => {
            if id.0 < locals.len() && locals[id.0].kind == ValueKind::TaggedValue && !locals[id.0].is_captured {
                Some(id.0)
            } else {
                None
            }
        },
        _ => None,
    }
}

/// Emits `==` (`~=` when `is_ne`) with a tagged-local operand. `Ok(None)`,
/// with nothing emitted, when no operand is a tagged local or the other
/// operand is nil; an error exactly when the typed operand is outside
/// the scalar core or the numbering would overflow.
pub fn emit_tagged_eq_runtime_dispatch(
    cx: &mut EmitCx,
    is_ne: bool,
    lhs: &HirExpr,
    rhs: &HirExpr,
    locals: &[LocalInfo],
    lay: TagLayout,
) -> (r: Result<Option<usize>, CodegenError>)
    ensures
        ({
            let t = sp_tagged_eq(st(*old(cx)), is_ne, *lhs, *rhs, locals@, lay);
            &&& r is Ok <==> (t is Some && (t->0 is Some ==> (t->0->0).0.1 <= usize::MAX))
            &&& r matches Ok(None) ==> t == Some(None::<(St, nat)>) && st(*final(cx)) == st(*old(cx))
            &&& r matches Ok(Some(v)) ==> t == Some(Some((st(*final(cx)), un(v))))
            &&& r is Err ==> r->Err_0 is UnsupportedExpr
        }),
{
    let lt = tagged_slot(lhs, locals);
    let rt = tagged_slot(rhs, locals);
    match (lt, rt) {
        (Some(a), Some(b)) => {
            let need: usize = if is_ne {
                3
            } else {
                1
            };
            if cx.next > usize::MAX - need {
                return Err(overflow());
            }
            let eq = cx.next;
            cx.ops.push(Op::TaggedEqSlots { result: eq, lhs: a, rhs: b });
            cx.next = eq + 1;
            Ok(Some(emit_negate_if(cx, eq, is_ne)))
        },
        (None, None) => Ok(None),
        _ => {
            let (slot, typed) = match lt {
                Some(a) => (a, rhs),
                None => (rt.unwrap(), lhs),
            };
            let mut scratch = EmitCx { ops: Vec::new(), next: cx.next };
            let tv = emit_expr(&mut scratch, typed, locals)?;
            match tv.kind {
                ValueKind::Number | ValueKind::Bool => {},
                _ => {
                    return Ok(None);
                },
            }
            let need: usize = match tv.kind {
                ValueKind::Number => 9,
                _ => 10,
            } + if is_ne {
                2
            } else {
                0
            };
            if scratch.next > usize::MAX - need {
                return Err(overflow());
            }
            cx.ops.append(&mut scratch.ops);
            cx.next = scratch.next;
            let r = emit_tagged_vs_typed(cx, slot, tv.id, tv.kind, lay);
            Ok(Some(emit_negate_if(cx, r, is_ne)))
        },
    }
}

/// Law: `~=` on a tagged operand is `==` followed by its negation
/// (`xori` with `true`); where `==` emits nothing or is refused, so is
/// `~=`.
pub proof fn law_tagged_ne_negates_eq(
    s: St,
    lhs: HirExpr,
    rhs: HirExpr,
    locals: Seq<LocalInfo>,
    lay: TagLayout,
)
    ensures
        sp_tagged_eq(s, true, lhs, rhs, locals, lay) == match sp_tagged_eq(s, false, lhs, rhs, locals, lay) {
            Some(Some((s2, v))) => Some(Some(sp_negate_if(s2, v, true))),
            other => other,
        },
{
}

/// The boolean arm of `tostring` on a tagged slot, with its select at
/// `k`: see `law_tostring_bool_arm`.
pub open spec fn tostring_bool_arm_at(out: Seq<Op>, k: int, base: nat, tag: usize, payload_ptr: usize, lay: TagLayout) -> bool {
    base + 8 <= k && k + 1 < out.len() && out[k] is Select && ({
        let sel = out[k];
        &&& out[k - 2] == Op::AddressOf { result: sel->Select_on_true, global: Global::STrue }
        &&& out[k - 1] == Op::AddressOf { result: sel->Select_on_false, global: Global::SFalse }
        &&& out[k - 3] is Cmpi && out[k - 3]->Cmpi_result == sel->Select_cond
        &&& out[k - 3]->Cmpi_pred == IntPredicate::Ne
        &&& out[k - 4] == Op::ConstInt { result: out[k - 3]->Cmpi_rhs, ty: MlirType::I64, imm: 0 }
        &&& out[k - 5] == Op::Load { result: out[k - 3]->Cmpi_lhs, slot: payload_ptr, ty: MlirType::I64 }
        &&& out[k - 6] is IfValue && out[k - 7] is Cmpi
        &&& out[k - 6]->IfValue_cond == out[k - 7]->Cmpi_result
        &&& out[k - 7]->Cmpi_pred == IntPredicate::Eq && out[k - 7]->Cmpi_lhs == tag
        &&& out[k - 8] == Op::ConstInt { result: out[k - 7]->Cmpi_rhs, ty: MlirType::I64, imm: lay.tag_bool }
        &&& out[k + 1] == Op::YieldValue { value: sel->Select_result }
    })
}

/// Law: `tostring` of a tagged boolean gives `"true"` exactly when the
/// payload is non-zero: in the arm taken when the tag equals the
/// boolean tag, the payload is read as an `i64` from the payload
/// pointer, compared `ne` with zero, and that test selects the address
/// of the `"true"` string when it holds and of `"false"` when not; the
/// choice is what the arm yields.
#[verifier::rlimit(100)]
#[verifier::spinoff_prover]
pub proof fn law_tostring_bool_arm(s: St, slot: nat, lay: TagLayout)
    ensures
        ({
            let out = sp_tostring_tagged(s, slot, lay).0.0;
            let tag = sv(s.1);
            let payload_ptr = sv(s.1 + 1);
            exists|k: int| #[trigger] tostring_bool_arm_at(out, k, s.0.len(), tag, payload_ptr, lay)
        }),
{
    let s0 = s;
    let n = s.1;
    let (s, tag, vp) = p_tag_payload(s, slot);
    let (s, r) = sp_tag_arm(s, tag, lay.tag_nil);
    let (s, ns) = p_addr(s, Global::SNil);
    let s = p_yieldv(s, ns);
    let s = p_mark(s, Op::Else);
    let (s, rn) = sp_tag_arm(s, tag, lay.tag_number);
    let (s, f) = p_load(s, vp, MlirType::F64);
    let (s, fs) = sp_tostring_number(s, f);
    let s = p_yieldv(s, fs);
    let s = p_mark(s, Op::Else);
    let (s, rb) = sp_tag_arm(s, tag, lay.tag_bool);
    let (s, p64) = p_load(s, vp, MlirType::I64);
    let (s, z) = p_const(s, MlirType::I64, 0);
    let (s, p1) = p_icompare(s, IntPredicate::Ne, p64, z);
    let (s, t) = p_addr(s, Global::STrue);
    let (s, fl) = p_addr(s, Global::SFalse);
    let (s, ch) = p_select(s, p1, t, fl);
    let s = p_yieldv(s, ch);
    let s_mid = s;
    let m: int = s_mid.0.len() as int;
    let s = p_mark(s, Op::Else);
    assert(s.0.subrange(0, m) =~= s_mid.0);
    let (s, rs) = sp_tag_arm(s, tag, lay.tag_string);
    assert(s.0.subrange(0, m) =~= s_mid.0);
    let (s, sp) = p_load(s, vp, MlirType::Ptr);
    assert(s.0.subrange(0, m) =~= s_mid.0);
    let s = p_yieldv(s, sp);
    assert(s.0.subrange(0, m) =~= s_mid.0);
    let s = p_mark(s, Op::Else);
    assert(s.0.subrange(0, m) =~= s_mid.0);
    let (s, rf) = sp_tag_arm(s, tag, lay.tag_function);
    assert(s.0.subrange(0, m) =~= s_mid.0);
    let (s, fnm) = p_addr(s, Global::STypenameFunction);
    assert(s.0.subrange(0, m) =~= s_mid.0);
    let s = p_yieldv(s, fnm);
    assert(s.0.subrange(0, m) =~= s_mid.0);
    let s = p_mark(s, Op::Else);
    assert(s.0.subrange(0, m) =~= s_mid.0);
    let (s, rt) = sp_tag_arm(s, tag, lay.tag_table);
    assert(s.0.subrange(0, m) =~= s_mid.0);
    let (s, tnm) = p_addr(s, Global::STypenameTable);
    assert(s.0.subrange(0, m) =~= s_mid.0);
    let s = p_yieldv(s, tnm);
    assert(s.0.subrange(0, m) =~= s_mid.0);
    let s = p_mark(s, Op::Else);
    assert(s.0.subrange(0, m) =~= s_mid.0);
    let s = p_mark(s, Op::UnknownTagTrap);
    assert(s.0.subrange(0, m) =~= s_mid.0);
    let (s, ph) = p_addr(s, Global::STypenameFunction);
    assert(s.0.subrange(0, m) =~= s_mid.0);
    let s = p_yieldv(s, ph);
    assert(s.0.subrange(0, m) =~= s_mid.0);
    let s = p_mark(s, Op::EndIf);
    assert(s.0.subrange(0, m) =~= s_mid.0);
    let s = p_yieldv(s, rt);
    assert(s.0.subrange(0, m) =~= s_mid.0);
    let s = p_mark(s, Op::EndIf);
    assert(s.0.subrange(0, m) =~= s_mid.0);
    let s = p_yieldv(s, rf);
    assert(s.0.subrange(0, m) =~= s_mid.0);
    let s = p_mark(s, Op::EndIf);
    assert(s.0.subrange(0, m) =~= s_mid.0);
    let s = p_yieldv(s, rs);
    assert(s.0.subrange(0, m) =~= s_mid.0);
    let s = p_mark(s, Op::EndIf);
    assert(s.0.subrange(0, m) =~= s_mid.0);
    let s = p_yieldv(s, rb);
    assert(s.0.subrange(0, m) =~= s_mid.0);
    let s = p_mark(s, Op::EndIf);
    assert(s.0.subrange(0, m) =~= s_mid.0);
    let s = p_yieldv(s, rn);
    assert(s.0.subrange(0, m) =~= s_mid.0);
    let s = p_mark(s, Op::EndIf);
    assert(s.0.subrange(0, m) =~= s_mid.0);
    let out = s.0;
    assert(sp_tostring_tagged(s0, slot, lay) == (s, r));
    let k: int = s0.0.len() + 25int;
    assert(s_mid.0.len() == k + 2);
    assert(out.subrange(0, m) =~= s_mid.0);
    assert forall|j: int| k - 8 <= j <= k + 1 implies out[j] == s_mid.0[j] by {
        assert(out.subrange(0, m)[j] == out[j]);
    }
    assert(out[k] == Op::Select { result: sv(n + 22), cond: sv(n + 19), on_true: sv(n + 20), on_false: sv(n + 21) });
    assert(tostring_bool_arm_at(out, k, s0.0.len(), sv(n), sv(n + 1), lay));
    let outx = sp_tostring_tagged(s0, slot, lay).0.0;
    assert(outx == out);
    assert(exists|k: int| #[trigger] tostring_bool_arm_at(outx, k, s0.0.len(), sv(s0.1), sv(s0.1 + 1), lay));
}

/// The comparison of a tagged slot with a number, its `cmpf` at `k`:
/// see `law_tagged_number_equality`.
pub open spec fn tagged_number_compare_at(out: Seq<Op>, k: int, base: nat, slot: nat, tv: nat, r: nat, lay: TagLayout) -> bool {
    base + 7 <= k && k + 5 < out.len() && out[k] is Cmpf && ({
        let c = out[k];
        &&& forall|ord: FloatOrder| cmpf_holds(c->Cmpf_pred, ord) == (ord is Equal)
        &&& c->Cmpf_rhs == sv(tv)
        &&& out[k - 1] == Op::Load { result: c->Cmpf_lhs, slot: out[k - 1]->Load_slot, ty: MlirType::F64 }
        &&& out[k - 2] == Op::Gep { result: out[k - 1]->Load_slot, base: sv(slot), offset: out[k - 2]->Gep_offset }
        &&& out[k - 3] == Op::ConstInt { result: out[k - 2]->Gep_offset, ty: MlirType::I64, imm: lay.off_value }
        &&& out[k - 4] == Op::IfValue { result: sv(r), cond: out[k - 4]->IfValue_cond, ty: MlirType::I1 }
        &&& out[k - 5] == Op::Cmpi { result: out[k - 4]->IfValue_cond, pred: IntPredicate::Eq, lhs: out[k - 5]->Cmpi_lhs, rhs: out[k - 5]->Cmpi_rhs }
        &&& out[k - 6] == Op::ConstInt { result: out[k - 5]->Cmpi_rhs, ty: MlirType::I64, imm: lay.tag_number }
        &&& out[k - 7] == Op::Load { result: out[k - 5]->Cmpi_lhs, slot: sv(slot), ty: MlirType::I64 }
        &&& out[k + 1] == Op::YieldValue { value: c->Cmpf_result }
        &&& out[k + 2] == Op::Else
        &&& out[k + 3] == Op::ConstInt { result: out[k + 4]->YieldValue_value, ty: MlirType::I1, imm: 0 }
        &&& out[k + 4] is YieldValue
    })
}

/// Law: `==` between a tagged slot and a number checks the tag against
/// the number tag and then compares the `f64` payload (read from the
/// slot's payload offset) with the number by a predicate that holds
/// exactly when the two are equal (and never on a NaN); the answer is
/// that comparison when the tag matches and `false` otherwise.
#[verifier::rlimit(100)]
#[verifier::spinoff_prover]
pub proof fn law_tagged_number_equality(s: St, slot: nat, tv: nat, lay: TagLayout)
    ensures
        ({
            let (s2, r) = sp_tagged_vs_typed(s, slot, tv, ValueKind::Number, lay);
            let out = s2.0;
            exists|k: int| #[trigger] tagged_number_compare_at(out, k, s.0.len(), slot, tv, r, lay)
        }),
{
    let n = s.1;
    let (s1, tag) = p_load(s, slot, MlirType::I64);
    let (s2, ec) = p_const(s1, MlirType::I64, lay.tag_number);
    let (s3, tm) = p_icompare(s2, IntPredicate::Eq, tag, ec);
    let (s4, r) = p_ifv(s3, tm, MlirType::I1);
    let (s5, vp) = sp_byte_offset(s4, slot, lay.off_value);
    let (s6, pl) = p_load(s5, vp, MlirType::F64);
    let (s7, eq) = p_fcompare(s6, CmpfPredicate::Oeq, pl, tv);
    let s8 = p_yieldv(s7, eq);
    let s9 = p_mark(s8, Op::Else);
    let (s10, z) = p_const(s9, MlirType::I1, 0);
    let s11 = p_yieldv(s10, z);
    let s12 = p_mark(s11, Op::EndIf);
    let out = s12.0;
    let k: int = s.0.len() + 7int;
    let ops = seq![
        Op::Load { result: sv(n), slot: sv(slot), ty: MlirType::I64 },
        Op::ConstInt { result: sv(n + 1), ty: MlirType::I64, imm: lay.tag_number },
        Op::Cmpi { result: sv(n + 2), pred: IntPredicate::Eq, lhs: sv(n), rhs: sv(n + 1) },
        Op::IfValue { result: sv(n + 3), cond: sv(n + 2), ty: MlirType::I1 },
        Op::ConstInt { result: sv(n + 4), ty: MlirType::I64, imm: lay.off_value },
        Op::Gep { result: sv(n + 5), base: sv(slot), offset: sv(n + 4) },
        Op::Load { result: sv(n + 6), slot: sv(n + 5), ty: MlirType::F64 },
        Op::Cmpf { result: sv(n + 7), pred: CmpfPredicate::Oeq, lhs: sv(n + 6), rhs: sv(tv) },
        Op::YieldValue { value: sv(n + 7) },
        Op::Else,
        Op::ConstInt { result: sv(n + 8), ty: MlirType::I1, imm: 0 },
        Op::YieldValue { value: sv(n + 8) },
        Op::EndIf,
    ];
    assert(out =~= s.0 + ops);
    assert(sp_tagged_vs_typed(s, slot, tv, ValueKind::Number, lay) == (s12, r));
    assert forall|j: int| 0 <= j < 13 implies out[s.0.len() + j] == ops[j] by {}
    assert(tagged_number_compare_at(out, k, s.0.len(), slot, tv, r, lay));
    let (s2x, rx) = sp_tagged_vs_typed(s, slot, tv, ValueKind::Number, lay);
    assert(s2x.0 == out && rx == r);
    assert(exists|k: int| #[trigger] tagged_number_compare_at(s2x.0, k, s.0.len(), slot, tv, rx, lay));
}

/// The comparison of a tagged slot with a boolean, its `cmpi` at `k`:
/// see `law_tagged_bool_equality`.
pub open spec fn tagged_bool_compare_at(out: Seq<Op>, k: int, base: nat, slot: nat, tv: nat, r: nat, lay: TagLayout) -> bool {
    base + 8 <= k && k + 5 < out.len() && out[k] is Cmpi && ({
        let c = out[k];
        &&& c->Cmpi_pred == IntPredicate::Eq && c->Cmpi_rhs == sv(tv)
        &&& out[k - 1] == Op::LlvmTrunc { result: c->Cmpi_lhs, operand: out[k - 1]->LlvmTrunc_operand, ty: MlirType::I1 }
        &&& out[k - 2] == Op::Load { result: out[k - 1]->LlvmTrunc_operand, slot: out[k - 2]->Load_slot, ty: MlirType::I64 }
        &&& out[k - 3] == Op::Gep { result: out[k - 2]->Load_slot, base: sv(slot), offset: out[k - 3]->Gep_offset }
        &&& out[k - 4] == Op::ConstInt { result: out[k - 3]->Gep_offset, ty: MlirType::I64, imm: lay.off_value }
        &&& out[k - 5] == Op::IfValue { result: sv(r), cond: out[k - 5]->IfValue_cond, ty: MlirType::I1 }
        &&& out[k - 6] == Op::Cmpi { result: out[k - 5]->IfValue_cond, pred: IntPredicate::Eq, lhs: out[k - 6]->Cmpi_lhs, rhs: out[k - 6]->Cmpi_rhs }
        &&& out[k - 7] == Op::ConstInt { result: out[k - 6]->Cmpi_rhs, ty: MlirType::I64, imm: lay.tag_bool }
        &&& out[k - 8] == Op::Load { result: out[k - 6]->Cmpi_lhs, slot: sv(slot), ty: MlirType::I64 }
        &&& out[k + 1] == Op::YieldValue { value: c->Cmpi_result }
        &&& out[k + 2] == Op::Else
        &&& out[k + 3] == Op::ConstInt { result: out[k + 4]->YieldValue_value, ty: MlirType::I1, imm: 0 }
        &&& out[k + 4] is YieldValue
    })
}

/// Law: `==` between a tagged slot and a boolean checks the tag against
/// the boolean tag and then compares the payload, truncated to `i1`,
/// with the boolean by `eq`; the answer is `false` when the tag differs.
#[verifier::rlimit(100)]
#[verifier::spinoff_prover]
pub proof fn law_tagged_bool_equality(s: St, slot: nat, tv: nat, lay: TagLayout)
    ensures
        ({
            let (s2, r) = sp_tagged_vs_typed(s, slot, tv, ValueKind::Bool, lay);
            let out = s2.0;
            exists|k: int| #[trigger] tagged_bool_compare_at(out, k, s.0.len(), slot, tv, r, lay)
        }),
{
    let n = s.1;
    let (s1, tag) = p_load(s, slot, MlirType::I64);
    let (s2, ec) = p_const(s1, MlirType::I64, lay.tag_bool);
    let (s3, tm) = p_icompare(s2, IntPredicate::Eq, tag, ec);
    let (s4, r) = p_ifv(s3, tm, MlirType::I1);
    let (s5, vp) = sp_byte_offset(s4, slot, lay.off_value);
    let (s6, pl) = p_load(s5, vp, MlirType::I64);
    let (s7, b) = p_trunc_llvm(s6, pl, MlirType::I1);
    let (s8, eq) = p_icompare(s7, IntPredicate::Eq, b, tv);
    let s9 = p_yieldv(s8, eq);
    let s10 = p_mark(s9, Op::Else);
    let (s11, z) = p_const(s10, MlirType::I1, 0);
    let s12 = p_yieldv(s11, z);
    let s13 = p_mark(s12, Op::EndIf);
    let out = s13.0;
    let k: int = s.0.len() + 8int;
    let ops = seq![
        Op::Load { result: sv(n), slot: sv(slot), ty: MlirType::I64 },
        Op::ConstInt { result: sv(n + 1), ty: MlirType::I64, imm: lay.tag_bool },
        Op::Cmpi { result: sv(n + 2), pred: IntPredicate::Eq, lhs: sv(n), rhs: sv(n + 1) },
        Op::IfValue { result: sv(n + 3), cond: sv(n + 2), ty: MlirType::I1 },
        Op::ConstInt { result: sv(n + 4), ty: MlirType::I64, imm: lay.off_value },
        Op::Gep { result: sv(n + 5), base: sv(slot), offset: sv(n + 4) },
        Op::Load { result: sv(n + 6), slot: sv(n + 5), ty: MlirType::I64 },
        Op::LlvmTrunc { result: sv(n + 7), operand: sv(n + 6), ty: MlirType::I1 },
        Op::Cmpi { result: sv(n + 8), pred: IntPredicate::Eq, lhs: sv(n + 7), rhs: sv(tv) },
        Op::YieldValue { value: sv(n + 8) },
        Op::Else,
        Op::ConstInt { result: sv(n + 9), ty: MlirType::I1, imm: 0 },
        Op::YieldValue { value: sv(n + 9) },
        Op::EndIf,
    ];
    assert(out =~= s.0 + ops);
    assert(sp_tagged_vs_typed(s, slot, tv, ValueKind::Bool, lay) == (s13, r));
    assert forall|j: int| 0 <= j < 14 implies out[s.0.len() + j] == ops[j] by {}
    assert(tagged_bool_compare_at(out, k, s.0.len(), slot, tv, r, lay));
    let (s2x, rx) = sp_tagged_vs_typed(s, slot, tv, ValueKind::Bool, lay);
    assert(s2x.0 == out && rx == r);
    assert(exists|k: int| #[trigger] tagged_bool_compare_at(s2x.0, k, s.0.len(), slot, tv, rx, lay));
}

} // verus!
