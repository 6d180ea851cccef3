use lumelir::callabi::{MlirType, ValueKind};
use lumelir::dispatch::{emit_isnil_index, emit_tagged_eq_runtime_dispatch, emit_tostring_tagged_local};
use lumelir::emitter::{emit_expr, EmitCx};
use lumelir::error::CodegenError;
use lumelir::hir::{Builtin, Callee, HirExpr, HirExprKind, LocalId, LocalInfo};
use lumelir::mlir::{ArithOp, IntPredicate, Op};
use lumelir::runtime::{
    emit_gc_alloc, emit_hash_grow_if_needed, emit_hash_lookup_into_tagged_slot, emit_hash_probe_loop,
    emit_lumelir_next_function, GcLayout, KeyPolicies, KeyPolicy, MissOutcome, TagLayout,
};

fn tags() -> TagLayout {
    TagLayout {
        tag_nil: 0,
        tag_bool: 1,
        tag_number: 2,
        tag_string: 3,
        tag_function: 4,
        tag_table: 5,
        tag_deleted: 6,
        off_value: 8,
        slot_size: 16,
    }
}

fn gc() -> GcLayout {
    GcLayout { header_size: 24, off_mark: 0, off_type_tag: 1, off_size: 4, off_next: 8, threshold_cap: 1 << 30 }
}

fn policies() -> KeyPolicies {
    KeyPolicies { nil: vec![KeyPolicy::TrapNil], number: vec![KeyPolicy::CheckNaN] }
}

fn cx_at(next: usize) -> EmitCx {
    EmitCx { ops: Vec::new(), next }
}

fn local(i: usize) -> HirExpr {
    HirExpr { kind: HirExprKind::Local(LocalId(i)) }
}

fn num(x: f64) -> HirExpr {
    HirExpr { kind: HirExprKind::Number(x.to_bits()) }
}

fn slot(kind: ValueKind) -> LocalInfo {
    LocalInfo { kind, is_captured: false }
}

#[test]
fn gc_alloc_checks_size_first_and_numbers_81_values() {
    let mut cx = cx_at(10);
    let r = emit_gc_alloc(&mut cx, 3, 7, gc());
    assert!(r.is_ok());
    assert_eq!(cx.next, 91);
    assert_eq!(cx.ops[0], Op::ConstInt { result: 10, ty: MlirType::I64, imm: 4294967296 });
    assert_eq!(cx.ops[1], Op::Cmpi { result: 11, pred: IntPredicate::Uge, lhs: 3, rhs: 10 });
    assert_eq!(cx.ops[2], Op::If { cond: 11 });
    assert!(r.unwrap() < 91);
}

#[test]
fn gc_alloc_refuses_numbering_overflow() {
    let mut cx = cx_at(usize::MAX - 80);
    assert!(matches!(emit_gc_alloc(&mut cx, 3, 7, gc()), Err(CodegenError::UnsupportedExpr(_))));
    let mut cx = cx_at(usize::MAX - 81);
    assert!(emit_gc_alloc(&mut cx, 3, 7, gc()).is_ok());
}

#[test]
fn probe_loop_gates_the_key_then_loops() {
    let mut cx = cx_at(100);
    let r = emit_hash_probe_loop(&mut cx, 1, 2, 3, tags(), &policies());
    assert!(r.is_ok());
    // 79 for the loop, 1 for the tag read, 19 and 23 for the two gates.
    assert_eq!(cx.next, 100 + 122);
    assert_eq!(cx.ops[0], Op::Load { result: 100, slot: 3, ty: MlirType::I64 });
    assert!(cx.ops.iter().any(|op| matches!(op, Op::WhileIter { .. })));
    assert_eq!(cx.ops.last(), Some(&Op::EndWhile));
}

#[test]
fn probe_loop_without_policies_has_no_gate() {
    let mut cx = cx_at(0);
    let pol = KeyPolicies { nil: vec![], number: vec![] };
    assert!(emit_hash_probe_loop(&mut cx, 1, 2, 3, tags(), &pol).is_ok());
    assert_eq!(cx.next, 80);
    assert!(!cx.ops.iter().any(|op| matches!(op, Op::If { .. })));
}

#[test]
fn hash_grow_numbers_its_values() {
    let mut cx = cx_at(5);
    assert!(emit_hash_grow_if_needed(&mut cx, 1, tags(), &policies()).is_ok());
    assert_eq!(cx.next, 5 + 78 + 122);
    let mut cx = cx_at(usize::MAX - 10);
    assert!(emit_hash_grow_if_needed(&mut cx, 1, tags(), &policies()).is_err());
}

#[test]
fn hash_lookup_stores_nil_on_a_miss() {
    let mut cx = cx_at(0);
    assert!(emit_hash_lookup_into_tagged_slot(&mut cx, 1, 2, 3, MissOutcome::NilOnMissing, tags(), &policies()).is_ok());
    assert_eq!(cx.next, 26 + 122);
    assert!(cx.ops.iter().any(|op| *op == Op::StoreNilTagged { slot: 3 }));
}

#[test]
fn hash_lookup_traps_on_a_strict_miss() {
    let mut cx = cx_at(0);
    assert!(emit_hash_lookup_into_tagged_slot(&mut cx, 1, 2, 3, MissOutcome::TrapMissing, tags(), &policies()).is_ok());
    assert_eq!(cx.next, 26 + 34 + 122);
    assert!(!cx.ops.iter().any(|op| matches!(op, Op::StoreNilTagged { .. })));
}

#[test]
fn next_function_is_one_closed_function() {
    let mut cx = cx_at(0);
    assert!(emit_lumelir_next_function(&mut cx, tags()).is_ok());
    assert_eq!(cx.next, 131);
    assert!(matches!(cx.ops[0], Op::FuncNext { .. }));
    assert_eq!(cx.ops.last(), Some(&Op::EndFunc));
    assert!(cx.ops.iter().any(|op| matches!(op, Op::Return4 { .. })));
    let mut cx = cx_at(usize::MAX - 130);
    assert!(emit_lumelir_next_function(&mut cx, tags()).is_err());
}

#[test]
fn tostring_of_a_tagged_slot_chains_the_tags() {
    let mut cx = cx_at(20);
    let r = emit_tostring_tagged_local(&mut cx, 4, tags());
    assert_eq!(r.ok(), Some(24));
    assert_eq!(cx.next, 20 + 36);
    assert_eq!(cx.ops[0], Op::TagAndPayload { result: 20, slot: 4 });
    assert_eq!(cx.ops[1], Op::ConstInt { result: 22, ty: MlirType::I64, imm: 0 });
    assert!(cx.ops.iter().any(|op| *op == Op::UnknownTagTrap));
    assert_eq!(cx.ops.last(), Some(&Op::EndIf));
}

#[test]
fn isnil_index_with_a_number_key_takes_the_array_path() {
    let locals = vec![slot(ValueKind::Table), slot(ValueKind::Number)];
    let mut cx = cx_at(0);
    let r = emit_isnil_index(&mut cx, &local(0), &num(1.0), &locals, tags(), &policies());
    assert_eq!(r.ok(), Some(9));
    assert_eq!(cx.next, 21);
    assert_eq!(cx.ops[0], Op::Load { result: 0, slot: 0, ty: MlirType::Ptr });
    assert_eq!(cx.ops[3], Op::FpToSi { result: 3, operand: 2 });
    assert!(!cx.ops.iter().any(|op| matches!(op, Op::SearchKeySlot { .. })));
}

#[test]
fn isnil_index_with_a_bool_key_takes_the_hash_path() {
    let locals = vec![slot(ValueKind::Table)];
    let mut cx = cx_at(0);
    let key = HirExpr { kind: HirExprKind::Bool(true) };
    assert!(emit_isnil_index(&mut cx, &local(0), &key, &locals, tags(), &policies()).is_ok());
    assert_eq!(cx.next, 3 + 27 + 122);
    assert_eq!(cx.ops[3], Op::SearchKeySlot { result: 3, value: 2, kind: ValueKind::Bool });
}

#[test]
fn isnil_index_refuses_a_non_table_target_and_a_nil_key() {
    let locals = vec![slot(ValueKind::Number), slot(ValueKind::Table)];
    let mut cx = cx_at(0);
    assert!(emit_isnil_index(&mut cx, &local(0), &num(1.0), &locals, tags(), &policies()).is_err());
    let nil = HirExpr { kind: HirExprKind::Nil };
    assert!(emit_isnil_index(&mut cx, &local(1), &nil, &locals, tags(), &policies()).is_err());
}

#[test]
fn tagged_eq_of_two_tagged_slots() {
    let locals = vec![slot(ValueKind::TaggedValue), slot(ValueKind::TaggedValue)];
    let mut cx = cx_at(7);
    let r = emit_tagged_eq_runtime_dispatch(&mut cx, false, &local(0), &local(1), &locals, tags());
    assert_eq!(r.ok(), Some(Some(7)));
    assert_eq!(cx.ops, vec![Op::TaggedEqSlots { result: 7, lhs: 0, rhs: 1 }]);
    let mut cx = cx_at(7);
    let r = emit_tagged_eq_runtime_dispatch(&mut cx, true, &local(0), &local(1), &locals, tags());
    assert_eq!(r.ok(), Some(Some(9)));
    assert_eq!(cx.ops.last(), Some(&Op::Binary { result: 9, op: ArithOp::Xori, lhs: 7, rhs: 8 }));
}

#[test]
fn tagged_eq_against_a_number_compares_tag_and_payload() {
    let locals = vec![slot(ValueKind::TaggedValue)];
    let mut cx = cx_at(0);
    let r = emit_tagged_eq_runtime_dispatch(&mut cx, false, &local(0), &num(2.0), &locals, tags());
    assert_eq!(r.ok(), Some(Some(4)));
    assert_eq!(cx.next, 1 + 9);
    assert_eq!(cx.ops[1], Op::Load { result: 1, slot: 0, ty: MlirType::I64 });
    assert_eq!(cx.ops[2], Op::ConstInt { result: 2, ty: MlirType::I64, imm: 2 });
}

#[test]
fn tagged_eq_with_nothing_to_dispatch_emits_nothing() {
    let locals = vec![slot(ValueKind::TaggedValue), slot(ValueKind::Number)];
    let mut cx = cx_at(3);
    let r = emit_tagged_eq_runtime_dispatch(&mut cx, false, &local(1), &num(2.0), &locals, tags());
    assert_eq!(r.ok(), Some(None));
    assert!(cx.ops.is_empty());
    let nil = HirExpr { kind: HirExprKind::Nil };
    let r = emit_tagged_eq_runtime_dispatch(&mut cx, true, &local(0), &nil, &locals, tags());
    assert_eq!(r.ok(), Some(None));
    assert!(cx.ops.is_empty());
    assert_eq!(cx.next, 3);
    let s = HirExpr { kind: HirExprKind::Str(String::from("x")) };
    assert!(emit_tagged_eq_runtime_dispatch(&mut cx, false, &local(0), &s, &locals, tags()).is_err());
}

#[test]
fn next_in_single_value_position_names_the_multi_assign_form() {
    let locals = vec![slot(ValueKind::Table)];
    let call = HirExpr {
        kind: HirExprKind::Call {
            callee: Callee::Builtin(Builtin::Next),
            args: vec![local(0), HirExpr { kind: HirExprKind::Nil }],
        },
    };
    let mut cx = cx_at(0);
    match emit_expr(&mut cx, &call, &locals) {
        Err(CodegenError::UnsupportedExpr(msg)) => {
            assert!(msg.contains("local k, v = next(t, c)"));
            assert!(msg.starts_with("next(t, k) in single-value position is not supported"));
        }
        other => panic!("unexpected {other:?}"),
    }
}

#[test]
fn tagged_ne_is_eq_then_negation() {
    let locals = vec![slot(ValueKind::TaggedValue)];
    let mut eq = cx_at(0);
    let a = emit_tagged_eq_runtime_dispatch(&mut eq, false, &local(0), &num(2.0), &locals, tags());
    let mut ne = cx_at(0);
    let b = emit_tagged_eq_runtime_dispatch(&mut ne, true, &local(0), &num(2.0), &locals, tags());
    let v = a.ok().flatten().unwrap();
    assert_eq!(b.ok().flatten(), Some(eq.next + 1));
    let mut expected = eq.ops.clone();
    expected.push(Op::ConstInt { result: eq.next, ty: MlirType::I1, imm: 1 });
    expected.push(Op::Binary { result: eq.next + 1, op: ArithOp::Xori, lhs: v, rhs: eq.next });
    assert_eq!(ne.ops, expected);
}
