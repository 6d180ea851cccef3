use lumelir::callabi::{MlirType, ValueKind};
use lumelir::emit::CmpfPredicate;
use lumelir::emitter::{emit_expr, emit_module, emit_stmt, EmitCx, ValRef};
use lumelir::error::CodegenError;
use lumelir::hir::{
    BinOp, Builtin, Callee, FuncId, HirChunk, HirExpr, HirExprKind, HirFunction, HirStmt,
    HirStmtKind, LocalId, LocalInfo, UnaryOp,
};
use lumelir::mlir::{ArithOp, LibmFn, Op};

fn num(x: f64) -> HirExpr {
    HirExpr { kind: HirExprKind::Number(x.to_bits()) }
}

fn boolean(b: bool) -> HirExpr {
    HirExpr { kind: HirExprKind::Bool(b) }
}

fn local(i: usize) -> HirExpr {
    HirExpr { kind: HirExprKind::Local(LocalId(i)) }
}

fn bin(op: BinOp, lhs: HirExpr, rhs: HirExpr) -> HirExpr {
    HirExpr { kind: HirExprKind::BinOp { op, lhs: Box::new(lhs), rhs: Box::new(rhs) } }
}

fn print(args: Vec<HirExpr>) -> HirStmt {
    HirStmt {
        kind: HirStmtKind::ExprStmt(HirExpr {
            kind: HirExprKind::Call { callee: Callee::Builtin(Builtin::Print), args },
        }),
    }
}

fn slot(kind: ValueKind) -> LocalInfo {
    LocalInfo { kind, is_captured: false }
}

fn chunk(stmts: Vec<HirStmt>, locals: Vec<LocalInfo>) -> HirChunk {
    HirChunk { stmts, locals, functions: vec![] }
}

fn fresh_cx(next: usize) -> EmitCx {
    EmitCx { ops: vec![], next }
}

#[test]
fn print_one_plus_two_lowers_to_addf_and_printf() {
    let m = emit_module(&chunk(vec![print(vec![bin(BinOp::Add, num(1.0), num(2.0))])], vec![]))
        .expect("scalar program");
    assert_eq!(
        m.main_ops,
        vec![
            Op::ConstF64 { result: 0, bits: 1.0f64.to_bits() },
            Op::ConstF64 { result: 1, bits: 2.0f64.to_bits() },
            Op::Binary { result: 2, op: ArithOp::Addf, lhs: 0, rhs: 1 },
            Op::PrintNumber { value: 2 },
            Op::PrintNewline,
            Op::ConstF64 { result: 3, bits: 0 },
            Op::ConstI64 { result: 4, imm: 0 },
            Op::Return { value: 4 },
        ]
    );
    assert_eq!(m.value_count, 5);
}

#[test]
fn locals_get_one_slot_each_numbered_first() {
    let m = emit_module(&chunk(
        vec![HirStmt { kind: HirStmtKind::LocalInit { id: LocalId(1), value: boolean(true) } }],
        vec![slot(ValueKind::Number), slot(ValueKind::Bool)],
    ))
    .unwrap();
    assert_eq!(
        m.main_ops,
        vec![
            Op::Alloca { result: 0, ty: MlirType::F64 },
            Op::Alloca { result: 1, ty: MlirType::I1 },
            Op::ConstI1 { result: 2, flag: true },
            Op::Store { value: 2, slot: 1 },
            Op::ConstI64 { result: 3, imm: 0 },
            Op::Return { value: 3 },
        ]
    );
}

#[test]
fn and_evaluates_rhs_in_then_region() {
    let mut cx = fresh_cx(10);
    let v = emit_expr(&mut cx, &bin(BinOp::And, boolean(true), boolean(false)), &[]).unwrap();
    assert_eq!(v, ValRef { id: 11, kind: ValueKind::Bool });
    assert_eq!(
        cx.ops,
        vec![
            Op::ConstI1 { result: 10, flag: true },
            Op::IfValue { result: 11, cond: 10, ty: MlirType::I1 },
            Op::ConstI1 { result: 12, flag: false },
            Op::YieldValue { value: 12 },
            Op::Else,
            Op::YieldValue { value: 10 },
            Op::EndIf,
        ]
    );
    assert_eq!(cx.next, 13);
}

#[test]
fn or_evaluates_rhs_in_else_region() {
    let mut cx = fresh_cx(0);
    let v = emit_expr(&mut cx, &bin(BinOp::Or, num(1.0), num(2.0)), &[]).unwrap();
    assert_eq!(v, ValRef { id: 2, kind: ValueKind::Number });
    assert_eq!(
        cx.ops,
        vec![
            Op::ConstF64 { result: 0, bits: 1.0f64.to_bits() },
            Op::ConstI1 { result: 1, flag: true },
            Op::IfValue { result: 2, cond: 1, ty: MlirType::F64 },
            Op::YieldValue { value: 0 },
            Op::Else,
            Op::ConstF64 { result: 3, bits: 2.0f64.to_bits() },
            Op::YieldValue { value: 3 },
            Op::EndIf,
        ]
    );
}

#[test]
fn and_of_mismatched_kinds_is_unsupported() {
    let mut cx = fresh_cx(0);
    let r = emit_expr(&mut cx, &bin(BinOp::And, num(1.0), boolean(true)), &[]);
    assert!(matches!(r, Err(CodegenError::UnsupportedExpr(_))));
}

#[test]
fn ne_and_eq_differ_only_in_predicate() {
    let mut a = fresh_cx(0);
    let mut b = fresh_cx(0);
    emit_expr(&mut a, &bin(BinOp::Ne, num(1.0), num(2.0)), &[]).unwrap();
    emit_expr(&mut b, &bin(BinOp::Eq, num(1.0), num(2.0)), &[]).unwrap();
    assert_eq!(a.ops[2], Op::Cmpf { result: 2, pred: CmpfPredicate::One, lhs: 0, rhs: 1 });
    assert_eq!(b.ops[2], Op::Cmpf { result: 2, pred: CmpfPredicate::Oeq, lhs: 0, rhs: 1 });
    assert_eq!(a.ops[..2], b.ops[..2]);
}

#[test]
fn nan_makes_both_eq_and_ne_false() {
    let nan = f64::NAN;
    assert!(!(nan == nan));
    assert!(!(nan < nan || nan > nan));
}

#[test]
fn mod_is_lhs_minus_floor_quotient_times_rhs() {
    let mut cx = fresh_cx(0);
    let v = emit_expr(&mut cx, &bin(BinOp::Mod, num(7.0), num(3.0)), &[]).unwrap();
    assert_eq!(v.id, 5);
    assert_eq!(
        cx.ops[2..].to_vec(),
        vec![
            Op::Binary { result: 2, op: ArithOp::Divf, lhs: 0, rhs: 1 },
            Op::Call1 { result: 3, func: LibmFn::Floor, operand: 2 },
            Op::Binary { result: 4, op: ArithOp::Mulf, lhs: 3, rhs: 1 },
            Op::Binary { result: 5, op: ArithOp::Subf, lhs: 0, rhs: 4 },
        ]
    );
}

#[test]
fn floor_div_and_pow_call_libm() {
    let mut cx = fresh_cx(0);
    emit_expr(&mut cx, &bin(BinOp::FloorDiv, num(7.0), num(2.0)), &[]).unwrap();
    assert_eq!(cx.ops[3], Op::Call1 { result: 3, func: LibmFn::Floor, operand: 2 });
    let mut cx = fresh_cx(0);
    emit_expr(&mut cx, &bin(BinOp::Pow, num(2.0), num(10.0)), &[]).unwrap();
    assert_eq!(cx.ops[2], Op::Call2 { result: 2, func: LibmFn::Pow, lhs: 0, rhs: 1 });
}

#[test]
fn bitwise_ops_round_trip_through_i64() {
    let mut cx = fresh_cx(0);
    let v = emit_expr(&mut cx, &bin(BinOp::Shl, num(1.0), num(4.0)), &[]).unwrap();
    assert_eq!(v, ValRef { id: 5, kind: ValueKind::Number });
    assert_eq!(
        cx.ops[2..].to_vec(),
        vec![
            Op::FpToSi { result: 2, operand: 0 },
            Op::FpToSi { result: 3, operand: 1 },
            Op::Binary { result: 4, op: ArithOp::Shli, lhs: 2, rhs: 3 },
            Op::SiToFp { result: 5, operand: 4 },
        ]
    );
}

#[test]
fn not_and_bitnot() {
    let mut cx = fresh_cx(0);
    let v = emit_expr(
        &mut cx,
        &HirExpr { kind: HirExprKind::UnaryOp { op: UnaryOp::Not, operand: Box::new(HirExpr { kind: HirExprKind::Nil }) } },
        &[],
    )
    .unwrap();
    assert_eq!(v, ValRef { id: 3, kind: ValueKind::Bool });
    assert_eq!(
        cx.ops,
        vec![
            Op::ConstI1 { result: 0, flag: false },
            Op::ConstI1 { result: 1, flag: false },
            Op::ConstI1 { result: 2, flag: true },
            Op::Binary { result: 3, op: ArithOp::Xori, lhs: 1, rhs: 2 },
        ]
    );
    let mut cx = fresh_cx(0);
    emit_expr(
        &mut cx,
        &HirExpr { kind: HirExprKind::UnaryOp { op: UnaryOp::BitNot, operand: Box::new(num(5.0)) } },
        &[],
    )
    .unwrap();
    assert_eq!(cx.ops[2], Op::ConstI64 { result: 2, imm: -1 });
}

#[test]
fn print_of_several_values_puts_tabs_between() {
    let mut cx = fresh_cx(0);
    let stmt = print(vec![num(1.0), boolean(false), HirExpr { kind: HirExprKind::Nil }]);
    emit_stmt(&mut cx, &stmt, &[]).unwrap();
    assert_eq!(
        cx.ops,
        vec![
            Op::ConstF64 { result: 0, bits: 1.0f64.to_bits() },
            Op::PrintNumber { value: 0 },
            Op::PrintTab,
            Op::ConstI1 { result: 1, flag: false },
            Op::PrintBool { value: 1 },
            Op::PrintTab,
            Op::ConstI1 { result: 2, flag: false },
            Op::PrintNil,
            Op::PrintNewline,
            Op::ConstF64 { result: 3, bits: 0 },
        ]
    );
}

#[test]
fn print_without_arguments_prints_newline() {
    let mut cx = fresh_cx(0);
    emit_stmt(&mut cx, &print(vec![]), &[]).unwrap();
    assert_eq!(cx.ops, vec![Op::PrintNewline, Op::ConstF64 { result: 0, bits: 0 }]);
}

#[test]
fn numeric_for_evaluates_bounds_once_before_the_loop() {
    let locals = [slot(ValueKind::Number)];
    let st = HirStmt {
        kind: HirStmtKind::ForNumeric {
            var_id: LocalId(0),
            start: num(1.0),
            stop: num(3.0),
            step: num(1.0),
            body: vec![print(vec![local(0)])],
            break_id: None,
        },
    };
    let mut cx = fresh_cx(1);
    emit_stmt(&mut cx, &st, &locals).unwrap();
    assert_eq!(
        cx.ops,
        vec![
            Op::ConstF64 { result: 1, bits: 1.0f64.to_bits() },
            Op::ConstF64 { result: 2, bits: 3.0f64.to_bits() },
            Op::ConstF64 { result: 3, bits: 1.0f64.to_bits() },
            Op::Alloca { result: 4, ty: MlirType::F64 },
            Op::Alloca { result: 5, ty: MlirType::F64 },
            Op::Store { value: 1, slot: 0 },
            Op::Store { value: 2, slot: 4 },
            Op::Store { value: 3, slot: 5 },
            Op::While,
            Op::Load { result: 6, slot: 0, ty: MlirType::F64 },
            Op::Load { result: 7, slot: 4, ty: MlirType::F64 },
            Op::Load { result: 8, slot: 5, ty: MlirType::F64 },
            Op::ConstF64 { result: 9, bits: 0 },
            Op::Cmpf { result: 10, pred: CmpfPredicate::Ogt, lhs: 8, rhs: 9 },
            Op::IfValue { result: 11, cond: 10, ty: MlirType::I1 },
            Op::Cmpf { result: 12, pred: CmpfPredicate::Ole, lhs: 6, rhs: 7 },
            Op::YieldValue { value: 12 },
            Op::Else,
            Op::Cmpf { result: 13, pred: CmpfPredicate::Oge, lhs: 6, rhs: 7 },
            Op::YieldValue { value: 13 },
            Op::EndIf,
            Op::Condition { cond: 11 },
            Op::Do,
            Op::Load { result: 14, slot: 0, ty: MlirType::F64 },
            Op::PrintNumber { value: 14 },
            Op::PrintNewline,
            Op::ConstF64 { result: 15, bits: 0 },
            Op::Load { result: 16, slot: 0, ty: MlirType::F64 },
            Op::Load { result: 17, slot: 5, ty: MlirType::F64 },
            Op::Binary { result: 18, op: ArithOp::Addf, lhs: 16, rhs: 17 },
            Op::Store { value: 18, slot: 0 },
            Op::Yield,
            Op::EndWhile,
        ]
    );
    assert_eq!(cx.next, 19);
}

#[test]
fn while_with_break_flag_ands_not_broken() {
    let locals = [slot(ValueKind::Bool)];
    let st = HirStmt {
        kind: HirStmtKind::While { cond: boolean(true), body: vec![], break_id: Some(LocalId(0)) },
    };
    let mut cx = fresh_cx(1);
    emit_stmt(&mut cx, &st, &locals).unwrap();
    assert_eq!(
        cx.ops,
        vec![
            Op::While,
            Op::ConstI1 { result: 1, flag: true },
            Op::Load { result: 2, slot: 0, ty: MlirType::I1 },
            Op::ConstI1 { result: 3, flag: true },
            Op::Binary { result: 4, op: ArithOp::Xori, lhs: 2, rhs: 3 },
            Op::Binary { result: 5, op: ArithOp::Andi, lhs: 1, rhs: 4 },
            Op::Condition { cond: 5 },
            Op::Do,
            Op::Yield,
            Op::EndWhile,
        ]
    );
}

#[test]
fn repeat_runs_body_then_tests_negated_condition() {
    let st = HirStmt {
        kind: HirStmtKind::Repeat { body: vec![print(vec![])], cond: boolean(true), break_id: None },
    };
    let mut cx = fresh_cx(0);
    emit_stmt(&mut cx, &st, &[]).unwrap();
    assert_eq!(
        cx.ops,
        vec![
            Op::While,
            Op::PrintNewline,
            Op::ConstF64 { result: 0, bits: 0 },
            Op::ConstI1 { result: 1, flag: true },
            Op::ConstI1 { result: 2, flag: true },
            Op::Binary { result: 3, op: ArithOp::Xori, lhs: 1, rhs: 2 },
            Op::Condition { cond: 3 },
            Op::Do,
            Op::Yield,
            Op::EndWhile,
        ]
    );
}

#[test]
fn if_elseif_else_nests_scf_ifs() {
    let st = HirStmt {
        kind: HirStmtKind::If {
            cond: boolean(false),
            then_body: vec![],
            elifs: vec![(HirExpr { kind: HirExprKind::Nil }, vec![])],
            else_body: Some(vec![print(vec![])]),
        },
    };
    let mut cx = fresh_cx(0);
    emit_stmt(&mut cx, &st, &[]).unwrap();
    assert_eq!(
        cx.ops,
        vec![
            Op::ConstI1 { result: 0, flag: false },
            Op::If { cond: 0 },
            Op::Yield,
            Op::Else,
            Op::ConstI1 { result: 1, flag: false },
            Op::ConstI1 { result: 2, flag: false },
            Op::If { cond: 2 },
            Op::Yield,
            Op::Else,
            Op::PrintNewline,
            Op::ConstF64 { result: 3, bits: 0 },
            Op::Yield,
            Op::EndIf,
            Op::Yield,
            Op::EndIf,
        ]
    );
}

#[test]
fn strings_and_functions_are_outside_the_scalar_core() {
    let r = emit_module(&chunk(
        vec![print(vec![HirExpr { kind: HirExprKind::Str("hi".to_string()) }])],
        vec![],
    ));
    assert!(matches!(r, Err(CodegenError::UnsupportedExpr(_))));
    let with_fn = HirChunk {
        stmts: vec![],
        locals: vec![],
        functions: vec![HirFunction {
            mangled_name: "user_fn_0".to_string(),
            params: 0,
            ret_kinds: vec![],
            locals: vec![],
            body: vec![],
        }],
    };
    assert!(matches!(emit_module(&with_fn), Err(CodegenError::UnsupportedExpr(_))));
    let call = HirExpr {
        kind: HirExprKind::Call { callee: Callee::User(FuncId(0)), args: vec![] },
    };
    let mut cx = fresh_cx(0);
    assert!(emit_expr(&mut cx, &call, &[]).is_err());
}

#[test]
fn assigning_a_value_of_another_kind_is_unsupported() {
    let st = HirStmt { kind: HirStmtKind::Assign { id: LocalId(0), value: boolean(true) } };
    let mut cx = fresh_cx(1);
    assert!(emit_stmt(&mut cx, &st, &[slot(ValueKind::Number)]).is_err());
    let captured = [LocalInfo { kind: ValueKind::Number, is_captured: true }];
    let st = HirStmt { kind: HirStmtKind::Assign { id: LocalId(0), value: num(1.0) } };
    let mut cx = fresh_cx(1);
    assert!(emit_stmt(&mut cx, &st, &captured).is_err());
}

#[test]
fn numbering_overflow_is_an_error() {
    let mut cx = fresh_cx(usize::MAX);
    assert!(emit_expr(&mut cx, &num(1.0), &[]).is_err());
}

fn ops_of(c: HirChunk) -> Vec<Op> {
    emit_module(&c).expect("scalar module").main_ops
}

fn local_init(id: usize, value: HirExpr) -> HirStmt {
    HirStmt { kind: HirStmtKind::LocalInit { id: LocalId(id), value } }
}

fn assign(id: usize, value: HirExpr) -> HirStmt {
    HirStmt { kind: HirStmtKind::Assign { id: LocalId(id), value } }
}

fn unary(op: UnaryOp, operand: HirExpr) -> HirExpr {
    HirExpr { kind: HirExprKind::UnaryOp { op, operand: Box::new(operand) } }
}

fn if_then(cond: HirExpr, then_body: Vec<HirStmt>, else_body: Option<Vec<HirStmt>>) -> HirStmt {
    HirStmt { kind: HirStmtKind::If { cond, then_body, elifs: vec![], else_body } }
}

fn for_loop(var: usize, start: HirExpr, stop: HirExpr, step: HirExpr, body: Vec<HirStmt>, brk: Option<usize>) -> HirStmt {
    HirStmt {
        kind: HirStmtKind::ForNumeric {
            var_id: LocalId(var),
            start,
            stop,
            step,
            body,
            break_id: brk.map(LocalId),
        },
    }
}

fn has(ops: &[Op], f: impl Fn(&Op) -> bool) -> bool {
    ops.iter().any(f)
}

#[test]
fn emit_number_constant_produces_arith_constant() {
    let ops = ops_of(chunk(vec![print(vec![num(42.0)])], vec![]));
    assert!(has(&ops, |o| *o == Op::ConstF64 { result: 0, bits: 42.0f64.to_bits() }));
}

#[test]
fn emit_addition_produces_arith_addf() {
    let ops = ops_of(chunk(vec![print(vec![bin(BinOp::Add, num(1.0), num(2.0))])], vec![]));
    assert!(has(&ops, |o| matches!(o, Op::Binary { op: ArithOp::Addf, .. })));
}

#[test]
fn emit_print_call_produces_printf_call() {
    let ops = ops_of(chunk(vec![print(vec![num(7.0)])], vec![]));
    assert!(has(&ops, |o| matches!(o, Op::PrintNumber { .. })));
}

#[test]
fn emit_print_1_plus_2_verifies() {
    assert!(emit_module(&chunk(vec![print(vec![bin(BinOp::Add, num(1.0), num(2.0))])], vec![])).is_ok());
}

#[test]
fn emit_local_then_print_verifies() {
    let c = chunk(
        vec![local_init(0, num(1.0)), print(vec![bin(BinOp::Add, local(0), num(2.0))])],
        vec![slot(ValueKind::Number)],
    );
    assert!(emit_module(&c).is_ok());
}

#[test]
fn emit_assignment_verifies_and_emits_store() {
    let c = chunk(
        vec![local_init(0, num(1.0)), assign(0, num(2.0)), print(vec![local(0)])],
        vec![slot(ValueKind::Number)],
    );
    let ops = ops_of(c);
    assert_eq!(ops.iter().filter(|o| matches!(o, Op::Store { slot: 0, .. })).count(), 2);
}

#[test]
fn emit_block_with_inner_local_verifies() {
    let inner = HirStmt {
        kind: HirStmtKind::Block { stmts: vec![local_init(1, num(99.0)), print(vec![local(1)])] },
    };
    let c = chunk(
        vec![local_init(0, num(1.0)), inner, print(vec![local(0)])],
        vec![slot(ValueKind::Number), slot(ValueKind::Number)],
    );
    assert!(emit_module(&c).is_ok());
}

#[test]
fn emit_lt_uses_arith_cmpf_olt() {
    let ops = ops_of(chunk(vec![print(vec![bin(BinOp::Lt, num(1.0), num(2.0))])], vec![]));
    assert!(has(&ops, |o| matches!(o, Op::Cmpf { pred: CmpfPredicate::Olt, .. })));
}

#[test]
fn emit_eq_uses_arith_cmpf_oeq() {
    let ops = ops_of(chunk(vec![print(vec![bin(BinOp::Eq, num(1.0), num(2.0))])], vec![]));
    assert!(has(&ops, |o| matches!(o, Op::Cmpf { pred: CmpfPredicate::Oeq, .. })));
}

#[test]
fn emit_print_true_uses_string_format() {
    let ops = ops_of(chunk(vec![print(vec![boolean(true)])], vec![]));
    assert!(has(&ops, |o| matches!(o, Op::PrintBool { value: 0 })));
}

#[test]
fn emit_print_comparison_module_verifies() {
    assert!(emit_module(&chunk(vec![print(vec![bin(BinOp::Ge, num(2.0), num(2.0))])], vec![])).is_ok());
}

#[test]
fn emit_not_uses_arith_xori() {
    let ops = ops_of(chunk(vec![print(vec![unary(UnaryOp::Not, boolean(true))])], vec![]));
    assert!(has(&ops, |o| matches!(o, Op::Binary { op: ArithOp::Xori, .. })));
}

#[test]
fn emit_not_with_number_emits_truthiness_then_xor() {
    let ops = ops_of(chunk(vec![print(vec![unary(UnaryOp::Not, num(1.0))])], vec![]));
    assert!(has(&ops, |o| matches!(o, Op::Binary { op: ArithOp::Xori, .. })));
    assert!(has(&ops, |o| *o == Op::ConstI1 { result: 1, flag: true }));
}

#[test]
fn emit_and_uses_scf_if_with_yield() {
    let ops = ops_of(chunk(vec![print(vec![bin(BinOp::And, boolean(true), boolean(false))])], vec![]));
    assert!(has(&ops, |o| matches!(o, Op::IfValue { ty: MlirType::I1, .. })));
    assert!(has(&ops, |o| matches!(o, Op::YieldValue { .. })));
}

#[test]
fn emit_or_uses_scf_if_with_yield() {
    let ops = ops_of(chunk(vec![print(vec![bin(BinOp::Or, boolean(false), boolean(true))])], vec![]));
    assert!(has(&ops, |o| matches!(o, Op::IfValue { ty: MlirType::I1, .. })));
    assert!(has(&ops, |o| matches!(o, Op::YieldValue { .. })));
}

#[test]
fn emit_module_with_short_circuit_verifies() {
    let cond = bin(
        BinOp::And,
        bin(BinOp::Lt, num(1.0), num(2.0)),
        bin(BinOp::Lt, num(2.0), num(3.0)),
    );
    let c = chunk(vec![if_then(cond, vec![print(vec![boolean(true)])], None)], vec![]);
    assert!(emit_module(&c).is_ok());
}

#[test]
fn emit_while_with_break_extends_cond_with_andi() {
    let body = vec![assign(0, boolean(true))];
    let w = HirStmt {
        kind: HirStmtKind::While { cond: boolean(true), body, break_id: Some(LocalId(0)) },
    };
    let ops = ops_of(chunk(vec![local_init(0, boolean(false)), w], vec![slot(ValueKind::Bool)]));
    assert!(has(&ops, |o| matches!(o, Op::Binary { op: ArithOp::Andi, .. })));
    assert!(has(&ops, |o| matches!(o, Op::Binary { op: ArithOp::Xori, .. })));
}

#[test]
fn emit_module_with_break_in_for_verifies() {
    let body = vec![if_then(bin(BinOp::Eq, local(0), num(3.0)), vec![assign(1, boolean(true))], None)];
    let c = chunk(
        vec![local_init(1, boolean(false)), for_loop(0, num(1.0), num(5.0), num(1.0), body, Some(1))],
        vec![slot(ValueKind::Number), slot(ValueKind::Bool)],
    );
    assert!(emit_module(&c).is_ok());
}

fn print_i_loop() -> HirChunk {
    chunk(
        vec![for_loop(0, num(1.0), num(3.0), num(1.0), vec![print(vec![local(0)])], None)],
        vec![slot(ValueKind::Number)],
    )
}

#[test]
fn emit_for_numeric_uses_scf_while() {
    let ops = ops_of(print_i_loop());
    assert!(has(&ops, |o| *o == Op::While));
    assert!(has(&ops, |o| matches!(o, Op::Condition { .. })));
}

#[test]
fn emit_for_numeric_evaluates_start_once() {
    let ops = ops_of(print_i_loop());
    let starts = ops.iter().filter(|o| matches!(o, Op::ConstF64 { bits, .. } if *bits == 1.0f64.to_bits())).count();
    assert!(starts <= 3, "expected start evaluated once, got {starts} occurrences");
}

#[test]
fn emit_for_with_negative_step_uses_runtime_dispatch() {
    let c = chunk(
        vec![for_loop(0, num(10.0), num(1.0), unary(UnaryOp::Neg, num(2.0)), vec![print(vec![local(0)])], None)],
        vec![slot(ValueKind::Number)],
    );
    let ops = ops_of(c);
    assert!(has(&ops, |o| matches!(o, Op::IfValue { .. })));
    assert!(has(&ops, |o| matches!(o, Op::Cmpf { pred: CmpfPredicate::Ole, .. } | Op::Cmpf { pred: CmpfPredicate::Oge, .. })));
}

#[test]
fn emit_module_with_for_verifies() {
    assert!(emit_module(&print_i_loop()).is_ok());
}

#[test]
fn emit_if_uses_scf_if() {
    let c = chunk(vec![if_then(num(1.0), vec![print(vec![num(1.0)])], None)], vec![]);
    let ops = ops_of(c);
    assert!(has(&ops, |o| matches!(o, Op::If { .. })));
}

#[test]
fn emit_if_with_else_emits_both_arms() {
    let c = chunk(
        vec![if_then(num(1.0), vec![print(vec![num(1.0)])], Some(vec![print(vec![num(2.0)])]))],
        vec![],
    );
    let ops = ops_of(c);
    assert!(has(&ops, |o| matches!(o, Op::If { .. })));
    assert!(has(&ops, |o| *o == Op::Else));
    assert_eq!(ops.iter().filter(|o| matches!(o, Op::PrintNumber { .. })).count(), 2);
}

#[test]
fn emit_while_uses_scf_while() {
    let body = vec![assign(0, bin(BinOp::Add, local(0), num(1.0)))];
    let w = HirStmt {
        kind: HirStmtKind::While { cond: bin(BinOp::Lt, local(0), num(3.0)), body, break_id: None },
    };
    let ops = ops_of(chunk(vec![local_init(0, num(0.0)), w], vec![slot(ValueKind::Number)]));
    assert!(has(&ops, |o| *o == Op::While));
}

#[test]
fn emit_truthiness_for_number_emits_constant_true() {
    let ops = ops_of(chunk(vec![if_then(num(1.0), vec![print(vec![num(1.0)])], None)], vec![]));
    assert!(has(&ops, |o| matches!(o, Op::ConstI1 { flag: true, .. })));
}

#[test]
fn emit_module_with_if_verifies() {
    let c = chunk(
        vec![if_then(
            HirExpr { kind: HirExprKind::Nil },
            vec![print(vec![num(1.0)])],
            Some(vec![print(vec![num(2.0)])]),
        )],
        vec![],
    );
    assert!(emit_module(&c).is_ok());
}

#[test]
fn emit_local_bool_uses_i1_slot() {
    let ops = ops_of(chunk(vec![local_init(0, boolean(true)), print(vec![local(0)])], vec![slot(ValueKind::Bool)]));
    assert_eq!(ops[0], Op::Alloca { result: 0, ty: MlirType::I1 });
}

#[test]
fn emit_local_nil_module_verifies() {
    let c = chunk(
        vec![local_init(0, HirExpr { kind: HirExprKind::Nil }), print(vec![local(0)])],
        vec![slot(ValueKind::Nil)],
    );
    assert!(emit_module(&c).is_ok());
}

#[test]
fn emit_print_nil_uses_s_nil_global() {
    let ops = ops_of(chunk(vec![print(vec![HirExpr { kind: HirExprKind::Nil }])], vec![]));
    assert!(has(&ops, |o| *o == Op::PrintNil));
}

#[test]
fn emit_subtraction_uses_arith_subf() {
    let ops = ops_of(chunk(vec![print(vec![bin(BinOp::Sub, num(3.0), num(1.0))])], vec![]));
    assert!(has(&ops, |o| matches!(o, Op::Binary { op: ArithOp::Subf, .. })));
}

#[test]
fn emit_multiplication_uses_arith_mulf() {
    let ops = ops_of(chunk(vec![print(vec![bin(BinOp::Mul, num(2.0), num(3.0))])], vec![]));
    assert!(has(&ops, |o| matches!(o, Op::Binary { op: ArithOp::Mulf, .. })));
}

#[test]
fn emit_division_uses_arith_divf() {
    let ops = ops_of(chunk(vec![print(vec![bin(BinOp::Div, num(8.0), num(2.0))])], vec![]));
    assert!(has(&ops, |o| matches!(o, Op::Binary { op: ArithOp::Divf, .. })));
}

#[test]
fn emit_pow_calls_libm_pow() {
    let ops = ops_of(chunk(vec![print(vec![bin(BinOp::Pow, num(2.0), num(10.0))])], vec![]));
    assert!(has(&ops, |o| matches!(o, Op::Call2 { func: LibmFn::Pow, .. })));
}

#[test]
fn emit_modulo_uses_floor_for_lua_semantics() {
    let ops = ops_of(chunk(vec![print(vec![bin(BinOp::Mod, num(5.0), num(3.0))])], vec![]));
    assert!(has(&ops, |o| matches!(o, Op::Call1 { func: LibmFn::Floor, .. })));
}

#[test]
fn emit_unary_minus_uses_arith_negf() {
    let ops = ops_of(chunk(vec![print(vec![unary(UnaryOp::Neg, num(5.0))])], vec![]));
    assert!(has(&ops, |o| matches!(o, Op::Negf { .. })));
}

#[test]
fn emit_local_emits_alloca() {
    let ops = ops_of(chunk(vec![local_init(0, num(1.0)), print(vec![local(0)])], vec![slot(ValueKind::Number)]));
    assert!(has(&ops, |o| matches!(o, Op::Alloca { .. })));
}

fn result_of(op: &Op) -> Option<usize> {
    match *op {
        Op::Alloca { result, .. }
        | Op::ConstF64 { result, .. }
        | Op::ConstI1 { result, .. }
        | Op::ConstI64 { result, .. }
        | Op::Load { result, .. }
        | Op::Binary { result, .. }
        | Op::Negf { result, .. }
        | Op::Cmpf { result, .. }
        | Op::FpToSi { result, .. }
        | Op::SiToFp { result, .. }
        | Op::Call1 { result, .. }
        | Op::Call2 { result, .. }
        | Op::IfValue { result, .. } => Some(result),
        _ => None,
    }
}

#[test]
fn module_defines_each_ssa_number_once_in_order() {
    let body = vec![
        if_then(bin(BinOp::Eq, local(0), num(3.0)), vec![assign(1, boolean(true))], Some(vec![print(vec![bin(BinOp::Or, local(0), num(1.0))])])),
    ];
    let c = chunk(
        vec![local_init(1, boolean(false)), for_loop(0, num(1.0), num(5.0), num(1.0), body, Some(1))],
        vec![slot(ValueKind::Number), slot(ValueKind::Bool)],
    );
    let m = emit_module(&c).unwrap();
    let defined: Vec<usize> = m.main_ops.iter().filter_map(result_of).collect();
    assert_eq!(defined, (0..m.value_count).collect::<Vec<usize>>());
}

#[test]
fn ne_is_negated_eq_on_ordered_numbers() {
    for (a, b) in [(1.0f64, 2.0f64), (2.0, 2.0), (-0.0, 0.0)] {
        assert_eq!(a != b, !(a == b));
    }
}
