use lumelir::callabi::{flat_result_index, ret_kind_result_width, ret_mlir_types, MlirType, ValueKind};
use lumelir::emit::{
    binop_lowering, cmpf_predicate, is_tagged_arith_eligible_op, kind_to_mlir_type,
    llvm_callee_ret_ty, param_mlir_type, print_plan, tagged_local_idx, truthiness,
    BinOpLowering, CalleeRet, CmpfPredicate, PrintPlan, Truthiness,
};
use lumelir::hir::{BinOp, HirExpr, HirExprKind, LocalId, LocalInfo};

#[test]
fn tagged_position_takes_two_results() {
    assert_eq!(ret_kind_result_width(ValueKind::TaggedValue), 2);
    assert_eq!(ret_kind_result_width(ValueKind::Number), 1);
    assert_eq!(ret_kind_result_width(ValueKind::Function(3)), 1);
}

#[test]
fn flat_result_index_skips_tagged_pairs() {
    let kinds = [ValueKind::Number, ValueKind::TaggedValue, ValueKind::Bool];
    assert_eq!(flat_result_index(&kinds, 0), 0);
    assert_eq!(flat_result_index(&kinds, 1), 1);
    assert_eq!(flat_result_index(&kinds, 2), 3);
    assert_eq!(flat_result_index(&kinds, 3), 4);
}

#[test]
fn ret_mlir_types_flattens_in_order() {
    let kinds = [
        ValueKind::Number,
        ValueKind::TaggedValue,
        ValueKind::Bool,
        ValueKind::Nil,
        ValueKind::Function(2),
        ValueKind::String,
        ValueKind::Table,
    ];
    assert_eq!(
        ret_mlir_types(&kinds),
        vec![
            MlirType::F64,
            MlirType::I64,
            MlirType::I64,
            MlirType::I1,
            MlirType::I1,
            MlirType::Func(2),
            MlirType::Ptr,
            MlirType::Ptr,
        ]
    );
    assert_eq!(ret_mlir_types(&[]), vec![]);
}

#[test]
fn flat_index_matches_flattened_length() {
    let kinds = [ValueKind::TaggedValue, ValueKind::TaggedValue, ValueKind::Number];
    for pos in 0..=kinds.len() {
        assert_eq!(flat_result_index(&kinds, pos), ret_mlir_types(&kinds[..pos]).len());
    }
}

#[test]
fn comparison_predicates_are_ordered() {
    assert_eq!(cmpf_predicate(BinOp::Lt), CmpfPredicate::Olt);
    assert_eq!(cmpf_predicate(BinOp::Le), CmpfPredicate::Ole);
    assert_eq!(cmpf_predicate(BinOp::Gt), CmpfPredicate::Ogt);
    assert_eq!(cmpf_predicate(BinOp::Ge), CmpfPredicate::Oge);
    assert_eq!(cmpf_predicate(BinOp::Eq), CmpfPredicate::Oeq);
    assert_eq!(cmpf_predicate(BinOp::Ne), CmpfPredicate::One);
}

#[test]
fn twelve_ops_use_tagged_arith_dispatch() {
    let all = [
        BinOp::Add, BinOp::Sub, BinOp::Mul, BinOp::Div, BinOp::Mod, BinOp::Pow, BinOp::FloorDiv,
        BinOp::Concat, BinOp::Eq, BinOp::Ne, BinOp::Lt, BinOp::Le, BinOp::Gt, BinOp::Ge,
        BinOp::And, BinOp::Or, BinOp::BitAnd, BinOp::BitOr, BinOp::BitXor, BinOp::Shl, BinOp::Shr,
    ];
    let eligible: Vec<BinOp> = all.iter().copied().filter(|op| is_tagged_arith_eligible_op(*op)).collect();
    assert_eq!(eligible.len(), 12);
    assert!(!is_tagged_arith_eligible_op(BinOp::Concat));
    assert!(!is_tagged_arith_eligible_op(BinOp::Eq));
    assert!(!is_tagged_arith_eligible_op(BinOp::And));
    assert!(is_tagged_arith_eligible_op(BinOp::Shr));
}

fn info(kind: ValueKind) -> LocalInfo {
    LocalInfo { kind, is_captured: false }
}

#[test]
fn tagged_local_idx_only_for_tagged_locals() {
    let locals = [info(ValueKind::Number), info(ValueKind::TaggedValue)];
    let tagged = HirExpr { kind: HirExprKind::Local(LocalId(1)) };
    let plain = HirExpr { kind: HirExprKind::Local(LocalId(0)) };
    let lit = HirExpr { kind: HirExprKind::Nil };
    assert_eq!(tagged_local_idx(&tagged, &locals), Some(LocalId(1)));
    assert_eq!(tagged_local_idx(&plain, &locals), None);
    assert_eq!(tagged_local_idx(&lit, &locals), None);
}

#[test]
fn slot_types_per_kind() {
    assert_eq!(kind_to_mlir_type(ValueKind::Number), MlirType::F64);
    assert_eq!(kind_to_mlir_type(ValueKind::TaggedValue), MlirType::F64);
    assert_eq!(kind_to_mlir_type(ValueKind::Bool), MlirType::I1);
    assert_eq!(kind_to_mlir_type(ValueKind::Function(1)), MlirType::I1);
    assert_eq!(kind_to_mlir_type(ValueKind::String), MlirType::Ptr);
}

#[test]
fn param_types_per_kind() {
    assert_eq!(param_mlir_type(ValueKind::Number), MlirType::F64);
    assert_eq!(param_mlir_type(ValueKind::Function(2)), MlirType::Ptr);
    assert_eq!(param_mlir_type(ValueKind::Nil), MlirType::I1);
    assert_eq!(param_mlir_type(ValueKind::Table), MlirType::Ptr);
}

#[test]
fn callee_return_shapes() {
    assert_eq!(llvm_callee_ret_ty(&[]), CalleeRet::Void);
    assert_eq!(llvm_callee_ret_ty(&[MlirType::I1]), CalleeRet::Single(MlirType::I1));
    assert_eq!(
        llvm_callee_ret_ty(&[MlirType::I64, MlirType::I64]),
        CalleeRet::Struct(vec![MlirType::I64, MlirType::I64])
    );
}

#[test]
fn binop_lowerings() {
    assert_eq!(binop_lowering(BinOp::Add), BinOpLowering::Addf);
    assert_eq!(binop_lowering(BinOp::Sub), BinOpLowering::Subf);
    assert_eq!(binop_lowering(BinOp::Mul), BinOpLowering::Mulf);
    assert_eq!(binop_lowering(BinOp::Div), BinOpLowering::Divf);
    assert_eq!(binop_lowering(BinOp::Mod), BinOpLowering::LuaMod);
    assert_eq!(binop_lowering(BinOp::Pow), BinOpLowering::LibmPow);
    assert_eq!(binop_lowering(BinOp::FloorDiv), BinOpLowering::FloorOfDivf);
    assert_eq!(binop_lowering(BinOp::BitAnd), BinOpLowering::IntAndi);
    assert_eq!(binop_lowering(BinOp::Shr), BinOpLowering::IntShrsi);
    assert_eq!(binop_lowering(BinOp::Lt), BinOpLowering::Cmpf(CmpfPredicate::Olt));
    assert_eq!(binop_lowering(BinOp::Ne), BinOpLowering::Cmpf(CmpfPredicate::One));
}

#[test]
fn only_nil_and_false_are_falsy() {
    assert_eq!(truthiness(ValueKind::Nil), Truthiness::Constant(false));
    assert_eq!(truthiness(ValueKind::Bool), Truthiness::OfValue);
    assert_eq!(truthiness(ValueKind::Number), Truthiness::Constant(true));
    assert_eq!(truthiness(ValueKind::String), Truthiness::Constant(true));
    assert_eq!(truthiness(ValueKind::Table), Truthiness::Constant(true));
    assert_eq!(truthiness(ValueKind::TaggedValue), Truthiness::Constant(true));
}

#[test]
fn print_formats_per_kind() {
    assert_eq!(print_plan(ValueKind::Number), PrintPlan::Number);
    assert_eq!(print_plan(ValueKind::TaggedValue), PrintPlan::Number);
    assert_eq!(print_plan(ValueKind::Bool), PrintPlan::BoolName);
    assert_eq!(print_plan(ValueKind::Nil), PrintPlan::NilName);
    assert_eq!(print_plan(ValueKind::String), PrintPlan::Str);
}
