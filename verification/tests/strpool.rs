use lumelir::callabi::ValueKind;
use lumelir::hir::{
    BinOp, Builtin, Callee, HirChunk, HirExpr, HirExprKind, HirFunction, HirStmt, HirStmtKind,
    LocalId,
};
use lumelir::strpool::collect_string_pool;

fn s(text: &str) -> HirExpr {
    HirExpr { kind: HirExprKind::Str(text.to_string()) }
}

fn num() -> HirExpr {
    HirExpr { kind: HirExprKind::Number(42.0f64.to_bits()) }
}

fn print(args: Vec<HirExpr>) -> HirStmt {
    HirStmt {
        kind: HirStmtKind::ExprStmt(HirExpr {
            kind: HirExprKind::Call { callee: Callee::Builtin(Builtin::Print), args },
        }),
    }
}

fn pairs(pool: &[(String, String)]) -> Vec<(&str, &str)> {
    pool.iter().map(|(a, b)| (a.as_str(), b.as_str())).collect()
}

#[test]
fn pool_is_sorted_deduplicated_and_named_by_rank() {
    let chunk = HirChunk {
        stmts: vec![
            print(vec![s("world"), s("hello")]),
            print(vec![s("hello"), num()]),
        ],
        locals: vec![],
        functions: vec![],
    };
    let pool = collect_string_pool(&chunk);
    assert_eq!(pairs(&pool), vec![("hello", "lstr_0"), ("world", "lstr_1")]);
}

#[test]
fn pool_reaches_nested_expressions_and_bodies() {
    let concat = HirExpr {
        kind: HirExprKind::BinOp { op: BinOp::Concat, lhs: Box::new(s("b")), rhs: Box::new(s("a")) },
    };
    let table = HirExpr { kind: HirExprKind::Table(vec![s("t1"), s("t0")]) };
    let index = HirExpr {
        kind: HirExprKind::Index { target: Box::new(table), key: Box::new(s("key")) },
    };
    let if_stmt = HirStmt {
        kind: HirStmtKind::If {
            cond: HirExpr { kind: HirExprKind::IsNil(Box::new(s("c"))) },
            then_body: vec![print(vec![concat])],
            elifs: vec![(HirExpr { kind: HirExprKind::Bool(true) }, vec![print(vec![s("elif")])])],
            else_body: Some(vec![print(vec![index])]),
        },
    };
    let func = HirFunction {
        mangled_name: "user_f_0".to_string(),
        params: 0,
        ret_kinds: vec![ValueKind::String],
        locals: vec![],
        body: vec![HirStmt {
            kind: HirStmtKind::While {
                cond: HirExpr { kind: HirExprKind::Bool(false) },
                body: vec![print(vec![s("in fn")])],
                break_id: Some(LocalId(0)),
            },
        }],
    };
    let chunk = HirChunk { stmts: vec![if_stmt], locals: vec![], functions: vec![func] };
    let pool = collect_string_pool(&chunk);
    assert_eq!(
        pairs(&pool),
        vec![
            ("a", "lstr_0"),
            ("b", "lstr_1"),
            ("c", "lstr_2"),
            ("elif", "lstr_3"),
            ("in fn", "lstr_4"),
            ("key", "lstr_5"),
            ("t0", "lstr_6"),
            ("t1", "lstr_7"),
        ]
    );
}

#[test]
fn pool_orders_by_utf8_bytes_and_names_past_nine() {
    let mut lits: Vec<HirExpr> = Vec::new();
    for word in ["k", "j", "i", "h", "g", "f", "e", "d", "c", "b", "a", "Z", "é"] {
        lits.push(s(word));
    }
    let chunk = HirChunk { stmts: vec![print(lits)], locals: vec![], functions: vec![] };
    let pool = collect_string_pool(&chunk);
    let names: Vec<&str> = pool.iter().map(|(_, n)| n.as_str()).collect();
    assert_eq!(names[10], "lstr_10");
    assert_eq!(names[12], "lstr_12");
    assert_eq!(pool[0].0, "Z");
    assert_eq!(pool[1].0, "a");
    assert_eq!(pool[12].0, "é");
}

#[test]
fn pool_of_chunk_without_literals_is_empty() {
    let chunk = HirChunk { stmts: vec![print(vec![num()])], locals: vec![], functions: vec![] };
    assert!(collect_string_pool(&chunk).is_empty());
}

#[test]
fn pool_does_not_depend_on_literal_order() {
    let a = HirChunk { stmts: vec![print(vec![s("x"), s("y"), s("z")])], locals: vec![], functions: vec![] };
    let b = HirChunk { stmts: vec![print(vec![s("z"), s("x"), s("y"), s("x")])], locals: vec![], functions: vec![] };
    assert_eq!(collect_string_pool(&a), collect_string_pool(&b));
}
