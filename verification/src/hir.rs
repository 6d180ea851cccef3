//! The resolved intermediate representation the emitter consumes:
//! locals and functions are numbered, every expression carries its
//! operator and operands, and literals their payloads.

use vstd::prelude::*;

use crate::callabi::ValueKind;

verus! {

/// Binary operators of the Lua surface syntax.
#[derive(Clone, Copy, Debug, PartialEq, Eq, Structural)]
pub enum BinOp {
    Add,
    Sub,
    Mul,
    Div,
    Mod,
    Pow,
    FloorDiv,
    Concat,
    Eq,
    Ne,
    Lt,
    Le,
    Gt,
    Ge,
    And,
    Or,
    BitAnd,
    BitOr,
    BitXor,
    Shl,
    Shr,
}

/// Unary operators of the Lua surface syntax.
#[derive(Clone, Copy, Debug, PartialEq, Eq, Structural)]
pub enum UnaryOp {
    Neg,
    Not,
    Len,
    BitNot,
}

/// Index of a local slot in the enclosing function (or the chunk).
#[derive(Clone, Copy, Debug, PartialEq, Eq, Structural)]
pub struct LocalId(pub usize);

/// Index of a user function in the chunk.
#[derive(Clone, Copy, Debug, PartialEq, Eq, Structural)]
pub struct FuncId(pub usize);

/// What the HIR knows of a local slot.
#[derive(Clone, Copy, Debug, PartialEq, Eq, Structural)]
pub struct LocalInfo {
    /// Static kind of the values the slot holds.
    pub kind: ValueKind,
    /// Some closure captures the slot, so it lives in an upvalue box.
    pub is_captured: bool,
}

/// Built-in functions the emitter lowers directly.
#[derive(Clone, Copy, Debug, PartialEq, Eq, Structural)]
pub enum Builtin {
    Print,
    Assert,
    Error,
    Next,
    ToNumber,
    ToString,
    Type,
}

/// Target of a call.
#[derive(Clone, Copy, Debug, PartialEq, Eq, Structural)]
pub enum Callee {
    /// A user function known at compile time.
    User(FuncId),
    /// A built-in.
    Builtin(Builtin),
    /// A function value held in a local.
    Indirect(LocalId),
    /// A function value whose target is chosen at run time among the
    /// user functions of matching shape.
    IndirectDispatch(LocalId),
}

/// An expression.
#[derive(Debug)]
pub struct HirExpr {
    pub kind: HirExprKind,
}

/// The shapes of expressions.
#[derive(Debug)]
#[allow(inconsistent_fields)]
pub enum HirExprKind {
    /// A number literal, held as its IEEE-754 bit pattern.
    Number(u64),
    Bool(bool),
    Nil,
    /// A string literal.
    Str(String),
    Local(LocalId),
    FunctionRef(FuncId),
    BinOp { op: BinOp, lhs: Box<HirExpr>, rhs: Box<HirExpr> },
    UnaryOp { op: UnaryOp, operand: Box<HirExpr> },
    Call { callee: Callee, args: Vec<HirExpr> },
    /// A table constructor with positional elements.
    Table(Vec<HirExpr>),
    Index { target: Box<HirExpr>, key: Box<HirExpr> },
    /// An index whose result lands in a tagged slot.
    IndexTagged { target: Box<HirExpr>, key: Box<HirExpr> },
    /// `x == nil` on a local or an index.
    IsNil(Box<HirExpr>),
    /// A string operand of arithmetic, coerced to a number at run time.
    ArithStringCoerce(Box<HirExpr>),
    /// Allocation of a closure cell for a capturing function.
    ClosureAlloc { func: FuncId, upvalues: Vec<LocalId> },
}

/// A statement.
#[derive(Debug)]
pub struct HirStmt {
    pub kind: HirStmtKind,
}

/// The shapes of statements.
#[derive(Debug)]
pub enum HirStmtKind {
    LocalInit { id: LocalId, value: HirExpr },
    Assign { id: LocalId, value: HirExpr },
    Block { stmts: Vec<HirStmt> },
    If {
        cond: HirExpr,
        then_body: Vec<HirStmt>,
        elifs: Vec<(HirExpr, Vec<HirStmt>)>,
        else_body: Option<Vec<HirStmt>>,
    },
    While { cond: HirExpr, body: Vec<HirStmt>, break_id: Option<LocalId> },
    Repeat { body: Vec<HirStmt>, cond: HirExpr, break_id: Option<LocalId> },
    ForNumeric {
        var_id: LocalId,
        start: HirExpr,
        stop: HirExpr,
        step: HirExpr,
        body: Vec<HirStmt>,
        break_id: Option<LocalId>,
    },
    ExprStmt(HirExpr),
    MultiAssignFromCall { dst_ids: Vec<LocalId>, callee: Callee, args: Vec<HirExpr> },
    IndexAssign { target: HirExpr, key: HirExpr, value: HirExpr },
}

/// A user function.
#[derive(Debug)]
pub struct HirFunction {
    /// Symbol the function is emitted under.
    pub mangled_name: String,
    /// Number of Lua parameters (the first locals).
    pub params: usize,
    /// Static kinds of the return positions.
    pub ret_kinds: Vec<ValueKind>,
    pub locals: Vec<LocalInfo>,
    pub body: Vec<HirStmt>,
}

/// A whole compilation unit: the main-chunk statements and the user
/// functions.
#[derive(Debug)]
pub struct HirChunk {
    pub stmts: Vec<HirStmt>,
    pub locals: Vec<LocalInfo>,
    pub functions: Vec<HirFunction>,
}

} // verus!
