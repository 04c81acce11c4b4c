//! The program tree that the interpreter walks.
//!
//! A tree arrives here already analyzed: every name in it resolves and every
//! operator is applied to operands of fitting types. The interpreter reads the
//! tree and never changes it. Floating-point literals are carried as the bit
//! pattern of the 64-bit IEEE 754 number.

use vstd::prelude::*;

verus! {

/// A declared type. The number in most variants counts the pointer levels
/// around the base type: `Int(0)` is a plain integer, `Int(1)` a pointer to one.
#[derive(Debug)]
pub enum Type {
    Int(usize),
    Float(usize),
    Bool(usize),
    Char(usize),
    String(usize),
    List(Box<Type>, usize),
    Objekt(usize),
    Speicherbox(usize),
    Any,
    Nichts,
    /// A type that no value is of, such as the type of a function. The text
    /// is its name.
    Other(String),
}

#[derive(Debug, Clone, Copy, PartialEq, Eq, Structural)]
pub enum PrefixOp {
    /// Logical not.
    Not,
    /// Numeric negation.
    Neg,
    /// Address of a variable.
    Ref,
    /// Read through a pointer.
    Deref,
}

#[derive(Debug, Clone, Copy, PartialEq, Eq, Structural)]
pub enum InfixOp {
    Plus,
    Minus,
    Mul,
    Div,
    Rem,
    Pow,
    Eq,
    Neq,
    Lt,
    Gt,
    Lte,
    Gte,
    Shl,
    Shr,
    BitOr,
    BitAnd,
    BitXor,
    And,
    Or,
}

#[derive(Debug, Clone, Copy, PartialEq, Eq, Structural)]
pub enum AssignOp {
    Basic,
    Plus,
    Minus,
    Mul,
    Div,
    Rem,
    Pow,
    Shl,
    Shr,
    BitOr,
    BitAnd,
    BitXor,
}

/// A whole program: its functions, its globals and the bodies of the three
/// entry phases, which run in this order.
#[derive(Debug)]
pub struct Program {
    pub globals: Vec<Global>,
    pub functions: Vec<FunctionDefinition>,
    pub bewerbung_fn: Block,
    pub einschreibung_fn: Block,
    pub studium_fn: Block,
}

/// A global binding. Its initializer is a literal or a list of expressions.
#[derive(Debug)]
pub struct Global {
    pub used: bool,
    pub name: String,
    pub expr: Expression,
}

#[derive(Debug)]
pub struct FunctionDefinition {
    pub used: bool,
    pub name: String,
    pub params: Vec<Parameter>,
    pub return_type: Type,
    pub block: Block,
}

#[derive(Debug)]
pub struct Parameter {
    pub name: String,
    pub type_: Type,
}

/// Statements followed by an optional trailing expression, whose value is the
/// value of the block.
#[derive(Debug)]
pub struct Block {
    pub stmts: Vec<Statement>,
    pub expr: Option<Expression>,
}

#[derive(Debug)]
pub enum Statement {
    /// A declaration without effect at run time.
    Beantrage,
    Let(LetStmt),
    Aendere(AendereStmt),
    Return(Option<Expression>),
    While(WhileStmt),
    Break,
    Continue,
    Expr(Expression),
}

#[derive(Debug)]
pub struct LetStmt {
    pub name: String,
    pub expr: Expression,
}

/// Plain assignment: `assignee_ptr_count` pointers are followed from the
/// variable before the value is stored.
#[derive(Debug)]
pub struct AendereStmt {
    pub assignee: String,
    pub assignee_ptr_count: usize,
    pub expr: Expression,
}

#[derive(Debug)]
pub struct WhileStmt {
    pub cond: Expression,
    pub block: Block,
}

#[derive(Debug)]
pub enum Expression {
    Nichts,
    Block(Box<Block>),
    If(Box<IfExpr>),
    Int(i64),
    /// The bits of the literal.
    Float(u64),
    Bool(bool),
    Char(u8),
    String(String),
    List(ListExpr),
    Ident(IdentExpr),
    Prefix(Box<PrefixExpr>),
    Infix(Box<InfixExpr>),
    Assign(Box<AssignExpr>),
    Call(Box<CallExpr>),
    Cast(Box<CastExpr>),
    Member(Box<MemberExpr>),
    Index(Box<IndexExpr>),
    Grouped(Box<Expression>),
    Object(ObjectExpr),
}

#[derive(Debug)]
pub struct IfExpr {
    pub cond: Expression,
    pub then_block: Block,
    pub else_block: Option<Block>,
}

#[derive(Debug)]
pub struct ListExpr {
    pub values: Vec<Expression>,
}

#[derive(Debug)]
pub struct IdentExpr {
    pub ident: String,
}

#[derive(Debug)]
pub struct PrefixExpr {
    pub op: PrefixOp,
    pub expr: Expression,
}

#[derive(Debug)]
pub struct InfixExpr {
    pub lhs: Expression,
    pub op: InfixOp,
    pub rhs: Expression,
}

/// Compound assignment used as an expression.
#[derive(Debug)]
pub struct AssignExpr {
    pub assignee: String,
    pub assignee_ptr_count: usize,
    pub op: AssignOp,
    pub expr: Expression,
}

#[derive(Debug)]
pub enum CallBase {
    Ident(String),
    Expr(Box<Expression>),
}

#[derive(Debug)]
pub struct CallExpr {
    pub func: CallBase,
    pub args: Vec<Expression>,
}

/// A cast. `from_type` is the static type of the operand; only whether it is
/// `Type::Any` matters at run time.
#[derive(Debug)]
pub struct CastExpr {
    pub expr: Expression,
    pub from_type: Type,
    pub as_type: Type,
}

#[derive(Debug)]
pub struct MemberExpr {
    pub expr: Expression,
    pub member: String,
}

#[derive(Debug)]
pub struct IndexExpr {
    pub expr: Expression,
    pub index: Expression,
}

#[derive(Debug)]
pub struct ObjectExpr {
    pub members: Vec<ObjectField>,
}

#[derive(Debug)]
pub struct ObjectField {
    pub key: String,
    pub value: Expression,
}

} // verus!
