//! The state of the abstract machine that runs a program.
//!
//! Evaluation is a sequence of small steps. Between two steps the machine
//! holds what it is about to do (its control), what remains to be done after
//! that (a stack of frames), the values of the operands gathered so far, the
//! scope chain and the store.

use vstd::prelude::*;
use crate::scope::ChainView;
use crate::tree::{
    AendereStmt,
    AssignExpr,
    Block,
    CallExpr,
    CastExpr,
    Expression,
    IfExpr,
    IndexExpr,
    InfixExpr,
    LetStmt,
    ListExpr,
    MemberExpr,
    ObjectExpr,
    PrefixExpr,
    Program,
    WhileStmt,
};
use crate::host::Defect;
use crate::value::{InterruptKind, Memory, Value};

verus! {

/// Where the run driver stands.
#[derive(Debug, Clone, Copy, PartialEq, Eq, Structural)]
pub enum Stage {
    /// Globals from this index on are still to be set up.
    Seed(usize),
    /// The first entry phase runs.
    Apply,
    /// The second entry phase runs, with this number.
    Enroll(i64),
    /// The third entry phase runs.
    Study,
}

/// The kind of answer that the host owes.
#[derive(Debug, Clone, Copy, PartialEq, Eq, Structural)]
pub enum Expect {
    Nothing,
    Float,
    Int,
    Bool,
    /// An integer, which is brought into the range of character codes.
    Char,
    Text,
    Data,
}

/// What is done with the host's answer.
#[derive(Debug, Clone, Copy, PartialEq, Eq, Structural)]
pub enum Pending {
    /// The answer is the value of the expression.
    Value(Expect),
    /// The answer is stored in this cell; the expression has no value.
    Store(usize, Expect),
    /// The body of the answer is stored in this cell; the status is the value.
    Http(usize),
    /// The answer is the float that this text was read as.
    Parse(Value),
}

/// What remains to be done once the work at hand has given its value.
#[derive(Debug, Clone, Copy)]
pub enum Frame<'a> {
    /// Go on with the run at this stage.
    Driver(Stage),
    /// Bind the global of this index to the value.
    Global(usize),
    /// Leave the scope of the called function.
    CallBody,
    /// Evaluate the remaining arguments of a call; this many are done.
    Args(&'a CallExpr, usize),
    /// Find out what is called, now that the arguments are gathered.
    Dispatch(&'a CallExpr),
    /// Call the value with the arguments gathered.
    Callee(&'a CallExpr),
    /// Run the statements of a block from this index on. The flag says whether
    /// the block has a scope of its own.
    Block(&'a Block, usize, bool),
    /// Leave the block with the value of its trailing expression.
    BlockEnd(bool),
    Let(&'a LetStmt),
    Aendere(&'a AendereStmt),
    /// Return the value from the function.
    Return,
    /// Decide by the condition whether the loop goes on.
    WhileCond(&'a WhileStmt),
    /// Run the body of the loop.
    WhileStart(&'a WhileStmt),
    /// Go back to the condition of the loop.
    WhileBody(&'a WhileStmt),
    IfCond(&'a IfExpr),
    /// Evaluate the remaining items of a list; this many are done.
    ListItems(&'a ListExpr, usize),
    Prefix(&'a PrefixExpr),
    And(&'a InfixExpr),
    Or(&'a InfixExpr),
    /// Evaluate the right operand.
    InfixLhs(&'a InfixExpr),
    /// Apply the operator to this left operand and the value.
    InfixRhs(&'a InfixExpr, Value),
    Assign(&'a AssignExpr),
    Cast(&'a CastExpr),
    Member(&'a MemberExpr),
    /// Evaluate the index.
    IndexBase(&'a IndexExpr),
    /// Take the item of this list at the value.
    IndexAt(Value),
    /// Evaluate the remaining fields of an object; this many are done.
    ObjectFields(&'a ObjectExpr, usize),
    /// Take up the host's answer.
    Await(Pending),
}

/// How the run ended, within the machine.
#[derive(Debug, Clone, Copy, PartialEq, Eq, Structural)]
pub enum Final {
    Exit(i64),
    /// Heap index of the message.
    Error(usize),
    Defect(Defect),
}

/// What the machine does next.
#[derive(Debug, Clone, Copy)]
pub enum Control<'a> {
    /// Evaluate this expression.
    Eval(&'a Expression),
    /// Hand this value to the topmost frame.
    Value(Value),
    /// Unwind the frames with this interrupt.
    Signal(InterruptKind),
    /// Wait for the host's answer.
    Waiting,
    /// Nothing: the run is over.
    Done(Final),
}

/// What a name in a call stands for, where it is no builtin.
#[derive(Debug, Clone, Copy, PartialEq, Eq, Structural)]
pub enum Callee {
    /// The first entry phase.
    Bewerbung,
    /// The second entry phase.
    Einschreibung,
    /// The third entry phase.
    Studium,
    /// The function of this index in the program.
    User(usize),
}

/// A variable of the process environment.
pub struct Variable {
    pub name: String,
    pub value: String,
}

pub struct VariableView {
    pub name: Seq<char>,
    pub value: Seq<char>,
}

impl View for Variable {
    type V = VariableView;

    open spec fn view(&self) -> VariableView {
        VariableView { name: self.name@, value: self.value@ }
    }
}

pub open spec fn variable_views(variables: Seq<Variable>) -> Seq<VariableView> {
    variables.map_values(|v: Variable| v@)
}

/// The machine as the contracts see it.
pub struct Machine<'a> {
    pub program: &'a Program,
    pub environment: Seq<VariableView>,
    pub control: Control<'a>,
    pub stack: Seq<Frame<'a>>,
    pub operands: Seq<Value>,
    pub scopes: ChainView,
    pub store: Memory,
}

} // verus!
