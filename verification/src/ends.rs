//! A run that takes on only so much work ends.
//!
//! Every state of the machine has a weight: a bound on the steps that it still
//! takes if no loop goes another round and no function is called. A step
//! makes the weight less, unless it takes on new work: a round of a loop, the
//! body of a function that is called, the initializer of a global. Then the
//! weight grows by no more than the weight of that work. So a run goes on for
//! no more steps than the weight of its start and of the work that it took
//! on: a run in which loops go round and functions are called only so often
//! comes to its end.

use vstd::prelude::*;
use crate::host::{ActionView, EventView};
use crate::model::{
    bind_params,
    body_of,
    call_func,
    deliver,
    drive,
    find_callee,
    next_arg,
    next_field,
    next_item,
    resume,
    run_block,
    step,
    unwind,
    visit_block,
    visit_expression,
    visit_statement,
    Step,
};
use crate::ops::Computed;
use crate::scope::push_frame;
use crate::state::{Callee, Control, Frame, Machine, Pending, Stage};
use crate::tree::{
    Block,
    CallBase,
    CallExpr,
    Expression,
    ListExpr,
    ObjectExpr,
    Program,
    Statement,
    WhileStmt,
};
use crate::value::{InterruptKind, Value};
use crate::world::World;

verus! {

/// A bound on the steps that the evaluation of an expression takes, loops and
/// called functions left aside.
pub open spec fn expression_weight(node: &Expression) -> nat
    decreases node, 0nat,
{
    match node {
        Expression::Block(block) => block_weight(&**block, 0) + 1,
        Expression::If(inner) => expression_weight(&inner.cond) + block_weight(
            &inner.then_block,
            0,
        ) + (match &inner.else_block {
            Some(block) => block_weight(block, 0),
            None => 0,
        }) + 3,
        Expression::List(inner) => items_weight(inner, 0) + 1,
        Expression::Prefix(inner) => expression_weight(&inner.expr) + 3,
        Expression::Infix(inner) => expression_weight(&inner.lhs) + expression_weight(&inner.rhs)
            + 5,
        Expression::Assign(inner) => expression_weight(&inner.expr) + 3,
        Expression::Call(inner) => args_weight(&**inner, 0) + 1,
        Expression::Cast(inner) => expression_weight(&inner.expr) + 3,
        Expression::Member(inner) => expression_weight(&inner.expr) + 3,
        Expression::Index(inner) => expression_weight(&inner.expr) + expression_weight(
            &inner.index,
        ) + 5,
        Expression::Grouped(inner) => expression_weight(&**inner) + 1,
        Expression::Object(inner) => fields_weight(inner, 0) + 1,
        _ => 2,
    }
}

/// A bound on the steps that a statement takes, once it has started.
pub open spec fn statement_weight(node: &Statement) -> nat
    decreases node, 0nat,
{
    match node {
        Statement::Let(inner) => expression_weight(&inner.expr) + 2,
        Statement::Aendere(inner) => expression_weight(&inner.expr) + 2,
        Statement::Return(Some(expr)) => expression_weight(expr) + 2,
        Statement::While(inner) => expression_weight(&inner.cond) + 2,
        Statement::Expr(expr) => expression_weight(expr),
        _ => 1,
    }
}

/// A bound on the steps that a block takes from statement `next` on.
pub open spec fn block_weight(block: &Block, next: nat) -> nat
    decreases block, (if next < block.stmts@.len() {
        block.stmts@.len() - next
    } else {
        0
    }) + 1,
{
    if next < block.stmts@.len() {
        block_weight(block, next + 1) + statement_weight(&block.stmts@[next as int]) + 1
    } else {
        match &block.expr {
            Some(tail) => expression_weight(tail) + 1,
            None => 1,
        }
    }
}

/// A bound on the steps that the items of a list take from item `next` on.
pub open spec fn items_weight(node: &ListExpr, next: nat) -> nat
    decreases node, (if next < node.values@.len() {
        node.values@.len() - next
    } else {
        0
    }) + 1,
{
    if next < node.values@.len() {
        items_weight(node, next + 1) + expression_weight(&node.values@[next as int])
    } else {
        1
    }
}

/// A bound on the steps that the fields of an object take from field `next`
/// on.
pub open spec fn fields_weight(node: &ObjectExpr, next: nat) -> nat
    decreases node, (if next < node.members@.len() {
        node.members@.len() - next
    } else {
        0
    }) + 1,
{
    if next < node.members@.len() {
        fields_weight(node, next + 1) + expression_weight(&node.members@[next as int].value)
    } else {
        1
    }
}

/// A bound on the steps that a call takes from argument `next` on, the body
/// of a called function left aside.
pub open spec fn args_weight(node: &CallExpr, next: nat) -> nat
    decreases node, (if next < node.args@.len() {
        node.args@.len() - next
    } else {
        0
    }) + 1,
{
    if next < node.args@.len() {
        args_weight(node, next + 1) + expression_weight(&node.args@[next as int])
    } else {
        dispatch_weight(node) + 1
    }
}

/// A bound on the steps that a call takes once its arguments have their
/// values.
pub open spec fn dispatch_weight(node: &CallExpr) -> nat
    decreases node, 0nat,
{
    match &node.func {
        CallBase::Ident(_) => 3,
        CallBase::Expr(callee) => expression_weight(&**callee) + 4,
    }
}

/// A bound on the steps that are left to a frame once the value that it
/// waits for is there.
pub open spec fn frame_weight(frame: Frame) -> nat {
    match frame {
        Frame::Driver(_) => 3,
        Frame::Args(node, done) => args_weight(node, done as nat + 1),
        Frame::Dispatch(node) => dispatch_weight(node),
        Frame::Callee(_) => 3,
        Frame::Block(block, next, _) => block_weight(block, next as nat),
        Frame::WhileCond(_) => 2,
        Frame::WhileStart(node) => round_weight(node),
        Frame::WhileBody(node) => expression_weight(&node.cond) + 3,
        Frame::IfCond(node) => block_weight(&node.then_block, 0) + (match &node.else_block {
            Some(block) => block_weight(block, 0),
            None => 0,
        }) + 1,
        Frame::ListItems(node, done) => items_weight(node, done as nat + 1),
        Frame::Prefix(_) => 2,
        Frame::And(node) => expression_weight(&node.rhs) + 1,
        Frame::Or(node) => expression_weight(&node.rhs) + 1,
        Frame::InfixLhs(node) => expression_weight(&node.rhs) + 3,
        Frame::InfixRhs(_, _) => 2,
        Frame::Assign(_) => 2,
        Frame::Cast(_) => 2,
        Frame::Member(_) => 2,
        Frame::IndexBase(node) => expression_weight(&node.index) + 3,
        Frame::IndexAt(_) => 2,
        Frame::ObjectFields(node, done) => fields_weight(node, done as nat + 1),
        _ => 1,
    }
}

/// The weight of one round of a loop: its body, and its condition once more.
pub open spec fn round_weight(node: &WhileStmt) -> nat {
    expression_weight(&node.cond) + block_weight(&node.block, 0) + 4
}

/// The weight of the function that a name stands for: that of its body.
pub open spec fn call_weight(program: &Program, name: Seq<char>) -> nat {
    match find_callee(program, name) {
        Some(callee) => block_weight(body_of(program, callee), 0),
        None => 0,
    }
}

/// The weight of the frames of a stack.
pub open spec fn stack_weight(stack: Seq<Frame>) -> nat
    decreases stack.len(),
{
    if stack.len() == 0 {
        0
    } else {
        stack_weight(stack.drop_last()) + frame_weight(stack.last())
    }
}

/// The weight of what the machine is about to do.
pub open spec fn control_weight(control: Control) -> nat {
    match control {
        Control::Eval(node) => expression_weight(node),
        Control::Done(_) => 0,
        _ => 1,
    }
}

/// The weight of a machine: a bound on the steps that it still takes if it
/// takes on no new work. A machine whose run is over has no weight.
pub open spec fn weight(m: Machine) -> nat {
    if m.control is Done {
        0
    } else {
        control_weight(m.control) + stack_weight(m.stack)
    }
}

/// The weight of the work that the step at hand takes on: one more round of a
/// loop, the body of the function that a call names, the initializer of a
/// global, or the body of the entry phase that the driver starts.
pub open spec fn taken_on(m: Machine) -> nat {
    match m.control {
        Control::Value(value) => if m.stack.len() == 0 {
            0
        } else {
            match m.stack.last() {
                Frame::WhileCond(node) => if value == Value::Bool(true) {
                    round_weight(node)
                } else {
                    0
                },
                Frame::Dispatch(node) => match &node.func {
                    CallBase::Ident(name) => call_weight(m.program, name@),
                    _ => 0,
                },
                Frame::Driver(Stage::Seed(next)) => if next < m.program.globals@.len() {
                    expression_weight(&m.program.globals@[next as int].expr) + 1
                } else {
                    call_weight(m.program, "Bewerbung"@) + 2
                },
                Frame::Driver(Stage::Apply) => call_weight(m.program, "Einschreibung"@) + 2,
                Frame::Driver(Stage::Enroll(_)) => call_weight(m.program, "Studium"@) + 2,
                _ => 0,
            }
        },
        _ => 0,
    }
}

// ---------------------------------------------------------------------------
// Parts of a step
// ---------------------------------------------------------------------------
proof fn lemma_pushed(m: Machine, frame: Frame)
    ensures
        stack_weight(m.pushed(frame).stack) == stack_weight(m.stack) + frame_weight(frame),
{
    assert(m.stack.push(frame).drop_last() =~= m.stack);
}

proof fn lemma_popped(m: Machine)
    requires
        m.stack.len() > 0,
    ensures
        stack_weight(m.stack) == stack_weight(m.popped().stack) + frame_weight(m.stack.last()),
{
}

/// The items that are left weigh at least one.
proof fn lemma_items_positive(node: &ListExpr, next: nat)
    ensures
        items_weight(node, next) >= 1,
    decreases node.values@.len() - next,
{
    if next < node.values@.len() {
        lemma_items_positive(node, next + 1);
    }
}

/// The fields that are left weigh at least one.
proof fn lemma_fields_positive(node: &ObjectExpr, next: nat)
    ensures
        fields_weight(node, next) >= 1,
    decreases node.members@.len() - next,
{
    if next < node.members@.len() {
        lemma_fields_positive(node, next + 1);
    }
}

/// The arguments that are left weigh at least one.
proof fn lemma_args_positive(node: &CallExpr, next: nat)
    ensures
        args_weight(node, next) >= 1,
    decreases node.args@.len() - next,
{
    if next < node.args@.len() {
        lemma_args_positive(node, next + 1);
    }
}

/// The statements that are left weigh at least one.
proof fn lemma_block_positive(block: &Block, next: nat)
    ensures
        block_weight(block, next) >= 1,
    decreases block.stmts@.len() - next,
{
    if next < block.stmts@.len() {
        lemma_block_positive(block, next + 1);
    }
}

/// Every frame weighs at least one.
proof fn lemma_frame_positive(frame: Frame)
    ensures
        frame_weight(frame) >= 1,
{
    match frame {
        Frame::Args(node, done) => {
            lemma_args_positive(node, done as nat + 1);
        },
        Frame::Block(block, next, _) => {
            lemma_block_positive(block, next as nat);
        },
        Frame::ListItems(node, done) => {
            lemma_items_positive(node, done as nat + 1);
        },
        Frame::ObjectFields(node, done) => {
            lemma_fields_positive(node, done as nat + 1);
        },
        _ => {},
    }
}

/// What a part of a step leaves: a machine whose run is over, or one that
/// weighs no more than the frames of before and `added`.
pub open spec fn within(b: Machine, s: Step, added: int) -> bool {
    weight(s.0) <= stack_weight(b.stack) + added
}

proof fn lemma_simple(m: Machine)
    ensures
        forall|text: Seq<char>| within(m, #[trigger] m.fail(text), 1),
        forall|text: Seq<char>| within(m, #[trigger] m.text_value(text), 1),
        forall|action: ActionView, pending: Pending|
            within(m, #[trigger] m.ask(action, pending), 2),
        forall|control: Control| !(control is Eval) ==> within(m, #[trigger] m.go(control), 1),
        forall|computed: Computed| within(m, #[trigger] m.settle(computed), 2),
        forall|cell: usize, computed: Computed|
            within(m, #[trigger] m.settle_into(cell, computed), 2),
{
    assert forall|action: ActionView, pending: Pending|
        within(m, #[trigger] m.ask(action, pending), 2) by {
        lemma_pushed(m, Frame::Await(pending));
    }
    assert forall|computed: Computed| within(m, #[trigger] m.settle(computed), 2) by {
        match computed {
            Computed::Host(request, kind) => {
                lemma_pushed(m, Frame::Await(Pending::Value(kind)));
            },
            _ => {},
        }
    }
    assert forall|cell: usize, computed: Computed|
        within(m, #[trigger] m.settle_into(cell, computed), 2) by {
        match computed {
            Computed::Host(request, kind) => {
                lemma_pushed(m, Frame::Await(Pending::Store(cell, kind)));
            },
            _ => {},
        }
    }
}

proof fn lemma_push_eval<'a>(m: Machine<'a>, frame: Frame<'a>, node: &'a Expression)
    ensures
        within(
            m,
            m.pushed(frame).eval(node),
            (frame_weight(frame) + expression_weight(node)) as int,
        ),
{
    lemma_pushed(m, frame);
}

proof fn lemma_statement<'a>(m: Machine<'a>, node: &'a Statement)
    ensures
        within(m, visit_statement(m, node), statement_weight(node) as int),
{
    match node {
        Statement::Let(inner) => {
            lemma_push_eval(m, Frame::Let(inner), &inner.expr);
        },
        Statement::Aendere(inner) => {
            lemma_push_eval(m, Frame::Aendere(inner), &inner.expr);
        },
        Statement::Return(Some(expr)) => {
            lemma_push_eval(m, Frame::Return, expr);
        },
        Statement::While(inner) => {
            lemma_push_eval(m, Frame::WhileCond(inner), &inner.cond);
        },
        _ => {},
    }
}

proof fn lemma_run_block<'a>(m: Machine<'a>, block: &'a Block, next: usize, scoped: bool)
    ensures
        within(m, run_block(m, block, next, scoped), block_weight(block, next as nat) as int),
{
    if next < block.stmts@.len() {
        let frame = Frame::Block(block, (next + 1) as usize, scoped);
        assert(block.stmts@.len() == block.stmts.len());
        lemma_pushed(m, frame);
        lemma_statement(m.pushed(frame), &block.stmts@[next as int]);
    } else {
        match &block.expr {
            Some(tail) => {
                lemma_push_eval(m, Frame::BlockEnd(scoped), tail);
            },
            None => {},
        }
    }
}

proof fn lemma_block<'a>(m: Machine<'a>, block: &'a Block, new_scope: bool)
    ensures
        within(m, visit_block(m, block, new_scope), block_weight(block, 0) as int),
{
    lemma_run_block(m.with_scopes(push_frame(m.scopes)), block, 0, true);
    lemma_run_block(m, block, 0, false);
}

proof fn lemma_items<'a>(m: Machine<'a>, node: &'a ListExpr, done: usize)
    ensures
        within(m, next_item(m, node, done), items_weight(node, done as nat) as int),
{
    if done < node.values@.len() {
        assert(node.values@.len() == node.values.len());
        lemma_push_eval(m, Frame::ListItems(node, done), &node.values@[done as int]);
    }
}

proof fn lemma_fields<'a>(m: Machine<'a>, node: &'a ObjectExpr, done: usize)
    ensures
        within(m, next_field(m, node, done), fields_weight(node, done as nat) as int),
{
    if done < node.members@.len() {
        assert(node.members@.len() == node.members.len());
        lemma_push_eval(m, Frame::ObjectFields(node, done), &node.members@[done as int].value);
    }
}

proof fn lemma_args<'a>(m: Machine<'a>, node: &'a CallExpr, done: usize)
    ensures
        within(m, next_arg(m, node, done), args_weight(node, done as nat) as int),
{
    if done < node.args@.len() {
        assert(node.args@.len() == node.args.len());
        lemma_push_eval(m, Frame::Args(node, done), &node.args@[done as int]);
    } else {
        lemma_pushed(m, Frame::Dispatch(node));
    }
}

proof fn lemma_expression<'a>(m: Machine<'a>, node: &'a Expression)
    ensures
        within(m, visit_expression(m, node), expression_weight(node) - 1),
{
    lemma_simple(m);
    match node {
        Expression::Block(block) => {
            lemma_block(m, &**block, true);
        },
        Expression::If(inner) => {
            lemma_push_eval(m, Frame::IfCond(&**inner), &inner.cond);
        },
        Expression::List(inner) => {
            lemma_items(m, inner, 0);
        },
        Expression::Prefix(inner) => {
            lemma_push_eval(m, Frame::Prefix(&**inner), &inner.expr);
        },
        Expression::Infix(inner) => {
            lemma_push_eval(m, Frame::And(&**inner), &inner.lhs);
            lemma_push_eval(m, Frame::Or(&**inner), &inner.lhs);
            lemma_push_eval(m, Frame::InfixLhs(&**inner), &inner.lhs);
        },
        Expression::Assign(inner) => {
            lemma_push_eval(m, Frame::Assign(&**inner), &inner.expr);
        },
        Expression::Call(inner) => {
            lemma_args(m, &**inner, 0);
        },
        Expression::Cast(inner) => {
            lemma_push_eval(m, Frame::Cast(&**inner), &inner.expr);
        },
        Expression::Member(inner) => {
            lemma_push_eval(m, Frame::Member(&**inner), &inner.expr);
        },
        Expression::Index(inner) => {
            lemma_push_eval(m, Frame::IndexBase(&**inner), &inner.expr);
        },
        Expression::Object(inner) => {
            lemma_fields(m, inner, 0);
        },
        _ => {},
    }
}

// ---------------------------------------------------------------------------
// Calls and the driver
// ---------------------------------------------------------------------------
proof fn lemma_bind_params(m: Machine, callee: Callee, args: Seq<Value>, n: nat)
    ensures
        bind_params(m, callee, args, n).stack == m.stack,
        bind_params(m, callee, args, n).program == m.program,
    decreases n,
{
    if n > 0 {
        lemma_bind_params(m, callee, args, (n - 1) as nat);
    }
}

/// A call weighs no more than the body of the function that its name stands
/// for, and two steps.
proof fn lemma_call(m: Machine, name: Seq<char>, args: Seq<Value>, world: World)
    ensures
        within(m, call_func(m, name, args, world), 2 + call_weight(m.program, name) as int),
{
    lemma_simple(m);
    match find_callee(m.program, name) {
        Some(callee) => {
            let entered = m.with_scopes(push_frame(m.scopes));
            let n = crate::model::bound_count(m.program, callee, args);
            lemma_bind_params(entered, callee, args, n);
            let bound = bind_params(entered, callee, args, n);
            lemma_pushed(bound, Frame::CallBody);
            lemma_run_block(bound.pushed(Frame::CallBody), body_of(m.program, callee), 0, false);
        },
        None => {},
    }
}

/// The driver goes on: a stage weighs no more than the work that it takes on.
proof fn lemma_drive(m: Machine, b: Machine, stage: Stage, value: Value, world: World)
    requires
        m.control == Control::Value(value),
        m.stack.len() > 0,
        m.stack.last() == Frame::Driver(stage),
        b == m.popped(),
    ensures
        within(b, drive(b, stage, value, world), 3 + taken_on(m) as int),
{
    lemma_simple(b);
    match stage {
        Stage::Seed(next) => {
            if next >= b.program.globals@.len() {
                let driver = b.pushed(Frame::Driver(Stage::Apply));
                lemma_pushed(b, Frame::Driver(Stage::Apply));
                lemma_call(driver, "Bewerbung"@, Seq::empty(), world);
            } else {
                let again = Frame::Driver(Stage::Seed((next + 1) as usize));
                lemma_pushed(b, again);
                lemma_simple(b.pushed(again));
                lemma_push_eval(
                    b.pushed(again),
                    Frame::Global(next),
                    &b.program.globals@[next as int].expr,
                );
            }
        },
        Stage::Apply => {
            match world.entropy {
                Some(number) => {
                    let frame = Frame::Driver(Stage::Enroll(number as i64));
                    lemma_pushed(b, frame);
                    lemma_call(
                        b.pushed(frame),
                        "Einschreibung"@,
                        seq![Value::Int(number as i64)],
                        world,
                    );
                },
                None => {},
            }
        },
        Stage::Enroll(number) => {
            lemma_pushed(b, Frame::Driver(Stage::Study));
            lemma_call(
                b.pushed(Frame::Driver(Stage::Study)),
                "Studium"@,
                seq![Value::Int(number)],
                world,
            );
        },
        Stage::Study => {},
    }
}

// ---------------------------------------------------------------------------
// Frames
// ---------------------------------------------------------------------------
/// Handing a value to a frame leaves no more weight than the frame had, and
/// the work that the step takes on.
proof fn lemma_deliver(m: Machine, b: Machine, frame: Frame, value: Value, world: World)
    requires
        m.control == Control::Value(value),
        m.stack.len() > 0,
        m.stack.last() == frame,
        b == m.popped(),
    ensures
        within(b, deliver(b, frame, value, world), (frame_weight(frame) + taken_on(m)) as int),
{
    lemma_simple(b);
    lemma_frame_positive(frame);
    match frame {
        Frame::Driver(stage) => {
            lemma_drive(m, b, stage, value, world);
        },
        Frame::Global(index) => {
            if index < b.program.globals@.len() && b.scopes.len() > 0 {
                let bound = crate::model::bind(b, b.program.globals@[index as int].name@, value);
                lemma_simple(bound);
            }
        },
        Frame::CallBody => {
            lemma_simple(crate::model::leave(b, true));
        },
        Frame::Args(node, done) => {
            if done < usize::MAX {
                lemma_args(crate::model::keep(b, value), node, (done + 1) as usize);
            }
        },
        Frame::Dispatch(node) => {
            match &node.func {
                CallBase::Ident(name) => {
                    if b.operands.len() >= node.args@.len() {
                        let from = b.operands.len() - node.args@.len();
                        lemma_call(
                            crate::model::operands_upto(b, from),
                            name@,
                            crate::model::operands_from(b, from),
                            world,
                        );
                    }
                },
                CallBase::Expr(callee) => {
                    lemma_push_eval(b, Frame::Callee(node), &**callee);
                },
            }
        },
        Frame::Callee(node) => {
            if b.operands.len() >= node.args@.len() {
                let from = b.operands.len() - node.args@.len();
                lemma_simple(crate::model::operands_upto(b, from));
            }
        },
        Frame::Block(block, next, scoped) => {
            lemma_run_block(b, block, next, scoped);
        },
        Frame::BlockEnd(scoped) => {
            lemma_simple(crate::model::leave(b, scoped));
        },
        Frame::Let(node) => {
            lemma_simple(crate::model::bind(b, node.name@, value));
        },
        Frame::Aendere(node) => {
            match crate::model::target(b, node.assignee@, node.assignee_ptr_count as nat) {
                Ok(cell) => {
                    lemma_simple(b.with_store(b.store.write(cell, value)));
                },
                Err(_) => {},
            }
        },
        Frame::WhileCond(node) => {
            lemma_pushed(b, Frame::WhileStart(node));
            lemma_simple(b.pushed(Frame::WhileStart(node)));
        },
        Frame::WhileStart(node) => {
            lemma_pushed(b, Frame::WhileBody(node));
            lemma_block(b.pushed(Frame::WhileBody(node)), &node.block, true);
        },
        Frame::WhileBody(node) => {
            lemma_push_eval(b, Frame::WhileCond(node), &node.cond);
        },
        Frame::IfCond(node) => {
            lemma_block(b, &node.then_block, true);
            match &node.else_block {
                Some(block) => {
                    lemma_block(b, block, true);
                },
                None => {},
            }
        },
        Frame::ListItems(node, done) => {
            if done < usize::MAX {
                lemma_items(crate::model::keep(b, value), node, (done + 1) as usize);
            }
        },
        Frame::InfixLhs(node) => {
            lemma_push_eval(b, Frame::InfixRhs(node, value), &node.rhs);
        },
        Frame::InfixRhs(node, lhs) => {
            lemma_simple(b.with_store(crate::model::binary(b.store, node.op, lhs, value).0));
        },
        Frame::Assign(node) => {
            match crate::model::target(b, node.assignee@, node.assignee_ptr_count as nat) {
                Ok(cell) => match crate::ops::assign_operator(node.op) {
                    Some(op) => {
                        lemma_simple(
                            b.with_store(
                                crate::model::binary(
                                    b.store,
                                    op,
                                    b.store.cells[cell as int],
                                    value,
                                ).0,
                            ),
                        );
                    },
                    None => {},
                },
                Err(_) => {},
            }
        },
        Frame::Cast(node) => {
            match b.store.text(value) {
                Some(text) => {
                    lemma_simple(
                        b.with_store(b.store.with_text(crate::text::replaced(text, ',', '.'))),
                    );
                },
                None => {},
            }
        },
        Frame::Member(node) => {
            lemma_simple(
                b.with_store(
                    b.store.with_object(
                        crate::value::HeapObjectView::Bound { base: value, name: node.member@ },
                    ),
                ),
            );
        },
        Frame::IndexBase(node) => {
            lemma_push_eval(b, Frame::IndexAt(value), &node.index);
        },
        Frame::ObjectFields(node, done) => {
            if done < usize::MAX {
                lemma_fields(crate::model::keep(b, value), node, (done + 1) as usize);
            }
        },
        _ => {},
    }
}

/// Handing an interrupt to a frame leaves no more weight than the frame had.
proof fn lemma_unwind(b: Machine, frame: Frame, interrupt: InterruptKind)
    ensures
        within(b, unwind(b, frame, interrupt), frame_weight(frame) as int),
{
    lemma_simple(b);
    lemma_frame_positive(frame);
    match frame {
        Frame::CallBody => {
            lemma_simple(crate::model::leave(b, true));
        },
        Frame::Block(_, _, scoped) => {
            lemma_simple(crate::model::leave(b, scoped));
        },
        Frame::BlockEnd(scoped) => {
            lemma_simple(crate::model::leave(b, scoped));
        },
        Frame::WhileBody(node) => {
            lemma_push_eval(b, Frame::WhileCond(node), &node.cond);
        },
        Frame::Args(_, done) => {
            lemma_simple(crate::model::discard(b, done as int));
        },
        Frame::ListItems(_, done) => {
            lemma_simple(crate::model::discard(b, done as int));
        },
        Frame::ObjectFields(_, done) => {
            lemma_simple(crate::model::discard(b, done as int));
        },
        Frame::Callee(node) => {
            lemma_simple(crate::model::discard(b, node.args@.len() as int));
        },
        _ => {},
    }
}

/// Taking up the host's answer leaves a value or an interrupt in hand.
proof fn lemma_resume(b: Machine, pending: Pending, event: EventView)
    ensures
        within(b, resume(b, pending, event), 1),
{
    lemma_simple(b);
    match pending {
        Pending::Value(expect) => match crate::model::answer(b.store, expect, event) {
            crate::model::Answer::Value(store, value) => {
                lemma_simple(b.with_store(store));
            },
            _ => {},
        },
        Pending::Store(cell, expect) => match crate::model::answer(b.store, expect, event) {
            crate::model::Answer::Value(store, value) => {
                lemma_simple(b.with_store(store.write(cell, value)));
            },
            _ => {},
        },
        Pending::Http(cell) => match event {
            EventView::Http { status, body } => {
                lemma_simple(
                    b.with_store(
                        b.store.with_text(body).write(
                            cell,
                            Value::String(b.store.heap.len() as usize),
                        ),
                    ),
                );
            },
            _ => {},
        },
        _ => {},
    }
}

// ---------------------------------------------------------------------------
// Steps and runs
// ---------------------------------------------------------------------------
/// A step of a machine whose run is not over makes the machine lighter by one
/// at least, but for the work that the step takes on.
pub proof fn law_step_lightens(m: Machine, event: EventView, world: World)
    requires
        !(m.control is Done),
    ensures
        weight(step(m, event, world).0) + 1 <= weight(m) + taken_on(m),
{
    match m.control {
        Control::Eval(node) => {
            lemma_expression(m, node);
        },
        Control::Value(value) => {
            if m.stack.len() > 0 {
                lemma_popped(m);
                lemma_deliver(m, m.popped(), m.stack.last(), value, world);
            }
        },
        Control::Signal(interrupt) => {
            if m.stack.len() > 0 {
                lemma_popped(m);
                lemma_unwind(m.popped(), m.stack.last(), interrupt);
            }
        },
        Control::Waiting => {
            if m.stack.len() > 0 {
                lemma_popped(m);
                match m.stack.last() {
                    Frame::Await(pending) => {
                        lemma_resume(m.popped(), pending, event);
                    },
                    _ => {},
                }
            }
        },
        Control::Done(_) => {},
    }
}

} // verus!
