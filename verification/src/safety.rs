//! The machine never gets stuck: what holds of every state of a run.
//!
//! Every frame that stands for a scope has its scope on the chain, and every
//! frame that gathers operands has them on the operand stack. A machine that
//! starts in order stays in order, so it never looks for a frame, a scope or
//! an operand that is not there.

use vstd::prelude::*;
use crate::host::{ActionView, Defect, EventView, OutcomeView};
use crate::model::{
    bind,
    bind_params,
    call_func,
    deliver,
    discard,
    drive,
    initial,
    keep,
    leave,
    next_arg,
    next_field,
    next_item,
    operands_from,
    operands_upto,
    resume,
    run_block,
    step,
    unwind,
    visit_block,
    visit_expression,
    visit_statement,
    Step,
};
use crate::scope::push_frame;
use crate::state::{Callee, Control, Frame, Machine, Pending, Stage, VariableView};
use crate::tree::{Block, CallBase, Expression, Program, Statement};
use crate::value::{InterruptKind, Value};
use crate::world::World;

verus! {

/// The number of scopes that a frame stands for.
pub open spec fn frame_scopes(frame: Frame) -> nat {
    match frame {
        Frame::Block(_, _, scoped) => if scoped {
            1
        } else {
            0
        },
        Frame::BlockEnd(scoped) => if scoped {
            1
        } else {
            0
        },
        Frame::CallBody => 1,
        _ => 0,
    }
}

/// The number of operands that a frame has gathered.
pub open spec fn frame_operands(frame: Frame) -> nat {
    match frame {
        Frame::Args(_, done) => done as nat,
        Frame::ListItems(_, done) => done as nat,
        Frame::ObjectFields(_, done) => done as nat,
        Frame::Dispatch(node) => node.args@.len(),
        Frame::Callee(node) => node.args@.len(),
        _ => 0,
    }
}

/// The number of scopes that the frames of a stack stand for.
pub open spec fn scopes_held(stack: Seq<Frame>) -> nat
    decreases stack.len(),
{
    if stack.len() == 0 {
        0
    } else {
        scopes_held(stack.drop_last()) + frame_scopes(stack.last())
    }
}

/// The number of operands that the frames of a stack have gathered.
pub open spec fn operands_held(stack: Seq<Frame>) -> nat
    decreases stack.len(),
{
    if stack.len() == 0 {
        0
    } else {
        operands_held(stack.drop_last()) + frame_operands(stack.last())
    }
}

/// Whether a frame may stand at a place of the stack: the driver stands at the
/// bottom and nowhere else, and a frame that waits for a single step stands
/// at the top.
pub open spec fn frame_fits(program: &Program, frame: Frame, bottom: bool, top: bool) -> bool {
    match frame {
        Frame::Driver(_) => bottom,
        Frame::Global(index) => index < program.globals@.len() && !bottom,
        Frame::Args(node, done) => done < node.args@.len() && !bottom,
        Frame::ListItems(node, done) => done < node.values@.len() && !bottom,
        Frame::ObjectFields(node, done) => done < node.members@.len() && !bottom,
        Frame::Dispatch(_) => top && !bottom,
        Frame::Await(_) => top && !bottom,
        _ => !bottom,
    }
}

/// Whether the frames of a stack fit their places.
pub open spec fn stack_fits(program: &Program, stack: Seq<Frame>) -> bool {
    forall|i: int|
        0 <= i < stack.len() ==> frame_fits(
            program,
            #[trigger] stack[i],
            i == 0,
            i == stack.len() - 1,
        )
}

/// Whether the control goes with the topmost frame: the machine waits exactly
/// when the frame on top takes up an answer, and has a value in hand when the
/// frame on top is a call about to be made.
pub open spec fn control_fits(control: Control, top: Frame) -> bool {
    &&& top is Await <==> control is Waiting
    &&& top is Dispatch ==> control is Value
}

/// The machine is in order. A machine whose run is over is in order unless
/// it stopped for want of a frame, a scope or an operand.
pub open spec fn in_order(m: Machine) -> bool {
    match m.control {
        Control::Done(end) => {
            &&& end != crate::state::Final::Defect(Defect::Stuck)
            &&& end != crate::state::Final::Defect(Defect::NoScope)
        },
        _ => {
            &&& m.stack.len() > 0
            &&& stack_fits(m.program, m.stack)
            &&& control_fits(m.control, m.stack.last())
            &&& m.scopes.len() == 1 + scopes_held(m.stack)
            &&& m.operands.len() == operands_held(m.stack)
        },
    }
}

/// The part of a machine below what a step is about to push, or above which a
/// step took a frame off: no frame of it waits for a single step, and it
/// holds the given numbers of scopes and operands beyond those of its frames.
pub open spec fn below(m: Machine, scopes: nat, operands: nat) -> bool {
    &&& forall|i: int|
        0 <= i < m.stack.len() ==> frame_fits(m.program, #[trigger] m.stack[i], i == 0, false)
    &&& m.scopes.len() == 1 + scopes_held(m.stack) + scopes
    &&& m.operands.len() == operands_held(m.stack) + operands
}

/// A step that ends in order and does not stop on a missing frame, scope or
/// operand.
pub open spec fn fine(s: Step) -> bool {
    &&& in_order(s.0)
    &&& s.1 != ActionView::Finish(OutcomeView::Defect(Defect::Stuck))
    &&& s.1 != ActionView::Finish(OutcomeView::Defect(Defect::NoScope))
}

proof fn lemma_pushed(m: Machine, frame: Frame)
    ensures
        scopes_held(m.pushed(frame).stack) == scopes_held(m.stack) + frame_scopes(frame),
        operands_held(m.pushed(frame).stack) == operands_held(m.stack) + frame_operands(frame),
        m.pushed(frame).stack.len() == m.stack.len() + 1,
        m.pushed(frame).stack.last() == frame,
        forall|i: int| 0 <= i < m.stack.len() ==> m.pushed(frame).stack[i] == m.stack[i],
{
    assert(m.stack.push(frame).drop_last() =~= m.stack);
}

/// Taking the topmost frame off a machine in order leaves what lies below it,
/// with the scopes and operands of the frame on top of that.
proof fn lemma_popped(m: Machine)
    requires
        in_order(m),
        !(m.control is Done),
    ensures
        below(m.popped(), frame_scopes(m.stack.last()), frame_operands(m.stack.last())),
        frame_fits(m.program, m.stack.last(), m.stack.len() == 1, true),
        m.stack.last() is Driver <==> m.popped().stack.len() == 0,
{
    let b = m.popped();
    assert forall|i: int| 0 <= i < b.stack.len() implies frame_fits(
        b.program,
        #[trigger] b.stack[i],
        i == 0,
        false,
    ) by {
        assert(b.stack[i] == m.stack[i]);
        assert(frame_fits(m.program, m.stack[i], i == 0, i == m.stack.len() - 1));
    }
    assert(frame_fits(m.program, m.stack[m.stack.len() - 1], m.stack.len() == 1, true));
}

/// A frame pushed on what lies below, with the scopes and operands that it
/// holds at hand, gives a machine in order.
proof fn lemma_push(m: Machine, frame: Frame, control: Control)
    requires
        below(m, frame_scopes(frame), frame_operands(frame)),
        frame_fits(m.program, frame, m.stack.len() == 0, true),
        control_fits(control, frame),
        !(control is Done),
    ensures
        in_order(m.pushed(frame).with_control(control)),
        below(m.pushed(frame), 0, 0) || frame is Await || frame is Dispatch,
{
    lemma_pushed(m, frame);
    let after = m.pushed(frame).with_control(control);
    assert forall|i: int| 0 <= i < after.stack.len() implies frame_fits(
        after.program,
        #[trigger] after.stack[i],
        i == 0,
        i == after.stack.len() - 1,
    ) by {
        if i < m.stack.len() {
            assert(after.stack[i] == m.stack[i]);
            assert(frame_fits(m.program, m.stack[i], i == 0, false));
        }
    }
    if !(frame is Await || frame is Dispatch) {
        let pushed = m.pushed(frame);
        assert forall|i: int| 0 <= i < pushed.stack.len() implies frame_fits(
            pushed.program,
            #[trigger] pushed.stack[i],
            i == 0,
            false,
        ) by {
            if i < m.stack.len() {
                assert(pushed.stack[i] == m.stack[i]);
                assert(frame_fits(m.program, m.stack[i], i == 0, false));
            }
        }
    }
}

/// What lies below, with nothing at hand, is in order under any control that
/// neither waits nor is over.
proof fn lemma_go(m: Machine, control: Control)
    requires
        below(m, 0, 0),
        m.stack.len() > 0,
        !(control is Waiting),
        !(control is Done),
    ensures
        in_order(m.with_control(control)),
        fine(m.go(control)),
{
    let after = m.with_control(control);
    assert forall|i: int| 0 <= i < after.stack.len() implies frame_fits(
        after.program,
        #[trigger] after.stack[i],
        i == 0,
        i == after.stack.len() - 1,
    ) by {
        assert(frame_fits(m.program, m.stack[i], i == 0, false));
    }
    assert(frame_fits(m.program, m.stack[m.stack.len() - 1], m.stack.len() == 1, false));
}

/// Asking the host keeps the machine in order.
proof fn lemma_ask(m: Machine, action: ActionView, pending: Pending)
    requires
        below(m, 0, 0),
        m.stack.len() > 0,
        !(action is Finish),
    ensures
        fine(m.ask(action, pending)),
{
    lemma_push(m, Frame::Await(pending), Control::Waiting);
}

/// Neither the store nor the program matter to the order of the machine.
proof fn lemma_with_store(m: Machine, store: crate::value::Memory, scopes: nat, operands: nat)
    requires
        below(m, scopes, operands),
    ensures
        below(m.with_store(store), scopes, operands),
{
    let after = m.with_store(store);
    assert forall|i: int| 0 <= i < after.stack.len() implies frame_fits(
        after.program,
        #[trigger] after.stack[i],
        i == 0,
        false,
    ) by {
        assert(frame_fits(m.program, m.stack[i], i == 0, false));
    }
}

proof fn lemma_fail(m: Machine, message: Seq<char>)
    requires
        below(m, 0, 0),
        m.stack.len() > 0,
    ensures
        fine(m.fail(message)),
{
    lemma_with_store(m, m.store.with_text(message), 0, 0);
    lemma_go(
        m.with_store(m.store.with_text(message)),
        Control::Signal(InterruptKind::Error(m.store.heap.len() as usize)),
    );
}

proof fn lemma_settle(m: Machine, computed: crate::ops::Computed)
    requires
        below(m, 0, 0),
        m.stack.len() > 0,
    ensures
        fine(m.settle(computed)),
{
    match computed {
        crate::ops::Computed::Value(value) => {
            lemma_go(m, Control::Value(value));
        },
        crate::ops::Computed::Error(fault) => {
            lemma_fail(m, crate::messages::fault_text(fault));
        },
        crate::ops::Computed::Host(request, kind) => {
            lemma_ask(
                m,
                ActionView::Float(request),
                Pending::Value(kind),
            );
        },
        crate::ops::Computed::Defect => {},
    }
}

proof fn lemma_settle_into(m: Machine, cell: usize, computed: crate::ops::Computed)
    requires
        below(m, 0, 0),
        m.stack.len() > 0,
    ensures
        fine(m.settle_into(cell, computed)),
{
    match computed {
        crate::ops::Computed::Value(value) => {
            lemma_with_store(m, m.store.write(cell, value), 0, 0);
            lemma_go(m.with_store(m.store.write(cell, value)), Control::Value(Value::Unit));
        },
        crate::ops::Computed::Error(fault) => {
            lemma_fail(m, crate::messages::fault_text(fault));
        },
        crate::ops::Computed::Host(request, kind) => {
            lemma_ask(
                m,
                ActionView::Float(request),
                Pending::Store(cell, kind),
            );
        },
        crate::ops::Computed::Defect => {},
    }
}

/// Evaluating an expression next, under a frame that was just pushed.
proof fn lemma_push_eval<'a>(m: Machine<'a>, frame: Frame<'a>, node: &'a Expression)
    requires
        below(m, frame_scopes(frame), frame_operands(frame)),
        frame_fits(m.program, frame, m.stack.len() == 0, true),
        !(frame is Await),
        !(frame is Dispatch),
    ensures
        fine(m.pushed(frame).eval(node)),
{
    lemma_push(m, frame, Control::Eval(node));
}

// ---------------------------------------------------------------------------
// Blocks, statements, expressions
// ---------------------------------------------------------------------------
proof fn lemma_leave(m: Machine, scoped: bool)
    requires
        below(
            m,
            if scoped {
                1
            } else {
                0
            },
            0,
        ),
    ensures
        below(leave(m, scoped), 0, 0),
        leave(m, scoped).stack == m.stack,
{
    let after = leave(m, scoped);
    assert forall|i: int| 0 <= i < after.stack.len() implies frame_fits(
        after.program,
        #[trigger] after.stack[i],
        i == 0,
        false,
    ) by {
        assert(frame_fits(m.program, m.stack[i], i == 0, false));
    }
}

proof fn lemma_visit_statement<'a>(m: Machine<'a>, node: &'a Statement)
    requires
        below(m, 0, 0),
        m.stack.len() > 0,
    ensures
        fine(visit_statement(m, node)),
{
    match node {
        Statement::Beantrage => {
            lemma_go(m, Control::Value(Value::Unit));
        },
        Statement::Let(inner) => {
            lemma_push_eval(m, Frame::Let(inner), &inner.expr);
        },
        Statement::Aendere(inner) => {
            lemma_push_eval(m, Frame::Aendere(inner), &inner.expr);
        },
        Statement::Return(Some(expr)) => {
            lemma_push_eval(m, Frame::Return, expr);
        },
        Statement::Return(None) => {
            lemma_go(m, Control::Signal(InterruptKind::Return(Value::Unit)));
        },
        Statement::While(inner) => {
            lemma_push_eval(m, Frame::WhileCond(inner), &inner.cond);
        },
        Statement::Break => {
            lemma_go(m, Control::Signal(InterruptKind::Break));
        },
        Statement::Continue => {
            lemma_go(m, Control::Signal(InterruptKind::Continue));
        },
        Statement::Expr(expr) => {
            lemma_go(m, Control::Eval(expr));
        },
    }
}

proof fn lemma_run_block<'a>(m: Machine<'a>, block: &'a Block, next: usize, scoped: bool)
    requires
        below(
            m,
            if scoped {
                1
            } else {
                0
            },
            0,
        ),
        m.stack.len() > 0,
    ensures
        fine(run_block(m, block, next, scoped)),
{
    if next < block.stmts@.len() {
        let frame = Frame::Block(block, (next + 1) as usize, scoped);
        lemma_push(m, frame, Control::Value(Value::Unit));
        lemma_visit_statement(m.pushed(frame), &block.stmts@[next as int]);
    } else {
        match &block.expr {
            Some(tail) => {
                lemma_push_eval(m, Frame::BlockEnd(scoped), tail);
            },
            None => {
                lemma_leave(m, scoped);
                lemma_go(leave(m, scoped), Control::Value(Value::Unit));
            },
        }
    }
}

proof fn lemma_enter(m: Machine)
    requires
        below(m, 0, 0),
    ensures
        below(m.with_scopes(push_frame(m.scopes)), 1, 0),
{
    let after = m.with_scopes(push_frame(m.scopes));
    assert forall|i: int| 0 <= i < after.stack.len() implies frame_fits(
        after.program,
        #[trigger] after.stack[i],
        i == 0,
        false,
    ) by {
        assert(frame_fits(m.program, m.stack[i], i == 0, false));
    }
}

proof fn lemma_visit_block<'a>(m: Machine<'a>, block: &'a Block, new_scope: bool)
    requires
        below(m, 0, 0),
        m.stack.len() > 0,
    ensures
        fine(visit_block(m, block, new_scope)),
{
    if new_scope {
        lemma_enter(m);
        lemma_run_block(m.with_scopes(push_frame(m.scopes)), block, 0, true);
    } else {
        lemma_run_block(m, block, 0, false);
    }
}

/// Taking the last `count` operands off, where that many are at hand.
proof fn lemma_take(m: Machine, count: nat)
    requires
        below(m, 0, count),
    ensures
        below(operands_upto(m, m.operands.len() - count), 0, 0),
        operands_upto(m, m.operands.len() - count).stack == m.stack,
        below(discard(m, count as int), 0, 0),
        discard(m, count as int).stack == m.stack,
{
    let after = operands_upto(m, m.operands.len() - count);
    assert forall|i: int| 0 <= i < after.stack.len() implies frame_fits(
        after.program,
        #[trigger] after.stack[i],
        i == 0,
        false,
    ) by {
        assert(frame_fits(m.program, m.stack[i], i == 0, false));
    }
}

proof fn lemma_keep(m: Machine, value: Value, count: nat)
    requires
        below(m, 0, count),
    ensures
        below(keep(m, value), 0, count + 1),
        keep(m, value).stack == m.stack,
{
    let after = keep(m, value);
    assert forall|i: int| 0 <= i < after.stack.len() implies frame_fits(
        after.program,
        #[trigger] after.stack[i],
        i == 0,
        false,
    ) by {
        assert(frame_fits(m.program, m.stack[i], i == 0, false));
    }
}

proof fn lemma_next_item<'a>(m: Machine<'a>, node: &'a crate::tree::ListExpr, done: usize)
    requires
        below(m, 0, done as nat),
        m.stack.len() > 0,
        done <= node.values@.len(),
    ensures
        fine(next_item(m, node, done)),
{
    if done < node.values@.len() {
        lemma_push_eval(m, Frame::ListItems(node, done), &node.values@[done as int]);
    } else {
        lemma_take(m, done as nat);
        let from = m.operands.len() - done;
        let taken = operands_upto(m, from);
        let store = m.store.with_object(
            crate::value::HeapObjectView::List(operands_from(m, from)),
        );
        lemma_with_store(taken, store, 0, 0);
        lemma_go(taken.with_store(store), Control::Value(Value::List(m.store.heap.len() as usize)));
    }
}

proof fn lemma_next_field<'a>(m: Machine<'a>, node: &'a crate::tree::ObjectExpr, done: usize)
    requires
        below(m, 0, done as nat),
        m.stack.len() > 0,
        done <= node.members@.len(),
    ensures
        fine(next_field(m, node, done)),
{
    if done < node.members@.len() {
        lemma_push_eval(
            m,
            Frame::ObjectFields(node, done),
            &node.members@[done as int].value,
        );
    } else {
        lemma_take(m, done as nat);
        let from = m.operands.len() - done;
        let taken = operands_upto(m, from);
        let store = m.store.with_object(
            crate::value::HeapObjectView::Fields(
                crate::model::object_fields(node.members@, operands_from(m, from), done as nat),
            ),
        );
        lemma_with_store(taken, store, 0, 0);
        lemma_go(
            taken.with_store(store),
            Control::Value(Value::Objekt(m.store.heap.len() as usize)),
        );
    }
}

proof fn lemma_next_arg<'a>(m: Machine<'a>, node: &'a crate::tree::CallExpr, done: usize)
    requires
        below(m, 0, done as nat),
        m.stack.len() > 0,
        done <= node.args@.len(),
    ensures
        fine(next_arg(m, node, done)),
{
    if done < node.args@.len() {
        lemma_push_eval(m, Frame::Args(node, done), &node.args@[done as int]);
    } else {
        lemma_push(m, Frame::Dispatch(node), Control::Value(Value::Unit));
    }
}

proof fn lemma_visit_expression<'a>(m: Machine<'a>, node: &'a Expression)
    requires
        below(m, 0, 0),
        m.stack.len() > 0,
    ensures
        fine(visit_expression(m, node)),
{
    match node {
        Expression::Nichts => {
            lemma_go(m, Control::Value(Value::Unit));
        },
        Expression::Block(block) => {
            lemma_visit_block(m, &**block, true);
        },
        Expression::If(inner) => {
            lemma_push_eval(m, Frame::IfCond(&**inner), &inner.cond);
        },
        Expression::Int(i) => {
            lemma_go(m, Control::Value(Value::Int(*i)));
        },
        Expression::Float(bits) => {
            lemma_go(m, Control::Value(Value::Float(*bits)));
        },
        Expression::Bool(b) => {
            lemma_go(m, Control::Value(Value::Bool(*b)));
        },
        Expression::Char(c) => {
            lemma_go(m, Control::Value(Value::Char(*c)));
        },
        Expression::String(s) => {
            lemma_text_value(m, s@);
        },
        Expression::List(inner) => {
            lemma_next_item(m, inner, 0);
        },
        Expression::Ident(inner) => {
            match crate::scope::resolve(m.scopes, inner.ident@) {
                Some(cell) => match m.store.read(cell) {
                    Some(value) => {
                        lemma_go(m, Control::Value(value));
                    },
                    None => {},
                },
                None => {},
            }
        },
        Expression::Prefix(inner) => {
            lemma_push_eval(m, Frame::Prefix(&**inner), &inner.expr);
        },
        Expression::Infix(inner) => {
            lemma_push_eval(m, Frame::And(&**inner), &inner.lhs);
            lemma_push_eval(m, Frame::Or(&**inner), &inner.lhs);
            lemma_push_eval(m, Frame::InfixLhs(&**inner), &inner.lhs);
        },
        Expression::Assign(inner) => {
            lemma_push_eval(m, Frame::Assign(&**inner), &inner.expr);
        },
        Expression::Call(inner) => {
            lemma_next_arg(m, &**inner, 0);
        },
        Expression::Cast(inner) => {
            lemma_push_eval(m, Frame::Cast(&**inner), &inner.expr);
        },
        Expression::Member(inner) => {
            lemma_push_eval(m, Frame::Member(&**inner), &inner.expr);
        },
        Expression::Index(inner) => {
            lemma_push_eval(m, Frame::IndexBase(&**inner), &inner.expr);
        },
        Expression::Grouped(inner) => {
            lemma_go(m, Control::Eval(&**inner));
        },
        Expression::Object(inner) => {
            lemma_next_field(m, inner, 0);
        },
    }
}

proof fn lemma_text_value(m: Machine, text: Seq<char>)
    requires
        below(m, 0, 0),
        m.stack.len() > 0,
    ensures
        fine(m.text_value(text)),
{
    lemma_with_store(m, m.store.with_text(text), 0, 0);
    lemma_go(
        m.with_store(m.store.with_text(text)),
        Control::Value(Value::String(m.store.heap.len() as usize)),
    );
}

// ---------------------------------------------------------------------------
// Calls
// ---------------------------------------------------------------------------
proof fn lemma_bind(m: Machine, name: Seq<char>, value: Value, scopes: nat, operands: nat)
    requires
        below(m, scopes, operands),
    ensures
        below(bind(m, name, value), scopes, operands),
        bind(m, name, value).stack == m.stack,
        bind(m, name, value).program == m.program,
{
    let after = bind(m, name, value);
    assert forall|i: int| 0 <= i < after.stack.len() implies frame_fits(
        after.program,
        #[trigger] after.stack[i],
        i == 0,
        false,
    ) by {
        assert(frame_fits(m.program, m.stack[i], i == 0, false));
    }
}

proof fn lemma_bind_params(m: Machine, callee: Callee, args: Seq<Value>, n: nat)
    requires
        below(m, 1, 0),
    ensures
        below(bind_params(m, callee, args, n), 1, 0),
        bind_params(m, callee, args, n).stack == m.stack,
        bind_params(m, callee, args, n).program == m.program,
    decreases n,
{
    if n > 0 {
        lemma_bind_params(m, callee, args, (n - 1) as nat);
        lemma_bind(
            bind_params(m, callee, args, (n - 1) as nat),
            crate::model::param_text(m.program, callee, n - 1),
            args[n - 1],
            1,
            0,
        );
    }
}

proof fn lemma_call_user(m: Machine, callee: Callee, args: Seq<Value>)
    requires
        below(m, 0, 0),
        m.stack.len() > 0,
    ensures
        fine(crate::model::call_user(m, callee, args)),
{
    let entered = m.with_scopes(push_frame(m.scopes));
    lemma_enter(m);
    let n = crate::model::bound_count(m.program, callee, args);
    lemma_bind_params(entered, callee, args, n);
    let bound = bind_params(entered, callee, args, n);
    lemma_push(bound, Frame::CallBody, Control::Value(Value::Unit));
    lemma_run_block(
        bound.pushed(Frame::CallBody),
        crate::model::body_of(m.program, callee),
        0,
        false,
    );
}

proof fn lemma_call_func(m: Machine, name: Seq<char>, args: Seq<Value>, world: World)
    requires
        below(m, 0, 0),
        m.stack.len() > 0,
    ensures
        fine(call_func(m, name, args, world)),
{
    if name == "Aufgeben"@ {
        if args.len() > 0 && args[0] is Int {
            lemma_go(m, Control::Signal(InterruptKind::Exit(args[0]->Int_0)));
        }
    } else if name == "Drucke"@ {
        match crate::codec::export_values(m.store, args) {
            Some(copies) => {
                lemma_ask(
                    m,
                    ActionView::Write(crate::codec::render_line(copies)),
                    Pending::Value(crate::state::Expect::Nothing),
                );
            },
            None => {},
        }
    } else if name == "Zergliedere_JSON"@ {
        if args.len() > 0 {
            match m.store.text(args[0]) {
                Some(text) => {
                    lemma_ask(
                        m,
                        ActionView::Deserialize(text),
                        Pending::Value(crate::state::Expect::Data),
                    );
                },
                None => {},
            }
        }
    } else if name == "Gliedere_JSON"@ {
        if args.len() > 0 {
            match crate::codec::export_value(m.store, args[0]) {
                Some(copy) => {
                    lemma_ask(
                        m,
                        ActionView::Serialize(copy),
                        Pending::Value(crate::state::Expect::Text),
                    );
                },
                None => {},
            }
        }
    } else if name == "Formatiere"@ {
        if args.len() > 0 {
            match m.store.text(args[0]) {
                Some(template) => match crate::codec::export_values(m.store, args.skip(1)) {
                    Some(copies) => {
                        lemma_ask(
                            m,
                            ActionView::Format { template, args: copies },
                            Pending::Value(crate::state::Expect::Text),
                        );
                    },
                    None => {},
                },
                None => {},
            }
        }
    } else if name == "Zeit"@ {
        let store = m.store.with_object(
            crate::value::HeapObjectView::Fields(crate::model::clock_fields(world.clock)),
        );
        lemma_with_store(m, store, 0, 0);
        lemma_go(
            m.with_store(store),
            Control::Value(Value::Objekt(m.store.heap.len() as usize)),
        );
    } else if name == "Http"@ {
        match crate::model::http_request(m.store, args) {
            Some(request) => match args[4] {
                Value::Ptr(cell) => {
                    lemma_ask(m, request, Pending::Http(cell));
                },
                _ => {},
            },
            None => {},
        }
    } else if name == "Schlummere"@ {
        if args.len() > 0 && args[0] is Float {
            lemma_ask(
                m,
                ActionView::Sleep(args[0]->Float_0),
                Pending::Value(crate::state::Expect::Nothing),
            );
        }
    } else if name == "Geld"@ {
        lemma_text_value(m, crate::messages::money_text());
    } else if name == "Umgebungsvariablen"@ {
        let (filled, fields) = crate::model::environment_fields(
            m.store,
            m.environment,
            m.environment.len(),
        );
        let store = filled.with_object(crate::value::HeapObjectView::Fields(fields));
        lemma_with_store(m, store, 0, 0);
        lemma_go(
            m.with_store(store),
            Control::Value(Value::Speicherbox(filled.heap.len() as usize)),
        );
    } else {
        match crate::model::find_callee(m.program, name) {
            Some(callee) => {
                lemma_call_user(m, callee, args);
            },
            None => {},
        }
    }
}

proof fn lemma_invoke(m: Machine, callee: Value, args: Seq<Value>)
    requires
        below(m, 0, 0),
        m.stack.len() > 0,
    ensures
        fine(crate::model::invoke(m, callee, args)),
{
    match m.store.bound(callee) {
        Some((base, name)) => match (
            crate::codec::export_value(m.store, base),
            crate::codec::export_values(m.store, args),
        ) {
            (Some(base), Some(args)) => {
                lemma_ask(
                    m,
                    ActionView::Invoke { name, base, args },
                    Pending::Value(crate::state::Expect::Data),
                );
            },
            _ => {},
        },
        None => {},
    }
}

// ---------------------------------------------------------------------------
// The driver
// ---------------------------------------------------------------------------
proof fn lemma_drive(m: Machine, stage: Stage, value: Value, world: World)
    requires
        below(m, 0, 0),
        m.stack.len() == 0,
    ensures
        fine(drive(m, stage, value, world)),
{
    match stage {
        Stage::Seed(next) => {
            if next >= m.program.globals@.len() {
                lemma_push(m, Frame::Driver(Stage::Apply), Control::Value(Value::Unit));
                lemma_call_func(
                    m.pushed(Frame::Driver(Stage::Apply)),
                    "Bewerbung"@,
                    Seq::empty(),
                    world,
                );
            } else {
                let again = Frame::Driver(Stage::Seed((next + 1) as usize));
                lemma_push(m, again, Control::Value(Value::Unit));
                lemma_push_eval(
                    m.pushed(again),
                    Frame::Global(next),
                    &m.program.globals@[next as int].expr,
                );
            }
        },
        Stage::Apply => {
            match m.store.text(value) {
                Some(letter) => {
                    if letter.len() > 0 {
                        match world.entropy {
                            Some(number) => {
                                let frame = Frame::Driver(Stage::Enroll(number as i64));
                                lemma_push(m, frame, Control::Value(Value::Unit));
                                lemma_call_func(
                                    m.pushed(frame),
                                    "Einschreibung"@,
                                    seq![Value::Int(number as i64)],
                                    world,
                                );
                            },
                            None => {},
                        }
                    }
                },
                None => {},
            }
        },
        Stage::Enroll(number) => {
            lemma_push(m, Frame::Driver(Stage::Study), Control::Value(Value::Unit));
            lemma_call_func(
                m.pushed(Frame::Driver(Stage::Study)),
                "Studium"@,
                seq![Value::Int(number)],
                world,
            );
        },
        Stage::Study => {},
    }
}

// ---------------------------------------------------------------------------
// Frames
// ---------------------------------------------------------------------------
proof fn lemma_deliver<'a>(m: Machine<'a>, frame: Frame<'a>, value: Value, world: World)
    requires
        below(m, frame_scopes(frame), frame_operands(frame)),
        frame_fits(m.program, frame, m.stack.len() == 0, true),
        frame is Driver <==> m.stack.len() == 0,
        !(frame is Await),
    ensures
        fine(deliver(m, frame, value, world)),
{
    match frame {
        Frame::Driver(stage) => {
            lemma_drive(m, stage, value, world);
        },
        Frame::Global(index) => {
            lemma_bind(m, m.program.globals@[index as int].name@, value, 0, 0);
            lemma_go(
                bind(m, m.program.globals@[index as int].name@, value),
                Control::Value(Value::Unit),
            );
        },
        Frame::CallBody => {
            lemma_leave(m, true);
            lemma_go(leave(m, true), Control::Value(value));
        },
        Frame::Args(node, done) => {
            assert(node.args@.len() == node.args.len());
            lemma_keep(m, value, done as nat);
            lemma_next_arg(keep(m, value), node, (done + 1) as usize);
        },
        Frame::Dispatch(node) => {
            match &node.func {
                CallBase::Ident(name) => {
                    lemma_take(m, node.args@.len());
                    let from = m.operands.len() - node.args@.len();
                    lemma_call_func(operands_upto(m, from), name@, operands_from(m, from), world);
                },
                CallBase::Expr(callee) => {
                    lemma_push_eval(m, Frame::Callee(node), &**callee);
                },
            }
        },
        Frame::Callee(node) => {
            lemma_take(m, node.args@.len());
            let from = m.operands.len() - node.args@.len();
            lemma_invoke(operands_upto(m, from), value, operands_from(m, from));
        },
        Frame::Block(block, next, scoped) => {
            lemma_run_block(m, block, next, scoped);
        },
        Frame::BlockEnd(scoped) => {
            lemma_leave(m, scoped);
            lemma_go(leave(m, scoped), Control::Value(value));
        },
        Frame::Let(node) => {
            lemma_bind(m, node.name@, value, 0, 0);
            lemma_go(bind(m, node.name@, value), Control::Value(Value::Unit));
        },
        Frame::Aendere(node) => {
            match crate::model::target(m, node.assignee@, node.assignee_ptr_count as nat) {
                Ok(cell) => {
                    lemma_with_store(m, m.store.write(cell, value), 0, 0);
                    lemma_go(
                        m.with_store(m.store.write(cell, value)),
                        Control::Value(Value::Unit),
                    );
                },
                Err(_) => {},
            }
        },
        Frame::Return => {
            lemma_go(m, Control::Signal(InterruptKind::Return(value)));
        },
        Frame::WhileCond(node) => {
            lemma_push(m, Frame::WhileStart(node), Control::Value(Value::Unit));
            lemma_ask(
                m.pushed(Frame::WhileStart(node)),
                ActionView::Pause(crate::model::LOOP_DELAY),
                Pending::Value(crate::state::Expect::Nothing),
            );
            lemma_go(m, Control::Value(Value::Unit));
        },
        Frame::WhileStart(node) => {
            lemma_push(m, Frame::WhileBody(node), Control::Value(Value::Unit));
            lemma_visit_block(m.pushed(Frame::WhileBody(node)), &node.block, true);
        },
        Frame::WhileBody(node) => {
            lemma_push_eval(m, Frame::WhileCond(node), &node.cond);
        },
        Frame::IfCond(node) => {
            lemma_visit_block(m, &node.then_block, true);
            match &node.else_block {
                Some(block) => {
                    lemma_visit_block(m, block, true);
                },
                None => {},
            }
            lemma_go(m, Control::Value(Value::Unit));
        },
        Frame::ListItems(node, done) => {
            assert(node.values@.len() == node.values.len());
            lemma_keep(m, value, done as nat);
            lemma_next_item(keep(m, value), node, (done + 1) as usize);
        },
        Frame::Prefix(node) => {
            lemma_settle(m, crate::ops::prefix_result(crate::tree::PrefixOp::Not, value));
            lemma_settle(m, crate::ops::prefix_result(crate::tree::PrefixOp::Neg, value));
            match &node.expr {
                Expression::Ident(inner) => match crate::scope::resolve(m.scopes, inner.ident@) {
                    Some(cell) => {
                        lemma_go(m, Control::Value(Value::Ptr(cell)));
                    },
                    None => {},
                },
                _ => {},
            }
            match value {
                Value::Ptr(cell) => match m.store.read(cell) {
                    Some(read) => {
                        lemma_go(m, Control::Value(read));
                    },
                    None => {},
                },
                _ => {},
            }
        },
        Frame::And(node) => {
            lemma_go(m, Control::Eval(&node.rhs));
            lemma_go(m, Control::Value(Value::Bool(false)));
        },
        Frame::Or(node) => {
            lemma_go(m, Control::Eval(&node.rhs));
            lemma_go(m, Control::Value(Value::Bool(true)));
        },
        Frame::InfixLhs(node) => {
            lemma_push_eval(m, Frame::InfixRhs(node, value), &node.rhs);
        },
        Frame::InfixRhs(node, lhs) => {
            let (store, computed) = crate::model::binary(m.store, node.op, lhs, value);
            lemma_with_store(m, store, 0, 0);
            lemma_settle(m.with_store(store), computed);
        },
        Frame::Assign(node) => {
            match crate::model::target(m, node.assignee@, node.assignee_ptr_count as nat) {
                Ok(cell) => match crate::ops::assign_operator(node.op) {
                    Some(op) => {
                        let (store, computed) = crate::model::binary(
                            m.store,
                            op,
                            m.store.cells[cell as int],
                            value,
                        );
                        lemma_with_store(m, store, 0, 0);
                        lemma_settle_into(m.with_store(store), cell, computed);
                    },
                    None => {},
                },
                Err(_) => {},
            }
        },
        Frame::Cast(node) => {
            lemma_cast(m, node, value);
        },
        Frame::Member(node) => {
            match m.store.fields(value) {
                Some(fields) => match crate::value::field_lookup(fields, node.member@) {
                    Some(found) => {
                        lemma_go(m, Control::Value(found));
                    },
                    None => {},
                },
                None => {
                    let store = m.store.with_object(
                        crate::value::HeapObjectView::Bound { base: value, name: node.member@ },
                    );
                    lemma_with_store(m, store, 0, 0);
                    lemma_go(
                        m.with_store(store),
                        Control::Value(Value::BuiltinFunction(m.store.heap.len() as usize)),
                    );
                },
            }
        },
        Frame::IndexBase(node) => {
            lemma_push_eval(m, Frame::IndexAt(value), &node.index);
        },
        Frame::IndexAt(base) => {
            match (m.store.list(base), value) {
                (Some(items), Value::Int(i)) => {
                    if 0 <= i < items.len() {
                        lemma_go(m, Control::Value(items[i as int]));
                    } else {
                        lemma_fail(m, crate::messages::index_text(i));
                    }
                },
                _ => {},
            }
        },
        Frame::ObjectFields(node, done) => {
            assert(node.members@.len() == node.members.len());
            lemma_keep(m, value, done as nat);
            lemma_next_field(keep(m, value), node, (done + 1) as usize);
        },
        Frame::Await(_) => {},
    }
}

proof fn lemma_cast<'a>(m: Machine<'a>, node: &'a crate::tree::CastExpr, value: Value)
    requires
        below(m, 0, 0),
        m.stack.len() > 0,
    ensures
        fine(crate::model::finish_cast(m, node, value)),
{
    if node.from_type is Any {
        lemma_go(m, Control::Value(value));
        lemma_fail(
            m,
            crate::messages::cast_text(
                crate::types::value_type_text(value),
                crate::types::type_text(node.as_type),
            ),
        );
    } else {
        match crate::ops::scalar_of(node.as_type) {
            Some(scalar) => match m.store.text(value) {
                None => {
                    lemma_settle(m, crate::ops::cast_result(value, scalar));
                },
                Some(text) => {
                    let digits = crate::text::replaced(text, ',', '.');
                    match crate::text::integer_value(digits) {
                        Some(n) => {
                            lemma_go(m, Control::Value(Value::Int(n as i64)));
                        },
                        None => {},
                    }
                    lemma_fail(
                        m,
                        crate::messages::parse_text(digits, crate::text::integer_refusal(digits)),
                    );
                    lemma_with_store(m, m.store.with_text(digits), 0, 0);
                    lemma_ask(
                        m.with_store(m.store.with_text(digits)),
                        ActionView::ParseFloat(digits),
                        Pending::Parse(Value::String(m.store.heap.len() as usize)),
                    );
                },
            },
            None => {},
        }
    }
}

proof fn lemma_unwind<'a>(m: Machine<'a>, frame: Frame<'a>, interrupt: InterruptKind)
    requires
        below(m, frame_scopes(frame), frame_operands(frame)),
        frame_fits(m.program, frame, m.stack.len() == 0, true),
        frame is Driver <==> m.stack.len() == 0,
        !(frame is Await),
        !(frame is Dispatch),
    ensures
        fine(unwind(m, frame, interrupt)),
{
    match frame {
        Frame::Driver(stage) => {},
        Frame::Global(_) => {},
        Frame::CallBody => {
            lemma_leave(m, true);
            match interrupt {
                InterruptKind::Return(value) => {
                    lemma_go(leave(m, true), Control::Value(value));
                },
                InterruptKind::Exit(_) => {
                    lemma_go(leave(m, true), Control::Signal(interrupt));
                },
                InterruptKind::Error(_) => {
                    lemma_go(leave(m, true), Control::Signal(interrupt));
                },
                _ => {},
            }
        },
        Frame::Block(_, _, scoped) => {
            lemma_leave(m, scoped);
            lemma_go(leave(m, scoped), Control::Signal(interrupt));
        },
        Frame::BlockEnd(scoped) => {
            lemma_leave(m, scoped);
            lemma_go(leave(m, scoped), Control::Signal(interrupt));
        },
        Frame::WhileBody(node) => {
            lemma_go(m, Control::Value(Value::Unit));
            lemma_push_eval(m, Frame::WhileCond(node), &node.cond);
            lemma_go(m, Control::Signal(interrupt));
        },
        Frame::Args(_, done) => {
            lemma_take(m, done as nat);
            lemma_go(discard(m, done as int), Control::Signal(interrupt));
        },
        Frame::ListItems(_, done) => {
            lemma_take(m, done as nat);
            lemma_go(discard(m, done as int), Control::Signal(interrupt));
        },
        Frame::ObjectFields(_, done) => {
            lemma_take(m, done as nat);
            lemma_go(discard(m, done as int), Control::Signal(interrupt));
        },
        Frame::Callee(node) => {
            lemma_take(m, node.args@.len());
            lemma_go(discard(m, node.args@.len() as int), Control::Signal(interrupt));
        },
        _ => {
            lemma_go(m, Control::Signal(interrupt));
        },
    }
}

proof fn lemma_resume(m: Machine, pending: Pending, event: EventView)
    requires
        below(m, 0, 0),
        m.stack.len() > 0,
    ensures
        fine(resume(m, pending, event)),
{
    match pending {
        Pending::Value(expect) => match crate::model::answer(m.store, expect, event) {
            crate::model::Answer::Value(store, value) => {
                lemma_with_store(m, store, 0, 0);
                lemma_go(m.with_store(store), Control::Value(value));
            },
            crate::model::Answer::Failed(reason) => {
                lemma_fail(m, reason);
            },
            crate::model::Answer::Mismatch => {},
        },
        Pending::Store(cell, expect) => match crate::model::answer(m.store, expect, event) {
            crate::model::Answer::Value(store, value) => {
                lemma_with_store(m, store.write(cell, value), 0, 0);
                lemma_go(m.with_store(store.write(cell, value)), Control::Value(Value::Unit));
            },
            crate::model::Answer::Failed(reason) => {
                lemma_fail(m, reason);
            },
            crate::model::Answer::Mismatch => {},
        },
        Pending::Http(cell) => match event {
            EventView::Http { status, body } => {
                let store = m.store.with_text(body).write(
                    cell,
                    Value::String(m.store.heap.len() as usize),
                );
                lemma_with_store(m, store, 0, 0);
                lemma_go(m.with_store(store), Control::Value(Value::Int(status as i64)));
            },
            EventView::Failed(reason) => {
                lemma_fail(m, reason);
            },
            _ => {},
        },
        Pending::Parse(source) => match event {
            EventView::Float(bits) => {
                lemma_go(m, Control::Value(Value::Float(bits)));
            },
            EventView::Failed(reason) => match m.store.text(source) {
                Some(text) => {
                    lemma_fail(m, crate::messages::parse_text(text, reason));
                },
                None => {},
            },
            _ => {},
        },
    }
}

// ---------------------------------------------------------------------------
// Every state of a run
// ---------------------------------------------------------------------------
/// A run starts in order.
pub proof fn law_starts_in_order(program: &Program, environment: Seq<VariableView>)
    ensures
        in_order(initial(program, environment)),
{
    let m = initial(program, environment);
    assert(m.stack.drop_last() =~= Seq::<Frame>::empty());
    reveal_with_fuel(scopes_held, 2);
    reveal_with_fuel(operands_held, 2);
}

/// A step of a machine in order leaves the machine in order, and it never
/// stops for want of a frame, a scope or an operand.
pub proof fn law_stays_in_order(m: Machine, event: EventView, world: World)
    requires
        in_order(m),
    ensures
        in_order(step(m, event, world).0),
        step(m, event, world).1 != ActionView::Finish(OutcomeView::Defect(Defect::Stuck)),
        step(m, event, world).1 != ActionView::Finish(OutcomeView::Defect(Defect::NoScope)),
{
    match m.control {
        Control::Eval(node) => {
            lemma_whole(m);
            lemma_visit_expression(m, node);
        },
        Control::Value(value) => {
            lemma_popped(m);
            lemma_deliver(m.popped(), m.stack.last(), value, world);
        },
        Control::Signal(interrupt) => {
            lemma_popped(m);
            lemma_unwind(m.popped(), m.stack.last(), interrupt);
        },
        Control::Waiting => {
            lemma_popped(m);
            match m.stack.last() {
                Frame::Await(pending) => {
                    lemma_resume(m.popped(), pending, event);
                },
                _ => {},
            }
        },
        Control::Done(_) => {},
    }
}

/// A machine in order that is about to evaluate has nothing at hand.
proof fn lemma_whole(m: Machine)
    requires
        in_order(m),
        m.control is Eval,
    ensures
        below(m, 0, 0),
        m.stack.len() > 0,
{
    assert forall|i: int| 0 <= i < m.stack.len() implies frame_fits(
        m.program,
        #[trigger] m.stack[i],
        i == 0,
        false,
    ) by {
        assert(frame_fits(m.program, m.stack[i], i == 0, i == m.stack.len() - 1));
    }
}

} // verus!
