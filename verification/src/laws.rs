//! What holds of every run, proved from the meaning of a step.

use vstd::prelude::*;
use crate::host::{ActionView, Defect, EventView, OutcomeView};
use crate::messages::{cast_text, fault_text, index_text, rejection_text};
use crate::model::{
    bind,
    finish_aendere,
    finish_cast,
    finish_prefix,
    finish_index,
    finish_infix,
    follow,
    reads_clock,
    reads_entropy,
    step,
};
use crate::ops::{int_result, Computed, Fault};
use crate::scope::{declare, pop_frame, push_frame, resolve, ChainView};
use crate::state::{Control, Frame, Machine, Stage};
use crate::tree::{CastExpr, InfixExpr, InfixOp, WhileStmt};
use crate::types::{has_type, type_text, value_type_text};
use crate::value::{InterruptKind, Memory, Value};
use crate::world::World;

verus! {

// ---------------------------------------------------------------------------
// Scopes
// ---------------------------------------------------------------------------
/// What is declared in a block is gone once the block is left: entering a
/// frame, declaring a name in it and leaving it gives the chain as it was.
pub proof fn law_block_scope_ends(chain: ChainView, name: Seq<char>, cell: usize)
    ensures
        pop_frame(declare(push_frame(chain), name, cell)) == chain,
        forall|other: Seq<char>|
            resolve(pop_frame(declare(push_frame(chain), name, cell)), other) == resolve(
                chain,
                other,
            ),
{
    assert(pop_frame(declare(push_frame(chain), name, cell)) =~= chain);
}

/// A declaration in an inner frame shadows: inside, the name stands for the
/// new cell, and every other name stands for what it stood for outside.
pub proof fn law_shadowing(chain: ChainView, name: Seq<char>, cell: usize, other: Seq<char>)
    ensures
        resolve(declare(push_frame(chain), name, cell), name) == Some(cell),
        other != name ==> resolve(declare(push_frame(chain), name, cell), other) == resolve(
            chain,
            other,
        ),
{
    let inner = declare(push_frame(chain), name, cell);
    assert(inner.last() == Map::<Seq<char>, usize>::empty().insert(name, cell));
    assert(inner.drop_last() =~= chain);
}

/// A declaration never touches a cell that exists: the name stands for a new
/// cell, which holds the value, and every cell and every heap object of
/// before is as it was.
pub proof fn law_declaration_is_fresh(m: Machine, name: Seq<char>, value: Value, cell: usize)
    requires
        m.store.fits(),
        m.scopes.len() > 0,
        cell < m.store.cells.len(),
    ensures
        resolve(bind(m, name, value).scopes, name) == Some(m.store.cells.len() as usize),
        bind(m, name, value).store.read(m.store.cells.len() as usize) == Some(value),
        bind(m, name, value).store.read(cell) == m.store.read(cell),
        bind(m, name, value).store.heap == m.store.heap,
{
    let after = bind(m, name, value).scopes;
    assert(after.last().contains_key(name));
}

// ---------------------------------------------------------------------------
// Pointers
// ---------------------------------------------------------------------------
/// A write to a cell is seen by every read of that cell, changes no other
/// cell, and changes no heap object.
pub proof fn law_write_is_seen(store: Memory, cell: usize, value: Value, other: usize)
    requires
        cell < store.cells.len(),
    ensures
        store.write(cell, value).read(cell) == Some(value),
        other != cell ==> store.write(cell, value).read(other) == store.read(other),
        store.write(cell, value).heap == store.heap,
        store.write(cell, value).cells.len() == store.cells.len(),
{
}

/// Two pointers to one cell stay pointers to that cell when one of them is
/// written through, and the other then reads what was written.
pub proof fn law_aliasing(store: Memory, first: usize, second: usize, target: usize, value: Value)
    requires
        follow(store, first, 1) == Some(target),
        follow(store, second, 1) == Some(target),
        target < store.cells.len(),
        first != target,
        second != target,
    ensures
        follow(store.write(target, value), first, 1) == Some(target),
        follow(store.write(target, value), second, 1) == Some(target),
        store.write(target, value).read(target) == Some(value),
{
    reveal_with_fuel(follow, 2);
}

/// The address of a variable is the cell that its name resolves to: two
/// pointers taken from one variable under one scope chain are the same.
pub proof fn law_address_of<'a>(
    first: Machine<'a>,
    second: Machine<'a>,
    node: &'a crate::tree::PrefixExpr,
    operand: Value,
    other: Value,
)
    requires
        node.op == crate::tree::PrefixOp::Ref,
        first.scopes == second.scopes,
        finish_prefix(first, node, operand).0.control is Value,
    ensures
        finish_prefix(second, node, other).0.control == finish_prefix(
            first,
            node,
            operand,
        ).0.control,
        node.expr matches crate::tree::Expression::Ident(inner) && finish_prefix(
            first,
            node,
            operand,
        ).0.control == Control::Value(Value::Ptr(resolve(first.scopes, inner.ident@)->Some_0)),
{
}

/// An assignment stores its value in the cell that it reaches from its
/// variable, and changes nothing else: no other cell, no heap object, no
/// binding.
pub proof fn law_assignment<'a>(
    m: Machine<'a>,
    node: &'a crate::tree::AendereStmt,
    value: Value,
    cell: usize,
    other: usize,
)
    requires
        crate::model::target(m, node.assignee@, node.assignee_ptr_count as nat) == Ok::<
            usize,
            Defect,
        >(cell),
    ensures
        finish_aendere(m, node, value).0.store.read(cell) == Some(value),
        other != cell ==> finish_aendere(m, node, value).0.store.read(other) == m.store.read(
            other,
        ),
        finish_aendere(m, node, value).0.store.heap == m.store.heap,
        finish_aendere(m, node, value).0.scopes == m.scopes,
        finish_aendere(m, node, value).0.control == Control::Value(Value::Unit),
{
}

// ---------------------------------------------------------------------------
// Operators
// ---------------------------------------------------------------------------
/// `and` with `false` on the left is `false`, and `or` with `true` on the left
/// is `true`; in both cases the step ends with that value in hand and with
/// the right operand never taken up.
pub proof fn law_short_circuit<'a>(
    m: Machine<'a>,
    node: &'a InfixExpr,
    event: EventView,
    world: World,
)
    requires
        m.stack.len() > 0,
    ensures
        m.control == Control::Value(Value::Bool(false)) && m.stack.last() == Frame::And(node)
            ==> step(m, event, world) == m.popped().value(Value::Bool(false)),
        m.control == Control::Value(Value::Bool(true)) && m.stack.last() == Frame::Or(node)
            ==> step(m, event, world) == m.popped().value(Value::Bool(true)),
{
}

/// Division and remainder by zero fail, and so does a shift by an amount
/// below zero or above 63, whatever the left operand.
pub proof fn law_operator_faults(a: i64, b: i64)
    ensures
        int_result(InfixOp::Div, a, 0) == Computed::Error(Fault::DivisionByZero),
        int_result(InfixOp::Rem, a, 0) == Computed::Error(Fault::RemainderByZero),
        forall|x: u64, zero: u64|
            crate::ops::is_float_zero(zero) ==> #[trigger] crate::ops::float_result(
                InfixOp::Div,
                x,
                zero,
            ) == Computed::Error(Fault::DivisionByZero),
        forall|x: u64, zero: u64|
            crate::ops::is_float_zero(zero) ==> #[trigger] crate::ops::float_result(
                InfixOp::Rem,
                x,
                zero,
            ) == Computed::Error(Fault::RemainderByZero),
        b < 0 || b > 63 ==> int_result(InfixOp::Shl, a, b) == Computed::Error(Fault::ShiftLeft(b)),
        b < 0 || b > 63 ==> int_result(InfixOp::Shr, a, b) == Computed::Error(
            Fault::ShiftRight(b),
        ),
{
}

/// A failing operator raises a run-time error: the machine goes on with an
/// error interrupt whose message is the one of the failure.
pub proof fn law_fault_raises_error(m: Machine, op: InfixOp, lhs: Value, rhs: Value, fault: Fault)
    requires
        crate::ops::infix_result(op, lhs, rhs) == Computed::Error(fault),
    ensures
        finish_infix(m, op, lhs, rhs) == m.fail(fault_text(fault)),
        finish_infix(m, op, lhs, rhs).0.control == Control::Signal(
            InterruptKind::Error(m.store.heap.len() as usize),
        ),
{
}

/// A cast of a value of unknown static type to a type that is not its own
/// raises an error whose message names both types.
pub proof fn law_cast_of_unknown<'a>(m: Machine<'a>, node: &'a CastExpr, value: Value)
    requires
        node.from_type is Any,
    ensures
        has_type(value, node.as_type) ==> finish_cast(m, node, value) == m.value(value),
        !has_type(value, node.as_type) ==> finish_cast(m, node, value) == m.fail(
            cast_text(value_type_text(value), type_text(node.as_type)),
        ),
{
}

/// A float that is cast to a character asks the host for its integer part,
/// and whatever integer the host answers with is brought into the range of
/// character codes, from 0 to 127.
pub proof fn law_float_to_character(store: Memory, bits: u64, answered: i64)
    ensures
        crate::ops::cast_result(Value::Float(bits), crate::ops::Scalar::Char) == Computed::Host(
            crate::host::FloatRequest::ToInt(bits),
            crate::state::Expect::Char,
        ),
        crate::model::answer(store, crate::state::Expect::Char, EventView::Int(answered))
            == crate::model::Answer::Value(
            store,
            Value::Char(crate::ops::clamp_char(answered)),
        ),
        crate::ops::clamp_char(answered) <= 127,
        0 <= answered <= 127 ==> crate::ops::clamp_char(answered) == answered,
{
}

/// An index below zero raises an error, whatever the list.
pub proof fn law_negative_index(m: Machine, base: Value, index: i64)
    requires
        index < 0,
        m.store.list(base) is Some,
    ensures
        finish_index(m, base, Value::Int(index)) == m.fail(index_text(index)),
{
}

// ---------------------------------------------------------------------------
// Loops
// ---------------------------------------------------------------------------
/// `break` ends the loop whose body it leaves: the statement after the loop is
/// next. `continue` goes back to the condition of the loop.
pub proof fn law_loop_control<'a>(
    m: Machine<'a>,
    node: &'a WhileStmt,
    event: EventView,
    world: World,
)
    requires
        m.stack.len() > 0,
        m.stack.last() == Frame::WhileBody(node),
    ensures
        m.control == Control::Signal(InterruptKind::Break) ==> step(m, event, world)
            == m.popped().value(Value::Unit),
        m.control == Control::Signal(InterruptKind::Continue) ==> step(m, event, world)
            == m.popped().pushed(Frame::WhileCond(node)).eval(&node.cond),
{
}

// ---------------------------------------------------------------------------
// The end of a run
// ---------------------------------------------------------------------------
/// A run that ends with a status other than 0 was ended by an exit with that
/// status.
pub proof fn law_status(m: Machine, event: EventView, world: World, code: i64)
    requires
        !(m.control is Done),
        step(m, event, world).1 == ActionView::Finish(OutcomeView::Exit(code)),
    ensures
        code == 0 || m.control == Control::Signal(InterruptKind::Exit(code)),
{
    lemma_exits(m, event, world);
}

/// A step that ends the run tells the host how: the machine is over exactly
/// with the outcome that the step reports.
pub proof fn law_end_is_told(m: Machine, event: EventView, world: World, end: crate::state::Final)
    requires
        step(m, event, world).0.control == Control::Done(end),
    ensures
        step(m, event, world).1 == ActionView::Finish(
            crate::model::outcome_of(step(m, event, world).0.store, end),
        ),
{
    lemma_told_step(m, event, world);
}

/// A run that ends with an error was ended by an error interrupt that carries
/// the message, or by the first phase giving an empty text.
pub proof fn law_error(m: Machine, event: EventView, world: World, message: Seq<char>)
    requires
        m.store.fits(),
        !(m.control is Done),
        step(m, event, world).1 == ActionView::Finish(OutcomeView::Error(message)),
    ensures
        (m.control matches Control::Signal(InterruptKind::Error(id)) && m.store.text(
            Value::String(id),
        ) == Some(message)) || (m.control matches Control::Value(letter) && m.stack.len() > 0
            && m.stack.last() == Frame::Driver(Stage::Apply) && m.store.text(letter) == Some(
            Seq::<char>::empty(),
        ) && message == rejection_text()),
{
    lemma_calls_go_on(m, event, world);
    if m.control is Value && m.stack.len() > 0 && m.stack.last() == Frame::Driver(Stage::Apply) {
        let letter = m.control->Value_0;
        if m.store.text(letter) is Some && m.store.text(letter)->Some_0.len() == 0 {
            assert(m.store.text(letter)->Some_0 =~= Seq::<char>::empty());
        }
    }
}

/// An empty text from the first phase ends the run at once with the
/// rejection: no other phase starts.
pub proof fn law_rejection(m: Machine, letter: Value, event: EventView, world: World)
    requires
        m.store.fits(),
        m.control == Control::Value(letter),
        m.stack.len() > 0,
        m.stack.last() == Frame::Driver(Stage::Apply),
        m.store.text(letter) == Some(Seq::<char>::empty()),
    ensures
        step(m, event, world).1 == ActionView::Finish(OutcomeView::Error(rejection_text())),
        step(m, event, world).0.control is Done,
{
}

/// A run that is over stays over: every further step changes nothing and
/// reports the same end.
pub proof fn law_done_stays(m: Machine, event: EventView, world: World)
    requires
        m.control is Done,
    ensures
        step(m, event, world).0 == m,
        step(m, event, world).1 is Finish,
{
}

// ---------------------------------------------------------------------------
// The world
// ---------------------------------------------------------------------------
/// A step looks at the clock only to call the builtin `Zeit`, and at the
/// random number only when the first phase is over: two worlds that agree on
/// what the step looks at give the same step.
pub proof fn law_world_on_demand(m: Machine, event: EventView, first: World, second: World)
    requires
        reads_clock(m) ==> first.clock == second.clock,
        reads_entropy(m) ==> first.entropy == second.entropy,
    ensures
        step(m, event, first) == step(m, event, second),
{
    if m.control is Value && m.stack.len() > 0 {
        let value = m.control->Value_0;
        let below = m.popped();
        match m.stack.last() {
            Frame::Driver(stage) => {
                lemma_phase_names();
                match stage {
                    Stage::Seed(_) => {
                        lemma_call_without_clock(
                            below.pushed(Frame::Driver(Stage::Apply)),
                            "Bewerbung"@,
                            Seq::empty(),
                            first,
                            second,
                        );
                    },
                    Stage::Apply => {
                        match first.entropy {
                            Some(number) => {
                                lemma_call_without_clock(
                                    below.pushed(Frame::Driver(Stage::Enroll(number as i64))),
                                    "Einschreibung"@,
                                    seq![Value::Int(number as i64)],
                                    first,
                                    second,
                                );
                            },
                            None => {},
                        }
                    },
                    Stage::Enroll(number) => {
                        lemma_call_without_clock(
                            below.pushed(Frame::Driver(Stage::Study)),
                            "Studium"@,
                            seq![Value::Int(number)],
                            first,
                            second,
                        );
                    },
                    Stage::Study => {},
                }
            },
            Frame::Dispatch(node) => {
                match &node.func {
                    crate::tree::CallBase::Ident(name) => {
                        if below.operands.len() >= node.args@.len() && name@ != "Zeit"@ {
                            let from = below.operands.len() - node.args@.len();
                            lemma_call_without_clock(
                                crate::model::operands_upto(below, from),
                                name@,
                                crate::model::operands_from(below, from),
                                first,
                                second,
                            );
                        }
                    },
                    _ => {},
                }
            },
            _ => {},
        }
    }
}

/// The names of the entry phases differ from the name of the builtin `Zeit`.
proof fn lemma_phase_names()
    ensures
        "Bewerbung"@ != "Zeit"@,
        "Einschreibung"@ != "Zeit"@,
        "Studium"@ != "Zeit"@,
{
    reveal_strlit("Bewerbung");
    reveal_strlit("Einschreibung");
    reveal_strlit("Studium");
    reveal_strlit("Zeit");
    assert("Bewerbung"@.len() == 9);
    assert("Einschreibung"@.len() == 13);
    assert("Studium"@.len() == 7);
    assert("Zeit"@.len() == 4);
}

/// A call of anything but the builtin `Zeit` is the same in every world.
proof fn lemma_call_without_clock(
    m: Machine,
    name: Seq<char>,
    args: Seq<Value>,
    first: World,
    second: World,
)
    requires
        name != "Zeit"@,
    ensures
        crate::model::call_func(m, name, args, first) == crate::model::call_func(
            m,
            name,
            args,
            second,
        ),
{
}

/// Whether a step leaves the run going: it does not end the run, unless on a
/// defect.
pub open spec fn goes_on(s: (Machine, ActionView)) -> bool {
    match s.1 {
        ActionView::Finish(OutcomeView::Defect(_)) => true,
        ActionView::Finish(_) => false,
        _ => true,
    }
}

/// Whether a step that ended the run told the host how it ended.
pub open spec fn told(s: (Machine, ActionView)) -> bool {
    s.0.control matches Control::Done(end) ==> s.1 == ActionView::Finish(
        crate::model::outcome_of(s.0.store, end),
    )
}

proof fn lemma_run_block_goes_on<'a>(
    m: Machine<'a>,
    block: &'a crate::tree::Block,
    next: usize,
    scoped: bool,
)
    ensures
        goes_on(crate::model::run_block(m, block, next, scoped)),
        goes_on(crate::model::visit_block(m, block, scoped)),
{
}

proof fn lemma_visit_goes_on<'a>(m: Machine<'a>, node: &'a crate::tree::Expression)
    ensures
        goes_on(crate::model::visit_expression(m, node)),
{
}

proof fn lemma_call_goes_on<'a>(m: Machine<'a>, name: Seq<char>, args: Seq<Value>, world: World)
    ensures
        goes_on(crate::model::call_func(m, name, args, world)),
{
    match crate::model::find_callee(m.program, name) {
        Some(callee) => {
            let entered = m.with_scopes(push_frame(m.scopes));
            let bound = crate::model::bind_params(
                entered,
                callee,
                args,
                crate::model::bound_count(m.program, callee, args),
            );
            lemma_run_block_goes_on(
                bound.pushed(Frame::CallBody),
                crate::model::body_of(m.program, callee),
                0,
                false,
            );
        },
        None => {},
    }
}

proof fn lemma_finish_goes_on<'a>(m: Machine<'a>, frame: Frame<'a>, value: Value, world: World)
    requires
        !(frame is Driver),
    ensures
        goes_on(crate::model::deliver(m, frame, value, world)),
{
    match frame {
        Frame::Dispatch(node) => {
            match &node.func {
                crate::tree::CallBase::Ident(name) => {
                    if m.operands.len() >= node.args@.len() {
                        let from = m.operands.len() - node.args@.len();
                        lemma_call_goes_on(
                            crate::model::operands_upto(m, from),
                            name@,
                            crate::model::operands_from(m, from),
                            world,
                        );
                    }
                },
                _ => {},
            }
        },
        Frame::Block(block, next, scoped) => {
            lemma_run_block_goes_on(m, block, next, scoped);
        },
        Frame::WhileStart(node) => {
            lemma_run_block_goes_on(m.pushed(Frame::WhileBody(node)), &node.block, 0, true);
        },
        Frame::IfCond(node) => {
            lemma_run_block_goes_on(m, &node.then_block, 0, true);
            match &node.else_block {
                Some(block) => {
                    lemma_run_block_goes_on(m, block, 0, true);
                },
                None => {},
            }
        },
        _ => {},
    }
}

proof fn lemma_unwind_goes_on<'a>(m: Machine<'a>, frame: Frame<'a>, interrupt: InterruptKind)
    requires
        !(frame is Driver),
    ensures
        goes_on(crate::model::unwind(m, frame, interrupt)),
{
}

proof fn lemma_resume_goes_on<'a>(m: Machine<'a>, pending: crate::state::Pending, event: EventView)
    ensures
        goes_on(crate::model::resume(m, pending, event)),
{
}

/// How a run can end in order: with status 0, or on an exit that reached the
/// driver.
proof fn lemma_exits(m: Machine, event: EventView, world: World)
    ensures
        !(m.control is Done) ==> match step(m, event, world).1 {
            ActionView::Finish(OutcomeView::Exit(code)) => code == 0 || m.control
                == Control::Signal(InterruptKind::Exit(code)),
            _ => true,
        },
{
    match m.control {
        Control::Eval(node) => {
            lemma_visit_goes_on(m, node);
        },
        Control::Value(value) => {
            if m.stack.len() > 0 {
                match m.stack.last() {
                    Frame::Driver(stage) => {
                        lemma_drive_exits(m.popped(), stage, value, world);
                    },
                    frame => {
                        lemma_finish_goes_on(m.popped(), frame, value, world);
                    },
                }
            }
        },
        Control::Signal(interrupt) => {
            if m.stack.len() > 0 {
                match m.stack.last() {
                    Frame::Driver(stage) => {},
                    frame => {
                        lemma_unwind_goes_on(m.popped(), frame, interrupt);
                    },
                }
            }
        },
        Control::Waiting => {
            if m.stack.len() > 0 {
                match m.stack.last() {
                    Frame::Await(pending) => {
                        lemma_resume_goes_on(m.popped(), pending, event);
                    },
                    _ => {},
                }
            }
        },
        Control::Done(_) => {},
    }
}

/// The driver ends a run in order with status 0 only.
proof fn lemma_drive_exits(m: Machine, stage: Stage, value: Value, world: World)
    ensures
        match crate::model::drive(m, stage, value, world).1 {
            ActionView::Finish(OutcomeView::Exit(code)) => code == 0,
            _ => true,
        },
{
    match stage {
        Stage::Seed(next) => {
            lemma_call_goes_on(
                m.pushed(Frame::Driver(Stage::Apply)),
                "Bewerbung"@,
                Seq::empty(),
                world,
            );
        },
        Stage::Apply => {
            match world.entropy {
                Some(number) => {
                    lemma_call_goes_on(
                        m.pushed(Frame::Driver(Stage::Enroll(number as i64))),
                        "Einschreibung"@,
                        seq![Value::Int(number as i64)],
                        world,
                    );
                },
                None => {},
            }
        },
        Stage::Enroll(number) => {
            lemma_call_goes_on(
                m.pushed(Frame::Driver(Stage::Study)),
                "Studium"@,
                seq![Value::Int(number)],
                world,
            );
        },
        Stage::Study => {},
    }
}

/// How a run can end: a step ends it on a defect, on an interrupt that reached
/// the driver, or on what a phase gave the driver.
proof fn lemma_calls_go_on(m: Machine, event: EventView, world: World)
    requires
        m.store.fits(),
    ensures
        !(m.control is Done) ==> match step(m, event, world).1 {
            ActionView::Finish(OutcomeView::Exit(code)) => code == 0 || m.control
                == Control::Signal(InterruptKind::Exit(code)),
            ActionView::Finish(OutcomeView::Error(message)) => (m.control
                matches Control::Signal(InterruptKind::Error(id)) && m.store.text(
                Value::String(id),
            ) == Some(message)) || (m.control is Value && m.stack.len() > 0 && m.stack.last()
                == Frame::Driver(Stage::Apply) && m.store.text(m.control->Value_0) is Some
                && m.store.text(m.control->Value_0)->Some_0.len() == 0 && message
                == rejection_text()),
            _ => true,
        },
{
    match m.control {
        Control::Eval(node) => {
            lemma_visit_goes_on(m, node);
        },
        Control::Value(value) => {
            if m.stack.len() > 0 {
                match m.stack.last() {
                    Frame::Driver(stage) => {
                        lemma_drive_ends(m.popped(), stage, value, world);
                    },
                    frame => {
                        lemma_finish_goes_on(m.popped(), frame, value, world);
                    },
                }
            }
        },
        Control::Signal(interrupt) => {
            if m.stack.len() > 0 {
                match m.stack.last() {
                    Frame::Driver(stage) => {},
                    frame => {
                        lemma_unwind_goes_on(m.popped(), frame, interrupt);
                    },
                }
            }
        },
        Control::Waiting => {
            if m.stack.len() > 0 {
                match m.stack.last() {
                    Frame::Await(pending) => {
                        lemma_resume_goes_on(m.popped(), pending, event);
                    },
                    _ => {},
                }
            }
        },
        Control::Done(_) => {},
    }
}

/// How the driver can end a run when a stage gave a value: in order with
/// status 0, or with the rejection after an empty text from the first phase.
proof fn lemma_drive_ends(m: Machine, stage: Stage, value: Value, world: World)
    requires
        m.store.fits(),
    ensures
        match crate::model::drive(m, stage, value, world).1 {
            ActionView::Finish(OutcomeView::Exit(code)) => code == 0,
            ActionView::Finish(OutcomeView::Error(message)) => stage == Stage::Apply
                && m.store.text(value) is Some && m.store.text(value)->Some_0.len() == 0
                && message == rejection_text(),
            _ => true,
        },
{
    match stage {
        Stage::Seed(next) => {
            lemma_call_goes_on(
                m.pushed(Frame::Driver(Stage::Apply)),
                "Bewerbung"@,
                Seq::empty(),
                world,
            );
        },
        Stage::Apply => {
            match world.entropy {
                Some(number) => {
                    lemma_call_goes_on(
                        m.pushed(Frame::Driver(Stage::Enroll(number as i64))),
                        "Einschreibung"@,
                        seq![Value::Int(number as i64)],
                        world,
                    );
                },
                None => {},
            }
        },
        Stage::Enroll(number) => {
            lemma_call_goes_on(
                m.pushed(Frame::Driver(Stage::Study)),
                "Studium"@,
                seq![Value::Int(number)],
                world,
            );
        },
        Stage::Study => {},
    }
}

proof fn lemma_told_block<'a>(
    m: Machine<'a>,
    block: &'a crate::tree::Block,
    next: usize,
    scoped: bool,
)
    ensures
        told(crate::model::run_block(m, block, next, scoped)),
        told(crate::model::visit_block(m, block, scoped)),
{
}

proof fn lemma_told_call<'a>(m: Machine<'a>, name: Seq<char>, args: Seq<Value>, world: World)
    ensures
        told(crate::model::call_func(m, name, args, world)),
{
    match crate::model::find_callee(m.program, name) {
        Some(callee) => {
            let entered = m.with_scopes(push_frame(m.scopes));
            let bound = crate::model::bind_params(
                entered,
                callee,
                args,
                crate::model::bound_count(m.program, callee, args),
            );
            lemma_told_block(
                bound.pushed(Frame::CallBody),
                crate::model::body_of(m.program, callee),
                0,
                false,
            );
        },
        None => {},
    }
}

proof fn lemma_told_drive(m: Machine, stage: Stage, value: Value, world: World)
    ensures
        told(crate::model::drive(m, stage, value, world)),
{
    match stage {
        Stage::Seed(next) => {
            lemma_told_call(
                m.pushed(Frame::Driver(Stage::Apply)),
                "Bewerbung"@,
                Seq::empty(),
                world,
            );
        },
        Stage::Apply => {
            match world.entropy {
                Some(number) => {
                    lemma_told_call(
                        m.pushed(Frame::Driver(Stage::Enroll(number as i64))),
                        "Einschreibung"@,
                        seq![Value::Int(number as i64)],
                        world,
                    );
                },
                None => {},
            }
        },
        Stage::Enroll(number) => {
            lemma_told_call(
                m.pushed(Frame::Driver(Stage::Study)),
                "Studium"@,
                seq![Value::Int(number)],
                world,
            );
        },
        Stage::Study => {},
    }
}

proof fn lemma_told_deliver<'a>(m: Machine<'a>, frame: Frame<'a>, value: Value, world: World)
    ensures
        told(crate::model::deliver(m, frame, value, world)),
{
    match frame {
        Frame::Driver(stage) => {
            lemma_told_drive(m, stage, value, world);
        },
        Frame::Dispatch(node) => {
            match &node.func {
                crate::tree::CallBase::Ident(name) => {
                    if m.operands.len() >= node.args@.len() {
                        let from = m.operands.len() - node.args@.len();
                        lemma_told_call(
                            crate::model::operands_upto(m, from),
                            name@,
                            crate::model::operands_from(m, from),
                            world,
                        );
                    }
                },
                _ => {},
            }
        },
        Frame::Block(block, next, scoped) => {
            lemma_told_block(m, block, next, scoped);
        },
        Frame::WhileStart(node) => {
            lemma_told_block(m.pushed(Frame::WhileBody(node)), &node.block, 0, true);
        },
        Frame::IfCond(node) => {
            lemma_told_block(m, &node.then_block, 0, true);
            match &node.else_block {
                Some(block) => {
                    lemma_told_block(m, block, 0, true);
                },
                None => {},
            }
        },
        Frame::Cast(node) => {
            lemma_told_cast(m, node, value);
        },
        _ => {},
    }
}

proof fn lemma_told_cast<'a>(m: Machine<'a>, node: &'a CastExpr, value: Value)
    ensures
        told(finish_cast(m, node, value)),
{
}

proof fn lemma_told_step(m: Machine, event: EventView, world: World)
    ensures
        told(step(m, event, world)),
{
    match m.control {
        Control::Value(value) => {
            if m.stack.len() > 0 {
                lemma_told_deliver(m.popped(), m.stack.last(), value, world);
            }
        },
        _ => {},
    }
}

} // verus!
