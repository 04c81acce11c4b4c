//! What holds along a whole run, however many steps it takes.

use vstd::prelude::*;
use crate::host::{ActionView, EventView, OutcomeView};
use crate::model::{
    bind_params,
    call_func,
    deliver,
    initial,
    keep,
    leave,
    operands_upto,
    resume,
    run_block,
    step,
    unwind,
    visit_block,
    visit_expression,
    visit_statement,
    Step,
};
use crate::ends::{law_step_lightens, taken_on, weight};
use crate::refs::{kept, law_stays_kept};
use crate::safety::{
    frame_scopes,
    in_order,
    law_starts_in_order,
    law_stays_in_order,
    scopes_held,
};
use crate::scope::push_frame;
use crate::state::{Callee, Control, Frame, Machine, Pending, VariableView};
use crate::tree::{Block, CallBase, Expression, Program, Statement};
use crate::value::{InterruptKind, Value};
use crate::world::World;

verus! {

/// What the host and the world give to one step.
pub struct Input {
    pub event: EventView,
    pub world: World,
}

/// The machine after one step with the given input.
#[verifier::opaque]
pub open spec fn next<'a>(m: Machine<'a>, input: Input) -> Machine<'a> {
    step(m, input.event, input.world).0
}

/// The machine after it took one step for each input, in order.
pub open spec fn after<'a>(m: Machine<'a>, inputs: Seq<Input>) -> Machine<'a>
    decreases inputs.len(),
{
    if inputs.len() == 0 {
        m
    } else {
        next(after(m, inputs.drop_last()), inputs.last())
    }
}

proof fn lemma_next_in_order(m: Machine, input: Input)
    requires
        in_order(m),
    ensures
        in_order(next(m, input)),
{
    reveal(next);
    law_stays_in_order(m, input.event, input.world);
}

/// Every state of a run that started in order is in order.
pub proof fn law_run_in_order(m: Machine, inputs: Seq<Input>)
    requires
        in_order(m),
    ensures
        in_order(after(m, inputs)),
    decreases inputs.len(),
{
    if inputs.len() > 0 {
        law_run_in_order(m, inputs.drop_last());
        lemma_next_in_order(after(m, inputs.drop_last()), inputs.last());
    }
}

/// Every state of a run of a program, from its start, is in order: the
/// machine never stops for want of a frame, a scope or an operand.
pub proof fn law_every_state_in_order(
    program: &Program,
    environment: Seq<VariableView>,
    inputs: Seq<Input>,
)
    ensures
        in_order(after(initial(program, environment), inputs)),
{
    law_starts_in_order(program, environment);
    law_run_in_order(initial(program, environment), inputs);
}

/// Every state of a run that started holding together holds together, as
/// long as the cells and the heap objects can be counted in a machine word.
pub proof fn law_run_kept(m: Machine, inputs: Seq<Input>)
    requires
        kept(m),
        forall|j: int|
            0 <= j <= inputs.len() ==> (#[trigger] after(m, inputs.take(j))).store.fits(),
    ensures
        kept(after(m, inputs)),
    decreases inputs.len(),
{
    if inputs.len() > 0 {
        let shorter = inputs.drop_last();
        assert forall|j: int| 0 <= j <= shorter.len() implies (#[trigger] after(
            m,
            shorter.take(j),
        )).store.fits() by {
            assert(shorter.take(j) =~= inputs.take(j));
        }
        law_run_kept(m, shorter);
        reveal(next);
        law_stays_kept(after(m, shorter), inputs.last().event, inputs.last().world);
        assert(inputs.take(inputs.len() as int) =~= inputs);
    }
}

/// A defect that ends a run blames the tree or the host: the machine itself
/// never loses a frame, a scope, an operand, a cell or a heap object.
pub proof fn law_defects_are_not_the_machines(
    m: Machine,
    event: EventView,
    world: World,
    defect: crate::host::Defect,
)
    requires
        in_order(m),
        kept(m),
        step(m, event, world).1 == ActionView::Finish(OutcomeView::Defect(defect)),
    ensures
        defect != crate::host::Defect::Stuck,
        defect != crate::host::Defect::NoScope,
        defect != crate::host::Defect::Dangling,
{
    law_stays_in_order(m, event, world);
    law_stays_kept(m, event, world);
}

/// Whether some state of the run was about to unwind with an exit.
pub open spec fn exit_raised(m: Machine, inputs: Seq<Input>) -> bool {
    exists|k: int|
        0 <= k <= inputs.len() && (#[trigger] after(m, inputs.take(k))).control
            matches Control::Signal(InterruptKind::Exit(_))
}

/// A run in which no exit is raised ends with status 0, if it ends with a
/// status at all: whatever the program, the host and the world, the step that
/// ends such a run reports status 0.
pub proof fn law_run_status(
    program: &Program,
    environment: Seq<VariableView>,
    inputs: Seq<Input>,
    last: Input,
    code: i64,
)
    requires
        !exit_raised(initial(program, environment), inputs),
        !(after(initial(program, environment), inputs).control is Done),
        step(after(initial(program, environment), inputs), last.event, last.world).1
            == ActionView::Finish(OutcomeView::Exit(code)),
    ensures
        code == 0,
{
    let m = after(initial(program, environment), inputs);
    crate::laws::law_status(m, last.event, last.world, code);
    assert(inputs.take(inputs.len() as int) =~= inputs);
    assert(!(after(initial(program, environment), inputs.take(inputs.len() as int)).control
        matches Control::Signal(InterruptKind::Exit(_))));
}

// ---------------------------------------------------------------------------
// Scopes along a run
// ---------------------------------------------------------------------------
/// The frames of `b` are still there.
pub open spec fn frames_kept(b: Machine, m: Machine) -> bool {
    m.stack.len() >= b.stack.len() && m.stack.take(b.stack.len() as int) == b.stack
}

/// A step from `b` that touched none of the scopes of `b`: it may have entered
/// new ones.
pub open spec fn keeps(b: Machine, s: Step) -> bool {
    s.0.control is Done || {
        &&& frames_kept(b, s.0)
        &&& s.0.scopes.len() >= b.scopes.len()
        &&& s.0.scopes.take(b.scopes.len() as int) == b.scopes
    }
}

/// A step from `b` that touched no scope of `b` but the innermost, which it
/// may have declared a name in, or left.
pub open spec fn local(b: Machine, s: Step) -> bool {
    s.0.control is Done || {
        &&& frames_kept(b, s.0)
        &&& b.scopes.len() > 0 ==> {
            &&& s.0.scopes.len() >= b.scopes.len() - 1
            &&& s.0.scopes.take(b.scopes.len() - 1) == b.scopes.take(b.scopes.len() - 1)
        }
    }
}

proof fn lemma_keeps_local(b: Machine, s: Step)
    requires
        keeps(b, s),
    ensures
        local(b, s),
{
    if !(s.0.control is Done) && b.scopes.len() > 0 {
        assert(s.0.scopes.take(b.scopes.len() - 1) =~= s.0.scopes.take(
            b.scopes.len() as int,
        ).take(b.scopes.len() - 1));
    }
}

/// What is true of a machine relative to `b` stays true with a frame pushed.
proof fn lemma_kept_pushed(b: Machine, m: Machine, frame: Frame)
    requires
        frames_kept(b, m),
    ensures
        frames_kept(b, m.pushed(frame)),
        frames_kept(m, m.pushed(frame)),
{
    assert(m.pushed(frame).stack.take(b.stack.len() as int) =~= m.stack.take(
        b.stack.len() as int,
    ));
    assert(m.pushed(frame).stack.take(m.stack.len() as int) =~= m.stack);
}

proof fn lemma_kept_self(m: Machine)
    ensures
        frames_kept(m, m),
        m.scopes.take(m.scopes.len() as int) == m.scopes,
{
    assert(m.stack.take(m.stack.len() as int) =~= m.stack);
    assert(m.scopes.take(m.scopes.len() as int) =~= m.scopes);
}

/// A step that keeps to a machine which has the frames and scopes of `b` keeps
/// to `b`.
proof fn lemma_keeps_through(b: Machine, m: Machine, s: Step)
    requires
        frames_kept(b, m),
        m.scopes.len() >= b.scopes.len(),
        m.scopes.take(b.scopes.len() as int) == b.scopes,
        keeps(m, s),
    ensures
        keeps(b, s),
{
    if !(s.0.control is Done) {
        assert(s.0.stack.take(b.stack.len() as int) =~= s.0.stack.take(m.stack.len() as int).take(
            b.stack.len() as int,
        ));
        assert(s.0.scopes.take(b.scopes.len() as int) =~= s.0.scopes.take(
            m.scopes.len() as int,
        ).take(b.scopes.len() as int));
    }
}

/// The parts of a step that touch neither frames nor scopes.
proof fn lemma_keeps_simple(m: Machine, message: Seq<char>, action: ActionView, pending: Pending)
    ensures
        keeps(m, m.fail(message)),
        keeps(m, m.ask(action, pending)),
        keeps(m, m.text_value(message)),
        forall|control: Control| keeps(m, #[trigger] m.go(control)),
        forall|computed: crate::ops::Computed| keeps(m, #[trigger] m.settle(computed)),
        forall|cell: usize, computed: crate::ops::Computed|
            keeps(m, #[trigger] m.settle_into(cell, computed)),
{
    lemma_kept_self(m);
    lemma_kept_pushed(m, m, Frame::Await(pending));
    assert forall|computed: crate::ops::Computed| keeps(m, #[trigger] m.settle(computed)) by {
        match computed {
            crate::ops::Computed::Host(request, kind) => {
                lemma_kept_pushed(
                    m,
                    m,
                    Frame::Await(Pending::Value(kind)),
                );
            },
            _ => {},
        }
    }
    assert forall|cell: usize, computed: crate::ops::Computed|
        keeps(m, #[trigger] m.settle_into(cell, computed)) by {
        match computed {
            crate::ops::Computed::Host(request, kind) => {
                lemma_kept_pushed(
                    m,
                    m,
                    Frame::Await(Pending::Store(cell, kind)),
                );
            },
            _ => {},
        }
    }
}

proof fn lemma_keeps_push_eval<'a>(m: Machine<'a>, frame: Frame<'a>, node: &'a Expression)
    ensures
        keeps(m, m.pushed(frame).eval(node)),
{
    lemma_kept_self(m);
    lemma_kept_pushed(m, m, frame);
}

proof fn lemma_keeps_push_value<'a>(m: Machine<'a>, frame: Frame<'a>, value: Value)
    ensures
        keeps(m, m.pushed(frame).value(value)),
{
    lemma_kept_self(m);
    lemma_kept_pushed(m, m, frame);
}

proof fn lemma_keeps_statement<'a>(b: Machine<'a>, node: &'a Statement)
    ensures
        keeps(b, visit_statement(b, node)),
{
    lemma_kept_self(b);
    match node {
        Statement::Let(inner) => {
            lemma_keeps_push_eval(b, Frame::Let(inner), &inner.expr);
        },
        Statement::Aendere(inner) => {
            lemma_keeps_push_eval(b, Frame::Aendere(inner), &inner.expr);
        },
        Statement::Return(Some(expr)) => {
            lemma_keeps_push_eval(b, Frame::Return, expr);
        },
        Statement::While(inner) => {
            lemma_keeps_push_eval(b, Frame::WhileCond(inner), &inner.cond);
        },
        _ => {},
    }
}

/// Running a block keeps to the machine, but for the scope of the block, which
/// goes when the block is over.
proof fn lemma_local_run_block<'a>(b: Machine<'a>, block: &'a Block, next: usize, scoped: bool)
    ensures
        local(b, run_block(b, block, next, scoped)),
        !scoped ==> keeps(b, run_block(b, block, next, scoped)),
        run_block(b, block, next, scoped).0.control is Done || run_block(
            b,
            block,
            next,
            scoped,
        ).0.stack.len() == b.stack.len() || (run_block(b, block, next, scoped).0.stack.len()
            > b.stack.len() && frame_scopes(
            run_block(b, block, next, scoped).0.stack[b.stack.len() as int],
        ) == if scoped {
            1nat
        } else {
            0nat
        } && run_block(b, block, next, scoped).0.scopes.len() >= b.scopes.len()
            && run_block(b, block, next, scoped).0.scopes.take(b.scopes.len() as int)
            == b.scopes),
        run_block(b, block, next, scoped).0.stack.len() == b.stack.len() ==> run_block(
            b,
            block,
            next,
            scoped,
        ).0.scopes == leave(b, scoped).scopes,
{
    lemma_kept_self(b);
    if next < block.stmts@.len() {
        let frame = Frame::Block(block, (next + 1) as usize, scoped);
        lemma_kept_pushed(b, b, frame);
        lemma_keeps_statement(b.pushed(frame), &block.stmts@[next as int]);
        lemma_keeps_through(
            b,
            b.pushed(frame),
            visit_statement(b.pushed(frame), &block.stmts@[next as int]),
        );
        lemma_keeps_local(b, run_block(b, block, next, scoped));
        let s = run_block(b, block, next, scoped);
        if !(s.0.control is Done) {
            let above = b.stack.len() + 1;
            assert(s.0.stack.take(above as int) == b.pushed(frame).stack);
            assert(s.0.stack[b.stack.len() as int] == s.0.stack.take(above as int)[b.stack.len()
                as int]);
        }
    } else {
        match &block.expr {
            Some(tail) => {
                lemma_kept_pushed(b, b, Frame::BlockEnd(scoped));
                lemma_keeps_push_eval(b, Frame::BlockEnd(scoped), tail);
                lemma_keeps_local(b, run_block(b, block, next, scoped));
            },
            None => {
                assert(leave(b, scoped).scopes.take(b.scopes.len() - 1) =~= b.scopes.take(
                    b.scopes.len() - 1,
                ));
            },
        }
    }
}

proof fn lemma_keeps_block<'a>(b: Machine<'a>, block: &'a Block, new_scope: bool)
    ensures
        keeps(b, visit_block(b, block, new_scope)),
{
    lemma_kept_self(b);
    if new_scope {
        let entered = b.with_scopes(push_frame(b.scopes));
        lemma_local_run_block(entered, block, 0, true);
        let s = run_block(entered, block, 0, true);
        assert(entered.scopes.take(b.scopes.len() as int) =~= b.scopes);
        if !(s.0.control is Done) {
            assert(s.0.scopes.take(entered.scopes.len() - 1) == entered.scopes.take(
                entered.scopes.len() - 1,
            ));
        }
    } else {
        lemma_local_run_block(b, block, 0, false);
    }
}

proof fn lemma_keeps_items<'a>(b: Machine<'a>, node: &'a crate::tree::ListExpr, done: usize)
    ensures
        keeps(b, crate::model::next_item(b, node, done)),
{
    lemma_kept_self(b);
    if done < node.values@.len() {
        lemma_keeps_push_eval(b, Frame::ListItems(node, done), &node.values@[done as int]);
    }
}

proof fn lemma_keeps_fields<'a>(b: Machine<'a>, node: &'a crate::tree::ObjectExpr, done: usize)
    ensures
        keeps(b, crate::model::next_field(b, node, done)),
{
    lemma_kept_self(b);
    if done < node.members@.len() {
        lemma_keeps_push_eval(
            b,
            Frame::ObjectFields(node, done),
            &node.members@[done as int].value,
        );
    }
}

proof fn lemma_keeps_args<'a>(b: Machine<'a>, node: &'a crate::tree::CallExpr, done: usize)
    ensures
        keeps(b, crate::model::next_arg(b, node, done)),
{
    lemma_kept_self(b);
    if done < node.args@.len() {
        lemma_keeps_push_eval(b, Frame::Args(node, done), &node.args@[done as int]);
    } else {
        lemma_keeps_push_value(b, Frame::Dispatch(node), Value::Unit);
    }
}

/// Starting to evaluate an expression touches no scope that is there.
proof fn lemma_keeps_expression<'a>(b: Machine<'a>, node: &'a Expression)
    ensures
        keeps(b, visit_expression(b, node)),
{
    lemma_kept_self(b);
    lemma_keeps_simple(b, Seq::empty(), ActionView::Continue, Pending::Http(0));
    match node {
        Expression::Block(block) => {
            lemma_keeps_block(b, &**block, true);
        },
        Expression::If(inner) => {
            lemma_keeps_push_eval(b, Frame::IfCond(&**inner), &inner.cond);
        },
        Expression::String(s) => {
            lemma_keeps_simple(b, s@, ActionView::Continue, Pending::Http(0));
        },
        Expression::List(inner) => {
            lemma_keeps_items(b, inner, 0);
        },
        Expression::Prefix(inner) => {
            lemma_keeps_push_eval(b, Frame::Prefix(&**inner), &inner.expr);
        },
        Expression::Infix(inner) => {
            lemma_keeps_push_eval(b, Frame::And(&**inner), &inner.lhs);
            lemma_keeps_push_eval(b, Frame::Or(&**inner), &inner.lhs);
            lemma_keeps_push_eval(b, Frame::InfixLhs(&**inner), &inner.lhs);
        },
        Expression::Assign(inner) => {
            lemma_keeps_push_eval(b, Frame::Assign(&**inner), &inner.expr);
        },
        Expression::Call(inner) => {
            lemma_keeps_args(b, &**inner, 0);
        },
        Expression::Cast(inner) => {
            lemma_keeps_push_eval(b, Frame::Cast(&**inner), &inner.expr);
        },
        Expression::Member(inner) => {
            lemma_keeps_push_eval(b, Frame::Member(&**inner), &inner.expr);
        },
        Expression::Index(inner) => {
            lemma_keeps_push_eval(b, Frame::IndexBase(&**inner), &inner.expr);
        },
        Expression::Object(inner) => {
            lemma_keeps_fields(b, inner, 0);
        },
        _ => {},
    }
}

proof fn lemma_bind_params_scopes(m: Machine, callee: Callee, args: Seq<Value>, n: nat)
    requires
        m.scopes.len() > 0,
    ensures
        bind_params(m, callee, args, n).stack == m.stack,
        bind_params(m, callee, args, n).scopes.len() == m.scopes.len(),
        bind_params(m, callee, args, n).scopes.take(m.scopes.len() - 1) == m.scopes.take(
            m.scopes.len() - 1,
        ),
    decreases n,
{
    if n > 0 {
        lemma_bind_params_scopes(m, callee, args, (n - 1) as nat);
        let before = bind_params(m, callee, args, (n - 1) as nat);
        let after = bind_params(m, callee, args, n);
        assert(after.scopes.take(m.scopes.len() - 1) =~= before.scopes.take(m.scopes.len() - 1));
    }
}

/// A call touches no scope that is there: the callee runs in a new one.
proof fn lemma_keeps_call(b: Machine, name: Seq<char>, args: Seq<Value>, world: World)
    ensures
        keeps(b, call_func(b, name, args, world)),
{
    lemma_kept_self(b);
    lemma_keeps_simple(b, crate::messages::money_text(), ActionView::Continue, Pending::Http(0));
    if name == "Aufgeben"@ {
    } else if name == "Drucke"@ {
        match crate::codec::export_values(b.store, args) {
            Some(copies) => {
                lemma_keeps_simple(
                    b,
                    Seq::empty(),
                    ActionView::Write(crate::codec::render_line(copies)),
                    Pending::Value(crate::state::Expect::Nothing),
                );
            },
            None => {},
        }
    } else if name == "Zergliedere_JSON"@ {
        if args.len() > 0 {
            match b.store.text(args[0]) {
                Some(text) => {
                    lemma_keeps_simple(
                        b,
                        Seq::empty(),
                        ActionView::Deserialize(text),
                        Pending::Value(crate::state::Expect::Data),
                    );
                },
                None => {},
            }
        }
    } else if name == "Gliedere_JSON"@ {
        if args.len() > 0 {
            match crate::codec::export_value(b.store, args[0]) {
                Some(copy) => {
                    lemma_keeps_simple(
                        b,
                        Seq::empty(),
                        ActionView::Serialize(copy),
                        Pending::Value(crate::state::Expect::Text),
                    );
                },
                None => {},
            }
        }
    } else if name == "Formatiere"@ {
        if args.len() > 0 {
            match b.store.text(args[0]) {
                Some(template) => match crate::codec::export_values(b.store, args.skip(1)) {
                    Some(copies) => {
                        lemma_keeps_simple(
                            b,
                            Seq::empty(),
                            ActionView::Format { template, args: copies },
                            Pending::Value(crate::state::Expect::Text),
                        );
                    },
                    None => {},
                },
                None => {},
            }
        }
    } else if name == "Zeit"@ {
    } else if name == "Http"@ {
        match crate::model::http_request(b.store, args) {
            Some(request) => match args[4] {
                Value::Ptr(cell) => {
                    lemma_keeps_simple(b, Seq::empty(), request, Pending::Http(cell));
                },
                _ => {},
            },
            None => {},
        }
    } else if name == "Schlummere"@ {
        if args.len() > 0 && args[0] is Float {
            lemma_keeps_simple(
                b,
                Seq::empty(),
                ActionView::Sleep(args[0]->Float_0),
                Pending::Value(crate::state::Expect::Nothing),
            );
        }
    } else if name == "Geld"@ {
    } else if name == "Umgebungsvariablen"@ {
    } else {
        match crate::model::find_callee(b.program, name) {
            Some(callee) => {
                let entered = b.with_scopes(push_frame(b.scopes));
                let n = crate::model::bound_count(b.program, callee, args);
                lemma_bind_params_scopes(entered, callee, args, n);
                let bound = bind_params(entered, callee, args, n);
                assert(entered.scopes.take(b.scopes.len() as int) =~= b.scopes);
                lemma_kept_pushed(b, bound, Frame::CallBody);
                lemma_local_run_block(
                    bound.pushed(Frame::CallBody),
                    crate::model::body_of(b.program, callee),
                    0,
                    false,
                );
                lemma_keeps_through(
                    b,
                    bound.pushed(Frame::CallBody),
                    run_block(
                        bound.pushed(Frame::CallBody),
                        crate::model::body_of(b.program, callee),
                        0,
                        false,
                    ),
                );
            },
            None => {},
        }
    }
}

/// Taking up the host's answer touches no scope.
proof fn lemma_keeps_resume(b: Machine, pending: Pending, event: EventView)
    ensures
        keeps(b, resume(b, pending, event)),
{
    lemma_kept_self(b);
    match pending {
        Pending::Value(expect) => match crate::model::answer(b.store, expect, event) {
            crate::model::Answer::Failed(reason) => {
                lemma_keeps_simple(b, reason, ActionView::Continue, pending);
            },
            _ => {},
        },
        Pending::Store(cell, expect) => match crate::model::answer(b.store, expect, event) {
            crate::model::Answer::Failed(reason) => {
                lemma_keeps_simple(b, reason, ActionView::Continue, pending);
            },
            _ => {},
        },
        Pending::Http(cell) => match event {
            EventView::Failed(reason) => {
                lemma_keeps_simple(b, reason, ActionView::Continue, pending);
            },
            _ => {},
        },
        Pending::Parse(source) => match event {
            EventView::Failed(reason) => match b.store.text(source) {
                Some(text) => {
                    lemma_keeps_simple(
                        b,
                        crate::messages::parse_text(text, reason),
                        ActionView::Continue,
                        pending,
                    );
                },
                None => {},
            },
            _ => {},
        },
    }
}

/// Whether a frame stands for a scope of its own.
pub open spec fn holds_scope(frame: Frame) -> bool {
    frame_scopes(frame) == 1
}

/// Handing a value to a frame touches no scope but the innermost. A frame that
/// stands for no scope leaves the innermost scope in place.
proof fn lemma_local_deliver<'a>(b: Machine<'a>, frame: Frame<'a>, value: Value, world: World)
    requires
        !(frame is Driver),
    ensures
        local(b, deliver(b, frame, value, world)),
        !holds_scope(frame) ==> deliver(b, frame, value, world).0.control is Done || deliver(
            b,
            frame,
            value,
            world,
        ).0.scopes.len() >= b.scopes.len(),
{
    lemma_kept_self(b);
    lemma_keeps_simple(b, Seq::empty(), ActionView::Continue, Pending::Http(0));
    let s = deliver(b, frame, value, world);
    match frame {
        Frame::Global(index) => {
            if index < b.program.globals@.len() && b.scopes.len() > 0 {
                assert(s.0.scopes.take(b.scopes.len() - 1) =~= b.scopes.take(b.scopes.len() - 1));
            }
        },
        Frame::CallBody => {
            if b.scopes.len() > 0 {
                assert(s.0.scopes.take(b.scopes.len() - 1) =~= b.scopes.take(b.scopes.len() - 1));
            }
        },
        Frame::Args(node, done) => {
            if done < usize::MAX {
                lemma_keeps_args(keep(b, value), node, (done + 1) as usize);
                lemma_keeps_local(b, s);
            }
        },
        Frame::Dispatch(node) => {
            match &node.func {
                CallBase::Ident(name) => {
                    if b.operands.len() >= node.args@.len() {
                        let from = b.operands.len() - node.args@.len();
                        lemma_keeps_call(
                            operands_upto(b, from),
                            name@,
                            crate::model::operands_from(b, from),
                            world,
                        );
                    }
                },
                CallBase::Expr(callee) => {
                    lemma_keeps_push_eval(b, Frame::Callee(node), &**callee);
                },
            }
            lemma_keeps_local(b, s);
        },
        Frame::Callee(node) => {
            if b.operands.len() >= node.args@.len() {
                let from = b.operands.len() - node.args@.len();
                let taken = operands_upto(b, from);
                let args = crate::model::operands_from(b, from);
                match taken.store.bound(value) {
                    Some((base, name)) => match (
                        crate::codec::export_value(taken.store, base),
                        crate::codec::export_values(taken.store, args),
                    ) {
                        (Some(base), Some(args)) => {
                            lemma_keeps_simple(
                                taken,
                                Seq::empty(),
                                ActionView::Invoke { name, base, args },
                                Pending::Value(crate::state::Expect::Data),
                            );
                        },
                        _ => {},
                    },
                    None => {},
                }
            }
            lemma_keeps_local(b, s);
        },
        Frame::Block(block, next, scoped) => {
            lemma_local_run_block(b, block, next, scoped);
        },
        Frame::BlockEnd(scoped) => {
            if b.scopes.len() > 0 {
                assert(s.0.scopes.take(b.scopes.len() - 1) =~= b.scopes.take(b.scopes.len() - 1));
            }
        },
        Frame::Let(node) => {
            if b.scopes.len() > 0 {
                assert(s.0.scopes.take(b.scopes.len() - 1) =~= b.scopes.take(b.scopes.len() - 1));
            }
        },
        Frame::Aendere(node) => {
            lemma_keeps_local(b, s);
        },
        Frame::Return => {
            lemma_keeps_local(b, s);
        },
        Frame::WhileCond(node) => {
            lemma_kept_pushed(b, b, Frame::WhileStart(node));
            lemma_keeps_simple(
                b.pushed(Frame::WhileStart(node)),
                Seq::empty(),
                ActionView::Pause(crate::model::LOOP_DELAY),
                Pending::Value(crate::state::Expect::Nothing),
            );
            lemma_keeps_through(
                b,
                b.pushed(Frame::WhileStart(node)),
                b.pushed(Frame::WhileStart(node)).ask(
                    ActionView::Pause(crate::model::LOOP_DELAY),
                    Pending::Value(crate::state::Expect::Nothing),
                ),
            );
            lemma_keeps_local(b, s);
        },
        Frame::WhileStart(node) => {
            lemma_kept_pushed(b, b, Frame::WhileBody(node));
            lemma_keeps_block(b.pushed(Frame::WhileBody(node)), &node.block, true);
            lemma_keeps_through(
                b,
                b.pushed(Frame::WhileBody(node)),
                visit_block(b.pushed(Frame::WhileBody(node)), &node.block, true),
            );
            lemma_keeps_local(b, s);
        },
        Frame::WhileBody(node) => {
            lemma_keeps_push_eval(b, Frame::WhileCond(node), &node.cond);
            lemma_keeps_local(b, s);
        },
        Frame::IfCond(node) => {
            lemma_keeps_block(b, &node.then_block, true);
            match &node.else_block {
                Some(block) => {
                    lemma_keeps_block(b, block, true);
                },
                None => {},
            }
            lemma_keeps_local(b, s);
        },
        Frame::ListItems(node, done) => {
            if done < usize::MAX {
                lemma_keeps_items(keep(b, value), node, (done + 1) as usize);
            }
            lemma_keeps_local(b, s);
        },
        Frame::Prefix(node) => {
            lemma_keeps_local(b, s);
        },
        Frame::And(node) => {
            lemma_keeps_local(b, s);
        },
        Frame::Or(node) => {
            lemma_keeps_local(b, s);
        },
        Frame::InfixLhs(node) => {
            lemma_keeps_push_eval(b, Frame::InfixRhs(node, value), &node.rhs);
            lemma_keeps_local(b, s);
        },
        Frame::InfixRhs(node, lhs) => {
            let (store, computed) = crate::model::binary(b.store, node.op, lhs, value);
            lemma_keeps_simple(
                b.with_store(store),
                Seq::empty(),
                ActionView::Continue,
                Pending::Http(0),
            );
            lemma_keeps_local(b, s);
        },
        Frame::Assign(node) => {
            match crate::model::target(b, node.assignee@, node.assignee_ptr_count as nat) {
                Ok(cell) => match crate::ops::assign_operator(node.op) {
                    Some(op) => {
                        let (store, computed) = crate::model::binary(
                            b.store,
                            op,
                            b.store.cells[cell as int],
                            value,
                        );
                        lemma_keeps_simple(
                            b.with_store(store),
                            Seq::empty(),
                            ActionView::Continue,
                            Pending::Http(0),
                        );
                    },
                    None => {},
                },
                Err(_) => {},
            }
            lemma_keeps_local(b, s);
        },
        Frame::Cast(node) => {
            lemma_keeps_cast(b, node, value);
            lemma_keeps_local(b, s);
        },
        Frame::Member(node) => {
            lemma_keeps_local(b, s);
        },
        Frame::IndexBase(node) => {
            lemma_keeps_push_eval(b, Frame::IndexAt(value), &node.index);
            lemma_keeps_local(b, s);
        },
        Frame::IndexAt(base) => {
            match (b.store.list(base), value) {
                (Some(items), Value::Int(i)) => {
                    lemma_keeps_simple(
                        b,
                        crate::messages::index_text(i),
                        ActionView::Continue,
                        Pending::Http(0),
                    );
                },
                _ => {},
            }
            lemma_keeps_local(b, s);
        },
        Frame::ObjectFields(node, done) => {
            if done < usize::MAX {
                lemma_keeps_fields(keep(b, value), node, (done + 1) as usize);
            }
            lemma_keeps_local(b, s);
        },
        _ => {
            lemma_keeps_local(b, s);
        },
    }
}

proof fn lemma_keeps_cast<'a>(b: Machine<'a>, node: &'a crate::tree::CastExpr, value: Value)
    ensures
        keeps(b, crate::model::finish_cast(b, node, value)),
{
    lemma_kept_self(b);
    lemma_keeps_simple(
        b,
        crate::messages::cast_text(
            crate::types::value_type_text(value),
            crate::types::type_text(node.as_type),
        ),
        ActionView::Continue,
        Pending::Http(0),
    );
    if !(node.from_type is Any) {
        match crate::ops::scalar_of(node.as_type) {
            Some(scalar) => match b.store.text(value) {
                Some(text) => {
                    let digits = crate::text::replaced(text, ',', '.');
                    lemma_keeps_simple(
                        b,
                        crate::messages::parse_text(digits, crate::text::integer_refusal(digits)),
                        ActionView::Continue,
                        Pending::Http(0),
                    );
                    lemma_keeps_simple(
                        b.with_store(b.store.with_text(digits)),
                        Seq::empty(),
                        ActionView::ParseFloat(digits),
                        Pending::Parse(Value::String(b.store.heap.len() as usize)),
                    );
                },
                None => {},
            },
            None => {},
        }
    }
}

/// Handing an interrupt to a frame touches no scope but the innermost, and
/// that only to leave it.
proof fn lemma_local_unwind<'a>(b: Machine<'a>, frame: Frame<'a>, interrupt: InterruptKind)
    requires
        !(frame is Driver),
    ensures
        local(b, unwind(b, frame, interrupt)),
        !holds_scope(frame) ==> keeps(b, unwind(b, frame, interrupt)),
{
    lemma_kept_self(b);
    let s = unwind(b, frame, interrupt);
    match frame {
        Frame::WhileBody(node) => {
            lemma_keeps_push_eval(b, Frame::WhileCond(node), &node.cond);
            lemma_keeps_local(b, s);
        },
        Frame::CallBody => {
            if b.scopes.len() > 0 {
                assert(leave(b, true).scopes.take(b.scopes.len() - 1) =~= b.scopes.take(
                    b.scopes.len() - 1,
                ));
            }
        },
        Frame::Block(_, _, scoped) => {
            if b.scopes.len() > 0 {
                assert(leave(b, scoped).scopes.take(b.scopes.len() - 1) =~= b.scopes.take(
                    b.scopes.len() - 1,
                ));
            }
        },
        Frame::BlockEnd(scoped) => {
            if b.scopes.len() > 0 {
                assert(leave(b, scoped).scopes.take(b.scopes.len() - 1) =~= b.scopes.take(
                    b.scopes.len() - 1,
                ));
            }
        },
        _ => {
            lemma_keeps_local(b, s);
        },
    }
}

/// The frames up to a place of the stack hold no more scopes than all frames.
proof fn lemma_scopes_held_take(stack: Seq<Frame>, i: int)
    requires
        0 <= i <= stack.len(),
    ensures
        scopes_held(stack.take(i)) <= scopes_held(stack),
        i < stack.len() ==> scopes_held(stack.take(i + 1)) == scopes_held(stack.take(i))
            + frame_scopes(stack[i]),
    decreases stack.len() - i,
{
    if i == stack.len() {
        assert(stack.take(i) =~= stack);
    } else {
        assert(stack.take(i + 1).drop_last() =~= stack.take(i));
        assert(stack.take(i + 1).last() == stack[i]);
        lemma_scopes_held_take(stack, i + 1);
    }
}

/// The number of scopes outside the scope of the frame at place `h`.
pub open spec fn scopes_outside(m: Machine, h: int) -> int {
    (1 + scopes_held(m.stack.take(h))) as int
}

/// What a step does to the scopes outside the scope of a frame: nothing. As
/// long as the frame or one that took its place stands, the chain outside is
/// as it was; once the frame is gone, the chain outside is the whole chain.
pub open spec fn scope_step(m: Machine, h: int, after: Machine) -> bool {
    ||| after.control is Done
    ||| {
        &&& after.stack.len() > h
        &&& after.stack.take(h) == m.stack.take(h)
        &&& holds_scope(after.stack[h])
        &&& after.scopes.len() > scopes_outside(m, h)
        &&& after.scopes.take(scopes_outside(m, h)) == m.scopes.take(scopes_outside(m, h))
    }
    ||| {
        &&& after.stack == m.stack.take(h)
        &&& after.scopes == m.scopes.take(scopes_outside(m, h))
    }
}

proof fn lemma_scope_step(m: Machine, event: EventView, world: World, h: int)
    requires
        in_order(m),
        !(m.control is Done),
        0 <= h < m.stack.len(),
        holds_scope(m.stack[h]),
    ensures
        scope_step(m, h, step(m, event, world).0),
{
    let s = step(m, event, world);
    let k = scopes_outside(m, h);
    let top = m.stack.len() - 1;
    law_stays_in_order(m, event, world);
    lemma_scopes_held_take(m.stack, h);
    lemma_scopes_held_take(m.stack, h + 1);
    assert(m.scopes.len() >= k + 1);
    // The frames are in order, so the driver stands at the bottom only.
    assert(crate::safety::frame_fits(m.program, m.stack[top], top == 0, true));
    assert(crate::safety::frame_fits(m.program, m.stack[h], h == 0, h == top));
    if s.0.control is Done {
    } else {
        // What the step left of the machine it started from.
        let b = if m.control is Eval {
            m
        } else {
            m.popped()
        };
        assert(local(b, s) && (top > h || m.control is Eval ==> s.0.scopes.len() >= m.scopes.len()
            - 1)) by {
            match m.control {
                Control::Eval(node) => {
                    lemma_keeps_expression(m, node);
                    lemma_keeps_local(m, s);
                },
                Control::Value(value) => {
                    lemma_local_deliver(b, m.stack.last(), value, world);
                },
                Control::Signal(interrupt) => {
                    lemma_local_unwind(b, m.stack.last(), interrupt);
                },
                Control::Waiting => {
                    match m.stack.last() {
                        Frame::Await(pending) => {
                            lemma_keeps_resume(b, pending, event);
                            lemma_keeps_local(b, s);
                        },
                        _ => {},
                    }
                },
                Control::Done(_) => {},
            }
        }
        assert(s.0.stack.take(h) =~= s.0.stack.take(b.stack.len() as int).take(h));
        assert(b.stack.take(h) =~= m.stack.take(h));
        assert(s.0.scopes.take(k) =~= s.0.scopes.take(b.scopes.len() - 1).take(k));
        assert(m.scopes.take(k) =~= m.scopes.take(b.scopes.len() - 1).take(k));
        lemma_scopes_held_take(s.0.stack, h);
        if s.0.stack.len() > h {
            lemma_scopes_held_take(s.0.stack, h + 1);
            if b.stack.len() > h {
                assert(s.0.stack[h] == s.0.stack.take(b.stack.len() as int)[h]);
            } else {
                // The frame itself was on top: what took its place holds the scope.
                match (m.control, m.stack.last()) {
                    (Control::Value(value), Frame::Block(block, next, scoped)) => {
                        lemma_local_run_block(b, block, next, scoped);
                    },
                    _ => {},
                }
            }
        } else {
            assert(s.0.stack =~= s.0.stack.take(h));
            assert(s.0.scopes =~= s.0.scopes.take(k));
        }
    }
}

/// A run that is over stays as it is, whatever is put into it.
pub proof fn law_run_stays_over(m: Machine, inputs: Seq<Input>)
    requires
        m.control is Done,
    ensures
        after(m, inputs) == m,
    decreases inputs.len(),
{
    if inputs.len() > 0 {
        law_run_stays_over(m, inputs.drop_last());
        reveal(next);
        crate::laws::law_done_stays(m, inputs.last().event, inputs.last().world);
    }
}

/// A run can be taken in two parts.
pub proof fn law_run_in_parts(m: Machine, inputs: Seq<Input>, j: int)
    requires
        0 <= j <= inputs.len(),
    ensures
        after(m, inputs) == after(after(m, inputs.take(j)), inputs.skip(j)),
    decreases inputs.len() - j,
{
    if j == inputs.len() {
        assert(inputs.take(j) =~= inputs);
        assert(inputs.skip(j) =~= Seq::<Input>::empty());
    } else {
        law_run_in_parts(m, inputs.drop_last(), j);
        assert(inputs.drop_last().take(j) =~= inputs.take(j));
        assert(inputs.drop_last().skip(j) =~= inputs.skip(j).drop_last());
        assert(inputs.skip(j).last() == inputs.last());
    }
}

/// Whatever runs inside a block, a loop body or a called function leaves the
/// scope chain outside alone, and once the block, body or call is over, the
/// chain is what it was outside: nothing that was declared inside is left.
///
/// The frame at place `h` stands for the scope of the block, body or call. The
/// run goes on while that frame, or one that took its place, stands.
pub proof fn law_scope_ends_with_its_frame(m: Machine, inputs: Seq<Input>, h: int)
    requires
        in_order(m),
        0 <= h < m.stack.len(),
        holds_scope(m.stack[h]),
        forall|j: int|
            0 <= j < inputs.len() ==> (#[trigger] after(m, inputs.take(j))).stack.len() > h,
        !(after(m, inputs).control is Done),
    ensures
        after(m, inputs).stack.len() >= h,
        after(m, inputs).stack.take(h) == m.stack.take(h),
        after(m, inputs).scopes.len() >= scopes_outside(m, h),
        after(m, inputs).scopes.take(scopes_outside(m, h)) == m.scopes.take(scopes_outside(m, h)),
        after(m, inputs).stack.len() == h ==> after(m, inputs).scopes == m.scopes.take(
            scopes_outside(m, h),
        ),
        after(m, inputs).stack.len() > h ==> holds_scope(after(m, inputs).stack[h]),
    decreases inputs.len(),
{
    let k = scopes_outside(m, h);
    lemma_scopes_held_take(m.stack, h);
    lemma_scopes_held_take(m.stack, h + 1);
    if inputs.len() == 0 {
        assert(m.scopes.take(k).len() == k);
    } else {
        let shorter = inputs.drop_last();
        let before = after(m, shorter);
        assert(inputs.take(inputs.len() - 1) =~= shorter);
        assert(before.stack.len() > h);
        if before.control is Done {
            reveal(next);
            crate::laws::law_done_stays(before, inputs.last().event, inputs.last().world);
        } else {
            assert forall|j: int| 0 <= j < shorter.len() implies (#[trigger] after(
                m,
                shorter.take(j),
            )).stack.len() > h by {
                assert(shorter.take(j) =~= inputs.take(j));
            }
            law_scope_ends_with_its_frame(m, shorter, h);
            law_run_in_order(m, shorter);
            assert(scopes_outside(before, h) == k);
            reveal(next);
            lemma_scope_step(before, inputs.last().event, inputs.last().world, h);
            let last = after(m, inputs);
            assert(last.scopes.take(k) =~= m.scopes.take(k)) by {
                assert(before.scopes.take(k) == m.scopes.take(k));
            }
            if last.stack.len() == h {
                assert(last.stack =~= last.stack.take(h));
            }
        }
    }
}

/// A binding declared in a block is gone after the block: when the evaluation
/// of a block expression has run its course, the stack and the scope chain
/// are what they were before it, whatever the block did.
///
/// The run starts with the block about to be evaluated, takes a first step
/// into the block, stays above the frames of before for as long as the inputs
/// but the last reach, and is back at them in the end.
pub proof fn law_block_leaves_no_binding<'a>(
    m: Machine<'a>,
    node: &'a Expression,
    first: Input,
    inputs: Seq<Input>,
)
    requires
        in_order(m),
        m.control == Control::Eval(node),
        node is Block,
        forall|j: int|
            0 <= j < inputs.len() ==> (#[trigger] after(next(m, first), inputs.take(j))).stack.len()
                > m.stack.len(),
        after(next(m, first), inputs).stack.len() == m.stack.len(),
        !(after(next(m, first), inputs).control is Done),
    ensures
        after(next(m, first), inputs).scopes == m.scopes,
        after(next(m, first), inputs).stack == m.stack,
{
    reveal(next);
    let h = m.stack.len() as int;
    let entered = m.with_scopes(push_frame(m.scopes));
    let inside = next(m, first);
    let block: &Block = &*node->Block_0;
    assert(inside == run_block(entered, block, 0, true).0);
    lemma_local_run_block(entered, block, 0, true);
    lemma_next_in_order(m, first);
    assert(m.stack.take(h) =~= m.stack);
    assert(entered.scopes.take(m.scopes.len() as int) =~= m.scopes);
    let end = after(inside, inputs);
    if inputs.len() == 0 {
        assert(leave(entered, true).scopes =~= m.scopes);
        assert(end.stack =~= end.stack.take(h));
    } else {
        assert(inputs.take(0) =~= Seq::<Input>::empty());
        assert(after(inside, inputs.take(0)) == inside);
        if inside.control is Done {
            law_run_stays_over(inside, inputs);
        } else {
            assert(inside.stack.take(h) == m.stack);
            assert(scopes_outside(inside, h) == m.scopes.len());
            assert(inside.scopes.take(m.scopes.len() as int) =~= inside.scopes.take(
                entered.scopes.len() as int,
            ).take(m.scopes.len() as int));
            law_scope_ends_with_its_frame(inside, inputs, h);
            assert(end.stack =~= end.stack.take(h));
        }
    }
}

// ---------------------------------------------------------------------------
// The end of a run
// ---------------------------------------------------------------------------
/// The work that a run took on, step by step: the rounds of its loops, the
/// bodies of the functions that it called, the initializers of its globals.
pub open spec fn spent(m: Machine, inputs: Seq<Input>) -> nat
    decreases inputs.len(),
{
    if inputs.len() == 0 {
        0
    } else {
        spent(m, inputs.drop_last()) + taken_on(after(m, inputs.drop_last()))
    }
}

proof fn lemma_next_over(m: Machine, input: Input)
    requires
        m.control is Done,
    ensures
        next(m, input) == m,
{
    reveal(next);
    crate::laws::law_done_stays(m, input.event, input.world);
}

/// A run that is not over has taken no more steps than the weight that it
/// lost and the work that it took on.
pub proof fn law_run_is_bounded(m: Machine, inputs: Seq<Input>)
    requires
        !(after(m, inputs).control is Done),
    ensures
        inputs.len() + weight(after(m, inputs)) <= weight(m) + spent(m, inputs),
    decreases inputs.len(),
{
    if inputs.len() > 0 {
        let before = after(m, inputs.drop_last());
        if before.control is Done {
            lemma_next_over(before, inputs.last());
        } else {
            law_run_is_bounded(m, inputs.drop_last());
            reveal(next);
            law_step_lightens(before, inputs.last().event, inputs.last().world);
        }
    }
}

/// A run ends: once it has taken more steps than its start weighs and than it
/// took on work, it is over. So a run in which the loops go round and the
/// functions are called only so often comes to its end, whatever the host
/// answers.
pub proof fn law_run_ends(m: Machine, inputs: Seq<Input>)
    requires
        inputs.len() > weight(m) + spent(m, inputs),
    ensures
        after(m, inputs).control is Done,
{
    if !(after(m, inputs).control is Done) {
        law_run_is_bounded(m, inputs);
    }
}

/// A run that is over was ended by one of its steps, and has been as that
/// step left it ever since.
proof fn lemma_ending_step(m: Machine, inputs: Seq<Input>) -> (j: int)
    requires
        !(m.control is Done),
        after(m, inputs).control is Done,
    ensures
        0 <= j < inputs.len(),
        !(after(m, inputs.take(j)).control is Done),
        next(after(m, inputs.take(j)), inputs[j]) == after(m, inputs),
    decreases inputs.len(),
{
    let shorter = inputs.drop_last();
    let before = after(m, shorter);
    assert(inputs.take(inputs.len() - 1) =~= shorter);
    if before.control is Done {
        let j = lemma_ending_step(m, shorter);
        assert(shorter.take(j) =~= inputs.take(j));
        lemma_next_over(before, inputs.last());
        j
    } else {
        inputs.len() - 1
    }
}

/// A run of a program in which no exit is raised, which takes on only so much
/// work, and which no error and no defect ends, ends with status 0.
pub proof fn law_run_ends_with_status_zero(
    program: &Program,
    environment: Seq<VariableView>,
    inputs: Seq<Input>,
)
    requires
        inputs.len() > weight(initial(program, environment)) + spent(
            initial(program, environment),
            inputs,
        ),
        !exit_raised(initial(program, environment), inputs),
        after(initial(program, environment), inputs).control matches Control::Done(end)
            ==> end is Exit,
    ensures
        after(initial(program, environment), inputs).control == Control::Done(
            crate::state::Final::Exit(0),
        ),
{
    let start = initial(program, environment);
    law_run_ends(start, inputs);
    let j = lemma_ending_step(start, inputs);
    let before = after(start, inputs.take(j));
    let code = after(start, inputs).control->Done_0->Exit_0;
    lemma_next_status(before, inputs[j], code);
    assert(!(after(start, inputs.take(j)).control matches Control::Signal(
        InterruptKind::Exit(_),
    )));
}

/// A step that ends a run with a status other than 0 takes up an exit with
/// that status.
proof fn lemma_next_status(m: Machine, input: Input, code: i64)
    requires
        !(m.control is Done),
        next(m, input).control == Control::Done(crate::state::Final::Exit(code)),
    ensures
        code == 0 || m.control == Control::Signal(InterruptKind::Exit(code)),
{
    reveal(next);
    crate::laws::law_end_is_told(
        m,
        input.event,
        input.world,
        crate::state::Final::Exit(code),
    );
    crate::laws::law_status(m, input.event, input.world, code);
}

} // verus!
