//! The meaning of a program: one step of the abstract machine, as a
//! mathematical function from state and event to state and action.

use vstd::prelude::*;
use crate::codec::{export_value, export_values, import, importable, render_line};
use crate::host::{ActionView, Defect, EventView, HeaderView, OutcomeView};
use crate::messages::{
    cast_text,
    fault_text,
    index_text,
    money_text,
    parse_text,
    rejection_text,
};
use crate::ops::{
    assign_operator,
    cast_result,
    clamp_char,
    infix_result,
    prefix_result,
    scalar_of,
    Computed,
    Scalar,
};
use crate::scope::{declare, pop_frame, push_frame, resolve, ChainView};
use crate::state::{
    Callee,
    Control,
    Expect,
    Final,
    Frame,
    Machine,
    Pending,
    Stage,
    VariableView,
};
use crate::text::{integer_refusal, integer_value, replaced};
use crate::tree::{
    AendereStmt,
    AssignExpr,
    Block,
    CallBase,
    CallExpr,
    CastExpr,
    Expression,
    FunctionDefinition,
    IfExpr,
    InfixExpr,
    InfixOp,
    LetStmt,
    ListExpr,
    MemberExpr,
    ObjectExpr,
    ObjectField,
    PrefixExpr,
    PrefixOp,
    Program,
    Statement,
    WhileStmt,
};
use crate::types::{has_type, type_text, value_type_text};
use crate::value::{
    field_lookup,
    field_upsert,
    FieldView,
    HeapObjectView,
    InterruptKind,
    Memory,
    Value,
};
use crate::world::{ClockReading, World};

verus! {

/// A state after a step, with the action that the step asks for.
pub type Step<'a> = (Machine<'a>, ActionView);

/// How many milliseconds a loop waits before each run of its body.
pub const LOOP_DELAY: u64 = 50;

/// The outcome that the host is told.
pub open spec fn outcome_of(store: Memory, end: Final) -> OutcomeView {
    match end {
        Final::Exit(code) => OutcomeView::Exit(code),
        Final::Error(id) => match store.text(Value::String(id)) {
            Some(message) => OutcomeView::Error(message),
            None => OutcomeView::Defect(Defect::Dangling),
        },
        Final::Defect(defect) => OutcomeView::Defect(defect),
    }
}

impl<'a> Machine<'a> {
    pub open spec fn with_control(self, control: Control<'a>) -> Machine<'a> {
        Machine { control, ..self }
    }

    pub open spec fn with_store(self, store: Memory) -> Machine<'a> {
        Machine { store, ..self }
    }

    pub open spec fn with_scopes(self, scopes: ChainView) -> Machine<'a> {
        Machine { scopes, ..self }
    }

    pub open spec fn with_operands(self, operands: Seq<Value>) -> Machine<'a> {
        Machine { operands, ..self }
    }

    /// The machine with one more frame on its stack.
    pub open spec fn pushed(self, frame: Frame<'a>) -> Machine<'a> {
        Machine { stack: self.stack.push(frame), ..self }
    }

    /// The machine without its topmost frame.
    pub open spec fn popped(self) -> Machine<'a> {
        Machine { stack: self.stack.drop_last(), ..self }
    }

    /// Goes on with the given control, asking nothing of the host.
    pub open spec fn go(self, control: Control<'a>) -> Step<'a> {
        (self.with_control(control), ActionView::Continue)
    }

    pub open spec fn value(self, value: Value) -> Step<'a> {
        self.go(Control::Value(value))
    }

    pub open spec fn eval(self, node: &'a Expression) -> Step<'a> {
        self.go(Control::Eval(node))
    }

    pub open spec fn raise(self, interrupt: InterruptKind) -> Step<'a> {
        self.go(Control::Signal(interrupt))
    }

    /// Ends the run.
    pub open spec fn halt(self, end: Final) -> Step<'a> {
        (self.with_control(Control::Done(end)), ActionView::Finish(outcome_of(self.store, end)))
    }

    pub open spec fn defect(self, defect: Defect) -> Step<'a> {
        self.halt(Final::Defect(defect))
    }

    /// Raises a run-time error with this message.
    pub open spec fn fail(self, message: Seq<char>) -> Step<'a> {
        self.with_store(self.store.with_text(message)).raise(
            InterruptKind::Error(self.store.heap.len() as usize),
        )
    }

    /// Hands work to the host and waits for the answer.
    pub open spec fn ask(self, action: ActionView, pending: Pending) -> Step<'a> {
        (self.pushed(Frame::Await(pending)).with_control(Control::Waiting), action)
    }

    /// Goes on with a new text as the value.
    pub open spec fn text_value(self, text: Seq<char>) -> Step<'a> {
        self.with_store(self.store.with_text(text)).value(
            Value::String(self.store.heap.len() as usize),
        )
    }

    /// Goes on with what an operator or a cast came to.
    pub open spec fn settle(self, computed: Computed) -> Step<'a> {
        match computed {
            Computed::Value(value) => self.value(value),
            Computed::Error(fault) => self.fail(fault_text(fault)),
            Computed::Host(request, kind) => self.ask(
                ActionView::Float(request),
                Pending::Value(kind),
            ),
            Computed::Defect => self.defect(Defect::Operands),
        }
    }

    /// Stores what an operator came to in a cell.
    pub open spec fn settle_into(self, cell: usize, computed: Computed) -> Step<'a> {
        match computed {
            Computed::Value(value) => if cell < self.store.cells.len() {
                self.with_store(self.store.write(cell, value)).value(Value::Unit)
            } else {
                self.defect(Defect::Dangling)
            },
            Computed::Error(fault) => self.fail(fault_text(fault)),
            Computed::Host(request, kind) => self.ask(
                ActionView::Float(request),
                Pending::Store(cell, kind),
            ),
            Computed::Defect => self.defect(Defect::Operands),
        }
    }
}

/// An infix operator on two values. Texts are joined and compared here, and a
/// new text goes to the store; scalars are left to the operators on scalars.
pub open spec fn binary(store: Memory, op: InfixOp, lhs: Value, rhs: Value) -> (
    Memory,
    Computed,
) {
    match (store.text(lhs), store.text(rhs)) {
        (Some(a), Some(b)) => match op {
            InfixOp::Plus => (
                store.with_text(a + b),
                Computed::Value(Value::String(store.heap.len() as usize)),
            ),
            InfixOp::Eq => (store, Computed::Value(Value::Bool(a == b))),
            InfixOp::Neq => (store, Computed::Value(Value::Bool(a != b))),
            _ => (store, Computed::Defect),
        },
        _ => (store, infix_result(op, lhs, rhs)),
    }
}

/// The cell reached from `cell` by reading through `hops` pointers.
pub open spec fn follow(store: Memory, cell: usize, hops: nat) -> Option<usize>
    decreases hops,
{
    if hops == 0 {
        Some(cell)
    } else {
        match store.read(cell) {
            Some(Value::Ptr(next)) => follow(store, next, (hops - 1) as nat),
            _ => None,
        }
    }
}

/// The cell that an assignment to `name` through `hops` pointers stores into.
pub open spec fn target(m: Machine, name: Seq<char>, hops: nat) -> Result<usize, Defect> {
    match resolve(m.scopes, name) {
        None => Err(Defect::UnresolvedName),
        Some(cell) => match follow(m.store, cell, hops) {
            None => Err(Defect::Operands),
            Some(cell) => if cell < m.store.cells.len() {
                Ok(cell)
            } else {
                Err(Defect::Dangling)
            },
        },
    }
}

/// Binds `name` to a new cell that holds `value`, in the innermost frame.
pub open spec fn bind(m: Machine, name: Seq<char>, value: Value) -> Machine {
    m.with_store(m.store.with_cell(value)).with_scopes(
        declare(m.scopes, name, m.store.cells.len() as usize),
    )
}

// ---------------------------------------------------------------------------
// Blocks and statements
// ---------------------------------------------------------------------------
/// Leaves a block: its scope goes, if it had one.
pub open spec fn leave(m: Machine, scoped: bool) -> Machine {
    if scoped {
        m.with_scopes(pop_frame(m.scopes))
    } else {
        m
    }
}

/// Runs a block from statement `next` on.
pub open spec fn run_block<'a>(m: Machine<'a>, block: &'a Block, next: usize, scoped: bool) -> Step<
    'a,
> {
    if next < block.stmts@.len() {
        visit_statement(
            m.pushed(Frame::Block(block, (next + 1) as usize, scoped)),
            &block.stmts@[next as int],
        )
    } else {
        match &block.expr {
            Some(tail) => m.pushed(Frame::BlockEnd(scoped)).eval(tail),
            None => leave(m, scoped).value(Value::Unit),
        }
    }
}

/// Enters a block and runs it.
pub open spec fn visit_block<'a>(m: Machine<'a>, block: &'a Block, new_scope: bool) -> Step<'a> {
    if new_scope {
        run_block(m.with_scopes(push_frame(m.scopes)), block, 0, true)
    } else {
        run_block(m, block, 0, false)
    }
}

/// Starts a statement.
pub open spec fn visit_statement<'a>(m: Machine<'a>, node: &'a Statement) -> Step<'a> {
    match node {
        Statement::Beantrage => m.value(Value::Unit),
        Statement::Let(inner) => m.pushed(Frame::Let(inner)).eval(&inner.expr),
        Statement::Aendere(inner) => m.pushed(Frame::Aendere(inner)).eval(&inner.expr),
        Statement::Return(Some(expr)) => m.pushed(Frame::Return).eval(expr),
        Statement::Return(None) => m.raise(InterruptKind::Return(Value::Unit)),
        Statement::While(inner) => m.pushed(Frame::WhileCond(inner)).eval(&inner.cond),
        Statement::Break => m.raise(InterruptKind::Break),
        Statement::Continue => m.raise(InterruptKind::Continue),
        Statement::Expr(expr) => m.eval(expr),
    }
}

// ---------------------------------------------------------------------------
// Expressions
// ---------------------------------------------------------------------------
/// The operands from index `from` on.
pub open spec fn operands_from(m: Machine, from: int) -> Seq<Value> {
    m.operands.subrange(from, m.operands.len() as int)
}

/// The machine without the operands from index `from` on.
pub open spec fn operands_upto<'a>(m: Machine<'a>, from: int) -> Machine<'a> {
    m.with_operands(m.operands.take(from))
}

/// Goes on with the items of a list, of which `done` are evaluated.
pub open spec fn next_item<'a>(m: Machine<'a>, node: &'a ListExpr, done: usize) -> Step<'a> {
    if done < node.values@.len() {
        m.pushed(Frame::ListItems(node, done)).eval(&node.values@[done as int])
    } else if m.operands.len() < done {
        m.defect(Defect::Stuck)
    } else {
        let from = m.operands.len() - done;
        let items = operands_from(m, from);
        let id = m.store.heap.len() as usize;
        operands_upto(m, from).with_store(m.store.with_object(HeapObjectView::List(items))).value(
            Value::List(id),
        )
    }
}

/// Starts the evaluation of an expression.
pub open spec fn visit_expression<'a>(m: Machine<'a>, node: &'a Expression) -> Step<'a> {
    match node {
        Expression::Nichts => m.value(Value::Unit),
        Expression::Block(block) => visit_block(m, &**block, true),
        Expression::If(inner) => m.pushed(Frame::IfCond(&**inner)).eval(&inner.cond),
        Expression::Int(i) => m.value(Value::Int(*i)),
        Expression::Float(bits) => m.value(Value::Float(*bits)),
        Expression::Bool(b) => m.value(Value::Bool(*b)),
        Expression::Char(c) => m.value(Value::Char(*c)),
        Expression::String(s) => m.text_value(s@),
        Expression::List(inner) => next_item(m, inner, 0),
        Expression::Ident(inner) => match resolve(m.scopes, inner.ident@) {
            None => m.defect(Defect::UnresolvedName),
            Some(cell) => match m.store.read(cell) {
                None => m.defect(Defect::Dangling),
                Some(value) => m.value(value),
            },
        },
        Expression::Prefix(inner) => m.pushed(Frame::Prefix(&**inner)).eval(&inner.expr),
        Expression::Infix(inner) => match inner.op {
            InfixOp::And => m.pushed(Frame::And(&**inner)).eval(&inner.lhs),
            InfixOp::Or => m.pushed(Frame::Or(&**inner)).eval(&inner.lhs),
            _ => m.pushed(Frame::InfixLhs(&**inner)).eval(&inner.lhs),
        },
        Expression::Assign(inner) => m.pushed(Frame::Assign(&**inner)).eval(&inner.expr),
        Expression::Call(inner) => next_arg(m, &**inner, 0),
        Expression::Cast(inner) => m.pushed(Frame::Cast(&**inner)).eval(&inner.expr),
        Expression::Member(inner) => m.pushed(Frame::Member(&**inner)).eval(&inner.expr),
        Expression::Index(inner) => m.pushed(Frame::IndexBase(&**inner)).eval(&inner.expr),
        Expression::Grouped(inner) => m.eval(&**inner),
        Expression::Object(inner) => next_field(m, inner, 0),
    }
}


// ---------------------------------------------------------------------------
// What expressions come to
// ---------------------------------------------------------------------------
/// A prefix operator, once its operand has its value.
pub open spec fn finish_prefix<'a>(m: Machine<'a>, node: &'a PrefixExpr, operand: Value) -> Step<
    'a,
> {
    match node.op {
        PrefixOp::Not => m.settle(prefix_result(PrefixOp::Not, operand)),
        PrefixOp::Neg => m.settle(prefix_result(PrefixOp::Neg, operand)),
        PrefixOp::Ref => match &node.expr {
            Expression::Ident(inner) => match resolve(m.scopes, inner.ident@) {
                Some(cell) => m.value(Value::Ptr(cell)),
                None => m.defect(Defect::UnresolvedName),
            },
            _ => m.defect(Defect::NotAddressable),
        },
        PrefixOp::Deref => match operand {
            Value::Ptr(cell) => match m.store.read(cell) {
                Some(value) => m.value(value),
                None => m.defect(Defect::Dangling),
            },
            _ => m.defect(Defect::Operands),
        },
    }
}

/// An infix operator, once both operands have their values.
pub open spec fn finish_infix<'a>(m: Machine<'a>, op: InfixOp, lhs: Value, rhs: Value) -> Step<
    'a,
> {
    let (store, computed) = binary(m.store, op, lhs, rhs);
    m.with_store(store).settle(computed)
}

/// A logical `and`, once its left operand has its value: `false` decides, and
/// the right operand is left alone.
pub open spec fn finish_and<'a>(m: Machine<'a>, node: &'a InfixExpr, lhs: Value) -> Step<'a> {
    match lhs {
        Value::Bool(b) => if b {
            m.eval(&node.rhs)
        } else {
            m.value(Value::Bool(false))
        },
        _ => m.defect(Defect::Operands),
    }
}

/// A logical `or`, once its left operand has its value: `true` decides, and
/// the right operand is left alone.
pub open spec fn finish_or<'a>(m: Machine<'a>, node: &'a InfixExpr, lhs: Value) -> Step<'a> {
    match lhs {
        Value::Bool(b) => if b {
            m.value(Value::Bool(true))
        } else {
            m.eval(&node.rhs)
        },
        _ => m.defect(Defect::Operands),
    }
}

/// A compound assignment, once its right side has its value.
pub open spec fn finish_assign<'a>(m: Machine<'a>, node: &'a AssignExpr, rhs: Value) -> Step<'a> {
    match target(m, node.assignee@, node.assignee_ptr_count as nat) {
        Err(defect) => m.defect(defect),
        Ok(cell) => match assign_operator(node.op) {
            None => m.defect(Defect::Operands),
            Some(op) => {
                let (store, computed) = binary(m.store, op, m.store.cells[cell as int], rhs);
                m.with_store(store).settle_into(cell, computed)
            },
        },
    }
}

/// A plain assignment, once its right side has its value.
pub open spec fn finish_aendere<'a>(m: Machine<'a>, node: &'a AendereStmt, rhs: Value) -> Step<
    'a,
> {
    match target(m, node.assignee@, node.assignee_ptr_count as nat) {
        Err(defect) => m.defect(defect),
        Ok(cell) => m.with_store(m.store.write(cell, rhs)).value(Value::Unit),
    }
}

/// A declaration, once its initializer has its value.
pub open spec fn finish_let<'a>(m: Machine<'a>, node: &'a LetStmt, value: Value) -> Step<'a> {
    if m.scopes.len() == 0 {
        m.defect(Defect::NoScope)
    } else {
        bind(m, node.name@, value).value(Value::Unit)
    }
}

/// A cast, once its operand has its value. A value of unknown static type
/// passes only if it is of the type asked for. Otherwise a text is read as a
/// number, with a period for every comma, and a scalar is converted.
pub open spec fn finish_cast<'a>(m: Machine<'a>, node: &'a CastExpr, value: Value) -> Step<'a> {
    if node.from_type is Any {
        if has_type(value, node.as_type) {
            m.value(value)
        } else {
            m.fail(cast_text(value_type_text(value), type_text(node.as_type)))
        }
    } else {
        match scalar_of(node.as_type) {
            None => m.defect(Defect::Operands),
            Some(scalar) => match m.store.text(value) {
                None => m.settle(cast_result(value, scalar)),
                Some(text) => {
                    let digits = replaced(text, ',', '.');
                    match scalar {
                        Scalar::Int => match integer_value(digits) {
                            Some(n) if i64::MIN <= n <= i64::MAX => m.value(Value::Int(n as i64)),
                            _ => m.fail(parse_text(digits, integer_refusal(digits))),
                        },
                        Scalar::Float => m.with_store(m.store.with_text(digits)).ask(
                            ActionView::ParseFloat(digits),
                            Pending::Parse(Value::String(m.store.heap.len() as usize)),
                        ),
                        _ => m.defect(Defect::Operands),
                    }
                },
            },
        }
    }
}

/// A member access, once its base has its value: the field of that name of an
/// object, or the builtin of that name bound to any other value.
pub open spec fn finish_member<'a>(m: Machine<'a>, node: &'a MemberExpr, base: Value) -> Step<'a> {
    match m.store.fields(base) {
        Some(fields) => match field_lookup(fields, node.member@) {
            Some(value) => m.value(value),
            None => m.defect(Defect::Operands),
        },
        None => m.with_store(
            m.store.with_object(HeapObjectView::Bound { base, name: node.member@ }),
        ).value(Value::BuiltinFunction(m.store.heap.len() as usize)),
    }
}

/// An index access, once list and index have their values. An index below
/// zero or beyond the list is a run-time error.
pub open spec fn finish_index<'a>(m: Machine<'a>, base: Value, index: Value) -> Step<'a> {
    match (m.store.list(base), index) {
        (Some(items), Value::Int(i)) => if 0 <= i < items.len() {
            m.value(items[i as int])
        } else {
            m.fail(index_text(i))
        },
        _ => m.defect(Defect::Operands),
    }
}

/// A conditional, once its condition has its value.
pub open spec fn finish_if<'a>(m: Machine<'a>, node: &'a IfExpr, cond: Value) -> Step<'a> {
    match cond {
        Value::Bool(b) => if b {
            visit_block(m, &node.then_block, true)
        } else {
            match &node.else_block {
                Some(block) => visit_block(m, block, true),
                None => m.value(Value::Unit),
            }
        },
        _ => m.defect(Defect::Operands),
    }
}

/// A loop, once its condition has its value: the loop is over, or the host
/// waits a moment before the body runs.
pub open spec fn finish_while_cond<'a>(m: Machine<'a>, node: &'a WhileStmt, cond: Value) -> Step<
    'a,
> {
    match cond {
        Value::Bool(b) => if b {
            m.pushed(Frame::WhileStart(node)).ask(
                ActionView::Pause(LOOP_DELAY),
                Pending::Value(Expect::Nothing),
            )
        } else {
            m.value(Value::Unit)
        },
        _ => m.defect(Defect::Operands),
    }
}

/// The fields that the first `n` members of an object literal give, from their
/// values in order. Of two members with one key the later one stays.
pub open spec fn object_fields(members: Seq<ObjectField>, values: Seq<Value>, n: nat) -> Seq<
    FieldView,
>
    decreases n,
{
    if n == 0 || n > members.len() || n > values.len() {
        Seq::empty()
    } else {
        field_upsert(
            object_fields(members, values, (n - 1) as nat),
            members[n - 1].key@,
            values[n - 1],
        )
    }
}

/// Goes on with the fields of an object, of which `done` are evaluated.
pub open spec fn next_field<'a>(m: Machine<'a>, node: &'a ObjectExpr, done: usize) -> Step<'a> {
    if done < node.members@.len() {
        m.pushed(Frame::ObjectFields(node, done)).eval(&node.members@[done as int].value)
    } else if m.operands.len() < done || done > node.members@.len() {
        m.defect(Defect::Stuck)
    } else {
        let from = m.operands.len() - done;
        let fields = object_fields(node.members@, operands_from(m, from), done as nat);
        let id = m.store.heap.len() as usize;
        operands_upto(m, from).with_store(
            m.store.with_object(HeapObjectView::Fields(fields)),
        ).value(Value::Objekt(id))
    }
}

/// Goes on with the arguments of a call, of which `done` are evaluated.
pub open spec fn next_arg<'a>(m: Machine<'a>, node: &'a CallExpr, done: usize) -> Step<'a> {
    if done < node.args@.len() {
        m.pushed(Frame::Args(node, done)).eval(&node.args@[done as int])
    } else {
        m.pushed(Frame::Dispatch(node)).value(Value::Unit)
    }
}

// ---------------------------------------------------------------------------
// Calls
// ---------------------------------------------------------------------------
/// Index `i` is the last function in use that has this name.
pub open spec fn is_last_function(
    functions: Seq<FunctionDefinition>,
    name: Seq<char>,
    i: int,
) -> bool {
    &&& 0 <= i < functions.len()
    &&& functions[i].used
    &&& functions[i].name@ == name
    &&& forall|j: int|
        i < j < functions.len() ==> !(functions[j].used && (#[trigger] functions[j]).name@ == name)
}

/// What a name stands for that is no builtin: an entry phase, or else the last
/// function in use that has the name.
pub open spec fn find_callee(program: &Program, name: Seq<char>) -> Option<Callee> {
    if name == "Bewerbung"@ {
        Some(Callee::Bewerbung)
    } else if name == "Einschreibung"@ {
        Some(Callee::Einschreibung)
    } else if name == "Studium"@ {
        Some(Callee::Studium)
    } else if exists|i: int| is_last_function(program.functions@, name, i) {
        Some(Callee::User((choose|i: int| is_last_function(program.functions@, name, i)) as usize))
    } else {
        None
    }
}

/// The number of parameters of a callee.
pub open spec fn param_count(program: &Program, callee: Callee) -> nat {
    match callee {
        Callee::Bewerbung => 0,
        Callee::Einschreibung => 1,
        Callee::Studium => 0,
        Callee::User(i) => program.functions@[i as int].params@.len(),
    }
}

/// The name of a parameter of a callee.
pub open spec fn param_text(program: &Program, callee: Callee, i: int) -> Seq<char> {
    match callee {
        Callee::User(f) => program.functions@[f as int].params@[i].name@,
        _ => "Matrikelnummer"@,
    }
}

/// The body of a callee.
pub open spec fn body_of<'a>(program: &'a Program, callee: Callee) -> &'a Block {
    match callee {
        Callee::Bewerbung => &program.bewerbung_fn,
        Callee::Einschreibung => &program.einschreibung_fn,
        Callee::Studium => &program.studium_fn,
        Callee::User(i) => &program.functions@[i as int].block,
    }
}

/// The number of parameters that get an argument.
pub open spec fn bound_count(program: &Program, callee: Callee, args: Seq<Value>) -> nat {
    if param_count(program, callee) <= args.len() {
        param_count(program, callee)
    } else {
        args.len()
    }
}

/// The machine after the first `n` parameters were bound to their arguments,
/// each in a cell of its own.
pub open spec fn bind_params<'a>(
    m: Machine<'a>,
    callee: Callee,
    args: Seq<Value>,
    n: nat,
) -> Machine<'a>
    decreases n,
{
    if n == 0 {
        m
    } else {
        bind(
            bind_params(m, callee, args, (n - 1) as nat),
            param_text(m.program, callee, n - 1),
            args[n - 1],
        )
    }
}

/// Calls a function of the program: a new frame takes the parameters, and the
/// body runs in it.
pub open spec fn call_user<'a>(m: Machine<'a>, callee: Callee, args: Seq<Value>) -> Step<'a> {
    let entered = m.with_scopes(push_frame(m.scopes));
    let bound = bind_params(entered, callee, args, bound_count(m.program, callee, args));
    run_block(bound.pushed(Frame::CallBody), body_of(m.program, callee), 0, false)
}

/// The fields of the object that tells the time.
pub open spec fn clock_fields(clock: ClockReading) -> Seq<FieldView> {
    seq![
        FieldView { key: "Jahr"@, value: Value::Int(clock.year) },
        FieldView { key: "Monat"@, value: Value::Int(clock.month) },
        FieldView { key: "Kalendar_Tag"@, value: Value::Int(clock.day) },
        FieldView { key: "Wochentag"@, value: Value::Int(clock.weekday) },
        FieldView { key: "Stunde"@, value: Value::Int(clock.hour) },
        FieldView { key: "Minute"@, value: Value::Int(clock.minute) },
        FieldView { key: "Sekunde"@, value: Value::Int(clock.second) },
    ]
}

/// The store and the fields after the first `n` variables of the environment
/// were brought in, each value as a text of its own.
pub open spec fn environment_fields(store: Memory, variables: Seq<VariableView>, n: nat) -> (
    Memory,
    Seq<FieldView>,
)
    decreases n,
{
    if n == 0 || n > variables.len() {
        (store, Seq::empty())
    } else {
        let (filled, fields) = environment_fields(store, variables, (n - 1) as nat);
        (
            filled.with_text(variables[n - 1].value),
            field_upsert(
                fields,
                variables[n - 1].name,
                Value::String(filled.heap.len() as usize),
            ),
        )
    }
}

/// The headers that the first `n` items of a list give. Each item is an object
/// with a text under `Schlüssel` and a text under `Wert`; of two headers with
/// one key the later one stays.
pub open spec fn header_fields(store: Memory, items: Seq<Value>, n: nat) -> Option<
    Seq<FieldView>,
>
    decreases n,
{
    if n == 0 || n > items.len() {
        Some(Seq::empty())
    } else {
        match header_fields(store, items, (n - 1) as nat) {
            None => None,
            Some(headers) => match store.fields(items[n - 1]) {
                None => None,
                Some(fields) => match (
                    field_lookup(fields, "Schlüssel"@),
                    field_lookup(fields, "Wert"@),
                ) {
                    (Some(key), Some(value)) => match (store.text(key), store.text(value)) {
                        (Some(name), Some(_)) => Some(field_upsert(headers, name, value)),
                        _ => None,
                    },
                    _ => None,
                },
            },
        }
    }
}

/// The first `n` headers with the texts of their values.
pub open spec fn header_list(store: Memory, headers: Seq<FieldView>, n: nat) -> Option<
    Seq<HeaderView>,
>
    decreases n,
{
    if n == 0 || n > headers.len() {
        Some(Seq::empty())
    } else {
        match header_list(store, headers, (n - 1) as nat) {
            None => None,
            Some(list) => match store.text(headers[n - 1].value) {
                None => None,
                Some(value) => Some(list.push(HeaderView { key: headers[n - 1].key, value })),
            },
        }
    }
}

/// The request that the arguments of the builtin `Http` describe: method, URL
/// and body as texts, then the list of headers.
pub open spec fn http_request(store: Memory, args: Seq<Value>) -> Option<ActionView> {
    if args.len() < 5 {
        None
    } else {
        match (store.text(args[0]), store.text(args[1]), store.text(args[2]), store.list(args[3])) {
            (Some(method), Some(url), Some(body), Some(items)) => match header_fields(
                store,
                items,
                items.len(),
            ) {
                None => None,
                Some(fields) => match header_list(store, fields, fields.len()) {
                    None => None,
                    Some(headers) => Some(ActionView::Http { method, url, body, headers }),
                },
            },
            _ => None,
        }
    }
}

/// The builtin `Drucke`: the host writes one line that shows the arguments.
pub open spec fn call_drucke<'a>(m: Machine<'a>, args: Seq<Value>) -> Step<'a> {
    match export_values(m.store, args) {
        Some(copies) => m.ask(
            ActionView::Write(render_line(copies)),
            Pending::Value(Expect::Nothing),
        ),
        None => m.defect(Defect::Dangling),
    }
}

/// The builtin `Aufgeben`: the run ends with the status given.
pub open spec fn call_aufgeben<'a>(m: Machine<'a>, args: Seq<Value>) -> Step<'a> {
    if args.len() > 0 && args[0] is Int {
        m.raise(InterruptKind::Exit(args[0]->Int_0))
    } else {
        m.defect(Defect::Operands)
    }
}

/// The builtin `Zergliedere_JSON`: the host reads a value from a text.
pub open spec fn call_zergliedere<'a>(m: Machine<'a>, args: Seq<Value>) -> Step<'a> {
    if args.len() == 0 {
        m.defect(Defect::Operands)
    } else {
        match m.store.text(args[0]) {
            Some(text) => m.ask(ActionView::Deserialize(text), Pending::Value(Expect::Data)),
            None => m.defect(Defect::Operands),
        }
    }
}

/// The builtin `Gliedere_JSON`: the host writes a value as text.
pub open spec fn call_gliedere<'a>(m: Machine<'a>, args: Seq<Value>) -> Step<'a> {
    if args.len() == 0 {
        m.defect(Defect::Operands)
    } else {
        match export_value(m.store, args[0]) {
            Some(copy) => m.ask(ActionView::Serialize(copy), Pending::Value(Expect::Text)),
            None => m.defect(Defect::Dangling),
        }
    }
}

/// The builtin `Formatiere`: the host fills the template, which is the first
/// argument, with the others.
pub open spec fn call_formatiere<'a>(m: Machine<'a>, args: Seq<Value>) -> Step<'a> {
    if args.len() == 0 {
        m.defect(Defect::Operands)
    } else {
        match m.store.text(args[0]) {
            None => m.defect(Defect::Operands),
            Some(template) => match export_values(m.store, args.skip(1)) {
                Some(copies) => m.ask(
                    ActionView::Format { template, args: copies },
                    Pending::Value(Expect::Text),
                ),
                None => m.defect(Defect::Dangling),
            },
        }
    }
}

/// The builtin `Zeit`: an object that tells the local date and time.
pub open spec fn call_zeit<'a>(m: Machine<'a>, clock: ClockReading) -> Step<'a> {
    m.with_store(m.store.with_object(HeapObjectView::Fields(clock_fields(clock)))).value(
        Value::Objekt(m.store.heap.len() as usize),
    )
}

/// The builtin `Http`: the host performs the request; the last argument
/// points to where the body of the answer goes.
pub open spec fn call_http<'a>(m: Machine<'a>, args: Seq<Value>) -> Step<'a> {
    match http_request(m.store, args) {
        None => m.defect(Defect::Operands),
        Some(request) => match args[4] {
            Value::Ptr(cell) => m.ask(request, Pending::Http(cell)),
            _ => m.defect(Defect::Operands),
        },
    }
}

/// The builtin `Schlummere`: the host sleeps for the seconds given.
pub open spec fn call_schlummere<'a>(m: Machine<'a>, args: Seq<Value>) -> Step<'a> {
    if args.len() > 0 && args[0] is Float {
        m.ask(ActionView::Sleep(args[0]->Float_0), Pending::Value(Expect::Nothing))
    } else {
        m.defect(Defect::Operands)
    }
}

/// The builtin `Umgebungsvariablen`: a box that holds the variables of the
/// process environment as texts.
pub open spec fn call_umgebung<'a>(m: Machine<'a>) -> Step<'a> {
    let (filled, fields) = environment_fields(m.store, m.environment, m.environment.len());
    m.with_store(filled.with_object(HeapObjectView::Fields(fields))).value(
        Value::Speicherbox(filled.heap.len() as usize),
    )
}

/// Calls what `name` stands for: a builtin, or else a function of the program.
pub open spec fn call_func<'a>(
    m: Machine<'a>,
    name: Seq<char>,
    args: Seq<Value>,
    world: World,
) -> Step<'a> {
    if name == "Aufgeben"@ {
        call_aufgeben(m, args)
    } else if name == "Drucke"@ {
        call_drucke(m, args)
    } else if name == "Zergliedere_JSON"@ {
        call_zergliedere(m, args)
    } else if name == "Gliedere_JSON"@ {
        call_gliedere(m, args)
    } else if name == "Formatiere"@ {
        call_formatiere(m, args)
    } else if name == "Zeit"@ {
        call_zeit(m, world.clock)
    } else if name == "Http"@ {
        call_http(m, args)
    } else if name == "Schlummere"@ {
        call_schlummere(m, args)
    } else if name == "Geld"@ {
        m.text_value(money_text())
    } else if name == "Umgebungsvariablen"@ {
        call_umgebung(m)
    } else {
        match find_callee(m.program, name) {
            Some(callee) => call_user(m, callee, args),
            None => m.defect(Defect::UnknownFunction),
        }
    }
}

/// Calls a bound builtin: the host gets its name, the value it is bound to
/// and the arguments.
pub open spec fn invoke<'a>(m: Machine<'a>, callee: Value, args: Seq<Value>) -> Step<'a> {
    match m.store.bound(callee) {
        None => m.defect(Defect::Operands),
        Some((base, name)) => match (export_value(m.store, base), export_values(m.store, args)) {
            (Some(base), Some(args)) => m.ask(
                ActionView::Invoke { name, base, args },
                Pending::Value(Expect::Data),
            ),
            _ => m.defect(Defect::Dangling),
        },
    }
}

/// A call, once its arguments have their values: a name is called, or the
/// expression that gives the callee is evaluated.
pub open spec fn dispatch<'a>(m: Machine<'a>, node: &'a CallExpr, world: World) -> Step<'a> {
    match &node.func {
        CallBase::Ident(name) => if m.operands.len() < node.args@.len() {
            m.defect(Defect::Stuck)
        } else {
            let from = m.operands.len() - node.args@.len();
            call_func(operands_upto(m, from), name@, operands_from(m, from), world)
        },
        CallBase::Expr(callee) => m.pushed(Frame::Callee(node)).eval(&**callee),
    }
}

/// A call through a value, once the callee has its value.
pub open spec fn finish_callee<'a>(m: Machine<'a>, node: &'a CallExpr, callee: Value) -> Step<'a> {
    if m.operands.len() < node.args@.len() {
        m.defect(Defect::Stuck)
    } else {
        let from = m.operands.len() - node.args@.len();
        invoke(operands_upto(m, from), callee, operands_from(m, from))
    }
}

// ---------------------------------------------------------------------------
// The run driver
// ---------------------------------------------------------------------------
/// Whether an expression may stand as the initializer of a global.
pub open spec fn is_constant_form(node: &Expression) -> bool {
    node is Int || node is Float || node is Bool || node is Char || node is String || node is List
}

/// Sets up the globals from index `next` on, then starts the first phase.
pub open spec fn seed<'a>(m: Machine<'a>, next: usize, world: World) -> Step<'a> {
    if next >= m.program.globals@.len() {
        call_func(m.pushed(Frame::Driver(Stage::Apply)), "Bewerbung"@, Seq::empty(), world)
    } else if !m.program.globals@[next as int].used {
        m.pushed(Frame::Driver(Stage::Seed((next + 1) as usize))).value(Value::Unit)
    } else if is_constant_form(&m.program.globals@[next as int].expr) {
        m.pushed(Frame::Driver(Stage::Seed((next + 1) as usize))).pushed(Frame::Global(next)).eval(
            &m.program.globals@[next as int].expr,
        )
    } else {
        m.defect(Defect::GlobalNotConstant)
    }
}

/// The driver goes on after a stage gave a value. The first phase has to give
/// a text: an empty one ends the run with the rejection, any other lets the
/// second phase start, with a random number. The third phase ends the run
/// with status 0.
pub open spec fn drive<'a>(m: Machine<'a>, stage: Stage, value: Value, world: World) -> Step<'a> {
    match stage {
        Stage::Seed(next) => seed(m, next, world),
        Stage::Apply => match m.store.text(value) {
            None => m.defect(Defect::PhaseResult),
            Some(letter) => if letter.len() == 0 {
                m.with_store(m.store.with_text(rejection_text())).halt(
                    Final::Error(m.store.heap.len() as usize),
                )
            } else {
                match world.entropy {
                    None => m.defect(Defect::NoEntropy),
                    Some(number) => call_func(
                        m.pushed(Frame::Driver(Stage::Enroll(number as i64))),
                        "Einschreibung"@,
                        seq![Value::Int(number as i64)],
                        world,
                    ),
                }
            },
        },
        Stage::Enroll(number) => call_func(
            m.pushed(Frame::Driver(Stage::Study)),
            "Studium"@,
            seq![Value::Int(number)],
            world,
        ),
        Stage::Study => m.halt(Final::Exit(0)),
    }
}

/// The driver takes up an interrupt that left a phase: an exit ends the run
/// with its status, an error with its message.
pub open spec fn drive_interrupt<'a>(
    m: Machine<'a>,
    stage: Stage,
    interrupt: InterruptKind,
) -> Step<'a> {
    match (stage, interrupt) {
        (Stage::Seed(_), _) => m.defect(Defect::GlobalNotConstant),
        (_, InterruptKind::Exit(code)) => m.halt(Final::Exit(code)),
        (_, InterruptKind::Error(message)) => m.halt(Final::Error(message)),
        _ => m.defect(Defect::StrayInterrupt),
    }
}

// ---------------------------------------------------------------------------
// Frames
// ---------------------------------------------------------------------------
/// Puts a value with the operands.
pub open spec fn keep<'a>(m: Machine<'a>, value: Value) -> Machine<'a> {
    m.with_operands(m.operands.push(value))
}

/// Hands a value to a frame that was taken off the stack.
pub open spec fn deliver<'a>(m: Machine<'a>, frame: Frame<'a>, value: Value, world: World) -> Step<
    'a,
> {
    match frame {
        Frame::Driver(stage) => drive(m, stage, value, world),
        Frame::Global(index) => if index < m.program.globals@.len() && m.scopes.len() > 0 {
            bind(m, m.program.globals@[index as int].name@, value).value(Value::Unit)
        } else {
            m.defect(Defect::Stuck)
        },
        Frame::CallBody => leave(m, true).value(value),
        Frame::Args(node, done) => if done < usize::MAX {
            next_arg(keep(m, value), node, (done + 1) as usize)
        } else {
            m.defect(Defect::Stuck)
        },
        Frame::Dispatch(node) => dispatch(m, node, world),
        Frame::Callee(node) => finish_callee(m, node, value),
        Frame::Block(block, next, scoped) => run_block(m, block, next, scoped),
        Frame::BlockEnd(scoped) => leave(m, scoped).value(value),
        Frame::Let(node) => finish_let(m, node, value),
        Frame::Aendere(node) => finish_aendere(m, node, value),
        Frame::Return => m.raise(InterruptKind::Return(value)),
        Frame::WhileCond(node) => finish_while_cond(m, node, value),
        Frame::WhileStart(node) => visit_block(m.pushed(Frame::WhileBody(node)), &node.block, true),
        Frame::WhileBody(node) => m.pushed(Frame::WhileCond(node)).eval(&node.cond),
        Frame::IfCond(node) => finish_if(m, node, value),
        Frame::ListItems(node, done) => if done < usize::MAX {
            next_item(keep(m, value), node, (done + 1) as usize)
        } else {
            m.defect(Defect::Stuck)
        },
        Frame::Prefix(node) => finish_prefix(m, node, value),
        Frame::And(node) => finish_and(m, node, value),
        Frame::Or(node) => finish_or(m, node, value),
        Frame::InfixLhs(node) => m.pushed(Frame::InfixRhs(node, value)).eval(&node.rhs),
        Frame::InfixRhs(node, lhs) => finish_infix(m, node.op, lhs, value),
        Frame::Assign(node) => finish_assign(m, node, value),
        Frame::Cast(node) => finish_cast(m, node, value),
        Frame::Member(node) => finish_member(m, node, value),
        Frame::IndexBase(node) => m.pushed(Frame::IndexAt(value)).eval(&node.index),
        Frame::IndexAt(base) => finish_index(m, base, value),
        Frame::ObjectFields(node, done) => if done < usize::MAX {
            next_field(keep(m, value), node, (done + 1) as usize)
        } else {
            m.defect(Defect::Stuck)
        },
        Frame::Await(_) => m.defect(Defect::Protocol),
    }
}

/// The machine without its last `count` operands.
pub open spec fn discard<'a>(m: Machine<'a>, count: int) -> Machine<'a> {
    if count <= m.operands.len() {
        operands_upto(m, m.operands.len() - count)
    } else {
        m.with_operands(Seq::empty())
    }
}

/// Hands an interrupt to a frame that was taken off the stack. A scope that
/// the frame stands for is left. A loop takes up `break` and `continue`, a
/// function call takes up `return`, and the driver takes up the rest.
pub open spec fn unwind<'a>(m: Machine<'a>, frame: Frame<'a>, interrupt: InterruptKind) -> Step<
    'a,
> {
    match frame {
        Frame::Driver(stage) => drive_interrupt(m, stage, interrupt),
        Frame::Global(_) => m.defect(Defect::GlobalNotConstant),
        Frame::CallBody => match interrupt {
            InterruptKind::Return(value) => leave(m, true).value(value),
            InterruptKind::Exit(_) => leave(m, true).raise(interrupt),
            InterruptKind::Error(_) => leave(m, true).raise(interrupt),
            _ => m.defect(Defect::StrayInterrupt),
        },
        Frame::Block(_, _, scoped) => leave(m, scoped).raise(interrupt),
        Frame::BlockEnd(scoped) => leave(m, scoped).raise(interrupt),
        Frame::WhileBody(node) => match interrupt {
            InterruptKind::Break => m.value(Value::Unit),
            InterruptKind::Continue => m.pushed(Frame::WhileCond(node)).eval(&node.cond),
            _ => m.raise(interrupt),
        },
        Frame::Args(_, done) => discard(m, done as int).raise(interrupt),
        Frame::ListItems(_, done) => discard(m, done as int).raise(interrupt),
        Frame::ObjectFields(_, done) => discard(m, done as int).raise(interrupt),
        Frame::Callee(node) => discard(m, node.args@.len() as int).raise(interrupt),
        _ => m.raise(interrupt),
    }
}

// ---------------------------------------------------------------------------
// Answers of the host
// ---------------------------------------------------------------------------
/// What the host's answer comes to.
pub enum Answer {
    /// The store after the answer was taken in, and the value it gives.
    Value(Memory, Value),
    /// The work failed, for this reason.
    Failed(Seq<char>),
    /// The answer is not of the kind asked for.
    Mismatch,
}

/// Takes the host's answer for a value of the kind that is owed.
pub open spec fn answer(store: Memory, expect: Expect, event: EventView) -> Answer {
    match event {
        EventView::Failed(reason) => Answer::Failed(reason),
        EventView::Resume => if expect == Expect::Nothing {
            Answer::Value(store, Value::Unit)
        } else {
            Answer::Mismatch
        },
        EventView::Float(bits) => if expect == Expect::Float {
            Answer::Value(store, Value::Float(bits))
        } else {
            Answer::Mismatch
        },
        EventView::Int(i) => if expect == Expect::Int {
            Answer::Value(store, Value::Int(i))
        } else if expect == Expect::Char {
            Answer::Value(store, Value::Char(clamp_char(i)))
        } else {
            Answer::Mismatch
        },
        EventView::Bool(b) => if expect == Expect::Bool {
            Answer::Value(store, Value::Bool(b))
        } else {
            Answer::Mismatch
        },
        EventView::Text(text) => if expect == Expect::Text {
            Answer::Value(store.with_text(text), Value::String(store.heap.len() as usize))
        } else {
            Answer::Mismatch
        },
        EventView::Data(data) => if expect == Expect::Data && importable(data) {
            Answer::Value(import(store, data).0, import(store, data).1)
        } else {
            Answer::Mismatch
        },
        EventView::Http { .. } => Answer::Mismatch,
    }
}

/// Takes up the host's answer.
pub open spec fn resume<'a>(m: Machine<'a>, pending: Pending, event: EventView) -> Step<'a> {
    match pending {
        Pending::Value(expect) => match answer(m.store, expect, event) {
            Answer::Value(store, value) => m.with_store(store).value(value),
            Answer::Failed(reason) => m.fail(reason),
            Answer::Mismatch => m.defect(Defect::Protocol),
        },
        Pending::Store(cell, expect) => match answer(m.store, expect, event) {
            Answer::Value(store, value) => if cell < store.cells.len() {
                m.with_store(store.write(cell, value)).value(Value::Unit)
            } else {
                m.with_store(store).defect(Defect::Dangling)
            },
            Answer::Failed(reason) => m.fail(reason),
            Answer::Mismatch => m.defect(Defect::Protocol),
        },
        Pending::Http(cell) => match event {
            EventView::Http { status, body } => if cell < m.store.cells.len() {
                m.with_store(
                    m.store.with_text(body).write(
                        cell,
                        Value::String(m.store.heap.len() as usize),
                    ),
                ).value(Value::Int(status as i64))
            } else {
                m.defect(Defect::Dangling)
            },
            EventView::Failed(reason) => m.fail(reason),
            _ => m.defect(Defect::Protocol),
        },
        Pending::Parse(source) => match event {
            EventView::Float(bits) => m.value(Value::Float(bits)),
            EventView::Failed(reason) => match m.store.text(source) {
                Some(text) => m.fail(parse_text(text, reason)),
                None => m.defect(Defect::Dangling),
            },
            _ => m.defect(Defect::Protocol),
        },
    }
}

// ---------------------------------------------------------------------------
// The step
// ---------------------------------------------------------------------------
/// The machine at the start of a run: the driver is about to set up the
/// globals, in the one frame that holds them.
pub open spec fn initial<'a>(program: &'a Program, environment: Seq<VariableView>) -> Machine<'a> {
    Machine {
        program,
        environment,
        control: Control::Value(Value::Unit),
        stack: seq![Frame::Driver(Stage::Seed(0))],
        operands: Seq::empty(),
        scopes: push_frame(Seq::empty()),
        store: Memory::empty(),
    }
}

/// Whether the step at hand reads the clock: it calls the builtin `Zeit`.
pub open spec fn reads_clock(m: Machine) -> bool {
    &&& m.control is Value
    &&& m.stack.len() > 0
    &&& m.stack.last() matches Frame::Dispatch(node)
    &&& node.func matches CallBase::Ident(name)
    &&& name@ == "Zeit"@
}

/// Whether the step at hand draws a random number: the first phase is over.
pub open spec fn reads_entropy(m: Machine) -> bool {
    &&& m.control is Value
    &&& m.stack.len() > 0
    &&& m.stack.last() == Frame::Driver(Stage::Apply)
}

/// One step of the machine.
pub open spec fn step<'a>(m: Machine<'a>, event: EventView, world: World) -> Step<'a> {
    match m.control {
        Control::Eval(node) => visit_expression(m, node),
        Control::Value(value) => if m.stack.len() == 0 {
            m.defect(Defect::Stuck)
        } else {
            deliver(m.popped(), m.stack.last(), value, world)
        },
        Control::Signal(interrupt) => if m.stack.len() == 0 {
            m.defect(Defect::Stuck)
        } else {
            unwind(m.popped(), m.stack.last(), interrupt)
        },
        Control::Waiting => if m.stack.len() == 0 {
            m.defect(Defect::Protocol)
        } else {
            match m.stack.last() {
                Frame::Await(pending) => resume(m.popped(), pending, event),
                _ => m.defect(Defect::Protocol),
            }
        },
        Control::Done(end) => m.halt(end),
    }
}

} // verus!
