//! The interpreter: the abstract machine in executable form.

use vstd::prelude::*;
use vstd::string::*;
use crate::codec::{bring_in, copy_value, copy_values, is_importable, line_pieces};
use crate::host::{Action, Defect, Event, Header, Outcome};
use crate::messages::{
    cast_message,
    fault_message,
    index_message,
    money_message,
    parse_message,
    rejection_message,
};
use crate::model;
use crate::ops::{cast, clamp_to_char, infix, operator_of, prefix, scalar, Computed, Scalar};
use crate::refs::{kept, law_starts_kept, law_stays_kept};
use crate::safety::{in_order, law_starts_in_order, law_stays_in_order};
use crate::scope::ScopeChain;
use crate::state::{
    variable_views,
    Callee,
    Control,
    Expect,
    Final,
    Frame,
    Machine,
    Pending,
    Stage,
    Variable,
};
use crate::text::{commas_to_periods, parse_int};
use crate::tree::{
    AendereStmt,
    AssignExpr,
    Block,
    CallBase,
    CallExpr,
    CastExpr,
    Expression,
    IfExpr,
    InfixExpr,
    InfixOp,
    LetStmt,
    ListExpr,
    MemberExpr,
    ObjectExpr,
    PrefixExpr,
    PrefixOp,
    Program,
    Statement,
    Type,
    WhileStmt,
};
use crate::types::{is_of_type, name_of_type, name_of_value};
use crate::value::{
    fields_view,
    find_field,
    upsert_field,
    Field,
    FieldView,
    HeapObject,
    InterruptKind,
    Store,
    Value,
};
use crate::world::{draw_number, ClockReading, World};

verus! {

/// Runs one program, step by step.
///
/// Its view is the [`Machine`] that the model speaks of. An interpreter made
/// by [`Interpreter::new`] is in order and holds together, and every step
/// keeps it so.
pub struct Interpreter<'a> {
    program: &'a Program,
    environment: Vec<Variable>,
    control: Control<'a>,
    stack: Vec<Frame<'a>>,
    operands: Vec<Value>,
    scopes: ScopeChain<'a>,
    store: Store,
}

impl<'a> View for Interpreter<'a> {
    type V = Machine<'a>;

    closed spec fn view(&self) -> Machine<'a> {
        Machine {
            program: self.program,
            environment: variable_views(self.environment@),
            control: self.control,
            stack: self.stack@,
            operands: self.operands@,
            scopes: self.scopes@,
            store: self.store@,
        }
    }
}

/// Applies an infix operator to two values, of which both may be texts.
fn binary(store: &mut Store, op: InfixOp, lhs: Value, rhs: Value) -> (computed: Computed)
    ensures
        (final(store)@, computed) == model::binary(old(store)@, op, lhs, rhs),
{
    match (store.text(lhs), store.text(rhs)) {
        (Some(a), Some(b)) => match op {
            InfixOp::Plus => {
                let mut joined = a.clone();
                joined.append(b.as_str());
                Computed::Value(store.new_text(joined))
            },
            InfixOp::Eq => Computed::Value(Value::Bool(*a == *b)),
            InfixOp::Neq => Computed::Value(Value::Bool(!(*a == *b))),
            _ => Computed::Defect,
        },
        _ => infix(op, lhs, rhs),
    }
}

/// Every method below that the model has a function of the same name for does
/// to the interpreter what that function does to the machine.
impl<'a> Interpreter<'a> {
    fn go(&mut self, control: Control<'a>) -> (action: Action)
        ensures
            (final(self)@, action@) == old(self)@.go(control),
    {
        self.control = control;
        Action::Continue
    }

    fn value(&mut self, value: Value) -> (action: Action)
        ensures
            (final(self)@, action@) == old(self)@.value(value),
    {
        self.go(Control::Value(value))
    }

    fn eval(&mut self, node: &'a Expression) -> (action: Action)
        ensures
            (final(self)@, action@) == old(self)@.eval(node),
    {
        self.go(Control::Eval(node))
    }

    fn raise(&mut self, interrupt: InterruptKind) -> (action: Action)
        ensures
            (final(self)@, action@) == old(self)@.raise(interrupt),
    {
        self.go(Control::Signal(interrupt))
    }

    fn push(&mut self, frame: Frame<'a>)
        ensures
            final(self)@ == old(self)@.pushed(frame),
    {
        self.stack.push(frame);
    }

    /// The outcome that the host is told.
    fn outcome(&self, end: Final) -> (outcome: Outcome)
        ensures
            outcome@ == model::outcome_of(self@.store, end),
    {
        match end {
            Final::Exit(code) => Outcome::Exit(code),
            Final::Error(id) => match self.store.text(Value::String(id)) {
                Some(message) => Outcome::Error(message.clone()),
                None => Outcome::Defect(Defect::Dangling),
            },
            Final::Defect(defect) => Outcome::Defect(defect),
        }
    }

    fn halt(&mut self, end: Final) -> (action: Action)
        ensures
            (final(self)@, action@) == old(self)@.halt(end),
    {
        let outcome = self.outcome(end);
        self.control = Control::Done(end);
        Action::Finish(outcome)
    }

    fn defect(&mut self, defect: Defect) -> (action: Action)
        ensures
            (final(self)@, action@) == old(self)@.defect(defect),
    {
        self.halt(Final::Defect(defect))
    }

    fn fail(&mut self, message: String) -> (action: Action)
        ensures
            (final(self)@, action@) == old(self)@.fail(message@),
    {
        let id = self.store.allocate(HeapObject::Text(message));
        self.raise(InterruptKind::Error(id))
    }

    fn ask(&mut self, action: Action, pending: Pending) -> (asked: Action)
        ensures
            (final(self)@, asked@) == old(self)@.ask(action@, pending),
    {
        self.stack.push(Frame::Await(pending));
        self.control = Control::Waiting;
        action
    }

    fn text_value(&mut self, text: String) -> (action: Action)
        ensures
            (final(self)@, action@) == old(self)@.text_value(text@),
    {
        let value = self.store.new_text(text);
        self.value(value)
    }

    fn settle(&mut self, computed: Computed) -> (action: Action)
        ensures
            (final(self)@, action@) == old(self)@.settle(computed),
    {
        match computed {
            Computed::Value(value) => self.value(value),
            Computed::Error(fault) => self.fail(fault_message(fault)),
            Computed::Host(request, kind) => self.ask(
                Action::Float(request),
                Pending::Value(kind),
            ),
            Computed::Defect => self.defect(Defect::Operands),
        }
    }

    fn settle_into(&mut self, cell: usize, computed: Computed) -> (action: Action)
        ensures
            (final(self)@, action@) == old(self)@.settle_into(cell, computed),
    {
        match computed {
            Computed::Value(value) => if self.store.write(cell, value) {
                self.value(Value::Unit)
            } else {
                self.defect(Defect::Dangling)
            },
            Computed::Error(fault) => self.fail(fault_message(fault)),
            Computed::Host(request, kind) => self.ask(
                Action::Float(request),
                Pending::Store(cell, kind),
            ),
            Computed::Defect => self.defect(Defect::Operands),
        }
    }

    fn leave(&mut self, scoped: bool)
        ensures
            final(self)@ == model::leave(old(self)@, scoped),
    {
        if scoped {
            self.scopes.pop_frame();
        }
    }

    fn run_block(&mut self, block: &'a Block, next: usize, scoped: bool) -> (action: Action)
        ensures
            (final(self)@, action@) == model::run_block(old(self)@, block, next, scoped),
    {
        if next < block.stmts.len() {
            self.push(Frame::Block(block, next + 1, scoped));
            self.visit_statement(&block.stmts[next])
        } else {
            match &block.expr {
                Some(tail) => {
                    self.push(Frame::BlockEnd(scoped));
                    self.eval(tail)
                },
                None => {
                    self.leave(scoped);
                    self.value(Value::Unit)
                },
            }
        }
    }

    fn visit_block(&mut self, block: &'a Block, new_scope: bool) -> (action: Action)
        ensures
            (final(self)@, action@) == model::visit_block(old(self)@, block, new_scope),
    {
        if new_scope {
            self.scopes.push_frame();
            self.run_block(block, 0, true)
        } else {
            self.run_block(block, 0, false)
        }
    }

    fn visit_statement(&mut self, node: &'a Statement) -> (action: Action)
        ensures
            (final(self)@, action@) == model::visit_statement(old(self)@, node),
    {
        match node {
            Statement::Beantrage => self.value(Value::Unit),
            Statement::Let(inner) => {
                self.push(Frame::Let(inner));
                self.eval(&inner.expr)
            },
            Statement::Aendere(inner) => {
                self.push(Frame::Aendere(inner));
                self.eval(&inner.expr)
            },
            Statement::Return(Some(expr)) => {
                self.push(Frame::Return);
                self.eval(expr)
            },
            Statement::Return(None) => self.raise(InterruptKind::Return(Value::Unit)),
            Statement::While(inner) => {
                self.push(Frame::WhileCond(inner));
                self.eval(&inner.cond)
            },
            Statement::Break => self.raise(InterruptKind::Break),
            Statement::Continue => self.raise(InterruptKind::Continue),
            Statement::Expr(expr) => self.eval(expr),
        }
    }

    fn next_item(&mut self, node: &'a ListExpr, done: usize) -> (action: Action)
        ensures
            (final(self)@, action@) == model::next_item(old(self)@, node, done),
    {
        if done < node.values.len() {
            self.push(Frame::ListItems(node, done));
            self.eval(&node.values[done])
        } else if self.operands.len() < done {
            self.defect(Defect::Stuck)
        } else {
            let from = self.operands.len() - done;
            let items = self.operands.split_off(from);
            let id = self.store.allocate(HeapObject::List(items));
            self.value(Value::List(id))
        }
    }

    fn visit_expression(&mut self, node: &'a Expression) -> (action: Action)
        ensures
            (final(self)@, action@) == model::visit_expression(old(self)@, node),
    {
        match node {
            Expression::Nichts => self.value(Value::Unit),
            Expression::Block(block) => self.visit_block(&**block, true),
            Expression::If(inner) => {
                self.push(Frame::IfCond(&**inner));
                self.eval(&inner.cond)
            },
            Expression::Int(i) => self.value(Value::Int(*i)),
            Expression::Float(bits) => self.value(Value::Float(*bits)),
            Expression::Bool(b) => self.value(Value::Bool(*b)),
            Expression::Char(c) => self.value(Value::Char(*c)),
            Expression::String(s) => self.text_value(s.clone()),
            Expression::List(inner) => self.next_item(inner, 0),
            Expression::Ident(inner) => match self.scopes.resolve(inner.ident.as_str()) {
                None => self.defect(Defect::UnresolvedName),
                Some(cell) => match self.store.read(cell) {
                    None => self.defect(Defect::Dangling),
                    Some(value) => self.value(value),
                },
            },
            Expression::Prefix(inner) => {
                self.push(Frame::Prefix(&**inner));
                self.eval(&inner.expr)
            },
            Expression::Infix(inner) => match inner.op {
                InfixOp::And => {
                    self.push(Frame::And(&**inner));
                    self.eval(&inner.lhs)
                },
                InfixOp::Or => {
                    self.push(Frame::Or(&**inner));
                    self.eval(&inner.lhs)
                },
                _ => {
                    self.push(Frame::InfixLhs(&**inner));
                    self.eval(&inner.lhs)
                },
            },
            Expression::Assign(inner) => {
                self.push(Frame::Assign(&**inner));
                self.eval(&inner.expr)
            },
            Expression::Call(inner) => self.next_arg(&**inner, 0),
            Expression::Cast(inner) => {
                self.push(Frame::Cast(&**inner));
                self.eval(&inner.expr)
            },
            Expression::Member(inner) => {
                self.push(Frame::Member(&**inner));
                self.eval(&inner.expr)
            },
            Expression::Index(inner) => {
                self.push(Frame::IndexBase(&**inner));
                self.eval(&inner.expr)
            },
            Expression::Grouped(inner) => self.eval(&**inner),
            Expression::Object(inner) => self.next_field(inner, 0),
        }
    }

    fn next_arg(&mut self, node: &'a CallExpr, done: usize) -> (action: Action)
        ensures
            (final(self)@, action@) == model::next_arg(old(self)@, node, done),
    {
        if done < node.args.len() {
            self.push(Frame::Args(node, done));
            self.eval(&node.args[done])
        } else {
            self.push(Frame::Dispatch(node));
            self.value(Value::Unit)
        }
    }

    fn next_field(&mut self, node: &'a ObjectExpr, done: usize) -> (action: Action)
        ensures
            (final(self)@, action@) == model::next_field(old(self)@, node, done),
    {
        if done < node.members.len() {
            self.push(Frame::ObjectFields(node, done));
            self.eval(&node.members[done].value)
        } else if self.operands.len() < done || done > node.members.len() {
            self.defect(Defect::Stuck)
        } else {
            let from = self.operands.len() - done;
            let values = self.operands.split_off(from);
            let mut fields: Vec<Field> = Vec::new();
            let mut i: usize = 0;
            assert(fields_view(fields@) =~= Seq::<FieldView>::empty());
            while i < done
                invariant
                    i <= done,
                    done == node.members@.len(),
                    done == values@.len(),
                    fields_view(fields@) == model::object_fields(
                        node.members@,
                        values@,
                        i as nat,
                    ),
                decreases done - i,
            {
                upsert_field(&mut fields, node.members[i].key.clone(), values[i]);
                i += 1;
            }
            let id = self.store.allocate(HeapObject::Fields(fields));
            self.value(Value::Objekt(id))
        }
    }

    fn finish_prefix(&mut self, node: &'a PrefixExpr, operand: Value) -> (action: Action)
        ensures
            (final(self)@, action@) == model::finish_prefix(old(self)@, node, operand),
    {
        match node.op {
            PrefixOp::Not => self.settle(prefix(PrefixOp::Not, operand)),
            PrefixOp::Neg => self.settle(prefix(PrefixOp::Neg, operand)),
            PrefixOp::Ref => match &node.expr {
                Expression::Ident(inner) => match self.scopes.resolve(inner.ident.as_str()) {
                    Some(cell) => self.value(Value::Ptr(cell)),
                    None => self.defect(Defect::UnresolvedName),
                },
                _ => self.defect(Defect::NotAddressable),
            },
            PrefixOp::Deref => match operand {
                Value::Ptr(cell) => match self.store.read(cell) {
                    Some(value) => self.value(value),
                    None => self.defect(Defect::Dangling),
                },
                _ => self.defect(Defect::Operands),
            },
        }
    }

    fn finish_infix(&mut self, op: InfixOp, lhs: Value, rhs: Value) -> (action: Action)
        ensures
            (final(self)@, action@) == model::finish_infix(old(self)@, op, lhs, rhs),
    {
        let computed = binary(&mut self.store, op, lhs, rhs);
        self.settle(computed)
    }

    fn finish_and(&mut self, node: &'a InfixExpr, lhs: Value) -> (action: Action)
        ensures
            (final(self)@, action@) == model::finish_and(old(self)@, node, lhs),
    {
        match lhs {
            Value::Bool(b) => if b {
                self.eval(&node.rhs)
            } else {
                self.value(Value::Bool(false))
            },
            _ => self.defect(Defect::Operands),
        }
    }

    fn finish_or(&mut self, node: &'a InfixExpr, lhs: Value) -> (action: Action)
        ensures
            (final(self)@, action@) == model::finish_or(old(self)@, node, lhs),
    {
        match lhs {
            Value::Bool(b) => if b {
                self.value(Value::Bool(true))
            } else {
                self.eval(&node.rhs)
            },
            _ => self.defect(Defect::Operands),
        }
    }

    /// The cell that an assignment stores into.
    fn target(&self, name: &str, hops: usize) -> (r: Result<usize, Defect>)
        ensures
            r == model::target(self@, name@, hops as nat),
    {
        match self.scopes.resolve(name) {
            None => Err(Defect::UnresolvedName),
            Some(start) => {
                let mut cell = start;
                let mut left = hops;
                while left > 0
                    invariant
                        crate::scope::resolve(self.scopes@, name@) == Some(start),
                        model::follow(self.store@, cell, left as nat) == model::follow(
                            self.store@,
                            start,
                            hops as nat,
                        ),
                    decreases left,
                {
                    match self.store.read(cell) {
                        Some(Value::Ptr(next)) => {
                            cell = next;
                            left -= 1;
                        },
                        _ => {
                            return Err(Defect::Operands);
                        },
                    }
                }
                if cell < self.store.cells.len() {
                    Ok(cell)
                } else {
                    Err(Defect::Dangling)
                }
            },
        }
    }

    fn finish_assign(&mut self, node: &'a AssignExpr, rhs: Value) -> (action: Action)
        ensures
            (final(self)@, action@) == model::finish_assign(old(self)@, node, rhs),
    {
        match self.target(node.assignee.as_str(), node.assignee_ptr_count) {
            Err(defect) => self.defect(defect),
            Ok(cell) => match operator_of(node.op) {
                None => self.defect(Defect::Operands),
                Some(op) => {
                    let current = self.store.cells[cell];
                    let computed = binary(&mut self.store, op, current, rhs);
                    self.settle_into(cell, computed)
                },
            },
        }
    }

    fn finish_aendere(&mut self, node: &'a AendereStmt, rhs: Value) -> (action: Action)
        ensures
            (final(self)@, action@) == model::finish_aendere(old(self)@, node, rhs),
    {
        match self.target(node.assignee.as_str(), node.assignee_ptr_count) {
            Err(defect) => self.defect(defect),
            Ok(cell) => {
                self.store.write(cell, rhs);
                self.value(Value::Unit)
            },
        }
    }

    /// Binds a name to a new cell in the innermost frame.
    fn bind(&mut self, name: &'a str, value: Value)
        ensures
            final(self)@ == model::bind(old(self)@, name@, value),
    {
        let cell = self.store.new_cell(value);
        self.scopes.declare(name, cell);
    }

    fn finish_let(&mut self, node: &'a LetStmt, value: Value) -> (action: Action)
        ensures
            (final(self)@, action@) == model::finish_let(old(self)@, node, value),
    {
        if self.scopes.depth() == 0 {
            self.defect(Defect::NoScope)
        } else {
            self.bind(node.name.as_str(), value);
            self.value(Value::Unit)
        }
    }

    fn finish_cast(&mut self, node: &'a CastExpr, value: Value) -> (action: Action)
        ensures
            (final(self)@, action@) == model::finish_cast(old(self)@, node, value),
    {
        if let Type::Any = node.from_type {
            if is_of_type(value, &node.as_type) {
                self.value(value)
            } else {
                let actual = name_of_value(value);
                let requested = name_of_type(&node.as_type);
                self.fail(cast_message(actual.as_str(), requested.as_str()))
            }
        } else {
            match scalar(&node.as_type) {
                None => self.defect(Defect::Operands),
                Some(target) => match self.store.text(value) {
                    None => self.settle(cast(value, target)),
                    Some(text) => {
                        let digits = commas_to_periods(text.as_str());
                        match target {
                            Scalar::Int => match parse_int(digits.as_str()) {
                                Ok(n) => self.value(Value::Int(n)),
                                Err(reason) => self.fail(
                                    parse_message(digits.as_str(), reason.as_str()),
                                ),
                            },
                            Scalar::Float => {
                                let request = Action::ParseFloat(digits.clone());
                                let source = self.store.new_text(digits);
                                self.ask(request, Pending::Parse(source))
                            },
                            _ => self.defect(Defect::Operands),
                        }
                    },
                },
            }
        }
    }

    fn finish_member(&mut self, node: &'a MemberExpr, base: Value) -> (action: Action)
        ensures
            (final(self)@, action@) == model::finish_member(old(self)@, node, base),
    {
        match self.store.fields(base) {
            Some(fields) => match find_field(fields, node.member.as_str()) {
                Some(i) => {
                    let value = fields[i].value;
                    self.value(value)
                },
                None => self.defect(Defect::Operands),
            },
            None => {
                let id = self.store.allocate(HeapObject::Bound { base, name: node.member.clone() });
                self.value(Value::BuiltinFunction(id))
            },
        }
    }

    fn finish_index(&mut self, base: Value, index: Value) -> (action: Action)
        ensures
            (final(self)@, action@) == model::finish_index(old(self)@, base, index),
    {
        match (self.store.list(base), index) {
            (Some(items), Value::Int(i)) => {
                if 0 <= i && (i as u64) < (items.len() as u64) {
                    let value = items[i as usize];
                    self.value(value)
                } else {
                    self.fail(index_message(i))
                }
            },
            _ => self.defect(Defect::Operands),
        }
    }

    fn finish_if(&mut self, node: &'a IfExpr, cond: Value) -> (action: Action)
        ensures
            (final(self)@, action@) == model::finish_if(old(self)@, node, cond),
    {
        match cond {
            Value::Bool(b) => if b {
                self.visit_block(&node.then_block, true)
            } else {
                match &node.else_block {
                    Some(block) => self.visit_block(block, true),
                    None => self.value(Value::Unit),
                }
            },
            _ => self.defect(Defect::Operands),
        }
    }

    fn finish_while_cond(&mut self, node: &'a WhileStmt, cond: Value) -> (action: Action)
        ensures
            (final(self)@, action@) == model::finish_while_cond(old(self)@, node, cond),
    {
        match cond {
            Value::Bool(b) => if b {
                self.push(Frame::WhileStart(node));
                self.ask(Action::Pause(model::LOOP_DELAY), Pending::Value(Expect::Nothing))
            } else {
                self.value(Value::Unit)
            },
            _ => self.defect(Defect::Operands),
        }
    }

    /// What a name stands for that is no builtin.
    fn find_callee(&self, name: &str) -> (r: Option<Callee>)
        ensures
            r == model::find_callee(self@.program, name@),
            r matches Some(Callee::User(i)) ==> i < self@.program.functions@.len(),
    {
        if name.eq("Bewerbung") {
            return Some(Callee::Bewerbung);
        }
        if name.eq("Einschreibung") {
            return Some(Callee::Einschreibung);
        }
        if name.eq("Studium") {
            return Some(Callee::Studium);
        }
        let functions = &self.program.functions;
        let mut i: usize = functions.len();
        while i > 0
            invariant
                i <= functions@.len(),
                functions == &self.program.functions,
                name@ != "Bewerbung"@,
                name@ != "Einschreibung"@,
                name@ != "Studium"@,
                forall|j: int|
                    i <= j < functions@.len() ==> !(functions@[j].used && (
                    #[trigger] functions@[j]).name@ == name@),
            decreases i,
        {
            i -= 1;
            if functions[i].used && functions[i].name.as_str().eq(name) {
                proof {
                    assert(model::is_last_function(functions@, name@, i as int));
                    let w = choose|w: int| model::is_last_function(functions@, name@, w);
                    if w < i {
                        assert(!(functions@[i as int].used && functions@[i as int].name@
                            == name@));
                    } else if i < w {
                        assert(!(functions@[w].used && functions@[w].name@ == name@));
                    }
                }
                return Some(Callee::User(i));
            }
        }
        proof {
            assert forall|w: int| !model::is_last_function(functions@, name@, w) by {
                if 0 <= w < functions@.len() {
                    assert(!(functions@[w].used && functions@[w].name@ == name@));
                }
            }
        }
        None
    }

    fn param_count(&self, callee: Callee) -> (n: usize)
        requires
            callee matches Callee::User(i) ==> i < self@.program.functions@.len(),
        ensures
            n == model::param_count(self@.program, callee),
    {
        match callee {
            Callee::Bewerbung => 0,
            Callee::Einschreibung => 1,
            Callee::Studium => 0,
            Callee::User(i) => self.program.functions[i].params.len(),
        }
    }

    fn param_name(&self, callee: Callee, i: usize) -> (name: &'a str)
        requires
            callee matches Callee::User(f) ==> f < self@.program.functions@.len() && i
                < self@.program.functions@[f as int].params@.len(),
        ensures
            name@ == model::param_text(self@.program, callee, i as int),
    {
        match callee {
            Callee::User(f) => self.program.functions[f].params[i].name.as_str(),
            _ => "Matrikelnummer",
        }
    }

    fn body_of(&self, callee: Callee) -> (block: &'a Block)
        requires
            callee matches Callee::User(i) ==> i < self@.program.functions@.len(),
        ensures
            block == model::body_of(self@.program, callee),
    {
        match callee {
            Callee::Bewerbung => &self.program.bewerbung_fn,
            Callee::Einschreibung => &self.program.einschreibung_fn,
            Callee::Studium => &self.program.studium_fn,
            Callee::User(i) => &self.program.functions[i].block,
        }
    }

    fn call_user(&mut self, callee: Callee, args: Vec<Value>) -> (action: Action)
        requires
            callee matches Callee::User(i) ==> i < old(self)@.program.functions@.len(),
        ensures
            (final(self)@, action@) == model::call_user(old(self)@, callee, args@),
    {
        let count = self.param_count(callee);
        let bound = if count <= args.len() {
            count
        } else {
            args.len()
        };
        self.scopes.push_frame();
        let ghost entered = self@;
        let mut i: usize = 0;
        while i < bound
            invariant
                i <= bound,
                bound <= args@.len(),
                bound <= model::param_count(entered.program, callee),
                callee matches Callee::User(f) ==> f < entered.program.functions@.len(),
                self@ == model::bind_params(entered, callee, args@, i as nat),
                self@.program == entered.program,
            decreases bound - i,
        {
            let name = self.param_name(callee, i);
            self.bind(name, args[i]);
            i += 1;
        }
        self.push(Frame::CallBody);
        let block = self.body_of(callee);
        self.run_block(block, 0, false)
    }

    fn call_aufgeben(&mut self, args: Vec<Value>) -> (action: Action)
        ensures
            (final(self)@, action@) == model::call_aufgeben(old(self)@, args@),
    {
        if args.len() > 0 {
            if let Value::Int(code) = args[0] {
                return self.raise(InterruptKind::Exit(code));
            }
        }
        self.defect(Defect::Operands)
    }

    fn call_drucke(&mut self, args: Vec<Value>) -> (action: Action)
        ensures
            (final(self)@, action@) == model::call_drucke(old(self)@, args@),
    {
        match copy_values(&self.store, &args) {
            Some(copies) => self.ask(
                Action::Write(line_pieces(copies)),
                Pending::Value(Expect::Nothing),
            ),
            None => self.defect(Defect::Dangling),
        }
    }

    fn call_zergliedere(&mut self, args: Vec<Value>) -> (action: Action)
        ensures
            (final(self)@, action@) == model::call_zergliedere(old(self)@, args@),
    {
        if args.len() == 0 {
            return self.defect(Defect::Operands);
        }
        match self.store.text(args[0]) {
            Some(text) => {
                let request = Action::Deserialize(text.clone());
                self.ask(request, Pending::Value(Expect::Data))
            },
            None => self.defect(Defect::Operands),
        }
    }

    fn call_gliedere(&mut self, args: Vec<Value>) -> (action: Action)
        ensures
            (final(self)@, action@) == model::call_gliedere(old(self)@, args@),
    {
        if args.len() == 0 {
            return self.defect(Defect::Operands);
        }
        match copy_value(&self.store, args[0]) {
            Some(copy) => self.ask(Action::Serialize(copy), Pending::Value(Expect::Text)),
            None => self.defect(Defect::Dangling),
        }
    }

    fn call_formatiere(&mut self, args: Vec<Value>) -> (action: Action)
        ensures
            (final(self)@, action@) == model::call_formatiere(old(self)@, args@),
    {
        if args.len() == 0 {
            return self.defect(Defect::Operands);
        }
        let mut args = args;
        let rest = args.split_off(1);
        match self.store.text(args[0]) {
            None => self.defect(Defect::Operands),
            Some(template) => match copy_values(&self.store, &rest) {
                Some(copies) => {
                    let request = Action::Format { template: template.clone(), args: copies };
                    self.ask(request, Pending::Value(Expect::Text))
                },
                None => self.defect(Defect::Dangling),
            },
        }
    }

    fn call_zeit(&mut self, clock: ClockReading) -> (action: Action)
        ensures
            (final(self)@, action@) == model::call_zeit(old(self)@, clock),
    {
        let mut fields: Vec<Field> = Vec::new();
        fields.push(Field { key: "Jahr".to_owned(), value: Value::Int(clock.year) });
        fields.push(Field { key: "Monat".to_owned(), value: Value::Int(clock.month) });
        fields.push(Field { key: "Kalendar_Tag".to_owned(), value: Value::Int(clock.day) });
        fields.push(Field { key: "Wochentag".to_owned(), value: Value::Int(clock.weekday) });
        fields.push(Field { key: "Stunde".to_owned(), value: Value::Int(clock.hour) });
        fields.push(Field { key: "Minute".to_owned(), value: Value::Int(clock.minute) });
        fields.push(Field { key: "Sekunde".to_owned(), value: Value::Int(clock.second) });
        assert(fields_view(fields@) =~= model::clock_fields(clock));
        let id = self.store.allocate(HeapObject::Fields(fields));
        self.value(Value::Objekt(id))
    }

    fn call_schlummere(&mut self, args: Vec<Value>) -> (action: Action)
        ensures
            (final(self)@, action@) == model::call_schlummere(old(self)@, args@),
    {
        if args.len() > 0 {
            if let Value::Float(bits) = args[0] {
                return self.ask(Action::Sleep(bits), Pending::Value(Expect::Nothing));
            }
        }
        self.defect(Defect::Operands)
    }

    fn call_umgebung(&mut self) -> (action: Action)
        ensures
            (final(self)@, action@) == model::call_umgebung(old(self)@),
    {
        let ghost variables = variable_views(self.environment@);
        let ghost start = self.store@;
        let mut fields: Vec<Field> = Vec::new();
        let mut i: usize = 0;
        assert(fields_view(fields@) =~= Seq::<FieldView>::empty());
        while i < self.environment.len()
            invariant
                i <= self.environment@.len(),
                variables == variable_views(self.environment@),
                model::environment_fields(start, variables, i as nat) == (
                    self.store@,
                    fields_view(fields@),
                ),
                self@ == old(self)@.with_store(self.store@),
            decreases self.environment@.len() - i,
        {
            assert(variables[i as int] == self.environment@[i as int]@);
            let value = self.store.new_text(self.environment[i].value.clone());
            upsert_field(&mut fields, self.environment[i].name.clone(), value);
            i += 1;
        }
        let id = self.store.allocate(HeapObject::Fields(fields));
        self.value(Value::Speicherbox(id))
    }

    fn call_http(&mut self, args: Vec<Value>) -> (action: Action)
        ensures
            (final(self)@, action@) == model::call_http(old(self)@, args@),
    {
        match http_request(&self.store, &args) {
            None => self.defect(Defect::Operands),
            Some(request) => match args[4] {
                Value::Ptr(cell) => self.ask(request, Pending::Http(cell)),
                _ => self.defect(Defect::Operands),
            },
        }
    }

    /// Calls what `name` stands for.
    fn call_func(&mut self, name: &str, args: Vec<Value>, world: World) -> (action: Action)
        ensures
            (final(self)@, action@) == model::call_func(old(self)@, name@, args@, world),
    {
        if name.eq("Aufgeben") {
            self.call_aufgeben(args)
        } else if name.eq("Drucke") {
            self.call_drucke(args)
        } else if name.eq("Zergliedere_JSON") {
            self.call_zergliedere(args)
        } else if name.eq("Gliedere_JSON") {
            self.call_gliedere(args)
        } else if name.eq("Formatiere") {
            self.call_formatiere(args)
        } else if name.eq("Zeit") {
            self.call_zeit(world.clock)
        } else if name.eq("Http") {
            self.call_http(args)
        } else if name.eq("Schlummere") {
            self.call_schlummere(args)
        } else if name.eq("Geld") {
            self.text_value(money_message())
        } else if name.eq("Umgebungsvariablen") {
            self.call_umgebung()
        } else {
            match self.find_callee(name) {
                Some(callee) => self.call_user(callee, args),
                None => self.defect(Defect::UnknownFunction),
            }
        }
    }

    /// Calls a bound builtin.
    fn invoke(&mut self, callee: Value, args: Vec<Value>) -> (action: Action)
        ensures
            (final(self)@, action@) == model::invoke(old(self)@, callee, args@),
    {
        match self.store.bound(callee) {
            None => self.defect(Defect::Operands),
            Some((base, name)) => match (
                copy_value(&self.store, base),
                copy_values(&self.store, &args),
            ) {
                (Some(base), Some(args)) => {
                    let request = Action::Invoke { name: name.clone(), base, args };
                    self.ask(request, Pending::Value(Expect::Data))
                },
                _ => self.defect(Defect::Dangling),
            },
        }
    }

    fn dispatch(&mut self, node: &'a CallExpr, world: World) -> (action: Action)
        ensures
            (final(self)@, action@) == model::dispatch(old(self)@, node, world),
    {
        match &node.func {
            CallBase::Ident(name) => if self.operands.len() < node.args.len() {
                self.defect(Defect::Stuck)
            } else {
                let from = self.operands.len() - node.args.len();
                let args = self.operands.split_off(from);
                self.call_func(name.as_str(), args, world)
            },
            CallBase::Expr(callee) => {
                self.push(Frame::Callee(node));
                self.eval(&**callee)
            },
        }
    }

    fn finish_callee(&mut self, node: &'a CallExpr, callee: Value) -> (action: Action)
        ensures
            (final(self)@, action@) == model::finish_callee(old(self)@, node, callee),
    {
        if self.operands.len() < node.args.len() {
            self.defect(Defect::Stuck)
        } else {
            let from = self.operands.len() - node.args.len();
            let args = self.operands.split_off(from);
            self.invoke(callee, args)
        }
    }

    /// Sets up the globals from index `next` on, then starts the first phase.
    fn seed(&mut self, next: usize, world: World) -> (action: Action)
        ensures
            (final(self)@, action@) == model::seed(old(self)@, next, world),
    {
        if next >= self.program.globals.len() {
            self.push(Frame::Driver(Stage::Apply));
            self.call_func("Bewerbung", Vec::new(), world)
        } else if !self.program.globals[next].used {
            self.push(Frame::Driver(Stage::Seed(next + 1)));
            self.value(Value::Unit)
        } else {
            let node: &'a Expression = &self.program.globals[next].expr;
            match node {
                Expression::Int(_) | Expression::Float(_) | Expression::Bool(_)
                | Expression::Char(_) | Expression::String(_) | Expression::List(_) => {
                    self.push(Frame::Driver(Stage::Seed(next + 1)));
                    self.push(Frame::Global(next));
                    self.eval(node)
                },
                _ => self.defect(Defect::GlobalNotConstant),
            }
        }
    }

    /// The driver goes on after a stage gave a value.
    fn drive(&mut self, stage: Stage, value: Value, world: World) -> (action: Action)
        ensures
            (final(self)@, action@) == model::drive(old(self)@, stage, value, world),
    {
        match stage {
            Stage::Seed(next) => self.seed(next, world),
            Stage::Apply => match self.store.text(value) {
                None => self.defect(Defect::PhaseResult),
                Some(letter) => if letter.as_str().unicode_len() == 0 {
                    let id = self.store.allocate(HeapObject::Text(rejection_message()));
                    self.halt(Final::Error(id))
                } else {
                    match world.entropy {
                        None => self.defect(Defect::NoEntropy),
                        Some(number) => {
                            self.push(Frame::Driver(Stage::Enroll(number as i64)));
                            let mut args: Vec<Value> = Vec::new();
                            args.push(Value::Int(number as i64));
                            assert(args@ =~= seq![Value::Int(number as i64)]);
                            self.call_func("Einschreibung", args, world)
                        },
                    }
                },
            },
            Stage::Enroll(number) => {
                self.push(Frame::Driver(Stage::Study));
                let mut args: Vec<Value> = Vec::new();
                args.push(Value::Int(number));
                assert(args@ =~= seq![Value::Int(number)]);
                self.call_func("Studium", args, world)
            },
            Stage::Study => self.halt(Final::Exit(0)),
        }
    }

    /// The driver takes up an interrupt that left a phase.
    fn drive_interrupt(&mut self, stage: Stage, interrupt: InterruptKind) -> (action: Action)
        ensures
            (final(self)@, action@) == model::drive_interrupt(old(self)@, stage, interrupt),
    {
        match (stage, interrupt) {
            (Stage::Seed(_), _) => self.defect(Defect::GlobalNotConstant),
            (_, InterruptKind::Exit(code)) => self.halt(Final::Exit(code)),
            (_, InterruptKind::Error(message)) => self.halt(Final::Error(message)),
            _ => self.defect(Defect::StrayInterrupt),
        }
    }

    fn keep(&mut self, value: Value)
        ensures
            final(self)@ == model::keep(old(self)@, value),
    {
        self.operands.push(value);
    }

    /// Hands a value to a frame that was taken off the stack.
    fn deliver(&mut self, frame: Frame<'a>, value: Value, world: World) -> (action: Action)
        ensures
            (final(self)@, action@) == model::deliver(old(self)@, frame, value, world),
    {
        match frame {
            Frame::Driver(stage) => self.drive(stage, value, world),
            Frame::Global(index) => if index < self.program.globals.len() && self.scopes.depth()
                > 0 {
                self.bind(self.program.globals[index].name.as_str(), value);
                self.value(Value::Unit)
            } else {
                self.defect(Defect::Stuck)
            },
            Frame::CallBody => {
                self.leave(true);
                self.value(value)
            },
            Frame::Args(node, done) => if done < usize::MAX {
                self.keep(value);
                self.next_arg(node, done + 1)
            } else {
                self.defect(Defect::Stuck)
            },
            Frame::Dispatch(node) => self.dispatch(node, world),
            Frame::Callee(node) => self.finish_callee(node, value),
            Frame::Block(block, next, scoped) => self.run_block(block, next, scoped),
            Frame::BlockEnd(scoped) => {
                self.leave(scoped);
                self.value(value)
            },
            Frame::Let(node) => self.finish_let(node, value),
            Frame::Aendere(node) => self.finish_aendere(node, value),
            Frame::Return => self.raise(InterruptKind::Return(value)),
            Frame::WhileCond(node) => self.finish_while_cond(node, value),
            Frame::WhileStart(node) => {
                self.push(Frame::WhileBody(node));
                self.visit_block(&node.block, true)
            },
            Frame::WhileBody(node) => {
                self.push(Frame::WhileCond(node));
                self.eval(&node.cond)
            },
            Frame::IfCond(node) => self.finish_if(node, value),
            Frame::ListItems(node, done) => if done < usize::MAX {
                self.keep(value);
                self.next_item(node, done + 1)
            } else {
                self.defect(Defect::Stuck)
            },
            Frame::Prefix(node) => self.finish_prefix(node, value),
            Frame::And(node) => self.finish_and(node, value),
            Frame::Or(node) => self.finish_or(node, value),
            Frame::InfixLhs(node) => {
                self.push(Frame::InfixRhs(node, value));
                self.eval(&node.rhs)
            },
            Frame::InfixRhs(node, lhs) => self.finish_infix(node.op, lhs, value),
            Frame::Assign(node) => self.finish_assign(node, value),
            Frame::Cast(node) => self.finish_cast(node, value),
            Frame::Member(node) => self.finish_member(node, value),
            Frame::IndexBase(node) => {
                self.push(Frame::IndexAt(value));
                self.eval(&node.index)
            },
            Frame::IndexAt(base) => self.finish_index(base, value),
            Frame::ObjectFields(node, done) => if done < usize::MAX {
                self.keep(value);
                self.next_field(node, done + 1)
            } else {
                self.defect(Defect::Stuck)
            },
            Frame::Await(_) => self.defect(Defect::Protocol),
        }
    }

    /// Drops the last `count` operands.
    fn discard(&mut self, count: usize)
        ensures
            final(self)@ == model::discard(old(self)@, count as int),
    {
        if count <= self.operands.len() {
            let keep = self.operands.len() - count;
            self.operands.truncate(keep);
        } else {
            self.operands.clear();
        }
    }

    /// Hands an interrupt to a frame that was taken off the stack.
    fn unwind(&mut self, frame: Frame<'a>, interrupt: InterruptKind) -> (action: Action)
        ensures
            (final(self)@, action@) == model::unwind(old(self)@, frame, interrupt),
    {
        match frame {
            Frame::Driver(stage) => self.drive_interrupt(stage, interrupt),
            Frame::Global(_) => self.defect(Defect::GlobalNotConstant),
            Frame::CallBody => match interrupt {
                InterruptKind::Return(value) => {
                    self.leave(true);
                    self.value(value)
                },
                InterruptKind::Exit(_) => {
                    self.leave(true);
                    self.raise(interrupt)
                },
                InterruptKind::Error(_) => {
                    self.leave(true);
                    self.raise(interrupt)
                },
                _ => self.defect(Defect::StrayInterrupt),
            },
            Frame::Block(_, _, scoped) => {
                self.leave(scoped);
                self.raise(interrupt)
            },
            Frame::BlockEnd(scoped) => {
                self.leave(scoped);
                self.raise(interrupt)
            },
            Frame::WhileBody(node) => match interrupt {
                InterruptKind::Break => self.value(Value::Unit),
                InterruptKind::Continue => {
                    self.push(Frame::WhileCond(node));
                    self.eval(&node.cond)
                },
                _ => self.raise(interrupt),
            },
            Frame::Args(_, done) => {
                self.discard(done);
                self.raise(interrupt)
            },
            Frame::ListItems(_, done) => {
                self.discard(done);
                self.raise(interrupt)
            },
            Frame::ObjectFields(_, done) => {
                self.discard(done);
                self.raise(interrupt)
            },
            Frame::Callee(node) => {
                self.discard(node.args.len());
                self.raise(interrupt)
            },
            _ => self.raise(interrupt),
        }
    }

    /// Takes up the host's answer.
    fn resume(&mut self, pending: Pending, event: Event) -> (action: Action)
        ensures
            (final(self)@, action@) == model::resume(old(self)@, pending, event@),
    {
        match pending {
            Pending::Value(expect) => match take_answer(&mut self.store, expect, event) {
                Taken::Value(value) => self.value(value),
                Taken::Failed(reason) => self.fail(reason),
                Taken::Mismatch => self.defect(Defect::Protocol),
            },
            Pending::Store(cell, expect) => match take_answer(&mut self.store, expect, event) {
                Taken::Value(value) => if self.store.write(cell, value) {
                    self.value(Value::Unit)
                } else {
                    self.defect(Defect::Dangling)
                },
                Taken::Failed(reason) => self.fail(reason),
                Taken::Mismatch => self.defect(Defect::Protocol),
            },
            Pending::Http(cell) => match event {
                Event::Http { status, body } => if cell < self.store.cells.len() {
                    let text = self.store.new_text(body);
                    self.store.write(cell, text);
                    self.value(Value::Int(status as i64))
                } else {
                    self.defect(Defect::Dangling)
                },
                Event::Failed(reason) => self.fail(reason),
                _ => self.defect(Defect::Protocol),
            },
            Pending::Parse(source) => match event {
                Event::Float(bits) => self.value(Value::Float(bits)),
                Event::Failed(reason) => match self.store.text(source) {
                    Some(text) => {
                        let message = parse_message(text.as_str(), reason.as_str());
                        self.fail(message)
                    },
                    None => self.defect(Defect::Dangling),
                },
                _ => self.defect(Defect::Protocol),
            },
        }
    }

    /// Starts a run of `program` in the given process environment.
    pub fn new(program: &'a Program, environment_variables: Vec<Variable>) -> (interpreter:
        Interpreter<'a>)
        ensures
            interpreter@ == model::initial(program, variable_views(environment_variables@)),
            in_order(interpreter@),
            kept(interpreter@),
    {
        proof {
            law_starts_in_order(program, variable_views(environment_variables@));
            law_starts_kept(program, variable_views(environment_variables@));
        }
        let mut stack: Vec<Frame<'a>> = Vec::new();
        stack.push(Frame::Driver(Stage::Seed(0)));
        let mut scopes = ScopeChain::new();
        scopes.push_frame();
        let interpreter = Interpreter {
            program,
            environment: environment_variables,
            control: Control::Value(Value::Unit),
            stack,
            operands: Vec::new(),
            scopes,
            store: Store::new(),
        };
        assert(interpreter@.stack =~= seq![Frame::Driver(Stage::Seed(0))]);
        assert(interpreter@.operands =~= Seq::<Value>::empty());
        interpreter
    }

    /// Takes one step in the given world. `event` is the host's answer to the
    /// action of the step before; the first step takes `Event::Resume`.
    pub fn step_in(&mut self, event: Event, world: World) -> (action: Action)
        ensures
            (final(self)@, action@) == model::step(old(self)@, event@, world),
            in_order(old(self)@) ==> in_order(final(self)@),
            kept(old(self)@) ==> kept(final(self)@),
    {
        proof {
            if in_order(self@) {
                law_stays_in_order(self@, event@, world);
            }
            if kept(self@) {
                law_stays_kept(self@, event@, world);
            }
        }
        let action = self.take_step(event, world);
        let cells = self.store.cells.len();
        let objects = self.store.heap.len();
        assert(self@.store.fits());
        action
    }

    /// Takes the step that the control asks for.
    fn take_step(&mut self, event: Event, world: World) -> (action: Action)
        ensures
            (final(self)@, action@) == model::step(old(self)@, event@, world),
    {
        match self.control {
            Control::Eval(node) => self.visit_expression(node),
            Control::Value(value) => match self.stack.pop() {
                Some(frame) => self.deliver(frame, value, world),
                None => self.defect(Defect::Stuck),
            },
            Control::Signal(interrupt) => match self.stack.pop() {
                Some(frame) => self.unwind(frame, interrupt),
                None => self.defect(Defect::Stuck),
            },
            Control::Waiting => {
                let depth = self.stack.len();
                if depth == 0 {
                    self.defect(Defect::Protocol)
                } else {
                    match self.stack[depth - 1] {
                        Frame::Await(pending) => {
                            self.stack.pop();
                            self.resume(pending, event)
                        },
                        _ => self.defect(Defect::Protocol),
                    }
                }
            },
            Control::Done(end) => self.halt(end),
        }
    }

    /// Whether the step at hand reads the clock: it calls the builtin `Zeit`.
    /// Any other step is the same whatever the clock shows.
    pub fn reads_clock(&self) -> (r: bool)
        ensures
            r == model::reads_clock(self@),
    {
        let depth = self.stack.len();
        if depth == 0 {
            return false;
        }
        match (self.control, self.stack[depth - 1]) {
            (Control::Value(_), Frame::Dispatch(node)) => match &node.func {
                CallBase::Ident(name) => name.as_str().eq("Zeit"),
                _ => false,
            },
            _ => false,
        }
    }

    /// Whether the step at hand draws a random number.
    fn reads_entropy(&self) -> (r: bool)
        ensures
            r == model::reads_entropy(self@),
    {
        let depth = self.stack.len();
        if depth == 0 {
            return false;
        }
        match (self.control, self.stack[depth - 1]) {
            (Control::Value(_), Frame::Driver(Stage::Apply)) => true,
            _ => false,
        }
    }

    /// Takes one step at the time that the clock shows. A random number is
    /// drawn where the step looks at one, which is when the first phase is
    /// over. The clock matters only where [`Interpreter::reads_clock`] says
    /// so.
    pub fn step(&mut self, event: Event, clock: ClockReading) -> (action: Action)
        ensures
            exists|entropy: Option<u32>|
                (final(self)@, action@) == #[trigger] model::step(
                    old(self)@,
                    event@,
                    World { clock, entropy },
                ),
            in_order(old(self)@) ==> in_order(final(self)@),
            kept(old(self)@) ==> kept(final(self)@),
    {
        let entropy = if self.reads_entropy() {
            draw_number()
        } else {
            None
        };
        self.step_in(event, World { clock, entropy })
    }
}

/// What the host's answer came to.
enum Taken {
    Value(Value),
    Failed(String),
    Mismatch,
}

/// Takes the host's answer for a value of the kind that is owed.
fn take_answer(store: &mut Store, expect: Expect, event: Event) -> (taken: Taken)
    ensures
        match taken {
            Taken::Value(value) => model::answer(old(store)@, expect, event@)
                == model::Answer::Value(final(store)@, value),
            Taken::Failed(reason) => {
                &&& model::answer(old(store)@, expect, event@) == model::Answer::Failed(reason@)
                &&& final(store)@ == old(store)@
            },
            Taken::Mismatch => {
                &&& model::answer(old(store)@, expect, event@) is Mismatch
                &&& final(store)@ == old(store)@
            },
        },
{
    match event {
        Event::Failed(reason) => Taken::Failed(reason),
        Event::Resume => if expect == Expect::Nothing {
            Taken::Value(Value::Unit)
        } else {
            Taken::Mismatch
        },
        Event::Float(bits) => if expect == Expect::Float {
            Taken::Value(Value::Float(bits))
        } else {
            Taken::Mismatch
        },
        Event::Int(i) => if expect == Expect::Int {
            Taken::Value(Value::Int(i))
        } else if expect == Expect::Char {
            Taken::Value(Value::Char(clamp_to_char(i)))
        } else {
            Taken::Mismatch
        },
        Event::Bool(b) => if expect == Expect::Bool {
            Taken::Value(Value::Bool(b))
        } else {
            Taken::Mismatch
        },
        Event::Text(text) => if expect == Expect::Text {
            Taken::Value(store.new_text(text))
        } else {
            Taken::Mismatch
        },
        Event::Data(data) => if expect == Expect::Data && is_importable(&data) {
            Taken::Value(bring_in(store, &data))
        } else {
            Taken::Mismatch
        },
        Event::Http { .. } => Taken::Mismatch,
    }
}

/// The headers that a list of objects gives.
fn header_fields(store: &Store, items: &Vec<Value>) -> (r: Option<Vec<Field>>)
    ensures
        match r {
            Some(headers) => model::header_fields(store@, items@, items@.len() as nat) == Some(
                fields_view(headers@),
            ),
            None => model::header_fields(store@, items@, items@.len() as nat) is None,
        },
{
    let mut headers: Vec<Field> = Vec::new();
    let mut i: usize = 0;
    assert(fields_view(headers@) =~= Seq::<FieldView>::empty());
    while i < items.len()
        invariant
            i <= items@.len(),
            model::header_fields(store@, items@, i as nat) == Some(fields_view(headers@)),
        decreases items@.len() - i,
    {
        let found = match store.fields(items[i]) {
            None => None,
            Some(fields) => match (find_field(fields, "Schlüssel"), find_field(fields, "Wert")) {
                (Some(k), Some(v)) => match (
                    store.text(fields[k].value),
                    store.text(fields[v].value),
                ) {
                    (Some(name), Some(_)) => Some((name, fields[v].value)),
                    _ => None,
                },
                _ => None,
            },
        };
        match found {
            Some((name, value)) => {
                upsert_field(&mut headers, name.clone(), value);
            },
            None => {
                proof {
                    lemma_header_fields_fails(store@, items@, (i + 1) as nat, items@.len() as nat);
                }
                return None;
            },
        }
        i += 1;
    }
    Some(headers)
}

/// Once an item gives no header, no longer run of items gives headers.
proof fn lemma_header_fields_fails(
    store: crate::value::Memory,
    items: Seq<Value>,
    n: nat,
    m: nat,
)
    requires
        n <= m <= items.len(),
        model::header_fields(store, items, n) is None,
    ensures
        model::header_fields(store, items, m) is None,
    decreases m,
{
    if n < m {
        lemma_header_fields_fails(store, items, n, (m - 1) as nat);
    }
}

/// Once a header has no text, no longer run of headers has texts.
proof fn lemma_header_list_fails(
    store: crate::value::Memory,
    headers: Seq<FieldView>,
    n: nat,
    m: nat,
)
    requires
        n <= m <= headers.len(),
        model::header_list(store, headers, n) is None,
    ensures
        model::header_list(store, headers, m) is None,
    decreases m,
{
    if n < m {
        lemma_header_list_fails(store, headers, n, (m - 1) as nat);
    }
}

/// The headers with the texts of their values.
fn header_list(store: &Store, headers: &Vec<Field>) -> (r: Option<Vec<Header>>)
    ensures
        match r {
            Some(list) => model::header_list(
                store@,
                fields_view(headers@),
                headers@.len() as nat,
            ) == Some(crate::host::header_views(list@)),
            None => model::header_list(store@, fields_view(headers@), headers@.len() as nat)
                is None,
        },
{
    let ghost views = fields_view(headers@);
    let mut list: Vec<Header> = Vec::new();
    let mut i: usize = 0;
    assert(crate::host::header_views(list@) =~= Seq::<crate::host::HeaderView>::empty());
    while i < headers.len()
        invariant
            i <= headers@.len(),
            views == fields_view(headers@),
            model::header_list(store@, views, i as nat) == Some(crate::host::header_views(list@)),
        decreases headers@.len() - i,
    {
        assert(views[i as int] == headers@[i as int]@);
        match store.text(headers[i].value) {
            Some(value) => {
                let ghost before = crate::host::header_views(list@);
                let header = Header { key: headers[i].key.clone(), value: value.clone() };
                list.push(header);
                assert(crate::host::header_views(list@) =~= before.push(header@));
            },
            None => {
                proof {
                    lemma_header_list_fails(store@, views, (i + 1) as nat, views.len());
                }
                return None;
            },
        }
        i += 1;
    }
    Some(list)
}

/// The request that the arguments of the builtin `Http` describe.
fn http_request(store: &Store, args: &Vec<Value>) -> (r: Option<Action>)
    ensures
        match r {
            Some(request) => model::http_request(store@, args@) == Some(request@),
            None => model::http_request(store@, args@) is None,
        },
        r is Some ==> args@.len() >= 5,
{
    if args.len() < 5 {
        return None;
    }
    match (store.text(args[0]), store.text(args[1]), store.text(args[2]), store.list(args[3])) {
        (Some(method), Some(url), Some(body), Some(items)) => match header_fields(store, items) {
            None => None,
            Some(fields) => match header_list(store, &fields) {
                None => None,
                Some(headers) => Some(
                    Action::Http {
                        method: method.clone(),
                        url: url.clone(),
                        body: body.clone(),
                        headers,
                    },
                ),
            },
        },
        _ => None,
    }
}

} // verus!
