use hpi_interpreter_tree::host::{Action, Data, Defect, Entry, Event, FloatRequest, Outcome, Piece};
use hpi_interpreter_tree::interpreter::Interpreter;
use hpi_interpreter_tree::state::Variable;
use hpi_interpreter_tree::tree::{
    AendereStmt, AssignExpr, AssignOp, Block, CallBase, CallExpr, CastExpr, Expression,
    FunctionDefinition, Global, IdentExpr, IfExpr, IndexExpr, InfixExpr, InfixOp, LetStmt,
    ListExpr, MemberExpr, ObjectExpr, ObjectField, Parameter, PrefixExpr, PrefixOp, Program,
    Statement, Type, WhileStmt,
};
use chrono::{Datelike, Timelike};
use hpi_interpreter_tree::world::{ClockReading, World};

// ---------------------------------------------------------------------------
// Building trees
// ---------------------------------------------------------------------------

fn num(i: i64) -> Expression {
    Expression::Int(i)
}

fn float(f: f64) -> Expression {
    Expression::Float(f.to_bits())
}

fn text(s: &str) -> Expression {
    Expression::String(s.to_string())
}

fn var(name: &str) -> Expression {
    Expression::Ident(IdentExpr { ident: name.to_string() })
}

fn infix(lhs: Expression, op: InfixOp, rhs: Expression) -> Expression {
    Expression::Infix(Box::new(InfixExpr { lhs, op, rhs }))
}

fn prefix(op: PrefixOp, expr: Expression) -> Expression {
    Expression::Prefix(Box::new(PrefixExpr { op, expr }))
}

fn call(name: &str, args: Vec<Expression>) -> Expression {
    Expression::Call(Box::new(CallExpr { func: CallBase::Ident(name.to_string()), args }))
}

fn cast(expr: Expression, from_type: Type, as_type: Type) -> Expression {
    Expression::Cast(Box::new(CastExpr { expr, from_type, as_type }))
}

fn list(values: Vec<Expression>) -> Expression {
    Expression::List(ListExpr { values })
}

fn index(expr: Expression, index: Expression) -> Expression {
    Expression::Index(Box::new(IndexExpr { expr, index }))
}

fn member(expr: Expression, name: &str) -> Expression {
    Expression::Member(Box::new(MemberExpr { expr, member: name.to_string() }))
}

fn object(members: Vec<(&str, Expression)>) -> Expression {
    Expression::Object(ObjectExpr {
        members: members
            .into_iter()
            .map(|(key, value)| ObjectField { key: key.to_string(), value })
            .collect(),
    })
}

fn compound(assignee: &str, hops: usize, op: AssignOp, expr: Expression) -> Expression {
    Expression::Assign(Box::new(AssignExpr {
        assignee: assignee.to_string(),
        assignee_ptr_count: hops,
        op,
        expr,
    }))
}

fn block_expr(stmts: Vec<Statement>, expr: Option<Expression>) -> Expression {
    Expression::Block(Box::new(Block { stmts, expr }))
}

fn if_expr(cond: Expression, then_block: Block, else_block: Option<Block>) -> Expression {
    Expression::If(Box::new(IfExpr { cond, then_block, else_block }))
}

fn let_stmt(name: &str, expr: Expression) -> Statement {
    Statement::Let(LetStmt { name: name.to_string(), expr })
}

fn assign(assignee: &str, hops: usize, expr: Expression) -> Statement {
    Statement::Aendere(AendereStmt {
        assignee: assignee.to_string(),
        assignee_ptr_count: hops,
        expr,
    })
}

fn while_stmt(cond: Expression, stmts: Vec<Statement>) -> Statement {
    Statement::While(WhileStmt { cond, block: Block { stmts, expr: None } })
}

fn print(args: Vec<Expression>) -> Statement {
    Statement::Expr(call("Drucke", args))
}

fn body(stmts: Vec<Statement>) -> Block {
    Block { stmts, expr: None }
}

/// A first phase that is accepted.
fn accepted() -> Block {
    Block { stmts: vec![], expr: Some(text("Bitte")) }
}

/// A program whose third phase runs the given statements.
fn study(stmts: Vec<Statement>) -> Program {
    Program {
        globals: vec![],
        functions: vec![],
        bewerbung_fn: accepted(),
        einschreibung_fn: body(vec![]),
        studium_fn: body(stmts),
    }
}

fn function(name: &str, params: Vec<&str>, block: Block) -> FunctionDefinition {
    FunctionDefinition {
        used: true,
        name: name.to_string(),
        params: params
            .into_iter()
            .map(|p| Parameter { name: p.to_string(), type_: Type::Any })
            .collect(),
        return_type: Type::Any,
        block,
    }
}

// ---------------------------------------------------------------------------
// A host
// ---------------------------------------------------------------------------

struct Host {
    output: String,
    pauses: u64,
    slept: Vec<f64>,
    requests: Vec<String>,
    invoked: Vec<String>,
    steps: u64,
}

fn world() -> World {
    World {
        clock: ClockReading {
            year: 2024,
            month: 2,
            day: 29,
            weekday: 3,
            hour: 13,
            minute: 37,
            second: 42,
        },
        entropy: Some(4711),
    }
}

fn compute(request: FloatRequest) -> Event {
    match request {
        FloatRequest::Infix(op, a, b) => {
            let (a, b) = (f64::from_bits(a), f64::from_bits(b));
            match op {
                InfixOp::Plus => Event::Float((a + b).to_bits()),
                InfixOp::Minus => Event::Float((a - b).to_bits()),
                InfixOp::Mul => Event::Float((a * b).to_bits()),
                InfixOp::Div => Event::Float((a / b).to_bits()),
                InfixOp::Rem => Event::Float((a % b).to_bits()),
                InfixOp::Pow => Event::Float(a.powf(b).to_bits()),
                InfixOp::Eq => Event::Bool(a == b),
                InfixOp::Neq => Event::Bool(a != b),
                InfixOp::Lt => Event::Bool(a < b),
                InfixOp::Gt => Event::Bool(a > b),
                InfixOp::Lte => Event::Bool(a <= b),
                InfixOp::Gte => Event::Bool(a >= b),
                _ => Event::Failed("no such operator on floats".to_string()),
            }
        }
        FloatRequest::Negate(a) => Event::Float((-f64::from_bits(a)).to_bits()),
        FloatRequest::FromInt(i) => Event::Float((i as f64).to_bits()),
        FloatRequest::ToInt(a) => Event::Int(f64::from_bits(a) as i64),
        FloatRequest::ToBool(a) => Event::Bool(f64::from_bits(a) != 0.0),
    }
}

fn show(data: &Data) -> String {
    match data {
        Data::Unit => "null".to_string(),
        Data::Int(i) => format!("{i}"),
        Data::Float(bits) => format!("{}", f64::from_bits(*bits)),
        Data::Bool(b) => format!("{b}"),
        Data::Char(c) => format!("'{}'", *c as char),
        Data::Text(s) => format!("{s:?}"),
        Data::List(items) => {
            let parts: Vec<String> = items.iter().map(show).collect();
            format!("[{}]", parts.join(","))
        }
        Data::Objekt(entries) | Data::Speicherbox(entries) => {
            let parts: Vec<String> =
                entries.iter().map(|e| format!("{:?}:{}", e.key, show(&e.value))).collect();
            format!("{{{}}}", parts.join(","))
        }
        Data::Ptr => "<ptr>".to_string(),
        Data::BuiltinFunction => "<fn>".to_string(),
    }
}

impl Host {
    fn new() -> Host {
        Host {
            output: String::new(),
            pauses: 0,
            slept: vec![],
            requests: vec![],
            invoked: vec![],
            steps: 0,
        }
    }

    fn perform(&mut self, action: Action) -> Result<Event, Outcome> {
        Ok(match action {
            Action::Continue => Event::Resume,
            Action::Write(pieces) => {
                for piece in pieces {
                    match piece {
                        Piece::Text(s) => self.output.push_str(&s),
                        Piece::Float(bits) => {
                            self.output.push_str(&format!("{}", f64::from_bits(bits)))
                        }
                    }
                }
                Event::Resume
            }
            Action::Pause(millis) => {
                assert_eq!(millis, 50);
                self.pauses += 1;
                Event::Resume
            }
            Action::Sleep(bits) => {
                self.slept.push(f64::from_bits(bits));
                Event::Resume
            }
            Action::Float(request) => compute(request),
            Action::ParseFloat(text) => match text.parse::<f64>() {
                Ok(f) => Event::Float(f.to_bits()),
                Err(error) => Event::Failed(error.to_string()),
            },
            Action::Deserialize(text) => {
                if text == "[1, \"zwei\"]" {
                    Event::Data(Data::List(vec![Data::Int(1), Data::Text("zwei".to_string())]))
                } else if text == "{\"a\": 1, \"a\": 2}" {
                    Event::Data(Data::Objekt(vec![
                        Entry { key: "a".to_string(), value: Data::Int(1) },
                        Entry { key: "a".to_string(), value: Data::Int(2) },
                    ]))
                } else {
                    Event::Failed(format!("kein JSON: {text}"))
                }
            }
            Action::Serialize(data) => match data {
                Data::Ptr => Event::Failed("Zeiger haben keine Darstellung".to_string()),
                other => Event::Text(show(&other)),
            },
            Action::Format { template, args } => {
                let parts: Vec<String> = args.iter().map(show).collect();
                Event::Text(format!("{template}<{}>", parts.join("|")))
            }
            Action::Http { method, url, body, headers } => {
                let heads: Vec<String> =
                    headers.iter().map(|h| format!("{}={}", h.key, h.value)).collect();
                self.requests.push(format!("{method} {url} {body} [{}]", heads.join(";")));
                if url == "http://unreachable" {
                    Event::Failed("keine Verbindung".to_string())
                } else {
                    Event::Http { status: 201, body: "Antwort".to_string() }
                }
            }
            Action::Invoke { name, base, args } => {
                let parts: Vec<String> = args.iter().map(show).collect();
                self.invoked.push(format!("{}.{name}({})", show(&base), parts.join(",")));
                match base {
                    Data::List(items) => Event::Data(Data::Int(items.len() as i64)),
                    _ => Event::Data(Data::Unit),
                }
            }
            Action::Finish(outcome) => return Err(outcome),
        })
    }

    /// Runs the program to its end, in a world that is always the same.
    fn run(&mut self, program: &Program, environment: Vec<Variable>) -> Outcome {
        let mut interpreter = Interpreter::new(program, environment);
        let mut event = Event::Resume;
        loop {
            self.steps += 1;
            assert!(self.steps < 1_000_000, "the run does not end");
            let action = interpreter.step_in(event, world());
            match self.perform(action) {
                Ok(next) => event = next,
                Err(outcome) => return outcome,
            }
        }
    }
}

fn run(program: &Program) -> (Outcome, Host) {
    let mut host = Host::new();
    let outcome = host.run(program, vec![]);
    (outcome, host)
}

fn output_of(stmts: Vec<Statement>) -> String {
    let program = study(stmts);
    let (outcome, host) = run(&program);
    assert!(matches!(outcome, Outcome::Exit(0)), "{outcome:?}");
    host.output
}

fn error_of(stmts: Vec<Statement>) -> String {
    let program = study(stmts);
    let (outcome, _) = run(&program);
    match outcome {
        Outcome::Error(message) => message,
        other => panic!("no error: {other:?}"),
    }
}

// ---------------------------------------------------------------------------
// The run as a whole
// ---------------------------------------------------------------------------

#[test]
fn empty_program_ends_with_status_zero() {
    let (outcome, host) = run(&study(vec![]));
    assert!(matches!(outcome, Outcome::Exit(0)));
    assert_eq!(host.output, "");
}

#[test]
fn emit_writes_arguments_separated_by_spaces() {
    let out = output_of(vec![print(vec![num(1), float(2.5), text("hi")])]);
    assert_eq!(out, "1 2.5 hi\n");
}

#[test]
fn emit_without_arguments_writes_an_empty_line() {
    assert_eq!(output_of(vec![print(vec![])]), "\n");
}

#[test]
fn emit_shows_every_kind_of_value() {
    let out = output_of(vec![print(vec![
        Expression::Nichts,
        num(-17),
        Expression::Bool(true),
        Expression::Bool(false),
        Expression::Char(b'x'),
        list(vec![num(1), float(0.5), list(vec![])]),
        object(vec![("a", num(1)), ("b", text("c"))]),
    ])]);
    assert_eq!(out, "() -17 true false x [1, 0.5, []] {a: 1, b: c}\n");
}

#[test]
fn empty_application_is_rejected_and_nothing_else_runs() {
    let program = Program {
        globals: vec![],
        functions: vec![],
        bewerbung_fn: Block { stmts: vec![], expr: Some(text("")) },
        einschreibung_fn: body(vec![print(vec![text("zwei")])]),
        studium_fn: body(vec![print(vec![text("drei")])]),
    };
    let (outcome, host) = run(&program);
    match outcome {
        Outcome::Error(message) => assert_eq!(
            message,
            "Ihre Bewerbung hat das HPI leider nicht überzeugt.\n Ist Ihr Bewerbungsschreiben vielleicht leer?"
        ),
        other => panic!("{other:?}"),
    }
    assert_eq!(host.output, "");
}

#[test]
fn phases_run_in_order() {
    let program = Program {
        globals: vec![],
        functions: vec![],
        bewerbung_fn: Block {
            stmts: vec![print(vec![text("eins")])],
            expr: Some(text("Bitte")),
        },
        einschreibung_fn: body(vec![print(vec![text("zwei"), var("Matrikelnummer")])]),
        studium_fn: body(vec![print(vec![text("drei")])]),
    };
    let (outcome, host) = run(&program);
    assert!(matches!(outcome, Outcome::Exit(0)));
    assert_eq!(host.output, "eins\nzwei 4711\ndrei\n");
}

#[test]
fn application_may_return_its_text() {
    let program = Program {
        globals: vec![],
        functions: vec![],
        bewerbung_fn: body(vec![Statement::Return(Some(text("Bitte")))]),
        einschreibung_fn: body(vec![]),
        studium_fn: body(vec![print(vec![text("da")])]),
    };
    let (outcome, host) = run(&program);
    assert!(matches!(outcome, Outcome::Exit(0)));
    assert_eq!(host.output, "da\n");
}

#[test]
fn application_without_text_is_a_defect() {
    let program = Program {
        globals: vec![],
        functions: vec![],
        bewerbung_fn: body(vec![]),
        einschreibung_fn: body(vec![]),
        studium_fn: body(vec![]),
    };
    let (outcome, _) = run(&program);
    assert!(matches!(outcome, Outcome::Defect(Defect::PhaseResult)));
}

#[test]
fn terminate_ends_the_run_with_its_status() {
    let program = study(vec![
        print(vec![text("vor")]),
        Statement::Expr(call("Aufgeben", vec![num(42)])),
        print(vec![text("nach")]),
    ]);
    let (outcome, host) = run(&program);
    assert!(matches!(outcome, Outcome::Exit(42)));
    assert_eq!(host.output, "vor\n");
}

#[test]
fn terminate_in_the_first_phase_skips_the_others() {
    let program = Program {
        globals: vec![],
        functions: vec![],
        bewerbung_fn: body(vec![Statement::Expr(call("Aufgeben", vec![num(3)]))]),
        einschreibung_fn: body(vec![print(vec![text("zwei")])]),
        studium_fn: body(vec![print(vec![text("drei")])]),
    };
    let (outcome, host) = run(&program);
    assert!(matches!(outcome, Outcome::Exit(3)));
    assert_eq!(host.output, "");
}

#[test]
fn terminate_inside_a_function_inside_a_loop_ends_the_run() {
    let mut program = study(vec![while_stmt(
        Expression::Bool(true),
        vec![Statement::Expr(call("raus", vec![]))],
    )]);
    program.functions.push(function(
        "raus",
        vec![],
        body(vec![Statement::Expr(call("Aufgeben", vec![num(7)]))]),
    ));
    let (outcome, host) = run(&program);
    assert!(matches!(outcome, Outcome::Exit(7)));
    assert_eq!(host.pauses, 1);
}

#[test]
fn run_stays_over_once_it_is_over() {
    let program = study(vec![]);
    let mut interpreter = Interpreter::new(&program, vec![]);
    let mut finished = 0;
    for _ in 0..100 {
        if let Action::Finish(outcome) = interpreter.step_in(Event::Resume, world()) {
            assert!(matches!(outcome, Outcome::Exit(0)));
            finished += 1;
        } else {
            assert_eq!(finished, 0);
        }
    }
    assert!(finished > 1);
}

#[test]
fn globals_are_seen_by_every_phase_and_function() {
    let mut program = study(vec![
        print(vec![var("g"), call("lies", vec![])]),
        assign("g", 0, num(2)),
        print(vec![var("g"), call("lies", vec![])]),
    ]);
    program.globals.push(Global { used: true, name: "g".to_string(), expr: num(1) });
    program.globals.push(Global { used: false, name: "h".to_string(), expr: num(9) });
    program.globals.push(Global {
        used: true,
        name: "l".to_string(),
        expr: list(vec![num(1), num(2)]),
    });
    program.functions.push(function("lies", vec![], Block { stmts: vec![], expr: Some(var("g")) }));
    let (outcome, host) = run(&program);
    assert!(matches!(outcome, Outcome::Exit(0)));
    assert_eq!(host.output, "1 1\n2 2\n");
}

#[test]
fn unused_global_is_not_bound() {
    let mut program = study(vec![print(vec![var("h")])]);
    program.globals.push(Global { used: false, name: "h".to_string(), expr: num(9) });
    let (outcome, _) = run(&program);
    assert!(matches!(outcome, Outcome::Defect(Defect::UnresolvedName)));
}

#[test]
fn global_that_is_no_constant_is_a_defect() {
    let mut program = study(vec![]);
    program.globals.push(Global {
        used: true,
        name: "g".to_string(),
        expr: infix(num(1), InfixOp::Plus, num(2)),
    });
    let (outcome, _) = run(&program);
    assert!(matches!(outcome, Outcome::Defect(Defect::GlobalNotConstant)));
}

// ---------------------------------------------------------------------------
// Scopes
// ---------------------------------------------------------------------------

#[test]
fn binding_of_a_block_ends_with_the_block() {
    let program = study(vec![
        Statement::Expr(block_expr(vec![let_stmt("innen", num(1))], None)),
        print(vec![var("innen")]),
    ]);
    let (outcome, _) = run(&program);
    assert!(matches!(outcome, Outcome::Defect(Defect::UnresolvedName)));
}

#[test]
fn shadowing_leaves_the_outer_cell_alone() {
    let out = output_of(vec![
        let_stmt("x", num(1)),
        Statement::Expr(block_expr(
            vec![let_stmt("x", num(2)), assign("x", 0, num(3)), print(vec![var("x")])],
            None,
        )),
        print(vec![var("x")]),
    ]);
    assert_eq!(out, "3\n1\n");
}

#[test]
fn redeclaration_in_one_scope_makes_a_new_cell() {
    let out = output_of(vec![
        let_stmt("x", num(1)),
        let_stmt("p", prefix(PrefixOp::Ref, var("x"))),
        let_stmt("x", num(2)),
        assign("x", 0, num(3)),
        print(vec![var("x"), prefix(PrefixOp::Deref, var("p"))]),
    ]);
    assert_eq!(out, "3 1\n");
}

#[test]
fn block_gives_the_value_of_its_trailing_expression() {
    let out = output_of(vec![print(vec![
        block_expr(vec![let_stmt("a", num(2))], Some(infix(var("a"), InfixOp::Mul, num(21)))),
        block_expr(vec![], None),
    ])]);
    assert_eq!(out, "42 ()\n");
}

#[test]
fn scope_is_left_when_an_interrupt_passes() {
    let mut program = study(vec![
        let_stmt("x", num(1)),
        print(vec![call("f", vec![]), var("x")]),
    ]);
    program.functions.push(function(
        "f",
        vec![],
        body(vec![
            let_stmt("x", num(5)),
            Statement::Expr(block_expr(
                vec![let_stmt("x", num(6)), Statement::Return(Some(var("x")))],
                None,
            )),
        ]),
    ));
    let (outcome, host) = run(&program);
    assert!(matches!(outcome, Outcome::Exit(0)));
    assert_eq!(host.output, "6 1\n");
}

// ---------------------------------------------------------------------------
// Pointers
// ---------------------------------------------------------------------------

#[test]
fn pointers_to_one_variable_see_each_others_writes() {
    let out = output_of(vec![
        let_stmt("x", num(1)),
        let_stmt("p", prefix(PrefixOp::Ref, var("x"))),
        let_stmt("q", prefix(PrefixOp::Ref, var("x"))),
        assign("p", 1, num(10)),
        print(vec![var("x"), prefix(PrefixOp::Deref, var("p")), prefix(PrefixOp::Deref, var("q"))]),
        assign("x", 0, num(20)),
        print(vec![prefix(PrefixOp::Deref, var("p")), prefix(PrefixOp::Deref, var("q"))]),
    ]);
    assert_eq!(out, "10 10 10\n20 20\n");
}

#[test]
fn assignment_through_a_pointer_does_not_retarget_its_sibling() {
    let out = output_of(vec![
        let_stmt("x", num(1)),
        let_stmt("y", num(2)),
        let_stmt("p", prefix(PrefixOp::Ref, var("x"))),
        let_stmt("q", prefix(PrefixOp::Ref, var("x"))),
        assign("p", 1, num(5)),
        assign("y", 0, num(9)),
        print(vec![prefix(PrefixOp::Deref, var("q")), var("y")]),
    ]);
    assert_eq!(out, "5 9\n");
}

#[test]
fn pointer_to_a_pointer_is_followed_twice() {
    let out = output_of(vec![
        let_stmt("x", num(1)),
        let_stmt("p", prefix(PrefixOp::Ref, var("x"))),
        let_stmt("pp", prefix(PrefixOp::Ref, var("p"))),
        assign("pp", 2, num(8)),
        Statement::Expr(compound("pp", 2, AssignOp::Plus, num(1))),
        print(vec![var("x")]),
    ]);
    assert_eq!(out, "9\n");
}

#[test]
fn pointer_outlives_the_scope_of_its_variable() {
    let mut program = study(vec![
        let_stmt("p", call("zeiger", vec![])),
        assign("p", 1, num(4)),
        print(vec![prefix(PrefixOp::Deref, var("p"))]),
    ]);
    program.functions.push(function(
        "zeiger",
        vec![],
        Block { stmts: vec![let_stmt("lokal", num(3))], expr: Some(prefix(PrefixOp::Ref, var("lokal"))) },
    ));
    let (outcome, host) = run(&program);
    assert!(matches!(outcome, Outcome::Exit(0)));
    assert_eq!(host.output, "4\n");
}

#[test]
fn address_of_something_else_than_a_variable_is_a_defect() {
    let program = study(vec![Statement::Expr(prefix(PrefixOp::Ref, num(1)))]);
    let (outcome, _) = run(&program);
    assert!(matches!(outcome, Outcome::Defect(Defect::NotAddressable)));
}

#[test]
fn text_is_copied_on_assignment() {
    let out = output_of(vec![
        let_stmt("a", text("x")),
        let_stmt("b", var("a")),
        Statement::Expr(compound("a", 0, AssignOp::Plus, text("y"))),
        print(vec![var("a"), var("b")]),
    ]);
    assert_eq!(out, "xy x\n");
}

// ---------------------------------------------------------------------------
// Operators
// ---------------------------------------------------------------------------

#[test]
fn and_with_false_never_evaluates_its_right_side() {
    let out = output_of(vec![
        let_stmt(
            "r",
            infix(
                Expression::Bool(false),
                InfixOp::And,
                block_expr(vec![print(vec![text("Wirkung")])], Some(Expression::Bool(true))),
            ),
        ),
        print(vec![var("r")]),
    ]);
    assert_eq!(out, "false\n");
}

#[test]
fn or_with_true_never_evaluates_its_right_side() {
    let out = output_of(vec![
        let_stmt(
            "r",
            infix(
                Expression::Bool(true),
                InfixOp::Or,
                block_expr(vec![print(vec![text("Wirkung")])], Some(Expression::Bool(false))),
            ),
        ),
        print(vec![var("r")]),
    ]);
    assert_eq!(out, "true\n");
}

#[test]
fn and_with_true_and_or_with_false_give_their_right_side() {
    let effect = |value: bool| {
        block_expr(vec![print(vec![text("Wirkung")])], Some(Expression::Bool(value)))
    };
    let out = output_of(vec![
        print(vec![infix(Expression::Bool(true), InfixOp::And, effect(false))]),
        print(vec![infix(Expression::Bool(false), InfixOp::Or, effect(true))]),
    ]);
    assert_eq!(out, "Wirkung\nfalse\nWirkung\ntrue\n");
}

#[test]
fn other_operators_evaluate_left_then_right() {
    let side = |name: &str, value: i64| {
        block_expr(vec![print(vec![text(name)])], Some(num(value)))
    };
    let out = output_of(vec![print(vec![infix(side("links", 7), InfixOp::Minus, side("rechts", 2))])]);
    assert_eq!(out, "links\nrechts\n5\n");
}

#[test]
fn division_by_zero_is_an_error() {
    let message = error_of(vec![Statement::Expr(infix(num(5), InfixOp::Div, num(0)))]);
    assert_eq!(message, "Division durch Null");
}

#[test]
fn remainder_by_zero_is_an_error() {
    let message = error_of(vec![Statement::Expr(infix(num(5), InfixOp::Rem, num(0)))]);
    assert_eq!(message, "Rest einer Division durch Null");
}

#[test]
fn float_division_and_remainder_by_zero_are_errors() {
    let message = error_of(vec![Statement::Expr(infix(float(5.0), InfixOp::Div, float(0.0)))]);
    assert_eq!(message, "Division durch Null");
    let message = error_of(vec![Statement::Expr(infix(float(5.0), InfixOp::Div, float(-0.0)))]);
    assert_eq!(message, "Division durch Null");
    let message = error_of(vec![Statement::Expr(infix(float(5.0), InfixOp::Rem, float(0.0)))]);
    assert_eq!(message, "Rest einer Division durch Null");
    let message = error_of(vec![
        let_stmt("f", float(1.0)),
        Statement::Expr(compound("f", 0, AssignOp::Div, float(0.0))),
    ]);
    assert_eq!(message, "Division durch Null");
    let out = output_of(vec![print(vec![
        infix(float(0.0), InfixOp::Div, float(4.0)),
        infix(float(5.0), InfixOp::Rem, float(1.5)),
    ])]);
    assert_eq!(out, "0 0.5\n");
}

#[test]
fn shift_by_a_negative_amount_is_an_error() {
    let message = error_of(vec![Statement::Expr(infix(num(1), InfixOp::Shl, num(-1)))]);
    assert_eq!(message, "Ungültige Verschiebung nach links um `-1`");
    let message = error_of(vec![Statement::Expr(infix(num(1), InfixOp::Shr, num(-3)))]);
    assert_eq!(message, "Ungültige Verschiebung nach rechts um `-3`");
}

#[test]
fn shift_by_the_width_or_more_is_an_error() {
    let message = error_of(vec![Statement::Expr(infix(num(1), InfixOp::Shl, num(64)))]);
    assert_eq!(message, "Ungültige Verschiebung nach links um `64`");
    let message = error_of(vec![Statement::Expr(infix(num(1), InfixOp::Shr, num(1000)))]);
    assert_eq!(message, "Ungültige Verschiebung nach rechts um `1000`");
}

#[test]
fn error_stops_the_run_where_it_is_raised() {
    let program = study(vec![
        print(vec![text("vor")]),
        Statement::Expr(infix(num(5), InfixOp::Div, num(0))),
        print(vec![text("nach")]),
    ]);
    let (outcome, host) = run(&program);
    assert!(matches!(outcome, Outcome::Error(_)));
    assert_eq!(host.output, "vor\n");
}

#[test]
fn integer_arithmetic() {
    let out = output_of(vec![print(vec![
        infix(num(7), InfixOp::Plus, num(5)),
        infix(num(7), InfixOp::Minus, num(9)),
        infix(num(7), InfixOp::Mul, num(-3)),
        infix(num(-7), InfixOp::Div, num(2)),
        infix(num(-7), InfixOp::Rem, num(2)),
        infix(num(7), InfixOp::Rem, num(-2)),
        infix(num(2), InfixOp::Pow, num(10)),
        infix(num(2), InfixOp::Pow, num(-1)),
        infix(num(1), InfixOp::Shl, num(63)),
        infix(num(-8), InfixOp::Shr, num(1)),
        infix(num(12), InfixOp::BitAnd, num(10)),
        infix(num(12), InfixOp::BitOr, num(10)),
        infix(num(12), InfixOp::BitXor, num(10)),
        prefix(PrefixOp::Neg, num(5)),
    ])]);
    assert_eq!(out, "12 -2 -21 -3 -1 1 1024 0 -9223372036854775808 -4 8 14 6 -5\n");
}

#[test]
fn integer_arithmetic_wraps_around() {
    let out = output_of(vec![print(vec![
        infix(num(i64::MAX), InfixOp::Plus, num(1)),
        infix(num(i64::MIN), InfixOp::Minus, num(1)),
        infix(num(i64::MAX), InfixOp::Mul, num(2)),
        infix(num(i64::MIN), InfixOp::Div, num(-1)),
        infix(num(i64::MIN), InfixOp::Rem, num(-1)),
        infix(num(3), InfixOp::Pow, num(41)),
        prefix(PrefixOp::Neg, num(i64::MIN)),
    ])]);
    assert_eq!(
        out,
        "-9223372036854775808 9223372036854775807 -2 -9223372036854775808 0 -420491770248316829 -9223372036854775808\n"
    );
}

#[test]
fn comparisons_of_integers() {
    let out = output_of(vec![print(vec![
        infix(num(1), InfixOp::Eq, num(1)),
        infix(num(1), InfixOp::Neq, num(1)),
        infix(num(1), InfixOp::Lt, num(2)),
        infix(num(1), InfixOp::Gt, num(2)),
        infix(num(2), InfixOp::Lte, num(2)),
        infix(num(1), InfixOp::Gte, num(2)),
    ])]);
    assert_eq!(out, "true false true false true false\n");
}

#[test]
fn float_arithmetic_goes_through_the_host() {
    let out = output_of(vec![print(vec![
        infix(float(1.5), InfixOp::Plus, float(2.25)),
        infix(float(1.0), InfixOp::Div, float(4.0)),
        infix(float(2.0), InfixOp::Pow, float(0.5)),
        infix(float(1.5), InfixOp::Lt, float(2.0)),
        infix(float(1.5), InfixOp::Eq, float(2.0)),
        prefix(PrefixOp::Neg, float(2.5)),
    ])]);
    assert_eq!(out, "3.75 0.25 1.4142135623730951 true false -2.5\n");
}

#[test]
fn booleans_and_characters() {
    let out = output_of(vec![print(vec![
        prefix(PrefixOp::Not, Expression::Bool(true)),
        infix(Expression::Bool(true), InfixOp::BitXor, Expression::Bool(true)),
        infix(Expression::Bool(true), InfixOp::BitAnd, Expression::Bool(false)),
        infix(Expression::Bool(false), InfixOp::BitOr, Expression::Bool(true)),
        infix(Expression::Bool(false), InfixOp::Eq, Expression::Bool(false)),
        infix(Expression::Char(b'a'), InfixOp::Plus, Expression::Char(1)),
        infix(Expression::Char(100), InfixOp::Plus, Expression::Char(100)),
        infix(Expression::Char(b'a'), InfixOp::Lt, Expression::Char(b'b')),
    ])]);
    assert_eq!(out, "false false false true true b H true\n");
}

#[test]
fn texts_are_joined_and_compared() {
    let out = output_of(vec![print(vec![
        infix(text("Hallo, "), InfixOp::Plus, text("Welt")),
        infix(text("a"), InfixOp::Eq, text("a")),
        infix(text("a"), InfixOp::Neq, text("a")),
        infix(text("a"), InfixOp::Eq, text("b")),
    ])]);
    assert_eq!(out, "Hallo, Welt true false false\n");
}

#[test]
fn operands_of_different_types_are_a_defect() {
    let program = study(vec![Statement::Expr(infix(num(1), InfixOp::Plus, Expression::Bool(true)))]);
    let (outcome, _) = run(&program);
    assert!(matches!(outcome, Outcome::Defect(Defect::Operands)));
}

#[test]
fn compound_assignment_applies_the_operator() {
    let out = output_of(vec![
        let_stmt("x", num(10)),
        Statement::Expr(compound("x", 0, AssignOp::Plus, num(5))),
        Statement::Expr(compound("x", 0, AssignOp::Mul, num(2))),
        Statement::Expr(compound("x", 0, AssignOp::Minus, num(6))),
        Statement::Expr(compound("x", 0, AssignOp::Div, num(5))),
        Statement::Expr(compound("x", 0, AssignOp::Pow, num(2))),
        Statement::Expr(compound("x", 0, AssignOp::Rem, num(5))),
        Statement::Expr(compound("x", 0, AssignOp::Shl, num(3))),
        Statement::Expr(compound("x", 0, AssignOp::BitOr, num(1))),
        print(vec![var("x"), compound("x", 0, AssignOp::Plus, num(0))]),
        let_stmt("f", float(1.5)),
        Statement::Expr(compound("f", 0, AssignOp::Plus, float(1.0))),
        print(vec![var("f")]),
    ]);
    assert_eq!(out, "9 ()\n2.5\n");
}

#[test]
fn compound_assignment_by_zero_is_an_error_and_stores_nothing() {
    let message = error_of(vec![
        let_stmt("x", num(10)),
        Statement::Expr(compound("x", 0, AssignOp::Rem, num(0))),
    ]);
    assert_eq!(message, "Rest einer Division durch Null");
}

// ---------------------------------------------------------------------------
// Casts
// ---------------------------------------------------------------------------

#[test]
fn text_with_a_comma_is_read_as_a_float() {
    let out = output_of(vec![print(vec![cast(text("3,14"), Type::String(0), Type::Float(0))])]);
    assert_eq!(out, "3.14\n");
}

#[test]
fn text_is_read_as_an_integer() {
    let out = output_of(vec![print(vec![
        cast(text("12"), Type::String(0), Type::Int(0)),
        cast(text("-7"), Type::String(0), Type::Int(0)),
        cast(text("+0012"), Type::String(0), Type::Int(0)),
    ])]);
    assert_eq!(out, "12 -7 12\n");
}

#[test]
fn malformed_integer_text_is_an_error_with_the_reason() {
    let message =
        error_of(vec![Statement::Expr(cast(text("1,5x"), Type::String(0), Type::Int(0)))]);
    assert_eq!(
        message,
        "Zeichenkettenverarbeitungsfehler in Zeichenkette `1.5x`: invalid digit found in string"
    );
    let message = error_of(vec![Statement::Expr(cast(text(""), Type::String(0), Type::Int(0)))]);
    assert_eq!(
        message,
        "Zeichenkettenverarbeitungsfehler in Zeichenkette ``: cannot parse integer from empty string"
    );
    let message = error_of(vec![Statement::Expr(cast(
        text("99999999999999999999"),
        Type::String(0),
        Type::Int(0),
    ))]);
    assert_eq!(
        message,
        "Zeichenkettenverarbeitungsfehler in Zeichenkette `99999999999999999999`: number too large to fit in target type"
    );
}

#[test]
fn malformed_float_text_is_an_error_with_the_reason() {
    let message =
        error_of(vec![Statement::Expr(cast(text("drei"), Type::String(0), Type::Float(0)))]);
    assert_eq!(
        message,
        "Zeichenkettenverarbeitungsfehler in Zeichenkette `drei`: invalid float literal"
    );
}

#[test]
fn casts_between_scalars() {
    let out = output_of(vec![print(vec![
        cast(num(3), Type::Int(0), Type::Int(0)),
        cast(num(3), Type::Int(0), Type::Float(0)),
        cast(num(0), Type::Int(0), Type::Bool(0)),
        cast(num(-4), Type::Int(0), Type::Bool(0)),
        cast(num(98), Type::Int(0), Type::Char(0)),
        cast(num(300), Type::Int(0), Type::Char(0)),
        cast(float(3.99), Type::Float(0), Type::Int(0)),
        cast(float(-3.99), Type::Float(0), Type::Int(0)),
        cast(float(0.0), Type::Float(0), Type::Bool(0)),
        cast(float(99.7), Type::Float(0), Type::Char(0)),
        cast(float(1e9), Type::Float(0), Type::Char(0)),
        cast(float(-5.0), Type::Float(0), Type::Char(0)),
        cast(Expression::Bool(true), Type::Bool(0), Type::Int(0)),
        cast(Expression::Bool(true), Type::Bool(0), Type::Float(0)),
        cast(Expression::Bool(false), Type::Bool(0), Type::Float(0)),
        cast(Expression::Char(b'A'), Type::Char(0), Type::Int(0)),
        cast(Expression::Char(b'A'), Type::Char(0), Type::Float(0)),
        cast(Expression::Char(0), Type::Char(0), Type::Bool(0)),
    ])]);
    assert_eq!(out, "3 3 false true b \u{7f} 3 -3 false c \u{7f} \0 1 1 0 65 65 false\n");
}

#[test]
fn cast_of_a_negative_integer_to_a_character_is_clamped() {
    let out = output_of(vec![print(vec![cast(
        cast(num(-5), Type::Int(0), Type::Char(0)),
        Type::Char(0),
        Type::Int(0),
    )])]);
    assert_eq!(out, "0\n");
}

#[test]
fn cast_of_unknown_to_its_own_type_passes() {
    let out = output_of(vec![print(vec![
        cast(num(3), Type::Any, Type::Int(0)),
        cast(text("x"), Type::Any, Type::String(0)),
        cast(list(vec![num(1)]), Type::Any, Type::List(Box::new(Type::Int(0)), 0)),
        cast(num(3), Type::Any, Type::Any),
    ])]);
    assert_eq!(out, "3 x [1] 3\n");
}

#[test]
fn cast_of_unknown_to_a_type_that_no_value_is_of_fails() {
    let message = error_of(vec![Statement::Expr(cast(
        object(vec![]),
        Type::Any,
        Type::Other("Niemals".to_string()),
    ))]);
    assert_eq!(
        message,
        "Invalide Typumwandlung während der Laufzeit: Der Datentyp `Objekt` kann nicht in `Niemals` umgewandelt werden."
    );
    let out = output_of(vec![print(vec![
        cast(object(vec![("a", num(1))]), Type::Any, Type::Objekt(0)),
        cast(call("Umgebungsvariablen", vec![]), Type::Any, Type::Speicherbox(0)),
    ])]);
    assert_eq!(out, "{a: 1} {}\n");
    let message =
        error_of(vec![Statement::Expr(cast(object(vec![]), Type::Any, Type::Speicherbox(0)))]);
    assert_eq!(
        message,
        "Invalide Typumwandlung während der Laufzeit: Der Datentyp `Objekt` kann nicht in `Speicherbox` umgewandelt werden."
    );
}

#[test]
fn cast_of_unknown_to_another_type_names_both_types() {
    let message = error_of(vec![Statement::Expr(cast(num(3), Type::Any, Type::Float(0)))]);
    assert_eq!(
        message,
        "Invalide Typumwandlung während der Laufzeit: Der Datentyp `Zahl` kann nicht in `Fließkommazahl` umgewandelt werden."
    );
    let message = error_of(vec![Statement::Expr(cast(
        text("3"),
        Type::Any,
        Type::List(Box::new(Type::Int(1)), 0),
    ))]);
    assert_eq!(
        message,
        "Invalide Typumwandlung während der Laufzeit: Der Datentyp `Zeichenkette` kann nicht in `Liste von Zeiger auf Zahl` umgewandelt werden."
    );
}

// ---------------------------------------------------------------------------
// Lists and objects
// ---------------------------------------------------------------------------

#[test]
fn list_items_are_evaluated_in_order_and_indexed_from_zero() {
    let side = |name: &str, value: i64| {
        block_expr(vec![print(vec![text(name)])], Some(num(value)))
    };
    let out = output_of(vec![
        let_stmt("l", list(vec![side("a", 10), side("b", 20), side("c", 30)])),
        print(vec![index(var("l"), num(0)), index(var("l"), num(2))]),
    ]);
    assert_eq!(out, "a\nb\nc\n10 30\n");
}

#[test]
fn negative_index_is_an_error() {
    let message = error_of(vec![Statement::Expr(index(list(vec![num(1)]), num(-1)))]);
    assert_eq!(message, "Illegale Indizierung mittels Index: `-1`");
}

#[test]
fn index_beyond_the_list_is_an_error() {
    let message = error_of(vec![Statement::Expr(index(list(vec![num(1)]), num(1)))]);
    assert_eq!(message, "Illegale Indizierung mittels Index: `1`");
    let message = error_of(vec![Statement::Expr(index(list(vec![]), num(0)))]);
    assert_eq!(message, "Illegale Indizierung mittels Index: `0`");
}

#[test]
fn object_fields_are_evaluated_in_order_and_read_by_name() {
    let side = |name: &str, value: i64| {
        block_expr(vec![print(vec![text(name)])], Some(num(value)))
    };
    let out = output_of(vec![
        let_stmt("o", object(vec![("x", side("erst", 1)), ("y", side("dann", 2))])),
        print(vec![member(var("o"), "y"), member(var("o"), "x")]),
    ]);
    assert_eq!(out, "erst\ndann\n2 1\n");
}

#[test]
fn later_field_of_the_same_name_wins() {
    let out = output_of(vec![
        let_stmt("o", object(vec![("x", num(1)), ("y", num(2)), ("x", num(3))])),
        print(vec![member(var("o"), "x"), var("o")]),
    ]);
    assert_eq!(out, "3 {x: 3, y: 2}\n");
}

#[test]
fn missing_field_is_a_defect() {
    let program = study(vec![Statement::Expr(member(object(vec![("x", num(1))]), "y"))]);
    let (outcome, _) = run(&program);
    assert!(matches!(outcome, Outcome::Defect(Defect::Operands)));
}

#[test]
fn interrupt_among_list_items_drops_the_items_gathered() {
    let mut program = study(vec![print(vec![list(vec![num(1), call("f", vec![])]), num(2)])]);
    program.functions.push(function(
        "f",
        vec![],
        Block {
            stmts: vec![],
            expr: Some(list(vec![
                num(7),
                block_expr(vec![Statement::Return(Some(num(8)))], None),
            ])),
        },
    ));
    let (outcome, host) = run(&program);
    assert!(matches!(outcome, Outcome::Exit(0)));
    assert_eq!(host.output, "[1, 8] 2\n");
}

// ---------------------------------------------------------------------------
// Control flow
// ---------------------------------------------------------------------------

#[test]
fn conditional_takes_one_branch() {
    let branch = |i: i64| Block { stmts: vec![], expr: Some(num(i)) };
    let out = output_of(vec![print(vec![
        if_expr(Expression::Bool(true), branch(1), Some(branch(2))),
        if_expr(Expression::Bool(false), branch(1), Some(branch(2))),
        if_expr(Expression::Bool(false), branch(1), None),
    ])]);
    assert_eq!(out, "1 2 ()\n");
}

#[test]
fn while_true_with_break_ends_at_once() {
    let program = study(vec![
        while_stmt(Expression::Bool(true), vec![Statement::Break, print(vec![text("nie")])]),
        print(vec![text("danach")]),
    ]);
    let (outcome, host) = run(&program);
    assert!(matches!(outcome, Outcome::Exit(0)));
    assert_eq!(host.output, "danach\n");
    assert_eq!(host.pauses, 1);
}

#[test]
fn while_with_a_false_condition_never_runs_nor_pauses() {
    let program = study(vec![while_stmt(Expression::Bool(false), vec![print(vec![text("nie")])])]);
    let (outcome, host) = run(&program);
    assert!(matches!(outcome, Outcome::Exit(0)));
    assert_eq!(host.output, "");
    assert_eq!(host.pauses, 0);
}

#[test]
fn continue_skips_the_rest_and_rechecks_the_condition() {
    let program = study(vec![
        let_stmt("i", num(0)),
        while_stmt(
            infix(var("i"), InfixOp::Lt, num(5)),
            vec![
                Statement::Expr(compound("i", 0, AssignOp::Plus, num(1))),
                Statement::Expr(if_expr(
                    infix(infix(var("i"), InfixOp::Rem, num(2)), InfixOp::Eq, num(0)),
                    body(vec![Statement::Continue]),
                    None,
                )),
                print(vec![var("i")]),
            ],
        ),
        print(vec![text("fertig"), var("i")]),
    ]);
    let (outcome, host) = run(&program);
    assert!(matches!(outcome, Outcome::Exit(0)));
    assert_eq!(host.output, "1\n3\n5\nfertig 5\n");
    assert_eq!(host.pauses, 5);
}

#[test]
fn break_leaves_the_innermost_loop_only() {
    let out = output_of(vec![
        let_stmt("i", num(0)),
        while_stmt(
            infix(var("i"), InfixOp::Lt, num(2)),
            vec![
                Statement::Expr(compound("i", 0, AssignOp::Plus, num(1))),
                while_stmt(Expression::Bool(true), vec![Statement::Break]),
                print(vec![var("i")]),
            ],
        ),
    ]);
    assert_eq!(out, "1\n2\n");
}

#[test]
fn loop_body_has_a_scope_of_its_own_each_time() {
    let out = output_of(vec![
        let_stmt("i", num(0)),
        let_stmt("x", num(100)),
        while_stmt(
            infix(var("i"), InfixOp::Lt, num(2)),
            vec![
                let_stmt("x", var("i")),
                Statement::Expr(compound("i", 0, AssignOp::Plus, num(1))),
            ],
        ),
        print(vec![var("x")]),
    ]);
    assert_eq!(out, "100\n");
}

#[test]
fn return_leaves_loops_and_blocks_of_the_function() {
    let mut program = study(vec![print(vec![call("f", vec![]), text("weiter")])]);
    program.functions.push(function(
        "f",
        vec![],
        body(vec![
            while_stmt(
                Expression::Bool(true),
                vec![Statement::Expr(block_expr(vec![Statement::Return(Some(num(5)))], None))],
            ),
            Statement::Return(Some(num(6))),
        ]),
    ));
    let (outcome, host) = run(&program);
    assert!(matches!(outcome, Outcome::Exit(0)));
    assert_eq!(host.output, "5 weiter\n");
}

#[test]
fn return_without_value_gives_unit() {
    let mut program = study(vec![print(vec![call("f", vec![])])]);
    program.functions.push(function("f", vec![], body(vec![Statement::Return(None)])));
    let (outcome, host) = run(&program);
    assert!(matches!(outcome, Outcome::Exit(0)));
    assert_eq!(host.output, "()\n");
}

#[test]
fn break_that_leaves_a_function_is_a_defect() {
    let mut program = study(vec![while_stmt(
        Expression::Bool(true),
        vec![Statement::Expr(call("f", vec![]))],
    )]);
    program.functions.push(function("f", vec![], body(vec![Statement::Break])));
    let (outcome, _) = run(&program);
    assert!(matches!(outcome, Outcome::Defect(Defect::StrayInterrupt)));
}

#[test]
fn declarations_without_effect_are_skipped() {
    let out = output_of(vec![Statement::Beantrage, print(vec![text("da")])]);
    assert_eq!(out, "da\n");
}

// ---------------------------------------------------------------------------
// Functions
// ---------------------------------------------------------------------------

#[test]
fn arguments_are_evaluated_left_to_right_and_bound_to_new_cells() {
    let side = |name: &str, value: i64| {
        block_expr(vec![print(vec![text(name)])], Some(num(value)))
    };
    let mut program = study(vec![
        let_stmt("a", num(1)),
        print(vec![call("f", vec![var("a"), side("zwei", 2), side("drei", 3)]), var("a")]),
    ]);
    program.functions.push(function(
        "f",
        vec!["x", "y", "z"],
        Block {
            stmts: vec![assign("x", 0, num(100))],
            expr: Some(infix(
                infix(var("x"), InfixOp::Plus, var("y")),
                InfixOp::Plus,
                var("z"),
            )),
        },
    ));
    let (outcome, host) = run(&program);
    assert!(matches!(outcome, Outcome::Exit(0)));
    assert_eq!(host.output, "zwei\ndrei\n105 1\n");
}

#[test]
fn recursion_keeps_the_frames_apart() {
    let mut program = study(vec![print(vec![call("fak", vec![num(10)])])]);
    program.functions.push(function(
        "fak",
        vec!["n"],
        Block {
            stmts: vec![],
            expr: Some(if_expr(
                infix(var("n"), InfixOp::Lte, num(1)),
                Block { stmts: vec![], expr: Some(num(1)) },
                Some(Block {
                    stmts: vec![],
                    expr: Some(infix(
                        var("n"),
                        InfixOp::Mul,
                        call("fak", vec![infix(var("n"), InfixOp::Minus, num(1))]),
                    )),
                }),
            )),
        },
    ));
    let (outcome, host) = run(&program);
    assert!(matches!(outcome, Outcome::Exit(0)));
    assert_eq!(host.output, "3628800\n");
}

#[test]
fn last_function_of_a_name_is_called_and_unused_ones_are_not() {
    let answer = |i: i64| Block { stmts: vec![], expr: Some(num(i)) };
    let mut program = study(vec![print(vec![call("f", vec![])])]);
    program.functions.push(function("f", vec![], answer(1)));
    program.functions.push(function("f", vec![], answer(2)));
    let mut unused = function("f", vec![], answer(3));
    unused.used = false;
    program.functions.push(unused);
    let (outcome, host) = run(&program);
    assert!(matches!(outcome, Outcome::Exit(0)));
    assert_eq!(host.output, "2\n");
}

#[test]
fn builtin_wins_over_a_function_of_the_same_name() {
    let mut program = study(vec![print(vec![call("Geld", vec![])])]);
    program.functions.push(function("Geld", vec![], Block { stmts: vec![], expr: Some(num(1)) }));
    let (outcome, host) = run(&program);
    assert!(matches!(outcome, Outcome::Exit(0)));
    assert_eq!(host.output, "Nun sind Sie reich, sie wurden gesponst!\n");
}

#[test]
fn unknown_function_is_a_defect() {
    let program = study(vec![Statement::Expr(call("gibt_es_nicht", vec![]))]);
    let (outcome, _) = run(&program);
    assert!(matches!(outcome, Outcome::Defect(Defect::UnknownFunction)));
}

#[test]
fn unresolved_name_is_a_defect() {
    let program = study(vec![print(vec![var("nirgends")])]);
    let (outcome, _) = run(&program);
    assert!(matches!(outcome, Outcome::Defect(Defect::UnresolvedName)));
}

// ---------------------------------------------------------------------------
// Builtins
// ---------------------------------------------------------------------------

#[test]
fn time_is_an_object_of_seven_integers() {
    let out = output_of(vec![
        let_stmt("t", call("Zeit", vec![])),
        print(vec![
            member(var("t"), "Jahr"),
            member(var("t"), "Monat"),
            member(var("t"), "Kalendar_Tag"),
            member(var("t"), "Wochentag"),
            member(var("t"), "Stunde"),
            member(var("t"), "Minute"),
            member(var("t"), "Sekunde"),
        ]),
    ]);
    assert_eq!(out, "2024 2 29 3 13 37 42\n");
}

#[test]
fn sleep_hands_the_duration_to_the_host() {
    let program = study(vec![print(vec![call("Schlummere", vec![float(1.5)])])]);
    let (outcome, host) = run(&program);
    assert!(matches!(outcome, Outcome::Exit(0)));
    assert_eq!(host.slept, vec![1.5]);
    assert_eq!(host.output, "()\n");
}

#[test]
fn environment_is_a_box_of_texts() {
    let program = study(vec![
        let_stmt("u", call("Umgebungsvariablen", vec![])),
        print(vec![member(var("u"), "HOME"), member(var("u"), "LANG"), var("u")]),
    ]);
    let mut host = Host::new();
    let outcome = host.run(
        &program,
        vec![
            Variable { name: "HOME".to_string(), value: "/home/hpi".to_string() },
            Variable { name: "LANG".to_string(), value: "de".to_string() },
            Variable { name: "HOME".to_string(), value: "/root".to_string() },
        ],
    );
    assert!(matches!(outcome, Outcome::Exit(0)));
    assert_eq!(host.output, "/root de {HOME: /root, LANG: de}\n");
}

#[test]
fn structured_text_is_read_by_the_host_and_brought_in() {
    let out = output_of(vec![
        let_stmt("l", call("Zergliedere_JSON", vec![text("[1, \"zwei\"]")])),
        print(vec![index(var("l"), num(1)), index(var("l"), num(0)), var("l")]),
        let_stmt("o", call("Zergliedere_JSON", vec![text("{\"a\": 1, \"a\": 2}")])),
        print(vec![member(var("o"), "a")]),
    ]);
    assert_eq!(out, "zwei 1 [1, zwei]\n2\n");
}

#[test]
fn malformed_structured_text_is_an_error() {
    let message = error_of(vec![Statement::Expr(call("Zergliedere_JSON", vec![text("{")]))]);
    assert_eq!(message, "kein JSON: {");
}

#[test]
fn value_is_copied_out_for_the_host_to_write_as_text() {
    let out = output_of(vec![print(vec![call(
        "Gliedere_JSON",
        vec![object(vec![("a", list(vec![num(1), float(2.5)])), ("b", text("c"))])],
    )])]);
    assert_eq!(out, "{\"a\":[1,2.5],\"b\":\"c\"}\n");
}

#[test]
fn value_without_textual_form_is_an_error() {
    let message = error_of(vec![
        let_stmt("x", num(1)),
        Statement::Expr(call("Gliedere_JSON", vec![prefix(PrefixOp::Ref, var("x"))])),
    ]);
    assert_eq!(message, "Zeiger haben keine Darstellung");
}

#[test]
fn template_and_arguments_go_to_the_host() {
    let out = output_of(vec![print(vec![call(
        "Formatiere",
        vec![text("%d und %s"), num(1), text("zwei")],
    )])]);
    assert_eq!(out, "%d und %s<1|\"zwei\">\n");
}

#[test]
fn http_request_stores_the_body_and_gives_the_status() {
    let program = study(vec![
        let_stmt("antwort", text("")),
        let_stmt(
            "status",
            call(
                "Http",
                vec![
                    text("POST"),
                    text("http://hpi.de"),
                    text("Inhalt"),
                    list(vec![
                        object(vec![("Schlüssel", text("A")), ("Wert", text("1"))]),
                        object(vec![("Schlüssel", text("B")), ("Wert", text("2"))]),
                        object(vec![("Schlüssel", text("A")), ("Wert", text("3"))]),
                    ]),
                    prefix(PrefixOp::Ref, var("antwort")),
                ],
            ),
        ),
        print(vec![var("status"), var("antwort")]),
    ]);
    let (outcome, host) = run(&program);
    assert!(matches!(outcome, Outcome::Exit(0)));
    assert_eq!(host.requests, vec!["POST http://hpi.de Inhalt [A=3;B=2]".to_string()]);
    assert_eq!(host.output, "201 Antwort\n");
}

#[test]
fn http_transport_failure_is_an_error() {
    let message = error_of(vec![
        let_stmt("antwort", text("")),
        Statement::Expr(call(
            "Http",
            vec![
                text("GET"),
                text("http://unreachable"),
                text(""),
                list(vec![]),
                prefix(PrefixOp::Ref, var("antwort")),
            ],
        )),
    ]);
    assert_eq!(message, "keine Verbindung");
}

#[test]
fn member_of_another_value_is_a_builtin_bound_to_it() {
    let program = study(vec![
        let_stmt("l", list(vec![num(1), num(2), num(3)])),
        let_stmt("f", member(var("l"), "Länge")),
        print(vec![Expression::Call(Box::new(CallExpr {
            func: CallBase::Expr(Box::new(var("f"))),
            args: vec![num(9)],
        }))]),
        print(vec![var("f")]),
    ]);
    let (outcome, host) = run(&program);
    assert!(matches!(outcome, Outcome::Exit(0)));
    assert_eq!(host.invoked, vec!["[1,2,3].Länge(9)".to_string()]);
    assert_eq!(host.output, "3\nFunktion\n");
}

#[test]
fn host_that_answers_out_of_turn_is_a_defect() {
    let program = study(vec![print(vec![infix(float(1.0), InfixOp::Plus, float(1.0))])]);
    let mut interpreter = Interpreter::new(&program, vec![]);
    let mut event = Event::Resume;
    let outcome = loop {
        match interpreter.step_in(event, world()) {
            Action::Finish(outcome) => break outcome,
            Action::Float(_) => event = Event::Text("zwei".to_string()),
            _ => event = Event::Resume,
        }
    };
    assert!(matches!(outcome, Outcome::Defect(Defect::Protocol)));
}

#[test]
fn missing_randomness_is_a_defect_after_the_first_phase() {
    let program = study(vec![]);
    let mut interpreter = Interpreter::new(&program, vec![]);
    let blind = World { clock: world().clock, entropy: None };
    let outcome = loop {
        if let Action::Finish(outcome) = interpreter.step_in(Event::Resume, blind) {
            break outcome;
        }
    };
    assert!(matches!(outcome, Outcome::Defect(Defect::NoEntropy)));
}

// ---------------------------------------------------------------------------
// The real world
// ---------------------------------------------------------------------------

#[test]
fn step_takes_the_clock_and_draws_the_number_of_this_machine() {
    let program = Program {
        globals: vec![],
        functions: vec![],
        bewerbung_fn: accepted(),
        einschreibung_fn: body(vec![print(vec![var("Matrikelnummer")])]),
        studium_fn: body(vec![
            let_stmt("t", call("Zeit", vec![])),
            print(vec![
                member(var("t"), "Jahr"),
                member(var("t"), "Monat"),
                member(var("t"), "Kalendar_Tag"),
                member(var("t"), "Wochentag"),
                member(var("t"), "Stunde"),
                member(var("t"), "Minute"),
                member(var("t"), "Sekunde"),
            ]),
        ]),
    };
    let mut host = Host::new();
    let mut interpreter = Interpreter::new(&program, vec![]);
    let mut event = Event::Resume;
    let mut clock_reads = 0;
    let outcome = loop {
        let clock = if interpreter.reads_clock() {
            clock_reads += 1;
            let now = chrono::offset::Local::now();
            ClockReading {
                year: now.year() as i64,
                month: now.month() as i64,
                day: now.day() as i64,
                weekday: now.weekday() as i64,
                hour: now.hour() as i64,
                minute: now.minute() as i64,
                second: now.second() as i64,
            }
        } else {
            ClockReading::epoch()
        };
        let action = interpreter.step(event, clock);
        match host.perform(action) {
            Ok(next) => event = next,
            Err(outcome) => break outcome,
        }
    };
    assert!(matches!(outcome, Outcome::Exit(0)));
    assert_eq!(clock_reads, 1);
    let lines: Vec<&str> = host.output.lines().collect();
    assert_eq!(lines.len(), 2);
    let number: i64 = lines[0].parse().unwrap();
    assert!((0..=u32::MAX as i64).contains(&number));
    let fields: Vec<i64> = lines[1].split(' ').map(|f| f.parse().unwrap()).collect();
    assert_eq!(fields.len(), 7);
    assert!(fields[0] >= 2024);
    assert!((1..=12).contains(&fields[1]));
    assert!((1..=31).contains(&fields[2]));
    assert!((0..=6).contains(&fields[3]));
    assert!((0..=23).contains(&fields[4]));
    assert!((0..=59).contains(&fields[5]));
    assert!((0..=59).contains(&fields[6]));
}

// ---------------------------------------------------------------------------
// Interrupts across frames
// ---------------------------------------------------------------------------

#[test]
fn error_deep_inside_surfaces_with_its_message() {
    let mut program = study(vec![
        let_stmt("i", num(0)),
        while_stmt(
            infix(var("i"), InfixOp::Lt, num(3)),
            vec![
                Statement::Expr(compound("i", 0, AssignOp::Plus, num(1))),
                print(vec![list(vec![var("i"), call("teile", vec![var("i")])])]),
            ],
        ),
        print(vec![text("nie")]),
    ]);
    program.functions.push(function(
        "teile",
        vec!["n"],
        Block {
            stmts: vec![],
            expr: Some(block_expr(
                vec![],
                Some(infix(num(10), InfixOp::Div, infix(num(2), InfixOp::Minus, var("n")))),
            )),
        },
    ));
    let (outcome, host) = run(&program);
    match outcome {
        Outcome::Error(message) => assert_eq!(message, "Division durch Null"),
        other => panic!("{other:?}"),
    }
    assert_eq!(host.output, "[1, 10]\n");
    assert_eq!(host.pauses, 2);
}

#[test]
fn continue_inside_a_nested_block_reaches_the_loop() {
    let out = output_of(vec![
        let_stmt("i", num(0)),
        while_stmt(
            infix(var("i"), InfixOp::Lt, num(3)),
            vec![
                Statement::Expr(compound("i", 0, AssignOp::Plus, num(1))),
                Statement::Expr(block_expr(
                    vec![
                        let_stmt("i", num(100)),
                        Statement::Expr(block_expr(vec![Statement::Continue], None)),
                        print(vec![text("nie")]),
                    ],
                    None,
                )),
                print(vec![text("nie")]),
            ],
        ),
        print(vec![var("i")]),
    ]);
    assert_eq!(out, "3\n");
}

#[test]
fn return_from_a_loop_lets_the_callers_loop_go_on() {
    let mut program = study(vec![
        let_stmt("i", num(0)),
        while_stmt(
            infix(var("i"), InfixOp::Lt, num(3)),
            vec![
                Statement::Expr(compound("i", 0, AssignOp::Plus, num(1))),
                print(vec![call("erste", vec![var("i")])]),
            ],
        ),
    ]);
    program.functions.push(function(
        "erste",
        vec!["ab"],
        body(vec![
            let_stmt("k", var("ab")),
            while_stmt(
                Expression::Bool(true),
                vec![
                    Statement::Expr(if_expr(
                        infix(infix(var("k"), InfixOp::Rem, num(3)), InfixOp::Eq, num(0)),
                        body(vec![Statement::Return(Some(var("k")))]),
                        None,
                    )),
                    Statement::Expr(compound("k", 0, AssignOp::Plus, num(1))),
                ],
            ),
        ]),
    ));
    let (outcome, host) = run(&program);
    assert!(matches!(outcome, Outcome::Exit(0)));
    assert_eq!(host.output, "3\n3\n3\n");
}

#[test]
fn break_in_the_condition_of_a_loop_leaves_the_loop_around_it() {
    let out = output_of(vec![
        while_stmt(
            Expression::Bool(true),
            vec![
                print(vec![text("aussen")]),
                while_stmt(
                    block_expr(vec![Statement::Break], Some(Expression::Bool(true))),
                    vec![print(vec![text("nie")])],
                ),
                print(vec![text("nie")]),
            ],
        ),
        print(vec![text("fertig")]),
    ]);
    assert_eq!(out, "aussen\nfertig\n");
}

#[test]
fn condition_is_evaluated_before_every_round() {
    let out = output_of(vec![
        let_stmt("i", num(0)),
        while_stmt(
            block_expr(
                vec![print(vec![text("prüfe"), var("i")])],
                Some(infix(var("i"), InfixOp::Lt, num(2))),
            ),
            vec![Statement::Expr(compound("i", 0, AssignOp::Plus, num(1)))],
        ),
    ]);
    assert_eq!(out, "prüfe 0\nprüfe 1\nprüfe 2\n");
}

#[test]
fn interrupt_among_arguments_and_fields_drops_what_was_gathered() {
    let mut program = study(vec![
        print(vec![num(1), call("f", vec![]), num(3)]),
        print(vec![num(4), call("g", vec![]), num(6)]),
    ]);
    let leave = |value: i64| block_expr(vec![Statement::Return(Some(num(value)))], None);
    program.functions.push(function(
        "f",
        vec![],
        Block { stmts: vec![], expr: Some(call("h", vec![num(7), num(8), leave(2)])) },
    ));
    program.functions.push(function(
        "g",
        vec![],
        Block { stmts: vec![], expr: Some(object(vec![("a", num(7)), ("b", leave(5))])) },
    ));
    program.functions.push(function("h", vec!["a", "b", "c"], body(vec![])));
    let (outcome, host) = run(&program);
    assert!(matches!(outcome, Outcome::Exit(0)));
    assert_eq!(host.output, "1 2 3\n4 5 6\n");
}

#[test]
fn arguments_are_evaluated_before_the_callee() {
    let side = |name: &str, value: Expression| {
        block_expr(vec![print(vec![text(name)])], Some(value))
    };
    let program = study(vec![
        let_stmt("l", list(vec![num(1)])),
        print(vec![Expression::Call(Box::new(CallExpr {
            func: CallBase::Expr(Box::new(side("aufgerufen", member(var("l"), "Länge")))),
            args: vec![side("erstes", num(1)), side("zweites", num(2))],
        }))]),
    ]);
    let (outcome, host) = run(&program);
    assert!(matches!(outcome, Outcome::Exit(0)));
    assert_eq!(host.output, "erstes\nzweites\naufgerufen\n1\n");
    assert_eq!(host.invoked, vec!["[1].Länge(1,2)".to_string()]);
}

#[test]
fn call_of_a_value_that_is_no_builtin_is_a_defect() {
    let program = study(vec![Statement::Expr(Expression::Call(Box::new(CallExpr {
        func: CallBase::Expr(Box::new(num(1))),
        args: vec![],
    })))]);
    let (outcome, _) = run(&program);
    assert!(matches!(outcome, Outcome::Defect(Defect::Operands)));
}

#[test]
fn deep_recursion_needs_no_deep_stack_of_the_host() {
    let mut program = study(vec![print(vec![call("summe", vec![num(20000)])])]);
    program.functions.push(function(
        "summe",
        vec!["n"],
        Block {
            stmts: vec![],
            expr: Some(if_expr(
                infix(var("n"), InfixOp::Eq, num(0)),
                Block { stmts: vec![], expr: Some(num(0)) },
                Some(Block {
                    stmts: vec![],
                    expr: Some(infix(
                        var("n"),
                        InfixOp::Plus,
                        call("summe", vec![infix(var("n"), InfixOp::Minus, num(1))]),
                    )),
                }),
            )),
        },
    ));
    let (outcome, host) = run(&program);
    assert!(matches!(outcome, Outcome::Exit(0)));
    assert_eq!(host.output, "200010000\n");
}

#[test]
fn parameters_shadow_globals_and_callers_locals_stay_put() {
    let mut program = study(vec![
        let_stmt("x", num(1)),
        print(vec![call("f", vec![num(5)]), var("x"), var("g")]),
    ]);
    program.globals.push(Global { used: true, name: "g".to_string(), expr: num(7) });
    program.functions.push(function(
        "f",
        vec!["g"],
        Block {
            stmts: vec![let_stmt("x", num(2)), assign("g", 0, infix(var("g"), InfixOp::Plus, var("x")))],
            expr: Some(var("g")),
        },
    ));
    let (outcome, host) = run(&program);
    assert!(matches!(outcome, Outcome::Exit(0)));
    assert_eq!(host.output, "7 1 7\n");
}

#[test]
fn more_arguments_than_parameters_are_dropped() {
    let mut program = study(vec![print(vec![call("f", vec![num(1), num(2), num(3)])])]);
    program.functions.push(function("f", vec!["a"], Block { stmts: vec![], expr: Some(var("a")) }));
    let (outcome, host) = run(&program);
    assert!(matches!(outcome, Outcome::Exit(0)));
    assert_eq!(host.output, "1\n");
}

#[test]
fn third_phase_has_no_parameter() {
    let program = study(vec![print(vec![var("Matrikelnummer")])]);
    let (outcome, _) = run(&program);
    assert!(matches!(outcome, Outcome::Defect(Defect::UnresolvedName)));
}

#[test]
fn lists_are_shared_and_texts_are_values() {
    let out = output_of(vec![
        let_stmt("l", list(vec![text("a"), num(1)])),
        let_stmt("m", var("l")),
        let_stmt("p", prefix(PrefixOp::Ref, var("l"))),
        assign("l", 0, list(vec![])),
        print(vec![var("l"), var("m"), prefix(PrefixOp::Deref, var("p"))]),
    ]);
    assert_eq!(out, "[] [a, 1] []\n");
}

#[test]
fn pointer_to_a_global_writes_the_global() {
    let mut program = study(vec![
        let_stmt("p", prefix(PrefixOp::Ref, var("g"))),
        Statement::Expr(compound("p", 1, AssignOp::Mul, num(6))),
        print(vec![var("g"), call("lies", vec![])]),
    ]);
    program.globals.push(Global { used: true, name: "g".to_string(), expr: num(7) });
    program.functions.push(function("lies", vec![], Block { stmts: vec![], expr: Some(var("g")) }));
    let (outcome, host) = run(&program);
    assert!(matches!(outcome, Outcome::Exit(0)));
    assert_eq!(host.output, "42 42\n");
}

#[test]
fn assignment_through_something_else_than_a_pointer_is_a_defect() {
    let program = study(vec![let_stmt("x", num(1)), assign("x", 1, num(2))]);
    let (outcome, _) = run(&program);
    assert!(matches!(outcome, Outcome::Defect(Defect::Operands)));
}

#[test]
fn plain_assignment_operator_in_a_compound_assignment_is_a_defect() {
    let program = study(vec![
        let_stmt("x", num(1)),
        Statement::Expr(compound("x", 0, AssignOp::Basic, num(2))),
    ]);
    let (outcome, _) = run(&program);
    assert!(matches!(outcome, Outcome::Defect(Defect::Operands)));
}

#[test]
fn host_may_refuse_to_sleep() {
    let program = study(vec![
        Statement::Expr(call("Schlummere", vec![float(0.5)])),
        print(vec![text("nie")]),
    ]);
    let mut interpreter = Interpreter::new(&program, vec![]);
    let mut event = Event::Resume;
    let mut written = 0;
    let outcome = loop {
        match interpreter.step_in(event, world()) {
            Action::Finish(outcome) => break outcome,
            Action::Sleep(_) => event = Event::Failed("Im Web wird nicht geschlafen!".to_string()),
            Action::Write(_) => {
                written += 1;
                event = Event::Resume;
            }
            _ => event = Event::Resume,
        }
    };
    match outcome {
        Outcome::Error(message) => assert_eq!(message, "Im Web wird nicht geschlafen!"),
        other => panic!("{other:?}"),
    }
    assert_eq!(written, 0);
}

#[test]
fn answer_for_a_character_is_brought_into_the_range_of_codes() {
    let program = study(vec![print(vec![cast(
        cast(float(70.0), Type::Float(0), Type::Char(0)),
        Type::Char(0),
        Type::Int(0),
    )])]);
    for (answer, expected) in
        [(70, "70\n"), (0, "0\n"), (127, "127\n"), (128, "127\n"), (-1, "0\n"), (i64::MAX, "127\n")]
    {
        let mut host = Host::new();
        let mut interpreter = Interpreter::new(&program, vec![]);
        let mut event = Event::Resume;
        let outcome = loop {
            match interpreter.step_in(event, world()) {
                Action::Float(FloatRequest::ToInt(_)) => event = Event::Int(answer),
                action => match host.perform(action) {
                    Ok(next) => event = next,
                    Err(outcome) => break outcome,
                },
            }
        };
        assert!(matches!(outcome, Outcome::Exit(0)));
        assert_eq!(host.output, expected);
    }
}

#[test]
fn cast_of_a_float_to_a_character_clamps_and_drops_the_fraction() {
    let code = |f: f64| {
        cast(cast(float(f), Type::Float(0), Type::Char(0)), Type::Char(0), Type::Int(0))
    };
    let out = output_of(vec![print(vec![
        code(300.7),
        code(-5.0),
        code(65.9),
        code(127.0),
        code(126.99),
        code(f64::NAN),
        code(f64::INFINITY),
        code(f64::NEG_INFINITY),
    ])]);
    assert_eq!(out, "127 0 65 127 126 0 127 0\n");
}

#[test]
fn data_with_a_marker_is_no_answer() {
    let program = study(vec![Statement::Expr(call("Zergliedere_JSON", vec![text("x")]))]);
    let mut interpreter = Interpreter::new(&program, vec![]);
    let mut event = Event::Resume;
    let outcome = loop {
        match interpreter.step_in(event, world()) {
            Action::Deserialize(_) => event = Event::Data(Data::List(vec![Data::Ptr])),
            Action::Finish(outcome) => break outcome,
            _ => event = Event::Resume,
        }
    };
    assert!(matches!(outcome, Outcome::Defect(Defect::Protocol)));
}

#[test]
fn headers_have_to_be_objects_of_two_texts() {
    for bad in [
        list(vec![num(1)]),
        list(vec![object(vec![("Schlüssel", text("A"))])]),
        list(vec![object(vec![("Schlüssel", num(1)), ("Wert", text("1"))])]),
        list(vec![object(vec![("Schlüssel", text("A")), ("Wert", num(1))])]),
    ] {
        let program = study(vec![
            let_stmt("antwort", text("")),
            Statement::Expr(call(
                "Http",
                vec![text("GET"), text("u"), text(""), bad, prefix(PrefixOp::Ref, var("antwort"))],
            )),
        ]);
        let (outcome, host) = run(&program);
        assert!(matches!(outcome, Outcome::Defect(Defect::Operands)));
        assert!(host.requests.is_empty());
    }
}

#[test]
fn builtins_called_without_their_arguments_are_defects() {
    for name in ["Aufgeben", "Zergliedere_JSON", "Gliedere_JSON", "Formatiere", "Http", "Schlummere"] {
        let program = study(vec![Statement::Expr(call(name, vec![]))]);
        let (outcome, _) = run(&program);
        assert!(matches!(outcome, Outcome::Defect(Defect::Operands)), "{name}");
    }
    for (name, arg) in [
        ("Aufgeben", text("x")),
        ("Zergliedere_JSON", num(1)),
        ("Formatiere", num(1)),
        ("Schlummere", num(1)),
    ] {
        let program = study(vec![Statement::Expr(call(name, vec![arg]))]);
        let (outcome, _) = run(&program);
        assert!(matches!(outcome, Outcome::Defect(Defect::Operands)), "{name}");
    }
}

#[test]
fn grouping_changes_nothing() {
    let out = output_of(vec![print(vec![Expression::Grouped(Box::new(infix(
        Expression::Grouped(Box::new(num(2))),
        InfixOp::Mul,
        Expression::Grouped(Box::new(infix(num(3), InfixOp::Plus, num(4)))),
    )))])]);
    assert_eq!(out, "14\n");
}

#[test]
fn statement_discards_the_value_of_its_expression() {
    let out = output_of(vec![Statement::Expr(num(1)), Statement::Expr(text("x")), print(vec![])]);
    assert_eq!(out, "\n");
}

#[test]
fn clock_matters_only_to_the_step_that_reads_it() {
    let program = study(vec![
        print(vec![num(1)]),
        let_stmt("t", call("Zeit", vec![])),
        print(vec![member(var("t"), "Jahr"), member(var("t"), "Sekunde")]),
    ]);
    let shown = world().clock;
    let mut host = Host::new();
    let mut interpreter = Interpreter::new(&program, vec![]);
    let mut event = Event::Resume;
    let mut reads = 0;
    let outcome = loop {
        let clock = if interpreter.reads_clock() {
            reads += 1;
            shown
        } else {
            ClockReading::epoch()
        };
        let action = interpreter.step(event, clock);
        match host.perform(action) {
            Ok(next) => event = next,
            Err(outcome) => break outcome,
        }
    };
    assert!(matches!(outcome, Outcome::Exit(0)));
    assert_eq!(reads, 1);
    assert_eq!(host.output, "1\n2024 42\n");
}
