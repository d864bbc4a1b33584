use abanos::auth::Credential;
use abanos::connection::{bearer, Connection};
use abanos::continuation::{Arg, Closure, Context, Continuation};
use abanos::env::{Env, Store};
use abanos::eval::{evaluate, resume_fetch, resume_send, Step};
use abanos::expr::Expr;
use abanos::parse::Parser;
use abanos::value::{display, Builtin, Primitive, User, Value};

fn user() -> User {
    User { name: String::from("ada"), email: String::from("ada@example.org") }
}

/// A store with the standard frame at index 0, and a context over it.
fn setup() -> (Store, Context) {
    let mut store = Store::new();
    let r = store.add(Env::standard_frame());
    (store, Context { r, d: r, user: user() })
}

fn read(text: &str) -> Expr {
    Parser::new(text).next().expect("a form").expect("a well-formed form")
}

fn run_text(text: &str) -> Step {
    let (mut store, ctx) = setup();
    evaluate(&mut store, read(text), ctx, 10_000)
}

fn number_of(step: Step) -> String {
    match step {
        Step::Done(Value::Number(n)) => n,
        other => panic!("expected a number, got {:?}", other),
    }
}

fn failure_of(step: Step) -> String {
    match step {
        Step::Fail(m) => m,
        other => panic!("expected a failure, got {:?}", other),
    }
}

#[test]
fn evaluates_addition() {
    assert_eq!(number_of(run_text("(+ 1 2 3)")), "6");
}

#[test]
fn evaluates_lambda_application() {
    assert_eq!(number_of(run_text("((lambda (x) (+ x x)) 21)")), "42");
}

#[test]
fn evaluates_conditionals() {
    assert_eq!(number_of(run_text("(if #f 1 2)")), "2");
    assert_eq!(number_of(run_text("(if #\\a 1 2)")), "1");
    assert_eq!(number_of(run_text("(if '() 1 2)")), "1");
    assert_eq!(number_of(run_text("(if #t 1 2)")), "1");
}

#[test]
fn call_cc_escape_abandons_pending_work() {
    assert_eq!(number_of(run_text("(+ 1 (call/cc (lambda (k) (+ 2 (k 10)))))")), "11");
    assert_eq!(number_of(run_text("(+ 1 (call/cc (lambda (k) (k 10))))")), "11");
}

#[test]
fn call_cc_identity_on_self_evaluating_values() {
    assert_eq!(number_of(run_text("(call/cc (lambda (k) (k 7)))")), "7");
    match run_text("(call/cc (lambda (k) (k \"s\")))") {
        Step::Done(Value::String(s)) => assert_eq!(s, "s"),
        other => panic!("unexpected {:?}", other),
    }
    match run_text("(call/cc (lambda (k) (k #f)))") {
        Step::Done(Value::Boolean(b)) => assert!(!b),
        other => panic!("unexpected {:?}", other),
    }
}

#[test]
fn self_evaluating_literals() {
    assert_eq!(number_of(run_text("1/2")), "1/2");
    match run_text("#\\a") {
        Step::Done(Value::Char(c)) => assert_eq!(c, 'a'),
        other => panic!("unexpected {:?}", other),
    }
    match run_text("#u8(1 2)") {
        Step::Done(Value::Bytevector(b)) => assert_eq!(b, vec![1, 2]),
        other => panic!("unexpected {:?}", other),
    }
}

#[test]
fn quoted_list_becomes_list_value() {
    match run_text("'(a 1)") {
        Step::Done(Value::List(items)) => {
            assert_eq!(items.len(), 2);
            assert!(matches!(&items[0], Value::Symbol(s) if s == "a"));
            assert!(matches!(&items[1], Value::Number(n) if n == "1"));
        },
        other => panic!("unexpected {:?}", other),
    }
}

#[test]
fn define_then_reference() {
    let (mut store, ctx) = setup();
    let r = ctx.r;
    let d = evaluate(&mut store, read("(define x 5)"), ctx, 100);
    assert!(matches!(d, Step::Done(Value::Null)));
    let ctx = Context { r, d: r, user: user() };
    assert_eq!(number_of(evaluate(&mut store, read("(+ x 1)"), ctx, 100)), "6");
}

#[test]
fn operands_are_evaluated_left_to_right() {
    let (mut store, ctx) = setup();
    let r = ctx.r;
    let _ = evaluate(&mut store, read("(define f (lambda (a b) b))"), ctx, 100);
    let ctx = Context { r, d: r, user: user() };
    let step = evaluate(&mut store, read("(f (define y 3) y)"), ctx, 1000);
    assert_eq!(number_of(step), "3");
}

#[test]
fn evaluation_errors() {
    assert_eq!(failure_of(run_text("y")), "not found");
    assert_eq!(failure_of(run_text("(1 2)")), "not callable");
    assert_eq!(failure_of(run_text("(+ 1 #t)")), "add: invalid argument");
    assert_eq!(failure_of(run_text("(+)")), "arity mismatch");
    assert_eq!(failure_of(run_text("((lambda (x) x))")), "arity mismatch");
    assert_eq!(failure_of(run_text("(call/cc 1 2)")), "arity mismatch");
    assert_eq!(failure_of(run_text("(+ 9223372036854775807 1)")), "add: overflow");
    assert_eq!(failure_of(run_text("(+ 1.5 1)")), "invalid digit found in string");
}

#[test]
fn sums_of_negative_and_large_numbers() {
    assert_eq!(number_of(run_text("(+ -5 3)")), "-2");
    assert_eq!(number_of(run_text("(+ 9223372036854775807 -1 1)")), "9223372036854775807");
}

#[test]
fn out_of_fuel_hands_back_the_state() {
    let (mut store, ctx) = setup();
    assert!(matches!(evaluate(&mut store, read("(+ 1 2)"), ctx, 2), Step::Next(_)));
}

#[test]
fn lambda_sees_its_binder_over_a_remote_caller() {
    let mut store = Store::new();
    let global = store.add(Env::standard_frame());
    let remote = store.add(Env::new_dust(vec![String::from("usr"), String::from("ada")]));
    let ctx = Context { r: global, d: global, user: user() };
    let _ = evaluate(&mut store, read("(define g ((lambda (x) (lambda () x)) 4))"), ctx, 1000);
    // the caller's lexical environment is remote; `g` itself is fetched from there
    let ctx = Context { r: remote, d: remote, user: user() };
    let step = evaluate(&mut store, read("(g)"), ctx, 1000);
    let (symbol, k) = match step {
        Step::Fetch { path, symbol, k } => {
            assert_eq!(path, "usr/ada/g");
            (symbol, k)
        },
        other => panic!("unexpected {:?}", other),
    };
    let lambda = match evaluate(&mut store, read("g"), Context { r: global, d: global, user: user() }, 100) {
        Step::Done(v) => v,
        other => panic!("unexpected {:?}", other),
    };
    let mut next = resume_fetch(&symbol, Some(lambda), k);
    let mut fuel = 100;
    while let Step::Next(c) = next {
        fuel -= 1;
        assert!(fuel > 0);
        next = abanos::eval::step(&mut store, c);
    }
    assert_eq!(number_of(next), "4");
}

#[test]
fn remote_lookup_falls_back_to_standard_table() {
    let k = Some(Box::new(Closure::Return { context: Context { r: 0, d: 0, user: user() }, k: None }));
    let step = resume_fetch(&String::from("+"), None, k);
    match step {
        Step::Next(c) => assert!(matches!(c.closure, Closure::Return { .. })),
        other => panic!("unexpected {:?}", other),
    }
    let k = Some(Box::new(Closure::Return { context: Context { r: 0, d: 0, user: user() }, k: None }));
    assert_eq!(failure_of(resume_fetch(&String::from("nope"), None, k)), "not found");
}

#[test]
fn connection_urls() {
    let c = Connection::new(String::from("api.abanos.io"), 443, false);
    assert_eq!(c.health_url(), "https://api.abanos.io:443/api/health");
    let c = Connection::new(String::from("127.0.0.1"), 8080, true);
    assert_eq!(c.eval_url(), "http://127.0.0.1:8080/api/eval");
    assert_eq!(bearer("t0k"), "Bearer t0k");
}

#[test]
fn credential_getters() {
    let c = Credential::new(
        String::from("a"),
        String::from("Bearer"),
        String::from("openid"),
        3600,
        String::from("id"),
    );
    assert_eq!(c.get_id_token(), "id");
    assert_eq!(c._get_access_token(), "a");
    assert_eq!(c._get_refresh_token(), "");
    assert_eq!(c.get_expires_in(), 3600);
}

#[test]
fn malformed_states_fail() {

    let mut store = Store::new();
    let ctx = Context { r: 0, d: 0, user: user() };
    let c = Continuation { closure: Closure::Return { context: ctx, k: None }, arg: Arg::ExprList(vec![]) };
    assert_eq!(failure_of(abanos::eval::step(&mut store, c)), "expected value");
    let ctx = Context { r: 0, d: 0, user: user() };
    let c = Continuation { closure: Closure::Eval { context: ctx, k: None }, arg: Arg::Expr(Expr::Boolean(true)) };
    assert_eq!(failure_of(abanos::eval::step(&mut store, c)), "missing continuation");
    let ctx = Context { r: 5, d: 5, user: user() };
    let c = Continuation {
        closure: Closure::Eval { context: ctx, k: None },
        arg: Arg::Expr(Expr::Variable(String::from("x"))),
    };
    assert_eq!(failure_of(abanos::eval::step(&mut store, c)), "no such environment");
}

#[test]
fn define_in_remote_frame_sends_the_value() {
    let mut store = Store::new();
    let remote = store.add(Env::new_dust(vec![String::from("usr")]));
    let ctx = Context { r: remote, d: remote, user: user() };
    match evaluate(&mut store, read("(define z 8)"), ctx, 100) {
        Step::Send { path, value, then } => {
            assert_eq!(path, "usr/z");
            assert!(matches!(value, Value::Number(n) if n == "8"));
            assert!(matches!(then.closure, Closure::Return { .. }));
        },
        other => panic!("unexpected {:?}", other),
    }
}

#[test]
fn body_value_is_its_last_expression() {
    assert_eq!(number_of(run_text("((lambda (x) 1 2 (+ x 3)) 4)")), "7");
    // the reader asks for a body; an expression built without one yields the unspecified value
    let (mut store, ctx) = setup();
    let e = Expr::Apply(Box::new(Expr::Lambda(vec![], vec![])), vec![]);
    assert!(matches!(evaluate(&mut store, e, ctx, 100), Step::Done(Value::Null)));
}

#[test]
fn display_forms() {
    assert_eq!(display(&Value::Boolean(true)), "#t");
    assert_eq!(display(&Value::Boolean(false)), "#f");
    assert_eq!(display(&Value::Char('a')), "#\\a");
    assert_eq!(display(&Value::Bytevector(vec![1, 20, 255])), "#u8(1 20 255)");
    assert_eq!(display(&Value::Bytevector(vec![])), "#u8()");
    assert_eq!(display(&Value::Null), "()");
    assert_eq!(
        display(&Value::List(vec![
            Value::Symbol(String::from("a")),
            Value::Number(String::from("1")),
            Value::Vector(vec![Value::String(String::from("s"))]),
        ])),
        "(a 1 #(s))"
    );
    assert_eq!(display(&Value::Lambda(vec![], vec![], 0)), "#<procedure>");
    assert_eq!(display(&Value::Env(3)), "#<env>");
    assert_eq!(display(&Value::User(user())), "#<user:ada>");
    let b = Builtin { name: String::from("+"), f: Primitive::Add, min_args: 1, max_args: None };
    assert_eq!(display(&Value::Builtin(b)), "#<builtin:+>");
    let ctx = Context { r: 0, d: 0, user: user() };
    assert_eq!(display(&Value::Continuation(Box::new(Closure::Return { context: ctx, k: None }))), "#<continuation>");
}

#[test]
fn operand_binding_is_seen_by_later_operand() {
    assert_eq!(number_of(run_text("((lambda (a b) b) (define x 1) x)")), "1");
}

#[test]
fn remote_frame_without_channel_falls_back_to_standard_table() {
    let mut store = Store::new();
    let r = store.add(Env::Dust { path: vec![String::from("usr")], connected: false });
    let ctx = Context { r, d: r, user: user() };
    assert_eq!(number_of(evaluate(&mut store, read("(+ 2 3)"), ctx, 100)), "5");
    let ctx = Context { r, d: r, user: user() };
    assert_eq!(failure_of(evaluate(&mut store, read("nope"), ctx, 100)), "not found");
}

#[test]
fn remote_set_reply_gives_previous_value() {

    assert!(matches!(resume_send(Some(Some(Value::Number(String::from("1"))))), Some(Value::Number(n)) if n == "1"));
    assert!(resume_send(Some(None)).is_none());
    assert!(resume_send(None).is_none());
}
