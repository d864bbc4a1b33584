//! The evaluator: one step maps a continuation (a frame and its argument) to
//! the next one, or to a result; a trampoline runs steps until the `Return`
//! frame receives a value.
//!
//! Work on a remote environment is not done here: a step that needs it stops
//! with a request (`Fetch` or `Send`) that the host carries out; `resume_fetch`
//! turns the reply of a `Fetch` into the next step.
use crate::continuation::{
    copy_closure, Arg, ArgV, Closure, ClosureV, Context, ContextV, Continuation, ContinuationV,
};
use crate::env::{
    bind, bind_local, binding, bindings_view, find_binding, join_path, remote_path, standard_procedure,
    standard_spec, strings_view, Env, EnvV, Store,
};
use crate::expr::{exprs_view, Expr, ExprV};
use crate::text::{i64_text, i64_value, int_parse_failure, int_text, parse_i64};
use crate::value::{copy_value, lemma_values_view_push, values_view, Primitive, Value, ValueV};
use vstd::prelude::*;

verus! {

/// What one step of the evaluator produces.
#[derive(Debug)]
pub enum Step {
    /// The next state.
    Next(Continuation),
    /// The final value: the `Return` frame received it.
    Done(Value),
    /// The evaluation failed.
    Fail(String),
    /// The value at `path` of a remote environment is needed; `resume_fetch`
    /// goes on with the reply.
    Fetch { path: String, symbol: String, k: Option<Box<Closure>> },
    /// `value` is to be stored at `path` of a remote environment; the
    /// evaluation then goes on with `then`.
    Send { path: String, value: Value, then: Continuation },
}

pub enum StepV {
    Next(ContinuationV),
    Done(ValueV),
    Fail(Seq<char>),
    Fetch { path: Seq<char>, symbol: Seq<char>, k: Option<Box<ClosureV>> },
    Send { path: Seq<char>, value: ValueV, then: ContinuationV },
}

impl Step {
    pub open spec fn view(self) -> StepV {
        match self {
            Step::Next(c) => StepV::Next(c@),
            Step::Done(v) => StepV::Done(v@),
            Step::Fail(m) => StepV::Fail(m@),
            Step::Fetch { path, symbol, k } => StepV::Fetch {
                path: path@,
                symbol: symbol@,
                k: crate::continuation::next_view(k),
            },
            Step::Send { path, value, then } => StepV::Send { path: path@, value: value@, then: then@ },
        }
    }
}

/// Hands `a` to the frame `k`.
pub open spec fn feed(k: Option<Box<ClosureV>>, a: ArgV) -> StepV {
    match k {
        Some(c) => StepV::Next(ContinuationV { closure: *c, arg: a }),
        None => StepV::Fail("missing continuation"@),
    }
}

/// Evaluates `e` in `ctx`, then hands its value to `k`.
pub open spec fn eval_then(e: ExprV, ctx: ContextV, k: Option<Box<ClosureV>>) -> StepV {
    StepV::Next(ContinuationV { closure: ClosureV::Eval { context: ctx, k }, arg: ArgV::Expr(e) })
}

/// The value that a quoted datum stands for.
pub open spec fn datum_value(e: ExprV) -> Option<ValueV>
    decreases e,
{
    match e {
        ExprV::Boolean(b) => Some(ValueV::Boolean(b)),
        ExprV::Bytevector(b) => Some(ValueV::Bytevector(b)),
        ExprV::Char(c) => Some(ValueV::Char(c)),
        ExprV::Number(n) => Some(ValueV::Number(n)),
        ExprV::Str(s) => Some(ValueV::Str(s)),
        ExprV::Variable(s) => Some(ValueV::Symbol(s)),
        ExprV::List(l) => match data_values(l) {
            Some(vs) => Some(ValueV::List(vs)),
            None => None,
        },
        ExprV::Vector(l) => match data_values(l) {
            Some(vs) => Some(ValueV::Vector(vs)),
            None => None,
        },
        _ => None,
    }
}

/// The values of a sequence of data, if each has one.
pub open spec fn data_values(l: Seq<ExprV>) -> Option<Seq<ValueV>>
    decreases l,
{
    if l.len() == 0 {
        Some(Seq::empty())
    } else {
        match datum_value(l[0]) {
            None => None,
            Some(v) => match data_values(l.subrange(1, l.len() as int)) {
                None => None,
                Some(vs) => Some(seq![v] + vs),
            },
        }
    }
}

/// Looks `name` up in the frame `env`: a local binding is handed to `k`; a
/// missing one is looked up in the parent by a `Lookup` frame; a remote frame
/// asks for `path/name`, or, without a channel, falls back to the standard
/// procedures at once.
pub open spec fn frame_get_spec(env: EnvV, name: Seq<char>, ctx: ContextV, k: Option<Box<ClosureV>>) -> StepV {
    match env {
        EnvV::Local { hm, parent } => match binding(hm, name) {
            Some(v) => feed(k, ArgV::Value(v)),
            None => match parent {
                Some(p) => StepV::Next(
                    ContinuationV {
                        closure: ClosureV::Lookup { r: p, context: ctx, k },
                        arg: ArgV::Value(ValueV::Symbol(name)),
                    },
                ),
                None => StepV::Fail("not found"@),
            },
        },
        EnvV::Dust { path, connected } => if connected {
            StepV::Fetch { path: remote_path(path, name), symbol: name, k }
        } else {
            resume_spec(name, None, k)
        },
    }
}

/// Looks `name` up from frame `r` of the store.
pub open spec fn get_spec(
    store: Seq<EnvV>,
    r: nat,
    name: Seq<char>,
    ctx: ContextV,
    k: Option<Box<ClosureV>>,
) -> StepV {
    if r >= store.len() {
        StepV::Fail("no such environment"@)
    } else {
        frame_get_spec(store[r as int], name, ctx, k)
    }
}

/// Binds `name` to `v` in frame `r`, then hands the unspecified value to `k`.
pub open spec fn define_spec(
    store: Seq<EnvV>,
    r: nat,
    name: Seq<char>,
    v: ValueV,
    k: Option<Box<ClosureV>>,
) -> (StepV, Seq<EnvV>) {
    if r >= store.len() {
        (StepV::Fail("no such environment"@), store)
    } else {
        match store[r as int] {
            EnvV::Local { hm, parent } => (
                feed(k, ArgV::Value(ValueV::Null)),
                store.update(r as int, EnvV::Local { hm: bind(hm, name, v), parent }),
            ),
            EnvV::Dust { path, connected } => if connected {
                match k {
                    Some(c) => (
                        StepV::Send {
                            path: remote_path(path, name),
                            value: v,
                            then: ContinuationV { closure: *c, arg: ArgV::Value(ValueV::Null) },
                        },
                        store,
                    ),
                    None => (StepV::Fail("missing continuation"@), store),
                }
            } else {
                (feed(k, ArgV::Value(ValueV::Null)), store)
            },
        }
    }
}

/// One step of `Eval`: what to do with the expression `e`.
pub open spec fn eval_spec(store: Seq<EnvV>, e: ExprV, ctx: ContextV, k: Option<Box<ClosureV>>) -> StepV {
    match e {
        ExprV::Boolean(b) => feed(k, ArgV::Value(ValueV::Boolean(b))),
        ExprV::Char(c) => feed(k, ArgV::Value(ValueV::Char(c))),
        ExprV::Number(n) => feed(k, ArgV::Value(ValueV::Number(n))),
        ExprV::Str(s) => feed(k, ArgV::Value(ValueV::Str(s))),
        ExprV::Bytevector(b) => feed(k, ArgV::Value(ValueV::Bytevector(b))),
        ExprV::Variable(name) => get_spec(store, ctx.r, name, ctx, k),
        ExprV::List(_) | ExprV::Vector(_) => match datum_value(e) {
            Some(v) => feed(k, ArgV::Value(v)),
            None => StepV::Fail("invalid list element"@),
        },
        ExprV::If(p, c, a) => eval_then(
            *p,
            ctx,
            Some(Box::new(ClosureV::IfAfter { consequent: *c, alternative: *a, context: ctx, k })),
        ),
        ExprV::Apply(op, ops) => eval_then(
            *op,
            ctx,
            Some(Box::new(ClosureV::EvalOperatorAfter { operands: ops, context: ctx, k })),
        ),
        ExprV::Lambda(f, b) => feed(k, ArgV::Value(ValueV::Lambda(f, b, ctx.r))),
        ExprV::Define(s, x) | ExprV::Assign(s, x) => match *s {
            ExprV::Variable(_) => eval_then(
                *x,
                ctx,
                Some(Box::new(ClosureV::DefineAfter { symbol: *s, context: ctx, k })),
            ),
            _ => StepV::Fail("invalid definition"@),
        },
    }
}

/// The names of lambda formals, if each is a variable.
pub open spec fn formal_names(f: Seq<ExprV>) -> Option<Seq<Seq<char>>>
    decreases f.len(),
{
    if f.len() == 0 {
        Some(Seq::empty())
    } else {
        match (formal_names(f.drop_last()), f.last()) {
            (Some(ns), ExprV::Variable(n)) => Some(ns.push(n)),
            _ => None,
        }
    }
}

/// Formals bound by position to arguments.
pub open spec fn zip_bindings(names: Seq<Seq<char>>, vs: Seq<ValueV>) -> Seq<(Seq<char>, ValueV)> {
    Seq::new(names.len(), |i: int| (names[i], vs[i]))
}

/// Whether all values are numbers.
pub open spec fn all_numbers(vs: Seq<ValueV>) -> bool {
    forall|i: int| 0 <= i < vs.len() ==> vs[i] is Number
}

pub open spec fn number_text(v: ValueV) -> Seq<char> {
    match v {
        ValueV::Number(t) => t,
        _ => Seq::empty(),
    }
}

/// Position of the first number whose text is not a 64-bit integer.
pub open spec fn first_unreadable(vs: Seq<ValueV>) -> Option<int>
    decreases vs.len(),
{
    if vs.len() == 0 {
        None
    } else {
        match first_unreadable(vs.drop_last()) {
            Some(j) => Some(j),
            None => if i64_value(number_text(vs.last())) is None {
                Some(vs.len() - 1)
            } else {
                None
            },
        }
    }
}

/// The sum of the integers that the numbers stand for.
pub open spec fn number_sum(vs: Seq<ValueV>) -> int
    decreases vs.len(),
{
    if vs.len() == 0 {
        0
    } else {
        number_sum(vs.drop_last()) + match i64_value(number_text(vs.last())) {
            Some(x) => x,
            None => 0,
        }
    }
}

/// The built-in `+`: integer addition of one or more numbers, each read as a
/// 64-bit integer; the first that cannot be read fails with the reading's
/// message, and a sum outside 64 bits fails with `add: overflow`.
pub open spec fn add_spec(vs: Seq<ValueV>, k: ClosureV) -> StepV {
    if vs.len() == 0 {
        StepV::Fail("add: no arguments"@)
    } else if !all_numbers(vs) {
        StepV::Fail("add: invalid argument"@)
    } else {
        match first_unreadable(vs) {
            Some(j) => StepV::Fail(int_parse_failure(number_text(vs[j]))),
            None => if i64::MIN <= number_sum(vs) <= i64::MAX {
                StepV::Next(ContinuationV { closure: k, arg: ArgV::Value(ValueV::Number(int_text(number_sum(vs)))) })
            } else {
                StepV::Fail("add: overflow"@)
            },
        }
    }
}

/// The built-in `call/cc`: calls its one argument with the current
/// continuation reified as a value.
pub open spec fn call_cc_spec(vs: Seq<ValueV>, ctx: ContextV, k: ClosureV) -> StepV {
    if vs.len() != 1 {
        StepV::Fail("call/cc expects 1 argument"@)
    } else {
        StepV::Next(
            ContinuationV {
                closure: ClosureV::Call { operator: vs[0], context: ctx, k: Some(Box::new(k)) },
                arg: ArgV::ValueList(seq![ValueV::Continuation(Box::new(k))]),
            },
        )
    }
}

/// Calls the value `op` with the arguments `vs`.
pub open spec fn call_spec(
    store: Seq<EnvV>,
    op: ValueV,
    vs: Seq<ValueV>,
    ctx: ContextV,
    k: Option<Box<ClosureV>>,
) -> (StepV, Seq<EnvV>) {
    match op {
        ValueV::Builtin(b) => if vs.len() < b.min_args || (b.max_args matches Some(m) && vs.len() > m) {
            (StepV::Fail("arity mismatch"@), store)
        } else {
            match k {
                None => (StepV::Fail("missing continuation"@), store),
                Some(c) => match b.f {
                    Primitive::Add => (add_spec(vs, *c), store),
                    Primitive::CallCc => (call_cc_spec(vs, ctx, *c), store),
                    Primitive::Missing => (StepV::Fail("default"@), store),
                },
            }
        },
        ValueV::Lambda(f, body, r) => match formal_names(f) {
            None => (StepV::Fail("invalid formal"@), store),
            Some(names) => if names.len() != vs.len() {
                (StepV::Fail("arity mismatch"@), store)
            } else if store.len() >= usize::MAX {
                (StepV::Fail("environment store is full"@), store)
            } else {
                (
                    StepV::Next(
                        ContinuationV {
                            closure: ClosureV::EvalBody {
                                context: ContextV { r: store.len(), d: ctx.d, user: ctx.user },
                                k,
                            },
                            arg: ArgV::ExprList(body),
                        },
                    ),
                    store.push(EnvV::Local { hm: zip_bindings(names, vs), parent: Some(r) }),
                )
            },
        },
        ValueV::Continuation(c) => if vs.len() != 1 {
            (StepV::Fail("continuation arity"@), store)
        } else {
            (StepV::Next(ContinuationV { closure: *c, arg: ArgV::Value(vs[0]) }), store)
        },
        _ => (StepV::Fail("not callable"@), store),
    }
}

/// Evaluates the first expression of `es` with `after` waiting for its value,
/// or hands `none_left` to `k` when `es` is empty.
pub open spec fn sequence_spec(
    es: Seq<ExprV>,
    ctx: ContextV,
    after: ClosureV,
    k: Option<Box<ClosureV>>,
    none_left: ArgV,
) -> StepV {
    if es.len() == 0 {
        feed(k, none_left)
    } else {
        eval_then(es[0], ctx, Some(Box::new(after)))
    }
}

/// One step: what the frame of `c` does with its argument, and the store after it.
pub open spec fn step_spec(store: Seq<EnvV>, c: ContinuationV) -> (StepV, Seq<EnvV>) {
    match c.closure {
        ClosureV::Return { .. } => match c.arg {
            ArgV::Value(v) => (StepV::Done(v), store),
            _ => (StepV::Fail("expected value"@), store),
        },
        ClosureV::Eval { context, k } => match c.arg {
            ArgV::Expr(e) => (eval_spec(store, e, context, k), store),
            _ => (StepV::Fail("expected expression"@), store),
        },
        ClosureV::EvalOperatorAfter { operands, context, k } => match c.arg {
            ArgV::Value(op) => (
                StepV::Next(
                    ContinuationV {
                        closure: ClosureV::Evlis {
                            context,
                            k: Some(Box::new(ClosureV::Call { operator: op, context, k })),
                        },
                        arg: ArgV::ExprList(operands),
                    },
                ),
                store,
            ),
            _ => (StepV::Fail("expected value"@), store),
        },
        ClosureV::Evlis { context, k } => match c.arg {
            ArgV::ExprList(es) => (
                sequence_spec(
                    es,
                    context,
                    ClosureV::EvlisAfter {
                        exprs: es.subrange(1, es.len() as int),
                        acc: Seq::empty(),
                        context,
                        k,
                    },
                    k,
                    ArgV::ValueList(Seq::empty()),
                ),
                store,
            ),
            _ => (StepV::Fail("expected list of expressions"@), store),
        },
        ClosureV::EvlisAfter { exprs, acc, context, k } => match c.arg {
            ArgV::Value(v) => (
                sequence_spec(
                    exprs,
                    context,
                    ClosureV::EvlisAfter {
                        exprs: exprs.subrange(1, exprs.len() as int),
                        acc: acc.push(v),
                        context,
                        k,
                    },
                    k,
                    ArgV::ValueList(acc.push(v)),
                ),
                store,
            ),
            _ => (StepV::Fail("expected value"@), store),
        },
        ClosureV::Call { operator, context, k } => match c.arg {
            ArgV::ValueList(vs) => call_spec(store, operator, vs, context, k),
            _ => (StepV::Fail("expected list of values"@), store),
        },
        ClosureV::EvalBody { context, k } => match c.arg {
            ArgV::ExprList(body) => (
                sequence_spec(
                    body,
                    context,
                    ClosureV::EvalBodyAfter { body: body.subrange(1, body.len() as int), context, k },
                    k,
                    ArgV::Value(ValueV::Null),
                ),
                store,
            ),
            _ => (StepV::Fail("expected list of expressions"@), store),
        },
        ClosureV::EvalBodyAfter { body, context, k } => match c.arg {
            ArgV::Value(v) => (
                sequence_spec(
                    body,
                    context,
                    ClosureV::EvalBodyAfter { body: body.subrange(1, body.len() as int), context, k },
                    k,
                    ArgV::Value(v),
                ),
                store,
            ),
            _ => (StepV::Fail("expected value"@), store),
        },
        ClosureV::IfAfter { consequent, alternative, context, k } => match c.arg {
            ArgV::Value(v) => if v == ValueV::Boolean(false) {
                (eval_then(alternative, context, k), store)
            } else {
                (eval_then(consequent, context, k), store)
            },
            _ => (StepV::Fail("expected value"@), store),
        },
        ClosureV::DefineAfter { symbol, context, k } => match (c.arg, symbol) {
            (ArgV::Value(v), ExprV::Variable(name)) => define_spec(store, context.r, name, v, k),
            (ArgV::Value(_), _) => (StepV::Fail("invalid definition"@), store),
            _ => (StepV::Fail("expected value"@), store),
        },
        ClosureV::Lookup { r, context, k } => match c.arg {
            ArgV::Value(ValueV::Symbol(name)) => (get_spec(store, r, name, context, k), store),
            _ => (StepV::Fail("expected symbol"@), store),
        },
        ClosureV::If { predicate, consequent, alternative, context, k } => (
            eval_then(
                predicate,
                context,
                Some(Box::new(ClosureV::IfAfter { consequent, alternative, context, k })),
            ),
            store,
        ),
        ClosureV::Apply { operator, operands, context, k } => (
            eval_then(
                operator,
                context,
                Some(Box::new(ClosureV::EvalOperatorAfter { operands, context, k })),
            ),
            store,
        ),
        ClosureV::Define { symbol, e, context, k } | ClosureV::Assign { symbol, e, context, k } => (
            eval_then(e, context, Some(Box::new(ClosureV::DefineAfter { symbol, context, k }))),
            store,
        ),
        ClosureV::Lambda { formals, body, context, k } => (
            feed(k, ArgV::Value(ValueV::Lambda(formals, body, context.r))),
            store,
        ),
    }
}

fn message(s: &str) -> (r: String)
    ensures
        r@ == s@,
{
    s.to_owned()
}

/// Hands `a` to the frame `k`.
fn hand_to(k: Option<Box<Closure>>, a: Arg) -> (s: Step)
    ensures
        s@ == feed(crate::continuation::next_view(k), a@),
{
    match k {
        Some(c) => Step::Next(Continuation { closure: *c, arg: a }),
        None => Step::Fail(message("missing continuation")),
    }
}

/// Evaluates `e` in `ctx`, then hands its value to `k`.
fn eval_in(e: Expr, ctx: Context, k: Option<Box<Closure>>) -> (s: Step)
    ensures
        s@ == eval_then(e@, ctx@, crate::continuation::next_view(k)),
{
    Step::Next(Continuation { closure: Closure::Eval { context: ctx, k }, arg: Arg::Expr(e) })
}

/// The value that a quoted datum stands for, as `datum_value` states it.
pub fn datum_to_value(e: &Expr) -> (r: Option<Value>)
    ensures
        match datum_value(e@) {
            Some(v) => r matches Some(x) && x@ == v,
            None => r is None,
        },
    decreases e,
{
    match e {
        Expr::Boolean(b) => Some(Value::Boolean(*b)),
        Expr::Bytevector(b) => Some(Value::Bytevector(b.clone())),
        Expr::Char(c) => Some(Value::Char(*c)),
        Expr::Number(n) => Some(Value::Number(n.clone())),
        Expr::String(s) => Some(Value::String(s.clone())),
        Expr::Variable(s) => Some(Value::Symbol(s.clone())),
        Expr::List(l) => match data_to_values(l) {
            Some(vs) => Some(Value::List(vs)),
            None => None,
        },
        Expr::Vector(l) => match data_to_values(l) {
            Some(vs) => Some(Value::Vector(vs)),
            None => None,
        },
        _ => None,
    }
}

/// The values of a vector of data, as `data_values` states it.
fn data_to_values(l: &Vec<Expr>) -> (r: Option<Vec<Value>>)
    ensures
        match data_values(exprs_view(*l)) {
            Some(vs) => r matches Some(x) && values_view(x) == vs,
            None => r is None,
        },
    decreases l,
{
    let ghost lv = exprs_view(*l);
    let mut out: Vec<Value> = Vec::new();
    let mut i: usize = 0;
    assert(lv.subrange(0, lv.len() as int) =~= lv);
    assert(values_view(out) =~= Seq::<ValueV>::empty());
    while i < l.len()
        invariant
            i <= l@.len(),
            lv == exprs_view(*l),
            data_values(lv) == match data_values(lv.subrange(i as int, lv.len() as int)) {
                Some(rest) => Some(values_view(out) + rest),
                None => None,
            },
        decreases l@.len() - i,
    {
        let ghost tail = lv.subrange(i as int, lv.len() as int);
        assert(tail[0] == l@[i as int]@);
        assert(tail.subrange(1, tail.len() as int) =~= lv.subrange(i + 1, lv.len() as int));
        match datum_to_value(&l[i]) {
            None => {
                return None;
            },
            Some(v) => {
                let ghost before = out;
                let ghost vv = v@;
                out.push(v);
                proof {
                    lemma_values_view_push(before, out, v);
                    if let Some(rest) = data_values(lv.subrange(i + 1, lv.len() as int)) {
                        assert(values_view(before) + (seq![vv] + rest) =~= values_view(out) + rest);
                    }
                }
            },
        }
        i = i + 1;
    }
    assert(lv.subrange(i as int, lv.len() as int) =~= Seq::<ExprV>::empty());
    assert(values_view(out) + Seq::<ValueV>::empty() =~= values_view(out));
    Some(out)
}

impl Env {
    /// Looks `symbol` up in this frame, as `frame_get_spec` states it.
    pub fn get(&self, symbol: String, context: Context, k: Option<Box<Closure>>) -> (s: Step)
        ensures
            s@ == frame_get_spec(self@, symbol@, context@, crate::continuation::next_view(k)),
    {
        match self {
            Env::Local { hm, parent } => match find_binding(hm, &symbol) {
                Some(i) => {
                    proof {
                        crate::env::lemma_binding_index_bounds(bindings_view(*hm), symbol@);
                    }
                    hand_to(k, Arg::Value(copy_value(&hm[i].1)))
                },
                None => match parent {
                    Some(p) => Step::Next(
                        Continuation {
                            closure: Closure::Lookup { r: *p, context, k },
                            arg: Arg::Value(Value::Symbol(symbol)),
                        },
                    ),
                    None => Step::Fail(message("not found")),
                },
            },
            Env::Dust { path, connected } => if *connected {
                Step::Fetch { path: join_path(path, &symbol), symbol, k }
            } else {
                resume_fetch(&symbol, None, k)
            },
        }
    }
}

/// Looks `name` up from frame `r`, as `get_spec` states it.
fn get(store: &Store, r: usize, name: String, ctx: Context, k: Option<Box<Closure>>) -> (s: Step)
    ensures
        s@ == get_spec(store@, r as nat, name@, ctx@, crate::continuation::next_view(k)),
{
    if r >= store.frames.len() {
        return Step::Fail(message("no such environment"));
    }
    assert(store@[r as int] == store.frames@[r as int]@);
    store.frames[r].get(name, ctx, k)
}

impl Context {
    /// Looks `symbol` up from frame `r` of the store on behalf of this
    /// context, as `get_spec` states it.
    pub fn rget(&self, store: &Store, symbol: String, r: usize, k: Option<Box<Closure>>) -> (s: Step)
        ensures
            s@ == get_spec(store@, r as nat, symbol@, self@, crate::continuation::next_view(k)),
    {
        get(store, r, symbol, self.copy(), k)
    }
}

/// Binds `name` to `v` in frame `r`, as `define_spec` states it.
fn define(store: &mut Store, r: usize, name: String, v: Value, k: Option<Box<Closure>>) -> (s: Step)
    ensures
        (s@, final(store)@) == define_spec(old(store)@, r as nat, name@, v@, crate::continuation::next_view(k)),
{
    if r >= store.frames.len() {
        return Step::Fail(message("no such environment"));
    }
    assert(store@[r as int] == store.frames@[r as int]@);
    let ghost before = store@;
    let frame = store.frames.remove(r);
    match frame {
        Env::Local { mut hm, parent } => {
            let ghost nv = name@;
            let ghost vv = v@;
            let ghost old_hm = bindings_view(hm);
            let _ = bind_local(&mut hm, name, v);
            store.frames.insert(r, Env::Local { hm, parent });
            assert(store@ =~= before.update(
                r as int,
                EnvV::Local {
                    hm: bind(old_hm, nv, vv),
                    parent: match parent {
                        Some(p) => Some(p as nat),
                        None => None,
                    },
                },
            ));
            hand_to(k, Arg::Value(Value::Null))
        },
        Env::Dust { path, connected } => {
            let s = if connected {
                match k {
                    Some(c) => Step::Send {
                        path: join_path(&path, &name),
                        value: v,
                        then: Continuation { closure: *c, arg: Arg::Value(Value::Null) },
                    },
                    None => Step::Fail(message("missing continuation")),
                }
            } else {
                hand_to(k, Arg::Value(Value::Null))
            };
            store.frames.insert(r, Env::Dust { path, connected });
            assert(store@ =~= before);
            s
        },
    }
}

/// One step of `Eval`, as `eval_spec` states it.
#[verifier::rlimit(80)]
fn eval_expr(store: &Store, e: Expr, ctx: Context, k: Option<Box<Closure>>) -> (s: Step)
    ensures
        s@ == eval_spec(store@, e@, ctx@, crate::continuation::next_view(k)),
{
    match e {
        Expr::Boolean(b) => hand_to(k, Arg::Value(Value::Boolean(b))),
        Expr::Char(c) => hand_to(k, Arg::Value(Value::Char(c))),
        Expr::Number(n) => hand_to(k, Arg::Value(Value::Number(n))),
        Expr::String(s) => hand_to(k, Arg::Value(Value::String(s))),
        Expr::Bytevector(b) => hand_to(k, Arg::Value(Value::Bytevector(b))),
        Expr::Variable(name) => {
            let r = ctx.r;
            get(store, r, name, ctx, k)
        },
        Expr::List(_) | Expr::Vector(_) => match datum_to_value(&e) {
            Some(v) => hand_to(k, Arg::Value(v)),
            None => Step::Fail(message("invalid list element")),
        },
        Expr::If(p, c, a) => {
            let then = Closure::IfAfter { consequent: *c, alternative: *a, context: ctx.copy(), k };
            eval_in(*p, ctx, Some(Box::new(then)))
        },
        Expr::Apply(op, ops) => {
            let then = Closure::EvalOperatorAfter { operands: ops, context: ctx.copy(), k };
            eval_in(*op, ctx, Some(Box::new(then)))
        },
        Expr::Lambda(f, b) => {
            let r = ctx.r;
            hand_to(k, Arg::Value(Value::Lambda(f, b, r)))
        },
        Expr::Define(s, x) | Expr::Assign(s, x) => match *s {
            Expr::Variable(name) => {
                assert((*s)@ == ExprV::Variable(name@));
                let then = Closure::DefineAfter { symbol: Expr::Variable(name), context: ctx.copy(), k };
                eval_in(*x, ctx, Some(Box::new(then)))
            },
            _ => {
                assert(!((*s)@ is Variable));
                Step::Fail(message("invalid definition"))
            },
        },
    }
}

/// A built-in's result as a step.
pub open spec fn outcome(r: Result<Continuation, String>) -> StepV {
    match r {
        Ok(c) => StepV::Next(c@),
        Err(m) => StepV::Fail(m@),
    }
}

proof fn lemma_first_unreadable_prefix(vs: Seq<ValueV>, m: int)
    requires
        0 <= m <= vs.len(),
        first_unreadable(vs.take(m)) is Some,
    ensures
        first_unreadable(vs) == first_unreadable(vs.take(m)),
    decreases vs.len() - m,
{
    if m < vs.len() {
        assert(vs.take(m + 1).drop_last() =~= vs.take(m));
        lemma_first_unreadable_prefix(vs, m + 1);
    } else {
        assert(vs.take(m) =~= vs);
    }
}

/// The built-in `+`, as `add_spec` states it.
pub fn add(args: Vec<Value>, context: Context, k: Closure) -> (r: Result<Continuation, String>)
    ensures
        outcome(r) == add_spec(values_view(args), k@),
{
    let ghost vs = values_view(args);
    if args.len() == 0 {
        return Err(message("add: no arguments"));
    }
    let mut i: usize = 0;
    while i < args.len()
        invariant
            i <= args@.len(),
            vs == values_view(args),
            forall|j: int| 0 <= j < i ==> vs[j] is Number,
        decreases args@.len() - i,
    {
        match &args[i] {
            Value::Number(_) => {},
            _ => {
                assert(!(vs[i as int] is Number));
                return Err(message("add: invalid argument"));
            },
        }
        i = i + 1;
    }
    assert(all_numbers(vs));
    let mut total: i128 = 0;
    i = 0;
    assert(vs.take(0) =~= Seq::<ValueV>::empty());
    while i < args.len()
        invariant
            i <= args@.len(),
            vs == values_view(args),
            all_numbers(vs),
            first_unreadable(vs.take(i as int)) is None,
            total == number_sum(vs.take(i as int)),
            -(i as int) * 0x8000_0000_0000_0000 <= total <= (i as int) * 0x8000_0000_0000_0000,
        decreases args@.len() - i,
    {
        assert(vs.take(i + 1).drop_last() =~= vs.take(i as int));
        assert(vs.take(i + 1).last() == vs[i as int]);
        match &args[i] {
            Value::Number(n) => {
                assert(number_text(vs[i as int]) == n@);
                match parse_i64(n.as_str()) {
                    Ok(x) => {
                        total = total + x as i128;
                    },
                    Err(m) => {
                        proof {
                            lemma_first_unreadable_prefix(vs, i + 1);
                        }
                        return Err(m);
                    },
                }
            },
            _ => {
                return Err(message("add: invalid argument"));
            },
        }
        i = i + 1;
    }
    assert(vs.take(i as int) =~= vs);
    if total < i64::MIN as i128 || total > i64::MAX as i128 {
        return Err(message("add: overflow"));
    }
    let text = i64_text(total as i64);
    Ok(Continuation { closure: k, arg: Arg::Value(Value::Number(text)) })
}

/// The built-in `call/cc`, as `call_cc_spec` states it.
pub fn call_cc(args: Vec<Value>, context: Context, k: Closure) -> (r: Result<Continuation, String>)
    ensures
        outcome(r) == call_cc_spec(values_view(args), context@, k@),
{
    if args.len() != 1 {
        return Err(message("call/cc expects 1 argument"));
    }
    let operator = copy_value(&args[0]);
    let reified = Value::Continuation(Box::new(copy_closure(&k)));
    let ghost rv = reified@;
    let operands = vec![reified];
    assert(values_view(operands) =~= seq![rv]);
    let closure = Closure::Call { operator: Box::new(operator), context, k: Some(Box::new(k)) };
    Ok(Continuation { closure, arg: Arg::ValueList(operands) })
}

proof fn lemma_formal_names_prefix(f: Seq<ExprV>, m: int)
    requires
        0 <= m <= f.len(),
        formal_names(f.take(m)) is None,
    ensures
        formal_names(f) is None,
    decreases f.len() - m,
{
    if m < f.len() {
        assert(f.take(m + 1).drop_last() =~= f.take(m));
        lemma_formal_names_prefix(f, m + 1);
    } else {
        assert(f.take(m) =~= f);
    }
}

/// The names of lambda formals, as `formal_names` states them.
fn formal_names_of(f: &Vec<Expr>) -> (r: Option<Vec<String>>)
    ensures
        match formal_names(exprs_view(*f)) {
            Some(ns) => r matches Some(x) && strings_view(x) == ns,
            None => r is None,
        },
{
    let ghost fv = exprs_view(*f);
    let mut out: Vec<String> = Vec::new();
    let mut i: usize = 0;
    assert(fv.take(0) =~= Seq::<ExprV>::empty());
    assert(strings_view(out) =~= Seq::<Seq<char>>::empty());
    while i < f.len()
        invariant
            i <= f@.len(),
            fv == exprs_view(*f),
            formal_names(fv.take(i as int)) == Some(strings_view(out)),
        decreases f@.len() - i,
    {
        assert(fv.take(i + 1).drop_last() =~= fv.take(i as int));
        assert(fv.take(i + 1).last() == f@[i as int]@);
        match &f[i] {
            Expr::Variable(n) => {
                let ghost before = out;
                out.push(n.clone());
                assert(strings_view(out) =~= strings_view(before).push(n@));
            },
            _ => {
                proof {
                    lemma_formal_names_prefix(fv, i + 1);
                }
                return None;
            },
        }
        i = i + 1;
    }
    assert(fv.take(i as int) =~= fv);
    Some(out)
}

/// Binds `names` to `vs` by position.
fn zip_frame(names: Vec<String>, vs: &Vec<Value>) -> (hm: Vec<(String, Value)>)
    requires
        names@.len() == vs@.len(),
    ensures
        bindings_view(hm) == zip_bindings(strings_view(names), values_view(*vs)),
{
    let mut hm: Vec<(String, Value)> = Vec::new();
    let mut i: usize = 0;
    while i < names.len()
        invariant
            i <= names@.len() == vs@.len(),
            hm@.len() == i,
            forall|j: int| 0 <= j < i ==> (#[trigger] hm@[j]).0@ == names@[j]@ && hm@[j].1@ == vs@[j]@,
        decreases names@.len() - i,
    {
        hm.push((names[i].clone(), copy_value(&vs[i])));
        i = i + 1;
    }
    assert(bindings_view(hm) =~= zip_bindings(strings_view(names), values_view(*vs)));
    hm
}

/// Calls `op` with `vs`, as `call_spec` states it.
fn call(store: &mut Store, op: Value, vs: Vec<Value>, ctx: Context, k: Option<Box<Closure>>) -> (s: Step)
    ensures
        (s@, final(store)@) == call_spec(old(store)@, op@, values_view(vs), ctx@, crate::continuation::next_view(k)),
{
    match op {
        Value::Builtin(b) => {
            let n = vs.len();
            let too_many = match b.max_args {
                Some(m) => n > m,
                None => false,
            };
            if n < b.min_args || too_many {
                return Step::Fail(message("arity mismatch"));
            }
            match k {
                None => Step::Fail(message("missing continuation")),
                Some(c) => {
                    let r = match b.f {
                        Primitive::Add => crate::eval::add(vs, ctx, *c),
                        Primitive::CallCc => call_cc(vs, ctx, *c),
                        Primitive::Missing => Err(message("default")),
                    };
                    match r {
                        Ok(next) => Step::Next(next),
                        Err(m) => Step::Fail(m),
                    }
                },
            }
        },
        Value::Lambda(f, body, r) => {
            let names = match formal_names_of(&f) {
                None => return Step::Fail(message("invalid formal")),
                Some(names) => names,
            };
            if names.len() != vs.len() {
                return Step::Fail(message("arity mismatch"));
            }
            if store.frames.len() >= usize::MAX {
                return Step::Fail(message("environment store is full"));
            }
            let hm = zip_frame(names, &vs);
            let idx = store.add(Env::Local { hm, parent: Some(r) });
            let context = Context { r: idx, d: ctx.d, user: ctx.user };
            Step::Next(Continuation { closure: Closure::EvalBody { context, k }, arg: Arg::ExprList(body) })
        },
        Value::Continuation(c) => {
            if vs.len() != 1 {
                return Step::Fail(message("continuation arity"));
            }
            let mut vs = vs;
            let v = vs.remove(0);
            Step::Next(Continuation { closure: *c, arg: Arg::Value(v) })
        },
        _ => Step::Fail(message("not callable")),
    }
}

proof fn lemma_exprs_view_remove_first(v: Vec<Expr>, w: Vec<Expr>)
    requires
        v@.len() > 0,
        w@ == v@.remove(0),
    ensures
        exprs_view(w) == exprs_view(v).subrange(1, v@.len() as int),
{
    assert(exprs_view(w) =~= exprs_view(v).subrange(1, v@.len() as int));
}

/// Evaluates the first of `es` with `then(rest)` waiting for its value, or
/// hands `none_left` to `k` when `es` is empty; as `sequence_spec` states it.
fn sequence_evlis(es: Vec<Expr>, acc: Vec<Value>, ctx: Context, k: Option<Box<Closure>>) -> (s: Step)
    ensures
        s@ == sequence_spec(
            exprs_view(es),
            ctx@,
            ClosureV::EvlisAfter {
                exprs: exprs_view(es).subrange(1, exprs_view(es).len() as int),
                acc: values_view(acc),
                context: ctx@,
                k: crate::continuation::next_view(k),
            },
            crate::continuation::next_view(k),
            ArgV::ValueList(values_view(acc)),
        ),
{
    if es.len() == 0 {
        return hand_to(k, Arg::ValueList(acc));
    }
    let ghost old_es = es;
    let mut es = es;
    let first = es.remove(0);
    proof {
        lemma_exprs_view_remove_first(old_es, es);
    }
    let then = Closure::EvlisAfter { exprs: es, acc, context: ctx.copy(), k };
    eval_in(first, ctx, Some(Box::new(then)))
}

/// The same for the expressions of a body, whose last value is handed on.
fn sequence_body(body: Vec<Expr>, last: Value, ctx: Context, k: Option<Box<Closure>>) -> (s: Step)
    ensures
        s@ == sequence_spec(
            exprs_view(body),
            ctx@,
            ClosureV::EvalBodyAfter {
                body: exprs_view(body).subrange(1, exprs_view(body).len() as int),
                context: ctx@,
                k: crate::continuation::next_view(k),
            },
            crate::continuation::next_view(k),
            ArgV::Value(last@),
        ),
{
    if body.len() == 0 {
        return hand_to(k, Arg::Value(last));
    }
    let ghost old_body = body;
    let mut body = body;
    let first = body.remove(0);
    proof {
        lemma_exprs_view_remove_first(old_body, body);
    }
    let then = Closure::EvalBodyAfter { body, context: ctx.copy(), k };
    eval_in(first, ctx, Some(Box::new(then)))
}

/// One step of the evaluator, as `step_spec` states it.
#[verifier::rlimit(80)]
pub fn step(store: &mut Store, c: Continuation) -> (s: Step)
    ensures
        (s@, final(store)@) == step_spec(old(store)@, c@),
{
    let Continuation { closure, arg } = c;
    match closure {
        Closure::Return { .. } => match arg {
            Arg::Value(v) => Step::Done(v),
            _ => Step::Fail(message("expected value")),
        },
        Closure::Eval { context, k } => match arg {
            Arg::Expr(e) => eval_expr(store, e, context, k),
            _ => Step::Fail(message("expected expression")),
        },
        Closure::EvalOperatorAfter { operands, context, k } => match arg {
            Arg::Value(op) => {
                let ghost opv = op@;
                let ghost kv = crate::continuation::next_view(k);
                let call = Closure::Call { operator: Box::new(op), context: context.copy(), k };
                assert(call@ == ClosureV::Call { operator: opv, context: context@, k: kv });
                Step::Next(
                    Continuation {
                        closure: Closure::Evlis { context, k: Some(Box::new(call)) },
                        arg: Arg::ExprList(operands),
                    },
                )
            },
            _ => Step::Fail(message("expected value")),
        },
        Closure::Evlis { context, k } => match arg {
            Arg::ExprList(es) => {
                let acc: Vec<Value> = Vec::new();
                assert(values_view(acc) =~= Seq::<ValueV>::empty());
                sequence_evlis(es, acc, context, k)
            },
            _ => Step::Fail(message("expected list of expressions")),
        },
        Closure::EvlisAfter { exprs, acc, context, k } => match arg {
            Arg::Value(v) => {
                let ghost before = acc;
                let mut acc = acc;
                acc.push(v);
                proof {
                    lemma_values_view_push(before, acc, v);
                }
                sequence_evlis(exprs, acc, context, k)
            },
            _ => Step::Fail(message("expected value")),
        },
        Closure::Call { operator, context, k } => match arg {
            Arg::ValueList(vs) => call(store, *operator, vs, context, k),
            _ => Step::Fail(message("expected list of values")),
        },
        Closure::EvalBody { context, k } => match arg {
            Arg::ExprList(body) => sequence_body(body, Value::Null, context, k),
            _ => Step::Fail(message("expected list of expressions")),
        },
        Closure::EvalBodyAfter { body, context, k } => match arg {
            Arg::Value(v) => sequence_body(body, v, context, k),
            _ => Step::Fail(message("expected value")),
        },
        Closure::IfAfter { consequent, alternative, context, k } => match arg {
            Arg::Value(v) => {
                let is_false = match v {
                    Value::Boolean(b) => !b,
                    _ => false,
                };
                if is_false {
                    eval_in(alternative, context, k)
                } else {
                    eval_in(consequent, context, k)
                }
            },
            _ => Step::Fail(message("expected value")),
        },
        Closure::DefineAfter { symbol, context, k } => match arg {
            Arg::Value(v) => match symbol {
                Expr::Variable(name) => {
                    let r = context.r;
                    define(store, r, name, v, k)
                },
                _ => Step::Fail(message("invalid definition")),
            },
            _ => Step::Fail(message("expected value")),
        },
        Closure::Lookup { r, context, k } => match arg {
            Arg::Value(Value::Symbol(name)) => get(store, r, name, context, k),
            _ => Step::Fail(message("expected symbol")),
        },
        Closure::If { predicate, consequent, alternative, context, k } => {
            let then = Closure::IfAfter {
                consequent: *consequent,
                alternative: *alternative,
                context: context.copy(),
                k,
            };
            eval_in(*predicate, context, Some(Box::new(then)))
        },
        Closure::Apply { operator, operands, context, k } => {
            let then = Closure::EvalOperatorAfter { operands, context: context.copy(), k };
            eval_in(*operator, context, Some(Box::new(then)))
        },
        Closure::Define { symbol, e, context, k } | Closure::Assign { symbol, e, context, k } => {
            let then = Closure::DefineAfter { symbol: *symbol, context: context.copy(), k };
            eval_in(*e, context, Some(Box::new(then)))
        },
        Closure::Lambda { formals, body, context, k } => {
            let r = context.r;
            hand_to(k, Arg::Value(Value::Lambda(formals, body, r)))
        },
    }
}

/// Up to `fuel` steps from `c`: stops at the first step that is not `Next`,
/// or hands back the state reached when the fuel is spent.
pub open spec fn run_spec(store: Seq<EnvV>, c: ContinuationV, fuel: nat) -> (StepV, Seq<EnvV>)
    decreases fuel,
{
    if fuel == 0 {
        (StepV::Next(c), store)
    } else {
        let (s, st) = step_spec(store, c);
        match s {
            StepV::Next(c2) => run_spec(st, c2, (fuel - 1) as nat),
            _ => (s, st),
        }
    }
}

/// The trampoline: runs at most `fuel` steps, as `run_spec` states it.
pub fn run(store: &mut Store, c: Continuation, fuel: usize) -> (s: Step)
    ensures
        (s@, final(store)@) == run_spec(old(store)@, c@, fuel as nat),
{
    let mut cur = c;
    let mut left: usize = fuel;
    loop
        invariant
            run_spec(old(store)@, c@, fuel as nat) == run_spec(store@, cur@, left as nat),
        decreases left,
    {
        if left == 0 {
            return Step::Next(cur);
        }
        let s = step(store, cur);
        match s {
            Step::Next(c2) => {
                cur = c2;
                left = left - 1;
            },
            other => {
                return other;
            },
        }
    }
}

/// The first state of the evaluation of `e` in `ctx`.
pub open spec fn seed(e: ExprV, ctx: ContextV) -> ContinuationV {
    ContinuationV {
        closure: ClosureV::Eval {
            context: ctx,
            k: Some(Box::new(ClosureV::Return { context: ctx, k: None })),
        },
        arg: ArgV::Expr(e),
    }
}

/// Evaluates `expression` in `context` for at most `fuel` steps.
pub fn evaluate(store: &mut Store, expression: Expr, context: Context, fuel: usize) -> (s: Step)
    ensures
        (s@, final(store)@) == run_spec(old(store)@, seed(expression@, context@), fuel as nat),
{
    let ret = Closure::Return { context: context.copy(), k: None };
    assert(ret@ == ClosureV::Return { context: context@, k: None });
    let c = Continuation {
        closure: Closure::Eval { context, k: Some(Box::new(ret)) },
        arg: Arg::Expr(expression),
    };
    assert(c@ == seed(expression@, context@));
    run(store, c, fuel)
}

/// The step after the reply to a `Fetch` of `symbol`: a value is handed to
/// `k`; without one the standard procedure of that name is, if any.
pub open spec fn resume_spec(symbol: Seq<char>, reply: Option<ValueV>, k: Option<Box<ClosureV>>) -> StepV {
    match reply {
        Some(v) => feed(k, ArgV::Value(v)),
        None => match standard_spec(symbol) {
            Some(b) => feed(k, ArgV::Value(ValueV::Builtin(b))),
            None => StepV::Fail("not found"@),
        },
    }
}

/// Goes on after the reply to a `Fetch`, as `resume_spec` states it.
pub fn resume_fetch(symbol: &String, reply: Option<Value>, k: Option<Box<Closure>>) -> (s: Step)
    ensures
        s@ == resume_spec(
            symbol@,
            match reply {
                Some(v) => Some(v@),
                None => None,
            },
            crate::continuation::next_view(k),
        ),
{
    match reply {
        Some(v) => hand_to(k, Arg::Value(v)),
        None => match standard_procedure(symbol) {
            Some(b) => hand_to(k, Arg::Value(b)),
            None => Step::Fail(message("not found")),
        },
    }
}

/// The value of a self-evaluating literal.
pub open spec fn literal_value(e: ExprV) -> Option<ValueV> {
    match e {
        ExprV::Boolean(b) => Some(ValueV::Boolean(b)),
        ExprV::Char(c) => Some(ValueV::Char(c)),
        ExprV::Number(n) => Some(ValueV::Number(n)),
        ExprV::Str(s) => Some(ValueV::Str(s)),
        ExprV::Bytevector(b) => Some(ValueV::Bytevector(b)),
        _ => None,
    }
}

/// A boolean, character, number, string or bytevector literal evaluates to
/// the value of the same text, and leaves the store as it was.
pub proof fn lemma_self_evaluating(store: Seq<EnvV>, e: ExprV, ctx: ContextV, fuel: nat)
    requires
        literal_value(e) is Some,
        fuel >= 2,
    ensures
        run_spec(store, seed(e, ctx), fuel) == (StepV::Done(literal_value(e).unwrap()), store),
{
    reveal_with_fuel(run_spec, 3);
}

/// Where the lexical environment binds `name` to `v`, the variable `name`
/// evaluates to `v`.
pub proof fn lemma_variable_reference(store: Seq<EnvV>, name: Seq<char>, v: ValueV, ctx: ContextV, fuel: nat)
    requires
        ctx.r < store.len(),
        store[ctx.r as int] matches EnvV::Local { hm, .. } && binding(hm, name) == Some(v),
        fuel >= 2,
    ensures
        run_spec(store, seed(ExprV::Variable(name), ctx), fuel) == (StepV::Done(v), store),
{
    reveal_with_fuel(run_spec, 3);
}

/// `(if #t a b)` evaluates as `a`, and `(if #f a b)` as `b`, three steps later.
pub proof fn lemma_conditional(store: Seq<EnvV>, a: ExprV, b: ExprV, ctx: ContextV, fuel: nat)
    ensures
        run_spec(
            store,
            seed(ExprV::If(Box::new(ExprV::Boolean(true)), Box::new(a), Box::new(b)), ctx),
            fuel + 3,
        ) == run_spec(store, seed(a, ctx), fuel),
        run_spec(
            store,
            seed(ExprV::If(Box::new(ExprV::Boolean(false)), Box::new(a), Box::new(b)), ctx),
            fuel + 3,
        ) == run_spec(store, seed(b, ctx), fuel),
{
    reveal_with_fuel(run_spec, 4);
}

/// Every value but `#f` is true: the frame waiting on a predicate goes on
/// with the consequent for it.
pub proof fn lemma_truthy(
    store: Seq<EnvV>,
    v: ValueV,
    consequent: ExprV,
    alternative: ExprV,
    ctx: ContextV,
    k: Option<Box<ClosureV>>,
)
    requires
        v != ValueV::Boolean(false),
    ensures
        step_spec(
            store,
            ContinuationV {
                closure: ClosureV::IfAfter { consequent, alternative, context: ctx, k },
                arg: ArgV::Value(v),
            },
        ) == (eval_then(consequent, ctx, k), store),
{
}

/// Operands are evaluated from left to right: the first operand is evaluated
/// first, and once an operand has a value, the next one is evaluated in the
/// store as that operand left it, its value kept after those before it.
pub proof fn lemma_left_to_right(
    store: Seq<EnvV>,
    es: Seq<ExprV>,
    acc: Seq<ValueV>,
    v: ValueV,
    ctx: ContextV,
    k: Option<Box<ClosureV>>,
)
    requires
        es.len() > 0,
    ensures
        step_spec(store, ContinuationV { closure: ClosureV::Evlis { context: ctx, k }, arg: ArgV::ExprList(es) })
            == (
            eval_then(
                es[0],
                ctx,
                Some(
                    Box::new(
                        ClosureV::EvlisAfter {
                            exprs: es.subrange(1, es.len() as int),
                            acc: Seq::empty(),
                            context: ctx,
                            k,
                        },
                    ),
                ),
            ),
            store,
        ),
        step_spec(
            store,
            ContinuationV {
                closure: ClosureV::EvlisAfter { exprs: es, acc, context: ctx, k },
                arg: ArgV::Value(v),
            },
        ) == (
            eval_then(
                es[0],
                ctx,
                Some(
                    Box::new(
                        ClosureV::EvlisAfter {
                            exprs: es.subrange(1, es.len() as int),
                            acc: acc.push(v),
                            context: ctx,
                            k,
                        },
                    ),
                ),
            ),
            store,
        ),
{
}

/// A lambda reads a variable through the frame it was made in: called from
/// any context (a remote one whose table holds the same name included), a
/// lambda without formals whose body is `x`, made where `x` is bound to `v`
/// in a local frame, hands `v` to the caller's continuation.
pub proof fn lemma_lambda_capture(
    store: Seq<EnvV>,
    r: nat,
    x: Seq<char>,
    v: ValueV,
    ctx: ContextV,
    c: ClosureV,
)
    requires
        r < store.len(),
        store.len() < usize::MAX,
        store[r as int] matches EnvV::Local { hm, .. } && binding(hm, x) == Some(v),
    ensures
        run_spec(
            store,
            ContinuationV {
                closure: ClosureV::Call {
                    operator: ValueV::Lambda(Seq::empty(), seq![ExprV::Variable(x)], r),
                    context: ctx,
                    k: Some(Box::new(c)),
                },
                arg: ArgV::ValueList(Seq::empty()),
            },
            5,
        ) == (
            StepV::Next(ContinuationV { closure: c, arg: ArgV::Value(v) }),
            store.push(EnvV::Local { hm: Seq::empty(), parent: Some(r) }),
        ),
{
    let names: Seq<Seq<char>> = Seq::empty();
    assert(formal_names(Seq::<ExprV>::empty()) == Some(names));
    assert(zip_bindings(names, Seq::empty()) =~= Seq::empty());
    assert(seq![ExprV::Variable(x)].subrange(1, 1) =~= Seq::<ExprV>::empty());
    reveal_with_fuel(run_spec, 6);
}

pub open spec fn call_cc_name() -> Seq<char> {
    seq!['c', 'a', 'l', 'l', '/', 'c', 'c']
}

/// `(call/cc (lambda (k) (k v)))`.
pub open spec fn call_cc_identity_expr(v: ExprV) -> ExprV {
    ExprV::Apply(
        Box::new(ExprV::Variable(call_cc_name())),
        seq![
            ExprV::Lambda(
                seq![ExprV::Variable(seq!['k'])],
                seq![ExprV::Apply(Box::new(ExprV::Variable(seq!['k'])), seq![v])],
            ),
        ],
    )
}

/// Where `call/cc` names the standard procedure, `(call/cc (lambda (k) (k v)))`
/// evaluates to the value of the literal `v`; the call adds one frame, which
/// binds `k`.
pub proof fn lemma_call_cc_identity(store: Seq<EnvV>, v: ExprV, ctx: ContextV, fuel: nat)
    requires
        literal_value(v) is Some,
        ctx.r < store.len(),
        store.len() < usize::MAX,
        store[ctx.r as int] matches EnvV::Local { hm, .. } && binding(hm, call_cc_name()) == Some(
            ValueV::Builtin(standard_spec(call_cc_name()).unwrap()),
        ),
        fuel >= 17,
    ensures
        run_spec(store, seed(call_cc_identity_expr(v), ctx), fuel) == (
            StepV::Done(literal_value(v).unwrap()),
            store.push(
                EnvV::Local {
                    hm: seq![
                        (
                            seq!['k'],
                            ValueV::Continuation(Box::new(ClosureV::Return { context: ctx, k: None })),
                        ),
                    ],
                    parent: Some(ctx.r),
                },
            ),
        ),
{
    let ret = ClosureV::Return { context: ctx, k: None };
    let k0 = Some(Box::new(ret));
    let kname = seq!['k'];
    let callee = ExprV::Variable(kname);
    let a = ExprV::Apply(Box::new(callee), seq![v]);
    let body: Seq<ExprV> = seq![a];
    let formals: Seq<ExprV> = seq![callee];
    let l = ExprV::Lambda(formals, body);
    let ops: Seq<ExprV> = seq![l];
    let e = call_cc_identity_expr(v);
    let b = ValueV::Builtin(standard_spec(call_cc_name()).unwrap());
    let lv = ValueV::Lambda(formals, body, ctx.r);
    let cont = ValueV::Continuation(Box::new(ret));
    let lit = literal_value(v).unwrap();
    let empty_e: Seq<ExprV> = Seq::empty();
    let empty_v: Seq<ValueV> = Seq::empty();
    let frame = EnvV::Local { hm: seq![(kname, cont)], parent: Some(ctx.r) };
    let s1 = store.push(frame);
    let ctx1 = ContextV { r: store.len(), d: ctx.d, user: ctx.user };
    let kc = Some(Box::new(ClosureV::Call { operator: b, context: ctx, k: k0 }));
    let kb = Some(Box::new(ClosureV::EvalBodyAfter { body: empty_e, context: ctx1, k: k0 }));
    let kcc = Some(Box::new(ClosureV::Call { operator: cont, context: ctx1, k: kb }));
    assert(ops.subrange(1, 1) =~= empty_e);
    assert(body.subrange(1, 1) =~= empty_e);
    assert(seq![v].subrange(1, 1) =~= empty_e);
    assert(empty_v.push(lv) =~= seq![lv]);
    assert(empty_v.push(lit) =~= seq![lit]);
    assert(formal_names(formals) == Some(seq![kname])) by {
        assert(formals.drop_last() =~= empty_e);
        assert(formal_names(empty_e) == Some(Seq::<Seq<char>>::empty()));
        assert(Seq::<Seq<char>>::empty().push(kname) =~= seq![kname]);
    }
    assert(zip_bindings(seq![kname], seq![cont]) =~= seq![(kname, cont)]);
    assert(binding(seq![(kname, cont)], kname) == Some(cont));

    let c0 = seed(e, ctx);
    let c1 = ContinuationV {
        closure: ClosureV::Eval {
            context: ctx,
            k: Some(Box::new(ClosureV::EvalOperatorAfter { operands: ops, context: ctx, k: k0 })),
        },
        arg: ArgV::Expr(ExprV::Variable(call_cc_name())),
    };
    let c2 = ContinuationV {
        closure: ClosureV::EvalOperatorAfter { operands: ops, context: ctx, k: k0 },
        arg: ArgV::Value(b),
    };
    let c3 = ContinuationV { closure: ClosureV::Evlis { context: ctx, k: kc }, arg: ArgV::ExprList(ops) };
    let after_l = Some(Box::new(ClosureV::EvlisAfter { exprs: empty_e, acc: empty_v, context: ctx, k: kc }));
    let c4 = ContinuationV { closure: ClosureV::Eval { context: ctx, k: after_l }, arg: ArgV::Expr(l) };
    let c5 = ContinuationV {
        closure: ClosureV::EvlisAfter { exprs: empty_e, acc: empty_v, context: ctx, k: kc },
        arg: ArgV::Value(lv),
    };
    let c6 = ContinuationV {
        closure: ClosureV::Call { operator: b, context: ctx, k: k0 },
        arg: ArgV::ValueList(seq![lv]),
    };
    let c7 = ContinuationV {
        closure: ClosureV::Call { operator: lv, context: ctx, k: k0 },
        arg: ArgV::ValueList(seq![cont]),
    };
    let c8 = ContinuationV { closure: ClosureV::EvalBody { context: ctx1, k: k0 }, arg: ArgV::ExprList(body) };
    let c9 = ContinuationV { closure: ClosureV::Eval { context: ctx1, k: kb }, arg: ArgV::Expr(a) };
    let kop = Some(Box::new(ClosureV::EvalOperatorAfter { operands: seq![v], context: ctx1, k: kb }));
    let c10 = ContinuationV { closure: ClosureV::Eval { context: ctx1, k: kop }, arg: ArgV::Expr(callee) };
    let c11 = ContinuationV {
        closure: ClosureV::EvalOperatorAfter { operands: seq![v], context: ctx1, k: kb },
        arg: ArgV::Value(cont),
    };
    let c12 = ContinuationV { closure: ClosureV::Evlis { context: ctx1, k: kcc }, arg: ArgV::ExprList(seq![v]) };
    let after_v = Some(Box::new(ClosureV::EvlisAfter { exprs: empty_e, acc: empty_v, context: ctx1, k: kcc }));
    let c13 = ContinuationV { closure: ClosureV::Eval { context: ctx1, k: after_v }, arg: ArgV::Expr(v) };
    let c14 = ContinuationV {
        closure: ClosureV::EvlisAfter { exprs: empty_e, acc: empty_v, context: ctx1, k: kcc },
        arg: ArgV::Value(lit),
    };
    let c15 = ContinuationV {
        closure: ClosureV::Call { operator: cont, context: ctx1, k: kb },
        arg: ArgV::ValueList(seq![lit]),
    };
    let c16 = ContinuationV { closure: ret, arg: ArgV::Value(lit) };

    lemma_run_next(store, c0, fuel, c1, store);
    lemma_run_next(store, c1, (fuel - 1) as nat, c2, store);
    lemma_run_next(store, c2, (fuel - 2) as nat, c3, store);
    lemma_run_next(store, c3, (fuel - 3) as nat, c4, store);
    lemma_run_next(store, c4, (fuel - 4) as nat, c5, store);
    lemma_run_next(store, c5, (fuel - 5) as nat, c6, store);
    lemma_run_next(store, c6, (fuel - 6) as nat, c7, store);
    lemma_run_next(store, c7, (fuel - 7) as nat, c8, s1);
    lemma_run_next(s1, c8, (fuel - 8) as nat, c9, s1);
    lemma_run_next(s1, c9, (fuel - 9) as nat, c10, s1);
    assert(s1[ctx1.r as int] == frame);
    lemma_run_next(s1, c10, (fuel - 10) as nat, c11, s1);
    lemma_run_next(s1, c11, (fuel - 11) as nat, c12, s1);
    lemma_run_next(s1, c12, (fuel - 12) as nat, c13, s1);
    lemma_run_next(s1, c13, (fuel - 13) as nat, c14, s1);
    lemma_run_next(s1, c14, (fuel - 14) as nat, c15, s1);
    lemma_run_next(s1, c15, (fuel - 15) as nat, c16, s1);
    reveal_with_fuel(run_spec, 2);
}

/// A step to a next state: running on is running from that state.
pub proof fn lemma_run_next(s: Seq<EnvV>, c: ContinuationV, fuel: nat, c2: ContinuationV, s2: Seq<EnvV>)
    requires
        fuel > 0,
        step_spec(s, c) == (StepV::Next(c2), s2),
    ensures
        run_spec(s, c, fuel) == run_spec(s2, c2, (fuel - 1) as nat),
{
}

/// What a remote `set` returns, from its reply: the previous value the server
/// sent back, or none when it sent none or the reply was lost.
pub open spec fn set_reply_spec(reply: Option<Option<ValueV>>) -> Option<ValueV> {
    match reply {
        Some(Some(v)) => Some(v),
        _ => None,
    }
}

/// The result of a remote `set` from its reply (`None` when the reply was
/// lost), as `set_reply_spec` states it.
pub fn resume_send(reply: Option<Option<Value>>) -> (r: Option<Value>)
    ensures
        match set_reply_spec(
            match reply {
                Some(Some(v)) => Some(Some(v@)),
                Some(None) => Some(None),
                None => None,
            },
        ) {
            Some(v) => r matches Some(x) && x@ == v,
            None => r is None,
        },
{
    match reply {
        Some(Some(v)) => Some(v),
        _ => None,
    }
}

} // verus!
