//! Values of the language: data, procedures, reified continuations,
//! environment handles and users.
use crate::continuation::{Closure, ClosureV};
use crate::expr::{exprs_view, Expr, ExprV};
use crate::text::{i64_text, int_text, push_char, push_text};
use vstd::prelude::*;

verus! {

broadcast use vstd::std_specs::vec::axiom_vec_index_decreases;

/// The user on whose behalf an expression is evaluated.
#[derive(Debug)]
pub struct User {
    pub name: String,
    pub email: String,
}

pub struct UserV {
    pub name: Seq<char>,
    pub email: Seq<char>,
}

impl User {
    pub open spec fn view(self) -> UserV {
        UserV { name: self.name@, email: self.email@ }
    }

    pub fn copy(&self) -> (r: User)
        ensures
            r == *self,
    {
        User { name: self.name.clone(), email: self.email.clone() }
    }
}

/// The native function behind a built-in procedure.
#[derive(Debug, Clone, Copy, PartialEq, Eq)]
pub enum Primitive {
    /// Integer addition.
    Add,
    /// Call with the current continuation.
    CallCc,
    /// A built-in received without its function; calling it fails.
    Missing,
}

/// A built-in procedure: its name, its function and its arity bounds.
#[derive(Debug)]
pub struct Builtin {
    pub name: String,
    pub f: Primitive,
    pub min_args: usize,
    pub max_args: Option<usize>,
}

pub struct BuiltinV {
    pub name: Seq<char>,
    pub f: Primitive,
    pub min_args: nat,
    pub max_args: Option<nat>,
}

impl Builtin {
    pub open spec fn view(self) -> BuiltinV {
        BuiltinV {
            name: self.name@,
            f: self.f,
            min_args: self.min_args as nat,
            max_args: match self.max_args {
                Some(m) => Some(m as nat),
                None => None,
            },
        }
    }

    pub fn copy(&self) -> (r: Builtin)
        ensures
            r == *self,
    {
        Builtin {
            name: self.name.clone(),
            f: self.f,
            min_args: self.min_args,
            max_args: self.max_args,
        }
    }
}

/// A value. Environments are referred to by their index in the store.
#[derive(Debug)]
pub enum Value {
    Boolean(bool),
    Bytevector(Vec<u8>),
    Char(char),
    Lambda(Vec<Expr>, Vec<Expr>, usize),
    List(Vec<Value>),
    Null,
    Number(String),
    String(String),
    Symbol(String),
    Vector(Vec<Value>),
    Builtin(Builtin),
    Continuation(Box<Closure>),
    Env(usize),
    User(User),
}

/// The mathematical form of a value.
pub enum ValueV {
    Boolean(bool),
    Bytevector(Seq<u8>),
    Char(char),
    Lambda(Seq<ExprV>, Seq<ExprV>, nat),
    List(Seq<ValueV>),
    Null,
    Number(Seq<char>),
    Str(Seq<char>),
    Symbol(Seq<char>),
    Vector(Seq<ValueV>),
    Builtin(BuiltinV),
    Continuation(Box<ClosureV>),
    Env(nat),
    User(UserV),
}

/// The views of a vector of values.
pub open spec fn values_view(v: Vec<Value>) -> Seq<ValueV>
    decreases v,
{
    Seq::new(
        v.len() as nat,
        |i: int|
            if 0 <= i < v.len() {
                v[i].view()
            } else {
                ValueV::Null
            },
    )
}

impl Value {
    pub open spec fn view(self) -> ValueV
        decreases self,
    {
        match self {
            Value::Boolean(b) => ValueV::Boolean(b),
            Value::Bytevector(b) => ValueV::Bytevector(b@),
            Value::Char(c) => ValueV::Char(c),
            Value::Lambda(f, b, r) => ValueV::Lambda(exprs_view(f), exprs_view(b), r as nat),
            Value::List(l) => ValueV::List(values_view(l)),
            Value::Null => ValueV::Null,
            Value::Number(n) => ValueV::Number(n@),
            Value::String(s) => ValueV::Str(s@),
            Value::Symbol(s) => ValueV::Symbol(s@),
            Value::Vector(v) => ValueV::Vector(values_view(v)),
            Value::Builtin(b) => ValueV::Builtin(b@),
            Value::Continuation(c) => ValueV::Continuation(Box::new(c.view())),
            Value::Env(r) => ValueV::Env(r as nat),
            Value::User(u) => ValueV::User(u@),
        }
    }
}

pub proof fn lemma_values_view_push(v: Vec<Value>, w: Vec<Value>, x: Value)
    requires
        w@ == v@.push(x),
    ensures
        values_view(w) == values_view(v).push(x@),
{
    assert(values_view(w) =~= values_view(v).push(x@));
}

pub proof fn lemma_exprs_view_push(v: Vec<Expr>, w: Vec<Expr>, x: Expr)
    requires
        w@ == v@.push(x),
    ensures
        exprs_view(w) == exprs_view(v).push(x@),
{
    assert(exprs_view(w) =~= exprs_view(v).push(x@));
}

/// A copy of an expression.
pub fn copy_expr(e: &Expr) -> (r: Expr)
    ensures
        r@ == e@,
    decreases e,
{
    match e {
        Expr::Apply(op, args) => Expr::Apply(Box::new(copy_expr(op)), copy_exprs(args)),
        Expr::Assign(a, b) => Expr::Assign(Box::new(copy_expr(a)), Box::new(copy_expr(b))),
        Expr::Boolean(b) => Expr::Boolean(*b),
        Expr::Bytevector(b) => Expr::Bytevector(b.clone()),
        Expr::Char(c) => Expr::Char(*c),
        Expr::If(p, c, a) => Expr::If(
            Box::new(copy_expr(p)),
            Box::new(copy_expr(c)),
            Box::new(copy_expr(a)),
        ),
        Expr::Define(a, b) => Expr::Define(Box::new(copy_expr(a)), Box::new(copy_expr(b))),
        Expr::Lambda(f, b) => Expr::Lambda(copy_exprs(f), copy_exprs(b)),
        Expr::List(l) => Expr::List(copy_exprs(l)),
        Expr::Number(n) => Expr::Number(n.clone()),
        Expr::String(s) => Expr::String(s.clone()),
        Expr::Variable(s) => Expr::Variable(s.clone()),
        Expr::Vector(v) => Expr::Vector(copy_exprs(v)),
    }
}

/// A copy of a vector of expressions.
pub fn copy_exprs(v: &Vec<Expr>) -> (r: Vec<Expr>)
    ensures
        exprs_view(r) == exprs_view(*v),
    decreases v,
{
    let mut out: Vec<Expr> = Vec::new();
    let mut i: usize = 0;
    while i < v.len()
        invariant
            i <= v@.len(),
            out@.len() == i,
            forall|j: int| 0 <= j < i ==> (#[trigger] out@[j])@ == v@[j]@,
        decreases v@.len() - i,
    {
        let x = copy_expr(&v[i]);
        out.push(x);
        i = i + 1;
    }
    assert(exprs_view(out) =~= exprs_view(*v));
    out
}

/// A copy of a value.
pub fn copy_value(x: &Value) -> (r: Value)
    ensures
        r@ == x@,
    decreases x,
{
    match x {
        Value::Boolean(b) => Value::Boolean(*b),
        Value::Bytevector(b) => Value::Bytevector(b.clone()),
        Value::Char(c) => Value::Char(*c),
        Value::Lambda(f, b, r) => Value::Lambda(copy_exprs(f), copy_exprs(b), *r),
        Value::List(l) => Value::List(copy_values(l)),
        Value::Null => Value::Null,
        Value::Number(n) => Value::Number(n.clone()),
        Value::String(s) => Value::String(s.clone()),
        Value::Symbol(s) => Value::Symbol(s.clone()),
        Value::Vector(v) => Value::Vector(copy_values(v)),
        Value::Builtin(b) => Value::Builtin(b.copy()),
        Value::Continuation(c) => Value::Continuation(Box::new(crate::continuation::copy_closure(c))),
        Value::Env(r) => Value::Env(*r),
        Value::User(u) => Value::User(u.copy()),
    }
}

/// A copy of a vector of values.
pub fn copy_values(v: &Vec<Value>) -> (r: Vec<Value>)
    ensures
        values_view(r) == values_view(*v),
    decreases v,
{
    let mut out: Vec<Value> = Vec::new();
    let mut i: usize = 0;
    while i < v.len()
        invariant
            i <= v@.len(),
            out@.len() == i,
            forall|j: int| 0 <= j < i ==> (#[trigger] out@[j])@ == v@[j]@,
        decreases v@.len() - i,
    {
        let x = copy_value(&v[i]);
        out.push(x);
        i = i + 1;
    }
    assert(values_view(out) =~= values_view(*v));
    out
}

/// The display form of a value: `#t` and `#f`, `#\c`, `#u8(1 2)`, `(a b)`,
/// `#(a b)`, the text of numbers, strings and symbols, and `#<...>` for
/// procedures, continuations, environments and users.
pub open spec fn display_spec(v: ValueV) -> Seq<char>
    decreases v,
{
    match v {
        ValueV::Boolean(b) => if b {
            "#t"@
        } else {
            "#f"@
        },
        ValueV::Bytevector(b) => "#u8("@ + bytes_text(b) + ")"@,
        ValueV::Char(c) => "#\\"@.push(c),
        ValueV::Lambda(..) => "#<procedure>"@,
        ValueV::List(l) => "("@ + items_text(l) + ")"@,
        ValueV::Null => "()"@,
        ValueV::Number(n) => n,
        ValueV::Str(s) => s,
        ValueV::Symbol(s) => s,
        ValueV::Vector(l) => "#("@ + items_text(l) + ")"@,
        ValueV::User(u) => "#<user:"@ + u.name + ">"@,
        ValueV::Env(_) => "#<env>"@,
        ValueV::Continuation(_) => "#<continuation>"@,
        ValueV::Builtin(b) => "#<builtin:"@ + b.name + ">"@,
    }
}

/// The display forms of values, separated by single spaces.
pub open spec fn items_text(l: Seq<ValueV>) -> Seq<char>
    decreases l,
{
    if l.len() == 0 {
        Seq::empty()
    } else if l.len() == 1 {
        display_spec(l[0])
    } else {
        items_text(l.subrange(0, l.len() - 1)) + " "@ + display_spec(l[l.len() - 1])
    }
}

/// Bytes in decimal, separated by single spaces.
pub open spec fn bytes_text(b: Seq<u8>) -> Seq<char>
    decreases b.len(),
{
    if b.len() == 0 {
        Seq::empty()
    } else if b.len() == 1 {
        int_text(b[0] as int)
    } else {
        bytes_text(b.drop_last()) + " "@ + int_text(b.last() as int)
    }
}

fn push_bytes(out: &mut String, b: &Vec<u8>)
    ensures
        final(out)@ == old(out)@ + bytes_text(b@),
{
    let ghost start = out@;
    let mut i: usize = 0;
    assert(b@.take(0) =~= Seq::<u8>::empty());
    assert(start + Seq::<char>::empty() =~= start);
    while i < b.len()
        invariant
            i <= b@.len(),
            out@ == start + bytes_text(b@.take(i as int)),
        decreases b@.len() - i,
    {
        let ghost before = out@;
        proof {
            reveal_strlit(" ");
        }
        if i > 0 {
            push_text(out, " ");
        }
        let t = i64_text(b[i] as i64);
        push_text(out, t.as_str());
        assert(b@.take(i + 1).drop_last() =~= b@.take(i as int));
        assert(out@ =~= start + bytes_text(b@.take(i + 1)));
        i = i + 1;
    }
    assert(b@.take(i as int) =~= b@);
}

fn push_items(out: &mut String, l: &Vec<Value>)
    ensures
        final(out)@ == old(out)@ + items_text(values_view(*l)),
    decreases l,
{
    let ghost start = out@;
    let ghost lv = values_view(*l);
    let mut i: usize = 0;
    assert(lv.subrange(0, 0) =~= Seq::<ValueV>::empty());
    assert(start + Seq::<char>::empty() =~= start);
    while i < l.len()
        invariant
            i <= l@.len(),
            lv == values_view(*l),
            out@ == start + items_text(lv.subrange(0, i as int)),
        decreases l@.len() - i,
    {
        proof {
            reveal_strlit(" ");
        }
        if i > 0 {
            push_text(out, " ");
        }
        let t = display(&l[i]);
        push_text(out, t.as_str());
        assert(lv.subrange(0, i + 1).subrange(0, i as int) =~= lv.subrange(0, i as int));
        assert(out@ =~= start + items_text(lv.subrange(0, i + 1)));
        i = i + 1;
    }
    assert(lv.subrange(0, i as int) =~= lv);
}

/// The display form of a value, as `display_spec` states it.
pub fn display(v: &Value) -> (r: String)
    ensures
        r@ == display_spec(v@),
    decreases v,
{
    let mut out = String::new();
    match v {
        Value::Boolean(b) => {
            if *b {
                push_text(&mut out, "#t");
            } else {
                push_text(&mut out, "#f");
            }
        },
        Value::Bytevector(b) => {
            push_text(&mut out, "#u8(");
            push_bytes(&mut out, b);
            push_text(&mut out, ")");
        },
        Value::Char(c) => {
            push_text(&mut out, "#\\");
            push_char(&mut out, *c);
        },
        Value::Lambda(..) => push_text(&mut out, "#<procedure>"),
        Value::List(l) => {
            push_text(&mut out, "(");
            push_items(&mut out, l);
            push_text(&mut out, ")");
        },
        Value::Null => push_text(&mut out, "()"),
        Value::Number(n) => push_text(&mut out, n.as_str()),
        Value::String(s) => push_text(&mut out, s.as_str()),
        Value::Symbol(s) => push_text(&mut out, s.as_str()),
        Value::Vector(l) => {
            push_text(&mut out, "#(");
            push_items(&mut out, l);
            push_text(&mut out, ")");
        },
        Value::User(u) => {
            push_text(&mut out, "#<user:");
            push_text(&mut out, u.name.as_str());
            push_text(&mut out, ">");
        },
        Value::Env(_) => push_text(&mut out, "#<env>"),
        Value::Continuation(_) => push_text(&mut out, "#<continuation>"),
        Value::Builtin(b) => {
            push_text(&mut out, "#<builtin:");
            push_text(&mut out, b.name.as_str());
            push_text(&mut out, ">");
        },
    }
    out
}

} // verus!
