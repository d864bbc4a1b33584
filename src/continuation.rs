//! Reified continuations: the frames of the evaluator as data.
//!
//! A `Closure` is one suspended frame: what is still to be done once the
//! frame receives its argument. Every frame but `Return` holds the next one in
//! `k`, so a chain of frames ends at `Return`.
use crate::expr::{exprs_view, Expr, ExprV};
use crate::value::{copy_expr, copy_exprs, copy_value, copy_values, values_view, User, UserV, Value, ValueV};
use vstd::prelude::*;

verus! {

/// Where an expression is evaluated: the lexical environment `r`, the
/// dynamic environment `d` (indices into the store) and the user.
#[derive(Debug)]
pub struct Context {
    pub r: usize,
    pub d: usize,
    pub user: User,
}

pub struct ContextV {
    pub r: nat,
    pub d: nat,
    pub user: UserV,
}

impl Context {
    pub open spec fn view(self) -> ContextV {
        ContextV { r: self.r as nat, d: self.d as nat, user: self.user@ }
    }

    pub fn copy(&self) -> (c: Context)
        ensures
            c == *self,
    {
        Context { r: self.r, d: self.d, user: self.user.copy() }
    }
}

/// A suspended frame of the evaluator.
#[derive(Debug)]
pub enum Closure {
    Apply { operator: Box<Expr>, operands: Vec<Expr>, context: Context, k: Option<Box<Closure>> },
    Call { operator: Box<Value>, context: Context, k: Option<Box<Closure>> },
    Define { symbol: Box<Expr>, e: Box<Expr>, context: Context, k: Option<Box<Closure>> },
    DefineAfter { symbol: Expr, context: Context, k: Option<Box<Closure>> },
    Eval { context: Context, k: Option<Box<Closure>> },
    EvalBody { context: Context, k: Option<Box<Closure>> },
    EvalBodyAfter { body: Vec<Expr>, context: Context, k: Option<Box<Closure>> },
    EvalOperatorAfter { operands: Vec<Expr>, context: Context, k: Option<Box<Closure>> },
    Evlis { context: Context, k: Option<Box<Closure>> },
    EvlisAfter { exprs: Vec<Expr>, acc: Vec<Value>, context: Context, k: Option<Box<Closure>> },
    If {
        predicate: Box<Expr>,
        consequent: Box<Expr>,
        alternative: Box<Expr>,
        context: Context,
        k: Option<Box<Closure>>,
    },
    IfAfter { consequent: Expr, alternative: Expr, context: Context, k: Option<Box<Closure>> },
    Lambda { formals: Vec<Expr>, body: Vec<Expr>, context: Context, k: Option<Box<Closure>> },
    Lookup { r: usize, context: Context, k: Option<Box<Closure>> },
    Assign { symbol: Box<Expr>, e: Box<Expr>, context: Context, k: Option<Box<Closure>> },
    Return { context: Context, k: Option<Box<Closure>> },
}

/// The mathematical form of a frame.
pub enum ClosureV {
    Apply { operator: ExprV, operands: Seq<ExprV>, context: ContextV, k: Option<Box<ClosureV>> },
    Call { operator: ValueV, context: ContextV, k: Option<Box<ClosureV>> },
    Define { symbol: ExprV, e: ExprV, context: ContextV, k: Option<Box<ClosureV>> },
    DefineAfter { symbol: ExprV, context: ContextV, k: Option<Box<ClosureV>> },
    Eval { context: ContextV, k: Option<Box<ClosureV>> },
    EvalBody { context: ContextV, k: Option<Box<ClosureV>> },
    EvalBodyAfter { body: Seq<ExprV>, context: ContextV, k: Option<Box<ClosureV>> },
    EvalOperatorAfter { operands: Seq<ExprV>, context: ContextV, k: Option<Box<ClosureV>> },
    Evlis { context: ContextV, k: Option<Box<ClosureV>> },
    EvlisAfter { exprs: Seq<ExprV>, acc: Seq<ValueV>, context: ContextV, k: Option<Box<ClosureV>> },
    If {
        predicate: ExprV,
        consequent: ExprV,
        alternative: ExprV,
        context: ContextV,
        k: Option<Box<ClosureV>>,
    },
    IfAfter { consequent: ExprV, alternative: ExprV, context: ContextV, k: Option<Box<ClosureV>> },
    Lambda { formals: Seq<ExprV>, body: Seq<ExprV>, context: ContextV, k: Option<Box<ClosureV>> },
    Lookup { r: nat, context: ContextV, k: Option<Box<ClosureV>> },
    Assign { symbol: ExprV, e: ExprV, context: ContextV, k: Option<Box<ClosureV>> },
    Return { context: ContextV, k: Option<Box<ClosureV>> },
}

pub open spec fn next_view(k: Option<Box<Closure>>) -> Option<Box<ClosureV>>
    decreases k,
{
    match k {
        Some(c) => Some(Box::new(c.view())),
        None => None,
    }
}

impl Closure {
    pub open spec fn view(self) -> ClosureV
        decreases self,
    {
        match self {
            Closure::Apply { operator, operands, context, k } => ClosureV::Apply {
                operator: operator.view(),
                operands: exprs_view(operands),
                context: context@,
                k: next_view(k),
            },
            Closure::Call { operator, context, k } => ClosureV::Call {
                operator: operator.view(),
                context: context@,
                k: next_view(k),
            },
            Closure::Define { symbol, e, context, k } => ClosureV::Define {
                symbol: symbol.view(),
                e: e.view(),
                context: context@,
                k: next_view(k),
            },
            Closure::DefineAfter { symbol, context, k } => ClosureV::DefineAfter {
                symbol: symbol.view(),
                context: context@,
                k: next_view(k),
            },
            Closure::Eval { context, k } => ClosureV::Eval { context: context@, k: next_view(k) },
            Closure::EvalBody { context, k } => ClosureV::EvalBody { context: context@, k: next_view(k) },
            Closure::EvalBodyAfter { body, context, k } => ClosureV::EvalBodyAfter {
                body: exprs_view(body),
                context: context@,
                k: next_view(k),
            },
            Closure::EvalOperatorAfter { operands, context, k } => ClosureV::EvalOperatorAfter {
                operands: exprs_view(operands),
                context: context@,
                k: next_view(k),
            },
            Closure::Evlis { context, k } => ClosureV::Evlis { context: context@, k: next_view(k) },
            Closure::EvlisAfter { exprs, acc, context, k } => ClosureV::EvlisAfter {
                exprs: exprs_view(exprs),
                acc: values_view(acc),
                context: context@,
                k: next_view(k),
            },
            Closure::If { predicate, consequent, alternative, context, k } => ClosureV::If {
                predicate: predicate.view(),
                consequent: consequent.view(),
                alternative: alternative.view(),
                context: context@,
                k: next_view(k),
            },
            Closure::IfAfter { consequent, alternative, context, k } => ClosureV::IfAfter {
                consequent: consequent.view(),
                alternative: alternative.view(),
                context: context@,
                k: next_view(k),
            },
            Closure::Lambda { formals, body, context, k } => ClosureV::Lambda {
                formals: exprs_view(formals),
                body: exprs_view(body),
                context: context@,
                k: next_view(k),
            },
            Closure::Lookup { r, context, k } => ClosureV::Lookup {
                r: r as nat,
                context: context@,
                k: next_view(k),
            },
            Closure::Assign { symbol, e, context, k } => ClosureV::Assign {
                symbol: symbol.view(),
                e: e.view(),
                context: context@,
                k: next_view(k),
            },
            Closure::Return { context, k } => ClosureV::Return { context: context@, k: next_view(k) },
        }
    }
}

/// The argument handed to a frame.
#[derive(Debug)]
pub enum Arg {
    Nothing,
    Expr(Expr),
    Value(Value),
    ExprList(Vec<Expr>),
    ValueList(Vec<Value>),
}

pub enum ArgV {
    Nothing,
    Expr(ExprV),
    Value(ValueV),
    ExprList(Seq<ExprV>),
    ValueList(Seq<ValueV>),
}

impl Arg {
    pub open spec fn view(self) -> ArgV {
        match self {
            Arg::Nothing => ArgV::Nothing,
            Arg::Expr(e) => ArgV::Expr(e@),
            Arg::Value(v) => ArgV::Value(v@),
            Arg::ExprList(l) => ArgV::ExprList(exprs_view(l)),
            Arg::ValueList(l) => ArgV::ValueList(values_view(l)),
        }
    }
}

/// A frame with its argument: one state of the evaluator.
#[derive(Debug)]
pub struct Continuation {
    pub closure: Closure,
    pub arg: Arg,
}

pub struct ContinuationV {
    pub closure: ClosureV,
    pub arg: ArgV,
}

impl Continuation {
    pub open spec fn view(self) -> ContinuationV {
        ContinuationV { closure: self.closure@, arg: self.arg@ }
    }
}

fn copy_next(k: &Option<Box<Closure>>) -> (r: Option<Box<Closure>>)
    ensures
        next_view(r) == next_view(*k),
    decreases k,
{
    match k {
        Some(c) => Some(Box::new(copy_closure(c))),
        None => None,
    }
}

/// A copy of a frame and of the chain after it.
pub fn copy_closure(c: &Closure) -> (r: Closure)
    ensures
        r@ == c@,
    decreases c,
{
    match c {
        Closure::Apply { operator, operands, context, k } => Closure::Apply {
            operator: Box::new(copy_expr(operator)),
            operands: copy_exprs(operands),
            context: context.copy(),
            k: copy_next(k),
        },
        Closure::Call { operator, context, k } => Closure::Call {
            operator: Box::new(copy_value(operator)),
            context: context.copy(),
            k: copy_next(k),
        },
        Closure::Define { symbol, e, context, k } => Closure::Define {
            symbol: Box::new(copy_expr(symbol)),
            e: Box::new(copy_expr(e)),
            context: context.copy(),
            k: copy_next(k),
        },
        Closure::DefineAfter { symbol, context, k } => Closure::DefineAfter {
            symbol: copy_expr(symbol),
            context: context.copy(),
            k: copy_next(k),
        },
        Closure::Eval { context, k } => Closure::Eval { context: context.copy(), k: copy_next(k) },
        Closure::EvalBody { context, k } => Closure::EvalBody { context: context.copy(), k: copy_next(k) },
        Closure::EvalBodyAfter { body, context, k } => Closure::EvalBodyAfter {
            body: copy_exprs(body),
            context: context.copy(),
            k: copy_next(k),
        },
        Closure::EvalOperatorAfter { operands, context, k } => Closure::EvalOperatorAfter {
            operands: copy_exprs(operands),
            context: context.copy(),
            k: copy_next(k),
        },
        Closure::Evlis { context, k } => Closure::Evlis { context: context.copy(), k: copy_next(k) },
        Closure::EvlisAfter { exprs, acc, context, k } => Closure::EvlisAfter {
            exprs: copy_exprs(exprs),
            acc: copy_values(acc),
            context: context.copy(),
            k: copy_next(k),
        },
        Closure::If { predicate, consequent, alternative, context, k } => Closure::If {
            predicate: Box::new(copy_expr(predicate)),
            consequent: Box::new(copy_expr(consequent)),
            alternative: Box::new(copy_expr(alternative)),
            context: context.copy(),
            k: copy_next(k),
        },
        Closure::IfAfter { consequent, alternative, context, k } => Closure::IfAfter {
            consequent: copy_expr(consequent),
            alternative: copy_expr(alternative),
            context: context.copy(),
            k: copy_next(k),
        },
        Closure::Lambda { formals, body, context, k } => Closure::Lambda {
            formals: copy_exprs(formals),
            body: copy_exprs(body),
            context: context.copy(),
            k: copy_next(k),
        },
        Closure::Lookup { r, context, k } => Closure::Lookup { r: *r, context: context.copy(), k: copy_next(k) },
        Closure::Assign { symbol, e, context, k } => Closure::Assign {
            symbol: Box::new(copy_expr(symbol)),
            e: Box::new(copy_expr(e)),
            context: context.copy(),
            k: copy_next(k),
        },
        Closure::Return { context, k } => Closure::Return { context: context.copy(), k: copy_next(k) },
    }
}

} // verus!
