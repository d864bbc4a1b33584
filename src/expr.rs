//! Expressions of the language, as the reader produces them.
use vstd::prelude::*;

verus! {

/// An expression, after R7RS-small.
#[derive(Debug, PartialEq)]
pub enum Expr {
    Apply(Box<Expr>, Vec<Expr>),
    Assign(Box<Expr>, Box<Expr>),
    Boolean(bool),
    Bytevector(Vec<u8>),
    Char(char),
    If(Box<Expr>, Box<Expr>, Box<Expr>),
    Define(Box<Expr>, Box<Expr>),
    Lambda(Vec<Expr>, Vec<Expr>),
    List(Vec<Expr>),
    Number(String),
    String(String),
    Variable(String),
    Vector(Vec<Expr>),
}

/// The mathematical form of an expression: sequences for vectors and text.
pub enum ExprV {
    Apply(Box<ExprV>, Seq<ExprV>),
    Assign(Box<ExprV>, Box<ExprV>),
    Boolean(bool),
    Bytevector(Seq<u8>),
    Char(char),
    If(Box<ExprV>, Box<ExprV>, Box<ExprV>),
    Define(Box<ExprV>, Box<ExprV>),
    Lambda(Seq<ExprV>, Seq<ExprV>),
    List(Seq<ExprV>),
    Number(Seq<char>),
    Str(Seq<char>),
    Variable(Seq<char>),
    Vector(Seq<ExprV>),
}

/// The views of a vector of expressions.
pub open spec fn exprs_view(v: Vec<Expr>) -> Seq<ExprV>
    decreases v,
{
    Seq::new(
        v.len() as nat,
        |i: int|
            if 0 <= i < v.len() {
                v[i].view()
            } else {
                ExprV::Boolean(false)
            },
    )
}

impl Expr {
    pub open spec fn view(self) -> ExprV
        decreases self,
    {
        match self {
            Expr::Apply(op, args) => ExprV::Apply(Box::new(op.view()), exprs_view(args)),
            Expr::Assign(a, b) => ExprV::Assign(Box::new(a.view()), Box::new(b.view())),
            Expr::Boolean(b) => ExprV::Boolean(b),
            Expr::Bytevector(b) => ExprV::Bytevector(b@),
            Expr::Char(c) => ExprV::Char(c),
            Expr::If(p, c, a) => ExprV::If(Box::new(p.view()), Box::new(c.view()), Box::new(a.view())),
            Expr::Define(a, b) => ExprV::Define(Box::new(a.view()), Box::new(b.view())),
            Expr::Lambda(f, b) => ExprV::Lambda(exprs_view(f), exprs_view(b)),
            Expr::List(l) => ExprV::List(exprs_view(l)),
            Expr::Number(n) => ExprV::Number(n@),
            Expr::String(s) => ExprV::Str(s@),
            Expr::Variable(s) => ExprV::Variable(s@),
            Expr::Vector(v) => ExprV::Vector(exprs_view(v)),
        }
    }
}

} // verus!
