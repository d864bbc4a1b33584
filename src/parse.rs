//! Reader: a recursive-descent parser from tokens to expressions.
//!
//! Every parse function carries a recovery depth `r`, the number of open
//! forms (`(`, `#(`, `#u8(`) between the start of the top-level form and the
//! call. After an error the reader skips tokens, counting open forms from `r`,
//! up to the closing parenthesis of the innermost unfinished form, so that the
//! next top-level form is read cleanly. A failure inside a form is reported
//! for that top-level form.
//!
//! Each parse function works on the token vector and a position and returns
//! its result with the position after what it consumed; the spec functions
//! below return the number of tokens consumed.
use crate::expr::{exprs_view, Expr, ExprV};
use crate::value::lemma_exprs_view_push;
use crate::text::{digits_value, same_text};
use crate::lexer::{lex, lexed_seq_view, tokenize, LexerError, Token};
use vstd::prelude::*;

verus! {

/// Why a top-level form could not be read.
#[derive(Debug, Clone, PartialEq)]
pub enum ParseError {
    UnexpectedToken(Token, u16),
    UnexpectedEof,
    LexicalError(u16),
    ReadLineError,
}

impl ParseError {
    /// The reader's error for a lexer error at recovery depth `r`.
    pub open spec fn of_lexer(e: LexerError, r: u16) -> ParseError {
        match e {
            LexerError::LexicalError => ParseError::LexicalError(r),
            LexerError::ReadLineError => ParseError::ReadLineError,
        }
    }

    pub fn from_lexer(e: &LexerError, r: u16) -> (res: ParseError)
        ensures
            res == ParseError::of_lexer(*e, r),
    {
        match e {
            LexerError::LexicalError => ParseError::LexicalError(r),
            LexerError::ReadLineError => ParseError::ReadLineError,
        }
    }
}

pub type Tokens = Seq<Result<Token, LexerError>>;

/// A parse result in mathematical form with the number of tokens consumed.
pub type Parsed = (Result<ExprV, ParseError>, nat);

pub open spec fn result_view(r: Result<Expr, ParseError>) -> Result<ExprV, ParseError> {
    match r {
        Ok(e) => Ok(e@),
        Err(e) => Err(e),
    }
}

/// How many tokens of `t` lie at or after `p`.
pub open spec fn rest(t: Tokens, p: int) -> nat {
    if p < 0 {
        t.len()
    } else if p < t.len() {
        (t.len() - p) as nat
    } else {
        0
    }
}

/// One level deeper, saturating at the largest depth.
pub open spec fn deeper(r: u16) -> u16 {
    if r < u16::MAX {
        (r + 1) as u16
    } else {
        r
    }
}

/// One level shallower, stopping at zero.
pub open spec fn shallower(r: u16) -> u16 {
    if r > 0 {
        (r - 1) as u16
    } else {
        0
    }
}

/// The token at `p`, or the error that stands for its absence.
pub open spec fn peek(t: Tokens, p: int, r: u16) -> Result<Token, ParseError> {
    if 0 <= p < t.len() {
        match t[p] {
            Ok(tok) => Ok(tok),
            Err(e) => Err(ParseError::of_lexer(e, r)),
        }
    } else {
        Err(ParseError::UnexpectedEof)
    }
}

/// Consumes a `)` at `p`.
pub open spec fn close(t: Tokens, p: int, r: u16) -> Result<(), ParseError> {
    match peek(t, p, r) {
        Ok(Token::ParenRight) => Ok(()),
        Ok(tok) => Err(ParseError::UnexpectedToken(tok, r)),
        Err(e) => Err(e),
    }
}

/// `x` consumed `k` tokens, then a `)` is expected at `p + k`.
pub open spec fn then_close(x: ExprV, k: nat, t: Tokens, p: int, r: u16) -> Parsed {
    match close(t, p + k, r) {
        Ok(()) => (Ok(x), k + 1),
        Err(e) => (Err(e), k),
    }
}

/// Adds `n` tokens consumed before a sub-parse.
pub open spec fn after(x: Parsed, n: nat) -> Parsed {
    (x.0, x.1 + n)
}

/// A variable: an identifier.
pub open spec fn sp_variable(t: Tokens, p: int, r: u16) -> Parsed {
    match peek(t, p, r) {
        Ok(Token::Identifier(id)) => (Ok(ExprV::Variable(id@)), 1),
        Ok(tok) => (Err(ParseError::UnexpectedToken(tok, r)), 0),
        Err(e) => (Err(e), 0),
    }
}

/// A byte written in decimal: optional `+`, digits, at most 255.
pub open spec fn byte_of(s: Seq<char>) -> Option<u8> {
    let d = if s.len() > 0 && s[0] == '+' {
        s.drop_first()
    } else {
        s
    };
    if d.len() > 0 && crate::lexer::digits_in(d, 0, d.len() as int) && digits_value(d) <= 255 {
        Some(digits_value(d) as u8)
    } else {
        None
    }
}

/// The bytes of a bytevector from `p` on, up to the first token that is not a byte.
pub open spec fn sp_bytes(t: Tokens, p: int, r: u16) -> (Seq<u8>, nat)
    decreases rest(t, p),
{
    if 0 <= p < t.len() {
        match t[p] {
            Ok(Token::Number(n)) => match byte_of(n@) {
                Some(b) => {
                    let (more, k) = sp_bytes(t, p + 1, r);
                    (seq![b] + more, k + 1)
                },
                None => (Seq::empty(), 0),
            },
            _ => (Seq::empty(), 0),
        }
    } else {
        (Seq::empty(), 0)
    }
}

/// An expression at `p`.
pub open spec fn sp_expr(t: Tokens, p: int, r: u16) -> Parsed
    decreases rest(t, p), 1nat,
{
    if 0 <= p < t.len() {
        match t[p] {
            Err(e) => (Err(ParseError::of_lexer(e, r)), 0),
            Ok(tok) => match tok {
                Token::Boolean(b) => (Ok(ExprV::Boolean(b)), 1),
                Token::Char(c) => (Ok(ExprV::Char(c)), 1),
                Token::Number(n) => (Ok(ExprV::Number(n@)), 1),
                Token::String(s) => (Ok(ExprV::Str(s@)), 1),
                Token::Quote => after(sp_datum(t, p + 1, r), 1),
                Token::HashU8Open => {
                    let (b, k) = sp_bytes(t, p + 1, deeper(r));
                    after(then_close(ExprV::Bytevector(b), k, t, p + 1, deeper(r)), 1)
                },
                Token::HashOpen => after(
                    items_then_close(sp_many_datum(t, p + 1, deeper(r)), true, t, p + 1, deeper(r)),
                    1,
                ),
                Token::ParenLeft => after(sp_compound(t, p + 1, deeper(r)), 1),
                _ => sp_variable(t, p, r),
            },
        }
    } else {
        (Err(ParseError::UnexpectedEof), 0)
    }
}

/// A datum (the text after a quote) at `p`.
pub open spec fn sp_datum(t: Tokens, p: int, r: u16) -> Parsed
    decreases rest(t, p), 1nat,
{
    if 0 <= p < t.len() {
        match t[p] {
            Err(e) => (Err(ParseError::of_lexer(e, r)), 0),
            Ok(tok) => match tok {
                Token::Boolean(b) => (Ok(ExprV::Boolean(b)), 1),
                Token::Char(c) => (Ok(ExprV::Char(c)), 1),
                Token::Number(n) => (Ok(ExprV::Number(n@)), 1),
                Token::String(s) => (Ok(ExprV::Str(s@)), 1),
                Token::Quote => after(sp_datum(t, p + 1, r), 1),
                Token::HashU8Open => {
                    let (b, k) = sp_bytes(t, p + 1, deeper(r));
                    after(then_close(ExprV::Bytevector(b), k, t, p + 1, deeper(r)), 1)
                },
                Token::HashOpen => after(
                    items_then_close(sp_many_datum(t, p + 1, deeper(r)), true, t, p + 1, deeper(r)),
                    1,
                ),
                Token::ParenLeft => after(
                    items_then_close(sp_many_datum(t, p + 1, deeper(r)), false, t, p + 1, deeper(r)),
                    1,
                ),
                Token::Identifier(id) => (Ok(ExprV::Variable(id@)), 1),
                _ => (Err(ParseError::UnexpectedToken(tok, r)), 0),
            },
        }
    } else {
        (Err(ParseError::UnexpectedEof), 0)
    }
}

/// Zero or more expressions from `p`, with the number of tokens consumed.
/// The run ends at the first expression that cannot be read: if that attempt
/// consumed no token the run is complete, otherwise its error is the result.
/// (An expression read without error has consumed its first token, see
/// `lemma_read_consumes`; the test on `k` and `p` only makes the recursion
/// visibly finite.)
pub open spec fn sp_many_expr(t: Tokens, p: int, r: u16) -> (Result<Seq<ExprV>, ParseError>, nat)
    decreases rest(t, p), 2nat,
{
    let (x, k) = sp_expr(t, p, r);
    match x {
        Ok(e) => if k > 0 && 0 <= p < t.len() {
            let (more, m) = sp_many_expr(t, p + k, r);
            match more {
                Ok(es) => (Ok(seq![e] + es), k + m),
                Err(err) => (Err(err), k + m),
            }
        } else {
            (Ok(seq![e]), k)
        },
        Err(err) => if k > 0 {
            (Err(err), k)
        } else {
            (Ok(Seq::empty()), 0)
        },
    }
}

/// Zero or more data from `p`, as `sp_many_expr` does for expressions.
pub open spec fn sp_many_datum(t: Tokens, p: int, r: u16) -> (Result<Seq<ExprV>, ParseError>, nat)
    decreases rest(t, p), 2nat,
{
    let (x, k) = sp_datum(t, p, r);
    match x {
        Ok(e) => if k > 0 && 0 <= p < t.len() {
            let (more, m) = sp_many_datum(t, p + k, r);
            match more {
                Ok(es) => (Ok(seq![e] + es), k + m),
                Err(err) => (Err(err), k + m),
            }
        } else {
            (Ok(seq![e]), k)
        },
        Err(err) => if k > 0 {
            (Err(err), k)
        } else {
            (Ok(Seq::empty()), 0)
        },
    }
}

/// The items read by `sp_many_datum` from `p`, then the `)` that closes them,
/// made into `make(items)`.
pub open spec fn items_then_close(
    x: (Result<Seq<ExprV>, ParseError>, nat),
    vector: bool,
    t: Tokens,
    p: int,
    r: u16,
) -> Parsed {
    match x.0 {
        Ok(v) => then_close(
            if vector {
                ExprV::Vector(v)
            } else {
                ExprV::List(v)
            },
            x.1,
            t,
            p,
            r,
        ),
        Err(e) => (Err(e), x.1),
    }
}

/// Zero or more identifiers from `p`, as variables.
pub open spec fn sp_variables(t: Tokens, p: int) -> (Seq<ExprV>, nat)
    decreases rest(t, p),
{
    if 0 <= p < t.len() {
        match t[p] {
            Ok(Token::Identifier(id)) => {
                let (more, k) = sp_variables(t, p + 1);
                (seq![ExprV::Variable(id@)] + more, k + 1)
            },
            _ => (Seq::empty(), 0),
        }
    } else {
        (Seq::empty(), 0)
    }
}

pub open spec fn items_view(r: Result<Vec<Expr>, ParseError>) -> Result<Seq<ExprV>, ParseError> {
    match r {
        Ok(v) => Ok(exprs_view(v)),
        Err(e) => Err(e),
    }
}

/// `pre` before the items of `x`, or its error.
pub open spec fn prepend(pre: Seq<ExprV>, x: Result<Seq<ExprV>, ParseError>) -> Result<Seq<ExprV>, ParseError> {
    match x {
        Ok(v) => Ok(pre + v),
        Err(e) => Err(e),
    }
}

pub open spec fn is_word(tok: Token, w: Seq<char>) -> bool {
    tok matches Token::Identifier(id) && id@ == w
}

/// The inside of a compound form, from just after its `(`.
pub open spec fn sp_compound(t: Tokens, p: int, r: u16) -> Parsed
    decreases rest(t, p), 4nat,
{
    if 0 <= p < t.len() {
        match t[p] {
            Err(e) => (Err(ParseError::of_lexer(e, r)), 0),
            Ok(tok) => if is_word(tok, seq!['d', 'e', 'f', 'i', 'n', 'e']) {
                after(sp_definition(t, p + 1, r), 1)
            } else if is_word(tok, seq!['i', 'f']) {
                after(sp_conditional(t, p + 1, r), 1)
            } else if is_word(tok, seq!['l', 'a', 'm', 'b', 'd', 'a']) {
                after(sp_lambda(t, p + 1, r), 1)
            } else if is_word(tok, seq!['q', 'u', 'o', 't', 'e']) {
                let (d, k) = sp_datum(t, p + 1, r);
                match d {
                    Ok(x) => after(then_close(x, k, t, p + 1, r), 1),
                    Err(e) => (Err(e), k + 1),
                }
            } else if is_word(tok, seq!['s', 'e', 't', '!']) {
                after(sp_assignment(t, p + 1, r), 1)
            } else {
                sp_application(t, p, r)
            },
        }
    } else {
        (Err(ParseError::UnexpectedEof), 0)
    }
}

/// `(<operator> <operand>*)` from the operator on.
pub open spec fn sp_application(t: Tokens, p: int, r: u16) -> Parsed
    decreases rest(t, p), 3nat,
{
    let (op, k) = sp_expr(t, p, r);
    match op {
        Err(e) => (Err(e), k),
        Ok(o) => {
            let (args, m) = sp_many_expr(t, p + k, r);
            match args {
                Ok(a) => then_close(ExprV::Apply(Box::new(o), a), k + m, t, p, r),
                Err(e) => (Err(e), k + m),
            }
        },
    }
}

/// `(if p c a)` from the predicate on.
pub open spec fn sp_conditional(t: Tokens, p: int, r: u16) -> Parsed
    decreases rest(t, p), 3nat,
{
    let (a, k1) = sp_expr(t, p, r);
    match a {
        Err(e) => (Err(e), k1),
        Ok(pr) => {
            let (b, k2) = sp_expr(t, p + k1, r);
            match b {
                Err(e) => (Err(e), k1 + k2),
                Ok(co) => {
                    let (c, k3) = sp_expr(t, p + k1 + k2, r);
                    match c {
                        Err(e) => (Err(e), k1 + k2 + k3),
                        Ok(al) => then_close(
                            ExprV::If(Box::new(pr), Box::new(co), Box::new(al)),
                            k1 + k2 + k3,
                            t,
                            p,
                            r,
                        ),
                    }
                },
            }
        },
    }
}

/// `(set! v e)` from `v` on.
pub open spec fn sp_assignment(t: Tokens, p: int, r: u16) -> Parsed
    decreases rest(t, p), 3nat,
{
    let (a, k1) = sp_expr(t, p, r);
    match a {
        Err(e) => (Err(e), k1),
        Ok(v) => {
            let (b, k2) = sp_expr(t, p + k1, r);
            match b {
                Err(e) => (Err(e), k1 + k2),
                Ok(x) => then_close(ExprV::Assign(Box::new(v), Box::new(x)), k1 + k2, t, p, r),
            }
        },
    }
}

/// Identifiers up to their `)`, then one or more body expressions up to the
/// `)` of the enclosing form.
pub open spec fn sp_formals_and_body(t: Tokens, p: int, r: u16) -> Parsed
    decreases rest(t, p), 3nat,
{
    let (formals, k) = sp_variables(t, p);
    match close(t, p + k, r) {
        Err(e) => (Err(e), k),
        Ok(()) => {
            let outer = shallower(r);
            let (first, k1) = sp_expr(t, p + k + 1, outer);
            match first {
                Err(e) => (Err(e), k + 1 + k1),
                Ok(b) => {
                    let (more, m) = sp_many_expr(t, p + k + 1 + k1, outer);
                    match more {
                        Ok(bs) => then_close(ExprV::Lambda(formals, seq![b] + bs), k + 1 + k1 + m, t, p, outer),
                        Err(e) => (Err(e), k + 1 + k1 + m),
                    }
                },
            }
        },
    }
}

/// `(lambda (formal*) body+)` from the `(` of the formals on.
pub open spec fn sp_lambda(t: Tokens, p: int, r: u16) -> Parsed
    decreases rest(t, p), 3nat,
{
    if 0 <= p < t.len() {
        match t[p] {
            Err(e) => (Err(ParseError::of_lexer(e, r)), 0),
            Ok(Token::ParenLeft) => after(sp_formals_and_body(t, p + 1, deeper(r)), 1),
            Ok(tok) => (Err(ParseError::UnexpectedToken(tok, r)), 0),
        }
    } else {
        (Err(ParseError::UnexpectedEof), 0)
    }
}

/// `(define name e)` or `(define (name formal*) body+)`, after `define`.
pub open spec fn sp_definition(t: Tokens, p: int, r: u16) -> Parsed
    decreases rest(t, p), 3nat,
{
    if 0 <= p < t.len() {
        match t[p] {
            Err(e) => (Err(ParseError::of_lexer(e, r)), 0),
            Ok(Token::ParenLeft) => {
                let (name, k) = sp_variable(t, p + 1, deeper(r));
                match name {
                    Err(e) => (Err(e), k + 1),
                    Ok(n) => {
                        let (l, m) = sp_formals_and_body(t, p + 1 + k, deeper(r));
                        match l {
                            Err(e) => (Err(e), 1 + k + m),
                            Ok(lam) => (Ok(ExprV::Define(Box::new(n), Box::new(lam))), 1 + k + m),
                        }
                    },
                }
            },
            Ok(Token::Identifier(id)) => {
                let (x, k) = sp_expr(t, p + 1, r);
                match x {
                    Err(e) => (Err(e), k + 1),
                    Ok(v) => after(
                        then_close(
                            ExprV::Define(Box::new(ExprV::Variable(id@)), Box::new(v)),
                            k,
                            t,
                            p + 1,
                            r,
                        ),
                        1,
                    ),
                }
            },
            Ok(tok) => (Err(ParseError::UnexpectedToken(tok, r)), 0),
        }
    } else {
        (Err(ParseError::UnexpectedEof), 0)
    }
}

/// Tokens that recovery skips from `p`, with `d` forms still open:
/// each `(`, `#(` or `#u8(` opens one more, each `)` closes one, and it stops after the `)`
/// that closes the last, or at the end of the tokens.
pub open spec fn sp_skip(t: Tokens, p: int, d: nat) -> nat
    decreases rest(t, p),
{
    if 0 <= p < t.len() {
        if d == 0 {
            1
        } else {
            match t[p] {
                Ok(Token::ParenLeft) | Ok(Token::HashOpen) | Ok(Token::HashU8Open) => 1 + sp_skip(t, p + 1, d + 1),
                Ok(Token::ParenRight) => if d == 1 {
                    1
                } else {
                    1 + sp_skip(t, p + 1, (d - 1) as nat)
                },
                _ => 1 + sp_skip(t, p + 1, d),
            }
        }
    } else {
        0
    }
}

/// Tokens that recovery from error `e` at `p` consumes.
pub open spec fn sp_recover(t: Tokens, p: int, e: ParseError) -> nat {
    match e {
        ParseError::UnexpectedToken(_, r) => sp_skip(t, p, r as nat),
        ParseError::LexicalError(r) => sp_skip(t, p, r as nat),
        _ => 0,
    }
}

/// The next top-level form from `p`, or `None` at the end of the tokens,
/// with the number of tokens consumed, recovery included.
pub open spec fn sp_next(t: Tokens, p: int) -> Option<Parsed> {
    if 0 <= p < t.len() {
        match t[p] {
            Err(e) => {
                let err = ParseError::of_lexer(e, 0);
                Some((Err(err), sp_recover(t, p, err)))
            },
            Ok(_) => {
                let (x, k) = sp_expr(t, p, 0);
                match x {
                    Ok(v) => Some((Ok(v), k)),
                    Err(err) => Some((Err(err), k + sp_recover(t, p + k, err))),
                }
            },
        }
    } else {
        None
    }
}

proof fn lemma_exprs_view_empty(v: Vec<Expr>)
    requires
        v@.len() == 0,
    ensures
        exprs_view(v) == Seq::<ExprV>::empty(),
{
    assert(exprs_view(v) =~= Seq::<ExprV>::empty());
}

/// Whether `tok` is the identifier `w`.
fn names(tok: &Token, w: &str) -> (r: bool)
    ensures
        r == is_word(*tok, w@),
{
    match tok {
        Token::Identifier(id) => same_text(id.as_str(), w),
        _ => false,
    }
}

fn deeper_of(r: u16) -> (d: u16)
    ensures
        d == deeper(r),
{
    if r < u16::MAX {
        r + 1
    } else {
        r
    }
}

fn shallower_of(r: u16) -> (d: u16)
    ensures
        d == shallower(r),
{
    if r > 0 {
        r - 1
    } else {
        0
    }
}

/// The value of a byte written in decimal, as `byte_of` states it.
#[verifier::rlimit(40)]
fn byte_value(s: &str) -> (r: Option<u8>)
    ensures
        r == byte_of(s@),
{
    let n = s.unicode_len();
    let start: usize = if n > 0 && s.get_char(0) == '+' {
        1
    } else {
        0
    };
    let ghost d = if s@.len() > 0 && s@[0] == '+' {
        s@.drop_first()
    } else {
        s@
    };
    assert(d =~= s@.subrange(start as int, n as int));
    if start == n {
        assert(d.len() == 0);
        return None;
    }
    let mut v: u32 = 0;
    let mut k: usize = start;
    while k < n
        invariant
            start <= k <= n == s@.len(),
            d == s@.subrange(start as int, n as int),
            d == (if s@.len() > 0 && s@[0] == '+' {
                s@.drop_first()
            } else {
                s@
            }),
            crate::lexer::digits_in(d, 0, k - start),
            v <= 256,
            v == (if digits_value(d.take(k - start)) < 256 {
                digits_value(d.take(k - start))
            } else {
                256
            }),
        decreases n - k,
    {
        let c = s.get_char(k);
        if !('0' <= c && c <= '9') {
            assert(!crate::lexer::digits_in(d, 0, d.len() as int)) by {
                assert(d[k - start] == c);
            }
            assert(!(d.len() > 0 && crate::lexer::digits_in(d, 0, d.len() as int)));
            assert(byte_of(s@) is None);
            return None;
        }
        let ghost j = k - start;
        assert(d.take(j + 1).drop_last() =~= d.take(j));
        assert(d.take(j + 1).last() == c);
        let digit = (c as u32) - ('0' as u32);
        v = if v >= 256 {
            256
        } else if v * 10 + digit >= 256 {
            256
        } else {
            v * 10 + digit
        };
        k = k + 1;
    }
    assert(d.take(d.len() as int) =~= d);
    if v <= 255 {
        Some(v as u8)
    } else {
        None
    }
}

/// The token at `p`, copied.
fn peek_at(t: &Vec<Result<Token, LexerError>>, p: usize, r: u16) -> (res: Result<Token, ParseError>)
    ensures
        res == peek(t@, p as int, r),
        res is Ok ==> p < t@.len(),
        t@.len() <= usize::MAX,
{
    let n = t.len();
    if p < t.len() {
        match &t[p] {
            Ok(tok) => Ok(tok.copy()),
            Err(e) => Err(ParseError::from_lexer(e, r)),
        }
    } else {
        Err(ParseError::UnexpectedEof)
    }
}

/// Consumes a `)` at `p`.
fn paren_right(t: &Vec<Result<Token, LexerError>>, p: usize, r: u16) -> (res: Result<(), ParseError>)
    ensures
        res == close(t@, p as int, r),
        res is Ok ==> p < t@.len(),
        t@.len() <= usize::MAX,
{
    match peek_at(t, p, r) {
        Ok(Token::ParenRight) => Ok(()),
        Ok(tok) => Err(ParseError::UnexpectedToken(tok, r)),
        Err(e) => Err(e),
    }
}

/// `x` has been read up to `q`; a `)` must follow.
fn closing(x: Expr, t: &Vec<Result<Token, LexerError>>, q: usize, r: u16) -> (res: (
    Result<Expr, ParseError>,
    usize,
))
    requires
        q <= t@.len(),
    ensures
        q <= res.1 <= t@.len(),
        (result_view(res.0), (res.1 - q) as nat) == then_close(x@, 0, t@, q as int, r),
{
    match paren_right(t, q, r) {
        Ok(()) => (Ok(x), q + 1),
        Err(e) => (Err(e), q),
    }
}

fn variable(t: &Vec<Result<Token, LexerError>>, p: usize, r: u16) -> (res: (
    Result<Expr, ParseError>,
    usize,
))
    requires
        p <= t@.len(),
    ensures
        p <= res.1 <= t@.len(),
        (result_view(res.0), (res.1 - p) as nat) == sp_variable(t@, p as int, r),
{
    match peek_at(t, p, r) {
        Ok(Token::Identifier(id)) => (Ok(Expr::Variable(id)), p + 1),
        Ok(tok) => (Err(ParseError::UnexpectedToken(tok, r)), p),
        Err(e) => (Err(e), p),
    }
}

fn bytes(t: &Vec<Result<Token, LexerError>>, p: usize, r: u16) -> (res: (Vec<u8>, usize))
    requires
        p <= t@.len(),
    ensures
        p <= res.1 <= t@.len(),
        (res.0@, (res.1 - p) as nat) == sp_bytes(t@, p as int, r),
{
    let mut out: Vec<u8> = Vec::new();
    let mut q: usize = p;
    while q < t.len()
        invariant
            p <= q <= t@.len(),
            sp_bytes(t@, p as int, r) == (out@ + sp_bytes(t@, q as int, r).0, ((q - p) + sp_bytes(t@, q as int, r).1) as nat),
        decreases t@.len() - q,
    {
        let b = match &t[q] {
            Ok(Token::Number(n)) => byte_value(n.as_str()),
            _ => None,
        };
        match b {
            Some(b) => {
                let ghost old_out = out@;
                out.push(b);
                assert(old_out + (seq![b] + sp_bytes(t@, q + 1, r).0) =~= out@ + sp_bytes(t@, q + 1, r).0);
                q = q + 1;
            },
            None => {
                assert(out@ + Seq::<u8>::empty() =~= out@);
                return (out, q);
            },
        }
    }
    assert(out@ + Seq::<u8>::empty() =~= out@);
    (out, q)
}

fn many_expr(t: &Vec<Result<Token, LexerError>>, p: usize, r: u16) -> (res: (
    Result<Vec<Expr>, ParseError>,
    usize,
))
    requires
        p <= t@.len(),
    ensures
        p <= res.1 <= t@.len(),
        (items_view(res.0), (res.1 - p) as nat) == sp_many_expr(t@, p as int, r),
    decreases rest(t@, p as int), 2nat,
{
    let mut out: Vec<Expr> = Vec::new();
    let mut q: usize = p;
    proof {
        lemma_exprs_view_empty(out);
        assert(prepend(Seq::<ExprV>::empty(), sp_many_expr(t@, q as int, r).0) == sp_many_expr(t@, q as int, r).0) by {
            if let Ok(v) = sp_many_expr(t@, q as int, r).0 {
                assert(Seq::<ExprV>::empty() + v =~= v);
            }
        }
    }
    loop
        invariant
            p <= q <= t@.len(),
            sp_many_expr(t@, p as int, r) == (
                prepend(exprs_view(out), sp_many_expr(t@, q as int, r).0),
                ((q - p) + sp_many_expr(t@, q as int, r).1) as nat,
            ),
        decreases rest(t@, q as int),
    {
        let (x, q2) = expr(t, q, r);
        let ghost old_out = out;
        match x {
            Ok(e) => {
                let ghost ev = e@;
                out.push(e);
                proof {
                    lemma_exprs_view_push(old_out, out, e);
                }
                if q2 > q && q < t.len() {
                    assert(prepend(exprs_view(old_out), prepend(seq![ev], sp_many_expr(t@, q2 as int, r).0)) == prepend(
                        exprs_view(out),
                        sp_many_expr(t@, q2 as int, r).0,
                    )) by {
                        if let Ok(v) = sp_many_expr(t@, q2 as int, r).0 {
                            assert(exprs_view(old_out) + (seq![ev] + v) =~= exprs_view(out) + v);
                        }
                    }
                    q = q2;
                } else {
                    assert(exprs_view(old_out) + seq![ev] =~= exprs_view(out));
                    return (Ok(out), q2);
                }
            },
            Err(err) => {
                if q2 > q {
                    return (Err(err), q2);
                }
                assert(exprs_view(out) + Seq::<ExprV>::empty() =~= exprs_view(out));
                return (Ok(out), q);
            },
        }
    }
}

fn many_datum(t: &Vec<Result<Token, LexerError>>, p: usize, r: u16) -> (res: (
    Result<Vec<Expr>, ParseError>,
    usize,
))
    requires
        p <= t@.len(),
    ensures
        p <= res.1 <= t@.len(),
        (items_view(res.0), (res.1 - p) as nat) == sp_many_datum(t@, p as int, r),
    decreases rest(t@, p as int), 2nat,
{
    let mut out: Vec<Expr> = Vec::new();
    let mut q: usize = p;
    proof {
        lemma_exprs_view_empty(out);
        assert(prepend(Seq::<ExprV>::empty(), sp_many_datum(t@, q as int, r).0) == sp_many_datum(t@, q as int, r).0) by {
            if let Ok(v) = sp_many_datum(t@, q as int, r).0 {
                assert(Seq::<ExprV>::empty() + v =~= v);
            }
        }
    }
    loop
        invariant
            p <= q <= t@.len(),
            sp_many_datum(t@, p as int, r) == (
                prepend(exprs_view(out), sp_many_datum(t@, q as int, r).0),
                ((q - p) + sp_many_datum(t@, q as int, r).1) as nat,
            ),
        decreases rest(t@, q as int),
    {
        let (x, q2) = datum(t, q, r);
        let ghost old_out = out;
        match x {
            Ok(e) => {
                let ghost ev = e@;
                out.push(e);
                proof {
                    lemma_exprs_view_push(old_out, out, e);
                }
                if q2 > q && q < t.len() {
                    assert(prepend(exprs_view(old_out), prepend(seq![ev], sp_many_datum(t@, q2 as int, r).0)) == prepend(
                        exprs_view(out),
                        sp_many_datum(t@, q2 as int, r).0,
                    )) by {
                        if let Ok(v) = sp_many_datum(t@, q2 as int, r).0 {
                            assert(exprs_view(old_out) + (seq![ev] + v) =~= exprs_view(out) + v);
                        }
                    }
                    q = q2;
                } else {
                    assert(exprs_view(old_out) + seq![ev] =~= exprs_view(out));
                    return (Ok(out), q2);
                }
            },
            Err(err) => {
                if q2 > q {
                    return (Err(err), q2);
                }
                assert(exprs_view(out) + Seq::<ExprV>::empty() =~= exprs_view(out));
                return (Ok(out), q);
            },
        }
    }
}

/// An expression at `p`.
fn expr(t: &Vec<Result<Token, LexerError>>, p: usize, r: u16) -> (res: (Result<Expr, ParseError>, usize))
    requires
        p <= t@.len(),
    ensures
        p <= res.1 <= t@.len(),
        (result_view(res.0), (res.1 - p) as nat) == sp_expr(t@, p as int, r),
    decreases rest(t@, p as int), 1nat,
{
    match peek_at(t, p, r) {
        Err(e) => (Err(e), p),
        Ok(tok) => match tok {
            Token::Boolean(b) => (Ok(Expr::Boolean(b)), p + 1),
            Token::Char(c) => (Ok(Expr::Char(c)), p + 1),
            Token::Number(n) => (Ok(Expr::Number(n)), p + 1),
            Token::String(s) => (Ok(Expr::String(s)), p + 1),
            Token::Quote => datum(t, p + 1, r),
            Token::HashU8Open => bytevector(t, p + 1, deeper_of(r)),
            Token::HashOpen => vector(t, p + 1, deeper_of(r)),
            Token::ParenLeft => compound(t, p + 1, deeper_of(r)),
            _ => variable(t, p, r),
        },
    }
}

/// The bytes of a bytevector after its `#u8(`, and its `)`.
fn bytevector(t: &Vec<Result<Token, LexerError>>, p: usize, r: u16) -> (res: (Result<Expr, ParseError>, usize))
    requires
        p <= t@.len(),
    ensures
        p <= res.1 <= t@.len(),
        (result_view(res.0), (res.1 - p) as nat) == ({
            let (b, k) = sp_bytes(t@, p as int, r);
            then_close(ExprV::Bytevector(b), k, t@, p as int, r)
        }),
{
    let (b, q) = bytes(t, p, r);
    closing(Expr::Bytevector(b), t, q, r)
}

/// The items of a vector after its `#(`, and its `)`.
fn vector(t: &Vec<Result<Token, LexerError>>, p: usize, r: u16) -> (res: (Result<Expr, ParseError>, usize))
    requires
        p <= t@.len(),
    ensures
        p <= res.1 <= t@.len(),
        (result_view(res.0), (res.1 - p) as nat) == items_then_close(sp_many_datum(t@, p as int, r), true, t@, p as int, r),
    decreases rest(t@, p as int), 3nat,
{
    let (v, q) = many_datum(t, p, r);
    match v {
        Ok(v) => closing(Expr::Vector(v), t, q, r),
        Err(e) => (Err(e), q),
    }
}

/// The items of a list datum after its `(`, and its `)`.
fn compound_datum(t: &Vec<Result<Token, LexerError>>, p: usize, r: u16) -> (res: (
    Result<Expr, ParseError>,
    usize,
))
    requires
        p <= t@.len(),
    ensures
        p <= res.1 <= t@.len(),
        (result_view(res.0), (res.1 - p) as nat) == items_then_close(sp_many_datum(t@, p as int, r), false, t@, p as int, r),
    decreases rest(t@, p as int), 3nat,
{
    let (v, q) = many_datum(t, p, r);
    match v {
        Ok(v) => closing(Expr::List(v), t, q, r),
        Err(e) => (Err(e), q),
    }
}

/// Zero or more identifiers from `p`, as variables.
fn variables(t: &Vec<Result<Token, LexerError>>, p: usize) -> (res: (Vec<Expr>, usize))
    requires
        p <= t@.len(),
    ensures
        p <= res.1 <= t@.len(),
        (exprs_view(res.0), (res.1 - p) as nat) == sp_variables(t@, p as int),
{
    let mut out: Vec<Expr> = Vec::new();
    let mut q: usize = p;
    proof {
        lemma_exprs_view_empty(out);
        assert(Seq::<ExprV>::empty() + sp_variables(t@, q as int).0 =~= sp_variables(t@, q as int).0);
    }
    while q < t.len()
        invariant
            p <= q <= t@.len(),
            sp_variables(t@, p as int) == (exprs_view(out) + sp_variables(t@, q as int).0, ((q - p)
                + sp_variables(t@, q as int).1) as nat),
        decreases t@.len() - q,
    {
        match &t[q] {
            Ok(Token::Identifier(id)) => {
                let v = Expr::Variable(id.clone());
                let ghost old_out = out;
                let ghost vv = v@;
                out.push(v);
                proof {
                    lemma_exprs_view_push(old_out, out, v);
                }
                assert(exprs_view(old_out) + (seq![vv] + sp_variables(t@, q + 1).0) =~= exprs_view(out)
                    + sp_variables(t@, q + 1).0);
                q = q + 1;
            },
            _ => {
                assert(exprs_view(out) + Seq::<ExprV>::empty() =~= exprs_view(out));
                return (out, q);
            },
        }
    }
    assert(exprs_view(out) + Seq::<ExprV>::empty() =~= exprs_view(out));
    (out, q)
}

/// A datum at `p`.
fn datum(t: &Vec<Result<Token, LexerError>>, p: usize, r: u16) -> (res: (Result<Expr, ParseError>, usize))
    requires
        p <= t@.len(),
    ensures
        p <= res.1 <= t@.len(),
        (result_view(res.0), (res.1 - p) as nat) == sp_datum(t@, p as int, r),
    decreases rest(t@, p as int), 1nat,
{
    match peek_at(t, p, r) {
        Err(e) => (Err(e), p),
        Ok(tok) => match tok {
            Token::Boolean(b) => (Ok(Expr::Boolean(b)), p + 1),
            Token::Char(c) => (Ok(Expr::Char(c)), p + 1),
            Token::Number(n) => (Ok(Expr::Number(n)), p + 1),
            Token::String(s) => (Ok(Expr::String(s)), p + 1),
            Token::Quote => datum(t, p + 1, r),
            Token::HashU8Open => bytevector(t, p + 1, deeper_of(r)),
            Token::HashOpen => vector(t, p + 1, deeper_of(r)),
            Token::ParenLeft => compound_datum(t, p + 1, deeper_of(r)),
            Token::Identifier(id) => (Ok(Expr::Variable(id)), p + 1),
            tok => (Err(ParseError::UnexpectedToken(tok, r)), p),
        },
    }
}

/// The inside of a compound form, from just after its `(`: one of the
/// special forms, or an application.
fn compound(t: &Vec<Result<Token, LexerError>>, p: usize, r: u16) -> (res: (Result<Expr, ParseError>, usize))
    requires
        p <= t@.len(),
    ensures
        p <= res.1 <= t@.len(),
        (result_view(res.0), (res.1 - p) as nat) == sp_compound(t@, p as int, r),
    decreases rest(t@, p as int), 4nat,
{
    proof {
        reveal_strlit("define");
        reveal_strlit("if");
        reveal_strlit("lambda");
        reveal_strlit("quote");
        reveal_strlit("set!");
        assert("define"@ =~= seq!['d', 'e', 'f', 'i', 'n', 'e']);
        assert("if"@ =~= seq!['i', 'f']);
        assert("lambda"@ =~= seq!['l', 'a', 'm', 'b', 'd', 'a']);
        assert("quote"@ =~= seq!['q', 'u', 'o', 't', 'e']);
        assert("set!"@ =~= seq!['s', 'e', 't', '!']);
    }
    match peek_at(t, p, r) {
        Err(e) => (Err(e), p),
        Ok(tok) => {
            if names(&tok, "define") {
                definition(t, p + 1, r)
            } else if names(&tok, "if") {
                conditional(t, p + 1, r)
            } else if names(&tok, "lambda") {
                lambda(t, p + 1, r)
            } else if names(&tok, "quote") {
                long_quotation(t, p + 1, r)
            } else if names(&tok, "set!") {
                assignment(t, p + 1, r)
            } else {
                application(t, p, r)
            }
        },
    }
}

/// `(quote datum)` from the datum on.
fn long_quotation(t: &Vec<Result<Token, LexerError>>, p: usize, r: u16) -> (res: (
    Result<Expr, ParseError>,
    usize,
))
    requires
        p <= t@.len(),
    ensures
        p <= res.1 <= t@.len(),
        (result_view(res.0), (res.1 - p) as nat) == ({
            let (d, k) = sp_datum(t@, p as int, r);
            match d {
                Ok(x) => then_close(x, k, t@, p as int, r),
                Err(e) => (Err(e), k),
            }
        }),
    decreases rest(t@, p as int), 3nat,
{
    let (d, q) = datum(t, p, r);
    match d {
        Ok(x) => closing(x, t, q, r),
        Err(e) => (Err(e), q),
    }
}

/// `(<operator> <operand>*)` from the operator on.
fn application(t: &Vec<Result<Token, LexerError>>, p: usize, r: u16) -> (res: (
    Result<Expr, ParseError>,
    usize,
))
    requires
        p <= t@.len(),
    ensures
        p <= res.1 <= t@.len(),
        (result_view(res.0), (res.1 - p) as nat) == sp_application(t@, p as int, r),
    decreases rest(t@, p as int), 3nat,
{
    let (op, q) = expr(t, p, r);
    match op {
        Err(e) => (Err(e), q),
        Ok(o) => {
            let (args, q2) = many_expr(t, q, r);
            match args {
                Ok(a) => closing(Expr::Apply(Box::new(o), a), t, q2, r),
                Err(e) => (Err(e), q2),
            }
        },
    }
}

/// `(if p c a)` from the predicate on.
fn conditional(t: &Vec<Result<Token, LexerError>>, p: usize, r: u16) -> (res: (
    Result<Expr, ParseError>,
    usize,
))
    requires
        p <= t@.len(),
    ensures
        p <= res.1 <= t@.len(),
        (result_view(res.0), (res.1 - p) as nat) == sp_conditional(t@, p as int, r),
    decreases rest(t@, p as int), 3nat,
{
    let (a, q1) = expr(t, p, r);
    let predicate = match a {
        Err(e) => return (Err(e), q1),
        Ok(x) => x,
    };
    let (b, q2) = expr(t, q1, r);
    let consequent = match b {
        Err(e) => return (Err(e), q2),
        Ok(x) => x,
    };
    let (c, q3) = expr(t, q2, r);
    let alternative = match c {
        Err(e) => return (Err(e), q3),
        Ok(x) => x,
    };
    closing(Expr::If(Box::new(predicate), Box::new(consequent), Box::new(alternative)), t, q3, r)
}

/// `(set! v e)` from `v` on.
fn assignment(t: &Vec<Result<Token, LexerError>>, p: usize, r: u16) -> (res: (
    Result<Expr, ParseError>,
    usize,
))
    requires
        p <= t@.len(),
    ensures
        p <= res.1 <= t@.len(),
        (result_view(res.0), (res.1 - p) as nat) == sp_assignment(t@, p as int, r),
    decreases rest(t@, p as int), 3nat,
{
    let (a, q1) = expr(t, p, r);
    let v = match a {
        Err(e) => return (Err(e), q1),
        Ok(x) => x,
    };
    let (b, q2) = expr(t, q1, r);
    let e = match b {
        Err(e) => return (Err(e), q2),
        Ok(x) => x,
    };
    closing(Expr::Assign(Box::new(v), Box::new(e)), t, q2, r)
}

/// Formals up to their `)`, then a body up to the `)` of the enclosing form.
fn formals_and_body(t: &Vec<Result<Token, LexerError>>, p: usize, r: u16) -> (res: (
    Result<Expr, ParseError>,
    usize,
))
    requires
        p <= t@.len(),
    ensures
        p <= res.1 <= t@.len(),
        (result_view(res.0), (res.1 - p) as nat) == sp_formals_and_body(t@, p as int, r),
    decreases rest(t@, p as int), 3nat,
{
    let (formals, q) = variables(t, p);
    match paren_right(t, q, r) {
        Err(e) => (Err(e), q),
        Ok(()) => {
            let outer = shallower_of(r);
            let (first, q1) = expr(t, q + 1, outer);
            let b = match first {
                Err(e) => return (Err(e), q1),
                Ok(b) => b,
            };
            let (more, q2) = many_expr(t, q1, outer);
            match more {
                Ok(more) => {
                    let ghost bv = b@;
                    let ghost mv = exprs_view(more);
                    let mut body: Vec<Expr> = vec![b];
                    let mut more = more;
                    body.append(&mut more);
                    assert(exprs_view(body) =~= seq![bv] + mv);
                    closing(Expr::Lambda(formals, body), t, q2, outer)
                },
                Err(e) => (Err(e), q2),
            }
        },
    }
}

/// `(lambda (formal*) body+)` from the `(` of the formals on.
fn lambda(t: &Vec<Result<Token, LexerError>>, p: usize, r: u16) -> (res: (Result<Expr, ParseError>, usize))
    requires
        p <= t@.len(),
    ensures
        p <= res.1 <= t@.len(),
        (result_view(res.0), (res.1 - p) as nat) == sp_lambda(t@, p as int, r),
    decreases rest(t@, p as int), 3nat,
{
    match peek_at(t, p, r) {
        Err(e) => (Err(e), p),
        Ok(Token::ParenLeft) => formals_and_body(t, p + 1, deeper_of(r)),
        Ok(tok) => (Err(ParseError::UnexpectedToken(tok, r)), p),
    }
}

/// `(define name e)` or `(define (name formal*) body+)`, after `define`.
fn definition(t: &Vec<Result<Token, LexerError>>, p: usize, r: u16) -> (res: (
    Result<Expr, ParseError>,
    usize,
))
    requires
        p <= t@.len(),
    ensures
        p <= res.1 <= t@.len(),
        (result_view(res.0), (res.1 - p) as nat) == sp_definition(t@, p as int, r),
    decreases rest(t@, p as int), 3nat,
{
    match peek_at(t, p, r) {
        Err(e) => (Err(e), p),
        Ok(Token::ParenLeft) => define_lambda(t, p + 1, deeper_of(r)),
        Ok(Token::Identifier(id)) => define_variable(t, p + 1, r, id),
        Ok(tok) => (Err(ParseError::UnexpectedToken(tok, r)), p),
    }
}

/// `(define (name formal*) body*)` from `name` on.
fn define_lambda(t: &Vec<Result<Token, LexerError>>, p: usize, r: u16) -> (res: (
    Result<Expr, ParseError>,
    usize,
))
    requires
        1 <= p <= t@.len(),
    ensures
        p <= res.1 <= t@.len(),
        (result_view(res.0), (res.1 - p) as nat) == ({
            let (name, k) = sp_variable(t@, p as int, r);
            match name {
                Err(e) => (Err(e), k),
                Ok(n) => {
                    let (l, m) = sp_formals_and_body(t@, p + k, r);
                    match l {
                        Err(e) => (Err(e), k + m),
                        Ok(lam) => (Ok(ExprV::Define(Box::new(n), Box::new(lam))), k + m),
                    }
                },
            }
        }),
    decreases rest(t@, p as int), 4nat,
{
    let (name, q) = variable(t, p, r);
    let symbol = match name {
        Err(e) => return (Err(e), q),
        Ok(n) => n,
    };
    let (l, q2) = formals_and_body(t, q, r);
    match l {
        Err(e) => (Err(e), q2),
        Ok(lam) => (Ok(Expr::Define(Box::new(symbol), Box::new(lam))), q2),
    }
}

/// `(define name e)` from `e` on.
fn define_variable(t: &Vec<Result<Token, LexerError>>, p: usize, r: u16, id: String) -> (res: (
    Result<Expr, ParseError>,
    usize,
))
    requires
        p <= t@.len(),
    ensures
        p <= res.1 <= t@.len(),
        (result_view(res.0), (res.1 - p) as nat) == ({
            let (x, k) = sp_expr(t@, p as int, r);
            match x {
                Err(e) => (Err(e), k),
                Ok(v) => then_close(ExprV::Define(Box::new(ExprV::Variable(id@)), Box::new(v)), k, t@, p as int, r),
            }
        }),
    decreases rest(t@, p as int), 3nat,
{
    let (x, q) = expr(t, p, r);
    match x {
        Err(e) => {
            assert(sp_expr(t@, p as int, r) == (Err::<ExprV, ParseError>(e), (q - p) as nat));
            (Err(e), q)
        },
        Ok(v) => {
            let name = Expr::Variable(id);
            assert(name@ == ExprV::Variable(id@));
            closing(Expr::Define(Box::new(name), Box::new(v)), t, q, r)
        },
    }
}

/// Skips tokens from `p` with `d` forms open, as `sp_skip` states.
fn skip(t: &Vec<Result<Token, LexerError>>, p: usize, d: u16) -> (q: usize)
    requires
        p <= t@.len(),
    ensures
        q == p + sp_skip(t@, p as int, d as nat),
        q <= t@.len(),
{
    let mut q: usize = p;
    let mut open: u128 = d as u128;
    if open == 0 {
        return if q < t.len() {
            q + 1
        } else {
            q
        };
    }
    while q < t.len()
        invariant
            p <= q <= t@.len(),
            open > 0,
            open <= d + (q - p),
            p + sp_skip(t@, p as int, d as nat) == q + sp_skip(t@, q as int, open as nat),
        decreases t@.len() - q,
    {
        match &t[q] {
            Ok(Token::ParenLeft) | Ok(Token::HashOpen) | Ok(Token::HashU8Open) => {
                open = open + 1;
            },
            Ok(Token::ParenRight) => {
                if open == 1 {
                    return q + 1;
                }
                open = open - 1;
            },
            _ => {},
        }
        q = q + 1;
    }
    q
}

/// Tokens that recovery from `e` at `p` consumes, as `sp_recover` states.
fn recover(t: &Vec<Result<Token, LexerError>>, p: usize, e: &ParseError) -> (q: usize)
    requires
        p <= t@.len(),
    ensures
        q == p + sp_recover(t@, p as int, *e),
        q <= t@.len(),
{
    match e {
        ParseError::UnexpectedToken(_, r) => skip(t, p, *r),
        ParseError::LexicalError(r) => skip(t, p, *r),
        _ => p,
    }
}

/// The reader: yields one expression, or one error, per top-level form.
pub struct Parser {
    pub tokens: Vec<Result<Token, LexerError>>,
    pub pos: usize,
}

impl Parser {
    pub open spec fn wf(&self) -> bool {
        self.pos <= self.tokens@.len()
    }

    /// A reader over the tokens of `text`, at its start.
    pub fn new(text: &str) -> (p: Parser)
        ensures
            p.wf(),
            lexed_seq_view(p.tokens@) == lex(text@),
            p.pos == 0,
    {
        Parser { tokens: tokenize(text), pos: 0 }
    }

    /// The next top-level form, or `None` at the end of the text. After an
    /// error the reader has skipped what recovery skips.
    pub fn next(&mut self) -> (res: Option<Result<Expr, ParseError>>)
        requires
            old(self).wf(),
        ensures
            final(self).wf(),
            final(self).tokens == old(self).tokens,
            match sp_next(old(self).tokens@, old(self).pos as int) {
                None => res is None && final(self).pos == old(self).pos,
                Some((x, k)) => res matches Some(y) && result_view(y) == x && final(self).pos
                    == old(self).pos + k,
            },
    {
        let p = self.pos;
        if p >= self.tokens.len() {
            return None;
        }
        match &self.tokens[p] {
            Err(e) => {
                let err = ParseError::from_lexer(e, 0);
                self.pos = recover(&self.tokens, p, &err);
                Some(Err(err))
            },
            Ok(_) => {
                let (x, q) = expr(&self.tokens, p, 0);
                match x {
                    Ok(v) => {
                        self.pos = q;
                        Some(Ok(v))
                    },
                    Err(err) => {
                        self.pos = recover(&self.tokens, q, &err);
                        Some(Err(err))
                    },
                }
            },
        }
    }
}

/// How a token changes the count of open forms.
pub open spec fn paren_delta(x: Result<Token, LexerError>) -> int {
    match x {
        Ok(Token::ParenLeft) | Ok(Token::HashOpen) | Ok(Token::HashU8Open) => 1,
        Ok(Token::ParenRight) => -1,
        _ => 0,
    }
}

/// Open forms after the tokens in `[p, q)`, counting from `d`.
pub open spec fn open_after(t: Tokens, p: int, q: int, d: int) -> int
    decreases q - p,
{
    if q <= p {
        d
    } else {
        open_after(t, p, q - 1, d) + paren_delta(t[q - 1])
    }
}

proof fn lemma_open_after_shift(t: Tokens, p: int, q: int, d: int)
    requires
        p < q,
    ensures
        open_after(t, p, q, d) == open_after(t, p + 1, q, d + paren_delta(t[p])),
    decreases q - p,
{
    reveal_with_fuel(open_after, 2);
    if q > p + 1 {
        lemma_open_after_shift(t, p, q - 1, d);
    }
}

/// Recovery resynchronizes on the form left unfinished: started with `d > 0`
/// forms open (each opened by `(`, `#(` or `#u8(`), it consumes tokens while
/// some stay open and stops right
/// after the `)` that closes the last of them, or at the end of the tokens
/// when none does.
pub proof fn lemma_recovery_resynchronizes(t: Tokens, p: int, d: nat)
    requires
        0 <= p <= t.len(),
        d > 0,
    ensures
        p + sp_skip(t, p, d) <= t.len(),
        forall|m: int| p <= m < p + sp_skip(t, p, d) ==> open_after(t, p, m, d as int) > 0,
        ({
            let q = p + sp_skip(t, p, d);
            (q > p && t[q - 1] == Ok::<Token, LexerError>(Token::ParenRight) && open_after(t, p, q, d as int) == 0)
                || (q == t.len() && open_after(t, p, q, d as int) > 0)
        }),
    decreases t.len() - p,
{
    if p < t.len() {
        let nd: int = d + paren_delta(t[p]);
        if t[p] == Ok::<Token, LexerError>(Token::ParenRight) && d == 1 {
            reveal_with_fuel(open_after, 2);
            assert(open_after(t, p, p + 1, d as int) == 0);
        } else {
            lemma_recovery_resynchronizes(t, p + 1, nd as nat);
            let q = p + sp_skip(t, p, d);
            assert(q == p + 1 + sp_skip(t, p + 1, nd as nat));
            assert forall|m: int| p <= m < q implies open_after(t, p, m, d as int) > 0 by {
                if m > p {
                    lemma_open_after_shift(t, p, m, d as int);
                }
            }
            lemma_open_after_shift(t, p, q, d as int);
        }
    }
}

/// `t` and `t2` hold the same tokens at the positions `[lo, hi)`, and end at
/// the same place if that lies there.
pub open spec fn agree(t: Tokens, t2: Tokens, lo: int, hi: int) -> bool {
    forall|i: int| lo <= i < hi ==> #[trigger] agree_at(t, t2, i)
}

pub open spec fn agree_at(t: Tokens, t2: Tokens, i: int) -> bool {
    (i < t.len() <==> i < t2.len()) && (0 <= i < t.len() ==> t[i] == t2[i])
}

/// The end of what a parse from `p` reads: the tokens it consumed, and after
/// a failure also the position where it failed.
pub open spec fn reach(x: Parsed, p: int) -> int {
    if x.0 is Ok {
        p + x.1
    } else {
        p + x.1 + 1
    }
}

proof fn lemma_bytes_local(t: Tokens, t2: Tokens, lo: int, hi: int, p: int, r: u16)
    requires
        0 <= lo <= p,
        agree(t, t2, lo, hi),
        p + sp_bytes(t, p, r).1 + 1 <= hi,
    ensures
        sp_bytes(t2, p, r) == sp_bytes(t, p, r),
    decreases rest(t, p),
{
    assert(agree_at(t, t2, p));
    if p < t.len() {
        if let Ok(Token::Number(n)) = t[p] {
            if byte_of(n@) is Some {
                lemma_bytes_local(t, t2, lo, hi, p + 1, r);
            }
        }
    }
}

proof fn lemma_expr_local(t: Tokens, t2: Tokens, lo: int, hi: int, p: int, r: u16)
    requires
        0 <= lo <= p,
        agree(t, t2, lo, hi),
        reach(sp_expr(t, p, r), p) <= hi,
    ensures
        sp_expr(t2, p, r) == sp_expr(t, p, r),
    decreases rest(t, p), 1nat,
{
    if p < t.len() {
        assert(agree_at(t, t2, p));
        if let Ok(tok) = t[p] {
            match tok {
                Token::Quote => lemma_datum_local(t, t2, lo, hi, p + 1, r),
                Token::HashU8Open => {
                    lemma_bytes_local(t, t2, lo, hi, p + 1, deeper(r));
                    assert(agree_at(t, t2, p + 1 + sp_bytes(t, p + 1, deeper(r)).1));
                },
                Token::HashOpen => {
                    lemma_many_datum_local(t, t2, lo, hi, p + 1, deeper(r));
                    assert(agree_at(t, t2, p + 1 + sp_many_datum(t, p + 1, deeper(r)).1));
                },
                Token::ParenLeft => lemma_compound_local(t, t2, lo, hi, p + 1, deeper(r)),
                _ => {},
            }
        }
    } else {
        assert(agree_at(t, t2, p));
    }
}

proof fn lemma_datum_local(t: Tokens, t2: Tokens, lo: int, hi: int, p: int, r: u16)
    requires
        0 <= lo <= p,
        agree(t, t2, lo, hi),
        reach(sp_datum(t, p, r), p) <= hi,
    ensures
        sp_datum(t2, p, r) == sp_datum(t, p, r),
    decreases rest(t, p), 1nat,
{
    if p < t.len() {
        assert(agree_at(t, t2, p));
        if let Ok(tok) = t[p] {
            match tok {
                Token::Quote => lemma_datum_local(t, t2, lo, hi, p + 1, r),
                Token::HashU8Open => {
                    lemma_bytes_local(t, t2, lo, hi, p + 1, deeper(r));
                    assert(agree_at(t, t2, p + 1 + sp_bytes(t, p + 1, deeper(r)).1));
                },
                Token::HashOpen | Token::ParenLeft => {
                    lemma_many_datum_local(t, t2, lo, hi, p + 1, deeper(r));
                    assert(agree_at(t, t2, p + 1 + sp_many_datum(t, p + 1, deeper(r)).1));
                },
                _ => {},
            }
        }
    } else {
        assert(agree_at(t, t2, p));
    }
}

proof fn lemma_many_expr_local(t: Tokens, t2: Tokens, lo: int, hi: int, p: int, r: u16)
    requires
        0 <= lo <= p,
        agree(t, t2, lo, hi),
        p + sp_many_expr(t, p, r).1 + 1 <= hi,
    ensures
        sp_many_expr(t2, p, r) == sp_many_expr(t, p, r),
    decreases rest(t, p), 2nat,
{
    let (x, k) = sp_expr(t, p, r);
    lemma_expr_local(t, t2, lo, hi, p, r);
    if x is Ok && k > 0 && 0 <= p < t.len() {
        assert(agree_at(t, t2, p));
        lemma_many_expr_local(t, t2, lo, hi, p + k, r);
    }
}

proof fn lemma_many_datum_local(t: Tokens, t2: Tokens, lo: int, hi: int, p: int, r: u16)
    requires
        0 <= lo <= p,
        agree(t, t2, lo, hi),
        p + sp_many_datum(t, p, r).1 + 1 <= hi,
    ensures
        sp_many_datum(t2, p, r) == sp_many_datum(t, p, r),
    decreases rest(t, p), 2nat,
{
    let (x, k) = sp_datum(t, p, r);
    lemma_datum_local(t, t2, lo, hi, p, r);
    if x is Ok && k > 0 && 0 <= p < t.len() {
        assert(agree_at(t, t2, p));
        lemma_many_datum_local(t, t2, lo, hi, p + k, r);
    }
}

proof fn lemma_compound_local(t: Tokens, t2: Tokens, lo: int, hi: int, p: int, r: u16)
    requires
        0 <= lo <= p,
        agree(t, t2, lo, hi),
        reach(sp_compound(t, p, r), p) <= hi,
    ensures
        sp_compound(t2, p, r) == sp_compound(t, p, r),
    decreases rest(t, p), 4nat,
{
    if p < t.len() {
        assert(agree_at(t, t2, p));
        if let Ok(tok) = t[p] {
            if is_word(tok, seq!['d', 'e', 'f', 'i', 'n', 'e']) {
                lemma_definition_local(t, t2, lo, hi, p + 1, r);
            } else if is_word(tok, seq!['i', 'f']) {
                lemma_conditional_local(t, t2, lo, hi, p + 1, r);
            } else if is_word(tok, seq!['l', 'a', 'm', 'b', 'd', 'a']) {
                lemma_lambda_local(t, t2, lo, hi, p + 1, r);
            } else if is_word(tok, seq!['q', 'u', 'o', 't', 'e']) {
                lemma_datum_local(t, t2, lo, hi, p + 1, r);
                assert(agree_at(t, t2, p + 1 + sp_datum(t, p + 1, r).1));
            } else if is_word(tok, seq!['s', 'e', 't', '!']) {
                lemma_assignment_local(t, t2, lo, hi, p + 1, r);
            } else {
                lemma_application_local(t, t2, lo, hi, p, r);
            }
        }
    } else {
        assert(agree_at(t, t2, p));
    }
}

proof fn lemma_application_local(t: Tokens, t2: Tokens, lo: int, hi: int, p: int, r: u16)
    requires
        0 <= lo <= p,
        agree(t, t2, lo, hi),
        reach(sp_application(t, p, r), p) <= hi,
    ensures
        sp_application(t2, p, r) == sp_application(t, p, r),
    decreases rest(t, p), 3nat,
{
    let (op, k) = sp_expr(t, p, r);
    lemma_expr_local(t, t2, lo, hi, p, r);
    if op is Ok {
        lemma_many_expr_local(t, t2, lo, hi, p + k, r);
        assert(agree_at(t, t2, p + k + sp_many_expr(t, p + k, r).1));
    }
}

proof fn lemma_conditional_local(t: Tokens, t2: Tokens, lo: int, hi: int, p: int, r: u16)
    requires
        0 <= lo <= p,
        agree(t, t2, lo, hi),
        reach(sp_conditional(t, p, r), p) <= hi,
    ensures
        sp_conditional(t2, p, r) == sp_conditional(t, p, r),
    decreases rest(t, p), 3nat,
{
    let (a, k1) = sp_expr(t, p, r);
    lemma_expr_local(t, t2, lo, hi, p, r);
    if a is Ok {
        let (b, k2) = sp_expr(t, p + k1, r);
        lemma_expr_local(t, t2, lo, hi, p + k1, r);
        if b is Ok {
            lemma_expr_local(t, t2, lo, hi, p + k1 + k2, r);
            assert(agree_at(t, t2, p + k1 + k2 + sp_expr(t, p + k1 + k2, r).1));
        }
    }
}

proof fn lemma_assignment_local(t: Tokens, t2: Tokens, lo: int, hi: int, p: int, r: u16)
    requires
        0 <= lo <= p,
        agree(t, t2, lo, hi),
        reach(sp_assignment(t, p, r), p) <= hi,
    ensures
        sp_assignment(t2, p, r) == sp_assignment(t, p, r),
    decreases rest(t, p), 3nat,
{
    let (a, k1) = sp_expr(t, p, r);
    lemma_expr_local(t, t2, lo, hi, p, r);
    if a is Ok {
        lemma_expr_local(t, t2, lo, hi, p + k1, r);
        assert(agree_at(t, t2, p + k1 + sp_expr(t, p + k1, r).1));
    }
}

proof fn lemma_variables_local(t: Tokens, t2: Tokens, lo: int, hi: int, p: int)
    requires
        0 <= lo <= p,
        agree(t, t2, lo, hi),
        p + sp_variables(t, p).1 + 1 <= hi,
    ensures
        sp_variables(t2, p) == sp_variables(t, p),
    decreases rest(t, p),
{
    assert(agree_at(t, t2, p));
    if p < t.len() {
        if let Ok(Token::Identifier(_)) = t[p] {
            lemma_variables_local(t, t2, lo, hi, p + 1);
        }
    }
}

proof fn lemma_formals_and_body_local(t: Tokens, t2: Tokens, lo: int, hi: int, p: int, r: u16)
    requires
        0 <= lo <= p,
        agree(t, t2, lo, hi),
        reach(sp_formals_and_body(t, p, r), p) <= hi,
    ensures
        sp_formals_and_body(t2, p, r) == sp_formals_and_body(t, p, r),
    decreases rest(t, p), 3nat,
{
    let (formals, k) = sp_variables(t, p);
    lemma_variables_local(t, t2, lo, hi, p);
    assert(agree_at(t, t2, p + k));
    if close(t, p + k, r) is Ok {
        let outer = shallower(r);
        let (first, k1) = sp_expr(t, p + k + 1, outer);
        lemma_expr_local(t, t2, lo, hi, p + k + 1, outer);
        if first is Ok {
            lemma_many_expr_local(t, t2, lo, hi, p + k + 1 + k1, outer);
            assert(agree_at(t, t2, p + k + 1 + k1 + sp_many_expr(t, p + k + 1 + k1, outer).1));
        }
    }
}

proof fn lemma_lambda_local(t: Tokens, t2: Tokens, lo: int, hi: int, p: int, r: u16)
    requires
        0 <= lo <= p,
        agree(t, t2, lo, hi),
        reach(sp_lambda(t, p, r), p) <= hi,
    ensures
        sp_lambda(t2, p, r) == sp_lambda(t, p, r),
    decreases rest(t, p), 3nat,
{
    if p < t.len() {
        assert(agree_at(t, t2, p));
        if t[p] == Ok::<Token, LexerError>(Token::ParenLeft) {
            lemma_formals_and_body_local(t, t2, lo, hi, p + 1, deeper(r));
        }
    } else {
        assert(agree_at(t, t2, p));
    }
}

proof fn lemma_definition_local(t: Tokens, t2: Tokens, lo: int, hi: int, p: int, r: u16)
    requires
        0 <= lo <= p,
        agree(t, t2, lo, hi),
        reach(sp_definition(t, p, r), p) <= hi,
    ensures
        sp_definition(t2, p, r) == sp_definition(t, p, r),
    decreases rest(t, p), 3nat,
{
    if p < t.len() {
        assert(agree_at(t, t2, p));
        match t[p] {
            Ok(Token::ParenLeft) => {
                let (name, k) = sp_variable(t, p + 1, deeper(r));
                assert(agree_at(t, t2, p + 1));
                if name is Ok {
                    lemma_formals_and_body_local(t, t2, lo, hi, p + 1 + k, deeper(r));
                }
            },
            Ok(Token::Identifier(_)) => {
                lemma_expr_local(t, t2, lo, hi, p + 1, r);
                assert(agree_at(t, t2, p + 1 + sp_expr(t, p + 1, r).1));
            },
            _ => {},
        }
    } else {
        assert(agree_at(t, t2, p));
    }
}

/// Everything the reader yields from `p` on, one result per top-level form.
pub open spec fn sp_read_all(t: Tokens, p: int) -> Seq<Result<ExprV, ParseError>>
    decreases rest(t, p),
{
    match sp_next(t, p) {
        None => Seq::empty(),
        Some((x, k)) => if k > 0 && 0 <= p < t.len() {
            seq![x] + sp_read_all(t, p + k)
        } else {
            seq![x]
        },
    }
}

pub open spec fn results_view(v: Seq<Result<Expr, ParseError>>) -> Seq<Result<ExprV, ParseError>> {
    v.map_values(|x: Result<Expr, ParseError>| result_view(x))
}

impl Parser {
    /// Reads every remaining top-level form.
    pub fn read_all(&mut self) -> (res: Vec<Result<Expr, ParseError>>)
        requires
            old(self).wf(),
        ensures
            final(self).wf(),
            final(self).tokens == old(self).tokens,
            results_view(res@) == sp_read_all(old(self).tokens@, old(self).pos as int),
    {
        let mut out: Vec<Result<Expr, ParseError>> = Vec::new();
        let ghost t = self.tokens@;
        assert(results_view(out@) + sp_read_all(t, self.pos as int) =~= sp_read_all(t, self.pos as int));
        loop
            invariant
                self.wf(),
                self.tokens@ == t,
                self.tokens == old(self).tokens,
                results_view(out@) + sp_read_all(t, self.pos as int) == sp_read_all(t, old(self).pos as int),
            decreases rest(t, self.pos as int),
        {
            let p = self.pos;
            let ghost before = out@;
            match self.next() {
                None => {
                    assert(results_view(out@) + Seq::<Result<ExprV, ParseError>>::empty() =~= results_view(out@));
                    return out;
                },
                Some(x) => {
                    let ghost xv = result_view(x);
                    out.push(x);
                    assert(results_view(out@) =~= results_view(before).push(xv));
                    if self.pos > p && p < self.tokens.len() {
                        assert(results_view(before) + (seq![xv] + sp_read_all(t, self.pos as int)) =~= results_view(out@)
                            + sp_read_all(t, self.pos as int));
                    } else {
                        assert(results_view(before) + seq![xv] =~= results_view(out@));
                        return out;
                    }
                },
            }
        }
    }
}

/// The tokens split at the positions `b` into forms, the `i`-th of which,
/// read on its own with nothing after it, is the expression `es[i]`.
pub open spec fn splits_into_forms(t: Tokens, b: Seq<int>, es: Seq<ExprV>) -> bool {
    forall|i: int|
        0 <= i < es.len() ==> b[i] < b[i + 1] <= t.len() && #[trigger] sp_expr(t.take(b[i + 1]), b[i], 0) == (
            Ok::<ExprV, ParseError>(es[i]),
            (b[i + 1] - b[i]) as nat,
        )
}

/// The reader yields one expression per top-level form, in source order:
/// where the tokens split at positions `b[0] = 0 < b[1] < ... = t.len()` into
/// forms, and each form read on its own (nothing after it) is the expression
/// `es[i]`, the reader yields exactly `es`, without an error.
pub proof fn lemma_reads_each_form(t: Tokens, b: Seq<int>, es: Seq<ExprV>)
    requires
        b.len() == es.len() + 1,
        b[0] == 0,
        b[es.len() as int] == t.len(),
        splits_into_forms(t, b, es),
    ensures
        sp_read_all(t, 0) == es.map_values(|e: ExprV| Ok::<ExprV, ParseError>(e)),
{
    lemma_reads_forms_from(t, b, es, 0);
    assert(es.subrange(0, es.len() as int) =~= es);
}

proof fn lemma_reads_forms_from(t: Tokens, b: Seq<int>, es: Seq<ExprV>, j: int)
    requires
        b.len() == es.len() + 1,
        b[0] == 0,
        b[es.len() as int] == t.len(),
        splits_into_forms(t, b, es),
        0 <= j <= es.len(),
        j == 0 || 0 <= b[j] <= t.len(),
    ensures
        sp_read_all(t, b[j]) == es.subrange(j, es.len() as int).map_values(|e: ExprV| Ok::<ExprV, ParseError>(e)),
    decreases es.len() - j,
{
    let n = es.len() as int;
    if j == n {
        assert(es.subrange(j, n).map_values(|e: ExprV| Ok::<ExprV, ParseError>(e)) =~= Seq::empty());
    } else {
        let lo = b[j];
        let hi = b[j + 1];
        let f = t.take(hi);
        assert(sp_expr(f, lo, 0) == (Ok::<ExprV, ParseError>(es[j]), (hi - lo) as nat));
        assert(agree(f, t, lo, hi)) by {
            assert forall|i: int| lo <= i < hi implies #[trigger] agree_at(f, t, i) by {}
        }
        lemma_expr_local(f, t, lo, hi, lo, 0);
        assert(0 <= lo < t.len());
        assert(t[lo] == f[lo]);
        assert(t[lo] is Ok);
        lemma_reads_forms_from(t, b, es, j + 1);
        assert(es.subrange(j, n).map_values(|e: ExprV| Ok::<ExprV, ParseError>(e)) =~= seq![
            Ok::<ExprV, ParseError>(es[j]),
        ] + es.subrange(j + 1, n).map_values(|e: ExprV| Ok::<ExprV, ParseError>(e)));
    }
}

/// An expression or datum read without error has consumed at least the token
/// at `p`.
pub proof fn lemma_read_consumes(t: Tokens, p: int, r: u16)
    ensures
        sp_expr(t, p, r).0 is Ok ==> sp_expr(t, p, r).1 >= 1 && 0 <= p < t.len(),
        sp_datum(t, p, r).0 is Ok ==> sp_datum(t, p, r).1 >= 1 && 0 <= p < t.len(),
{
}

} // verus!
