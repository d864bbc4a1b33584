//! Lexer: turns source text into a sequence of tokens.
//!
//! The token grammar follows R7RS-small: parentheses, `'`, `#(`, `#u8(`,
//! booleans, characters, strings with escapes, numbers (integers, rationals,
//! decimals and complex numbers, kept as text) and identifiers. Whitespace and
//! `;` comments are discarded. An atom that is none of these yields a lexical
//! error and lexing goes on after it.
use vstd::prelude::*;
use vstd::string::StrSliceExecFns;
use crate::text::push_char;

verus! {

/// A token of the source text.
#[derive(Debug, Clone, PartialEq)]
pub enum Token {
    Boolean(bool),
    Char(char),
    Number(String),
    String(String),
    Identifier(String),
    Quote,
    ParenLeft,
    ParenRight,
    HashOpen,
    HashU8Open,
}

/// Failure of the lexer on one token.
#[derive(Debug, Clone, Copy, PartialEq, Eq)]
pub enum LexerError {
    LexicalError,
    ReadLineError,
}

/// The mathematical form of a token: text as character sequences.
pub enum TokenV {
    Boolean(bool),
    Char(char),
    Number(Seq<char>),
    Str(Seq<char>),
    Identifier(Seq<char>),
    Quote,
    ParenLeft,
    ParenRight,
    HashOpen,
    HashU8Open,
}

impl Token {
    pub open spec fn view(self) -> TokenV {
        match self {
            Token::Boolean(b) => TokenV::Boolean(b),
            Token::Char(c) => TokenV::Char(c),
            Token::Number(n) => TokenV::Number(n@),
            Token::String(s) => TokenV::Str(s@),
            Token::Identifier(s) => TokenV::Identifier(s@),
            Token::Quote => TokenV::Quote,
            Token::ParenLeft => TokenV::ParenLeft,
            Token::ParenRight => TokenV::ParenRight,
            Token::HashOpen => TokenV::HashOpen,
            Token::HashU8Open => TokenV::HashU8Open,
        }
    }

    /// A copy of the token.
    pub fn copy(&self) -> (r: Token)
        ensures
            r == *self,
    {
        match self {
            Token::Boolean(b) => Token::Boolean(*b),
            Token::Char(c) => Token::Char(*c),
            Token::Number(n) => Token::Number(n.clone()),
            Token::String(s) => Token::String(s.clone()),
            Token::Identifier(s) => Token::Identifier(s.clone()),
            Token::Quote => Token::Quote,
            Token::ParenLeft => Token::ParenLeft,
            Token::ParenRight => Token::ParenRight,
            Token::HashOpen => Token::HashOpen,
            Token::HashU8Open => Token::HashU8Open,
        }
    }
}

pub open spec fn lexed_view(r: Result<Token, LexerError>) -> Result<TokenV, LexerError> {
    match r {
        Ok(t) => Ok(t@),
        Err(e) => Err(e),
    }
}

pub open spec fn lexed_seq_view(s: Seq<Result<Token, LexerError>>) -> Seq<Result<TokenV, LexerError>> {
    s.map_values(|r: Result<Token, LexerError>| lexed_view(r))
}

pub open spec fn is_whitespace(c: char) -> bool {
    c == ' ' || c == '\t' || c == '\n' || c == '\r'
}

pub open spec fn is_delimiter(c: char) -> bool {
    is_whitespace(c) || c == '(' || c == ')' || c == '"' || c == ';' || c == '|'
}

pub open spec fn is_digit(c: char) -> bool {
    '0' <= c <= '9'
}

pub open spec fn is_sign(c: char) -> bool {
    c == '+' || c == '-'
}

pub open spec fn is_letter(c: char) -> bool {
    ('a' <= c <= 'z') || ('A' <= c <= 'Z')
}

pub open spec fn is_special_initial(c: char) -> bool {
    c == '!' || c == '$' || c == '%' || c == '&' || c == '*' || c == '/' || c == ':' || c == '<'
        || c == '=' || c == '>' || c == '?' || c == '^' || c == '_' || c == '~'
}

pub open spec fn is_initial(c: char) -> bool {
    is_letter(c) || is_special_initial(c)
}

pub open spec fn is_subsequent(c: char) -> bool {
    is_initial(c) || is_digit(c) || is_sign(c) || c == '.' || c == '@'
}

/// Every character of `s` in `[a, b)` is a decimal digit.
pub open spec fn digits_in(s: Seq<char>, a: int, b: int) -> bool {
    forall|k: int| a <= k < b ==> is_digit(#[trigger] s[k])
}

/// A non-empty run of decimal digits.
pub open spec fn is_uinteger(s: Seq<char>) -> bool {
    s.len() > 0 && digits_in(s, 0, s.len() as int)
}

/// Digits, one `.`, digits, with at least one digit in all.
pub open spec fn is_decimal(s: Seq<char>) -> bool {
    s.len() >= 2 && exists|d: int|
        0 <= d < s.len() && s[d] == '.' && digits_in(s, 0, d) && digits_in(s, d + 1, s.len() as int)
}

/// Two non-empty runs of digits around one `/`.
pub open spec fn is_rational(s: Seq<char>) -> bool {
    exists|d: int|
        0 < d < s.len() - 1 && s[d] == '/' && digits_in(s, 0, d) && digits_in(s, d + 1, s.len() as int)
}

pub open spec fn is_ureal(s: Seq<char>) -> bool {
    is_uinteger(s) || is_decimal(s) || is_rational(s)
}

/// An unsigned real with an optional sign.
pub open spec fn is_real(s: Seq<char>) -> bool {
    is_ureal(s) || (s.len() > 0 && is_sign(s[0]) && is_ureal(s.drop_first()))
}

/// What stands before the final `i` of an imaginary number: a sign alone
/// (`+i`), a signed real (`+2i`), or a real part, a sign, and an optional
/// unsigned real (`1+i`, `1+2i`).
pub open spec fn is_imaginary_body(s: Seq<char>) -> bool {
    (s.len() == 1 && is_sign(s[0])) || (s.len() > 0 && is_sign(s[0]) && is_ureal(s.drop_first()))
        || exists|d: int|
        0 < d < s.len() && is_sign(s[d]) && is_real(s.subrange(0, d)) && (d == s.len() - 1
            || is_ureal(s.subrange(d + 1, s.len() as int)))
}

/// A numeric literal of R7RS-small (without exponents or radix prefixes).
pub open spec fn is_number(s: Seq<char>) -> bool {
    is_real(s) || (s.len() > 0 && s.last() == 'i' && is_imaginary_body(s.drop_last()))
}

/// An identifier: an initial followed by subsequents, or one of the
/// peculiar identifiers (`+`, `-`, `...`, or a sign followed by a
/// non-digit subsequent and more subsequents).
pub open spec fn is_identifier(s: Seq<char>) -> bool {
    ||| s.len() > 0 && is_initial(s[0]) && (forall|k: int| 1 <= k < s.len() ==> is_subsequent(#[trigger] s[k]))
    ||| s.len() == 1 && is_sign(s[0])
    ||| s =~= seq!['.', '.', '.']
    ||| s.len() >= 2 && is_sign(s[0]) && (is_initial(s[1]) || is_sign(s[1]) || s[1] == '@')
        && (forall|k: int| 2 <= k < s.len() ==> is_subsequent(#[trigger] s[k]))
}

/// The character named after `#\`.
pub open spec fn char_name(n: Seq<char>) -> Option<char> {
    if n.len() == 1 {
        Some(n[0])
    } else if n =~= seq!['n', 'e', 'w', 'l', 'i', 'n', 'e'] {
        Some('\n')
    } else if n =~= seq!['s', 'p', 'a', 'c', 'e'] {
        Some(' ')
    } else if n =~= seq!['t', 'a', 'b'] {
        Some('\t')
    } else {
        None
    }
}

/// The token that an atom (a maximal run of non-delimiters) stands for.
pub open spec fn classify(a: Seq<char>) -> Result<TokenV, LexerError> {
    if a =~= seq!['#', 't'] || a =~= seq!['#', 't', 'r', 'u', 'e'] {
        Ok(TokenV::Boolean(true))
    } else if a =~= seq!['#', 'f'] || a =~= seq!['#', 'f', 'a', 'l', 's', 'e'] {
        Ok(TokenV::Boolean(false))
    } else if a.len() >= 3 && a[0] == '#' && a[1] == '\\' {
        match char_name(a.subrange(2, a.len() as int)) {
            Some(c) => Ok(TokenV::Char(c)),
            None => Err(LexerError::LexicalError),
        }
    } else if is_number(a) {
        Ok(TokenV::Number(a))
    } else if is_identifier(a) {
        Ok(TokenV::Identifier(a))
    } else {
        Err(LexerError::LexicalError)
    }
}

/// Number of non-delimiter characters of `s` from `j` on.
pub open spec fn atom_len(s: Seq<char>, j: int) -> nat
    decreases s.len() - j,
{
    if j < 0 || j >= s.len() || is_delimiter(s[j]) {
        0
    } else {
        1 + atom_len(s, j + 1)
    }
}

/// Number of characters of a comment's rest from `j` up to (not including) the newline.
pub open spec fn line_rest_len(s: Seq<char>, j: int) -> nat
    decreases s.len() - j,
{
    if j < 0 || j >= s.len() || s[j] == '\n' {
        0
    } else {
        1 + line_rest_len(s, j + 1)
    }
}

pub open spec fn escaped(c: char) -> Option<char> {
    if c == 'n' {
        Some('\n')
    } else if c == 't' {
        Some('\t')
    } else if c == 'r' {
        Some('\r')
    } else if c == 'a' {
        Some('\x07')
    } else if c == 'b' {
        Some('\x08')
    } else if c == '"' || c == '\\' || c == '|' {
        Some(c)
    } else {
        None
    }
}

/// The body of a string literal from `j` (just after the opening quote):
/// its characters and how many source characters it takes, closing quote
/// included; `None` when unterminated or on an unknown escape.
pub open spec fn string_body(s: Seq<char>, j: int) -> Option<(Seq<char>, nat)>
    decreases s.len() - j,
{
    if j < 0 || j >= s.len() {
        None
    } else if s[j] == '"' {
        Some((Seq::empty(), 1))
    } else if s[j] == '\\' {
        if j + 1 >= s.len() {
            None
        } else {
            match escaped(s[j + 1]) {
                None => None,
                Some(c) => match string_body(s, j + 2) {
                    None => None,
                    Some((rest, n)) => Some((seq![c] + rest, n + 2)),
                },
            }
        }
    } else {
        match string_body(s, j + 1) {
            None => None,
            Some((rest, n)) => Some((seq![s[j]] + rest, n + 1)),
        }
    }
}

/// How many characters of `s` lie at or after `i`.
pub open spec fn remaining(s: Seq<char>, i: int) -> nat {
    if 0 <= i < s.len() {
        (s.len() - i) as nat
    } else {
        0
    }
}

/// How many characters a string literal takes from `j` (just after the
/// opening quote), closing quote included, a backslash taking the character
/// after it along; `None` when it is not closed.
pub open spec fn string_extent(s: Seq<char>, j: int) -> Option<nat>
    decreases s.len() - j,
{
    if j < 0 || j >= s.len() {
        None
    } else if s[j] == '"' {
        Some(1)
    } else if s[j] == '\\' {
        if j + 1 >= s.len() {
            None
        } else {
            match string_extent(s, j + 2) {
                None => None,
                Some(n) => Some(n + 2),
            }
        }
    } else {
        match string_extent(s, j + 1) {
            None => None,
            Some(n) => Some(n + 1),
        }
    }
}

/// The tokens of `s` from position `i` on.
pub open spec fn lex_from(s: Seq<char>, i: int) -> Seq<Result<TokenV, LexerError>>
    decreases remaining(s, i),
{
    if i < 0 || i >= s.len() {
        Seq::empty()
    } else {
        let c = s[i];
        if is_whitespace(c) {
            lex_from(s, i + 1)
        } else if c == ';' {
            lex_from(s, i + 1 + line_rest_len(s, i + 1))
        } else if c == '(' {
            seq![Ok(TokenV::ParenLeft)] + lex_from(s, i + 1)
        } else if c == ')' {
            seq![Ok(TokenV::ParenRight)] + lex_from(s, i + 1)
        } else if c == '\'' {
            seq![Ok(TokenV::Quote)] + lex_from(s, i + 1)
        } else if c == '"' {
            match string_body(s, i + 1) {
                None => match string_extent(s, i + 1) {
                    None => seq![Err(LexerError::LexicalError)],
                    Some(n) => seq![Err(LexerError::LexicalError)] + lex_from(s, i + 1 + n),
                },
                Some((v, n)) => seq![Ok(TokenV::Str(v))] + lex_from(s, i + 1 + n),
            }
        } else if c == '#' && i + 1 < s.len() && s[i + 1] == '(' {
            seq![Ok(TokenV::HashOpen)] + lex_from(s, i + 2)
        } else if c == '#' && i + 3 < s.len() && s[i + 1] == 'u' && s[i + 2] == '8' && s[i + 3] == '(' {
            seq![Ok(TokenV::HashU8Open)] + lex_from(s, i + 4)
        } else if c == '#' && i + 2 < s.len() && s[i + 1] == '\\' {
            let e = i + 3 + atom_len(s, i + 3);
            seq![classify(s.subrange(i, e))] + lex_from(s, e)
        } else {
            let e = i + 1 + atom_len(s, i + 1);
            seq![classify(s.subrange(i, e))] + lex_from(s, e)
        }
    }
}

/// The tokens of a whole text.
pub open spec fn lex(s: Seq<char>) -> Seq<Result<TokenV, LexerError>> {
    lex_from(s, 0)
}

/// Builds a `String` holding the characters `cs[a..b]`.
fn text_of(cs: &Vec<char>, a: usize, b: usize) -> (r: String)
    requires
        a <= b <= cs@.len(),
    ensures
        r@ == cs@.subrange(a as int, b as int),
{
    let mut r = String::new();
    let mut k: usize = a;
    while k < b
        invariant
            a <= k <= b <= cs@.len(),
            r@ == cs@.subrange(a as int, k as int),
        decreases b - k,
    {
        push_char(&mut r, cs[k]);
        assert(r@ =~= cs@.subrange(a as int, k + 1));
        k = k + 1;
    }
    r
}

fn chars_of(text: &str) -> (r: Vec<char>)
    ensures
        r@ == text@,
{
    let n = text.unicode_len();
    let mut r: Vec<char> = Vec::new();
    let mut k: usize = 0;
    while k < n
        invariant
            n == text@.len(),
            k <= n,
            r@ == text@.subrange(0, k as int),
        decreases n - k,
    {
        r.push(text.get_char(k));
        assert(r@ =~= text@.subrange(0, k + 1));
        k = k + 1;
    }
    assert(r@ =~= text@);
    r
}

fn is_delimiter_char(c: char) -> (r: bool)
    ensures
        r == is_delimiter(c),
{
    c == ' ' || c == '\t' || c == '\n' || c == '\r' || c == '(' || c == ')' || c == '"' || c == ';'
        || c == '|'
}

fn is_digit_char(c: char) -> (r: bool)
    ensures
        r == is_digit(c),
{
    '0' <= c && c <= '9'
}

fn is_sign_char(c: char) -> (r: bool)
    ensures
        r == is_sign(c),
{
    c == '+' || c == '-'
}

fn is_initial_char(c: char) -> (r: bool)
    ensures
        r == is_initial(c),
{
    ('a' <= c && c <= 'z') || ('A' <= c && c <= 'Z') || c == '!' || c == '$' || c == '%' || c == '&'
        || c == '*' || c == '/' || c == ':' || c == '<' || c == '=' || c == '>' || c == '?' || c
        == '^' || c == '_' || c == '~'
}

fn is_subsequent_char(c: char) -> (r: bool)
    ensures
        r == is_subsequent(c),
{
    is_initial_char(c) || is_digit_char(c) || is_sign_char(c) || c == '.' || c == '@'
}

/// Length of the run of non-delimiters of `cs` from `j`.
fn atom_length(cs: &Vec<char>, j: usize) -> (r: usize)
    requires
        j <= cs@.len(),
    ensures
        r == atom_len(cs@, j as int),
        j + r <= cs@.len(),
{
    let mut k: usize = j;
    while k < cs.len() && !is_delimiter_char(cs[k])
        invariant
            j <= k <= cs@.len(),
            atom_len(cs@, j as int) == (k - j) + atom_len(cs@, k as int),
        decreases cs@.len() - k,
    {
        k = k + 1;
    }
    k - j
}

/// Length of the rest of a comment line from `j`.
fn line_rest_length(cs: &Vec<char>, j: usize) -> (r: usize)
    requires
        j <= cs@.len(),
    ensures
        r == line_rest_len(cs@, j as int),
        j + r <= cs@.len(),
{
    let mut k: usize = j;
    while k < cs.len() && cs[k] != '\n'
        invariant
            j <= k <= cs@.len(),
            line_rest_len(cs@, j as int) == (k - j) + line_rest_len(cs@, k as int),
        decreases cs@.len() - k,
    {
        k = k + 1;
    }
    k - j
}

/// Whether `cs[a..b]` is all digits.
fn all_digits(cs: &Vec<char>, a: usize, b: usize) -> (r: bool)
    requires
        a <= b <= cs@.len(),
    ensures
        r == digits_in(cs@, a as int, b as int),
{
    let mut k: usize = a;
    while k < b
        invariant
            a <= k <= b <= cs@.len(),
            digits_in(cs@, a as int, k as int),
        decreases b - k,
    {
        if !is_digit_char(cs[k]) {
            return false;
        }
        k = k + 1;
    }
    true
}

/// First position of `c` in `cs[a..b]`, or `b`.
fn find_char(cs: &Vec<char>, a: usize, b: usize, c: char) -> (r: usize)
    requires
        a <= b <= cs@.len(),
    ensures
        a <= r <= b,
        r < b ==> cs@[r as int] == c,
        forall|k: int| a <= k < r ==> cs@[k] != c,
{
    let mut k: usize = a;
    while k < b && cs[k] != c
        invariant
            a <= k <= b <= cs@.len(),
            forall|m: int| a <= m < k ==> cs@[m] != c,
        decreases b - k,
    {
        k = k + 1;
    }
    k
}

/// Whether `cs[a..b]` is an unsigned real.
fn ureal_at(cs: &Vec<char>, a: usize, b: usize) -> (r: bool)
    requires
        a <= b <= cs@.len(),
    ensures
        r == is_ureal(cs@.subrange(a as int, b as int)),
{
    let ghost s = cs@.subrange(a as int, b as int);
    if a == b {
        return false;
    }
    let d = find_char(cs, a, b, '/');
    if d < b {
        let r = a < d && d + 1 < b && all_digits(cs, a, d) && all_digits(cs, d + 1, b);
        proof {
            let dd = d - a;
            assert(s[dd] == '/');
            assert(!is_digit(s[dd]));
            assert(!is_uinteger(s));
            assert(!is_decimal(s)) by {
                if is_decimal(s) {
                    let w = choose|w: int|
                        0 <= w < s.len() && s[w] == '.' && digits_in(s, 0, w) && digits_in(s, w + 1, s.len() as int);
                    assert(w != dd);
                    if w < dd {
                        assert(is_digit(s[dd]));
                    } else {
                        assert(is_digit(s[dd]));
                    }
                }
            }
            if r {
                assert(digits_in(s, 0, dd));
                assert(digits_in(s, dd + 1, s.len() as int));
                assert(is_rational(s));
            }
            if is_rational(s) {
                let w = choose|w: int|
                    0 < w < s.len() - 1 && s[w] == '/' && digits_in(s, 0, w) && digits_in(s, w + 1, s.len() as int);
                if w > dd {
                    assert(is_digit(s[dd]));
                }
                assert(w == dd);
                lemma_digits_shift(cs@, a as int, b as int, 0, dd);
                lemma_digits_shift(cs@, a as int, b as int, dd + 1, s.len() as int);
            }
        }
        return r;
    }
    let e = find_char(cs, a, b, '.');
    if e < b {
        let r = b - a >= 2 && all_digits(cs, a, e) && all_digits(cs, e + 1, b);
        proof {
            let ee = e - a;
            assert(s[ee] == '.');
            assert(!is_digit(s[ee]));
            assert(!is_uinteger(s));
            assert(!is_rational(s)) by {
                if is_rational(s) {
                    let w = choose|w: int|
                        0 < w < s.len() - 1 && s[w] == '/' && digits_in(s, 0, w) && digits_in(s, w + 1, s.len() as int);
                    assert(cs@[a + w] == '/');
                }
            }
            if r {
                assert(digits_in(s, 0, ee));
                assert(digits_in(s, ee + 1, s.len() as int));
                assert(is_decimal(s));
            }
            if is_decimal(s) {
                let w = choose|w: int|
                    0 <= w < s.len() && s[w] == '.' && digits_in(s, 0, w) && digits_in(s, w + 1, s.len() as int);
                if w > ee {
                    assert(is_digit(s[ee]));
                }
                assert(w == ee);
                lemma_digits_shift(cs@, a as int, b as int, 0, ee);
                lemma_digits_shift(cs@, a as int, b as int, ee + 1, s.len() as int);
            }
        }
        return r;
    }
    let r = all_digits(cs, a, b);
    proof {
        assert(!is_rational(s)) by {
            if is_rational(s) {
                let w = choose|w: int|
                    0 < w < s.len() - 1 && s[w] == '/' && digits_in(s, 0, w) && digits_in(s, w + 1, s.len() as int);
                assert(cs@[a + w] == '/');
            }
        }
        assert(!is_decimal(s)) by {
            if is_decimal(s) {
                let w = choose|w: int|
                    0 <= w < s.len() && s[w] == '.' && digits_in(s, 0, w) && digits_in(s, w + 1, s.len() as int);
                assert(cs@[a + w] == '.');
            }
        }
        if r {
            assert(digits_in(s, 0, s.len() as int));
        }
        if is_uinteger(s) {
            assert forall|k: int| a <= k < b implies is_digit(cs@[k]) by {
                assert(s[k - a] == cs@[k]);
            }
        }
    }
    r
}

/// Whether `cs[a..b]` is an unsigned real with an optional sign.
fn real_at(cs: &Vec<char>, a: usize, b: usize) -> (r: bool)
    requires
        a <= b <= cs@.len(),
    ensures
        r == is_real(cs@.subrange(a as int, b as int)),
{
    let ghost s = cs@.subrange(a as int, b as int);
    if ureal_at(cs, a, b) {
        return true;
    }
    if a < b && is_sign_char(cs[a]) {
        let r = ureal_at(cs, a + 1, b);
        assert(s.drop_first() =~= cs@.subrange(a + 1, b as int));
        r
    } else {
        false
    }
}

/// Whether `cs[a..b]` is a numeric literal.
fn number_at(cs: &Vec<char>, a: usize, b: usize) -> (r: bool)
    requires
        a <= b <= cs@.len(),
    ensures
        r == is_number(cs@.subrange(a as int, b as int)),
{
    let ghost s = cs@.subrange(a as int, b as int);
    if real_at(cs, a, b) {
        return true;
    }
    if a == b || cs[b - 1] != 'i' {
        return false;
    }
    let c = b - 1;
    assert(s.drop_last() =~= cs@.subrange(a as int, c as int));
    imaginary_body_at(cs, a, c)
}

/// Whether `cs[a..c]` is what stands before the `i` of an imaginary number.
#[verifier::rlimit(40)]
fn imaginary_body_at(cs: &Vec<char>, a: usize, c: usize) -> (r: bool)
    requires
        a <= c < cs@.len(),
    ensures
        r == is_imaginary_body(cs@.subrange(a as int, c as int)),
{
    let ghost t = cs@.subrange(a as int, c as int);
    if c == a {
        return false;
    }
    if c - a == 1 && is_sign_char(cs[a]) {
        return true;
    }
    if is_sign_char(cs[a]) && ureal_at(cs, a + 1, c) {
        assert(t.drop_first() =~= cs@.subrange(a + 1, c as int));
        return true;
    }
    assert(!(t.len() > 0 && is_sign(t[0]) && is_ureal(t.drop_first()))) by {
        if t.len() > 0 && is_sign(t[0]) {
            assert(t.drop_first() =~= cs@.subrange(a + 1, c as int));
        }
    }
    // the sign that separates the real part from the imaginary part is the
    // last sign after the first character
    let mut d: usize = c - 1;
    while d > a && !is_sign_char(cs[d])
        invariant
            a <= d < c < cs@.len(),
            forall|m: int| d < m < c ==> !is_sign(cs@[m]),
        decreases d,
    {
        d = d - 1;
    }
    if d == a {
        proof {
            if is_imaginary_body(t) {
                let w = choose|w: int|
                    0 < w < t.len() && is_sign(t[w]) && is_real(t.subrange(0, w)) && (w == t.len() - 1
                        || is_ureal(t.subrange(w + 1, t.len() as int)));
                assert(t[w] == cs@[a + w]);
            }
        }
        return false;
    }
    let r = real_at(cs, a, d) && (d + 1 == c || ureal_at(cs, d + 1, c));
    proof {
        let dd = d - a;
        assert(t.subrange(0, dd) =~= cs@.subrange(a as int, d as int));
        assert(t.subrange(dd + 1, t.len() as int) =~= cs@.subrange(d + 1, c as int));
        if r {
            assert(is_sign(t[dd]));
        }
        if is_imaginary_body(t) {
            let w = choose|w: int|
                0 < w < t.len() && is_sign(t[w]) && is_real(t.subrange(0, w)) && (w == t.len() - 1
                    || is_ureal(t.subrange(w + 1, t.len() as int)));
            if w < dd {
                let u = t.subrange(w + 1, t.len() as int);
                assert(u[dd - w - 1] == t[dd]);
                assert(is_sign(u[dd - w - 1]));
                lemma_ureal_has_no_sign(u, dd - w - 1);
            }
            assert(t[w] == cs@[a + w]);
            assert(w == dd);
        }
    }
    r
}

/// Digits in a slice are digits of the whole.
proof fn lemma_digits_shift(s: Seq<char>, a: int, b: int, x: int, y: int)
    requires
        0 <= a <= b <= s.len(),
        0 <= x <= y <= b - a,
        digits_in(s.subrange(a, b), x, y),
    ensures
        digits_in(s, a + x, a + y),
{
    assert forall|k: int| a + x <= k < a + y implies is_digit(s[k]) by {
        assert(s.subrange(a, b)[k - a] == s[k]);
    }
}

/// An unsigned real holds no sign.
proof fn lemma_ureal_has_no_sign(u: Seq<char>, k: int)
    requires
        is_ureal(u),
        0 <= k < u.len(),
    ensures
        !is_sign(u[k]),
{
    if is_uinteger(u) {
        assert(is_digit(u[k]));
    } else if is_decimal(u) {
        let w = choose|w: int|
            0 <= w < u.len() && u[w] == '.' && digits_in(u, 0, w) && digits_in(u, w + 1, u.len() as int);
        if k != w {
            assert(is_digit(u[k]));
        }
    } else {
        let w = choose|w: int|
            0 < w < u.len() - 1 && u[w] == '/' && digits_in(u, 0, w) && digits_in(u, w + 1, u.len() as int);
        if k != w {
            assert(is_digit(u[k]));
        }
    }
}

/// Whether `cs[a..b]` holds only subsequent characters from `from` on.
fn subsequents_from(cs: &Vec<char>, from: usize, b: usize) -> (r: bool)
    requires
        from <= b <= cs@.len(),
    ensures
        r == (forall|k: int| from <= k < b ==> is_subsequent(#[trigger] cs@[k])),
{
    let mut k: usize = from;
    while k < b
        invariant
            from <= k <= b <= cs@.len(),
            forall|m: int| from <= m < k ==> is_subsequent(#[trigger] cs@[m]),
        decreases b - k,
    {
        if !is_subsequent_char(cs[k]) {
            return false;
        }
        k = k + 1;
    }
    true
}

/// Whether `cs[a..b]` is an identifier.
fn identifier_at(cs: &Vec<char>, a: usize, b: usize) -> (r: bool)
    requires
        a <= b <= cs@.len(),
    ensures
        r == is_identifier(cs@.subrange(a as int, b as int)),
{
    let ghost s = cs@.subrange(a as int, b as int);
    if a == b {
        return false;
    }
    let n = b - a;
    let r = if is_initial_char(cs[a]) {
        subsequents_from(cs, a + 1, b)
    } else if n == 1 && is_sign_char(cs[a]) {
        true
    } else if n == 3 && cs[a] == '.' && cs[a + 1] == '.' && cs[a + 2] == '.' {
        true
    } else if n >= 2 && is_sign_char(cs[a]) && (is_initial_char(cs[a + 1]) || is_sign_char(cs[a + 1])
        || cs[a + 1] == '@') {
        subsequents_from(cs, a + 2, b)
    } else {
        false
    };
    proof {
        assert forall|k: int| 0 <= k < s.len() implies s[k] == cs@[a + k] by {}
        if n == 3 && cs@[a as int] == '.' && cs@[a + 1] == '.' && cs@[a + 2] == '.' {
            assert(s =~= seq!['.', '.', '.']);
        }
        if s =~= seq!['.', '.', '.'] {
            assert(s[0] == '.' && s[1] == '.' && s[2] == '.');
        }
        if is_initial(s[0]) {
            if forall|k: int| 1 <= k < s.len() ==> is_subsequent(#[trigger] s[k]) {
                assert forall|k: int| a + 1 <= k < b implies is_subsequent(#[trigger] cs@[k]) by {
                    assert(s[k - a] == cs@[k]);
                }
            }
        }
        if n >= 2 && is_sign(s[0]) && (is_initial(s[1]) || is_sign(s[1]) || s[1] == '@') {
            if forall|k: int| 2 <= k < s.len() ==> is_subsequent(#[trigger] s[k]) {
                assert forall|k: int| a + 2 <= k < b implies is_subsequent(#[trigger] cs@[k]) by {
                    assert(s[k - a] == cs@[k]);
                }
            }
        }
    }
    r
}

/// Whether `cs[a..b]` spells the word `w`.
fn spells(cs: &Vec<char>, a: usize, b: usize, w: &[char]) -> (r: bool)
    requires
        a <= b <= cs@.len(),
    ensures
        r == (cs@.subrange(a as int, b as int) =~= w@),
{
    if b - a != w.len() {
        return false;
    }
    let mut k: usize = 0;
    while k < w.len()
        invariant
            b - a == w@.len(),
            a <= b <= cs@.len(),
            k <= w@.len(),
            forall|m: int| 0 <= m < k ==> cs@[a + m] == w@[m],
        decreases w@.len() - k,
    {
        if cs[a + k] != w[k] {
            return false;
        }
        k = k + 1;
    }
    true
}

/// The token of the atom `cs[a..b]`.
fn classify_atom(cs: &Vec<char>, a: usize, b: usize) -> (r: Result<Token, LexerError>)
    requires
        a < b <= cs@.len(),
    ensures
        lexed_view(r) == classify(cs@.subrange(a as int, b as int)),
{
    let ghost s = cs@.subrange(a as int, b as int);
    proof {
        reveal_strlit("");
    }
    if spells(cs, a, b, &['#', 't']) || spells(cs, a, b, &['#', 't', 'r', 'u', 'e']) {
        return Ok(Token::Boolean(true));
    }
    if spells(cs, a, b, &['#', 'f']) || spells(cs, a, b, &['#', 'f', 'a', 'l', 's', 'e']) {
        return Ok(Token::Boolean(false));
    }
    if b - a >= 3 && cs[a] == '#' && cs[a + 1] == '\\' {
        let ghost n = s.subrange(2, s.len() as int);
        assert(n =~= cs@.subrange(a + 2, b as int));
        if b - a == 3 {
            return Ok(Token::Char(cs[a + 2]));
        } else if spells(cs, a + 2, b, &['n', 'e', 'w', 'l', 'i', 'n', 'e']) {
            return Ok(Token::Char('\n'));
        } else if spells(cs, a + 2, b, &['s', 'p', 'a', 'c', 'e']) {
            return Ok(Token::Char(' '));
        } else if spells(cs, a + 2, b, &['t', 'a', 'b']) {
            return Ok(Token::Char('\t'));
        } else {
            return Err(LexerError::LexicalError);
        }
    }
    if number_at(cs, a, b) {
        Ok(Token::Number(text_of(cs, a, b)))
    } else if identifier_at(cs, a, b) {
        Ok(Token::Identifier(text_of(cs, a, b)))
    } else {
        Err(LexerError::LexicalError)
    }
}

/// The body of a string literal starting at `j`, as `string_body` states it.
fn string_literal(cs: &Vec<char>, j: usize) -> (r: Option<(String, usize)>)
    requires
        j <= cs@.len(),
    ensures
        match string_body(cs@, j as int) {
            None => r is None,
            Some((v, n)) => r matches Some((t, m)) && t@ == v && m == n,
        },
        r matches Some((_, m)) ==> j + m <= cs@.len(),
{
    let mut out = String::new();
    let mut k: usize = j;
    while k < cs.len() && cs[k] != '"'
        invariant
            j <= k <= cs@.len(),
            match string_body(cs@, j as int) {
                None => string_body(cs@, k as int) is None,
                Some((v, n)) => string_body(cs@, k as int) matches Some((w, m)) && v == out@ + w && n
                    == (k - j) + m,
            },
        decreases cs@.len() - k,
    {
        if cs[k] == '\\' {
            if k + 1 >= cs.len() {
                return None;
            }
            let e = cs[k + 1];
            let c = if e == 'n' {
                '\n'
            } else if e == 't' {
                '\t'
            } else if e == 'r' {
                '\r'
            } else if e == 'a' {
                '\x07'
            } else if e == 'b' {
                '\x08'
            } else if e == '"' || e == '\\' || e == '|' {
                e
            } else {
                return None;
            };
            assert(escaped(e) == Some(c));
            proof {
                if let Some((w, m)) = string_body(cs@, k + 2) {
                    assert(out@ + (seq![c] + w) =~= out@.push(c) + w);
                }
            }
            push_char(&mut out, c);
            k = k + 2;
        } else {
            let c = cs[k];
            proof {
                if let Some((w, m)) = string_body(cs@, k + 1) {
                    assert(out@ + (seq![c] + w) =~= out@.push(c) + w);
                }
            }
            push_char(&mut out, c);
            k = k + 1;
        }
    }
    if k >= cs.len() {
        return None;
    }
    assert(out@ + Seq::<char>::empty() =~= out@);
    Some((out, k + 1 - j))
}

/// The extent of a string literal from `j`, as `string_extent` states it.
fn string_extent_of(cs: &Vec<char>, j: usize) -> (r: Option<usize>)
    requires
        j <= cs@.len(),
    ensures
        match string_extent(cs@, j as int) {
            None => r is None,
            Some(n) => r matches Some(x) && x as nat == n,
        },
        r matches Some(m) ==> j + m <= cs@.len(),
{
    let mut k: usize = j;
    while k < cs.len() && cs[k] != '"'
        invariant
            j <= k <= cs@.len(),
            string_extent(cs@, j as int) == match string_extent(cs@, k as int) {
                None => None,
                Some(m) => Some(((k - j) + m) as nat),
            },
        decreases cs@.len() - k,
    {
        if cs[k] == '\\' {
            if k + 1 >= cs.len() {
                return None;
            }
            k = k + 2;
        } else {
            k = k + 1;
        }
    }
    if k >= cs.len() {
        return None;
    }
    Some(k + 1 - j)
}

proof fn lemma_lex_string_error(s: Seq<char>, i: int, m: nat)
    requires
        0 <= i < s.len(),
        s[i] == '"',
        string_body(s, i + 1) is None,
        string_extent(s, i + 1) == Some(m),
    ensures
        lex_from(s, i) == seq![Err::<TokenV, LexerError>(LexerError::LexicalError)] + lex_from(s, i + 1 + m),
{
}

/// The tokens of `text`.
#[verifier::rlimit(60)]
pub fn tokenize(text: &str) -> (r: Vec<Result<Token, LexerError>>)
    ensures
        lexed_seq_view(r@) == lex(text@),
{
    let cs = chars_of(text);
    let n = cs.len();
    let mut out: Vec<Result<Token, LexerError>> = Vec::new();
    let mut i: usize = 0;
    while i < n
        invariant
            n == cs@.len(),
            cs@ == text@,
            i <= n,
            lex(cs@) == lexed_seq_view(out@) + lex_from(cs@, i as int),
        decreases n - i,
    {
        let ghost before = out@;
        let c = cs[i];
        if c == ' ' || c == '\t' || c == '\n' || c == '\r' {
            i = i + 1;
        } else if c == ';' {
            let m = line_rest_length(&cs, i + 1);
            i = i + 1 + m;
        } else if c == '(' || c == ')' || c == '\'' {
            let t = if c == '(' {
                Token::ParenLeft
            } else if c == ')' {
                Token::ParenRight
            } else {
                Token::Quote
            };
            out.push(Ok(t));
            i = i + 1;
        } else if c == '"' {
            match string_literal(&cs, i + 1) {
                None => {
                    out.push(Err(LexerError::LexicalError));
                    assert(lexed_seq_view(out@) =~= lexed_seq_view(before).push(Err(LexerError::LexicalError)));
                    match string_extent_of(&cs, i + 1) {
                        None => {
                            assert(lex(cs@) =~= lexed_seq_view(out@));
                            return out;
                        },
                        Some(m) => {
                            proof {
                                lemma_lex_string_error(cs@, i as int, m as nat);
                            }
                            i = i + 1 + m;
                        },
                    }
                },
                Some((v, m)) => {
                    out.push(Ok(Token::String(v)));
                    i = i + 1 + m;
                },
            }
        } else if c == '#' && i + 1 < n && cs[i + 1] == '(' {
            out.push(Ok(Token::HashOpen));
            i = i + 2;
        } else if c == '#' && n - i > 3 && cs[i + 1] == 'u' && cs[i + 2] == '8' && cs[i + 3] == '(' {
            out.push(Ok(Token::HashU8Open));
            i = i + 4;
        } else if c == '#' && n - i > 2 && cs[i + 1] == '\\' {
            let e = i + 3 + atom_length(&cs, i + 3);
            out.push(classify_atom(&cs, i, e));
            i = e;
        } else {
            let e = i + 1 + atom_length(&cs, i + 1);
            out.push(classify_atom(&cs, i, e));
            i = e;
        }
        proof {
            let added = lexed_seq_view(out@).subrange(before.len() as int, out@.len() as int);
            assert(lexed_seq_view(out@) =~= lexed_seq_view(before) + added);
        }
        assert(lex(cs@) =~= lexed_seq_view(out@) + lex_from(cs@, i as int));
    }
    assert(lex_from(cs@, i as int) =~= Seq::empty());
    assert(lexed_seq_view(out@) + Seq::<Result<TokenV, LexerError>>::empty() =~= lexed_seq_view(out@));
    out
}

} // verus!
