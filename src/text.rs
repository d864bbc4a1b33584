//! Text helpers: building strings and reading and writing integers.
use crate::lexer::digits_in;
use vstd::prelude::*;
use vstd::string::{StrSliceExecFns, StringExecFns};

verus! {

/// Relies on `String::push`: appends one character.
#[verifier::external_body]
pub(crate) fn push_char(s: &mut String, c: char)
    ensures
        final(s)@ == old(s)@.push(c),
{
    s.push(c)
}

/// Appends a text.
pub(crate) fn push_text(s: &mut String, t: &str)
    ensures
        final(s)@ == old(s)@ + t@,
{
    s.append(t)
}

/// Whether two texts are equal.
pub fn same_text(a: &str, b: &str) -> (r: bool)
    ensures
        r == (a@ == b@),
{
    let n = a.unicode_len();
    if n != b.unicode_len() {
        return false;
    }
    let mut k: usize = 0;
    while k < n
        invariant
            n == a@.len() == b@.len(),
            k <= n,
            forall|m: int| 0 <= m < k ==> a@[m] == b@[m],
        decreases n - k,
    {
        if a.get_char(k) != b.get_char(k) {
            return false;
        }
        k = k + 1;
    }
    assert(a@ =~= b@);
    true
}

/// The decimal value of a run of digits.
pub open spec fn digits_value(s: Seq<char>) -> nat
    decreases s.len(),
{
    if s.len() == 0 {
        0
    } else {
        digits_value(s.drop_last()) * 10 + (s.last() as nat - '0' as nat) as nat
    }
}

/// The value of an integer written in decimal with an optional sign, when it
/// fits in 64 signed bits.
pub open spec fn i64_value(s: Seq<char>) -> Option<int> {
    let neg = s.len() > 0 && s[0] == '-';
    let d = if s.len() > 0 && (s[0] == '-' || s[0] == '+') {
        s.drop_first()
    } else {
        s
    };
    let v = if neg {
        -digits_value(d)
    } else {
        digits_value(d) as int
    };
    if d.len() > 0 && digits_in(d, 0, d.len() as int) && i64::MIN <= v <= i64::MAX {
        Some(v)
    } else {
        None
    }
}

/// The message with which reading `s` as a 64-bit integer fails.
pub uninterp spec fn int_parse_failure(s: Seq<char>) -> Seq<char>;

/// Relies on `str::parse::<i64>`: an optional sign and decimal digits whose
/// value fits are read; anything else fails with a message that depends on
/// the text alone.
#[verifier::external_body]
pub(crate) fn parse_i64(s: &str) -> (r: Result<i64, String>)
    ensures
        match i64_value(s@) {
            Some(v) => r == Ok::<i64, String>(v as i64),
            None => r matches Err(m) && m@ == int_parse_failure(s@),
        },
{
    s.parse::<i64>().map_err(|e| e.to_string())
}

pub open spec fn digit_char(d: nat) -> char {
    ((d % 10) + '0' as nat) as char
}

/// The decimal digits of `n`, without leading zeros.
pub open spec fn nat_text(n: nat) -> Seq<char>
    decreases n,
{
    if n < 10 {
        seq![digit_char(n)]
    } else {
        nat_text(n / 10).push(digit_char(n % 10))
    }
}

/// The decimal text of `i`, with `-` before a negative value.
pub open spec fn int_text(i: int) -> Seq<char> {
    if i < 0 {
        seq!['-'] + nat_text((-i) as nat)
    } else {
        nat_text(i as nat)
    }
}

/// The character of a decimal digit.
fn digit(d: u64) -> (c: char)
    requires
        d < 10,
    ensures
        c == digit_char(d as nat),
{
    match d {
        0 => '0',
        1 => '1',
        2 => '2',
        3 => '3',
        4 => '4',
        5 => '5',
        6 => '6',
        7 => '7',
        8 => '8',
        _ => '9',
    }
}

/// The decimal text of `v`, as `int_text` states it.
pub(crate) fn i64_text(v: i64) -> (r: String)
    ensures
        r@ == int_text(v as int),
{
    let neg = v < 0;
    let m: u64 = if neg {
        (-(v as i128)) as u64
    } else {
        v as u64
    };
    let ghost mag: nat = m as nat;
    let mut cur: u64 = m;
    let mut rest: Vec<char> = Vec::new();
    assert(nat_text(mag) == nat_text(cur as nat) + rest@);
    while cur >= 10
        invariant
            nat_text(mag) == nat_text(cur as nat) + rest@,
        decreases cur,
    {
        let c = digit(cur % 10);
        let ghost old_rest = rest@;
        rest.insert(0, c);
        assert(nat_text(cur as nat) == nat_text((cur / 10) as nat).push(c));
        assert(nat_text((cur / 10) as nat).push(c) + old_rest =~= nat_text((cur / 10) as nat) + rest@);
        cur = cur / 10;
    }
    let first = digit(cur);
    assert(nat_text(cur as nat) == seq![first]);
    let mut out = String::new();
    if neg {
        push_char(&mut out, '-');
    }
    push_char(&mut out, first);
    let mut i: usize = 0;
    let ghost start = out@;
    while i < rest.len()
        invariant
            i <= rest@.len(),
            out@ == start + rest@.take(i as int),
        decreases rest@.len() - i,
    {
        assert(rest@.take(i + 1) =~= rest@.take(i as int).push(rest@[i as int]));
        push_char(&mut out, rest[i]);
        i = i + 1;
    }
    assert(rest@.take(i as int) =~= rest@);
    assert(out@ =~= int_text(v as int));
    out
}

} // verus!
