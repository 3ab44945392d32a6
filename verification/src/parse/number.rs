//! The syntax of decimal numbers that `str::parse::<f64>` accepts.
//!
//! The standard library documents the accepted strings with a grammar
//! (applied after ASCII lowercasing):
//!
//! ```text
//! Float  ::= Sign? ( 'inf' | 'infinity' | 'nan' | Number )
//! Number ::= ( Digit+ | Digit+ '.' Digit* | Digit* '.' Digit+ ) Exp?
//! Exp    ::= 'e' Sign? Digit+
//! Sign   ::= [+-]
//! Digit  ::= [0-9]
//! ```
//!
//! Only whether a text is a number is decided here; its value is not.

use crate::parse::all_digits;
use crate::text::{char_is_digit, copy_range, eq_str, find_char, index_of, is_digit, lower_seq, lowercase};
use vstd::prelude::*;

verus! {

pub open spec fn is_sign(c: char) -> bool {
    c == '+' || c == '-'
}

/// The text without one leading sign.
pub open spec fn unsigned_part(s: Seq<char>) -> Seq<char> {
    if s.len() > 0 && is_sign(s[0]) {
        s.drop_first()
    } else {
        s
    }
}

/// `Digit+ | Digit+ '.' Digit* | Digit* '.' Digit+`
pub open spec fn is_mantissa(m: Seq<char>) -> bool {
    let d = index_of(m, '.');
    if d < 0 {
        m.len() > 0 && all_digits(m)
    } else {
        let whole = m.take(d);
        let fraction = m.skip(d + 1);
        all_digits(whole) && all_digits(fraction) && (whole.len() > 0 || fraction.len() > 0)
    }
}

/// `Sign? Digit+`, the part after `e`.
pub open spec fn is_exponent(x: Seq<char>) -> bool {
    let y = unsigned_part(x);
    y.len() > 0 && all_digits(y)
}

/// `Number` of the grammar, on lowercased text.
pub open spec fn is_decimal(b: Seq<char>) -> bool {
    let e = index_of(b, 'e');
    if e < 0 {
        is_mantissa(b)
    } else {
        is_mantissa(b.take(e)) && is_exponent(b.skip(e + 1))
    }
}

/// `Float` of the grammar: the texts for which `str::parse::<f64>` succeeds.
pub open spec fn is_float_text(s: Seq<char>) -> bool {
    let body = unsigned_part(lower_seq(s));
    body == "inf"@ || body == "infinity"@ || body == "nan"@ || is_decimal(body)
}

fn digits_only(s: &Vec<char>) -> (r: bool)
    ensures
        r == all_digits(s@),
{
    let mut i: usize = 0;
    while i < s.len()
        invariant
            i <= s.len(),
            forall|j: int| 0 <= j < i ==> is_digit(s@[j]),
        decreases s.len() - i,
    {
        if !char_is_digit(s[i]) {
            assert(!is_digit(s@[i as int]));
            return false;
        }
        i += 1;
    }
    true
}

fn without_sign(s: &Vec<char>) -> (out: Vec<char>)
    ensures
        out@ == unsigned_part(s@),
{
    if s.len() > 0 && (s[0] == '+' || s[0] == '-') {
        let out = copy_range(s, 1, s.len());
        assert(out@ =~= s@.drop_first());
        out
    } else {
        copy_range(s, 0, s.len())
    }
}

fn mantissa_ok(m: &Vec<char>) -> (r: bool)
    ensures
        r == is_mantissa(m@),
{
    match find_char(m, '.') {
        None => m.len() > 0 && digits_only(m),
        Some(d) => {
            let whole = copy_range(m, 0, d);
            let fraction = copy_range(m, d + 1, m.len());
            assert(whole@ =~= m@.take(d as int));
            assert(fraction@ =~= m@.skip(d + 1));
            digits_only(&whole) && digits_only(&fraction) && (whole.len() > 0 || fraction.len()
                > 0)
        },
    }
}

fn decimal_ok(b: &Vec<char>) -> (r: bool)
    ensures
        r == is_decimal(b@),
{
    match find_char(b, 'e') {
        None => mantissa_ok(b),
        Some(e) => {
            let m = copy_range(b, 0, e);
            let x = copy_range(b, e + 1, b.len());
            assert(m@ =~= b@.take(e as int));
            assert(x@ =~= b@.skip(e + 1));
            let y = without_sign(&x);
            mantissa_ok(&m) && y.len() > 0 && digits_only(&y)
        },
    }
}

/// True when `str::parse::<f64>` accepts the text.
pub fn is_float(s: &Vec<char>) -> (r: bool)
    ensures
        r == is_float_text(s@),
{
    let lower = lowercase(s);
    let body = without_sign(&lower);
    eq_str(&body, "inf") || eq_str(&body, "infinity") || eq_str(&body, "nan") || decimal_ok(&body)
}

} // verus!
