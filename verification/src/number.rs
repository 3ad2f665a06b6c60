use vstd::prelude::*;
use vstd::string::StringSliceAdditionalSpecFns;
use vstd::utf8::encode_utf8;

use crate::ascii::{is_digit, is_digit_byte, DOT, LOWER_E, MINUS, PLUS, UPPER_A, UPPER_E, UPPER_Z};
use crate::lexer::{lemma_span_end_bounds, span_end, ByteClass};

verus! {

broadcast use vstd::seq::group_seq_axioms;

// The text of a number literal is accepted when it reads as a decimal
// floating-point number. These are the strings that the grammar below
// describes once they are lowercased:
//
//     Float  ::= Sign? ( 'inf' | 'infinity' | 'nan' | Number )
//     Number ::= ( Digit+ | Digit+ '.' Digit* | Digit* '.' Digit+ ) Exp?
//     Exp    ::= 'e' Sign? Digit+
//     Sign   ::= [+-]
//     Digit  ::= [0-9]

/// A byte with an ASCII capital letter turned into its small letter.
pub open spec fn ascii_lower(c: u8) -> u8 {
    if UPPER_A <= c <= UPPER_Z {
        (c + 32) as u8
    } else {
        c
    }
}

pub open spec fn lowered(b: Seq<u8>) -> Seq<u8> {
    b.map_values(|c: u8| ascii_lower(c))
}

pub open spec fn word_inf() -> Seq<u8> {
    seq![105u8, 110u8, 102u8]
}

pub open spec fn word_infinity() -> Seq<u8> {
    seq![105u8, 110u8, 102u8, 105u8, 110u8, 105u8, 116u8, 121u8]
}

pub open spec fn word_nan() -> Seq<u8> {
    seq![110u8, 97u8, 110u8]
}

pub open spec fn is_sign(c: u8) -> bool {
    c == PLUS || c == MINUS
}

/// Where the text after an optional sign at `i` starts.
pub open spec fn after_sign(b: Seq<u8>, i: int) -> int {
    if 0 <= i < b.len() && is_sign(b[i]) {
        i + 1
    } else {
        i
    }
}

/// `b[i..]` is an exponent after its `e`: an optional sign, then digits to
/// the end.
pub open spec fn is_exponent_from(b: Seq<u8>, i: int) -> bool {
    let s = after_sign(b, i);
    s < b.len() && span_end(b, s, ByteClass::Digit) == b.len()
}

/// `b[s..]` is a `Number` of the grammar.
pub open spec fn is_decimal_from(b: Seq<u8>, s: int) -> bool {
    let int_end = span_end(b, s, ByteClass::Digit);
    let has_dot = int_end < b.len() && b[int_end] == DOT;
    let frac_end = if has_dot {
        span_end(b, int_end + 1, ByteClass::Digit)
    } else {
        int_end
    };
    let digits = if has_dot {
        (int_end - s) + (frac_end - (int_end + 1))
    } else {
        int_end - s
    };
    &&& digits > 0
    &&& (frac_end == b.len() || ((b[frac_end] == LOWER_E || b[frac_end] == UPPER_E)
        && is_exponent_from(b, frac_end + 1)))
}

/// The bytes `b` read as a decimal floating-point number.
pub open spec fn is_float_syntax(b: Seq<u8>) -> bool {
    let s = after_sign(b, 0);
    let word = lowered(b.subrange(s, b.len() as int));
    ||| word == word_inf()
    ||| word == word_infinity()
    ||| word == word_nan()
    ||| is_decimal_from(b, s)
}

/// The text reads as a decimal floating-point number.
pub open spec fn is_float_text(text: Seq<char>) -> bool {
    is_float_syntax(encode_utf8(text))
}

fn to_lower(c: u8) -> (r: u8)
    ensures
        r == ascii_lower(c),
{
    if UPPER_A <= c && c <= UPPER_Z {
        c + 32
    } else {
        c
    }
}

/// Whether `b[start..]`, lowercased, is `word`.
fn lowered_equals(b: &[u8], start: usize, word: &[u8]) -> (r: bool)
    requires
        start <= b@.len(),
    ensures
        r == (lowered(b@.subrange(start as int, b@.len() as int)) == word@),
{
    let ghost rest = b@.subrange(start as int, b@.len() as int);
    if b.len() - start != word.len() {
        assert(lowered(rest).len() == rest.len());
        return false;
    }
    let mut i: usize = 0;
    while i < word.len()
        invariant
            0 <= i <= word.len(),
            start <= b@.len(),
            b@.len() - start == word@.len(),
            start + word.len() == b.len(),
            rest == b@.subrange(start as int, b@.len() as int),
            forall|j: int| 0 <= j < i ==> ascii_lower(b@[start + j]) == word@[j],
        decreases word.len() - i,
    {
        if to_lower(b[start + i]) != word[i] {
            assert(lowered(rest)[i as int] != word@[i as int]);
            return false;
        }
        i += 1;
    }
    assert(lowered(rest) =~= word@);
    true
}

/// The first index at or after `i` that does not hold a digit.
fn skip_digits(b: &[u8], i: usize) -> (r: usize)
    requires
        i <= b@.len(),
    ensures
        r == span_end(b@, i as int, ByteClass::Digit),
{
    let mut j = i;
    while j < b.len() && is_digit(b[j])
        invariant
            i <= j <= b@.len(),
            span_end(b@, i as int, ByteClass::Digit) == span_end(b@, j as int, ByteClass::Digit),
        decreases b@.len() - j,
    {
        j += 1;
    }
    j
}

/// Whether the text reads as a decimal floating-point number.
pub fn is_float_literal(text: &String) -> (r: bool)
    ensures
        r == is_float_text(text@),
{
    let b = text.as_str().as_bytes();
    let n = b.len();
    let s: usize = if n > 0 && (b[0] == PLUS || b[0] == MINUS) {
        1
    } else {
        0
    };
    if lowered_equals(b, s, &[105u8, 110u8, 102u8]) || lowered_equals(
        b,
        s,
        &[105u8, 110u8, 102u8, 105u8, 110u8, 105u8, 116u8, 121u8],
    ) || lowered_equals(b, s, &[110u8, 97u8, 110u8]) {
        return true;
    }
    let int_end = skip_digits(b, s);
    proof {
        lemma_span_end_bounds(b@, s as int, ByteClass::Digit);
    }
    let has_dot = int_end < n && b[int_end] == DOT;
    let frac_end = if has_dot {
        skip_digits(b, int_end + 1)
    } else {
        int_end
    };
    proof {
        if has_dot {
            lemma_span_end_bounds(b@, int_end + 1, ByteClass::Digit);
        }
    }
    let digits = if has_dot {
        (int_end - s) + (frac_end - (int_end + 1))
    } else {
        int_end - s
    };
    if digits == 0 {
        return false;
    }
    if frac_end == n {
        return true;
    }
    if b[frac_end] != LOWER_E && b[frac_end] != UPPER_E {
        return false;
    }
    let e = frac_end + 1;
    let t: usize = if e < n && (b[e] == PLUS || b[e] == MINUS) {
        e + 1
    } else {
        e
    };
    if t >= n {
        return false;
    }
    skip_digits(b, t) == n
}

} // verus!
