use vstd::prelude::*;

verus! {

// The bytes of the ASCII characters that Lox source text is made of.
pub const NUL: u8 = 0;
pub const TAB: u8 = 9;
pub const NEWLINE: u8 = 10;
pub const CARRIAGE_RETURN: u8 = 13;
pub const SPACE: u8 = 32;
pub const BANG: u8 = 33;
pub const QUOTE: u8 = 34;
pub const AMPERSAND: u8 = 38;
pub const LEFT_PAREN: u8 = 40;
pub const RIGHT_PAREN: u8 = 41;
pub const STAR: u8 = 42;
pub const PLUS: u8 = 43;
pub const COMMA: u8 = 44;
pub const MINUS: u8 = 45;
pub const DOT: u8 = 46;
pub const SLASH: u8 = 47;
pub const DIGIT_ZERO: u8 = 48;
pub const DIGIT_NINE: u8 = 57;
pub const COLON: u8 = 58;
pub const SEMICOLON: u8 = 59;
pub const LESS: u8 = 60;
pub const EQUAL: u8 = 61;
pub const GREATER: u8 = 62;
pub const QUESTION: u8 = 63;
pub const UPPER_A: u8 = 65;
pub const UPPER_E: u8 = 69;
pub const UPPER_Z: u8 = 90;
pub const UNDERSCORE: u8 = 95;
pub const LOWER_A: u8 = 97;
pub const LOWER_E: u8 = 101;
pub const LOWER_Z: u8 = 122;
pub const LEFT_BRACE: u8 = 123;
pub const PIPE: u8 = 124;
pub const RIGHT_BRACE: u8 = 125;

/// A decimal digit, `0` to `9`.
pub open spec fn is_digit_byte(c: u8) -> bool {
    DIGIT_ZERO <= c <= DIGIT_NINE
}

/// A letter of the Latin alphabet, either case, or an underscore.
pub open spec fn is_alpha_byte(c: u8) -> bool {
    (LOWER_A <= c <= LOWER_Z) || (UPPER_A <= c <= UPPER_Z) || c == UNDERSCORE
}

/// A digit, a letter or an underscore.
pub open spec fn is_alpha_numeric_byte(c: u8) -> bool {
    is_digit_byte(c) || is_alpha_byte(c)
}

/// A byte that encodes a character by itself in UTF-8.
pub open spec fn is_ascii_byte(c: u8) -> bool {
    c <= 0x7f
}

pub fn is_digit(c: u8) -> (r: bool)
    ensures
        r == is_digit_byte(c),
{
    DIGIT_ZERO <= c && c <= DIGIT_NINE
}

pub fn is_alpha(c: u8) -> (r: bool)
    ensures
        r == is_alpha_byte(c),
{
    (LOWER_A <= c && c <= LOWER_Z) || (UPPER_A <= c && c <= UPPER_Z) || c == UNDERSCORE
}

pub fn is_alpha_numeric(c: u8) -> (r: bool)
    ensures
        r == is_alpha_numeric_byte(c),
{
    is_digit(c) || is_alpha(c)
}

/// Whether `b[start..end]` holds exactly the bytes of `word`.
pub fn bytes_equal(b: &[u8], start: usize, end: usize, word: &[u8]) -> (r: bool)
    requires
        start <= end <= b@.len(),
    ensures
        r == (b@.subrange(start as int, end as int) == word@),
{
    if end - start != word.len() {
        return false;
    }
    let mut i: usize = 0;
    while i < word.len()
        invariant
            0 <= i <= word.len(),
            start <= end <= b@.len(),
            end - start == word.len(),
            forall|j: int| 0 <= j < i ==> b@[start + j] == word@[j],
        decreases word.len() - i,
    {
        if b[start + i] != word[i] {
            assert(b@.subrange(start as int, end as int)[i as int] != word@[i as int]);
            return false;
        }
        i += 1;
    }
    assert(b@.subrange(start as int, end as int) =~= word@);
    true
}

} // verus!
