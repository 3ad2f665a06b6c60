use vstd::prelude::*;

use crate::ascii::{
    is_alpha_byte, is_alpha_numeric_byte, is_digit_byte, AMPERSAND, BANG, COLON, COMMA, DOT, EQUAL,
    GREATER, LEFT_BRACE, LEFT_PAREN, LESS, MINUS, NEWLINE, PIPE, PLUS, QUESTION, RIGHT_BRACE,
    RIGHT_PAREN, SEMICOLON, SPACE, STAR,
};
use crate::lexer::{
    block_comment_end, in_class, lemma_scan_bounds,
    lemma_span_end_bounds, lex_from, lexed_errors, lexed_tokens, scan, span_end,
    ByteClass, LexErrorKind, LexErrorSpec, Scanned,
};

verus! {

broadcast use vstd::seq::group_seq_axioms;

// Lexing reads forward only, and a token stops at a byte that none of its
// rules continues with: so a stray byte in the source costs exactly one error
// at its place and changes no token.

/// Letters, digits, `_`, space, newline and the punctuation that lexes to a
/// token by itself (no `"`, which opens a string, and no `/`, which may open
/// a comment).
pub open spec fn plain_byte(x: u8) -> bool {
    ||| is_alpha_numeric_byte(x)
    ||| x == SPACE
    ||| x == NEWLINE
    ||| x == LEFT_PAREN
    ||| x == RIGHT_PAREN
    ||| x == LEFT_BRACE
    ||| x == RIGHT_BRACE
    ||| x == COMMA
    ||| x == DOT
    ||| x == MINUS
    ||| x == PLUS
    ||| x == COLON
    ||| x == SEMICOLON
    ||| x == STAR
    ||| x == QUESTION
    ||| x == BANG
    ||| x == EQUAL
    ||| x == LESS
    ||| x == GREATER
    ||| x == AMPERSAND
    ||| x == PIPE
}

/// A byte that no token starts with: `^`, `@`, `#`, `$`, `%`, `~`, `[`, `]`.
pub open spec fn stray_byte(c: u8) -> bool {
    c == 94 || c == 64 || c == 35 || c == 36 || c == 37 || c == 126 || c == 91 || c == 93
}

/// Two byte sequences of one length that agree from `p` on.
pub open spec fn agree_from(b1: Seq<u8>, b2: Seq<u8>, p: int) -> bool {
    &&& b1.len() == b2.len()
    &&& forall|j: int| p <= j < b1.len() ==> b1[j] == b2[j]
}

proof fn lemma_span_end_suffix(b1: Seq<u8>, b2: Seq<u8>, i: int, class: ByteClass)
    requires
        0 <= i,
        agree_from(b1, b2, i),
    ensures
        span_end(b1, i, class) == span_end(b2, i, class),
    decreases b1.len() - i,
{
    if i < b1.len() && in_class(class, b1[i]) {
        lemma_span_end_suffix(b1, b2, i + 1, class);
    }
}

proof fn lemma_block_comment_end_suffix(b1: Seq<u8>, b2: Seq<u8>, i: int, level: nat)
    requires
        0 <= i,
        agree_from(b1, b2, i),
    ensures
        block_comment_end(b1, i, level) == block_comment_end(b2, i, level),
    decreases b1.len() - i,
{
    if i >= b1.len() || level == 0 {
    } else if b1[i] == crate::ascii::SLASH && i + 1 < b1.len() && b1[i + 1] == STAR {
        lemma_block_comment_end_suffix(b1, b2, i + 2, level + 1);
    } else if b1[i] == STAR && i + 1 < b1.len() && b1[i + 1] == crate::ascii::SLASH {
        lemma_block_comment_end_suffix(b1, b2, i + 2, (level - 1) as nat);
    } else {
        lemma_block_comment_end_suffix(b1, b2, i + 1, level);
    }
}

/// What the piece at `p` is depends only on the bytes from `p` on.
proof fn lemma_scan_suffix(b1: Seq<u8>, b2: Seq<u8>, p: int)
    requires
        0 <= p < b1.len(),
        agree_from(b1, b2, p),
    ensures
        scan(b1, p) == scan(b2, p),
{
    let next = p + 1;
    lemma_span_end_suffix(b1, b2, next, ByteClass::NotQuote);
    lemma_span_end_suffix(b1, b2, next, ByteClass::Digit);
    lemma_span_end_suffix(b1, b2, next, ByteClass::AlphaNumeric);
    lemma_span_end_bounds(b1, next, ByteClass::AlphaNumeric);
    lemma_span_end_bounds(b1, next, ByteClass::Digit);
    let end = span_end(b1, next, ByteClass::AlphaNumeric);
    assert(b1.subrange(p, end) =~= b2.subrange(p, end));
    if next < b1.len() {
        lemma_span_end_suffix(b1, b2, next + 1, ByteClass::NotNewline);
        lemma_block_comment_end_suffix(b1, b2, next + 1, 1);
    }
    let whole = span_end(b1, next, ByteClass::Digit);
    if whole + 1 < b1.len() {
        lemma_span_end_suffix(b1, b2, whole + 1, ByteClass::Digit);
    }
}

/// Lexing from `p` depends only on the bytes from `p` on.
proof fn lemma_lex_from_suffix(b1: Seq<u8>, b2: Seq<u8>, p: int)
    requires
        0 <= p <= b1.len(),
        agree_from(b1, b2, p),
    ensures
        lex_from(b1, p) == lex_from(b2, p),
    decreases b1.len() - p,
{
    if p < b1.len() {
        lemma_scan_suffix(b1, b2, p);
        lemma_scan_bounds(b1, p);
        let end = scan(b1, p).0;
        lemma_lex_from_suffix(b1, b2, end);
        assert(b1.subrange(p, end) =~= b2.subrange(p, end));
    }
}

/// From `i` up to `k`, where the two sequences agree, both spans of a class
/// end at the same place, at `k` at the latest when neither byte at `k` is in
/// the class.
proof fn lemma_span_end_upto(x: Seq<u8>, y: Seq<u8>, i: int, k: int, class: ByteClass)
    requires
        0 <= i <= k < x.len(),
        x.len() == y.len(),
        forall|j: int| i <= j < k ==> x[j] == y[j],
        !in_class(class, x[k]),
        !in_class(class, y[k]),
    ensures
        span_end(x, i, class) == span_end(y, i, class),
        span_end(x, i, class) <= k,
    decreases k - i,
{
    if i < k && in_class(class, x[i]) {
        lemma_span_end_upto(x, y, i + 1, k, class);
    }
}

/// Before `k`, where the sources agree and hold plain bytes, and where the
/// bytes at `k` are a stray byte or a space, both read the same piece, which
/// ends by `k` and is no error.
proof fn lemma_scan_before(x: Seq<u8>, y: Seq<u8>, k: int, p: int)
    requires
        0 <= p < k < x.len(),
        x.len() == y.len(),
        forall|j: int| 0 <= j < k ==> x[j] == y[j] && plain_byte(x[j]),
        stray_byte(x[k]),
        y[k] == SPACE,
    ensures
        scan(x, p) == scan(y, p),
        scan(x, p).0 <= k,
        !(scan(x, p).1 is Fail),
{
    let next = p + 1;
    if is_digit_byte(x[p]) {
        lemma_span_end_upto(x, y, next, k, ByteClass::Digit);
        lemma_span_end_bounds(x, next, ByteClass::Digit);
        let whole = span_end(x, next, ByteClass::Digit);
        if whole < k && x[whole] == DOT && whole + 1 < k && is_digit_byte(x[whole + 1]) {
            lemma_span_end_upto(x, y, whole + 1, k, ByteClass::Digit);
        }
    } else if is_alpha_byte(x[p]) {
        lemma_span_end_upto(x, y, next, k, ByteClass::AlphaNumeric);
        lemma_span_end_bounds(x, next, ByteClass::AlphaNumeric);
        let end = span_end(x, next, ByteClass::AlphaNumeric);
        assert(x.subrange(p, end) =~= y.subrange(p, end));
    }
}

proof fn lemma_lex_from_before(x: Seq<u8>, y: Seq<u8>, k: int, p: int)
    requires
        0 <= p <= k < x.len(),
        x.len() == y.len(),
        forall|j: int| 0 <= j < k ==> x[j] == y[j] && plain_byte(x[j]),
        agree_from(x, y, k + 1),
        stray_byte(x[k]),
        y[k] == SPACE,
    ensures
        lex_from(x, p).0 == lex_from(y, p).0,
        lex_from(x, p).1 == seq![
            LexErrorSpec { kind: LexErrorKind::UnknownToken, offset: k, length: 1 },
        ] + lex_from(y, p).1,
    decreases k - p,
{
    if p == k {
        lemma_lex_from_suffix(x, y, k + 1);
        assert(scan(x, k) == (k + 1, Scanned::Fail(LexErrorKind::UnknownToken)));
        assert(scan(y, k) == (k + 1, Scanned::Skip));
    } else {
        lemma_scan_before(x, y, k, p);
        lemma_scan_bounds(x, p);
        let end = scan(x, p).0;
        lemma_lex_from_before(x, y, k, end);
        assert(x.subrange(p, end) =~= y.subrange(p, end));
    }
}

/// Plain bytes lex without an error.
proof fn lemma_plain_no_errors(b: Seq<u8>, p: int)
    requires
        0 <= p <= b.len(),
        forall|j: int| p <= j < b.len() ==> plain_byte(b[j]),
    ensures
        lex_from(b, p).1 == Seq::<LexErrorSpec>::empty(),
    decreases b.len() - p,
{
    if p < b.len() {
        lemma_scan_bounds(b, p);
        let end = scan(b, p).0;
        assert(plain_byte(b[p]));
        lemma_plain_no_errors(b, end);
    }
}

/// A stray byte between plain text costs exactly one "unknown token" error at
/// its place, one byte long, and changes no token: the source lexes to the
/// same tokens as with a space there, which lexes without an error.
pub proof fn lemma_stray_byte_is_one_error(a: Seq<u8>, c: u8, rest: Seq<u8>)
    requires
        forall|j: int| 0 <= j < a.len() ==> plain_byte(#[trigger] a[j]),
        forall|j: int| 0 <= j < rest.len() ==> plain_byte(#[trigger] rest[j]),
        stray_byte(c),
    ensures
        lexed_tokens(a + seq![c] + rest, 0) == lexed_tokens(a + seq![SPACE] + rest, 0),
        lexed_errors(a + seq![SPACE] + rest, 0) == Seq::<LexErrorSpec>::empty(),
        lexed_errors(a + seq![c] + rest, 0) == seq![
            LexErrorSpec { kind: LexErrorKind::UnknownToken, offset: a.len() as int, length: 1 },
        ],
{
    let x = a + seq![c] + rest;
    let y = a + seq![SPACE] + rest;
    let k = a.len() as int;
    assert forall|j: int| 0 <= j < k implies x[j] == y[j] && plain_byte(x[j]) by {
        assert(x[j] == a[j] && y[j] == a[j]);
    }
    assert forall|j: int| k + 1 <= j < x.len() implies x[j] == y[j] by {
        assert(x[j] == rest[j - k - 1] && y[j] == rest[j - k - 1]);
    }
    assert forall|j: int| 0 <= j < y.len() implies plain_byte(y[j]) by {
        if j < k {
            assert(y[j] == a[j]);
        } else if j > k {
            assert(y[j] == rest[j - k - 1]);
        }
    }
    lemma_lex_from_before(x, y, k, 0);
    lemma_plain_no_errors(y, 0);
}

} // verus!
