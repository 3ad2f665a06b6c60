use vstd::prelude::*;
use vstd::string::StringSliceAdditionalSpecFns;
use vstd::utf8::*;

use crate::ascii::{
    bytes_equal, is_alpha, is_alpha_byte, is_alpha_numeric, is_alpha_numeric_byte, is_ascii_byte,
    is_digit, is_digit_byte, AMPERSAND, BANG, CARRIAGE_RETURN, COLON, COMMA, DOT, EQUAL, GREATER,
    LEFT_BRACE, LEFT_PAREN, LESS, MINUS, NEWLINE, NUL, PIPE, PLUS, QUESTION, QUOTE, RIGHT_BRACE,
    RIGHT_PAREN, SEMICOLON, SLASH, SPACE, STAR, TAB,
};
use crate::error::LoxError;
use crate::token::{Token, TokenType};

verus! {

broadcast use vstd::seq::group_seq_axioms;

// ---------------------------------------------------------------------------
// The model of lexing: the source is the sequence of its UTF-8 bytes, and the
// lexer reads it from left to right, one token (or skipped piece, or error) at
// a time, always taking the longest piece that the rules allow.
// ---------------------------------------------------------------------------

/// A class of bytes that a token or comment runs over.
pub enum ByteClass {
    Digit,
    AlphaNumeric,
    NotNewline,
    NotQuote,
}

pub open spec fn in_class(class: ByteClass, c: u8) -> bool {
    match class {
        ByteClass::Digit => is_digit_byte(c),
        ByteClass::AlphaNumeric => is_alpha_numeric_byte(c),
        ByteClass::NotNewline => c != NEWLINE,
        ByteClass::NotQuote => c != QUOTE,
    }
}

/// The first index at or after `i` whose byte is not in `class`, or the end
/// of `b` if every byte from `i` on is in it.
pub open spec fn span_end(b: Seq<u8>, i: int, class: ByteClass) -> int
    decreases b.len() - i,
{
    if 0 <= i < b.len() && in_class(class, b[i]) {
        span_end(b, i + 1, class)
    } else {
        i
    }
}

/// Where a block comment ends, reading from `i` with `level` comments still
/// open: `/*` opens one more, `*/` closes one, and reading stops once none is
/// open or the source ends.
pub open spec fn block_comment_end(b: Seq<u8>, i: int, level: nat) -> int
    decreases b.len() - i,
{
    if i < 0 || i >= b.len() || level == 0 {
        i
    } else if b[i] == SLASH && i + 1 < b.len() && b[i + 1] == STAR {
        block_comment_end(b, i + 2, level + 1)
    } else if b[i] == STAR && i + 1 < b.len() && b[i + 1] == SLASH {
        block_comment_end(b, i + 2, (level - 1) as nat)
    } else {
        block_comment_end(b, i + 1, level)
    }
}

/// The keyword that a word spells, if it spells one.
pub open spec fn keyword_type(w: Seq<u8>) -> Option<TokenType> {
    if w == seq![105u8, 109u8, 112u8, 111u8, 114u8, 116u8] {  // import
        Some(TokenType::Import)
    } else if w == seq![99u8, 108u8, 97u8, 115u8, 115u8] {  // class
        Some(TokenType::Class)
    } else if w == seq![101u8, 108u8, 115u8, 101u8] {  // else
        Some(TokenType::Else)
    } else if w == seq![102u8, 97u8, 108u8, 115u8, 101u8] {  // false
        Some(TokenType::False)
    } else if w == seq![102u8, 111u8, 114u8] {  // for
        Some(TokenType::For)
    } else if w == seq![102u8, 117u8, 110u8, 99u8] {  // func
        Some(TokenType::Func)
    } else if w == seq![105u8, 102u8] {  // if
        Some(TokenType::If)
    } else if w == seq![110u8, 117u8, 108u8, 108u8] {  // null
        Some(TokenType::Null)
    } else if w == seq![110u8, 105u8, 108u8] {  // nil
        Some(TokenType::Null)
    } else if w == seq![114u8, 101u8, 116u8, 117u8, 114u8, 110u8] {  // return
        Some(TokenType::Return)
    } else if w == seq![115u8, 117u8, 112u8, 101u8, 114u8] {  // super
        Some(TokenType::Super)
    } else if w == seq![116u8, 104u8, 105u8, 115u8] {  // this
        Some(TokenType::This)
    } else if w == seq![116u8, 114u8, 117u8, 101u8] {  // true
        Some(TokenType::True)
    } else if w == seq![118u8, 97u8, 114u8] {  // var
        Some(TokenType::Var)
    } else if w == seq![112u8, 114u8, 105u8, 110u8, 116u8] {  // print
        Some(TokenType::Print)
    } else {
        None
    }
}

/// The two errors that lexing reports.
pub enum LexErrorKind {
    UnknownToken,
    UnterminatedString,
}

/// The message that goes with each lexing error.
pub open spec fn lex_error_message(kind: LexErrorKind) -> Seq<char> {
    match kind {
        LexErrorKind::UnknownToken => "unknown token"@,
        LexErrorKind::UnterminatedString => "unterminated string"@,
    }
}

/// What the piece of source that starts at some position turns out to be.
pub enum Scanned {
    /// Whitespace or a comment.
    Skip,
    /// A token of the given kind.
    Emit(TokenType),
    /// An error.
    Fail(LexErrorKind),
}

/// A one-byte token that becomes a two-byte token when `second` follows it.
pub open spec fn one_or_two(
    b: Seq<u8>,
    start: int,
    second: u8,
    two: TokenType,
    one: TokenType,
) -> (int, Scanned) {
    if start + 1 < b.len() && b[start + 1] == second {
        (start + 2, Scanned::Emit(two))
    } else {
        (start + 1, Scanned::Emit(one))
    }
}

/// The piece of source that starts at `start`: where it ends, and what it is.
pub open spec fn scan(b: Seq<u8>, start: int) -> (int, Scanned)
    recommends
        0 <= start < b.len(),
{
    let c = b[start];
    let next = start + 1;
    if c == LEFT_PAREN {
        (next, Scanned::Emit(TokenType::LParen))
    } else if c == RIGHT_PAREN {
        (next, Scanned::Emit(TokenType::RParen))
    } else if c == LEFT_BRACE {
        (next, Scanned::Emit(TokenType::LBrace))
    } else if c == RIGHT_BRACE {
        (next, Scanned::Emit(TokenType::RBrace))
    } else if c == COMMA {
        (next, Scanned::Emit(TokenType::Comma))
    } else if c == DOT {
        (next, Scanned::Emit(TokenType::Dot))
    } else if c == MINUS {
        (next, Scanned::Emit(TokenType::Minus))
    } else if c == PLUS {
        (next, Scanned::Emit(TokenType::Plus))
    } else if c == COLON {
        (next, Scanned::Emit(TokenType::Colon))
    } else if c == SEMICOLON {
        (next, Scanned::Emit(TokenType::SemiColon))
    } else if c == STAR {
        (next, Scanned::Emit(TokenType::Star))
    } else if c == QUESTION {
        (next, Scanned::Emit(TokenType::Question))
    } else if c == BANG {
        one_or_two(b, start, EQUAL, TokenType::BangEqual, TokenType::Bang)
    } else if c == EQUAL {
        one_or_two(b, start, EQUAL, TokenType::EqualEqual, TokenType::Equal)
    } else if c == LESS {
        one_or_two(b, start, EQUAL, TokenType::LessEqual, TokenType::Less)
    } else if c == GREATER {
        one_or_two(b, start, EQUAL, TokenType::GreaterEqual, TokenType::Greater)
    } else if c == AMPERSAND {
        one_or_two(b, start, AMPERSAND, TokenType::AmpAmp, TokenType::Amp)
    } else if c == PIPE {
        one_or_two(b, start, PIPE, TokenType::PipePipe, TokenType::Pipe)
    } else if c == SLASH {
        if next < b.len() && b[next] == SLASH {
            (span_end(b, next + 1, ByteClass::NotNewline), Scanned::Skip)
        } else if next < b.len() && b[next] == STAR {
            (block_comment_end(b, next + 1, 1), Scanned::Skip)
        } else {
            (next, Scanned::Emit(TokenType::Slash))
        }
    } else if c == QUOTE {
        let close = span_end(b, next, ByteClass::NotQuote);
        if close < b.len() {
            (close + 1, Scanned::Emit(TokenType::String))
        } else {
            (close, Scanned::Fail(LexErrorKind::UnterminatedString))
        }
    } else if is_digit_byte(c) {
        let whole = span_end(b, next, ByteClass::Digit);
        if whole + 1 < b.len() && b[whole] == DOT && is_digit_byte(b[whole + 1]) {
            (span_end(b, whole + 1, ByteClass::Digit), Scanned::Emit(TokenType::Number))
        } else {
            (whole, Scanned::Emit(TokenType::Number))
        }
    } else if is_alpha_byte(c) {
        let end = span_end(b, next, ByteClass::AlphaNumeric);
        match keyword_type(b.subrange(start, end)) {
            Some(keyword) => (end, Scanned::Emit(keyword)),
            None => (end, Scanned::Emit(TokenType::Identifier)),
        }
    } else if c == SPACE || c == TAB || c == CARRIAGE_RETURN || c == NEWLINE {
        (next, Scanned::Skip)
    } else {
        (next, Scanned::Fail(LexErrorKind::UnknownToken))
    }
}

/// A token as the model of lexing describes it.
pub struct TokenSpec {
    pub kind: TokenType,
    pub offset: int,
    pub length: int,
    pub text: Seq<char>,
}

/// A lexing error as the model describes it.
pub struct LexErrorSpec {
    pub kind: LexErrorKind,
    pub offset: int,
    pub length: int,
}

/// The token of kind `kind` that spans `b[start..end]`.
pub open spec fn token_spec(b: Seq<u8>, kind: TokenType, start: int, end: int) -> TokenSpec {
    TokenSpec {
        kind,
        offset: start,
        length: end - start,
        text: decode_utf8(b.subrange(start, end)),
    }
}

/// The token that ends every token list.
pub open spec fn eof_spec(b: Seq<u8>) -> TokenSpec {
    TokenSpec { kind: TokenType::Eof, offset: b.len() as int, length: 0, text: "<Eof>"@ }
}

/// The tokens and errors that lexing `b` from `pos` to its end yields, in order.
pub open spec fn lex_from(b: Seq<u8>, pos: int) -> (Seq<TokenSpec>, Seq<LexErrorSpec>)
    decreases b.len() - pos,
{
    if 0 <= pos < b.len() {
        let (end, scanned) = scan(b, pos);
        proof {
            lemma_scan_bounds(b, pos);
        }
        let (tokens, errors) = lex_from(b, end);
        match scanned {
            Scanned::Skip => (tokens, errors),
            Scanned::Emit(kind) => (seq![token_spec(b, kind, pos, end)] + tokens, errors),
            Scanned::Fail(kind) => (
                tokens,
                seq![LexErrorSpec { kind, offset: pos, length: end - pos }] + errors,
            ),
        }
    } else {
        (seq![], seq![])
    }
}

/// The full token list that lexing `b` from `pos` yields: the tokens found,
/// then the end-of-input token.
pub open spec fn lexed_tokens(b: Seq<u8>, pos: int) -> Seq<TokenSpec> {
    lex_from(b, pos).0.push(eof_spec(b))
}

/// The errors that lexing `b` from `pos` reports.
pub open spec fn lexed_errors(b: Seq<u8>, pos: int) -> Seq<LexErrorSpec> {
    lex_from(b, pos).1
}

/// A token carries what the model says of it.
pub open spec fn token_matches(t: Token, s: TokenSpec) -> bool {
    &&& t.token_type == s.kind
    &&& t.offset == s.offset
    &&& t.length == s.length
    &&& t.lexeme@ == s.text
}

/// An error carries what the model says of it.
pub open spec fn error_matches(e: LoxError, s: LexErrorSpec) -> bool {
    match e {
        LoxError::Lex { message, offset, length } => {
            &&& message@ == lex_error_message(s.kind)
            &&& offset == s.offset
            &&& length == s.length
        },
        _ => false,
    }
}

pub open spec fn tokens_match(ts: Seq<Token>, specs: Seq<TokenSpec>) -> bool {
    &&& ts.len() == specs.len()
    &&& forall|i: int| 0 <= i < ts.len() ==> #[trigger] token_matches(ts[i], specs[i])
}

pub open spec fn errors_match(es: Seq<LoxError>, specs: Seq<LexErrorSpec>) -> bool {
    &&& es.len() == specs.len()
    &&& forall|i: int| 0 <= i < es.len() ==> #[trigger] error_matches(es[i], specs[i])
}

// ---------------------------------------------------------------------------
// Facts about the model.
// ---------------------------------------------------------------------------

pub proof fn lemma_span_end_bounds(b: Seq<u8>, i: int, class: ByteClass)
    requires
        0 <= i <= b.len(),
    ensures
        i <= span_end(b, i, class) <= b.len(),
        forall|j: int| i <= j < span_end(b, i, class) ==> in_class(class, #[trigger] b[j]),
        span_end(b, i, class) < b.len() ==> !in_class(class, b[span_end(b, i, class)]),
    decreases b.len() - i,
{
    if 0 <= i < b.len() && in_class(class, b[i]) {
        lemma_span_end_bounds(b, i + 1, class);
    }
}

pub proof fn lemma_block_comment_end_bounds(b: Seq<u8>, i: int, level: nat)
    requires
        0 <= i <= b.len(),
    ensures
        i <= block_comment_end(b, i, level) <= b.len(),
    decreases b.len() - i,
{
    if i < 0 || i >= b.len() || level == 0 {
    } else if b[i] == SLASH && i + 1 < b.len() && b[i + 1] == STAR {
        lemma_block_comment_end_bounds(b, i + 2, level + 1);
    } else if b[i] == STAR && i + 1 < b.len() && b[i + 1] == SLASH {
        lemma_block_comment_end_bounds(b, i + 2, (level - 1) as nat);
    } else {
        lemma_block_comment_end_bounds(b, i + 1, level);
    }
}

/// Every piece of source is at least one byte long and ends within the source.
pub proof fn lemma_scan_bounds(b: Seq<u8>, start: int)
    requires
        0 <= start < b.len(),
    ensures
        start < scan(b, start).0 <= b.len(),
{
    let next = start + 1;
    lemma_span_end_bounds(b, next, ByteClass::NotQuote);
    lemma_span_end_bounds(b, next, ByteClass::Digit);
    lemma_span_end_bounds(b, next, ByteClass::AlphaNumeric);
    if next < b.len() {
        lemma_span_end_bounds(b, next + 1, ByteClass::NotNewline);
        lemma_block_comment_end_bounds(b, next + 1, 1);
    }
    let whole = span_end(b, next, ByteClass::Digit);
    if whole + 1 < b.len() {
        lemma_span_end_bounds(b, whole + 1, ByteClass::Digit);
    }
}

/// In valid UTF-8, the byte after an ASCII byte starts a character.
proof fn lemma_boundary_after_ascii(b: Seq<u8>, i: int)
    requires
        valid_utf8(b),
        0 < i <= b.len(),
        is_ascii_byte(b[i - 1]),
    ensures
        is_char_boundary(b, i),
{
    broadcast use group_utf8_lib;

    if i == b.len() {
        is_char_boundary_start_end_of_seq(b);
    } else {
        is_char_boundary_iff_not_is_continuation_byte(b, i - 1);
        valid_utf8_split(b, i - 1);
        let rest = b.subrange(i - 1, b.len() as int);
        assert(valid_utf8(rest));
        assert(rest[0] == b[i - 1]);
        assert(length_of_first_scalar(rest) == 1);
        assert(pop_first_scalar(rest) =~= b.subrange(i, b.len() as int));
        let tail = b.subrange(i, b.len() as int);
        assert(valid_utf8(tail));
        assert(tail.len() > 0);
        assert(valid_first_scalar(tail));
        assert(tail[0] == b[i]);
        assert(!is_continuation_byte(b[i]));
        is_char_boundary_iff_not_is_continuation_byte(b, i);
    }
}

/// In valid UTF-8, an ASCII byte starts a character.
proof fn lemma_boundary_at_ascii(b: Seq<u8>, i: int)
    requires
        valid_utf8(b),
        0 <= i < b.len(),
        is_ascii_byte(b[i]),
    ensures
        is_char_boundary(b, i),
{
    is_char_boundary_iff_not_is_continuation_byte(b, i);
}

// ---------------------------------------------------------------------------
// The lexer.
// ---------------------------------------------------------------------------

/// The tokens found in a source text, and the errors met on the way.
pub struct LexResult {
    pub tokens: Vec<Token>,
    pub errors: Vec<LoxError>,
}

impl LexResult {
    pub fn has_errors(&self) -> (r: bool)
        ensures
            r == (self.errors@.len() > 0),
    {
        !self.errors.is_empty()
    }
}

/// Reads a source text into tokens.
pub struct Lexer<'a> {
    source: &'a str,
    bytes: &'a [u8],
    start: usize,
    current: usize,
}

/// The keyword that `b[start..end]` spells, if it spells one.
fn keyword_at(b: &[u8], start: usize, end: usize) -> (r: Option<TokenType>)
    requires
        start <= end <= b@.len(),
    ensures
        r == keyword_type(b@.subrange(start as int, end as int)),
{
    if bytes_equal(b, start, end, &[105u8, 109u8, 112u8, 111u8, 114u8, 116u8]) {  // import
        Some(TokenType::Import)
    } else if bytes_equal(b, start, end, &[99u8, 108u8, 97u8, 115u8, 115u8]) {  // class
        Some(TokenType::Class)
    } else if bytes_equal(b, start, end, &[101u8, 108u8, 115u8, 101u8]) {  // else
        Some(TokenType::Else)
    } else if bytes_equal(b, start, end, &[102u8, 97u8, 108u8, 115u8, 101u8]) {  // false
        Some(TokenType::False)
    } else if bytes_equal(b, start, end, &[102u8, 111u8, 114u8]) {  // for
        Some(TokenType::For)
    } else if bytes_equal(b, start, end, &[102u8, 117u8, 110u8, 99u8]) {  // func
        Some(TokenType::Func)
    } else if bytes_equal(b, start, end, &[105u8, 102u8]) {  // if
        Some(TokenType::If)
    } else if bytes_equal(b, start, end, &[110u8, 117u8, 108u8, 108u8]) {  // null
        Some(TokenType::Null)
    } else if bytes_equal(b, start, end, &[110u8, 105u8, 108u8]) {  // nil
        Some(TokenType::Null)
    } else if bytes_equal(b, start, end, &[114u8, 101u8, 116u8, 117u8, 114u8, 110u8]) {  // return
        Some(TokenType::Return)
    } else if bytes_equal(b, start, end, &[115u8, 117u8, 112u8, 101u8, 114u8]) {  // super
        Some(TokenType::Super)
    } else if bytes_equal(b, start, end, &[116u8, 104u8, 105u8, 115u8]) {  // this
        Some(TokenType::This)
    } else if bytes_equal(b, start, end, &[116u8, 114u8, 117u8, 101u8]) {  // true
        Some(TokenType::True)
    } else if bytes_equal(b, start, end, &[118u8, 97u8, 114u8]) {  // var
        Some(TokenType::Var)
    } else if bytes_equal(b, start, end, &[112u8, 114u8, 105u8, 110u8, 116u8]) {  // print
        Some(TokenType::Print)
    } else {
        None
    }
}

impl<'a> Lexer<'a> {
    /// The UTF-8 bytes of the source text.
    pub closed spec fn source_bytes(&self) -> Seq<u8> {
        self.bytes@
    }

    /// The byte offset at which lexing goes on.
    pub closed spec fn position(&self) -> int {
        self.current as int
    }

    /// The bytes are those of the source, and the positions lie within it.
    pub closed spec fn wf(&self) -> bool {
        &&& self.bytes@ == self.source.spec_bytes()
        &&& self.start <= self.current <= self.bytes@.len()
    }

    pub fn new(source: &'a str) -> (l: Self)
        ensures
            l.wf(),
            l.source_bytes() == source.spec_bytes(),
            l.position() == 0,
    {
        Lexer { source, bytes: source.as_bytes(), start: 0, current: 0 }
    }

    /// Lexes the source from the current position to its end.
    pub fn lex_tokens(&mut self) -> (r: LexResult)
        requires
            old(self).wf(),
        ensures
            final(self).wf(),
            final(self).source_bytes() == old(self).source_bytes(),
            final(self).position() == old(self).source_bytes().len(),
            tokens_match(r.tokens@, lexed_tokens(old(self).source_bytes(), old(self).position())),
            errors_match(r.errors@, lexed_errors(old(self).source_bytes(), old(self).position())),
    {
        let ghost b = self.bytes@;
        let ghost p0 = self.current as int;
        let mut tokens: Vec<Token> = Vec::new();
        let mut errors: Vec<LoxError> = Vec::new();
        let ghost mut token_specs: Seq<TokenSpec> = seq![];
        let ghost mut error_specs: Seq<LexErrorSpec> = seq![];

        while !self.is_at_end()
            invariant
                self.wf(),
                self.bytes@ == b,
                lex_from(b, p0).0 == token_specs + lex_from(b, self.current as int).0,
                lex_from(b, p0).1 == error_specs + lex_from(b, self.current as int).1,
                tokens_match(tokens@, token_specs),
                errors_match(errors@, error_specs),
            decreases b.len() - self.current,
        {
            self.start = self.current;
            let ghost pos = self.current as int;
            proof {
                lemma_scan_bounds(b, pos);
            }
            match self.lex_token() {
                Ok(res) => {
                    if let Some(token) = res {
                        proof {
                            token_specs = token_specs.push(
                                token_spec(b, token.token_type, pos, self.current as int),
                            );
                        }
                        tokens.push(token);
                    }
                },
                Err(err) => {
                    proof {
                        let kind = scan(b, pos).1->Fail_0;
                        error_specs = error_specs.push(
                            LexErrorSpec { kind, offset: pos, length: self.current - pos },
                        );
                    }
                    errors.push(err);
                },
            }
        }
        assert(token_specs =~= lex_from(b, p0).0);
        assert(error_specs =~= lex_from(b, p0).1);
        let eof = Token::new(TokenType::Eof, self.current, 0, "<Eof>".to_owned());
        let ghost before = tokens@;
        tokens.push(eof);
        proof {
            assert(tokens@ =~= before.push(eof));
            assert(token_matches(eof, eof_spec(b)));
            assert(lexed_tokens(b, p0) =~= token_specs.push(eof_spec(b)));
            assert forall|i: int| 0 <= i < tokens@.len() implies #[trigger] token_matches(
                tokens@[i],
                lexed_tokens(b, p0)[i],
            ) by {
                if i < before.len() {
                    assert(token_matches(before[i], token_specs[i]));
                }
            }
        }
        LexResult { tokens, errors }
    }

    /// Lexes the piece of source that starts at the current position.
    fn lex_token(&mut self) -> (r: Result<Option<Token>, LoxError>)
        requires
            old(self).wf(),
            old(self).start == old(self).current,
            old(self).current < old(self).bytes@.len(),
        ensures
            final(self).wf(),
            final(self).source == old(self).source,
            final(self).bytes == old(self).bytes,
            final(self).start == old(self).start,
            final(self).current == scan(old(self).bytes@, old(self).start as int).0,
            ({
                let b = old(self).bytes@;
                let start = old(self).start as int;
                let end = scan(b, start).0;
                match scan(b, start).1 {
                    Scanned::Skip => r == Ok::<Option<Token>, LoxError>(None),
                    Scanned::Emit(kind) => r matches Ok(Some(t)) && token_matches(
                        t,
                        token_spec(b, kind, start, end),
                    ),
                    Scanned::Fail(kind) => r matches Err(e) && error_matches(
                        e,
                        LexErrorSpec { kind, offset: start, length: end - start },
                    ),
                }
            }),
    {
        let ghost b = self.bytes@;
        let c = self.advance();

        let s = self.start;
        let l = self.token_len();

        if c == LEFT_PAREN {
            Ok(Some(self.new_token(TokenType::LParen)))
        } else if c == RIGHT_PAREN {
            Ok(Some(self.new_token(TokenType::RParen)))
        } else if c == LEFT_BRACE {
            Ok(Some(self.new_token(TokenType::LBrace)))
        } else if c == RIGHT_BRACE {
            Ok(Some(self.new_token(TokenType::RBrace)))
        } else if c == COMMA {
            Ok(Some(self.new_token(TokenType::Comma)))
        } else if c == DOT {
            Ok(Some(self.new_token(TokenType::Dot)))
        } else if c == MINUS {
            Ok(Some(self.new_token(TokenType::Minus)))
        } else if c == PLUS {
            Ok(Some(self.new_token(TokenType::Plus)))
        } else if c == COLON {
            Ok(Some(self.new_token(TokenType::Colon)))
        } else if c == SEMICOLON {
            Ok(Some(self.new_token(TokenType::SemiColon)))
        } else if c == STAR {
            Ok(Some(self.new_token(TokenType::Star)))
        } else if c == QUESTION {
            Ok(Some(self.new_token(TokenType::Question)))
        } else if c == BANG {
            Ok(Some(self.go_together(EQUAL, TokenType::BangEqual, TokenType::Bang)))
        } else if c == EQUAL {
            Ok(Some(self.go_together(EQUAL, TokenType::EqualEqual, TokenType::Equal)))
        } else if c == LESS {
            Ok(Some(self.go_together(EQUAL, TokenType::LessEqual, TokenType::Less)))
        } else if c == GREATER {
            Ok(Some(self.go_together(EQUAL, TokenType::GreaterEqual, TokenType::Greater)))
        } else if c == AMPERSAND {
            Ok(Some(self.go_together(AMPERSAND, TokenType::AmpAmp, TokenType::Amp)))
        } else if c == PIPE {
            Ok(Some(self.go_together(PIPE, TokenType::PipePipe, TokenType::Pipe)))
        } else if c == SLASH {
            self.comment()
        } else if c == QUOTE {
            self.string()
        } else if is_digit(c) {
            self.number()
        } else if is_alpha(c) {
            self.identifier()
        } else if c == SPACE || c == TAB || c == CARRIAGE_RETURN || c == NEWLINE {
            Ok(None)
        } else {
            Err(LoxError::Lex { message: "unknown token".to_owned(), offset: s, length: l })
        }
    }

    fn advance(&mut self) -> (c: u8)
        requires
            old(self).wf(),
            old(self).current < old(self).bytes@.len(),
        ensures
            final(self).wf(),
            final(self).source == old(self).source,
            final(self).bytes == old(self).bytes,
            final(self).start == old(self).start,
            final(self).current == old(self).current + 1,
            c == old(self).bytes@[old(self).current as int],
    {
        let c = self.bytes[self.current];
        self.current += 1;
        c
    }

    /// The byte at the current position, or `NUL` at the end.
    fn peek(&self) -> (c: u8)
        requires
            self.wf(),
        ensures
            self.current < self.bytes@.len() ==> c == self.bytes@[self.current as int],
            self.current >= self.bytes@.len() ==> c == NUL,
    {
        if self.is_at_end() {
            return NUL;
        }
        self.bytes[self.current]
    }

    /// The byte after the current position, or `NUL` past the end.
    fn peek_next(&self) -> (c: u8)
        requires
            self.wf(),
        ensures
            self.current + 1 < self.bytes@.len() ==> c == self.bytes@[self.current + 1],
            self.current + 1 >= self.bytes@.len() ==> c == NUL,
    {
        if self.bytes.len() - self.current <= 1 {
            return NUL;
        }
        self.bytes[self.current + 1]
    }

    /// Lexes a token of kind `first_to_go`, or of kind `together` when the
    /// byte `expected` follows.
    fn go_together(&mut self, expected: u8, together: TokenType, first_to_go: TokenType) -> (t:
        Token)
        requires
            old(self).wf(),
            old(self).current == old(self).start + 1,
            is_ascii_byte(old(self).bytes@[old(self).start as int]),
            is_ascii_byte(expected),
        ensures
            final(self).wf(),
            final(self).source == old(self).source,
            final(self).bytes == old(self).bytes,
            final(self).start == old(self).start,
            ({
                let (end, scanned) = one_or_two(
                    old(self).bytes@,
                    old(self).start as int,
                    expected,
                    together,
                    first_to_go,
                );
                &&& final(self).current == end
                &&& scanned matches Scanned::Emit(kind) && token_matches(
                    t,
                    token_spec(old(self).bytes@, kind, old(self).start as int, end),
                )
            }),
    {
        if self.is_at_end() {
            return self.new_token(first_to_go);
        }
        if self.peek() == expected {
            self.advance();
            return self.new_token(together);
        }
        self.new_token(first_to_go)
    }

    /// Lexes what starts with `/`: a line comment, a block comment, or a
    /// slash.
    fn comment(&mut self) -> (r: Result<Option<Token>, LoxError>)
        requires
            old(self).wf(),
            old(self).current == old(self).start + 1,
            old(self).bytes@[old(self).start as int] == SLASH,
        ensures
            final(self).wf(),
            final(self).source == old(self).source,
            final(self).bytes == old(self).bytes,
            final(self).start == old(self).start,
            ({
                let b = old(self).bytes@;
                let start = old(self).start as int;
                let (end, scanned) = scan(b, start);
                &&& final(self).current == end
                &&& match scanned {
                    Scanned::Skip => r == Ok::<Option<Token>, LoxError>(None),
                    Scanned::Emit(kind) => r matches Ok(Some(t)) && token_matches(
                        t,
                        token_spec(b, kind, start, end),
                    ),
                    Scanned::Fail(_) => false,
                }
            }),
    {
        if self.peek() == SLASH {
            self.single_line_comment()
        } else if self.peek() == STAR {
            self.multi_line_comment()
        } else {
            Ok(Some(self.new_token(TokenType::Slash)))
        }
    }

    fn single_line_comment(&mut self) -> (r: Result<Option<Token>, LoxError>)
        requires
            old(self).wf(),
            old(self).current < old(self).bytes@.len(),
        ensures
            final(self).wf(),
            final(self).source == old(self).source,
            final(self).bytes == old(self).bytes,
            final(self).start == old(self).start,
            final(self).current == span_end(
                old(self).bytes@,
                old(self).current + 1,
                ByteClass::NotNewline,
            ),
            r == Ok::<Option<Token>, LoxError>(None),
    {
        let ghost b = self.bytes@;
        self.advance();
        let ghost from = self.current as int;
        while self.peek() != NEWLINE && !self.is_at_end()
            invariant
                self.wf(),
                self.source == old(self).source,
                self.bytes == old(self).bytes,
                self.bytes@ == b,
                self.start == old(self).start,
                from <= self.current,
                span_end(b, from, ByteClass::NotNewline) == span_end(
                    b,
                    self.current as int,
                    ByteClass::NotNewline,
                ),
            decreases b.len() - self.current,
        {
            self.advance();
        }
        Ok(None)
    }

    fn multi_line_comment(&mut self) -> (r: Result<Option<Token>, LoxError>)
        requires
            old(self).wf(),
            old(self).current < old(self).bytes@.len(),
            old(self).current >= 1,
        ensures
            final(self).wf(),
            final(self).source == old(self).source,
            final(self).bytes == old(self).bytes,
            final(self).start == old(self).start,
            final(self).current == block_comment_end(old(self).bytes@, old(self).current + 1, 1),
            r == Ok::<Option<Token>, LoxError>(None),
    {
        let ghost b = self.bytes@;
        self.advance();
        let ghost from = self.current as int;
        // The number of comments still open.
        let mut level: usize = 1;
        while !self.is_at_end() && level > 0
            invariant
                self.wf(),
                self.source == old(self).source,
                self.bytes == old(self).bytes,
                self.bytes@ == b,
                self.start == old(self).start,
                level <= self.current,
                block_comment_end(b, from, 1) == block_comment_end(
                    b,
                    self.current as int,
                    level as nat,
                ),
            decreases b.len() - self.current,
        {
            let c = self.advance();
            if c == SLASH {
                if self.peek() == STAR {
                    self.advance();
                    level += 1;
                }
            } else if c == STAR {
                if self.peek() == SLASH {
                    self.advance();
                    level -= 1;
                }
            }
        }
        Ok(None)
    }

    /// Lexes a string literal, quotes included.
    fn string(&mut self) -> (r: Result<Option<Token>, LoxError>)
        requires
            old(self).wf(),
            old(self).current == old(self).start + 1,
            old(self).bytes@[old(self).start as int] == QUOTE,
        ensures
            final(self).wf(),
            final(self).source == old(self).source,
            final(self).bytes == old(self).bytes,
            final(self).start == old(self).start,
            ({
                let b = old(self).bytes@;
                let start = old(self).start as int;
                let (end, scanned) = scan(b, start);
                &&& final(self).current == end
                &&& match scanned {
                    Scanned::Skip => false,
                    Scanned::Emit(kind) => r matches Ok(Some(t)) && token_matches(
                        t,
                        token_spec(b, kind, start, end),
                    ),
                    Scanned::Fail(kind) => r matches Err(e) && error_matches(
                        e,
                        LexErrorSpec { kind, offset: start, length: end - start },
                    ),
                }
            }),
    {
        let ghost b = self.bytes@;
        let ghost from = self.current as int;
        while !self.is_at_end() && self.peek() != QUOTE
            invariant
                self.wf(),
                self.source == old(self).source,
                self.bytes == old(self).bytes,
                self.bytes@ == b,
                self.start == old(self).start,
                from <= self.current,
                span_end(b, from, ByteClass::NotQuote) == span_end(
                    b,
                    self.current as int,
                    ByteClass::NotQuote,
                ),
            decreases b.len() - self.current,
        {
            self.advance();
        }

        if self.is_at_end() {
            return Err(
                LoxError::Lex {
                    message: "unterminated string".to_owned(),
                    offset: self.start,
                    length: self.token_len(),
                },
            );
        }
        // consume `"`.
        self.advance();

        Ok(Some(self.new_token(TokenType::String)))
    }

    /// Lexes a number: digits, then a dot and digits if a digit follows the
    /// dot.
    fn number(&mut self) -> (r: Result<Option<Token>, LoxError>)
        requires
            old(self).wf(),
            old(self).current == old(self).start + 1,
            is_digit_byte(old(self).bytes@[old(self).start as int]),
        ensures
            final(self).wf(),
            final(self).source == old(self).source,
            final(self).bytes == old(self).bytes,
            final(self).start == old(self).start,
            ({
                let b = old(self).bytes@;
                let start = old(self).start as int;
                let (end, scanned) = scan(b, start);
                &&& final(self).current == end
                &&& scanned matches Scanned::Emit(kind) && r matches Ok(Some(t)) && token_matches(
                    t,
                    token_spec(b, kind, start, end),
                )
            }),
    {
        let ghost b = self.bytes@;
        let ghost from = self.current as int;
        while is_digit(self.peek())
            invariant
                self.wf(),
                self.source == old(self).source,
                self.bytes == old(self).bytes,
                self.bytes@ == b,
                self.start == old(self).start,
                from <= self.current,
                forall|j: int| self.start <= j < self.current ==> is_digit_byte(#[trigger] b[j]),
                span_end(b, from, ByteClass::Digit) == span_end(
                    b,
                    self.current as int,
                    ByteClass::Digit,
                ),
            decreases b.len() - self.current,
        {
            self.advance();
        }

        if self.peek() == DOT && is_digit(self.peek_next()) {
            self.advance();
            let ghost from2 = self.current as int;
            while is_digit(self.peek())
                invariant
                    self.wf(),
                    self.source == old(self).source,
                    self.bytes == old(self).bytes,
                    self.bytes@ == b,
                    self.start == old(self).start,
                    from2 <= self.current,
                    from2 < b.len(),
                    is_digit_byte(b[from2]),
                    forall|j: int| from2 <= j < self.current ==> is_digit_byte(#[trigger] b[j]),
                    span_end(b, from2, ByteClass::Digit) == span_end(
                        b,
                        self.current as int,
                        ByteClass::Digit,
                    ),
                decreases b.len() - self.current,
            {
                self.advance();
            }
            proof {
                lemma_span_end_bounds(b, from2 + 1, ByteClass::Digit);
            }
        }

        Ok(Some(self.new_token(TokenType::Number)))
    }

    /// Lexes an identifier or a keyword.
    fn identifier(&mut self) -> (r: Result<Option<Token>, LoxError>)
        requires
            old(self).wf(),
            old(self).current == old(self).start + 1,
            is_alpha_byte(old(self).bytes@[old(self).start as int]),
        ensures
            final(self).wf(),
            final(self).source == old(self).source,
            final(self).bytes == old(self).bytes,
            final(self).start == old(self).start,
            ({
                let b = old(self).bytes@;
                let start = old(self).start as int;
                let (end, scanned) = scan(b, start);
                &&& final(self).current == end
                &&& scanned matches Scanned::Emit(kind) && r matches Ok(Some(t)) && token_matches(
                    t,
                    token_spec(b, kind, start, end),
                )
            }),
    {
        let ghost b = self.bytes@;
        let ghost from = self.current as int;
        while is_alpha_numeric(self.peek())
            invariant
                self.wf(),
                self.source == old(self).source,
                self.bytes == old(self).bytes,
                self.bytes@ == b,
                self.start == old(self).start,
                from <= self.current,
                forall|j: int|
                    self.start <= j < self.current ==> is_alpha_numeric_byte(#[trigger] b[j]),
                span_end(b, from, ByteClass::AlphaNumeric) == span_end(
                    b,
                    self.current as int,
                    ByteClass::AlphaNumeric,
                ),
            decreases b.len() - self.current,
        {
            self.advance();
        }

        let tt = keyword_at(self.bytes, self.start, self.current);
        if let Some(tt) = tt {
            Ok(Some(self.new_token(tt)))
        } else {
            Ok(Some(self.new_token(TokenType::Identifier)))
        }
    }

    fn is_at_end(&self) -> (r: bool)
        requires
            self.wf(),
        ensures
            r == (self.current >= self.bytes@.len()),
    {
        self.current >= self.bytes.len()
    }

    fn token_len(&self) -> (l: usize)
        requires
            self.wf(),
        ensures
            l == self.current - self.start,
    {
        self.current - self.start
    }

    /// The token of kind `token_type` whose text is the source from `start`
    /// to `current`.
    fn new_token(&self, token_type: TokenType) -> (t: Token)
        requires
            self.wf(),
            self.start < self.current,
            is_ascii_byte(self.bytes@[self.start as int]),
            is_ascii_byte(self.bytes@[self.current - 1]),
        ensures
            token_matches(
                t,
                token_spec(self.bytes@, token_type, self.start as int, self.current as int),
            ),
    {
        let ghost b = self.bytes@;
        proof {
            broadcast use group_utf8_lib;

            assert(valid_utf8(b));
            lemma_boundary_after_ascii(b, self.current as int);
            valid_utf8_split(b, self.current as int);
        }
        let (head, _) = self.source.split_at(self.current);
        proof {
            let h = head.spec_bytes();
            assert(h =~= b.subrange(0, self.current as int));
            assert(h[self.start as int] == b[self.start as int]);
            lemma_boundary_at_ascii(h, self.start as int);
        }
        let (_, text) = head.split_at(self.start);
        let lexeme = text.to_owned();
        proof {
            broadcast use group_utf8_lib;

            assert(text.spec_bytes() =~= b.subrange(self.start as int, self.current as int));
            assert(decode_utf8(encode_utf8(text@)) == text@);
        }
        Token::new(token_type, self.start, self.token_len(), lexeme)
    }
}

} // verus!
