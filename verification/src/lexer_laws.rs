use vstd::prelude::*;
use vstd::utf8::*;

use crate::ascii::{is_ascii_byte, is_digit_byte, DOT, QUOTE};
use crate::lexer::{
    eof_spec, keyword_type, lemma_scan_bounds, lemma_span_end_bounds, lex_from, lexed_errors,
    lexed_tokens, scan, span_end, token_spec, ByteClass, LexErrorKind, LexErrorSpec, Scanned,
    TokenSpec,
};
use crate::number::{is_decimal_from, is_float_syntax, is_float_text, lowered, word_inf, word_infinity, word_nan, after_sign};
use crate::token::{spec_lexeme_text, TokenType};

verus! {

broadcast use vstd::seq::group_seq_axioms;

/// The tokens lie in `[pos, b.len()]`, each with some text, one after the
/// other, and none of them ends the input.
pub open spec fn tokens_laid_out(ts: Seq<TokenSpec>, pos: int, len: int) -> bool {
    &&& forall|i: int|
        0 <= i < ts.len() ==> {
            &&& pos <= #[trigger] ts[i].offset
            &&& 0 < ts[i].length
            &&& ts[i].offset + ts[i].length <= len
            &&& ts[i].kind != TokenType::Eof
        }
    &&& forall|i: int, j: int|
        0 <= i < j < ts.len() ==> #[trigger] ts[i].offset + ts[i].length <= #[trigger] ts[j].offset
}

/// The errors lie in `[pos, b.len()]`, each over some text, one after the
/// other.
pub open spec fn errors_laid_out(es: Seq<LexErrorSpec>, pos: int, len: int) -> bool {
    &&& forall|i: int|
        0 <= i < es.len() ==> {
            &&& pos <= #[trigger] es[i].offset
            &&& 0 < es[i].length
            &&& es[i].offset + es[i].length <= len
        }
    &&& forall|i: int, j: int|
        0 <= i < j < es.len() ==> #[trigger] es[i].offset + es[i].length <= #[trigger] es[j].offset
}

proof fn lemma_keyword_not_eof(w: Seq<u8>)
    ensures
        keyword_type(w) != Some(TokenType::Eof),
{
}

proof fn lemma_scan_not_eof(b: Seq<u8>, start: int)
    requires
        0 <= start < b.len(),
    ensures
        scan(b, start).1 != Scanned::Emit(TokenType::Eof),
{
    lemma_keyword_not_eof(b.subrange(start, span_end(b, start + 1, ByteClass::AlphaNumeric)));
}

proof fn lemma_lex_from_layout(b: Seq<u8>, pos: int)
    requires
        0 <= pos <= b.len(),
    ensures
        tokens_laid_out(lex_from(b, pos).0, pos, b.len() as int),
        errors_laid_out(lex_from(b, pos).1, pos, b.len() as int),
    decreases b.len() - pos,
{
    if pos < b.len() {
        let (end, scanned) = scan(b, pos);
        lemma_scan_bounds(b, pos);
        lemma_scan_not_eof(b, pos);
        lemma_lex_from_layout(b, end);
        let (ts, es) = lex_from(b, end);
        match scanned {
            Scanned::Skip => {},
            Scanned::Emit(kind) => {
                let all = seq![token_spec(b, kind, pos, end)] + ts;
                assert forall|i: int, j: int| 0 <= i < j < all.len() implies #[trigger] all[i].offset
                    + all[i].length <= #[trigger] all[j].offset by {
                    if i > 0 {
                        assert(all[i] == ts[i - 1]);
                    }
                    assert(all[j] == ts[j - 1]);
                }
                assert forall|i: int| 0 <= i < all.len() implies {
                    &&& pos <= #[trigger] all[i].offset
                    &&& 0 < all[i].length
                    &&& all[i].offset + all[i].length <= b.len()
                    &&& all[i].kind != TokenType::Eof
                } by {
                    if i > 0 {
                        assert(all[i] == ts[i - 1]);
                        assert(end <= ts[i - 1].offset);
                    } else {
                        assert(all[0] == token_spec(b, kind, pos, end));
                        assert(kind != TokenType::Eof);
                    }
                }
            },
            Scanned::Fail(kind) => {
                let all = seq![LexErrorSpec { kind, offset: pos, length: end - pos }] + es;
                assert forall|i: int, j: int| 0 <= i < j < all.len() implies #[trigger] all[i].offset
                    + all[i].length <= #[trigger] all[j].offset by {
                    if i > 0 {
                        assert(all[i] == es[i - 1]);
                    }
                    assert(all[j] == es[j - 1]);
                }
                assert forall|i: int| 0 <= i < all.len() implies {
                    &&& pos <= #[trigger] all[i].offset
                    &&& 0 < all[i].length
                    &&& all[i].offset + all[i].length <= b.len()
                } by {
                    if i > 0 {
                        assert(all[i] == es[i - 1]);
                        assert(end <= es[i - 1].offset);
                    }
                }
            },
        }
    }
}

/// Lexing lays its output out in source order: every token found and every
/// error lies within the source from the starting position on, spans some
/// text, and ends before the next one begins; the token list then ends with
/// one end-of-input token, at the end of the source, and no other token ends
/// the input.
pub proof fn lemma_lexed_layout(b: Seq<u8>, pos: int)
    requires
        0 <= pos <= b.len(),
    ensures
        lexed_tokens(b, pos).len() >= 1,
        lexed_tokens(b, pos).last() == eof_spec(b),
        tokens_laid_out(lexed_tokens(b, pos).drop_last(), pos, b.len() as int),
        forall|i: int|
            0 <= i < lexed_tokens(b, pos).len() - 1 ==> #[trigger] lexed_tokens(b, pos)[i].offset
                + lexed_tokens(b, pos)[i].length <= b.len(),
        errors_laid_out(lexed_errors(b, pos), pos, b.len() as int),
{
    lemma_lex_from_layout(b, pos);
    assert(lexed_tokens(b, pos).drop_last() =~= lex_from(b, pos).0);
    assert forall|i: int| 0 <= i < lexed_tokens(b, pos).len() - 1 implies #[trigger] lexed_tokens(
        b,
        pos,
    )[i].offset + lexed_tokens(b, pos)[i].length <= b.len() by {
        assert(lexed_tokens(b, pos)[i] == lex_from(b, pos).0[i]);
    }
}

/// `span_end` stops exactly at the first byte outside the class.
pub proof fn lemma_span_end_exact(w: Seq<u8>, i: int, k: int, class: ByteClass)
    requires
        0 <= i <= k <= w.len(),
        forall|j: int| i <= j < k ==> crate::lexer::in_class(class, #[trigger] w[j]),
        k == w.len() || !crate::lexer::in_class(class, w[k]),
    ensures
        span_end(w, i, class) == k,
    decreases k - i,
{
    if i < k {
        lemma_span_end_exact(w, i + 1, k, class);
    }
}

/// ASCII bytes form valid UTF-8 text, whose characters encode back to them.
proof fn lemma_ascii_round_trip(w: Seq<u8>)
    requires
        forall|j: int| 0 <= j < w.len() ==> is_ascii_byte(#[trigger] w[j]),
    ensures
        valid_utf8(w),
        encode_utf8(decode_utf8(w)) == w,
{
    broadcast use group_utf8_lib;

    assert(w.subrange(0, 0) =~= Seq::<u8>::empty());
    assert(partial_valid_utf8(w, 0));
    partial_valid_utf8_extend_ascii_block(w, 0, w.len() as int);
    assert(w.subrange(0, w.len() as int) =~= w);
}

/// A number token reads as a floating-point number.
proof fn lemma_number_token_is_float(b: Seq<u8>, start: int)
    requires
        0 <= start < b.len(),
        scan(b, start).1 == Scanned::Emit(TokenType::Number),
    ensures
        is_float_text(token_spec(b, TokenType::Number, start, scan(b, start).0).text),
{
    let end = scan(b, start).0;
    lemma_scan_bounds(b, start);
    let w = b.subrange(start, end);
    let whole = span_end(b, start + 1, ByteClass::Digit);
    lemma_span_end_bounds(b, start + 1, ByteClass::Digit);
    assert(is_digit_byte(b[start]));
    let has_dot = whole + 1 < b.len() && b[whole] == DOT && is_digit_byte(b[whole + 1]);
    let k = whole - start;
    if has_dot {
        lemma_span_end_bounds(b, whole + 1, ByteClass::Digit);
        assert(end == span_end(b, whole + 1, ByteClass::Digit));
        assert forall|j: int| 0 <= j < w.len() implies is_ascii_byte(#[trigger] w[j]) by {
            assert(w[j] == b[start + j]);
        }
        lemma_span_end_exact(w, 0, k, ByteClass::Digit);
        lemma_span_end_exact(w, k + 1, w.len() as int, ByteClass::Digit);
    } else {
        assert(end == whole);
        assert forall|j: int| 0 <= j < w.len() implies is_ascii_byte(#[trigger] w[j]) by {
            assert(w[j] == b[start + j]);
        }
        lemma_span_end_exact(w, 0, k, ByteClass::Digit);
    }
    lemma_ascii_round_trip(w);
    assert(after_sign(w, 0) == 0);
    let word = lowered(w.subrange(0, w.len() as int));
    assert(word[0] == w[0]);
    assert(word != word_inf());
    assert(word != word_infinity());
    assert(word != word_nan());
    assert(is_decimal_from(w, 0));
    assert(is_float_syntax(w));
}

proof fn lemma_lex_from_numbers(b: Seq<u8>, pos: int)
    requires
        0 <= pos <= b.len(),
    ensures
        forall|i: int|
            0 <= i < lex_from(b, pos).0.len() && (#[trigger] lex_from(b, pos).0[i]).kind
                == TokenType::Number ==> is_float_text(lex_from(b, pos).0[i].text),
    decreases b.len() - pos,
{
    if pos < b.len() {
        let (end, scanned) = scan(b, pos);
        lemma_scan_bounds(b, pos);
        lemma_lex_from_numbers(b, end);
        let ts = lex_from(b, end).0;
        if scanned == Scanned::Emit(TokenType::Number) {
            lemma_number_token_is_float(b, pos);
        }
        match scanned {
            Scanned::Emit(kind) => {
                let all = seq![token_spec(b, kind, pos, end)] + ts;
                assert forall|i: int|
                    0 <= i < all.len() && (#[trigger] all[i]).kind
                        == TokenType::Number implies is_float_text(all[i].text) by {
                    if i > 0 {
                        assert(all[i] == ts[i - 1]);
                    }
                }
            },
            _ => {},
        }
    }
}

/// Every number token that lexing yields reads as a decimal floating-point
/// number, so the parser accepts its text.
pub proof fn lemma_lexed_numbers_are_floats(b: Seq<u8>, pos: int)
    requires
        0 <= pos <= b.len(),
    ensures
        forall|i: int|
            0 <= i < lexed_tokens(b, pos).len() && (#[trigger] lexed_tokens(b, pos)[i]).kind
                == TokenType::Number ==> is_float_text(lexed_tokens(b, pos)[i].text),
{
    lemma_lex_from_numbers(b, pos);
    assert forall|i: int|
        0 <= i < lexed_tokens(b, pos).len() && (#[trigger] lexed_tokens(b, pos)[i]).kind
            == TokenType::Number implies is_float_text(lexed_tokens(b, pos)[i].text) by {
        if i < lex_from(b, pos).0.len() {
            assert(lexed_tokens(b, pos)[i] == lex_from(b, pos).0[i]);
        }
    }
}

/// Each error is an unknown byte, one byte long, or a string that never
/// closes: it starts at a `"`, runs to the end of the source and is the last
/// error.
pub open spec fn errors_well_formed(es: Seq<LexErrorSpec>, b: Seq<u8>) -> bool {
    forall|i: int|
        0 <= i < es.len() ==> {
            ||| (#[trigger] es[i]).kind == LexErrorKind::UnknownToken && es[i].length == 1
            ||| {
                &&& es[i].kind == LexErrorKind::UnterminatedString
                &&& 0 <= es[i].offset < b.len()
                &&& b[es[i].offset] == QUOTE
                &&& es[i].offset + es[i].length == b.len()
                &&& i == es.len() - 1
            }
        }
}

proof fn lemma_lex_from_errors(b: Seq<u8>, pos: int)
    requires
        0 <= pos <= b.len(),
    ensures
        errors_well_formed(lex_from(b, pos).1, b),
    decreases b.len() - pos,
{
    if pos < b.len() {
        let (end, scanned) = scan(b, pos);
        lemma_scan_bounds(b, pos);
        lemma_span_end_bounds(b, pos + 1, ByteClass::NotQuote);
        lemma_lex_from_errors(b, end);
        let es = lex_from(b, end).1;
        if let Scanned::Fail(kind) = scanned {
            let all = seq![LexErrorSpec { kind, offset: pos, length: end - pos }] + es;
            if kind == LexErrorKind::UnterminatedString {
                assert(end == b.len());
                assert(es.len() == 0);
            }
            assert forall|i: int| 0 <= i < all.len() implies {
                ||| (#[trigger] all[i]).kind == LexErrorKind::UnknownToken && all[i].length == 1
                ||| {
                    &&& all[i].kind == LexErrorKind::UnterminatedString
                    &&& 0 <= all[i].offset < b.len()
                    &&& b[all[i].offset] == QUOTE
                    &&& all[i].offset + all[i].length == b.len()
                    &&& i == all.len() - 1
                }
            } by {
                if i > 0 {
                    assert(all[i] == es[i - 1]);
                }
            }
        }
    }
}

/// Every lexing error is an unknown byte, reported byte by byte, or a string
/// that never closes, which then runs to the end of the source and is
/// reported last. Errors come in the order of their offsets
/// (`lemma_lexed_layout`).
pub proof fn lemma_lexed_errors(b: Seq<u8>, pos: int)
    requires
        0 <= pos <= b.len(),
    ensures
        errors_well_formed(lexed_errors(b, pos), b),
{
    lemma_lex_from_errors(b, pos);
}

/// The kinds of token whose text is always the same: all but identifiers,
/// strings, numbers, the end of input, and the brackets, which no source
/// text lexes to.
pub open spec fn has_fixed_spelling(t: TokenType) -> bool {
    !(t is Identifier || t is String || t is Number || t is Eof || t is LBracket || t is RBracket)
}

/// Each fixed spelling lexes back to a single token of its own kind, with
/// that text, and to no error.
#[verifier::rlimit(100)]
pub proof fn lemma_spelling_lexes_back(t: TokenType)
    requires
        has_fixed_spelling(t),
    ensures
        ({
            let b = encode_utf8(spec_lexeme_text(t));
            &&& lexed_tokens(b, 0) == seq![token_spec(b, t, 0, b.len() as int), eof_spec(b)]
            &&& lexed_errors(b, 0) == Seq::<LexErrorSpec>::empty()
            &&& token_spec(b, t, 0, b.len() as int).text == spec_lexeme_text(t)
        }),
{
    reveal_strlit("(");
    reveal_strlit(")");
    reveal_strlit("[");
    reveal_strlit("]");
    reveal_strlit("{");
    reveal_strlit("}");
    reveal_strlit("*");
    reveal_strlit("+");
    reveal_strlit("-");
    reveal_strlit("/");
    reveal_strlit(".");
    reveal_strlit(",");
    reveal_strlit(";");
    reveal_strlit(":");
    reveal_strlit("?");
    reveal_strlit("!");
    reveal_strlit("!=");
    reveal_strlit("=");
    reveal_strlit("==");
    reveal_strlit(">");
    reveal_strlit(">=");
    reveal_strlit("<");
    reveal_strlit("<=");
    reveal_strlit("&");
    reveal_strlit("&&");
    reveal_strlit("|");
    reveal_strlit("||");
    reveal_strlit("identifier");
    reveal_strlit("string");
    reveal_strlit("number");
    reveal_strlit("import");
    reveal_strlit("if");
    reveal_strlit("else");
    reveal_strlit("var");
    reveal_strlit("null");
    reveal_strlit("for");
    reveal_strlit("func");
    reveal_strlit("return");
    reveal_strlit("true");
    reveal_strlit("false");
    reveal_strlit("class");
    reveal_strlit("super");
    reveal_strlit("this");
    reveal_strlit("print");
    reveal_strlit("EOF");
    let text = spec_lexeme_text(t);
    assert(is_ascii_chars(text));
    is_ascii_chars_encode_utf8(text);
    encode_utf8_decode_utf8(text);
    let b = encode_utf8(text);
    assert(b.subrange(0, b.len() as int) =~= b);
    match t {
        TokenType::LParen => {
            assert(text[0] == '(');
            assert(b =~= seq![40u8]);
        },
        TokenType::RParen => {
            assert(text[0] == ')');
            assert(b =~= seq![41u8]);
        },
        TokenType::LBracket => {},
        TokenType::RBracket => {},
        TokenType::LBrace => {
            assert(text[0] == '{');
            assert(b =~= seq![123u8]);
        },
        TokenType::RBrace => {
            assert(text[0] == '}');
            assert(b =~= seq![125u8]);
        },
        TokenType::Star => {
            assert(text[0] == '*');
            assert(b =~= seq![42u8]);
        },
        TokenType::Plus => {
            assert(text[0] == '+');
            assert(b =~= seq![43u8]);
        },
        TokenType::Minus => {
            assert(text[0] == '-');
            assert(b =~= seq![45u8]);
        },
        TokenType::Slash => {
            assert(text[0] == '/');
            assert(b =~= seq![47u8]);
        },
        TokenType::Dot => {
            assert(text[0] == '.');
            assert(b =~= seq![46u8]);
        },
        TokenType::Comma => {
            assert(text[0] == ',');
            assert(b =~= seq![44u8]);
        },
        TokenType::SemiColon => {
            assert(text[0] == ';');
            assert(b =~= seq![59u8]);
        },
        TokenType::Colon => {
            assert(text[0] == ':');
            assert(b =~= seq![58u8]);
        },
        TokenType::Question => {
            assert(text[0] == '?');
            assert(b =~= seq![63u8]);
        },
        TokenType::Bang => {
            assert(text[0] == '!');
            assert(b =~= seq![33u8]);
        },
        TokenType::BangEqual => {
            assert(text[0] == '!' && text[1] == '=');
            assert(b =~= seq![33u8, 61u8]);
        },
        TokenType::Equal => {
            assert(text[0] == '=');
            assert(b =~= seq![61u8]);
        },
        TokenType::EqualEqual => {
            assert(text[0] == '=' && text[1] == '=');
            assert(b =~= seq![61u8, 61u8]);
        },
        TokenType::Greater => {
            assert(text[0] == '>');
            assert(b =~= seq![62u8]);
        },
        TokenType::GreaterEqual => {
            assert(text[0] == '>' && text[1] == '=');
            assert(b =~= seq![62u8, 61u8]);
        },
        TokenType::Less => {
            assert(text[0] == '<');
            assert(b =~= seq![60u8]);
        },
        TokenType::LessEqual => {
            assert(text[0] == '<' && text[1] == '=');
            assert(b =~= seq![60u8, 61u8]);
        },
        TokenType::Amp => {
            assert(text[0] == '&');
            assert(b =~= seq![38u8]);
        },
        TokenType::AmpAmp => {
            assert(text[0] == '&' && text[1] == '&');
            assert(b =~= seq![38u8, 38u8]);
        },
        TokenType::Pipe => {
            assert(text[0] == '|');
            assert(b =~= seq![124u8]);
        },
        TokenType::PipePipe => {
            assert(text[0] == '|' && text[1] == '|');
            assert(b =~= seq![124u8, 124u8]);
        },
        TokenType::Identifier => {},
        TokenType::String => {},
        TokenType::Number => {},
        TokenType::Import => {
            assert(text[0] == 'i' && text[1] == 'm' && text[2] == 'p' && text[3] == 'o' && text[4] == 'r' && text[5] == 't');
            assert(b =~= seq![105u8, 109u8, 112u8, 111u8, 114u8, 116u8]);
        },
        TokenType::If => {
            assert(text[0] == 'i' && text[1] == 'f');
            assert(b =~= seq![105u8, 102u8]);
        },
        TokenType::Else => {
            assert(text[0] == 'e' && text[1] == 'l' && text[2] == 's' && text[3] == 'e');
            assert(b =~= seq![101u8, 108u8, 115u8, 101u8]);
        },
        TokenType::Var => {
            assert(text[0] == 'v' && text[1] == 'a' && text[2] == 'r');
            assert(b =~= seq![118u8, 97u8, 114u8]);
        },
        TokenType::Null => {
            assert(text[0] == 'n' && text[1] == 'u' && text[2] == 'l' && text[3] == 'l');
            assert(b =~= seq![110u8, 117u8, 108u8, 108u8]);
        },
        TokenType::For => {
            assert(text[0] == 'f' && text[1] == 'o' && text[2] == 'r');
            assert(b =~= seq![102u8, 111u8, 114u8]);
        },
        TokenType::Func => {
            assert(text[0] == 'f' && text[1] == 'u' && text[2] == 'n' && text[3] == 'c');
            assert(b =~= seq![102u8, 117u8, 110u8, 99u8]);
        },
        TokenType::Return => {
            assert(text[0] == 'r' && text[1] == 'e' && text[2] == 't' && text[3] == 'u' && text[4] == 'r' && text[5] == 'n');
            assert(b =~= seq![114u8, 101u8, 116u8, 117u8, 114u8, 110u8]);
        },
        TokenType::True => {
            assert(text[0] == 't' && text[1] == 'r' && text[2] == 'u' && text[3] == 'e');
            assert(b =~= seq![116u8, 114u8, 117u8, 101u8]);
        },
        TokenType::False => {
            assert(text[0] == 'f' && text[1] == 'a' && text[2] == 'l' && text[3] == 's' && text[4] == 'e');
            assert(b =~= seq![102u8, 97u8, 108u8, 115u8, 101u8]);
        },
        TokenType::Class => {
            assert(text[0] == 'c' && text[1] == 'l' && text[2] == 'a' && text[3] == 's' && text[4] == 's');
            assert(b =~= seq![99u8, 108u8, 97u8, 115u8, 115u8]);
        },
        TokenType::Super => {
            assert(text[0] == 's' && text[1] == 'u' && text[2] == 'p' && text[3] == 'e' && text[4] == 'r');
            assert(b =~= seq![115u8, 117u8, 112u8, 101u8, 114u8]);
        },
        TokenType::This => {
            assert(text[0] == 't' && text[1] == 'h' && text[2] == 'i' && text[3] == 's');
            assert(b =~= seq![116u8, 104u8, 105u8, 115u8]);
        },
        TokenType::Print => {
            assert(text[0] == 'p' && text[1] == 'r' && text[2] == 'i' && text[3] == 'n' && text[4] == 't');
            assert(b =~= seq![112u8, 114u8, 105u8, 110u8, 116u8]);
        },
        TokenType::Eof => {},
    }
    reveal_with_fuel(span_end, 8);
    reveal_with_fuel(lex_from, 2);
    assert(scan(b, 0) == (b.len() as int, Scanned::Emit(t)));
    assert(lex_from(b, b.len() as int) == (Seq::<TokenSpec>::empty(), Seq::<LexErrorSpec>::empty()));
    assert(lex_from(b, 0).0 =~= seq![token_spec(b, t, 0, b.len() as int)]);
}

/// A letter of either case (`a`-`z`, `A`-`Z`) or an underscore.
pub open spec fn word_start(c: u8) -> bool {
    (97 <= c <= 122) || (65 <= c <= 90) || c == 95
}

/// A letter, an underscore or a digit (`0`-`9`).
pub open spec fn word_byte(c: u8) -> bool {
    word_start(c) || (48 <= c <= 57)
}

/// A word, a letter or underscore followed by letters, underscores and
/// digits, that is no keyword lexes to a single identifier over all of it.
pub proof fn lemma_word_is_one_identifier(b: Seq<u8>)
    requires
        b.len() >= 1,
        word_start(b[0]),
        forall|j: int| 1 <= j < b.len() ==> word_byte(#[trigger] b[j]),
        keyword_type(b) == None::<TokenType>,
    ensures
        lexed_tokens(b, 0) == seq![token_spec(b, TokenType::Identifier, 0, b.len() as int), eof_spec(b)],
        lexed_errors(b, 0) == Seq::<LexErrorSpec>::empty(),
{
    lemma_span_end_exact(b, 1, b.len() as int, ByteClass::AlphaNumeric);
    assert(b.subrange(0, b.len() as int) =~= b);
    reveal_with_fuel(lex_from, 2);
    assert(scan(b, 0) == (b.len() as int, Scanned::Emit(TokenType::Identifier)));
    assert(lex_from(b, 0).0 =~= seq![token_spec(b, TokenType::Identifier, 0, b.len() as int)]);
}

/// A decimal numeral, digits (`0`-`9`) with at most one `.` between two of
/// them, lexes to a single number token over all of it.
pub proof fn lemma_numeral_is_one_number(b: Seq<u8>, point: int)
    requires
        b.len() >= 1,
        forall|j: int| 0 <= j < b.len() && j != point ==> 48 <= #[trigger] b[j] <= 57,
        point == b.len() || (0 < point < b.len() - 1 && b[point] == 46),
    ensures
        lexed_tokens(b, 0) == seq![token_spec(b, TokenType::Number, 0, b.len() as int), eof_spec(b)],
        lexed_errors(b, 0) == Seq::<LexErrorSpec>::empty(),
{
    if point == b.len() {
        lemma_span_end_exact(b, 1, b.len() as int, ByteClass::Digit);
    } else {
        lemma_span_end_exact(b, 1, point, ByteClass::Digit);
        lemma_span_end_exact(b, point + 1, b.len() as int, ByteClass::Digit);
    }
    reveal_with_fuel(lex_from, 2);
    assert(scan(b, 0) == (b.len() as int, Scanned::Emit(TokenType::Number)));
    assert(lex_from(b, 0).0 =~= seq![token_spec(b, TokenType::Number, 0, b.len() as int)]);
}

/// Text between two `"` with no `"` inside lexes to a single string token
/// over all of it, quotes included.
pub proof fn lemma_quoted_is_one_string(b: Seq<u8>)
    requires
        b.len() >= 2,
        b[0] == 34,
        b[b.len() - 1] == 34,
        forall|j: int| 0 < j < b.len() - 1 ==> #[trigger] b[j] != 34,
    ensures
        lexed_tokens(b, 0) == seq![token_spec(b, TokenType::String, 0, b.len() as int), eof_spec(b)],
        lexed_errors(b, 0) == Seq::<LexErrorSpec>::empty(),
{
    lemma_span_end_exact(b, 1, b.len() - 1, ByteClass::NotQuote);
    reveal_with_fuel(lex_from, 2);
    assert(scan(b, 0) == (b.len() as int, Scanned::Emit(TokenType::String)));
    assert(lex_from(b, 0).0 =~= seq![token_spec(b, TokenType::String, 0, b.len() as int)]);
}

} // verus!
