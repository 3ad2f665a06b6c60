use vstd::prelude::*;

use crate::expression::Expression;
use crate::lexer::{lexed_tokens, token_matches, tokens_match};
use crate::lexer_laws::lemma_lexed_numbers_are_floats;
use crate::number::is_float_text;
use crate::parser::lemma_lexed_tokens_parse;
use crate::grammar::{
    at_end, check, eof_ahead, expect, matches_any, missing_operand_message, parse_block, parse_block_items,
    parse_declaration, parse_expr, parse_expression_statement, parse_if_statement,
    parse_operations, parse_print_statement, parse_program, parse_statement, parse_var_declaration,
    Parsed,
};
use crate::statement::StatementSpec;
use crate::token::{Token, TokenType};

verus! {

/// A part parsed at `p` ends at or after `p`, with an end-of-input token
/// still ahead, and past `p` unless the token at `p` ends the input.
pub open spec fn ends_after<T>(r: Parsed<T>, toks: Seq<Token>, p: int) -> bool {
    match r {
        Ok((_, q)) => {
            &&& p <= q
            &&& eof_ahead(toks, q)
            &&& (!at_end(toks, p) ==> p < q)
        },
        Err(_) => true,
    }
}

/// A part parsed at `p` ends past `p`, with an end-of-input token still
/// ahead.
pub open spec fn ends_past<T>(r: Parsed<T>, toks: Seq<Token>, p: int) -> bool {
    match r {
        Ok((_, q)) => p < q && eof_ahead(toks, q),
        Err(_) => true,
    }
}

/// The error for the text of a number literal that does not read as a
/// number.
pub open spec fn number_error() -> Seq<char> {
    "number is not in valid format"@
}

/// Every number token reads as a floating-point number.
pub open spec fn numbers_read(toks: Seq<Token>) -> bool {
    forall|i: int|
        0 <= i < toks.len() && (#[trigger] toks[i]).token_type == TokenType::Number
            ==> is_float_text(toks[i].lexeme@)
}

/// The token before `p` exists where it may be read again.
pub open spec fn can_look_back(toks: Seq<Token>, p: int) -> bool {
    p > 0 || !at_end(toks, p)
}

/// The result is not the error for a number literal.
pub open spec fn no_number_error<T>(r: Parsed<T>) -> bool {
    match r {
        Ok(_) => true,
        Err(m) => m != number_error(),
    }
}

proof fn lemma_messages()
    ensures
        "expect '(' after if statement"@ != number_error(),
        "expect ')' after expression"@ != number_error(),
        "expect ')' after if statement condition"@ != number_error(),
        "expect ':' after ternary"@ != number_error(),
        "expect ';' after value"@ != number_error(),
        "expect ';' after variable declaration"@ != number_error(),
        "expect '{' after 'else'"@ != number_error(),
        "expect '{' after if statement condition"@ != number_error(),
        "expect '}' after block"@ != number_error(),
        "expect expression"@ != number_error(),
        "expect variable name"@ != number_error(),
        "invalid assignment target"@ != number_error(),
        forall|t: Token| #[trigger] missing_operand_message(t) != number_error(),
        Seq::<char>::empty() != number_error(),
{
    reveal_strlit("number is not in valid format");
    reveal_strlit("expect '(' after if statement");
    reveal_strlit("expect ')' after expression");
    reveal_strlit("expect ')' after if statement condition");
    reveal_strlit("expect ':' after ternary");
    reveal_strlit("expect ';' after value");
    reveal_strlit("expect ';' after variable declaration");
    reveal_strlit("expect '{' after 'else'");
    reveal_strlit("expect '{' after if statement condition");
    reveal_strlit("expect '}' after block");
    reveal_strlit("expect expression");
    reveal_strlit("expect variable name");
    reveal_strlit("invalid assignment target");
    reveal_strlit("missing left-hand operand before '");
    assert(number_error().len() > 0);
    assert forall|t: Token| #[trigger] missing_operand_message(t) != number_error() by {
        assert(missing_operand_message(t)[0] != number_error()[0]);
    }
    assert("expect '(' after if statement"@[0] != number_error()[0]);
    assert("expect ')' after expression"@[0] != number_error()[0]);
    assert("expect ')' after if statement condition"@[0] != number_error()[0]);
    assert("expect ':' after ternary"@[0] != number_error()[0]);
    assert("expect ';' after value"@[0] != number_error()[0]);
    assert("expect ';' after variable declaration"@[0] != number_error()[0]);
    assert("expect '{' after 'else'"@[0] != number_error()[0]);
    assert("expect '{' after if statement condition"@[0] != number_error()[0]);
    assert("expect '}' after block"@[0] != number_error()[0]);
    assert("expect expression"@[0] != number_error()[0]);
    assert("expect variable name"@[0] != number_error()[0]);
    assert("invalid assignment target"@[0] != number_error()[0]);
}

proof fn lemma_eof_bound(toks: Seq<Token>, p: int)
    requires
        eof_ahead(toks, p),
    ensures
        p < toks.len(),
{
}

proof fn lemma_eof_step(toks: Seq<Token>, p: int)
    requires
        eof_ahead(toks, p),
        0 <= p,
        !at_end(toks, p),
    ensures
        eof_ahead(toks, p + 1),
{
    let k = choose|k: int| p <= k < toks.len() && #[trigger] toks[k].token_type == TokenType::Eof;
    assert(k != p);
}

proof fn lemma_expect(toks: Seq<Token>, p: int, tt: TokenType, m: Seq<char>)
    requires
        eof_ahead(toks, p),
        0 <= p,
    ensures
        expect(toks, p, tt, m) matches Ok(q) ==> q == p + 1 && eof_ahead(toks, q),
{
    if check(toks, p, tt) {
        lemma_eof_step(toks, p);
    }
}

/// Every expression that the grammar parses, at a position with an
/// end-of-input token ahead, ends at or after that position, with an
/// end-of-input token still ahead; past it when its token is not the end of
/// input. So the grammar's checks that parts end in order always hold.
pub proof fn lemma_expr_ends_after(toks: Seq<Token>, p: int, level: nat)
    requires
        0 <= p,
        eof_ahead(toks, p),
    ensures
        ends_after(parse_expr(toks, p, level), toks, p),
        numbers_read(toks) && can_look_back(toks, p) ==> no_number_error(parse_expr(toks, p, level)),
    decreases toks.len() - p, level + 1,
{
    lemma_messages();
    lemma_eof_bound(toks, p);
    if level == 0 {
        if check(toks, p, TokenType::LParen) {
            lemma_eof_step(toks, p);
            lemma_expr_ends_after(toks, p + 1, 10);
            match parse_expr(toks, p + 1, 10) {
                Ok((_, q)) => {
                    lemma_expect(toks, q, TokenType::RParen, "expect ')' after expression"@);
                },
                Err(_) => {},
            }
        } else if at_end(toks, p) {
        } else {
            lemma_eof_step(toks, p);
        }
    } else if level == 1 {
        if matches_any(toks, p, seq![TokenType::Minus, TokenType::Bang]) {
            lemma_eof_step(toks, p);
            lemma_expr_ends_after(toks, p + 1, 1);
        } else if matches_any(toks, p, crate::grammar::missing_operand_operators()) {
        } else {
            lemma_expr_ends_after(toks, p, 0);
        }
    } else if level == 8 {
        lemma_expr_ends_after(toks, p, 7);
        match parse_expr(toks, p, 7) {
            Ok((_, q)) => {
                lemma_eof_bound(toks, q);
                if matches_any(toks, q, seq![TokenType::Question]) {
                    lemma_eof_step(toks, q);
                    lemma_expr_ends_after(toks, q + 1, 10);
                    match parse_expr(toks, q + 1, 10) {
                        Ok((_, r)) => {
                            lemma_eof_bound(toks, r);
                            lemma_expect(toks, r, TokenType::Colon, "expect ':' after ternary"@);
                            match expect(toks, r, TokenType::Colon, "expect ':' after ternary"@) {
                                Ok(s) => {
                                    lemma_expr_ends_after(toks, s, 8);
                                },
                                Err(_) => {},
                            }
                        },
                        Err(_) => {},
                    }
                }
            },
            Err(_) => {},
        }
    } else if level == 9 {
        lemma_expr_ends_after(toks, p, 8);
        match parse_expr(toks, p, 8) {
            Ok((_, q)) => {
                lemma_eof_bound(toks, q);
                if matches_any(toks, q, seq![TokenType::Equal]) {
                    lemma_eof_step(toks, q);
                    lemma_expr_ends_after(toks, q + 1, 9);
                }
            },
            Err(_) => {},
        }
    } else {
        lemma_expr_ends_after(toks, p, crate::grammar::operand_level(level));
        match parse_expr(toks, p, crate::grammar::operand_level(level)) {
            Ok((left, q)) => {
                lemma_eof_bound(toks, q);
                lemma_operations_end_after(toks, q, level, left);
            },
            Err(_) => {},
        }
    }
}

/// The operations that follow an operand end at or after it, with an
/// end-of-input token still ahead.
pub proof fn lemma_operations_end_after(toks: Seq<Token>, q: int, level: nat, left: Expression)
    requires
        0 <= q,
        eof_ahead(toks, q),
    ensures
        parse_operations(toks, q, level, left) matches Ok((_, r)) ==> q <= r && eof_ahead(
            toks,
            r,
        ),
        numbers_read(toks) && can_look_back(toks, q) ==> no_number_error(parse_operations(toks, q, level, left)),
    decreases toks.len() - q, level,
{
    lemma_messages();
    lemma_eof_bound(toks, q);
    if matches_any(toks, q, crate::grammar::level_operators(level)) {
        lemma_eof_step(toks, q);
        lemma_expr_ends_after(toks, q + 1, crate::grammar::operand_level(level));
        match parse_expr(toks, q + 1, crate::grammar::operand_level(level)) {
            Ok((right, r)) => {
                lemma_eof_bound(toks, r);
                lemma_operations_end_after(
                    toks,
                    r,
                    level,
                    crate::grammar::combine(level, left, toks[q], right),
                );
            },
            Err(_) => {},
        }
    }
}

/// Every declaration that the grammar parses ends past its start, with an
/// end-of-input token still ahead.
pub proof fn lemma_declaration_ends_past(toks: Seq<Token>, p: int)
    requires
        0 <= p,
        eof_ahead(toks, p),
    ensures
        ends_past(parse_declaration(toks, p), toks, p),
        numbers_read(toks) && can_look_back(toks, p) ==> no_number_error(parse_declaration(toks, p)),
    decreases toks.len() - p, 21nat,
{
    lemma_messages();
    lemma_eof_bound(toks, p);
    if matches_any(toks, p, seq![TokenType::Var]) {
        lemma_eof_step(toks, p);
        lemma_var_declaration_ends_past(toks, p + 1);
    } else {
        lemma_statement_ends_past(toks, p);
    }
}

pub proof fn lemma_var_declaration_ends_past(toks: Seq<Token>, p: int)
    requires
        0 <= p,
        eof_ahead(toks, p),
    ensures
        ends_past(parse_var_declaration(toks, p), toks, p),
        numbers_read(toks) && can_look_back(toks, p) ==> no_number_error(parse_var_declaration(toks, p)),
    decreases toks.len() - p, 20nat,
{
    lemma_messages();
    lemma_expect(toks, p, TokenType::Identifier, "expect variable name"@);
    match expect(toks, p, TokenType::Identifier, "expect variable name"@) {
        Ok(q) => {
            lemma_eof_bound(toks, q);
            if matches_any(toks, q, seq![TokenType::Equal]) {
                lemma_eof_step(toks, q);
                lemma_expr_ends_after(toks, q + 1, 10);
                match parse_expr(toks, q + 1, 10) {
                    Ok((_, r)) => {
                        lemma_expect(
                            toks,
                            r,
                            TokenType::SemiColon,
                            "expect ';' after variable declaration"@,
                        );
                    },
                    Err(_) => {},
                }
            } else {
                lemma_expect(
                    toks,
                    q,
                    TokenType::SemiColon,
                    "expect ';' after variable declaration"@,
                );
            }
        },
        Err(_) => {},
    }
}

pub proof fn lemma_statement_ends_past(toks: Seq<Token>, p: int)
    requires
        0 <= p,
        eof_ahead(toks, p),
    ensures
        ends_past(parse_statement(toks, p), toks, p),
        numbers_read(toks) && can_look_back(toks, p) ==> no_number_error(parse_statement(toks, p)),
    decreases toks.len() - p, 19nat,
{
    lemma_messages();
    lemma_eof_bound(toks, p);
    if matches_any(toks, p, seq![TokenType::Print]) {
        lemma_eof_step(toks, p);
        lemma_print_statement_ends_past(toks, p + 1);
    } else if matches_any(toks, p, seq![TokenType::LBrace]) {
        lemma_eof_step(toks, p);
        lemma_block_ends_past(toks, p + 1);
    } else if matches_any(toks, p, seq![TokenType::If]) {
        lemma_eof_step(toks, p);
        lemma_if_statement_ends_past(toks, p + 1);
    } else {
        lemma_expression_statement_ends_past(toks, p);
    }
}

pub proof fn lemma_print_statement_ends_past(toks: Seq<Token>, p: int)
    requires
        0 <= p,
        eof_ahead(toks, p),
    ensures
        ends_past(parse_print_statement(toks, p), toks, p),
        numbers_read(toks) && can_look_back(toks, p) ==> no_number_error(parse_print_statement(toks, p)),
    decreases toks.len() - p, 18nat,
{
    lemma_messages();
    lemma_expr_ends_after(toks, p, 10);
    match parse_expr(toks, p, 10) {
        Ok((_, q)) => {
            lemma_expect(toks, q, TokenType::SemiColon, "expect ';' after value"@);
        },
        Err(_) => {},
    }
}

pub proof fn lemma_block_ends_past(toks: Seq<Token>, p: int)
    requires
        0 <= p,
        eof_ahead(toks, p),
    ensures
        ends_past(parse_block(toks, p), toks, p),
        numbers_read(toks) && can_look_back(toks, p) ==> no_number_error(parse_block(toks, p)),
    decreases toks.len() - p, 23nat,
{
    lemma_messages();
    lemma_block_items_end_past(toks, p, seq![]);
}

pub proof fn lemma_block_items_end_past(toks: Seq<Token>, p: int, items: Seq<StatementSpec>)
    requires
        0 <= p,
        eof_ahead(toks, p),
    ensures
        ends_past(parse_block_items(toks, p, items), toks, p),
        numbers_read(toks) && can_look_back(toks, p) ==> no_number_error(parse_block_items(toks, p, items)),
    decreases toks.len() - p, 22nat,
{
    lemma_messages();
    lemma_eof_bound(toks, p);
    if toks[p].token_type != TokenType::RBrace && !at_end(toks, p) {
        lemma_declaration_ends_past(toks, p);
        match parse_declaration(toks, p) {
            Ok((item, q)) => {
                lemma_eof_bound(toks, q);
                lemma_block_items_end_past(toks, q, items.push(item));
            },
            Err(_) => {},
        }
    } else {
        lemma_expect(toks, p, TokenType::RBrace, "expect '}' after block"@);
    }
}

pub proof fn lemma_if_statement_ends_past(toks: Seq<Token>, p: int)
    requires
        0 <= p,
        eof_ahead(toks, p),
    ensures
        ends_past(parse_if_statement(toks, p), toks, p),
        numbers_read(toks) && can_look_back(toks, p) ==> no_number_error(parse_if_statement(toks, p)),
    decreases toks.len() - p, 17nat,
{
    lemma_messages();
    lemma_expect(toks, p, TokenType::LParen, "expect '(' after if statement"@);
    match expect(toks, p, TokenType::LParen, "expect '(' after if statement"@) {
        Ok(q) => {
            lemma_expr_ends_after(toks, q, 10);
            match parse_expr(toks, q, 10) {
                Ok((_, r)) => {
                    lemma_eof_bound(toks, r);
                    lemma_expect(
                        toks,
                        r,
                        TokenType::RParen,
                        "expect ')' after if statement condition"@,
                    );
                    match expect(
                        toks,
                        r,
                        TokenType::RParen,
                        "expect ')' after if statement condition"@,
                    ) {
                        Ok(s) => {
                            lemma_expect(
                                toks,
                                s,
                                TokenType::LBrace,
                                "expect '{' after if statement condition"@,
                            );
                            match expect(
                                toks,
                                s,
                                TokenType::LBrace,
                                "expect '{' after if statement condition"@,
                            ) {
                                Ok(t) => {
                                    lemma_block_ends_past(toks, t);
                                    match parse_block(toks, t) {
                                        Ok((_, u)) => {
                                            lemma_eof_bound(toks, u);
                                            if matches_any(toks, u, seq![TokenType::Else]) {
                                                lemma_eof_step(toks, u);
                                                lemma_eof_bound(toks, u + 1);
                                                if matches_any(toks, u + 1, seq![TokenType::If]) {
                                                    lemma_eof_step(toks, u + 1);
                                                    lemma_if_statement_ends_past(toks, u + 2);
                                                } else {
                                                    lemma_expect(
                                                        toks,
                                                        u + 1,
                                                        TokenType::LBrace,
                                                        "expect '{' after 'else'"@,
                                                    );
                                                    match expect(
                                                        toks,
                                                        u + 1,
                                                        TokenType::LBrace,
                                                        "expect '{' after 'else'"@,
                                                    ) {
                                                        Ok(w) => {
                                                            lemma_block_ends_past(toks, w);
                                                        },
                                                        Err(_) => {},
                                                    }
                                                }
                                            }
                                        },
                                        Err(_) => {},
                                    }
                                },
                                Err(_) => {},
                            }
                        },
                        Err(_) => {},
                    }
                },
                Err(_) => {},
            }
        },
        Err(_) => {},
    }
}

pub proof fn lemma_expression_statement_ends_past(toks: Seq<Token>, p: int)
    requires
        0 <= p,
        eof_ahead(toks, p),
    ensures
        ends_past(parse_expression_statement(toks, p), toks, p),
        numbers_read(toks) && can_look_back(toks, p) ==> no_number_error(parse_expression_statement(toks, p)),
    decreases toks.len() - p, 16nat,
{
    lemma_messages();
    lemma_expr_ends_after(toks, p, 10);
    match parse_expr(toks, p, 10) {
        Ok((_, q)) => {
            lemma_expect(toks, q, TokenType::SemiColon, "expect ';' after value"@);
        },
        Err(_) => {},
    }
}

/// Parsing a program with every number token readable never fails on the
/// text of a number.
proof fn lemma_program_no_number_error(toks: Seq<Token>, p: int)
    requires
        0 <= p,
        eof_ahead(toks, p),
        numbers_read(toks),
        can_look_back(toks, p),
    ensures
        parse_program(toks, p) != Err::<Seq<StatementSpec>, Seq<char>>(number_error()),
    decreases toks.len() - p,
{
    lemma_eof_bound(toks, p);
    if !at_end(toks, p) {
        lemma_declaration_ends_past(toks, p);
        match parse_declaration(toks, p) {
            Ok((_, q)) => {
                lemma_eof_bound(toks, q);
                lemma_program_no_number_error(toks, q);
            },
            Err(_) => {},
        }
    }
}

/// The parser accepts every number that the lexer yields: parsing the tokens
/// of a source never fails on the text of a number.
pub proof fn lemma_lexed_numbers_parse(ts: Seq<Token>, b: Seq<u8>, pos: int)
    requires
        0 <= pos <= b.len(),
        tokens_match(ts, lexed_tokens(b, pos)),
    ensures
        parse_program(ts, 0) != Err::<Seq<StatementSpec>, Seq<char>>(number_error()),
{
    lemma_lexed_tokens_parse(ts, b, pos);
    lemma_lexed_numbers_are_floats(b, pos);
    assert forall|i: int|
        0 <= i < ts.len() && (#[trigger] ts[i]).token_type == TokenType::Number implies is_float_text(
        ts[i].lexeme@,
    ) by {
        assert(token_matches(ts[i], lexed_tokens(b, pos)[i]));
    }
    if !at_end(ts, 0) {
        lemma_program_no_number_error(ts, 0);
    }
}

} // verus!
