use vstd::prelude::*;

use crate::expression::{Expression, LiteralValue};
use crate::number::is_float_text;
use crate::statement::StatementSpec;
use crate::token::{Token, TokenType};

verus! {

// The grammar of Lox as a function from a token sequence and a position to
// what is parsed there and the position after it, or to the message of the
// error met first. Expressions follow the precedence levels below, from the
// loosest (a whole expression) to the tightest:
//
//     10  comma       → assignment ("," assignment)*
//      9  assignment  → ternary ("=" assignment)?
//      8  ternary     → logical_or ("?" expression ":" ternary)?
//      7  logical_or  → logical_and ("||" logical_and)*
//      6  logical_and → equality ("&&" equality)*
//      5  equality    → comparison (("!=" | "==") comparison)*
//      4  comparison  → term ((">" | ">=" | "<" | "<=") term)*
//      3  term        → factor (("-" | "+") factor)*
//      2  factor      → unary (("/" | "*") unary)*
//      1  unary       → ("!" | "-") unary | binary_op_error | primary
//      0  primary     → NUMBER | STRING | "true" | "false" | "null"
//                     | IDENTIFIER | "(" expression ")"
//
// A position whose token is the end of input stays where it is when the
// grammar reads a token there; the token read is then the one before it.
//
// Some branches below check that a part parsed ends at or after the position
// where it started and at a token. Every part does (`grammar_laws` proves it
// for token sequences with an end-of-input token ahead), so those checks
// always hold; they show that the definitions terminate.

/// The result of parsing a part: the part and the position after it, or an
/// error message.
pub type Parsed<T> = Result<(T, int), Seq<char>>;

/// An end-of-input token lies at or after `p`.
pub open spec fn eof_ahead(toks: Seq<Token>, p: int) -> bool {
    exists|k: int| p <= k < toks.len() && #[trigger] toks[k].token_type == TokenType::Eof
}

pub open spec fn at_end(toks: Seq<Token>, p: int) -> bool {
    toks[p].token_type == TokenType::Eof
}

/// The token at `p` is of kind `tt` (and is not the end of input).
pub open spec fn check(toks: Seq<Token>, p: int, tt: TokenType) -> bool {
    &&& 0 <= p < toks.len()
    &&& !at_end(toks, p)
    &&& toks[p].token_type == tt
}

/// The token at `p` is of one of the kinds `tts`.
pub open spec fn matches_any(toks: Seq<Token>, p: int, tts: Seq<TokenType>) -> bool {
    &&& 0 <= p < toks.len()
    &&& !at_end(toks, p)
    &&& tts.contains(toks[p].token_type)
}

/// `q` is at or after `p`, at a token.
pub open spec fn in_order(toks: Seq<Token>, p: int, q: int) -> bool {
    p <= q < toks.len()
}

/// Reads a token of kind `tt` at `p`, or fails with `message`.
pub open spec fn expect(toks: Seq<Token>, p: int, tt: TokenType, message: Seq<char>) -> Result<
    int,
    Seq<char>,
> {
    if check(toks, p, tt) {
        Ok(p + 1)
    } else {
        Err(message)
    }
}

pub open spec fn missing_operand_operators() -> Seq<TokenType> {
    seq![
        TokenType::EqualEqual,
        TokenType::BangEqual,
        TokenType::Greater,
        TokenType::GreaterEqual,
        TokenType::Less,
        TokenType::LessEqual,
        TokenType::Plus,
        TokenType::Star,
        TokenType::Slash,
    ]
}

/// The message for a binary operator that has no left-hand operand.
pub open spec fn missing_operand_message(operator: Token) -> Seq<char> {
    "missing left-hand operand before '"@ + operator.lexeme@ + "'"@
}

/// The operators of a binary level.
pub open spec fn level_operators(level: nat) -> Seq<TokenType> {
    if level == 2 {
        seq![TokenType::Star, TokenType::Slash]
    } else if level == 3 {
        seq![TokenType::Plus, TokenType::Minus]
    } else if level == 4 {
        seq![TokenType::Greater, TokenType::GreaterEqual, TokenType::Less, TokenType::LessEqual]
    } else if level == 5 {
        seq![TokenType::EqualEqual, TokenType::BangEqual]
    } else if level == 6 {
        seq![TokenType::AmpAmp]
    } else if level == 7 {
        seq![TokenType::PipePipe]
    } else {
        seq![TokenType::Comma]
    }
}

/// The level of the operands of a binary level.
pub open spec fn operand_level(level: nat) -> nat {
    if level >= 10 {
        9
    } else {
        (level - 1) as nat
    }
}

/// The expression that an operator of a binary level makes of its operands.
pub open spec fn combine(level: nat, left: Expression, operator: Token, right: Expression) -> Expression {
    if level <= 5 {
        Expression::Binary { left: Box::new(left), operator, right: Box::new(right) }
    } else if level <= 7 {
        Expression::Logical { left: Box::new(left), operator, right: Box::new(right) }
    } else {
        Expression::Comma { left: Box::new(left), right: Box::new(right) }
    }
}

/// What a single token stands for as a primary expression.
pub open spec fn primary_of(token: Token) -> Result<Expression, Seq<char>> {
    match token.token_type {
        TokenType::True => Ok(Expression::Literal(LiteralValue::True)),
        TokenType::False => Ok(Expression::Literal(LiteralValue::False)),
        TokenType::Null => Ok(Expression::Literal(LiteralValue::Null)),
        TokenType::String => Ok(Expression::Literal(LiteralValue::String(token.lexeme))),
        TokenType::Number => if is_float_text(token.lexeme@) {
            Ok(Expression::Literal(LiteralValue::Number(token.lexeme)))
        } else {
            Err("number is not in valid format"@)
        },
        TokenType::Identifier => Ok(Expression::Variable(token)),
        _ => Err("expect expression"@),
    }
}

/// Parses an expression of the given level at `p`.
pub open spec fn parse_expr(toks: Seq<Token>, p: int, level: nat) -> Parsed<Expression>
    decreases toks.len() - p, level + 1,
{
    if level == 0 {
        if check(toks, p, TokenType::LParen) {
            match parse_expr(toks, p + 1, 10) {
                Ok((inner, q)) => match expect(
                    toks,
                    q,
                    TokenType::RParen,
                    "expect ')' after expression"@,
                ) {
                    Ok(r) => Ok((Expression::Grouping(Box::new(inner)), r)),
                    Err(m) => Err(m),
                },
                Err(m) => Err(m),
            }
        } else if at_end(toks, p) {
            // The previous token is read again. A `(` there gives an error,
            // since no expression can follow it.
            match primary_of(toks[p - 1]) {
                Ok(e) => Ok((e, p)),
                Err(m) => Err(m),
            }
        } else {
            match primary_of(toks[p]) {
                Ok(e) => Ok((e, p + 1)),
                Err(m) => Err(m),
            }
        }
    } else if level == 1 {
        if matches_any(toks, p, seq![TokenType::Minus, TokenType::Bang]) {
            match parse_expr(toks, p + 1, 1) {
                Ok((right, q)) => Ok(
                    (Expression::Unary { operator: toks[p], right: Box::new(right) }, q),
                ),
                Err(m) => Err(m),
            }
        } else if matches_any(toks, p, missing_operand_operators()) {
            Err(missing_operand_message(toks[p]))
        } else {
            parse_expr(toks, p, 0)
        }
    } else if level == 8 {
        match parse_expr(toks, p, 7) {
            Ok((condition, q)) => if !in_order(toks, p, q) {
                Err(seq![])
            } else if matches_any(toks, q, seq![TokenType::Question]) {
                match parse_expr(toks, q + 1, 10) {
                    Ok((t, r)) => match expect(
                        toks,
                        r,
                        TokenType::Colon,
                        "expect ':' after ternary"@,
                    ) {
                        Ok(s) => if !in_order(toks, q + 1, r) {
                            Err(seq![])
                        } else {
                            match parse_expr(toks, s, 8) {
                                Ok((f, u)) => Ok(
                                    (
                                        Expression::Ternary {
                                            condition: Box::new(condition),
                                            true_branch: Box::new(t),
                                            false_branch: Box::new(f),
                                        },
                                        u,
                                    ),
                                ),
                                Err(m) => Err(m),
                            }
                        },
                        Err(m) => Err(m),
                    },
                    Err(m) => Err(m),
                }
            } else {
                Ok((condition, q))
            },
            Err(m) => Err(m),
        }
    } else if level == 9 {
        match parse_expr(toks, p, 8) {
            Ok((target, q)) => if !in_order(toks, p, q) {
                Err(seq![])
            } else if matches_any(toks, q, seq![TokenType::Equal]) {
                match parse_expr(toks, q + 1, 9) {
                    Ok((value, r)) => match target {
                        Expression::Variable(name) => Ok(
                            (Expression::Assignment { name, value: Box::new(value) }, r),
                        ),
                        _ => Err("invalid assignment target"@),
                    },
                    Err(m) => Err(m),
                }
            } else {
                Ok((target, q))
            },
            Err(m) => Err(m),
        }
    } else {
        match parse_expr(toks, p, operand_level(level)) {
            Ok((left, q)) => if in_order(toks, p, q) {
                parse_operations(toks, q, level, left)
            } else {
                Err(seq![])
            },
            Err(m) => Err(m),
        }
    }
}

/// Parses the operations of a binary level that follow the operand `left`,
/// which ends at `q`: the operators group to the left.
pub open spec fn parse_operations(toks: Seq<Token>, q: int, level: nat, left: Expression) -> Parsed<
    Expression,
>
    decreases toks.len() - q, level,
{
    if matches_any(toks, q, level_operators(level)) {
        match parse_expr(toks, q + 1, operand_level(level)) {
            Ok((right, r)) => if in_order(toks, q + 1, r) {
                parse_operations(toks, r, level, combine(level, left, toks[q], right))
            } else {
                Err(seq![])
            },
            Err(m) => Err(m),
        }
    } else {
        Ok((left, q))
    }
}

/// Parses a whole expression at `p`.
pub open spec fn parse_expression(toks: Seq<Token>, p: int) -> Parsed<Expression> {
    parse_expr(toks, p, 10)
}

/// declaration → "var" var_declaration | statement
pub open spec fn parse_declaration(toks: Seq<Token>, p: int) -> Parsed<StatementSpec>
    decreases toks.len() - p, 21nat,
{
    if matches_any(toks, p, seq![TokenType::Var]) {
        parse_var_declaration(toks, p + 1)
    } else {
        parse_statement(toks, p)
    }
}

/// var_declaration → IDENTIFIER ("=" expression)? ";"
pub open spec fn parse_var_declaration(toks: Seq<Token>, p: int) -> Parsed<StatementSpec>
    decreases toks.len() - p, 20nat,
{
    match expect(toks, p, TokenType::Identifier, "expect variable name"@) {
        Ok(q) => if matches_any(toks, q, seq![TokenType::Equal]) {
            match parse_expr(toks, q + 1, 10) {
                Ok((init, r)) => match expect(
                    toks,
                    r,
                    TokenType::SemiColon,
                    "expect ';' after variable declaration"@,
                ) {
                    Ok(s) => Ok((StatementSpec::Var { name: toks[p], initializer: Some(init) }, s)),
                    Err(m) => Err(m),
                },
                Err(m) => Err(m),
            }
        } else {
            match expect(toks, q, TokenType::SemiColon, "expect ';' after variable declaration"@) {
                Ok(s) => Ok((StatementSpec::Var { name: toks[p], initializer: None }, s)),
                Err(m) => Err(m),
            }
        },
        Err(m) => Err(m),
    }
}

/// statement → "print" print_statement | "{" block | "if" if_statement
///           | expression_statement
pub open spec fn parse_statement(toks: Seq<Token>, p: int) -> Parsed<StatementSpec>
    decreases toks.len() - p, 19nat,
{
    if matches_any(toks, p, seq![TokenType::Print]) {
        parse_print_statement(toks, p + 1)
    } else if matches_any(toks, p, seq![TokenType::LBrace]) {
        parse_block(toks, p + 1)
    } else if matches_any(toks, p, seq![TokenType::If]) {
        parse_if_statement(toks, p + 1)
    } else {
        parse_expression_statement(toks, p)
    }
}

/// print_statement → expression ";"
pub open spec fn parse_print_statement(toks: Seq<Token>, p: int) -> Parsed<StatementSpec>
    decreases toks.len() - p, 18nat,
{
    match parse_expr(toks, p, 10) {
        Ok((value, q)) => match expect(toks, q, TokenType::SemiColon, "expect ';' after value"@) {
            Ok(r) => Ok((StatementSpec::Print(value), r)),
            Err(m) => Err(m),
        },
        Err(m) => Err(m),
    }
}

/// block → declaration* "}"
pub open spec fn parse_block(toks: Seq<Token>, p: int) -> Parsed<StatementSpec>
    decreases toks.len() - p, 23nat,
{
    parse_block_items(toks, p, seq![])
}

/// Parses the rest of a block whose first statements are `items`.
pub open spec fn parse_block_items(
    toks: Seq<Token>,
    p: int,
    items: Seq<StatementSpec>,
) -> Parsed<StatementSpec>
    decreases toks.len() - p, 22nat,
{
    if toks[p].token_type != TokenType::RBrace && !at_end(toks, p) {
        match parse_declaration(toks, p) {
            Ok((item, q)) => if p < q < toks.len() {
                parse_block_items(toks, q, items.push(item))
            } else {
                Err(seq![])
            },
            Err(m) => Err(m),
        }
    } else {
        match expect(toks, p, TokenType::RBrace, "expect '}' after block"@) {
            Ok(q) => Ok((StatementSpec::Block(items), q)),
            Err(m) => Err(m),
        }
    }
}

/// if_statement → "(" expression ")" "{" block ("else" ("if" if_statement |
/// "{" block))?
pub open spec fn parse_if_statement(toks: Seq<Token>, p: int) -> Parsed<StatementSpec>
    decreases toks.len() - p, 17nat,
{
    match expect(toks, p, TokenType::LParen, "expect '(' after if statement"@) {
        Ok(q) => match parse_expr(toks, q, 10) {
            Ok((cond, r)) => if !in_order(toks, q, r) {
                Err(seq![])
            } else {
                match expect(
                    toks,
                    r,
                    TokenType::RParen,
                    "expect ')' after if statement condition"@,
                ) {
                    Ok(s) => match expect(
                        toks,
                        s,
                        TokenType::LBrace,
                        "expect '{' after if statement condition"@,
                    ) {
                        Ok(t) => match parse_block(toks, t) {
                            Ok((body, u)) => if !in_order(toks, t, u) {
                                Err(seq![])
                            } else if matches_any(toks, u, seq![TokenType::Else]) {
                                if matches_any(toks, u + 1, seq![TokenType::If]) {
                                    match parse_if_statement(toks, u + 2) {
                                        Ok((other, v)) => Ok(
                                            (
                                                StatementSpec::If {
                                                    cond,
                                                    body: Box::new(body),
                                                    elze: Some(Box::new(other)),
                                                },
                                                v,
                                            ),
                                        ),
                                        Err(m) => Err(m),
                                    }
                                } else {
                                    match expect(
                                        toks,
                                        u + 1,
                                        TokenType::LBrace,
                                        "expect '{' after 'else'"@,
                                    ) {
                                        Ok(w) => match parse_block(toks, w) {
                                            Ok((other, v)) => Ok(
                                                (
                                                    StatementSpec::If {
                                                        cond,
                                                        body: Box::new(body),
                                                        elze: Some(Box::new(other)),
                                                    },
                                                    v,
                                                ),
                                            ),
                                            Err(m) => Err(m),
                                        },
                                        Err(m) => Err(m),
                                    }
                                }
                            } else {
                                Ok(
                                    (
                                        StatementSpec::If { cond, body: Box::new(body), elze: None },
                                        u,
                                    ),
                                )
                            },
                            Err(m) => Err(m),
                        },
                        Err(m) => Err(m),
                    },
                    Err(m) => Err(m),
                }
            },
            Err(m) => Err(m),
        },
        Err(m) => Err(m),
    }
}

/// expression_statement → expression ";"
pub open spec fn parse_expression_statement(toks: Seq<Token>, p: int) -> Parsed<StatementSpec>
    decreases toks.len() - p, 16nat,
{
    match parse_expr(toks, p, 10) {
        Ok((value, q)) => match expect(toks, q, TokenType::SemiColon, "expect ';' after value"@) {
            Ok(r) => Ok((StatementSpec::Expression(value), r)),
            Err(m) => Err(m),
        },
        Err(m) => Err(m),
    }
}

/// program → declaration* EOF: the statements from `p` to the end of input.
pub open spec fn parse_program(toks: Seq<Token>, p: int) -> Result<Seq<StatementSpec>, Seq<char>>
    decreases toks.len() - p,
{
    if at_end(toks, p) {
        Ok(seq![])
    } else {
        match parse_declaration(toks, p) {
            Ok((first, q)) => if p < q < toks.len() {
                match parse_program(toks, q) {
                    Ok(rest) => Ok(seq![first] + rest),
                    Err(m) => Err(m),
                }
            } else {
                Err(seq![])
            },
            Err(m) => Err(m),
        }
    }
}

/// The kinds of token that start a statement, where recovery from an error
/// stops.
pub open spec fn starts_statement(tt: TokenType) -> bool {
    tt == TokenType::Func || tt == TokenType::Class || tt == TokenType::Var || tt == TokenType::For
        || tt == TokenType::If || tt == TokenType::Return
}

/// Recovery from an error: skipping tokens from `q` until a `;` has just been
/// passed, a statement starts, or the input ends.
pub open spec fn recovery_from(toks: Seq<Token>, q: int) -> int
    decreases toks.len() - q,
{
    if q < 0 || q >= toks.len() || at_end(toks, q) {
        q
    } else if toks[q - 1].token_type == TokenType::SemiColon {
        q
    } else if starts_statement(toks[q].token_type) {
        q
    } else {
        recovery_from(toks, q + 1)
    }
}

/// Where recovery from an error at `p` stops: the token at `p` is always
/// skipped unless it ends the input.
pub open spec fn recovery_point(toks: Seq<Token>, p: int) -> int {
    if at_end(toks, p) {
        recovery_from(toks, p)
    } else {
        recovery_from(toks, p + 1)
    }
}

} // verus!
