use vstd::prelude::*;

use crate::expression::Expression;
use crate::grammar::{
    at_end, check, combine, expect, in_order, level_operators, matches_any, operand_level, parse_block,
    parse_block_items, parse_declaration, parse_expr, parse_expression_statement,
    parse_if_statement, parse_operations, parse_print_statement, parse_program, parse_statement,
    parse_var_declaration, primary_of, Parsed,
};
use crate::interpreter::{all_run, expression_runs, program_runs, statement_runs};
use crate::statement::{lemma_statements_view_index, statements_view, Statement, StatementSpec};
use crate::token::{Token, TokenType};

verus! {

broadcast use vstd::seq::group_seq_axioms;

// The grammar builds only trees that the interpreter can run: every binary
// expression that it builds has a binary operator, every unary one `-` or
// `!`.

/// What a parse of an expression gave, if it succeeded, runs.
pub open spec fn parsed_expression_runs(r: Parsed<Expression>) -> bool {
    r matches Ok((e, _)) ==> expression_runs(e)
}

/// What a parse of a statement gave, if it succeeded, runs.
pub open spec fn parsed_statement_runs(r: Parsed<StatementSpec>) -> bool {
    r matches Ok((s, _)) ==> statement_runs(s)
}

proof fn lemma_primary_runs(token: Token)
    ensures
        primary_of(token) matches Ok(e) ==> expression_runs(e),
{
}

/// Every expression that the grammar parses runs.
pub proof fn lemma_parsed_expression_runs(toks: Seq<Token>, p: int, level: nat)
    ensures
        parsed_expression_runs(parse_expr(toks, p, level)),
    decreases toks.len() - p, level + 1,
{
    if level == 0 {
        if check(toks, p, TokenType::LParen) {
            lemma_parsed_expression_runs(toks, p + 1, 10);
        } else if 0 <= p < toks.len() && at_end(toks, p) {
            if 0 <= p - 1 {
                lemma_primary_runs(toks[p - 1]);
            }
        } else if 0 <= p < toks.len() {
            lemma_primary_runs(toks[p]);
        }
    } else if level == 1 {
        if matches_any(toks, p, seq![TokenType::Minus, TokenType::Bang]) {
            lemma_parsed_expression_runs(toks, p + 1, 1);
            assert(seq![TokenType::Minus, TokenType::Bang].contains(toks[p].token_type));
            assert(toks[p].token_type == TokenType::Minus || toks[p].token_type == TokenType::Bang);
        } else {
            lemma_parsed_expression_runs(toks, p, 0);
        }
    } else if level == 8 {
        lemma_parsed_expression_runs(toks, p, 7);
        match parse_expr(toks, p, 7) {
            Ok((_, q)) => {
                if in_order(toks, p, q) && matches_any(toks, q, seq![TokenType::Question]) {
                    lemma_parsed_expression_runs(toks, q + 1, 10);
                    match parse_expr(toks, q + 1, 10) {
                        Ok((_, r)) => {
                            match expect(toks, r, TokenType::Colon, "expect ':' after ternary"@) {
                                Ok(s) => {
                                    if in_order(toks, q + 1, r) {
                                        lemma_parsed_expression_runs(toks, s, 8);
                                    }
                                },
                                Err(_) => {},
                            }
                        },
                        Err(_) => {},
                    }
                }
            },
            Err(_) => {},
        }
    } else if level == 9 {
        lemma_parsed_expression_runs(toks, p, 8);
        match parse_expr(toks, p, 8) {
            Ok((_, q)) => {
                if in_order(toks, p, q) && matches_any(toks, q, seq![TokenType::Equal]) {
                    lemma_parsed_expression_runs(toks, q + 1, 9);
                }
            },
            Err(_) => {},
        }
    } else {
        lemma_parsed_expression_runs(toks, p, operand_level(level));
        match parse_expr(toks, p, operand_level(level)) {
            Ok((left, q)) => {
                if in_order(toks, p, q) {
                    lemma_parsed_operations_run(toks, q, level, left);
                }
            },
            Err(_) => {},
        }
    }
}

/// The operations of a binary level that follow an operand that runs run.
pub proof fn lemma_parsed_operations_run(toks: Seq<Token>, q: int, level: nat, left: Expression)
    requires
        level >= 2,
        expression_runs(left),
    ensures
        parsed_expression_runs(parse_operations(toks, q, level, left)),
    decreases toks.len() - q, level,
{
    if matches_any(toks, q, level_operators(level)) {
        lemma_parsed_expression_runs(toks, q + 1, operand_level(level));
        match parse_expr(toks, q + 1, operand_level(level)) {
            Ok((right, r)) => {
                if in_order(toks, q + 1, r) {
                    let t = toks[q].token_type;
                    assert(level_operators(level).contains(t));
                    if level <= 5 {
                        if level == 2 {
                            assert(t == TokenType::Star || t == TokenType::Slash);
                        } else if level == 3 {
                            assert(t == TokenType::Plus || t == TokenType::Minus);
                        } else if level == 4 {
                            assert(t == TokenType::Greater || t == TokenType::GreaterEqual || t
                                == TokenType::Less || t == TokenType::LessEqual);
                        } else {
                            assert(t == TokenType::EqualEqual || t == TokenType::BangEqual);
                        }
                    }
                    assert(expression_runs(combine(level, left, toks[q], right)));
                    lemma_parsed_operations_run(
                        toks,
                        r,
                        level,
                        combine(level, left, toks[q], right),
                    );
                }
            },
            Err(_) => {},
        }
    }
}

/// Every declaration that the grammar parses runs.
pub proof fn lemma_parsed_declaration_runs(toks: Seq<Token>, p: int)
    ensures
        parsed_statement_runs(parse_declaration(toks, p)),
    decreases toks.len() - p, 21nat,
{
    if matches_any(toks, p, seq![TokenType::Var]) {
        lemma_parsed_var_declaration_runs(toks, p + 1);
    } else {
        lemma_parsed_statement_runs(toks, p);
    }
}

proof fn lemma_parsed_var_declaration_runs(toks: Seq<Token>, p: int)
    ensures
        parsed_statement_runs(parse_var_declaration(toks, p)),
    decreases toks.len() - p, 20nat,
{
    match expect(toks, p, TokenType::Identifier, "expect variable name"@) {
        Ok(q) => {
            if matches_any(toks, q, seq![TokenType::Equal]) {
                lemma_parsed_expression_runs(toks, q + 1, 10);
            }
        },
        Err(_) => {},
    }
}

proof fn lemma_parsed_statement_runs(toks: Seq<Token>, p: int)
    ensures
        parsed_statement_runs(parse_statement(toks, p)),
    decreases toks.len() - p, 19nat,
{
    if matches_any(toks, p, seq![TokenType::Print]) {
        lemma_parsed_print_statement_runs(toks, p + 1);
    } else if matches_any(toks, p, seq![TokenType::LBrace]) {
        lemma_parsed_block_runs(toks, p + 1);
    } else if matches_any(toks, p, seq![TokenType::If]) {
        lemma_parsed_if_statement_runs(toks, p + 1);
    } else {
        lemma_parsed_expression_statement_runs(toks, p);
    }
}

proof fn lemma_parsed_print_statement_runs(toks: Seq<Token>, p: int)
    ensures
        parsed_statement_runs(parse_print_statement(toks, p)),
    decreases toks.len() - p, 18nat,
{
    lemma_parsed_expression_runs(toks, p, 10);
}

proof fn lemma_parsed_expression_statement_runs(toks: Seq<Token>, p: int)
    ensures
        parsed_statement_runs(parse_expression_statement(toks, p)),
    decreases toks.len() - p, 16nat,
{
    lemma_parsed_expression_runs(toks, p, 10);
}

proof fn lemma_parsed_block_runs(toks: Seq<Token>, p: int)
    ensures
        parsed_statement_runs(parse_block(toks, p)),
    decreases toks.len() - p, 23nat,
{
    lemma_parsed_block_items_run(toks, p, seq![]);
}

proof fn lemma_all_run_push(items: Seq<StatementSpec>, item: StatementSpec)
    requires
        all_run(items, items.len()),
        statement_runs(item),
    ensures
        all_run(items.push(item), items.push(item).len()),
{
    lemma_all_run_prefix(items.push(item), items, items.len());
}

/// `all_run` over the first `n` statements depends on those alone.
proof fn lemma_all_run_prefix(longer: Seq<StatementSpec>, shorter: Seq<StatementSpec>, n: nat)
    requires
        n <= shorter.len() < longer.len(),
        forall|i: int| 0 <= i < shorter.len() ==> longer[i] == shorter[i],
    ensures
        all_run(longer, n) == all_run(shorter, n),
    decreases n,
{
    if n > 0 {
        lemma_all_run_prefix(longer, shorter, (n - 1) as nat);
    }
}

proof fn lemma_parsed_block_items_run(toks: Seq<Token>, p: int, items: Seq<StatementSpec>)
    ensures
        all_run(items, items.len()) ==> parsed_statement_runs(parse_block_items(toks, p, items)),
    decreases toks.len() - p, 22nat,
{
    if toks[p].token_type != TokenType::RBrace && !at_end(toks, p) {
        lemma_parsed_declaration_runs(toks, p);
        match parse_declaration(toks, p) {
            Ok((item, q)) => {
                if p < q < toks.len() {
                    if all_run(items, items.len()) {
                        lemma_all_run_push(items, item);
                    }
                    lemma_parsed_block_items_run(toks, q, items.push(item));
                }
            },
            Err(_) => {},
        }
    }
}

proof fn lemma_parsed_if_statement_runs(toks: Seq<Token>, p: int)
    ensures
        parsed_statement_runs(parse_if_statement(toks, p)),
    decreases toks.len() - p, 17nat,
{
    match expect(toks, p, TokenType::LParen, "expect '(' after if statement"@) {
        Ok(q) => {
            lemma_parsed_expression_runs(toks, q, 10);
            match parse_expr(toks, q, 10) {
                Ok((_, r)) => {
                    if in_order(toks, q, r) {
                        match expect(
                            toks,
                            r,
                            TokenType::RParen,
                            "expect ')' after if statement condition"@,
                        ) {
                            Ok(s) => match expect(
                                toks,
                                s,
                                TokenType::LBrace,
                                "expect '{' after if statement condition"@,
                            ) {
                                Ok(t) => {
                                    lemma_parsed_block_runs(toks, t);
                                    match parse_block(toks, t) {
                                        Ok((_, u)) => {
                                            if in_order(toks, t, u) && matches_any(
                                                toks,
                                                u,
                                                seq![TokenType::Else],
                                            ) {
                                                if matches_any(toks, u + 1, seq![TokenType::If]) {
                                                    lemma_parsed_if_statement_runs(toks, u + 2);
                                                } else {
                                                    match expect(
                                                        toks,
                                                        u + 1,
                                                        TokenType::LBrace,
                                                        "expect '{' after 'else'"@,
                                                    ) {
                                                        Ok(w) => {
                                                            lemma_parsed_block_runs(toks, w);
                                                        },
                                                        Err(_) => {},
                                                    }
                                                }
                                            }
                                        },
                                        Err(_) => {},
                                    }
                                },
                                Err(_) => {},
                            },
                            Err(_) => {},
                        }
                    }
                },
                Err(_) => {},
            }
        },
        Err(_) => {},
    }
}

/// Every statement of a program that the grammar parses runs.
pub proof fn lemma_parsed_program_runs(toks: Seq<Token>, p: int)
    ensures
        parse_program(toks, p) matches Ok(ss) ==> forall|i: int|
            0 <= i < ss.len() ==> statement_runs(#[trigger] ss[i]),
    decreases toks.len() - p,
{
    if !at_end(toks, p) {
        lemma_parsed_declaration_runs(toks, p);
        match parse_declaration(toks, p) {
            Ok((first, q)) => {
                if p < q < toks.len() {
                    lemma_parsed_program_runs(toks, q);
                    match parse_program(toks, q) {
                        Ok(rest) => {
                            let ss = seq![first] + rest;
                            assert forall|i: int| 0 <= i < ss.len() implies statement_runs(
                                #[trigger] ss[i],
                            ) by {
                                if i > 0 {
                                    assert(ss[i] == rest[i - 1]);
                                }
                            }
                        },
                        Err(_) => {},
                    }
                }
            },
            Err(_) => {},
        }
    }
}

/// The parser builds only programs that the interpreter can run: every
/// statement list whose view the grammar gives runs.
pub proof fn lemma_parsed_programs_run(toks: Seq<Token>, p: int, program: Seq<Statement>)
    requires
        parse_program(toks, p) == Ok::<Seq<StatementSpec>, Seq<char>>(statements_view(program)),
    ensures
        program_runs(program),
{
    lemma_parsed_program_runs(toks, p);
    lemma_statements_view_index(program);
    let ss = statements_view(program);
    match parse_program(toks, p) {
        Ok(parsed) => {
            assert(parsed == ss);
            assert(forall|i: int| 0 <= i < parsed.len() ==> statement_runs(#[trigger] parsed[i]));
        },
        Err(_) => {},
    }
    assert(forall|i: int| 0 <= i < ss.len() ==> statement_runs(#[trigger] ss[i]));
    assert forall|i: int| 0 <= i < program.len() implies statement_runs(
        crate::statement::statement_view(#[trigger] program[i]),
    ) by {
        assert(ss[i] == crate::statement::statement_view(program[i]));
    }
}

} // verus!
