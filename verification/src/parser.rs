use vstd::prelude::*;
use vstd::string::StringExecFns;

use crate::error::LoxError;
use crate::expression::{Expression, LiteralValue};
use crate::grammar::{
    at_end, eof_ahead, check, combine, expect, in_order, level_operators, matches_any,
    missing_operand_message, missing_operand_operators, parse_block, parse_block_items,
    parse_declaration, parse_expr, parse_expression_statement, parse_if_statement,
    parse_operations, parse_print_statement, parse_program, parse_statement, parse_var_declaration,
    primary_of, recovery_from, recovery_point, starts_statement, Parsed,
};
use crate::lexer::{lexed_tokens, tokens_match};
use crate::lexer_laws::lemma_lexed_layout;
use crate::number::is_float_literal;
use crate::statement::{statement_view, statements_view, Statement, StatementSpec};
use crate::token::{Token, TokenType};

verus! {

broadcast use vstd::seq::group_seq_axioms;

/// The error is a parse error with this message.
pub open spec fn is_parse_error(e: LoxError, message: Seq<char>) -> bool {
    e matches LoxError::Parse { message: m } && m@ == message
}

/// Parsing moved forward from `p` to `q` without passing an end-of-input
/// token: it stops at the first one at the latest.
pub open spec fn passes_no_end(toks: Seq<Token>, p: int, q: int) -> bool {
    &&& p <= q
    &&& forall|k: int| p <= k < q ==> #[trigger] toks[k].token_type != TokenType::Eof
}

/// `r` is the expression that the grammar gives, and `end` the position after
/// it; or `r` is the error that the grammar gives.
pub open spec fn expr_outcome(r: Result<Expression, LoxError>, s: Parsed<Expression>, end: int) -> bool {
    match s {
        Ok((e, q)) => r == Ok::<Expression, LoxError>(e) && end == q,
        Err(m) => r matches Err(e) && is_parse_error(e, m),
    }
}

/// `r` is the statement that the grammar gives, and `end` the position after
/// it; or `r` is the error that the grammar gives.
pub open spec fn stmt_outcome(r: Result<Statement, LoxError>, s: Parsed<StatementSpec>, end: int) -> bool {
    match s {
        Ok((st, q)) => r matches Ok(x) && statement_view(x) == st && end == q,
        Err(m) => r matches Err(e) && is_parse_error(e, m),
    }
}

/// The statements of a whole program that the grammar gives, or its error.
pub open spec fn program_outcome(
    r: Result<Vec<Statement>, LoxError>,
    s: Result<Seq<StatementSpec>, Seq<char>>,
) -> bool {
    match s {
        Ok(ss) => r matches Ok(v) && statements_view(v@) == ss,
        Err(m) => r matches Err(e) && is_parse_error(e, m),
    }
}

/// The statements `pre` followed by those that `rest` gives, or its error.
pub open spec fn prefixed(
    pre: Seq<StatementSpec>,
    rest: Result<Seq<StatementSpec>, Seq<char>>,
) -> Result<Seq<StatementSpec>, Seq<char>> {
    match rest {
        Ok(ss) => Ok(pre + ss),
        Err(m) => Err(m),
    }
}

/// The tokens that lexing yields always reach an end-of-input token, so a
/// parser over them may parse.
pub proof fn lemma_lexed_tokens_parse(ts: Seq<Token>, b: Seq<u8>, pos: int)
    requires
        0 <= pos <= b.len(),
        tokens_match(ts, lexed_tokens(b, pos)),
    ensures
        eof_ahead(ts, 0),
{
    lemma_lexed_layout(b, pos);
    let k = ts.len() - 1;
    assert(crate::lexer::token_matches(ts[k], lexed_tokens(b, pos)[k]));
    assert(ts[k].token_type == TokenType::Eof);
}

proof fn lemma_statements_view_push(ss: Seq<Statement>, s: Statement)
    ensures
        statements_view(ss.push(s)) == statements_view(ss).push(statement_view(s)),
{
    assert(ss.push(s).drop_last() =~= ss);
}

/// Turns a sequence of tokens into statements.
pub struct Parser<'a> {
    current: usize,
    tokens: &'a Vec<Token>,
}

impl<'a> Parser<'a> {
    pub closed spec fn tokens_view(&self) -> Seq<Token> {
        self.tokens@
    }

    /// The index of the token that parsing reads next.
    pub closed spec fn position(&self) -> int {
        self.current as int
    }

    /// An end-of-input token lies ahead, so reading never runs past the
    /// tokens.
    pub closed spec fn wf(&self) -> bool {
        &&& self.current < self.tokens@.len()
        &&& eof_ahead(self.tokens@, self.current as int)
    }

    /// The token before the current one exists where it may be read again.
    spec fn can_look_back(&self) -> bool {
        self.current > 0 || !at_end(self.tokens@, self.current as int)
    }

    /// From `before` to `after`, the tokens stay and the position moves
    /// forward, over no end-of-input token; past the current token when it
    /// was not the end of input and the part parsed.
    spec fn steps(before: Self, after: Self, ok: bool) -> bool {
        &&& after.wf()
        &&& after.tokens == before.tokens
        &&& passes_no_end(before.tokens@, before.current as int, after.current as int)
        &&& (ok && !at_end(before.tokens@, before.current as int) ==> before.current
            < after.current)
    }

    pub fn new(tokens: &'a Vec<Token>) -> (p: Self)
        ensures
            p.tokens_view() == tokens@,
            p.position() == 0,
            p.wf() == eof_ahead(tokens@, 0),
    {
        let p = Parser { current: 0, tokens };
        proof {
            if eof_ahead(tokens@, 0) {
                let k = choose|k: int| 0 <= k < tokens@.len() && tokens@[k].token_type == TokenType::Eof;
                assert(0 < tokens@.len());
            }
        }
        p
    }

    /// Skips tokens after an error up to the next likely start of a statement.
    #[allow(dead_code)]
    fn synchronize(&mut self)
        requires
            old(self).wf(),
        ensures
            final(self).wf(),
            final(self).tokens == old(self).tokens,
            final(self).current == recovery_point(old(self).tokens@, old(self).current as int),
    {
        let ghost toks = self.tokens@;
        self.advance();
        while !self.is_at_end()
            invariant
                self.wf(),
                self.tokens == old(self).tokens,
                self.tokens@ == toks,
                self.current > 0 || at_end(toks, self.current as int),
                recovery_point(toks, old(self).current as int) == recovery_from(
                    toks,
                    self.current as int,
                ),
            decreases toks.len() - self.current,
        {
            if self.previous().token_type == TokenType::SemiColon {
                return;
            }
            match self.peek().token_type {
                TokenType::Func
                | TokenType::Class
                | TokenType::Var
                | TokenType::For
                | TokenType::If
                | TokenType::Return => return,
                _ => self.advance(),
            };
        }
    }

    /// Parses the tokens from the current position to the end of input.
    pub fn parse(&mut self) -> (r: Result<Vec<Statement>, LoxError>)
        requires
            old(self).wf(),
        ensures
            final(self).wf(),
            final(self).tokens_view() == old(self).tokens_view(),
            r is Ok ==> at_end(final(self).tokens_view(), final(self).position()),
            passes_no_end(old(self).tokens_view(), old(self).position(), final(self).position()),
            program_outcome(r, parse_program(old(self).tokens_view(), old(self).position())),
    {
        let ghost toks = self.tokens@;
        let ghost p0 = self.current as int;
        let mut statements: Vec<Statement> = vec![];
        while !self.is_at_end()
            invariant
                self.wf(),
                self.tokens == old(self).tokens,
                self.tokens@ == toks,
                toks == old(self).tokens@,
                p0 == old(self).current,
                passes_no_end(toks, p0, self.current as int),
                self.current > 0 || self.current == p0,
                parse_program(toks, p0) == prefixed(
                    statements_view(statements@),
                    parse_program(toks, self.current as int),
                ),
            decreases toks.len() - self.current,
        {
            let ghost p = self.current as int;
            let statement = self.declaration()?;
            proof {
                lemma_statements_view_push(statements@, statement);
                let pre = statements_view(statements@);
                let sv = statement_view(statement);
                match parse_program(toks, self.current as int) {
                    Ok(rest) => {
                        assert(pre + (seq![sv] + rest) =~= pre.push(sv) + rest);
                    },
                    Err(_) => {},
                }
            }
            statements.push(statement);
        }
        proof {
            assert(statements_view(statements@) + seq![] =~= statements_view(statements@));
        }
        Ok(statements)
    }

    /// declaration → "var" var_declaration | statement
    fn declaration(&mut self) -> (r: Result<Statement, LoxError>)
        requires
            old(self).wf(),
            old(self).can_look_back(),
        ensures
            Self::steps(*old(self), *final(self), r is Ok),
            stmt_outcome(
                r,
                parse_declaration(old(self).tokens@, old(self).current as int),
                final(self).current as int,
            ),
        decreases old(self).tokens@.len() - old(self).current, 21nat,
    {
        let var: &[TokenType] = &[TokenType::Var];
        assert(var@ == seq![TokenType::Var]);
        if self.match_token(var) {
            return self.var_declaration();
        }
        self.statement()
    }

    /// var_declaration → IDENTIFIER ("=" expression)? ";"
    fn var_declaration(&mut self) -> (r: Result<Statement, LoxError>)
        requires
            old(self).wf(),
            old(self).current > 0,
        ensures
            Self::steps(*old(self), *final(self), r is Ok),
            stmt_outcome(
                r,
                parse_var_declaration(old(self).tokens@, old(self).current as int),
                final(self).current as int,
            ),
        decreases old(self).tokens@.len() - old(self).current, 20nat,
    {
        self.consume(TokenType::Identifier, "expect variable name".to_owned())?;
        let name = self.previous().clone();

        let mut initializer = None;
        let equal: &[TokenType] = &[TokenType::Equal];
        assert(equal@ == seq![TokenType::Equal]);
        if self.match_token(equal) {
            initializer = Some(self.expression()?);
        }

        self.consume(TokenType::SemiColon, "expect ';' after variable declaration".to_owned())?;
        Ok(Statement::Var { name, initializer })
    }

    /// statement → "print" print_statement | "{" block | "if" if_statement
    ///           | expression_statement
    fn statement(&mut self) -> (r: Result<Statement, LoxError>)
        requires
            old(self).wf(),
            old(self).can_look_back(),
        ensures
            Self::steps(*old(self), *final(self), r is Ok),
            stmt_outcome(
                r,
                parse_statement(old(self).tokens@, old(self).current as int),
                final(self).current as int,
            ),
        decreases old(self).tokens@.len() - old(self).current, 19nat,
    {
        let print: &[TokenType] = &[TokenType::Print];
        assert(print@ == seq![TokenType::Print]);
        let left_brace: &[TokenType] = &[TokenType::LBrace];
        assert(left_brace@ == seq![TokenType::LBrace]);
        let if_keyword: &[TokenType] = &[TokenType::If];
        assert(if_keyword@ == seq![TokenType::If]);
        if self.match_token(print) {
            return self.print_statement();
        } else if self.match_token(left_brace) {
            return self.block_statement();
        } else if self.match_token(if_keyword) {
            return self.if_statement();
        }
        self.expression_statement()
    }

    /// print_statement → expression ";"
    fn print_statement(&mut self) -> (r: Result<Statement, LoxError>)
        requires
            old(self).wf(),
            old(self).current > 0,
        ensures
            Self::steps(*old(self), *final(self), r is Ok),
            stmt_outcome(
                r,
                parse_print_statement(old(self).tokens@, old(self).current as int),
                final(self).current as int,
            ),
        decreases old(self).tokens@.len() - old(self).current, 18nat,
    {
        let value = self.expression()?;
        self.consume(TokenType::SemiColon, "expect ';' after value".to_owned())?;
        Ok(Statement::Print(value))
    }

    /// block → declaration* "}"
    fn block_statement(&mut self) -> (r: Result<Statement, LoxError>)
        requires
            old(self).wf(),
            old(self).current > 0,
        ensures
            Self::steps(*old(self), *final(self), r is Ok),
            stmt_outcome(
                r,
                parse_block(old(self).tokens@, old(self).current as int),
                final(self).current as int,
            ),
        decreases old(self).tokens@.len() - old(self).current, 23nat,
    {
        let ghost toks = self.tokens@;
        let ghost p = self.current as int;
        let mut statements: Vec<Statement> = vec![];

        while self.peek().token_type != TokenType::RBrace && !self.is_at_end()
            invariant
                self.wf(),
                self.tokens == old(self).tokens,
                self.tokens@ == toks,
                toks == old(self).tokens@,
                p == old(self).current,
                self.current > 0,
                p <= self.current,
                passes_no_end(toks, p, self.current as int),
                parse_block(toks, p) == parse_block_items(
                    toks,
                    self.current as int,
                    statements_view(statements@),
                ),
            decreases toks.len() - self.current,
        {
            let statement = self.declaration()?;
            proof {
                lemma_statements_view_push(statements@, statement);
            }
            statements.push(statement);
        }

        self.consume(TokenType::RBrace, "expect '}' after block".to_owned())?;
        Ok(Statement::Block(statements))
    }

    /// if_statement → "(" expression ")" "{" block ("else" ("if" if_statement
    /// | "{" block))?
    fn if_statement(&mut self) -> (r: Result<Statement, LoxError>)
        requires
            old(self).wf(),
            old(self).current > 0,
        ensures
            Self::steps(*old(self), *final(self), r is Ok),
            stmt_outcome(
                r,
                parse_if_statement(old(self).tokens@, old(self).current as int),
                final(self).current as int,
            ),
        decreases old(self).tokens@.len() - old(self).current, 17nat,
    {
        self.consume(TokenType::LParen, "expect '(' after if statement".to_owned())?;
        let cond = self.expression()?;
        self.consume(TokenType::RParen, "expect ')' after if statement condition".to_owned())?;

        self.consume(TokenType::LBrace, "expect '{' after if statement condition".to_owned())?;

        let body = self.block_statement()?;
        let mut elze: Option<Box<Statement>> = None;
        let else_keyword: &[TokenType] = &[TokenType::Else];
        assert(else_keyword@ == seq![TokenType::Else]);
        let if_keyword: &[TokenType] = &[TokenType::If];
        assert(if_keyword@ == seq![TokenType::If]);
        if self.match_token(else_keyword) {
            if self.match_token(if_keyword) {
                let stmt = self.if_statement()?;
                elze = Some(Box::new(stmt));
            } else {
                self.consume(TokenType::LBrace, "expect '{' after 'else'".to_owned())?;
                let stmt = self.block_statement()?;
                elze = Some(Box::new(stmt));
            }
        };

        Ok(Statement::If { cond, body: Box::new(body), elze })
    }

    /// expression_statement → expression ";"
    fn expression_statement(&mut self) -> (r: Result<Statement, LoxError>)
        requires
            old(self).wf(),
            old(self).can_look_back(),
        ensures
            Self::steps(*old(self), *final(self), r is Ok),
            stmt_outcome(
                r,
                parse_expression_statement(old(self).tokens@, old(self).current as int),
                final(self).current as int,
            ),
        decreases old(self).tokens@.len() - old(self).current, 16nat,
    {
        let value = self.expression()?;
        self.consume(TokenType::SemiColon, "expect ';' after value".to_owned())?;
        Ok(Statement::Expression(value))
    }

    fn expression(&mut self) -> (r: Result<Expression, LoxError>)
        requires
            old(self).wf(),
            old(self).can_look_back(),
        ensures
            Self::steps(*old(self), *final(self), r is Ok),
            expr_outcome(
                r,
                parse_expr(old(self).tokens@, old(self).current as int, 10),
                final(self).current as int,
            ),
        decreases old(self).tokens@.len() - old(self).current, 12nat,
    {
        self.comma()
    }

    /// comma → assignment ("," assignment)*
    fn comma(&mut self) -> (r: Result<Expression, LoxError>)
        requires
            old(self).wf(),
            old(self).can_look_back(),
        ensures
            Self::steps(*old(self), *final(self), r is Ok),
            expr_outcome(
                r,
                parse_expr(old(self).tokens@, old(self).current as int, 10),
                final(self).current as int,
            ),
        decreases old(self).tokens@.len() - old(self).current, 11nat,
    {
        let ghost toks = self.tokens@;
        let ghost p = self.current as int;
        let mut expression = self.assignment()?;
        let operators: &[TokenType] = &[TokenType::Comma];
        while self.match_token(operators)
            invariant
                self.wf(),
                self.tokens == old(self).tokens,
                self.tokens@ == toks,
                toks == old(self).tokens@,
                p == old(self).current,
                operators@ == level_operators(10),
                p <= self.current,
                passes_no_end(toks, p, self.current as int),
                !at_end(toks, p) ==> p < self.current,
                self.current > 0 || !at_end(toks, self.current as int),
                parse_expr(toks, p, 10) == parse_operations(
                    toks,
                    self.current as int,
                    10,
                    expression,
                ),
            decreases toks.len() - self.current,
        {
            let right = self.assignment()?;
            expression = Expression::Comma { left: Box::new(expression), right: Box::new(right) };
        }

        Ok(expression)
    }

    /// assignment → ternary ("=" assignment)?
    fn assignment(&mut self) -> (r: Result<Expression, LoxError>)
        requires
            old(self).wf(),
            old(self).can_look_back(),
        ensures
            Self::steps(*old(self), *final(self), r is Ok),
            expr_outcome(
                r,
                parse_expr(old(self).tokens@, old(self).current as int, 9),
                final(self).current as int,
            ),
        decreases old(self).tokens@.len() - old(self).current, 10nat,
    {
        let ghost toks = self.tokens@;
        let ghost p = self.current as int;
        let mut expression = self.ternary()?;
        let equal: &[TokenType] = &[TokenType::Equal];
        assert(equal@ == seq![TokenType::Equal]);
        if self.match_token(equal) {
            let value = self.assignment()?;

            if let Expression::Variable(name) = expression {
                expression = Expression::Assignment { name, value: Box::new(value) }
            } else {
                return Err(LoxError::Parse { message: "invalid assignment target".to_owned() });
            }
        }

        Ok(expression)
    }

    /// ternary → logical_or ("?" expression ":" ternary)?
    fn ternary(&mut self) -> (r: Result<Expression, LoxError>)
        requires
            old(self).wf(),
            old(self).can_look_back(),
        ensures
            Self::steps(*old(self), *final(self), r is Ok),
            expr_outcome(
                r,
                parse_expr(old(self).tokens@, old(self).current as int, 8),
                final(self).current as int,
            ),
        decreases old(self).tokens@.len() - old(self).current, 9nat,
    {
        let mut expression = self.logical_or()?;
        let question: &[TokenType] = &[TokenType::Question];
        assert(question@ == seq![TokenType::Question]);
        if self.match_token(question) {
            let t = self.expression()?;

            self.consume(TokenType::Colon, "expect ':' after ternary".to_owned())?;
            let f = self.ternary()?;
            expression = Expression::Ternary {
                condition: Box::new(expression),
                true_branch: Box::new(t),
                false_branch: Box::new(f),
            };
        }

        Ok(expression)
    }

    /// logical_or → logical_and ("||" logical_and)*
    fn logical_or(&mut self) -> (r: Result<Expression, LoxError>)
        requires
            old(self).wf(),
            old(self).can_look_back(),
        ensures
            Self::steps(*old(self), *final(self), r is Ok),
            expr_outcome(
                r,
                parse_expr(old(self).tokens@, old(self).current as int, 7),
                final(self).current as int,
            ),
        decreases old(self).tokens@.len() - old(self).current, 8nat,
    {
        let ghost toks = self.tokens@;
        let ghost p = self.current as int;
        let mut expression = self.logical_and()?;
        let operators: &[TokenType] = &[TokenType::PipePipe];
        while self.match_token(operators)
            invariant
                self.wf(),
                self.tokens == old(self).tokens,
                self.tokens@ == toks,
                toks == old(self).tokens@,
                p == old(self).current,
                operators@ == level_operators(7),
                p <= self.current,
                passes_no_end(toks, p, self.current as int),
                !at_end(toks, p) ==> p < self.current,
                self.current > 0 || !at_end(toks, self.current as int),
                parse_expr(toks, p, 7) == parse_operations(
                    toks,
                    self.current as int,
                    7,
                    expression,
                ),
            decreases toks.len() - self.current,
        {
            let op = self.previous().clone();
            let right = self.logical_and()?;

            expression = Expression::Logical {
                left: Box::new(expression),
                operator: op,
                right: Box::new(right),
            }
        }
        Ok(expression)
    }

    /// logical_and → equality ("&&" equality)*
    fn logical_and(&mut self) -> (r: Result<Expression, LoxError>)
        requires
            old(self).wf(),
            old(self).can_look_back(),
        ensures
            Self::steps(*old(self), *final(self), r is Ok),
            expr_outcome(
                r,
                parse_expr(old(self).tokens@, old(self).current as int, 6),
                final(self).current as int,
            ),
        decreases old(self).tokens@.len() - old(self).current, 7nat,
    {
        let ghost toks = self.tokens@;
        let ghost p = self.current as int;
        let mut expression = self.equality()?;
        let operators: &[TokenType] = &[TokenType::AmpAmp];
        while self.match_token(operators)
            invariant
                self.wf(),
                self.tokens == old(self).tokens,
                self.tokens@ == toks,
                toks == old(self).tokens@,
                p == old(self).current,
                operators@ == level_operators(6),
                p <= self.current,
                passes_no_end(toks, p, self.current as int),
                !at_end(toks, p) ==> p < self.current,
                self.current > 0 || !at_end(toks, self.current as int),
                parse_expr(toks, p, 6) == parse_operations(
                    toks,
                    self.current as int,
                    6,
                    expression,
                ),
            decreases toks.len() - self.current,
        {
            let op = self.previous().clone();
            let right = self.equality()?;

            expression = Expression::Logical {
                left: Box::new(expression),
                operator: op,
                right: Box::new(right),
            };
        }

        Ok(expression)
    }

    /// equality → comparison (("!=" | "==") comparison)*
    fn equality(&mut self) -> (r: Result<Expression, LoxError>)
        requires
            old(self).wf(),
            old(self).can_look_back(),
        ensures
            Self::steps(*old(self), *final(self), r is Ok),
            expr_outcome(
                r,
                parse_expr(old(self).tokens@, old(self).current as int, 5),
                final(self).current as int,
            ),
        decreases old(self).tokens@.len() - old(self).current, 6nat,
    {
        let ghost toks = self.tokens@;
        let ghost p = self.current as int;
        let mut expression = self.comparison()?;
        let operators: &[TokenType] = &[TokenType::EqualEqual, TokenType::BangEqual];
        while self.match_token(operators)
            invariant
                self.wf(),
                self.tokens == old(self).tokens,
                self.tokens@ == toks,
                toks == old(self).tokens@,
                p == old(self).current,
                operators@ == level_operators(5),
                p <= self.current,
                passes_no_end(toks, p, self.current as int),
                !at_end(toks, p) ==> p < self.current,
                self.current > 0 || !at_end(toks, self.current as int),
                parse_expr(toks, p, 5) == parse_operations(
                    toks,
                    self.current as int,
                    5,
                    expression,
                ),
            decreases toks.len() - self.current,
        {
            let operator = self.previous().clone();
            let right = self.comparison()?;
            expression = Expression::Binary {
                left: Box::new(expression),
                operator: operator.clone(),
                right: Box::new(right),
            };
        }

        Ok(expression)
    }

    /// comparison → term ((">" | ">=" | "<" | "<=") term)*
    fn comparison(&mut self) -> (r: Result<Expression, LoxError>)
        requires
            old(self).wf(),
            old(self).can_look_back(),
        ensures
            Self::steps(*old(self), *final(self), r is Ok),
            expr_outcome(
                r,
                parse_expr(old(self).tokens@, old(self).current as int, 4),
                final(self).current as int,
            ),
        decreases old(self).tokens@.len() - old(self).current, 5nat,
    {
        let ghost toks = self.tokens@;
        let ghost p = self.current as int;
        let mut expression = self.term()?;
        let operators: &[TokenType] = &[TokenType::Greater, TokenType::GreaterEqual, TokenType::Less, TokenType::LessEqual];
        while self.match_token(operators)
            invariant
                self.wf(),
                self.tokens == old(self).tokens,
                self.tokens@ == toks,
                toks == old(self).tokens@,
                p == old(self).current,
                operators@ == level_operators(4),
                p <= self.current,
                passes_no_end(toks, p, self.current as int),
                !at_end(toks, p) ==> p < self.current,
                self.current > 0 || !at_end(toks, self.current as int),
                parse_expr(toks, p, 4) == parse_operations(
                    toks,
                    self.current as int,
                    4,
                    expression,
                ),
            decreases toks.len() - self.current,
        {
            let operator = self.previous().clone();
            let right = self.term()?;
            expression = Expression::Binary {
                left: Box::new(expression),
                operator: operator.clone(),
                right: Box::new(right),
            };
        }
        Ok(expression)
    }

    /// term → factor (("-" | "+") factor)*
    fn term(&mut self) -> (r: Result<Expression, LoxError>)
        requires
            old(self).wf(),
            old(self).can_look_back(),
        ensures
            Self::steps(*old(self), *final(self), r is Ok),
            expr_outcome(
                r,
                parse_expr(old(self).tokens@, old(self).current as int, 3),
                final(self).current as int,
            ),
        decreases old(self).tokens@.len() - old(self).current, 4nat,
    {
        let ghost toks = self.tokens@;
        let ghost p = self.current as int;
        let mut expression = self.factor()?;
        let operators: &[TokenType] = &[TokenType::Plus, TokenType::Minus];
        while self.match_token(operators)
            invariant
                self.wf(),
                self.tokens == old(self).tokens,
                self.tokens@ == toks,
                toks == old(self).tokens@,
                p == old(self).current,
                operators@ == level_operators(3),
                p <= self.current,
                passes_no_end(toks, p, self.current as int),
                !at_end(toks, p) ==> p < self.current,
                self.current > 0 || !at_end(toks, self.current as int),
                parse_expr(toks, p, 3) == parse_operations(
                    toks,
                    self.current as int,
                    3,
                    expression,
                ),
            decreases toks.len() - self.current,
        {
            let operator = self.previous().clone();
            let right = self.factor()?;
            expression = Expression::Binary {
                left: Box::new(expression),
                operator: operator.clone(),
                right: Box::new(right),
            };
        }
        Ok(expression)
    }

    /// factor → unary (("/" | "*") unary)*
    fn factor(&mut self) -> (r: Result<Expression, LoxError>)
        requires
            old(self).wf(),
            old(self).can_look_back(),
        ensures
            Self::steps(*old(self), *final(self), r is Ok),
            expr_outcome(
                r,
                parse_expr(old(self).tokens@, old(self).current as int, 2),
                final(self).current as int,
            ),
        decreases old(self).tokens@.len() - old(self).current, 3nat,
    {
        let ghost toks = self.tokens@;
        let ghost p = self.current as int;
        let mut expression = self.unary()?;
        let operators: &[TokenType] = &[TokenType::Star, TokenType::Slash];
        while self.match_token(operators)
            invariant
                self.wf(),
                self.tokens == old(self).tokens,
                self.tokens@ == toks,
                toks == old(self).tokens@,
                p == old(self).current,
                operators@ == level_operators(2),
                p <= self.current,
                passes_no_end(toks, p, self.current as int),
                !at_end(toks, p) ==> p < self.current,
                self.current > 0 || !at_end(toks, self.current as int),
                parse_expr(toks, p, 2) == parse_operations(
                    toks,
                    self.current as int,
                    2,
                    expression,
                ),
            decreases toks.len() - self.current,
        {
            let operator = self.previous().clone();
            let right = self.unary()?;
            expression = Expression::Binary {
                left: Box::new(expression),
                operator: operator.clone(),
                right: Box::new(right),
            };
        }
        Ok(expression)
    }

    /// unary → ("!" | "-") unary | binary_op_error | primary
    fn unary(&mut self) -> (r: Result<Expression, LoxError>)
        requires
            old(self).wf(),
            old(self).can_look_back(),
        ensures
            Self::steps(*old(self), *final(self), r is Ok),
            expr_outcome(
                r,
                parse_expr(old(self).tokens@, old(self).current as int, 1),
                final(self).current as int,
            ),
        decreases old(self).tokens@.len() - old(self).current, 2nat,
    {
        let unary_operators: &[TokenType] = &[TokenType::Minus, TokenType::Bang];
        assert(unary_operators@ == seq![TokenType::Minus, TokenType::Bang]);
        let binary_operators: &[TokenType] = &[
            TokenType::EqualEqual,
            TokenType::BangEqual,
            TokenType::Greater,
            TokenType::GreaterEqual,
            TokenType::Less,
            TokenType::LessEqual,
            TokenType::Plus,
            TokenType::Star,
            TokenType::Slash,
        ];
        assert(binary_operators@ == seq![
            TokenType::EqualEqual,
            TokenType::BangEqual,
            TokenType::Greater,
            TokenType::GreaterEqual,
            TokenType::Less,
            TokenType::LessEqual,
            TokenType::Plus,
            TokenType::Star,
            TokenType::Slash,
        ]);
        if self.match_token(unary_operators) {
            let operator = self.previous().clone();
            let right = self.unary()?;
            return Ok(Expression::Unary { operator, right: Box::new(right) });
        } else if self.match_token(binary_operators) {
            let mut message = "missing left-hand operand before '".to_owned();
            message.append(self.previous().lexeme.as_str());
            message.append("'");
            return Err(LoxError::Parse { message });
        }
        self.primary()
    }

    /// primary → NUMBER | STRING | "true" | "false" | "null" | IDENTIFIER
    ///         | "(" expression ")"
    fn primary(&mut self) -> (r: Result<Expression, LoxError>)
        requires
            old(self).wf(),
            old(self).can_look_back(),
        ensures
            Self::steps(*old(self), *final(self), r is Ok),
            expr_outcome(
                r,
                parse_expr(old(self).tokens@, old(self).current as int, 0),
                final(self).current as int,
            ),
        decreases old(self).tokens@.len() - old(self).current, 1nat,
    {
        let was_at_end = self.is_at_end();
        self.advance();
        let token = self.previous().clone();
        match token.token_type {
            TokenType::True => Ok(Expression::Literal(LiteralValue::True)),
            TokenType::False => Ok(Expression::Literal(LiteralValue::False)),
            TokenType::Null => Ok(Expression::Literal(LiteralValue::Null)),
            TokenType::String => Ok(Expression::Literal(LiteralValue::String(token.lexeme))),
            TokenType::Number => {
                if is_float_literal(&token.lexeme) {
                    Ok(Expression::Literal(LiteralValue::Number(token.lexeme)))
                } else {
                    Err(LoxError::Parse { message: "number is not in valid format".to_owned() })
                }
            },
            TokenType::LParen => {
                if was_at_end {
                    // At the end of input the `(` before it is read again,
                    // and no expression can follow it.
                    return Err(LoxError::Parse { message: "expect expression".to_owned() });
                }
                let expression = self.expression()?;
                self.consume(TokenType::RParen, "expect ')' after expression".to_owned())?;
                return Ok(Expression::Grouping(Box::new(expression)));
            },
            TokenType::Identifier => Ok(Expression::Variable(token)),
            _ => Err(LoxError::Parse { message: "expect expression".to_owned() }),
        }
    }

    /// Reads the current token if it is of one of the kinds `tt`.
    fn match_token(&mut self, tt: &[TokenType]) -> (r: bool)
        requires
            old(self).wf(),
        ensures
            final(self).wf(),
            final(self).tokens == old(self).tokens,
            r == matches_any(old(self).tokens@, old(self).current as int, tt@),
            final(self).current == if r {
                old(self).current + 1
            } else {
                old(self).current as int
            },
    {
        let mut i: usize = 0;
        while i < tt.len()
            invariant
                0 <= i <= tt.len(),
                *self == *old(self),
                self.wf(),
                forall|j: int|
                    0 <= j < i ==> !check(self.tokens@, self.current as int, #[trigger] tt@[j]),
            decreases tt.len() - i,
        {
            if self.check(tt[i]) {
                self.advance();
                return true;
            }
            i += 1;
        }
        proof {
            if matches_any(self.tokens@, self.current as int, tt@) {
                let k = choose|k: int|
                    0 <= k < tt@.len() && tt@[k] == self.tokens@[self.current as int].token_type;
                assert(check(self.tokens@, self.current as int, tt@[k]));
            }
        }
        false
    }

    fn check(&self, tt: TokenType) -> (r: bool)
        requires
            self.wf(),
        ensures
            r == check(self.tokens@, self.current as int, tt),
    {
        if self.is_at_end() {
            return false;
        }
        self.peek().token_type == tt
    }

    /// Moves past the current token, unless it ends the input.
    fn advance(&mut self)
        requires
            old(self).wf(),
        ensures
            final(self).wf(),
            final(self).tokens == old(self).tokens,
            final(self).current == if at_end(old(self).tokens@, old(self).current as int) {
                old(self).current as int
            } else {
                old(self).current + 1
            },
    {
        let n = self.tokens.len();
        if !self.is_at_end() {
            self.current += 1;
        }
    }

    fn is_at_end(&self) -> (r: bool)
        requires
            self.wf(),
        ensures
            r == at_end(self.tokens@, self.current as int),
    {
        self.peek().token_type == TokenType::Eof
    }

    fn peek(&self) -> (t: &Token)
        requires
            self.wf(),
        ensures
            *t == self.tokens@[self.current as int],
            self.current < self.tokens@.len(),
    {
        &self.tokens[self.current]
    }

    /// Reads a token of kind `token_type`, or fails with `error_message`.
    fn consume(&mut self, token_type: TokenType, error_message: String) -> (r: Result<(), LoxError>)
        requires
            old(self).wf(),
        ensures
            final(self).wf(),
            final(self).tokens == old(self).tokens,
            match expect(
                old(self).tokens@,
                old(self).current as int,
                token_type,
                error_message@,
            ) {
                Ok(q) => r is Ok && final(self).current == q,
                Err(m) => r matches Err(e) && is_parse_error(e, m) && final(self).current
                    == old(self).current,
            },
    {
        let expected: &[TokenType] = &[token_type];
        assert(expected@ == seq![token_type]);
        if !self.match_token(expected) {
            return Err(LoxError::Parse { message: error_message });
        }
        Ok(())
    }

    fn previous(&self) -> (t: &Token)
        requires
            self.wf(),
            self.current > 0,
        ensures
            *t == self.tokens@[self.current - 1],
    {
        &self.tokens[self.current - 1]
    }
}

} // verus!
