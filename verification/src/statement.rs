use vstd::prelude::*;

use crate::expression::Expression;
use crate::token::Token;

verus! {

/// The statements of Lox.
#[derive(Debug, PartialEq)]
pub enum Statement {
    If { cond: Expression, body: Box<Statement>, elze: Option<Box<Statement>> },
    Var { name: Token, initializer: Option<Expression> },
    Block(Vec<Statement>),
    Expression(Expression),
    Print(Expression),
}

/// A statement as a mathematical value: a block holds a sequence of
/// statements.
pub enum StatementSpec {
    If { cond: Expression, body: Box<StatementSpec>, elze: Option<Box<StatementSpec>> },
    Var { name: Token, initializer: Option<Expression> },
    Block(Seq<StatementSpec>),
    Expression(Expression),
    Print(Expression),
}

pub open spec fn statement_view(s: Statement) -> StatementSpec
    decreases s,
{
    match s {
        Statement::If { cond, body, elze } => StatementSpec::If {
            cond,
            body: Box::new(statement_view(*body)),
            elze: match elze {
                Some(e) => Some(Box::new(statement_view(*e))),
                None => None,
            },
        },
        Statement::Var { name, initializer } => StatementSpec::Var { name, initializer },
        Statement::Block(v) => StatementSpec::Block(statements_view(v@)),
        Statement::Expression(e) => StatementSpec::Expression(e),
        Statement::Print(e) => StatementSpec::Print(e),
    }
}

pub open spec fn statements_view(ss: Seq<Statement>) -> Seq<StatementSpec>
    decreases ss,
{
    if ss.len() == 0 {
        seq![]
    } else {
        statements_view(ss.drop_last()).push(statement_view(ss.last()))
    }
}


/// The view of a list of statements is the view of each, in order.
pub proof fn lemma_statements_view_index(ss: Seq<Statement>)
    ensures
        statements_view(ss).len() == ss.len(),
        forall|i: int| 0 <= i < ss.len() ==> #[trigger] statements_view(ss)[i] == statement_view(ss[i]),
    decreases ss.len(),
{
    if ss.len() > 0 {
        lemma_statements_view_index(ss.drop_last());
        assert forall|i: int| 0 <= i < ss.len() implies #[trigger] statements_view(ss)[i] == statement_view(ss[i]) by {
            if i < ss.len() - 1 {
                assert(ss.drop_last()[i] == ss[i]);
            }
        }
    }
}

} // verus!
