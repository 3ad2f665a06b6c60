use vstd::prelude::*;

use crate::token::Token;

verus! {

/// The expressions of Lox.
#[derive(Debug, PartialEq)]
pub enum Expression {
    Ternary {
        condition: Box<Expression>,
        true_branch: Box<Expression>,
        false_branch: Box<Expression>,
    },
    Binary { left: Box<Expression>, operator: Token, right: Box<Expression> },
    Logical { left: Box<Expression>, operator: Token, right: Box<Expression> },
    Call { callee: Box<Expression>, paren: Token, arguments: Vec<Expression> },
    Assignment { name: Token, value: Box<Expression> },
    Unary { operator: Token, right: Box<Expression> },
    Comma { left: Box<Expression>, right: Box<Expression> },
    Variable(Token),
    Grouping(Box<Expression>),
    Literal(LiteralValue),
}

/// A literal value as it is written in the source. A number keeps the text of
/// its token, which has the syntax of a decimal floating-point number.
#[derive(Debug, PartialEq, Clone)]
pub enum LiteralValue {
    String(String),
    Number(String),
    True,
    False,
    Null,
}

} // verus!
