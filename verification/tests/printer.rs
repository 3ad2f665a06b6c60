use rlox::expression::{Expression, LiteralValue};
use rlox::printer::{ast, ExpressionForm};
use rlox::token::{Token, TokenType};
use rlox::value::{Arithmetic, Comparison, Numeric};

#[derive(Debug, Clone, Copy, PartialEq)]
struct Float(f64);

impl Numeric for Float {
    fn from_literal(text: &str) -> Option<Self> {
        text.parse::<f64>().ok().map(Float)
    }

    fn negate(self) -> Self {
        Float(-self.0)
    }

    fn arithmetic(op: Arithmetic, left: Self, right: Self) -> Self {
        Float(match op {
            Arithmetic::Add => left.0 + right.0,
            Arithmetic::Subtract => left.0 - right.0,
            Arithmetic::Multiply => left.0 * right.0,
            Arithmetic::Divide => left.0 / right.0,
        })
    }

    fn compare(op: Comparison, left: Self, right: Self) -> bool {
        match op {
            Comparison::Greater => left.0 > right.0,
            Comparison::GreaterEqual => left.0 >= right.0,
            Comparison::Less => left.0 < right.0,
            Comparison::LessEqual => left.0 <= right.0,
            Comparison::Equal => left.0 == right.0,
        }
    }

    fn is_zero(self) -> bool {
        self.0 == 0.0
    }

    fn to_text(self) -> String {
        format!("{}", self.0)
    }
}

struct Debugged;

impl ExpressionForm for Debugged {
    fn form(e: &Expression) -> String {
        format!("{:?}", e)
    }
}

fn number(text: &str) -> Box<Expression> {
    Box::new(Expression::Literal(LiteralValue::Number(text.to_string())))
}

#[test]
fn binary() {
    let expression = Expression::Binary {
        left: number("1.0"),
        operator: Token::new(TokenType::Plus, 0, 1, String::from("+")),
        right: number("2.0"),
    };

    let printed = ast::<Float, Debugged>(&expression);
    assert_eq!(printed, "(+ 1 2)");
}

#[test]
fn every_form_prints() {
    let minus = Token::new(TokenType::Minus, 0, 1, String::from("-"));
    let x = Token::new(TokenType::Identifier, 0, 1, String::from("x"));
    let expression = Expression::Comma {
        left: Box::new(Expression::Ternary {
            condition: Box::new(Expression::Literal(LiteralValue::True)),
            true_branch: Box::new(Expression::Unary { operator: minus, right: number("2.50") }),
            false_branch: Box::new(Expression::Grouping(Box::new(Expression::Variable(x.clone())))),
        }),
        right: Box::new(Expression::Assignment {
            name: x,
            value: Box::new(Expression::Literal(LiteralValue::Null)),
        }),
    };
    assert_eq!(
        ast::<Float, Debugged>(&expression),
        "((true ? (- 2.5) : (group x)), Literal(Null))"
    );
}
