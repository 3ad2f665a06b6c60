use vstd::prelude::*;
use vstd::string::StringExecFns;

use crate::expression::{Expression, LiteralValue};
use crate::token::{lemma_lexeme_texts_distinct, spec_lexeme_text, TokenType};
use crate::value::{follows, NumberModel, Numeric};

verus! {

/// How an expression reads where an assignment shows its value: a form that
/// the type implementing this chooses, such as a debug form.
pub trait ExpressionForm {
    fn form(e: &Expression) -> String;
}

/// The form of `F` gives `d` of every expression.
pub open spec fn shows_as<F: ExpressionForm>(d: spec_fn(Expression) -> Seq<char>) -> bool {
    forall|e: &Expression, r: String| #[trigger] call_ensures(F::form, (e,), r) ==> r@ == d(*e)
}

/// How a literal reads: a number as the model writes its value, or as its
/// text where the model reads none from it.
pub open spec fn literal_text<N>(m: NumberModel<N>, lit: LiteralValue) -> Seq<char> {
    match lit {
        LiteralValue::String(s) => s@,
        LiteralValue::Number(text) => match (m.from_literal)(text@) {
            Some(n) => (m.to_text)(n),
            None => text@,
        },
        LiteralValue::True => "true"@,
        LiteralValue::False => "false"@,
        LiteralValue::Null => "null"@,
    }
}

/// An expression in prefix form, with operators before their operands and
/// every compound part in parentheses.
pub open spec fn ast_text<N>(m: NumberModel<N>, d: spec_fn(Expression) -> Seq<char>, e: Expression) -> Seq<char>
    decreases e,
{
    match e {
        Expression::Ternary { condition, true_branch, false_branch } => "("@ + ast_text(
            m,
            d,
            *condition,
        ) + " ? "@ + ast_text(m, d, *true_branch) + " : "@ + ast_text(m, d, *false_branch) + ")"@,
        Expression::Binary { left, operator, right } => "("@ + operator.lexeme@ + " "@ + ast_text(
            m,
            d,
            *left,
        ) + " "@ + ast_text(m, d, *right) + ")"@,
        Expression::Logical { left, operator, right } => "("@ + operator.lexeme@ + " "@ + ast_text(
            m,
            d,
            *left,
        ) + " "@ + ast_text(m, d, *right) + ")"@,
        Expression::Call { callee, .. } => "(call "@ + ast_text(m, d, *callee) + ")"@,
        Expression::Assignment { value, .. } => d(*value),
        Expression::Comma { left, right } => "("@ + ast_text(m, d, *left) + ", "@ + ast_text(
            m,
            d,
            *right,
        ) + ")"@,
        Expression::Unary { operator, right } => "("@ + operator.lexeme@ + " "@ + ast_text(
            m,
            d,
            *right,
        ) + ")"@,
        Expression::Literal(lit) => literal_text(m, lit),
        Expression::Grouping(inner) => "(group "@ + ast_text(m, d, *inner) + ")"@,
        Expression::Variable(name) => name.lexeme@,
    }
}

fn literal<N: Numeric>(lit: &LiteralValue) -> (s: String)
    ensures
        forall|m: NumberModel<N>| #[trigger] follows(m) ==> s@ == literal_text(m, *lit),
{
    match lit {
        LiteralValue::String(s) => s.clone(),
        LiteralValue::Number(text) => match N::from_literal(text.as_str()) {
            Some(n) => n.to_text(),
            None => text.clone(),
        },
        LiteralValue::True => "true".to_owned(),
        LiteralValue::False => "false".to_owned(),
        LiteralValue::Null => "null".to_owned(),
    }
}

/// `expr` in prefix form (see `ast_text`): numbers read as `N` writes them,
/// and the value of an assignment in the form that `F` gives.
pub fn ast<N: Numeric, F: ExpressionForm>(expr: &Expression) -> (s: String)
    ensures
        forall|m: NumberModel<N>, d: spec_fn(Expression) -> Seq<char>|
            follows(m) && shows_as::<F>(d) ==> s@ == #[trigger] ast_text(m, d, *expr),
    decreases expr,
{
    match expr {
        Expression::Ternary { condition, true_branch, false_branch } => {
            let condition_text = ast::<N, F>(condition);
            let true_branch_text = ast::<N, F>(true_branch);
            let false_branch_text = ast::<N, F>(false_branch);
            let mut s = "(".to_owned();
            s.append(condition_text.as_str());
            s.append(" ? ");
            s.append(true_branch_text.as_str());
            s.append(" : ");
            s.append(false_branch_text.as_str());
            s.append(")");
            proof {
                assert forall|m: NumberModel<N>, d: spec_fn(Expression) -> Seq<char>| follows(m) && shows_as::<F>(d) implies s@ == #[trigger] ast_text(m, d, *expr) by {
                    assert(ast_text(m, d, *expr) == "("@ + ast_text(m, d, **condition) + " ? "@ + ast_text(m, d, **true_branch) + " : "@ + ast_text(m, d, **false_branch) + ")"@);
                    assert(s@ == "("@ + condition_text@ + " ? "@ + true_branch_text@ + " : "@ + false_branch_text@ + ")"@);
                }
            }
            s
        },
        Expression::Binary { left, operator, right } => {
            let left_text = ast::<N, F>(left);
            let right_text = ast::<N, F>(right);
            let mut s = "(".to_owned();
            s.append(operator.lexeme.as_str());
            s.append(" ");
            s.append(left_text.as_str());
            s.append(" ");
            s.append(right_text.as_str());
            s.append(")");
            proof {
                assert forall|m: NumberModel<N>, d: spec_fn(Expression) -> Seq<char>| follows(m) && shows_as::<F>(d) implies s@ == #[trigger] ast_text(m, d, *expr) by {
                    assert(ast_text(m, d, *expr) == "("@ + operator.lexeme@ + " "@ + ast_text(m, d, **left) + " "@ + ast_text(m, d, **right) + ")"@);
                    assert(s@ == "("@ + operator.lexeme@ + " "@ + left_text@ + " "@ + right_text@ + ")"@);
                }
            }
            s
        },
        Expression::Logical { left, operator, right } => {
            let left_text = ast::<N, F>(left);
            let right_text = ast::<N, F>(right);
            let mut s = "(".to_owned();
            s.append(operator.lexeme.as_str());
            s.append(" ");
            s.append(left_text.as_str());
            s.append(" ");
            s.append(right_text.as_str());
            s.append(")");
            proof {
                assert forall|m: NumberModel<N>, d: spec_fn(Expression) -> Seq<char>| follows(m) && shows_as::<F>(d) implies s@ == #[trigger] ast_text(m, d, *expr) by {
                    assert(ast_text(m, d, *expr) == "("@ + operator.lexeme@ + " "@ + ast_text(m, d, **left) + " "@ + ast_text(m, d, **right) + ")"@);
                    assert(s@ == "("@ + operator.lexeme@ + " "@ + left_text@ + " "@ + right_text@ + ")"@);
                }
            }
            s
        },
        Expression::Call { callee, .. } => {
            let callee_text = ast::<N, F>(callee);
            let mut s = "(call ".to_owned();
            s.append(callee_text.as_str());
            s.append(")");
            proof {
                assert forall|m: NumberModel<N>, d: spec_fn(Expression) -> Seq<char>| follows(m) && shows_as::<F>(d) implies s@ == #[trigger] ast_text(m, d, *expr) by {
                    assert(ast_text(m, d, *expr) == "(call "@ + ast_text(m, d, **callee) + ")"@);
                    assert(s@ == "(call "@ + callee_text@ + ")"@);
                }
            }
            s
        },
        Expression::Comma { left, right } => {
            let left_text = ast::<N, F>(left);
            let right_text = ast::<N, F>(right);
            let mut s = "(".to_owned();
            s.append(left_text.as_str());
            s.append(", ");
            s.append(right_text.as_str());
            s.append(")");
            proof {
                assert forall|m: NumberModel<N>, d: spec_fn(Expression) -> Seq<char>| follows(m) && shows_as::<F>(d) implies s@ == #[trigger] ast_text(m, d, *expr) by {
                    assert(ast_text(m, d, *expr) == "("@ + ast_text(m, d, **left) + ", "@ + ast_text(m, d, **right) + ")"@);
                    assert(s@ == "("@ + left_text@ + ", "@ + right_text@ + ")"@);
                }
            }
            s
        },
        Expression::Unary { operator, right } => {
            let right_text = ast::<N, F>(right);
            let mut s = "(".to_owned();
            s.append(operator.lexeme.as_str());
            s.append(" ");
            s.append(right_text.as_str());
            s.append(")");
            proof {
                assert forall|m: NumberModel<N>, d: spec_fn(Expression) -> Seq<char>| follows(m) && shows_as::<F>(d) implies s@ == #[trigger] ast_text(m, d, *expr) by {
                    assert(ast_text(m, d, *expr) == "("@ + operator.lexeme@ + " "@ + ast_text(m, d, **right) + ")"@);
                    assert(s@ == "("@ + operator.lexeme@ + " "@ + right_text@ + ")"@);
                }
            }
            s
        },
        Expression::Grouping(inner) => {
            let inner_text = ast::<N, F>(inner);
            let mut s = "(group ".to_owned();
            s.append(inner_text.as_str());
            s.append(")");
            proof {
                assert forall|m: NumberModel<N>, d: spec_fn(Expression) -> Seq<char>| follows(m) && shows_as::<F>(d) implies s@ == #[trigger] ast_text(m, d, *expr) by {
                    assert(ast_text(m, d, *expr) == "(group "@ + ast_text(m, d, **inner) + ")"@);
                    assert(s@ == "(group "@ + inner_text@ + ")"@);
                }
            }
            s
        },
        Expression::Assignment { value, .. } => {
            let inner: &Expression = value;
            F::form(inner)
        },
        Expression::Literal(lit) => literal::<N>(lit),
        Expression::Variable(name) => name.lexeme.clone(),
    }
}

/// `true`, `false` and `null` print as the spelling of the keyword that
/// denotes each, so no two of them print alike; a string prints as its
/// text, and a number as the number type writes the value it reads from the
/// number's text.
pub proof fn lemma_literal_texts<N>(
    m: NumberModel<N>,
    d: spec_fn(Expression) -> Seq<char>,
    text: String,
)
    ensures
        ast_text(m, d, Expression::Literal(LiteralValue::True)) == spec_lexeme_text(TokenType::True),
        ast_text(m, d, Expression::Literal(LiteralValue::False)) == spec_lexeme_text(
            TokenType::False,
        ),
        ast_text(m, d, Expression::Literal(LiteralValue::Null)) == spec_lexeme_text(TokenType::Null),
        ast_text(m, d, Expression::Literal(LiteralValue::True)) != ast_text(
            m,
            d,
            Expression::Literal(LiteralValue::False),
        ),
        ast_text(m, d, Expression::Literal(LiteralValue::True)) != ast_text(
            m,
            d,
            Expression::Literal(LiteralValue::Null),
        ),
        ast_text(m, d, Expression::Literal(LiteralValue::False)) != ast_text(
            m,
            d,
            Expression::Literal(LiteralValue::Null),
        ),
        ast_text(m, d, Expression::Literal(LiteralValue::String(text))) == text@,
        (m.from_literal)(text@) matches Some(n) ==> ast_text(
            m,
            d,
            Expression::Literal(LiteralValue::Number(text)),
        ) == (m.to_text)(n),
{
    reveal_strlit("true");
    reveal_strlit("false");
    reveal_strlit("null");
    lemma_lexeme_texts_distinct(TokenType::True, TokenType::False);
    lemma_lexeme_texts_distinct(TokenType::True, TokenType::Null);
    lemma_lexeme_texts_distinct(TokenType::False, TokenType::Null);
}

} // verus!
