use vstd::prelude::*;
use vstd::string::StringExecFns;

use crate::environment::{is_runtime_error, scopes_or_none, Environment};
use crate::error::LoxError;
use crate::expression::{Expression, LiteralValue};
use crate::semantics::{
    after_block, binary, equal, eval, exec, is_binary_operator, lemma_after_block_view,
    lemma_assigned_view, lemma_cloned_scopes,
    lemma_defined_view, lemma_lookup_view, lemma_new_scope_view, lemma_run_stops, operands_message,
    option_view, run, scopes_view, started, truthy, Evaluated, Executed,
};
use crate::statement::{
    lemma_statements_view_index, statement_view, statements_view, Statement, StatementSpec,
};
use crate::token::{Token, TokenType};
use crate::value::{Arithmetic, Comparison, NumberModel, Numeric, Value, ValueSpec, follows};

verus! {

/// Every operator in `e` is one that its kind of expression takes: a binary
/// expression compares, adds, subtracts, multiplies or divides, a unary one
/// negates (`-` or `!`). Evaluation cannot go on at any other operator. The
/// condition asks this of every node, not only of those that evaluation
/// reaches: which nodes are reached depends on the values that the number
/// type computes, so a caller could not check that before the run, while
/// this condition it can (`program_is_runnable`), and the parser builds no
/// other tree (`lemma_parsed_programs_run`).
pub open spec fn expression_runs(e: Expression) -> bool
    decreases e,
{
    match e {
        Expression::Ternary { condition, true_branch, false_branch } => expression_runs(*condition)
            && expression_runs(*true_branch) && expression_runs(*false_branch),
        Expression::Binary { left, operator, right } => is_binary_operator(operator.token_type)
            && expression_runs(*left) && expression_runs(*right),
        Expression::Logical { left, right, .. } => expression_runs(*left) && expression_runs(*right),
        Expression::Call { .. } => true,
        Expression::Assignment { value, .. } => expression_runs(*value),
        Expression::Unary { operator, right } => (operator.token_type == TokenType::Minus
            || operator.token_type == TokenType::Bang) && expression_runs(*right),
        Expression::Comma { left, right } => expression_runs(*left) && expression_runs(*right),
        Expression::Variable(_) => true,
        Expression::Grouping(inner) => expression_runs(*inner),
        Expression::Literal(_) => true,
    }
}

/// An evaluation gave `r` and left the variables `scopes`, as `ev` says.
pub open spec fn evaluated_as<N>(
    ev: Evaluated<N>,
    r: Result<Value<N>, LoxError>,
    scopes: Seq<Map<Seq<char>, ValueSpec<N>>>,
) -> bool {
    &&& ev.scopes == scopes
    &&& match ev.result {
        Ok(v) => r matches Ok(x) && x@ == v,
        Err(msg) => r matches Err(e) && is_runtime_error(e, msg),
    }
}

/// Every expression in `s` runs (see `expression_runs`).
pub open spec fn statement_runs(s: StatementSpec) -> bool
    decreases s, 0nat,
{
    match s {
        StatementSpec::If { cond, body, elze } => expression_runs(cond) && statement_runs(*body)
            && match elze {
            Some(b) => statement_runs(*b),
            None => true,
        },
        StatementSpec::Var { initializer, .. } => match initializer {
            Some(e) => expression_runs(e),
            None => true,
        },
        StatementSpec::Block(ss) => all_run(ss, ss.len()),
        StatementSpec::Expression(e) => expression_runs(e),
        StatementSpec::Print(e) => expression_runs(e),
    }
}

/// Each of the first `n` statements of `ss` runs.
pub open spec fn all_run(ss: Seq<StatementSpec>, n: nat) -> bool
    decreases ss, n,
{
    if n == 0 || n > ss.len() {
        true
    } else {
        all_run(ss, (n - 1) as nat) && statement_runs(ss[n - 1])
    }
}

proof fn lemma_all_run(ss: Seq<StatementSpec>, n: nat)
    requires
        n <= ss.len(),
    ensures
        all_run(ss, n) <==> forall|j: int| 0 <= j < n ==> statement_runs(#[trigger] ss[j]),
    decreases n,
{
    if n > 0 {
        lemma_all_run(ss, (n - 1) as nat);
    }
}

/// Every statement of `ss` runs.
pub open spec fn program_runs(ss: Seq<Statement>) -> bool {
    forall|i: int| 0 <= i < ss.len() ==> statement_runs(statement_view(#[trigger] ss[i]))
}

/// Executing statements gave `r` and left the variables `scopes` and the
/// output `output`, as `ex` says.
pub open spec fn executed_as<N>(
    ex: Executed<N>,
    r: Result<Option<Value<N>>, LoxError>,
    scopes: Seq<Map<Seq<char>, ValueSpec<N>>>,
    output: Seq<ValueSpec<N>>,
) -> bool {
    &&& ex.scopes == scopes
    &&& ex.output == output
    &&& match ex.result {
        Ok(v) => r matches Ok(x) && option_view(x) == v,
        Err(msg) => r matches Err(e) && is_runtime_error(e, msg),
    }
}

/// A whole program ran as `ex` says: on success the context holds the
/// variables and the value of the last statement.
pub open spec fn interpreted_as<N>(
    ex: Executed<N>,
    r: Result<ExecutionContext<N>, LoxError>,
    scopes: Seq<Map<Seq<char>, ValueSpec<N>>>,
    output: Seq<ValueSpec<N>>,
) -> bool {
    &&& ex.scopes == scopes
    &&& ex.output == output
    &&& match ex.result {
        Ok(v) => r matches Ok(ctx) && scopes_view(ctx.environment.scopes()) == scopes
            && option_view(ctx.last_expr_value) == v,
        Err(msg) => r matches Err(e) && is_runtime_error(e, msg),
    }
}

/// What executing a statement gives: its value, if it has one, or an error.
pub type ExecutionResult<N> = Result<Option<Value<N>>, LoxError>;

/// What evaluating an expression gives: its value or an error.
pub type EvaluationResult<N> = Result<Value<N>, LoxError>;

/// What a program leaves when it has run: its variables and the value of
/// its last statement.
pub struct ExecutionContext<N> {
    pub environment: Environment<Value<N>>,
    pub last_expr_value: Option<Value<N>>,
}

/// Whether `t` is the operator of a binary expression.
fn is_binary_operator_type(t: TokenType) -> (b: bool)
    ensures
        b == is_binary_operator(t),
{
    match t {
        TokenType::EqualEqual | TokenType::BangEqual | TokenType::Greater | TokenType::GreaterEqual
        | TokenType::Less | TokenType::LessEqual | TokenType::Plus | TokenType::Minus
        | TokenType::Star | TokenType::Slash => true,
        _ => false,
    }
}

/// Whether every operator in `e` is one that its kind of expression takes.
pub fn expression_is_runnable(e: &Expression) -> (b: bool)
    ensures
        b == expression_runs(*e),
    decreases e,
{
    match e {
        Expression::Ternary { condition, true_branch, false_branch } => expression_is_runnable(
            condition,
        ) && expression_is_runnable(true_branch) && expression_is_runnable(false_branch),
        Expression::Binary { left, operator, right } => is_binary_operator_type(operator.token_type)
            && expression_is_runnable(left) && expression_is_runnable(right),
        Expression::Logical { left, right, .. } => expression_is_runnable(left)
            && expression_is_runnable(right),
        Expression::Call { .. } => true,
        Expression::Assignment { value, .. } => expression_is_runnable(value),
        Expression::Unary { operator, right } => (operator.token_type == TokenType::Minus
            || operator.token_type == TokenType::Bang) && expression_is_runnable(right),
        Expression::Comma { left, right } => expression_is_runnable(left) && expression_is_runnable(
            right,
        ),
        Expression::Variable(_) => true,
        Expression::Grouping(inner) => expression_is_runnable(inner),
        Expression::Literal(_) => true,
    }
}

/// Whether every expression in `s` runs.
pub fn statement_is_runnable(s: &Statement) -> (b: bool)
    ensures
        b == statement_runs(statement_view(*s)),
    decreases s,
{
    match s {
        Statement::If { cond, body, elze } => {
            expression_is_runnable(cond) && statement_is_runnable(body) && match elze {
                Some(b) => statement_is_runnable(b),
                None => true,
            }
        },
        Statement::Var { initializer, .. } => match initializer {
            Some(e) => expression_is_runnable(e),
            None => true,
        },
        Statement::Block(statements) => {
            let ghost ss = statements_view(statements@);
            proof {
                lemma_statements_view_index(statements@);
            }
            let mut i: usize = 0;
            while i < statements.len()
                invariant
                    0 <= i <= statements@.len(),
                    *s == Statement::Block(*statements),
                    ss == statements_view(statements@),
                    ss.len() == statements@.len(),
                    forall|j: int| 0 <= j < statements@.len() ==> #[trigger] ss[j] == statement_view(statements@[j]),
                    forall|j: int| 0 <= j < i ==> statement_runs(#[trigger] ss[j]),
                decreases statements.len() - i,
            {
                proof {
                    assert(ss[i as int] == statement_view(statements@[i as int]));
                    assert(decreases_to!(*s => statements@[i as int]));
                }
                if !statement_is_runnable(&statements[i]) {
                    proof {
                        assert(statement_view(*s) == StatementSpec::Block(ss));
                        assert(!statement_runs(ss[i as int]));
                        lemma_all_run(ss, ss.len());
                    }
                    return false;
                }
                i += 1;
            }
            proof {
                assert(statement_view(*s) == StatementSpec::Block(ss));
                lemma_all_run(ss, ss.len());
            }
            true
        },
        Statement::Expression(e) => expression_is_runnable(e),
        Statement::Print(e) => expression_is_runnable(e),
    }
}

/// Whether every statement of a program runs.
pub fn program_is_runnable(statements: &Vec<Statement>) -> (b: bool)
    ensures
        b == program_runs(statements@),
{
    let mut i: usize = 0;
    while i < statements.len()
        invariant
            0 <= i <= statements@.len(),
            forall|j: int| 0 <= j < i ==> statement_runs(statement_view(#[trigger] statements@[j])),
        decreases statements.len() - i,
    {
        if !statement_is_runnable(&statements[i]) {
            return false;
        }
        i += 1;
    }
    true
}

/// The error of a program that fails while it runs.
fn runtime_error(message: String) -> (e: LoxError)
    ensures
        is_runtime_error(e, message@),
{
    LoxError::Runtime { message }
}

/// Runs a program on numbers of type `N`, keeping its variables in an
/// environment and the values that it prints in order.
pub struct Interpreter<N> {
    environment: Environment<Value<N>>,
    statements: Vec<Statement>,
    output: Vec<Value<N>>,
}

impl<N: Numeric> Interpreter<N> {
    /// The variables, innermost scope first.
    pub closed spec fn scopes(self) -> Seq<Map<Seq<char>, ValueSpec<N>>> {
        scopes_view(self.environment.scopes())
    }

    /// The values printed so far, in order.
    pub closed spec fn output(self) -> Seq<ValueSpec<N>> {
        self.output@.map_values(|v: Value<N>| v@)
    }

    /// The statements of the program.
    pub closed spec fn program(self) -> Seq<Statement> {
        self.statements@
    }

    /// Whether `value` counts as true: everything but null and false does.
    fn is_truthy(&self, value: Value<N>) -> (b: bool)
        ensures
            b == truthy(value@),
    {
        match value {
            Value::Null => false,
            Value::Boolean(b) => b,
            _ => true,
        }
    }

    /// Whether two values are equal.
    fn is_equal(&self, a: Value<N>, b: Value<N>) -> (r: bool)
        ensures
            forall|m: NumberModel<N>| #[trigger] follows(m) ==> r == equal(m, a@, b@),
    {
        match (a, b) {
            (Value::Null, Value::Null) => true,
            (Value::Number(x), Value::Number(y)) => N::compare(Comparison::Equal, x, y),
            (Value::String(x), Value::String(y)) => x == y,
            (Value::Boolean(x), Value::Boolean(y)) => x == y,
            _ => false,
        }
    }

    /// Both numbers of an operator that takes two numbers, or the error that
    /// says which operand is not one.
    fn check_number_operands(&self, operator: String, left: Value<N>, right: Value<N>) -> (r: Result<
        (N, N),
        LoxError,
    >)
        ensures
            match (left, right) {
                (Value::Number(l), Value::Number(x)) => r == Ok::<(N, N), LoxError>((l, x)),
                _ => r matches Err(e) && is_runtime_error(
                    e,
                    operands_message(operator@, left@, right@),
                ),
            },
    {
        let which = match (&left, &right) {
            (Value::Number(l), Value::Number(x)) => {
                return Ok((*l, *x));
            },
            (Value::Number(_), _) => "right operand",
            (_, Value::Number(_)) => "left operand",
            _ => "both operands",
        };
        let mut message = which.to_owned();
        message.append(" must be a number for '");
        message.append(operator.as_str());
        message.append("'");
        Err(runtime_error(message))
    }

    /// `left op right` on the values of both operands.
    fn binary(&self, operator: &Token, left: Value<N>, right: Value<N>) -> (r: Result<
        Value<N>,
        LoxError,
    >)
        requires
            is_binary_operator(operator.token_type),
        ensures
            forall|m: NumberModel<N>| #[trigger]
                follows(m) ==> match binary(m, *operator, left@, right@) {
                    Ok(v) => r matches Ok(x) && x@ == v,
                    Err(msg) => r matches Err(e) && is_runtime_error(e, msg),
                },
    {
        let t = operator.token_type;
        match t {
            TokenType::EqualEqual => Ok(Value::Boolean(self.is_equal(left, right))),
            TokenType::BangEqual => Ok(Value::Boolean(!self.is_equal(left, right))),
            TokenType::Plus => match (left, right) {
                (Value::String(l), Value::String(r)) => {
                    let mut s = l;
                    s.append(r.as_str());
                    Ok(Value::String(s))
                },
                (Value::Number(l), Value::String(r)) => {
                    let mut s = l.to_text();
                    s.append(r.as_str());
                    Ok(Value::String(s))
                },
                (Value::String(l), Value::Number(r)) => {
                    let mut s = l;
                    let text = r.to_text();
                    s.append(text.as_str());
                    Ok(Value::String(s))
                },
                (Value::Number(l), Value::Number(r)) => Ok(
                    Value::Number(N::arithmetic(Arithmetic::Add, l, r)),
                ),
                _ => Err(runtime_error("operands must be two numbers or two strings".to_owned())),
            },
            _ => {
                let (l, r) = self.check_number_operands(operator.lexeme.clone(), left, right)?;
                match t {
                    TokenType::Minus => Ok(Value::Number(N::arithmetic(Arithmetic::Subtract, l, r))),
                    TokenType::Star => Ok(Value::Number(N::arithmetic(Arithmetic::Multiply, l, r))),
                    TokenType::Slash => {
                        if r.is_zero() {
                            return Err(runtime_error("division by 0 is not allowed".to_owned()));
                        }
                        Ok(Value::Number(N::arithmetic(Arithmetic::Divide, l, r)))
                    },
                    TokenType::Greater => Ok(Value::Boolean(N::compare(Comparison::Greater, l, r))),
                    TokenType::GreaterEqual => Ok(
                        Value::Boolean(N::compare(Comparison::GreaterEqual, l, r)),
                    ),
                    TokenType::Less => Ok(Value::Boolean(N::compare(Comparison::Less, l, r))),
                    _ => Ok(Value::Boolean(N::compare(Comparison::LessEqual, l, r))),
                }
            },
        }
    }

    /// The value of `expression`. Operands are evaluated from left to right;
    /// the first error ends the evaluation, keeping what assignments did
    /// before it.
    pub fn evaluate_expression(&mut self, expression: &Expression) -> (r: EvaluationResult<N>)
        requires
            expression_runs(*expression),
        ensures
            final(self).program() == old(self).program(),
            final(self).output() == old(self).output(),
            forall|m: NumberModel<N>| #[trigger]
                follows(m) ==> evaluated_as(eval(m, *expression, old(self).scopes()), r, final(self).scopes()),
        decreases expression,
    {
        let ghost s0 = self.scopes();
        match expression {
            Expression::Ternary { condition, true_branch, false_branch } => {
                let condition = match self.evaluate_expression(condition) {
                    Ok(v) => v,
                    Err(e) => return Err(e),
                };
                if self.is_truthy(condition) {
                    self.evaluate_expression(true_branch)
                } else {
                    self.evaluate_expression(false_branch)
                }
            },
            Expression::Logical { left, operator, right } => {
                let left_value = match self.evaluate_expression(left) {
                    Ok(v) => v,
                    Err(e) => return Err(e),
                };
                let left_truthy = self.is_truthy(left_value.clone());
                match operator.token_type {
                    TokenType::PipePipe if left_truthy => Ok(left_value),
                    TokenType::AmpAmp if !left_truthy => Ok(left_value),
                    _ => self.evaluate_expression(right),
                }
            },
            Expression::Call { .. } => Err(runtime_error("can only call functions".to_owned())),
            Expression::Binary { left, operator, right } => {
                let left_value = match self.evaluate_expression(left) {
                    Ok(v) => v,
                    Err(e) => return Err(e),
                };
                let right_value = match self.evaluate_expression(right) {
                    Ok(v) => v,
                    Err(e) => return Err(e),
                };
                self.binary(operator, left_value, right_value)
            },
            Expression::Assignment { name, value } => {
                let value = match self.evaluate_expression(value) {
                    Ok(v) => v,
                    Err(e) => return Err(e),
                };
                let ghost before = self.environment.scopes();
                proof {
                    lemma_assigned_view(before, name.lexeme@, value);
                }
                match self.environment.assign(name.lexeme.as_str(), value.clone()) {
                    Ok(()) => Ok(value),
                    Err(e) => Err(e),
                }
            },
            Expression::Unary { operator, right } => {
                let right_value = match self.evaluate_expression(right) {
                    Ok(v) => v,
                    Err(e) => return Err(e),
                };
                match operator.token_type {
                    TokenType::Minus => {
                        if let Value::Number(n) = right_value {
                            Ok(Value::Number(n.negate()))
                        } else {
                            Err(runtime_error("operand must be a number".to_owned()))
                        }
                    },
                    _ => Ok(Value::Boolean(!self.is_truthy(right_value))),
                }
            },
            Expression::Comma { left, right } => {
                match self.evaluate_expression(left) {
                    Ok(_) => {},
                    Err(e) => return Err(e),
                }
                self.evaluate_expression(right)
            },
            Expression::Grouping(inner) => self.evaluate_expression(inner),
            Expression::Literal(value) => match value {
                LiteralValue::False => Ok(Value::Boolean(false)),
                LiteralValue::True => Ok(Value::Boolean(true)),
                LiteralValue::Number(text) => match N::from_literal(text.as_str()) {
                    Some(n) => Ok(Value::Number(n)),
                    None => Err(runtime_error("number is not in valid format".to_owned())),
                },
                LiteralValue::String(s) => Ok(Value::String(s.clone())),
                LiteralValue::Null => Ok(Value::Null),
            },
            Expression::Variable(name) => {
                proof {
                    lemma_lookup_view(self.environment.scopes(), name.lexeme@);
                }
                match self.environment.get(name.lexeme.as_str()) {
                    Ok(v) => Ok(v.clone()),
                    Err(e) => Err(e),
                }
            },
        }
    }

    /// Executes `statement`. An expression statement gives its value; the
    /// others give none. A block runs in a new scope around a copy of the
    /// innermost scope, which shares the scopes further out; when it ends, the
    /// innermost scope is again the one from before it, and the scopes further
    /// out keep what the block assigned to them. A failing statement ends the
    /// block where it failed.
    pub fn execute_statement(&mut self, statement: &Statement) -> (r: ExecutionResult<N>)
        requires
            statement_runs(statement_view(*statement)),
        ensures
            final(self).program() == old(self).program(),
            forall|m: NumberModel<N>| #[trigger]
                follows(m) ==> executed_as(
                    exec(m, statement_view(*statement), old(self).scopes(), old(self).output()),
                    r,
                    final(self).scopes(),
                    final(self).output(),
                ),
        decreases statement,
    {
        let ghost s0 = self.scopes();
        let ghost o0 = self.output();
        match statement {
            Statement::If { cond, body, elze } => {
                let condition = match self.evaluate_expression(cond) {
                    Ok(v) => v,
                    Err(e) => return Err(e),
                };
                if self.is_truthy(condition) {
                    match self.execute_statement(body) {
                        Ok(_) => {},
                        Err(e) => return Err(e),
                    }
                } else {
                    match elze {
                        Some(other) => match self.execute_statement(other) {
                            Ok(_) => {},
                            Err(e) => return Err(e),
                        },
                        None => {},
                    }
                }
                Ok(None)
            },
            Statement::Var { name, initializer } => {
                let initializer = match initializer {
                    Some(i) => i,
                    None => {
                        let mut message = "variable ".to_owned();
                        message.append(name.lexeme.as_str());
                        message.append(" accessed without assigning any value to it");
                        return Err(runtime_error(message));
                    },
                };
                let value = match initializer {
                    Expression::Literal(LiteralValue::Null) => Value::Null,
                    _ => match self.evaluate_expression(initializer) {
                        Ok(v) => v,
                        Err(e) => return Err(e),
                    },
                };
                proof {
                    self.environment.lemma_scopes_not_empty();
                    lemma_defined_view(self.environment.scopes(), name.lexeme@, value);
                }
                self.environment.define(name.lexeme.clone(), value);
                Ok(None)
            },
            Statement::Block(statements) => {
                let ghost ss = statements_view(statements@);
                let ghost env0 = self.environment.scopes();
                proof {
                    lemma_statements_view_index(statements@);
                    lemma_all_run(ss, ss.len());
                }
                let copy = self.environment.clone();
                proof {
                    lemma_cloned_scopes(env0, copy.scopes());
                    lemma_new_scope_view(env0);
                }
                let mut previous = Environment::new_enclosed(copy);
                std::mem::swap(&mut self.environment, &mut previous);
                let ghost start = started(self.scopes(), o0);
                let mut i: usize = 0;
                while i < statements.len()
                    invariant
                        0 <= i <= statements@.len(),
                        ss == statements_view(statements@),
                        ss.len() == statements@.len(),
                        forall|j: int| 0 <= j < statements@.len() ==> #[trigger] ss[j] == statement_view(statements@[j]),
                        forall|j: int| 0 <= j < ss.len() ==> statement_runs(#[trigger] ss[j]),
                        self.program() == old(self).program(),
                        previous.scopes() == env0,
                        *statement == Statement::Block(*statements),
                        s0 == old(self).scopes(),
                        o0 == old(self).output(),
                        start == started(seq![Map::<Seq<char>, ValueSpec<N>>::empty()] + s0, o0),
                        forall|m: NumberModel<N>| #[trigger]
                            follows(m) ==> {
                                let x = run(m, ss, i as nat, start);
                                &&& x.result is Ok
                                &&& x.scopes == self.scopes()
                                &&& x.output == self.output()
                            },
                    decreases statements.len() - i,
                {
                    let ghost si = self.scopes();
                    let ghost oi = self.output();
                    proof {
                        assert(ss[i as int] == statement_view(statements@[i as int]));
                        assert(decreases_to!(*statement => statements@[i as int]));
                    }
                    match self.execute_statement(&statements[i]) {
                        Ok(_) => {},
                        Err(e) => {
                            proof {
                                assert(statement_view(*statement) == StatementSpec::Block(ss));
                                assert forall|m: NumberModel<N>| #[trigger] follows(m) implies executed_as(
                                    exec(m, statement_view(*statement), s0, o0),
                                    Err(e),
                                    self.scopes(),
                                    self.output(),
                                ) by {
                                    let before = run(m, ss, i as nat, start);
                                    assert(before.scopes == si && before.output == oi);
                                    assert(run(m, ss, (i + 1) as nat, start) == exec(
                                        m,
                                        ss[i as int],
                                        si,
                                        oi,
                                    ));
                                    lemma_run_stops(m, ss, (i + 1) as nat, ss.len(), start);
                                }
                            }
                            return Err(e);
                        },
                    }
                    i += 1;
                }
                // `previous` is now the block's environment: its own scope, the
                // copy of the innermost scope, and the scopes further out.
                std::mem::swap(&mut self.environment, &mut previous);
                let ghost inside = previous.scopes();
                proof {
                    previous.lemma_scopes_not_empty();
                }
                let further_out = match previous.into_enclosing() {
                    Some(copied) => {
                        let ghost copied_scopes = copied.scopes();
                        proof {
                            copied.lemma_scopes_not_empty();
                        }
                        let r = copied.into_enclosing();
                        proof {
                            assert(copied_scopes == inside.drop_first());
                            if r is Some {
                                assert(scopes_or_none(r) =~= inside.subrange(2, inside.len() as int));
                            } else {
                                assert(inside.len() == 2);
                            }
                        }
                        r
                    },
                    None => None,
                };
                proof {
                    assert(scopes_or_none(further_out) =~= if inside.len() >= 2 {
                        inside.subrange(2, inside.len() as int)
                    } else {
                        seq![]
                    });
                    self.environment.lemma_scopes_not_empty();
                }
                self.environment.set_enclosing(further_out);
                proof {
                    assert(self.environment.scopes() == after_block(env0, inside));
                    lemma_after_block_view(env0, inside);
                }
                Ok(None)
            },
            Statement::Expression(expression) => {
                let value = match self.evaluate_expression(expression) {
                    Ok(v) => v,
                    Err(e) => return Err(e),
                };
                Ok(Some(value))
            },
            Statement::Print(expression) => {
                let value = match self.evaluate_expression(expression) {
                    Ok(v) => v,
                    Err(e) => return Err(e),
                };
                let ghost shown = value@;
                self.output.push(value);
                proof {
                    assert(self.output() =~= o0.push(shown));
                }
                Ok(None)
            },
        }
    }

    /// An interpreter for `statements`, with the variables of `environment`
    /// and nothing printed yet.
    pub fn new(statements: Vec<Statement>, environment: Environment<Value<N>>) -> (r: Self)
        ensures
            r.program() == statements@,
            r.scopes() == scopes_view(environment.scopes()),
            r.output() == Seq::<ValueSpec<N>>::empty(),
    {
        let r = Interpreter { statements, environment, output: Vec::new() };
        proof {
            assert(r.output() =~= Seq::<ValueSpec<N>>::empty());
        }
        r
    }

    /// The values that print statements printed, in order.
    pub fn printed(&self) -> (r: &Vec<Value<N>>)
        ensures
            r@.map_values(|v: Value<N>| v@) == self.output(),
    {
        &self.output
    }

    /// Runs the program, statement after statement, up to the first error.
    /// On success the context holds a copy of the variables and the value of
    /// the last statement.
    pub fn interpret(&mut self) -> (r: Result<ExecutionContext<N>, LoxError>)
        requires
            program_runs(old(self).program()),
        ensures
            final(self).program() == old(self).program(),
            forall|m: NumberModel<N>| #[trigger]
                follows(m) ==> interpreted_as(
                    run(
                        m,
                        statements_view(old(self).program()),
                        old(self).program().len(),
                        started(old(self).scopes(), old(self).output()),
                    ),
                    r,
                    final(self).scopes(),
                    final(self).output(),
                ),
    {
        let ghost ss = statements_view(self.statements@);
        let ghost start = started(self.scopes(), self.output());
        proof {
            lemma_statements_view_index(self.statements@);
        }
        let mut statements = Vec::new();
        std::mem::swap(&mut statements, &mut self.statements);
        let mut value = None;
        let mut i: usize = 0;
        while i < statements.len()
            invariant
                0 <= i <= statements@.len(),
                statements@ == old(self).program(),
                self.program() == Seq::<Statement>::empty(),
                ss == statements_view(statements@),
                ss.len() == statements@.len(),
                forall|j: int| 0 <= j < statements@.len() ==> #[trigger] ss[j] == statement_view(statements@[j]),
                program_runs(statements@),
                start == started(old(self).scopes(), old(self).output()),
                forall|m: NumberModel<N>| #[trigger]
                    follows(m) ==> {
                        let x = run(m, ss, i as nat, start);
                        &&& x.result == Ok::<Option<ValueSpec<N>>, Seq<char>>(option_view(value))
                        &&& x.scopes == self.scopes()
                        &&& x.output == self.output()
                    },
            decreases statements.len() - i,
        {
            let ghost si = self.scopes();
            let ghost oi = self.output();
            proof {
                assert(ss[i as int] == statement_view(statements@[i as int]));
                assert(statement_runs(statement_view(statements@[i as int])));
            }
            match self.execute_statement(&statements[i]) {
                Ok(v) => {
                    value = v;
                },
                Err(e) => {
                    proof {
                        assert forall|m: NumberModel<N>| #[trigger] follows(m) implies interpreted_as(
                            run(m, ss, ss.len(), start),
                            Err(e),
                            self.scopes(),
                            self.output(),
                        ) by {
                            assert(run(m, ss, (i + 1) as nat, start) == exec(m, ss[i as int], si, oi));
                            lemma_run_stops(m, ss, (i + 1) as nat, ss.len(), start);
                        }
                    }
                    std::mem::swap(&mut statements, &mut self.statements);
                    return Err(e);
                },
            }
            proof {
                assert forall|m: NumberModel<N>| #[trigger] follows(m) implies {
                    let x = run(m, ss, (i + 1) as nat, start);
                    &&& x.result == Ok::<Option<ValueSpec<N>>, Seq<char>>(option_view(value))
                    &&& x.scopes == self.scopes()
                    &&& x.output == self.output()
                } by {
                    assert(run(m, ss, (i + 1) as nat, start) == exec(m, ss[i as int], si, oi));
                }
            }
            i += 1;
        }
        std::mem::swap(&mut statements, &mut self.statements);
        let environment = self.environment.clone();
        proof {
            lemma_cloned_scopes(self.environment.scopes(), environment.scopes());
        }
        Ok(ExecutionContext { environment, last_expr_value: value })
    }
}

} // verus!
