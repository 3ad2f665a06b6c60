use vstd::prelude::*;

use crate::environment::{lemma_get_after_assign, lemma_get_after_define};
use crate::expression::Expression;
use crate::statement::StatementSpec;
use crate::token::{Token, TokenType};
use crate::value::{Arithmetic, Comparison, NumberModel, ValueSpec};
use crate::semantics::{eval, exec, run, started, Executed};

verus! {

broadcast use vstd::seq::group_seq_axioms;

/// A block that completes gives no value and leaves as many scopes as it
/// found, the innermost exactly as it was before the block: what the block
/// declared, and what it assigned in that scope, are gone.
pub proof fn lemma_block_restores_innermost_scope<N>(
    m: NumberModel<N>,
    ss: Seq<StatementSpec>,
    scopes: Seq<Map<Seq<char>, ValueSpec<N>>>,
    output: Seq<ValueSpec<N>>,
)
    requires
        scopes.len() >= 1,
    ensures
        exec(m, StatementSpec::Block(ss), scopes, output).result is Ok ==> {
            &&& exec(m, StatementSpec::Block(ss), scopes, output).result == Ok::<
                Option<ValueSpec<N>>,
                Seq<char>,
            >(None)
            &&& exec(m, StatementSpec::Block(ss), scopes, output).scopes.len() == scopes.len()
            &&& exec(m, StatementSpec::Block(ss), scopes, output).scopes[0] == scopes[0]
        },
{
    lemma_exec_keeps_scope_count(m, StatementSpec::Block(ss), scopes, output);
}

/// Evaluating an expression neither adds nor removes a scope.
pub proof fn lemma_eval_keeps_scope_count<N>(
    m: NumberModel<N>,
    e: Expression,
    scopes: Seq<Map<Seq<char>, ValueSpec<N>>>,
)
    ensures
        eval(m, e, scopes).scopes.len() == scopes.len(),
    decreases e,
{
    match e {
        Expression::Ternary { condition, true_branch, false_branch } => {
            lemma_eval_keeps_scope_count(m, *condition, scopes);
            let c = eval(m, *condition, scopes);
            lemma_eval_keeps_scope_count(m, *true_branch, c.scopes);
            lemma_eval_keeps_scope_count(m, *false_branch, c.scopes);
        },
        Expression::Logical { left, right, .. } => {
            lemma_eval_keeps_scope_count(m, *left, scopes);
            lemma_eval_keeps_scope_count(m, *right, eval(m, *left, scopes).scopes);
        },
        Expression::Binary { left, right, .. } => {
            lemma_eval_keeps_scope_count(m, *left, scopes);
            lemma_eval_keeps_scope_count(m, *right, eval(m, *left, scopes).scopes);
        },
        Expression::Assignment { name, value } => {
            lemma_eval_keeps_scope_count(m, *value, scopes);
            let v = eval(m, *value, scopes);
            if let Ok(x) = v.result {
                lemma_get_after_assign(v.scopes, name.lexeme@, x, name.lexeme@);
            }
        },
        Expression::Unary { right, .. } => {
            lemma_eval_keeps_scope_count(m, *right, scopes);
        },
        Expression::Comma { left, right } => {
            lemma_eval_keeps_scope_count(m, *left, scopes);
            lemma_eval_keeps_scope_count(m, *right, eval(m, *left, scopes).scopes);
        },
        Expression::Grouping(inner) => {
            lemma_eval_keeps_scope_count(m, *inner, scopes);
        },
        _ => {},
    }
}

/// `e` holds no assignment.
pub open spec fn assigns_nothing(e: Expression) -> bool
    decreases e,
{
    match e {
        Expression::Ternary { condition, true_branch, false_branch } => assigns_nothing(*condition)
            && assigns_nothing(*true_branch) && assigns_nothing(*false_branch),
        Expression::Binary { left, right, .. } => assigns_nothing(*left) && assigns_nothing(*right),
        Expression::Logical { left, right, .. } => assigns_nothing(*left) && assigns_nothing(*right),
        Expression::Call { .. } => true,
        Expression::Assignment { .. } => false,
        Expression::Unary { right, .. } => assigns_nothing(*right),
        Expression::Comma { left, right } => assigns_nothing(*left) && assigns_nothing(*right),
        Expression::Variable(_) => true,
        Expression::Grouping(inner) => assigns_nothing(*inner),
        Expression::Literal(_) => true,
    }
}

/// Evaluating an expression that holds no assignment leaves the variables
/// unchanged, whether it succeeds or fails.
pub proof fn lemma_no_assignment_keeps_variables<N>(
    m: NumberModel<N>,
    e: Expression,
    scopes: Seq<Map<Seq<char>, ValueSpec<N>>>,
)
    requires
        assigns_nothing(e),
    ensures
        eval(m, e, scopes).scopes == scopes,
    decreases e,
{
    match e {
        Expression::Ternary { condition, true_branch, false_branch } => {
            lemma_no_assignment_keeps_variables(m, *condition, scopes);
            lemma_no_assignment_keeps_variables(m, *true_branch, scopes);
            lemma_no_assignment_keeps_variables(m, *false_branch, scopes);
        },
        Expression::Logical { left, right, .. } => {
            lemma_no_assignment_keeps_variables(m, *left, scopes);
            lemma_no_assignment_keeps_variables(m, *right, scopes);
        },
        Expression::Binary { left, right, .. } => {
            lemma_no_assignment_keeps_variables(m, *left, scopes);
            lemma_no_assignment_keeps_variables(m, *right, scopes);
        },
        Expression::Unary { right, .. } => {
            lemma_no_assignment_keeps_variables(m, *right, scopes);
        },
        Expression::Comma { left, right } => {
            lemma_no_assignment_keeps_variables(m, *left, scopes);
            lemma_no_assignment_keeps_variables(m, *right, scopes);
        },
        Expression::Grouping(inner) => {
            lemma_no_assignment_keeps_variables(m, *inner, scopes);
        },
        _ => {},
    }
}

/// Operands are evaluated from left to right, the right one with the
/// variables that the left one left: if the left operand fails, its error is
/// the result and the right operand is not evaluated (its assignments do not
/// happen). A comma gives the right operand's result and keeps the left
/// one's effects; a grouping gives exactly what its inner expression gives.
pub proof fn lemma_operands_left_to_right<N>(
    m: NumberModel<N>,
    left: Expression,
    operator: Token,
    right: Expression,
    scopes: Seq<Map<Seq<char>, ValueSpec<N>>>,
)
    ensures
        ({
            let l = eval(m, left, scopes);
            let binary = eval(
                m,
                Expression::Binary { left: Box::new(left), operator, right: Box::new(right) },
                scopes,
            );
            let comma = eval(m, Expression::Comma { left: Box::new(left), right: Box::new(right) }, scopes);
            &&& l.result is Err ==> binary == l && comma == l
            &&& l.result is Ok ==> comma == eval(m, right, l.scopes)
            &&& l.result is Ok && eval(m, right, l.scopes).result is Err ==> binary == eval(
                m,
                right,
                l.scopes,
            )
            &&& eval(m, Expression::Grouping(Box::new(left)), scopes) == l
        }),
{
}

/// A statement that completes leaves as many scopes as it found.
pub proof fn lemma_exec_keeps_scope_count<N>(
    m: NumberModel<N>,
    s: StatementSpec,
    scopes: Seq<Map<Seq<char>, ValueSpec<N>>>,
    output: Seq<ValueSpec<N>>,
)
    requires
        scopes.len() >= 1,
    ensures
        exec(m, s, scopes, output).result is Ok ==> exec(m, s, scopes, output).scopes.len()
            == scopes.len(),
    decreases s, 0nat,
{
    match s {
        StatementSpec::If { cond, body, elze } => {
            lemma_eval_keeps_scope_count(m, cond, scopes);
            let c = eval(m, cond, scopes);
            lemma_exec_keeps_scope_count(m, *body, c.scopes, output);
            if let Some(b) = elze {
                lemma_exec_keeps_scope_count(m, *b, c.scopes, output);
            }
        },
        StatementSpec::Var { initializer, .. } => {
            if let Some(init) = initializer {
                lemma_eval_keeps_scope_count(m, init, scopes);
            }
        },
        StatementSpec::Expression(e) => {
            lemma_eval_keeps_scope_count(m, e, scopes);
        },
        StatementSpec::Print(e) => {
            lemma_eval_keeps_scope_count(m, e, scopes);
        },
        StatementSpec::Block(ss) => {
            let start = started(seq![Map::<Seq<char>, ValueSpec<N>>::empty()] + scopes, output);
            lemma_run_keeps_scope_count(m, ss, ss.len(), start);
        },
    }
}

/// Statements that run to the end leave as many scopes as they found.
pub proof fn lemma_run_keeps_scope_count<N>(
    m: NumberModel<N>,
    ss: Seq<StatementSpec>,
    n: nat,
    start: Executed<N>,
)
    requires
        start.scopes.len() >= 1,
    ensures
        run(m, ss, n, start).result is Ok ==> run(m, ss, n, start).scopes.len() == start.scopes.len(),
    decreases ss, n,
{
    if n > 0 && n <= ss.len() {
        lemma_run_keeps_scope_count(m, ss, (n - 1) as nat, start);
        let before = run(m, ss, (n - 1) as nat, start);
        if before.result is Ok {
            lemma_exec_keeps_scope_count(m, ss[n - 1], before.scopes, before.output);
        }
    }
}

/// Executing statements only adds to what was printed before.
pub proof fn lemma_exec_extends_output<N>(
    m: NumberModel<N>,
    s: StatementSpec,
    scopes: Seq<Map<Seq<char>, ValueSpec<N>>>,
    output: Seq<ValueSpec<N>>,
)
    ensures
        output.is_prefix_of(exec(m, s, scopes, output).output),
    decreases s, 0nat,
{
    match s {
        StatementSpec::If { cond, body, elze } => {
            let c = eval(m, cond, scopes);
            lemma_exec_extends_output(m, *body, c.scopes, output);
            if let Some(b) = elze {
                lemma_exec_extends_output(m, *b, c.scopes, output);
            }
        },
        StatementSpec::Block(ss) => {
            let start = started(seq![Map::<Seq<char>, ValueSpec<N>>::empty()] + scopes, output);
            lemma_run_extends_output(m, ss, ss.len(), start);
        },
        StatementSpec::Print(e) => {
            let v = eval(m, e, scopes);
            if let Ok(x) = v.result {
                assert(output.push(x).subrange(0, output.len() as int) =~= output);
            }
        },
        _ => {},
    }
}

/// Running statements in order only adds to what was printed before.
pub proof fn lemma_run_extends_output<N>(
    m: NumberModel<N>,
    ss: Seq<StatementSpec>,
    n: nat,
    start: Executed<N>,
)
    ensures
        start.output.is_prefix_of(run(m, ss, n, start).output),
    decreases ss, n,
{
    if n > 0 && n <= ss.len() {
        lemma_run_extends_output(m, ss, (n - 1) as nat, start);
        let before = run(m, ss, (n - 1) as nat, start);
        if before.result is Ok {
            lemma_exec_extends_output(m, ss[n - 1], before.scopes, before.output);
        }
    }
}

/// A declaration `var name = init;` completes exactly when `init` evaluates
/// without an error, whatever value it gives (null included), prints nothing,
/// and afterwards `name` reads that value; an error of `init` is the error of
/// the declaration.
pub proof fn lemma_read_after_declaration<N>(
    m: NumberModel<N>,
    name: Token,
    init: Expression,
    scopes: Seq<Map<Seq<char>, ValueSpec<N>>>,
    output: Seq<ValueSpec<N>>,
)
    requires
        scopes.len() >= 1,
    ensures
        ({
            let declared = exec(
                m,
                StatementSpec::Var { name, initializer: Some(init) },
                scopes,
                output,
            );
            &&& declared.result is Ok ==> eval(m, Expression::Variable(name), declared.scopes).result
                == eval(m, init, scopes).result
            &&& eval(m, init, scopes).result is Ok ==> declared.result == Ok::<
                Option<ValueSpec<N>>,
                Seq<char>,
            >(None)
            &&& eval(m, init, scopes).result matches Err(msg) ==> declared.result == Err::<
                Option<ValueSpec<N>>,
                Seq<char>,
            >(msg)
            &&& declared.output == output
        }),
{
    lemma_eval_keeps_scope_count(m, init, scopes);
    let v = eval(m, init, scopes);
    if let Ok(x) = v.result {
        lemma_get_after_define(v.scopes, name.lexeme@, x, name.lexeme@);
    }
}

/// After an assignment `name = value` succeeds, `name` reads the value that
/// the assignment gave.
pub proof fn lemma_read_after_assignment<N>(
    m: NumberModel<N>,
    name: Token,
    value: Expression,
    scopes: Seq<Map<Seq<char>, ValueSpec<N>>>,
)
    ensures
        ({
            let assignment = eval(m, Expression::Assignment { name, value: Box::new(value) }, scopes);
            assignment.result is Ok ==> eval(m, Expression::Variable(name), assignment.scopes).result
                == assignment.result
        }),
{
    let v = eval(m, value, scopes);
    if let Ok(x) = v.result {
        lemma_get_after_assign(v.scopes, name.lexeme@, x, name.lexeme@);
    }
}

/// Running the first `n` statements of a sequence depends on those alone.
proof fn lemma_run_prefix<N>(m: NumberModel<N>, longer: Seq<StatementSpec>, shorter: Seq<StatementSpec>, n: nat, start: Executed<N>)
    requires
        n <= shorter.len() <= longer.len(),
        forall|i: int| 0 <= i < shorter.len() ==> longer[i] == shorter[i],
    ensures
        run(m, longer, n, start) == run(m, shorter, n, start),
    decreases n,
{
    if n > 0 {
        lemma_run_prefix(m, longer, shorter, (n - 1) as nat, start);
    }
}

/// Running two sequences of statements one after the other, the second from
/// where the first left off, is running them as one: this is how a session
/// that runs line after line keeps its variables.
pub proof fn lemma_run_concatenation<N>(
    m: NumberModel<N>,
    first: Seq<StatementSpec>,
    second: Seq<StatementSpec>,
    start: Executed<N>,
)
    ensures
        run(m, first + second, (first.len() + second.len()) as nat, start) == run(
            m,
            second,
            second.len(),
            run(m, first, first.len(), start),
        ),
{
    lemma_run_concatenation_upto(m, first, second, second.len(), start);
}

proof fn lemma_run_concatenation_upto<N>(
    m: NumberModel<N>,
    first: Seq<StatementSpec>,
    second: Seq<StatementSpec>,
    k: nat,
    start: Executed<N>,
)
    requires
        k <= second.len(),
    ensures
        run(m, first + second, (first.len() + k) as nat, start) == run(
            m,
            second,
            k,
            run(m, first, first.len(), start),
        ),
    decreases k,
{
    let both = first + second;
    if k == 0 {
        lemma_run_prefix(m, both, first, first.len(), start);
    } else {
        lemma_run_concatenation_upto(m, first, second, (k - 1) as nat, start);
        assert(both[first.len() + k - 1] == second[k - 1]);
    }
}

/// The operators on two numbers ask the number type for the operation of
/// their own name: `==` its equality, `!=` the negation of it, `<`, `<=`,
/// `>`, `>=` the comparison of that name, `+`, `-`, `*`, `/` the arithmetic of
/// that name, except that `/` refuses a zero divisor. The variables are those
/// that the right operand left.
pub proof fn lemma_number_operators<N>(
    m: NumberModel<N>,
    left: Expression,
    operator: Token,
    right: Expression,
    scopes: Seq<Map<Seq<char>, ValueSpec<N>>>,
    x: N,
    y: N,
)
    requires
        eval(m, left, scopes).result == Ok::<ValueSpec<N>, Seq<char>>(ValueSpec::Number(x)),
        eval(m, right, eval(m, left, scopes).scopes).result == Ok::<ValueSpec<N>, Seq<char>>(
            ValueSpec::Number(y),
        ),
    ensures
        ({
            let e = eval(
                m,
                Expression::Binary { left: Box::new(left), operator, right: Box::new(right) },
                scopes,
            );
            let t = operator.token_type;
            let boolean = |b: bool| Ok::<ValueSpec<N>, Seq<char>>(ValueSpec::Boolean(b));
            let number = |n: N| Ok::<ValueSpec<N>, Seq<char>>(ValueSpec::Number(n));
            &&& e.scopes == eval(m, right, eval(m, left, scopes).scopes).scopes
            &&& t == TokenType::EqualEqual ==> e.result == boolean((m.compare)(Comparison::Equal, x, y))
            &&& t == TokenType::BangEqual ==> e.result == boolean(!(m.compare)(Comparison::Equal, x, y))
            &&& t == TokenType::Less ==> e.result == boolean((m.compare)(Comparison::Less, x, y))
            &&& t == TokenType::LessEqual ==> e.result == boolean((m.compare)(Comparison::LessEqual, x, y))
            &&& t == TokenType::Greater ==> e.result == boolean((m.compare)(Comparison::Greater, x, y))
            &&& t == TokenType::GreaterEqual ==> e.result == boolean(
                (m.compare)(Comparison::GreaterEqual, x, y),
            )
            &&& t == TokenType::Plus ==> e.result == number((m.arithmetic)(Arithmetic::Add, x, y))
            &&& t == TokenType::Minus ==> e.result == number((m.arithmetic)(Arithmetic::Subtract, x, y))
            &&& t == TokenType::Star ==> e.result == number((m.arithmetic)(Arithmetic::Multiply, x, y))
            &&& t == TokenType::Slash && !(m.is_zero)(y) ==> e.result == number(
                (m.arithmetic)(Arithmetic::Divide, x, y),
            )
            &&& t == TokenType::Slash && (m.is_zero)(y) ==> e.result == Err::<ValueSpec<N>, Seq<char>>(
                "division by 0 is not allowed"@,
            )
        }),
{
}

/// `==` on values that are not both numbers: strings are equal when they
/// have the same characters, booleans when they are the same, null equals
/// null, and values of different kinds are never equal; `!=` says the
/// opposite.
pub proof fn lemma_equality_of_values<N>(
    m: NumberModel<N>,
    left: Expression,
    operator: Token,
    right: Expression,
    scopes: Seq<Map<Seq<char>, ValueSpec<N>>>,
    a: ValueSpec<N>,
    b: ValueSpec<N>,
)
    requires
        eval(m, left, scopes).result == Ok::<ValueSpec<N>, Seq<char>>(a),
        eval(m, right, eval(m, left, scopes).scopes).result == Ok::<ValueSpec<N>, Seq<char>>(b),
        operator.token_type == TokenType::EqualEqual || operator.token_type
            == TokenType::BangEqual,
    ensures
        ({
            let e = eval(
                m,
                Expression::Binary { left: Box::new(left), operator, right: Box::new(right) },
                scopes,
            );
            let same = if operator.token_type == TokenType::EqualEqual {
                |q: bool| Ok::<ValueSpec<N>, Seq<char>>(ValueSpec::Boolean(q))
            } else {
                |q: bool| Ok::<ValueSpec<N>, Seq<char>>(ValueSpec::Boolean(!q))
            };
            &&& (a matches ValueSpec::String(x) && b matches ValueSpec::String(z)) ==> e.result == same(
                a->String_0 == b->String_0,
            )
            &&& (a matches ValueSpec::Boolean(p) && b matches ValueSpec::Boolean(q)) ==> e.result
                == same(a->Boolean_0 == b->Boolean_0)
            &&& (a is Null && b is Null) ==> e.result == same(true)
            &&& (a is Null) != (b is Null) ==> e.result == same(false)
            &&& (a is Number) != (b is Number) ==> e.result == same(false)
            &&& (a is String) != (b is String) ==> e.result == same(false)
            &&& (a is Boolean) != (b is Boolean) ==> e.result == same(false)
        }),
{
}

/// `-` negates a number through the number type and refuses anything else;
/// `!` gives true of null and false, false of true, of numbers and of
/// strings.
pub proof fn lemma_unary_operators<N>(
    m: NumberModel<N>,
    operator: Token,
    right: Expression,
    scopes: Seq<Map<Seq<char>, ValueSpec<N>>>,
    v: ValueSpec<N>,
)
    requires
        eval(m, right, scopes).result == Ok::<ValueSpec<N>, Seq<char>>(v),
    ensures
        ({
            let e = eval(m, Expression::Unary { operator, right: Box::new(right) }, scopes);
            let t = operator.token_type;
            let boolean = |b: bool| Ok::<ValueSpec<N>, Seq<char>>(ValueSpec::Boolean(b));
            &&& t == TokenType::Minus && v is Number ==> e.result == Ok::<ValueSpec<N>, Seq<char>>(
                ValueSpec::Number((m.negate)(v->Number_0)),
            )
            &&& t == TokenType::Minus && !(v is Number) ==> e.result == Err::<ValueSpec<N>, Seq<char>>(
                "operand must be a number"@,
            )
            &&& t == TokenType::Bang && v is Null ==> e.result == boolean(true)
            &&& t == TokenType::Bang && v is Boolean ==> e.result == boolean(!v->Boolean_0)
            &&& t == TokenType::Bang && (v is Number || v is String) ==> e.result == boolean(false)
        }),
{
}

/// `+` joins two strings, and a number with a string by the text that the
/// number type writes for the number; with a boolean or null on either side
/// it is refused. The other arithmetic and ordering operators refuse
/// anything but two numbers, naming the operand that is not one.
pub proof fn lemma_operators_on_other_values<N>(
    m: NumberModel<N>,
    left: Expression,
    operator: Token,
    right: Expression,
    scopes: Seq<Map<Seq<char>, ValueSpec<N>>>,
    a: ValueSpec<N>,
    b: ValueSpec<N>,
)
    requires
        eval(m, left, scopes).result == Ok::<ValueSpec<N>, Seq<char>>(a),
        eval(m, right, eval(m, left, scopes).scopes).result == Ok::<ValueSpec<N>, Seq<char>>(b),
    ensures
        ({
            let e = eval(
                m,
                Expression::Binary { left: Box::new(left), operator, right: Box::new(right) },
                scopes,
            );
            let t = operator.token_type;
            let string = |x: Seq<char>| Ok::<ValueSpec<N>, Seq<char>>(ValueSpec::String(x));
            let refused = |msg: Seq<char>| Err::<ValueSpec<N>, Seq<char>>(msg);
            let ordering_or_arithmetic = t == TokenType::Minus || t == TokenType::Star || t
                == TokenType::Slash || t == TokenType::Less || t == TokenType::LessEqual || t
                == TokenType::Greater || t == TokenType::GreaterEqual;
            let named = |w: Seq<char>| w + " must be a number for '"@ + operator.lexeme@ + "'"@;
            &&& t == TokenType::Plus && a is String && b is String ==> e.result == string(
                a->String_0 + b->String_0,
            )
            &&& t == TokenType::Plus && a is Number && b is String ==> e.result == string(
                (m.to_text)(a->Number_0) + b->String_0,
            )
            &&& t == TokenType::Plus && a is String && b is Number ==> e.result == string(
                a->String_0 + (m.to_text)(b->Number_0),
            )
            &&& t == TokenType::Plus && (a is Boolean || a is Null || b is Boolean || b is Null)
                ==> e.result == refused("operands must be two numbers or two strings"@)
            &&& ordering_or_arithmetic && a is Number && !(b is Number) ==> e.result == refused(named("right operand"@))
            &&& ordering_or_arithmetic && !(a is Number) && b is Number ==> e.result == refused(named("left operand"@))
            &&& ordering_or_arithmetic && !(a is Number) && !(b is Number) ==> e.result == refused(named("both operands"@))
        }),
{
}

/// A ternary takes its first branch exactly when the condition is neither
/// null nor false, evaluated with the variables that the condition left;
/// `||` gives its left operand when that is neither null nor false, and
/// `&&` when it is null or false, without evaluating the right one;
/// otherwise both give the right operand's result.
pub proof fn lemma_choices<N>(
    m: NumberModel<N>,
    condition: Expression,
    operator: Token,
    first: Expression,
    second: Expression,
    scopes: Seq<Map<Seq<char>, ValueSpec<N>>>,
    v: ValueSpec<N>,
)
    requires
        eval(m, condition, scopes).result == Ok::<ValueSpec<N>, Seq<char>>(v),
    ensures
        ({
            let c = eval(m, condition, scopes);
            let counts = !(v is Null) && !(v matches ValueSpec::Boolean(b) && !b);
            let ternary = eval(
                m,
                Expression::Ternary {
                    condition: Box::new(condition),
                    true_branch: Box::new(first),
                    false_branch: Box::new(second),
                },
                scopes,
            );
            let logical = eval(
                m,
                Expression::Logical { left: Box::new(condition), operator, right: Box::new(first) },
                scopes,
            );
            let t = operator.token_type;
            &&& counts ==> ternary == eval(m, first, c.scopes)
            &&& !counts ==> ternary == eval(m, second, c.scopes)
            &&& (t == TokenType::PipePipe && counts) || (t == TokenType::AmpAmp && !counts)
                ==> logical == c
            &&& (t == TokenType::PipePipe && !counts) || (t == TokenType::AmpAmp && counts)
                ==> logical == eval(m, first, c.scopes)
        }),
{
}

} // verus!
