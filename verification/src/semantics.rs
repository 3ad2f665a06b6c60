use vstd::prelude::*;

use crate::environment::{
    assigned, defined, lookup, scopes_cloned, undefined_assign_message, undefined_get_message,
};
use crate::expression::{Expression, LiteralValue};
use crate::statement::StatementSpec;
use crate::token::{Token, TokenType};
use crate::value::{Arithmetic, Comparison, NumberModel, Value, ValueSpec};

verus! {

broadcast use vstd::seq::group_seq_axioms, vstd::map::group_map_axioms;

// What running a program means, as mathematical functions of the program, the
// variables it starts with and what the operations on numbers give.

/// One scope of a running program, values taken as mathematical objects.
pub open spec fn scope_view<N>(scope: Map<Seq<char>, Value<N>>) -> Map<Seq<char>, ValueSpec<N>> {
    scope.map_values(|v: Value<N>| v@)
}

/// The scopes of a running program, values taken as mathematical objects.
pub open spec fn scopes_view<N>(scopes: Seq<Map<Seq<char>, Value<N>>>) -> Seq<
    Map<Seq<char>, ValueSpec<N>>,
> {
    scopes.map_values(|scope: Map<Seq<char>, Value<N>>| scope_view(scope))
}

/// What evaluating an expression gives, and the variables after it.
pub struct Evaluated<N> {
    pub result: Result<ValueSpec<N>, Seq<char>>,
    pub scopes: Seq<Map<Seq<char>, ValueSpec<N>>>,
}

/// What executing statements gives, the variables after them and the values
/// printed so far.
pub struct Executed<N> {
    pub result: Result<Option<ValueSpec<N>>, Seq<char>>,
    pub scopes: Seq<Map<Seq<char>, ValueSpec<N>>>,
    pub output: Seq<ValueSpec<N>>,
}

/// Null and false are false; every other value is true.
pub open spec fn truthy<N>(v: ValueSpec<N>) -> bool {
    match v {
        ValueSpec::Null => false,
        ValueSpec::Boolean(b) => b,
        _ => true,
    }
}

/// Values are equal when they are of one kind and equal in it; numbers are
/// compared by the model.
pub open spec fn equal<N>(m: NumberModel<N>, a: ValueSpec<N>, b: ValueSpec<N>) -> bool {
    match (a, b) {
        (ValueSpec::Null, ValueSpec::Null) => true,
        (ValueSpec::Number(x), ValueSpec::Number(y)) => (m.compare)(Comparison::Equal, x, y),
        (ValueSpec::String(x), ValueSpec::String(y)) => x == y,
        (ValueSpec::Boolean(x), ValueSpec::Boolean(y)) => x == y,
        _ => false,
    }
}

/// The error of an operator that needs two numbers and did not get them.
pub open spec fn operands_message<N>(lexeme: Seq<char>, a: ValueSpec<N>, b: ValueSpec<N>) -> Seq<
    char,
> {
    let which = if a is Number {
        "right operand"@
    } else if b is Number {
        "left operand"@
    } else {
        "both operands"@
    };
    which + " must be a number for '"@ + lexeme + "'"@
}

pub open spec fn mixed_operands_message() -> Seq<char> {
    "operands must be two numbers or two strings"@
}

pub open spec fn division_by_zero_message() -> Seq<char> {
    "division by 0 is not allowed"@
}

pub open spec fn negate_message() -> Seq<char> {
    "operand must be a number"@
}

pub open spec fn call_message() -> Seq<char> {
    "can only call functions"@
}

pub open spec fn number_format_message() -> Seq<char> {
    "number is not in valid format"@
}

pub open spec fn uninitialized_message(name: Seq<char>) -> Seq<char> {
    "variable "@ + name + " accessed without assigning any value to it"@
}

/// The operators of binary expressions.
pub open spec fn is_binary_operator(t: TokenType) -> bool {
    ||| t == TokenType::EqualEqual
    ||| t == TokenType::BangEqual
    ||| t == TokenType::Greater
    ||| t == TokenType::GreaterEqual
    ||| t == TokenType::Less
    ||| t == TokenType::LessEqual
    ||| t == TokenType::Plus
    ||| t == TokenType::Minus
    ||| t == TokenType::Star
    ||| t == TokenType::Slash
}

/// The comparison that an ordering operator asks for.
pub open spec fn comparison_of(t: TokenType) -> Comparison {
    if t == TokenType::Greater {
        Comparison::Greater
    } else if t == TokenType::GreaterEqual {
        Comparison::GreaterEqual
    } else if t == TokenType::Less {
        Comparison::Less
    } else {
        Comparison::LessEqual
    }
}

/// `left op right` for a binary operator, on the values of both operands.
pub open spec fn binary<N>(m: NumberModel<N>, op: Token, a: ValueSpec<N>, b: ValueSpec<N>) -> Result<
    ValueSpec<N>,
    Seq<char>,
> {
    let t = op.token_type;
    if t == TokenType::EqualEqual {
        Ok(ValueSpec::Boolean(equal(m, a, b)))
    } else if t == TokenType::BangEqual {
        Ok(ValueSpec::Boolean(!equal(m, a, b)))
    } else if t == TokenType::Plus {
        match (a, b) {
            (ValueSpec::String(x), ValueSpec::String(y)) => Ok(ValueSpec::String(x + y)),
            (ValueSpec::Number(x), ValueSpec::String(y)) => Ok(
                ValueSpec::String((m.to_text)(x) + y),
            ),
            (ValueSpec::String(x), ValueSpec::Number(y)) => Ok(
                ValueSpec::String(x + (m.to_text)(y)),
            ),
            (ValueSpec::Number(x), ValueSpec::Number(y)) => Ok(
                ValueSpec::Number((m.arithmetic)(Arithmetic::Add, x, y)),
            ),
            _ => Err(mixed_operands_message()),
        }
    } else {
        match (a, b) {
            (ValueSpec::Number(x), ValueSpec::Number(y)) => {
                if t == TokenType::Minus {
                    Ok(ValueSpec::Number((m.arithmetic)(Arithmetic::Subtract, x, y)))
                } else if t == TokenType::Star {
                    Ok(ValueSpec::Number((m.arithmetic)(Arithmetic::Multiply, x, y)))
                } else if t == TokenType::Slash {
                    if (m.is_zero)(y) {
                        Err(division_by_zero_message())
                    } else {
                        Ok(ValueSpec::Number((m.arithmetic)(Arithmetic::Divide, x, y)))
                    }
                } else {
                    Ok(ValueSpec::Boolean((m.compare)(comparison_of(t), x, y)))
                }
            },
            _ => Err(operands_message(op.lexeme@, a, b)),
        }
    }
}

/// `op value` for a unary operator (`-` or `!`).
pub open spec fn unary<N>(m: NumberModel<N>, t: TokenType, v: ValueSpec<N>) -> Result<
    ValueSpec<N>,
    Seq<char>,
> {
    if t == TokenType::Minus {
        match v {
            ValueSpec::Number(n) => Ok(ValueSpec::Number((m.negate)(n))),
            _ => Err(negate_message()),
        }
    } else {
        Ok(ValueSpec::Boolean(!truthy(v)))
    }
}

/// The value that a literal denotes.
pub open spec fn literal<N>(m: NumberModel<N>, lit: LiteralValue) -> Result<ValueSpec<N>, Seq<char>> {
    match lit {
        LiteralValue::String(s) => Ok(ValueSpec::String(s@)),
        LiteralValue::Number(text) => match (m.from_literal)(text@) {
            Some(n) => Ok(ValueSpec::Number(n)),
            None => Err(number_format_message()),
        },
        LiteralValue::True => Ok(ValueSpec::Boolean(true)),
        LiteralValue::False => Ok(ValueSpec::Boolean(false)),
        LiteralValue::Null => Ok(ValueSpec::Null),
    }
}

/// Evaluating `e` with the variables `s`: operands from left to right, the
/// first error ends the evaluation.
pub open spec fn eval<N>(m: NumberModel<N>, e: Expression, s: Seq<Map<Seq<char>, ValueSpec<N>>>) -> Evaluated<N>
    decreases e,
{
    match e {
        Expression::Ternary { condition, true_branch, false_branch } => {
            let c = eval(m, *condition, s);
            match c.result {
                Ok(v) => if truthy(v) {
                    eval(m, *true_branch, c.scopes)
                } else {
                    eval(m, *false_branch, c.scopes)
                },
                Err(_) => c,
            }
        },
        Expression::Logical { left, operator, right } => {
            let l = eval(m, *left, s);
            match l.result {
                Ok(v) => if (operator.token_type == TokenType::PipePipe && truthy(v)) || (
                operator.token_type == TokenType::AmpAmp && !truthy(v)) {
                    l
                } else {
                    eval(m, *right, l.scopes)
                },
                Err(_) => l,
            }
        },
        Expression::Call { .. } => Evaluated { result: Err(call_message()), scopes: s },
        Expression::Binary { left, operator, right } => {
            let l = eval(m, *left, s);
            match l.result {
                Ok(a) => {
                    let r = eval(m, *right, l.scopes);
                    match r.result {
                        Ok(b) => Evaluated { result: binary(m, operator, a, b), scopes: r.scopes },
                        Err(_) => r,
                    }
                },
                Err(_) => l,
            }
        },
        Expression::Assignment { name, value } => {
            let v = eval(m, *value, s);
            match v.result {
                Ok(x) => match assigned(v.scopes, name.lexeme@, x) {
                    Some(after) => Evaluated { result: Ok(x), scopes: after },
                    None => Evaluated {
                        result: Err(undefined_assign_message(name.lexeme@)),
                        scopes: v.scopes,
                    },
                },
                Err(_) => v,
            }
        },
        Expression::Unary { operator, right } => {
            let r = eval(m, *right, s);
            match r.result {
                Ok(x) => Evaluated { result: unary(m, operator.token_type, x), scopes: r.scopes },
                Err(_) => r,
            }
        },
        Expression::Comma { left, right } => {
            let l = eval(m, *left, s);
            match l.result {
                Ok(_) => eval(m, *right, l.scopes),
                Err(_) => l,
            }
        },
        Expression::Variable(name) => Evaluated {
            result: match lookup(s, name.lexeme@) {
                Some(v) => Ok(v),
                None => Err(undefined_get_message(name.lexeme@)),
            },
            scopes: s,
        },
        Expression::Grouping(inner) => eval(m, *inner, s),
        Expression::Literal(lit) => Evaluated { result: literal(m, lit), scopes: s },
    }
}

/// The variables after a block that completes, given those before it and
/// those at its end. The block ran in a scope of its own around a copy of the
/// innermost scope before it, which shared the scopes further out: its own
/// scope goes, the innermost scope comes back as it was before the block, and
/// the scopes further out keep what the block assigned to them.
pub open spec fn after_block<V>(before: Seq<Map<Seq<char>, V>>, inside: Seq<Map<Seq<char>, V>>) -> Seq<
    Map<Seq<char>, V>,
> {
    seq![before[0]] + if inside.len() >= 2 {
        inside.subrange(2, inside.len() as int)
    } else {
        seq![]
    }
}

/// Executing `s` with the variables `scopes`, after `output` was printed.
pub open spec fn exec<N>(
    m: NumberModel<N>,
    s: StatementSpec,
    scopes: Seq<Map<Seq<char>, ValueSpec<N>>>,
    output: Seq<ValueSpec<N>>,
) -> Executed<N>
    decreases s, 0nat,
{
    match s {
        StatementSpec::If { cond, body, elze } => {
            let c = eval(m, cond, scopes);
            match c.result {
                Ok(v) => {
                    let branch = if truthy(v) {
                        Some(*body)
                    } else {
                        match elze {
                            Some(b) => Some(*b),
                            None => None,
                        }
                    };
                    match branch {
                        Some(b) => {
                            let x = exec(m, b, c.scopes, output);
                            match x.result {
                                Ok(_) => Executed { result: Ok(None), scopes: x.scopes, output: x.output },
                                Err(_) => x,
                            }
                        },
                        None => Executed { result: Ok(None), scopes: c.scopes, output },
                    }
                },
                Err(msg) => Executed { result: Err(msg), scopes: c.scopes, output },
            }
        },
        StatementSpec::Var { name, initializer } => match initializer {
            Some(init) => {
                let v = eval(m, init, scopes);
                match v.result {
                    Ok(x) => Executed {
                        result: Ok(None),
                        scopes: defined(v.scopes, name.lexeme@, x),
                        output,
                    },
                    Err(msg) => Executed { result: Err(msg), scopes: v.scopes, output },
                }
            },
            None => Executed { result: Err(uninitialized_message(name.lexeme@)), scopes, output },
        },
        StatementSpec::Block(ss) => {
            let inner = run(
                m,
                ss,
                ss.len(),
                Executed {
                    result: Ok(None),
                    scopes: seq![Map::<Seq<char>, ValueSpec<N>>::empty()] + scopes,
                    output,
                },
            );
            match inner.result {
                Ok(_) => Executed {
                    result: Ok(None),
                    scopes: after_block(scopes, inner.scopes),
                    output: inner.output,
                },
                Err(_) => inner,
            }
        },
        StatementSpec::Expression(e) => {
            let v = eval(m, e, scopes);
            match v.result {
                Ok(x) => Executed { result: Ok(Some(x)), scopes: v.scopes, output },
                Err(msg) => Executed { result: Err(msg), scopes: v.scopes, output },
            }
        },
        StatementSpec::Print(e) => {
            let v = eval(m, e, scopes);
            match v.result {
                Ok(x) => Executed { result: Ok(None), scopes: v.scopes, output: output.push(x) },
                Err(msg) => Executed { result: Err(msg), scopes: v.scopes, output },
            }
        },
    }
}

/// Executing the first `n` statements of `ss` in order from `start`, up to
/// the first error; the result is that of the last statement executed.
pub open spec fn run<N>(m: NumberModel<N>, ss: Seq<StatementSpec>, n: nat, start: Executed<N>) -> Executed<N>
    decreases ss, n,
{
    if n == 0 || n > ss.len() {
        start
    } else {
        let before = run(m, ss, (n - 1) as nat, start);
        match before.result {
            Ok(_) => exec(m, ss[n - 1], before.scopes, before.output),
            Err(_) => before,
        }
    }
}


/// A value that may be missing, taken as a mathematical object.
pub open spec fn option_view<N>(v: Option<Value<N>>) -> Option<ValueSpec<N>> {
    match v {
        Some(x) => Some(x@),
        None => None,
    }
}

proof fn lemma_scope_view_insert<N>(scope: Map<Seq<char>, Value<N>>, k: Seq<char>, v: Value<N>)
    ensures
        scope_view(scope.insert(k, v)) == scope_view(scope).insert(k, v@),
{
    assert(scope_view(scope.insert(k, v)) =~= scope_view(scope).insert(k, v@));
}

proof fn lemma_scopes_view_drop_first<N>(s: Seq<Map<Seq<char>, Value<N>>>)
    requires
        s.len() > 0,
    ensures
        scopes_view(s).drop_first() == scopes_view(s.drop_first()),
        scopes_view(s)[0] == scope_view(s[0]),
        scopes_view(s).len() == s.len(),
{
    assert(scopes_view(s).drop_first() =~= scopes_view(s.drop_first()));
}

/// Reading a variable commutes with taking values as mathematical objects.
pub proof fn lemma_lookup_view<N>(s: Seq<Map<Seq<char>, Value<N>>>, k: Seq<char>)
    ensures
        lookup(scopes_view(s), k) == option_view(lookup(s, k)),
    decreases s.len(),
{
    if s.len() > 0 {
        lemma_scopes_view_drop_first(s);
        lemma_lookup_view(s.drop_first(), k);
    }
}

/// Assigning a variable commutes with taking values as mathematical objects.
pub proof fn lemma_assigned_view<N>(s: Seq<Map<Seq<char>, Value<N>>>, k: Seq<char>, v: Value<N>)
    ensures
        assigned(scopes_view(s), k, v@) == match assigned(s, k, v) {
            Some(a) => Some(scopes_view(a)),
            None => None,
        },
    decreases s.len(),
{
    if s.len() > 0 {
        lemma_scopes_view_drop_first(s);
        lemma_assigned_view(s.drop_first(), k, v);
        if s[0].contains_key(k) {
            lemma_scope_view_insert(s[0], k, v);
            assert(scopes_view(s.update(0, s[0].insert(k, v))) =~= scopes_view(s).update(
                0,
                scopes_view(s)[0].insert(k, v@),
            ));
        } else {
            match assigned(s.drop_first(), k, v) {
                Some(rest) => {
                    assert(scopes_view(seq![s[0]] + rest) =~= seq![scopes_view(s)[0]]
                        + scopes_view(rest));
                },
                None => {},
            }
        }
    }
}

/// Defining a variable commutes with taking values as mathematical objects.
pub proof fn lemma_defined_view<N>(s: Seq<Map<Seq<char>, Value<N>>>, k: Seq<char>, v: Value<N>)
    requires
        s.len() > 0,
    ensures
        defined(scopes_view(s), k, v@) == scopes_view(defined(s, k, v)),
{
    lemma_scopes_view_drop_first(s);
    lemma_scope_view_insert(s[0], k, v);
    assert(defined(scopes_view(s), k, v@) =~= scopes_view(defined(s, k, v)));
}

/// A new empty scope in front commutes with taking values as mathematical
/// objects.
pub proof fn lemma_new_scope_view<N>(s: Seq<Map<Seq<char>, Value<N>>>)
    ensures
        scopes_view(seq![Map::<Seq<char>, Value<N>>::empty()] + s) == seq![
            Map::<Seq<char>, ValueSpec<N>>::empty(),
        ] + scopes_view(s),
{
    assert(scope_view(Map::<Seq<char>, Value<N>>::empty()) =~= Map::<
        Seq<char>,
        ValueSpec<N>,
    >::empty());
    assert(scopes_view(seq![Map::<Seq<char>, Value<N>>::empty()] + s) =~= seq![
        Map::<Seq<char>, ValueSpec<N>>::empty(),
    ] + scopes_view(s));
}

/// Leaving a block commutes with taking values as mathematical objects.
pub proof fn lemma_after_block_view<N>(before: Seq<Map<Seq<char>, Value<N>>>, inside: Seq<Map<Seq<char>, Value<N>>>)
    requires
        before.len() >= 1,
    ensures
        scopes_view(after_block(before, inside)) == after_block(scopes_view(before), scopes_view(inside)),
{
    assert(scopes_view(after_block(before, inside)) =~= after_block(scopes_view(before), scopes_view(inside)));
}

/// Cloning scopes of values gives the same scopes, since a cloned value is
/// the value itself.
pub proof fn lemma_cloned_scopes<N: Copy>(a: Seq<Map<Seq<char>, Value<N>>>, b: Seq<Map<Seq<char>, Value<N>>>)
    requires
        scopes_cloned(a, b),
    ensures
        a == b,
{
    assert forall|i: int| 0 <= i < a.len() implies a[i] == b[i] by {
        assert forall|k: Seq<char>| a[i].contains_key(k) implies a[i][k] == b[i][k] by {
            assert(cloned(a[i][k], b[i][k]));
        }
        assert(a[i] =~= b[i]);
    }
    assert(a =~= b);
}

/// Where nothing has run yet: no result, the given variables and output.
pub open spec fn started<N>(scopes: Seq<Map<Seq<char>, ValueSpec<N>>>, output: Seq<ValueSpec<N>>) -> Executed<N> {
    Executed { result: Ok(None), scopes, output }
}

/// Once a statement fails, no later statement runs.
pub proof fn lemma_run_stops<N>(m: NumberModel<N>, ss: Seq<StatementSpec>, k: nat, n: nat, start: Executed<N>)
    requires
        k <= n <= ss.len(),
        run(m, ss, k, start).result is Err,
    ensures
        run(m, ss, n, start) == run(m, ss, k, start),
    decreases n,
{
    if n > k {
        lemma_run_stops(m, ss, k, (n - 1) as nat, start);
    }
}

} // verus!
