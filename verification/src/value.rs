use vstd::prelude::*;

verus! {

/// The arithmetic that a program asks of its numbers.
#[derive(Debug, Clone, Copy, PartialEq, Eq, Structural)]
pub enum Arithmetic {
    Add,
    Subtract,
    Multiply,
    Divide,
}

/// The comparisons that a program asks of its numbers.
#[derive(Debug, Clone, Copy, PartialEq, Eq, Structural)]
pub enum Comparison {
    Greater,
    GreaterEqual,
    Less,
    LessEqual,
    Equal,
}

/// The numbers that a program computes with. The interpreter never looks
/// inside a number: it makes one from the text of a literal and hands numbers
/// to these operations, whose results it takes as they come. What it does is
/// stated for every `NumberModel` that the operations follow; operations
/// that are functions of their arguments follow one
/// (`lemma_functions_follow_a_model`).
pub trait Numeric: Sized + Copy {
    /// The number that the text of a number literal denotes, if any.
    fn from_literal(text: &str) -> Option<Self>;

    /// The number with the opposite sign.
    fn negate(self) -> Self;

    /// The result of `left op right`.
    fn arithmetic(op: Arithmetic, left: Self, right: Self) -> Self;

    /// Whether `left op right` holds.
    fn compare(op: Comparison, left: Self, right: Self) -> bool;

    /// Whether the number is zero, the one divisor that a program refuses.
    fn is_zero(self) -> bool;

    /// The number as text, as it reads where it is joined to a string.
    fn to_text(self) -> String;
}

/// What each operation on numbers gives, as mathematical functions.
#[verifier::reject_recursive_types(N)]
pub struct NumberModel<N> {
    pub from_literal: spec_fn(Seq<char>) -> Option<N>,
    pub negate: spec_fn(N) -> N,
    pub arithmetic: spec_fn(Arithmetic, N, N) -> N,
    pub compare: spec_fn(Comparison, N, N) -> bool,
    pub is_zero: spec_fn(N) -> bool,
    pub to_text: spec_fn(N) -> Seq<char>,
}

/// Every result that the operations of `N` give is the one that `m` gives on
/// the same arguments.
pub open spec fn follows<N: Numeric>(m: NumberModel<N>) -> bool {
    &&& forall|t: &str, r: Option<N>| #[trigger]
        call_ensures(N::from_literal, (t,), r) ==> r == (m.from_literal)(t@)
    &&& forall|a: N, r: N| #[trigger] call_ensures(N::negate, (a,), r) ==> r == (m.negate)(a)
    &&& forall|op: Arithmetic, a: N, b: N, r: N| #[trigger]
        call_ensures(N::arithmetic, (op, a, b), r) ==> r == (m.arithmetic)(op, a, b)
    &&& forall|op: Comparison, a: N, b: N, r: bool| #[trigger]
        call_ensures(N::compare, (op, a, b), r) ==> r == (m.compare)(op, a, b)
    &&& forall|a: N, r: bool| #[trigger] call_ensures(N::is_zero, (a,), r) ==> r == (m.is_zero)(a)
    &&& forall|a: N, r: String| #[trigger] call_ensures(N::to_text, (a,), r) ==> r@ == (m.to_text)(
        a,
    )
}

/// Each operation of `N` gives at most one result for given arguments (for
/// a literal, for given characters).
pub open spec fn operations_are_functions<N: Numeric>() -> bool {
    &&& forall|t1: &str, t2: &str, r1: Option<N>, r2: Option<N>|
        t1@ == t2@ && #[trigger] call_ensures(N::from_literal, (t1,), r1) && #[trigger] call_ensures(
            N::from_literal,
            (t2,),
            r2,
        ) ==> r1 == r2
    &&& forall|a: N, r1: N, r2: N|
        #[trigger] call_ensures(N::negate, (a,), r1) && #[trigger] call_ensures(N::negate, (a,), r2)
            ==> r1 == r2
    &&& forall|op: Arithmetic, a: N, b: N, r1: N, r2: N|
        #[trigger] call_ensures(N::arithmetic, (op, a, b), r1) && #[trigger] call_ensures(
            N::arithmetic,
            (op, a, b),
            r2,
        ) ==> r1 == r2
    &&& forall|op: Comparison, a: N, b: N, r1: bool, r2: bool|
        #[trigger] call_ensures(N::compare, (op, a, b), r1) && #[trigger] call_ensures(
            N::compare,
            (op, a, b),
            r2,
        ) ==> r1 == r2
    &&& forall|a: N, r1: bool, r2: bool|
        #[trigger] call_ensures(N::is_zero, (a,), r1) && #[trigger] call_ensures(N::is_zero, (a,), r2)
            ==> r1 == r2
    &&& forall|a: N, r1: String, r2: String|
        #[trigger] call_ensures(N::to_text, (a,), r1) && #[trigger] call_ensures(N::to_text, (a,), r2)
            ==> r1@ == r2@
}

/// `N` may read text with the characters `t` as `r`.
pub open spec fn literal_result<N: Numeric>(t: Seq<char>, r: Option<N>) -> bool {
    exists|s: &str| s@ == t && #[trigger] call_ensures(N::from_literal, (s,), r)
}

/// The model that takes, for each operation and arguments, a result that
/// `N` may give.
pub open spec fn model_of<N: Numeric>() -> NumberModel<N> {
    NumberModel {
        from_literal: |t: Seq<char>| choose|r: Option<N>| literal_result::<N>(t, r),
        negate: |a: N| choose|r: N| call_ensures(N::negate, (a,), r),
        arithmetic: |op: Arithmetic, a: N, b: N| choose|r: N| call_ensures(N::arithmetic, (op, a, b), r),
        compare: |op: Comparison, a: N, b: N| choose|r: bool| call_ensures(N::compare, (op, a, b), r),
        is_zero: |a: N| choose|r: bool| call_ensures(N::is_zero, (a,), r),
        to_text: |a: N| (choose|r: String| call_ensures(N::to_text, (a,), r))@,
    }
}

/// A number type whose operations are functions follows a model, so what the
/// interpreter promises for every model followed holds of it.
pub proof fn lemma_functions_follow_a_model<N: Numeric>()
    requires
        operations_are_functions::<N>(),
    ensures
        follows(model_of::<N>()),
{
    let m = model_of::<N>();
    assert forall|t: &str, r: Option<N>| #[trigger] call_ensures(N::from_literal, (t,), r) implies r
        == (m.from_literal)(t@) by {
        assert(literal_result::<N>(t@, r));
        let c = choose|c: Option<N>| literal_result::<N>(t@, c);
        let s = choose|s: &str| s@ == t@ && #[trigger] call_ensures(N::from_literal, (s,), c);
        assert(call_ensures(N::from_literal, (s,), c));
    }
    assert forall|a: N, r: N| #[trigger] call_ensures(N::negate, (a,), r) implies r == (m.negate)(a) by {
        let c = choose|c: N| call_ensures(N::negate, (a,), c);
        assert(call_ensures(N::negate, (a,), c));
    }
    assert forall|op: Arithmetic, a: N, b: N, r: N| #[trigger]
        call_ensures(N::arithmetic, (op, a, b), r) implies r == (m.arithmetic)(op, a, b) by {
        let c = choose|c: N| call_ensures(N::arithmetic, (op, a, b), c);
        assert(call_ensures(N::arithmetic, (op, a, b), c));
    }
    assert forall|op: Comparison, a: N, b: N, r: bool| #[trigger]
        call_ensures(N::compare, (op, a, b), r) implies r == (m.compare)(op, a, b) by {
        let c = choose|c: bool| call_ensures(N::compare, (op, a, b), c);
        assert(call_ensures(N::compare, (op, a, b), c));
    }
    assert forall|a: N, r: bool| #[trigger] call_ensures(N::is_zero, (a,), r) implies r == (m.is_zero)(a) by {
        let c = choose|c: bool| call_ensures(N::is_zero, (a,), c);
        assert(call_ensures(N::is_zero, (a,), c));
    }
    assert forall|a: N, r: String| #[trigger] call_ensures(N::to_text, (a,), r) implies r@ == (m.to_text)(a) by {
        let c = choose|c: String| call_ensures(N::to_text, (a,), c);
        assert(call_ensures(N::to_text, (a,), c));
    }
}

/// The values of a running program.
#[derive(Debug, PartialEq)]
pub enum Value<N> {
    Number(N),
    String(String),
    Boolean(bool),
    Null,
}

/// A value as a mathematical object: a string is its characters.
pub enum ValueSpec<N> {
    Number(N),
    String(Seq<char>),
    Boolean(bool),
    Null,
}

impl<N> View for Value<N> {
    type V = ValueSpec<N>;

    open spec fn view(&self) -> ValueSpec<N> {
        match self {
            Value::Number(n) => ValueSpec::Number(*n),
            Value::String(s) => ValueSpec::String(s@),
            Value::Boolean(b) => ValueSpec::Boolean(*b),
            Value::Null => ValueSpec::Null,
        }
    }
}

impl<N: Copy> Clone for Value<N> {
    fn clone(&self) -> (r: Self)
        ensures
            r == *self,
    {
        match self {
            Value::Number(n) => Value::Number(*n),
            Value::String(s) => Value::String(s.clone()),
            Value::Boolean(b) => Value::Boolean(*b),
            Value::Null => Value::Null,
        }
    }
}

} // verus!
