use vstd::prelude::*;
use vstd::string::StringExecFns;

use crate::error::LoxError;

verus! {

broadcast use vstd::seq::group_seq_axioms;

// An environment is a chain of scopes: the innermost first, then the scope
// that encloses it, and so on. A scope maps variable names to values.

/// The scope that a list of (name, value) bindings with distinct names makes.
pub open spec fn scope_of<T>(entries: Seq<(String, T)>) -> Map<Seq<char>, T>
    decreases entries.len(),
{
    if entries.len() == 0 {
        Map::empty()
    } else {
        scope_of(entries.drop_last()).insert(entries.last().0@, entries.last().1)
    }
}

/// No two bindings have the same name.
pub open spec fn distinct_names<T>(entries: Seq<(String, T)>) -> bool {
    forall|i: int, j: int|
        0 <= i < entries.len() && 0 <= j < entries.len() && i != j ==> #[trigger] entries[i].0@
            != #[trigger] entries[j].0@
}

/// The value that `name` has in the innermost scope that binds it.
pub open spec fn lookup<T>(scopes: Seq<Map<Seq<char>, T>>, name: Seq<char>) -> Option<T>
    decreases scopes.len(),
{
    if scopes.len() == 0 {
        None
    } else if scopes[0].contains_key(name) {
        Some(scopes[0][name])
    } else {
        lookup(scopes.drop_first(), name)
    }
}

/// The scopes after `name` gets `value` in the innermost scope that binds it;
/// none if no scope binds it.
pub open spec fn assigned<T>(scopes: Seq<Map<Seq<char>, T>>, name: Seq<char>, value: T) -> Option<
    Seq<Map<Seq<char>, T>>,
>
    decreases scopes.len(),
{
    if scopes.len() == 0 {
        None
    } else if scopes[0].contains_key(name) {
        Some(scopes.update(0, scopes[0].insert(name, value)))
    } else {
        match assigned(scopes.drop_first(), name, value) {
            Some(rest) => Some(seq![scopes[0]] + rest),
            None => None,
        }
    }
}

/// The scopes after `name` gets `value` in the innermost scope.
pub open spec fn defined<T>(scopes: Seq<Map<Seq<char>, T>>, name: Seq<char>, value: T) -> Seq<
    Map<Seq<char>, T>,
> {
    scopes.update(0, scopes[0].insert(name, value))
}

/// Two chains of scopes bind the same names, and each value of `b` is a clone
/// of the value of `a`.
pub open spec fn scopes_cloned<T: Clone>(a: Seq<Map<Seq<char>, T>>, b: Seq<Map<Seq<char>, T>>) -> bool {
    &&& a.len() == b.len()
    &&& forall|i: int|
        0 <= i < a.len() ==> {
            &&& (#[trigger] a[i]).dom() == b[i].dom()
            &&& forall|k: Seq<char>| a[i].contains_key(k) ==> cloned(a[i][k], #[trigger] b[i][k])
        }
}

pub open spec fn undefined_get_message(name: Seq<char>) -> Seq<char> {
    "undefined variable: "@ + name
}

pub open spec fn undefined_assign_message(name: Seq<char>) -> Seq<char> {
    "undefined variable: '"@ + name + "'"@
}

pub open spec fn is_runtime_error(e: LoxError, message: Seq<char>) -> bool {
    e matches LoxError::Runtime { message: m } && m@ == message
}

proof fn lemma_scope_of_push<T>(entries: Seq<(String, T)>, e: (String, T))
    ensures
        scope_of(entries.push(e)) == scope_of(entries).insert(e.0@, e.1),
{
    assert(entries.push(e).drop_last() =~= entries);
}

/// With distinct names, the scope binds exactly the names of the bindings,
/// each to its value.
proof fn lemma_scope_of_contents<T>(entries: Seq<(String, T)>)
    requires
        distinct_names(entries),
    ensures
        forall|k: Seq<char>|
            #[trigger] scope_of(entries).contains_key(k) <==> exists|i: int|
                0 <= i < entries.len() && #[trigger] entries[i].0@ == k,
        forall|i: int|
            0 <= i < entries.len() ==> #[trigger] scope_of(entries)[entries[i].0@] == entries[i].1,
    decreases entries.len(),
{
    if entries.len() > 0 {
        let init = entries.drop_last();
        let last = entries.len() - 1;
        assert forall|i: int| 0 <= i < init.len() implies #[trigger] init[i] == entries[i] by {}
        assert(distinct_names(init)) by {
            assert forall|i: int, j: int|
                0 <= i < init.len() && 0 <= j < init.len() && i != j implies #[trigger] init[i].0@
                != #[trigger] init[j].0@ by {
                assert(init[i] == entries[i]);
                assert(init[j] == entries[j]);
            }
        }
        lemma_scope_of_contents(init);
        let m = scope_of(init);
        assert(scope_of(entries) == m.insert(entries[last].0@, entries[last].1));
        assert forall|k: Seq<char>| #[trigger]
            scope_of(entries).contains_key(k) <==> exists|i: int|
                0 <= i < entries.len() && #[trigger] entries[i].0@ == k by {
            if scope_of(entries).contains_key(k) {
                if k != entries[last].0@ {
                    assert(m.contains_key(k));
                    let i = choose|i: int| 0 <= i < init.len() && #[trigger] init[i].0@ == k;
                    assert(entries[i] == init[i]);
                    assert(entries[i].0@ == k);
                } else {
                    assert(entries[last].0@ == k);
                }
            }
            if exists|i: int| 0 <= i < entries.len() && #[trigger] entries[i].0@ == k {
                let i = choose|i: int| 0 <= i < entries.len() && #[trigger] entries[i].0@ == k;
                if i < last {
                    assert(init[i] == entries[i]);
                    assert(init[i].0@ == k);
                    assert(m.contains_key(k));
                }
            }
        }
        assert forall|i: int| 0 <= i < entries.len() implies #[trigger] scope_of(entries)[entries[i].0@]
            == entries[i].1 by {
            if i < last {
                assert(init[i] == entries[i]);
                assert(entries[i].0@ != entries[last].0@);
                assert(m[init[i].0@] == init[i].1);
            }
        }
    }
}

/// With distinct names, giving the binding at `i` a new value (under the same
/// name) gives its name that value in the scope.
proof fn lemma_scope_of_update<T>(entries: Seq<(String, T)>, i: int, key: String, v: T)
    requires
        distinct_names(entries),
        0 <= i < entries.len(),
        key@ == entries[i].0@,
    ensures
        scope_of(entries.update(i, (key, v))) == scope_of(entries).insert(key@, v),
        distinct_names(entries.update(i, (key, v))),
    decreases entries.len(),
{
    let updated = entries.update(i, (key, v));
    let last = entries.len() - 1;
    let init = entries.drop_last();
    assert forall|a: int, b: int|
        0 <= a < updated.len() && 0 <= b < updated.len() && a != b implies #[trigger] updated[a].0@
        != #[trigger] updated[b].0@ by {
        assert(updated[a].0@ == entries[a].0@);
        assert(updated[b].0@ == entries[b].0@);
    }
    if i == last {
        assert(updated.drop_last() =~= init);
        assert(scope_of(entries).insert(key@, v) =~= scope_of(init).insert(key@, v));
    } else {
        assert(distinct_names(init)) by {
            assert forall|a: int, b: int|
                0 <= a < init.len() && 0 <= b < init.len() && a != b implies #[trigger] init[a].0@
                != #[trigger] init[b].0@ by {
                assert(init[a] == entries[a]);
                assert(init[b] == entries[b]);
            }
        }
        assert(init[i] == entries[i]);
        lemma_scope_of_update(init, i, key, v);
        assert(updated.drop_last() =~= init.update(i, (key, v)));
        assert(updated.last() == entries.last());
        assert(entries[i].0@ != entries[last].0@);
        assert(scope_of(updated) =~= scope_of(entries).insert(key@, v));
    }
}

/// Two binding lists with the same names, values of the second cloned from
/// the first, make scopes with the same names and cloned values.
proof fn lemma_scope_of_cloned<T: Clone>(a: Seq<(String, T)>, b: Seq<(String, T)>)
    requires
        a.len() == b.len(),
        forall|i: int| 0 <= i < a.len() ==> (#[trigger] a[i]).0@ == b[i].0@,
        forall|i: int| 0 <= i < a.len() ==> cloned((#[trigger] a[i]).1, b[i].1),
    ensures
        scope_of(a).dom() == scope_of(b).dom(),
        forall|k: Seq<char>| #[trigger]
            scope_of(a).contains_key(k) ==> cloned(scope_of(a)[k], scope_of(b)[k]),
    decreases a.len(),
{
    if a.len() > 0 {
        let ia = a.drop_last();
        let ib = b.drop_last();
        assert forall|i: int| 0 <= i < ia.len() implies (#[trigger] ia[i]).0@ == ib[i].0@ && cloned(
            ia[i].1,
            ib[i].1,
        ) by {
            assert(ia[i] == a[i]);
            assert(ib[i] == b[i]);
        }
        lemma_scope_of_cloned(ia, ib);
        assert(a.last() == a[a.len() - 1]);
        assert(b.last() == b[b.len() - 1]);
        assert(scope_of(a).dom() =~= scope_of(b).dom());
    }
}

/// A variable reads the value that was last defined for it in the innermost
/// scope, and defining it leaves every other variable as it was.
pub proof fn lemma_get_after_define<T>(
    scopes: Seq<Map<Seq<char>, T>>,
    name: Seq<char>,
    value: T,
    other: Seq<char>,
)
    requires
        scopes.len() >= 1,
    ensures
        lookup(defined(scopes, name, value), name) == Some(value),
        other != name ==> lookup(defined(scopes, name, value), other) == lookup(scopes, other),
        defined(scopes, name, value).len() == scopes.len(),
        defined(scopes, name, value).drop_first() == scopes.drop_first(),
{
    let d = defined(scopes, name, value);
    assert(d.drop_first() =~= scopes.drop_first());
}

/// Assigning to a variable succeeds exactly when some scope binds it; the
/// variable then reads the value assigned, every other variable reads as it
/// did, and the number of scopes stays.
pub proof fn lemma_get_after_assign<T>(
    scopes: Seq<Map<Seq<char>, T>>,
    name: Seq<char>,
    value: T,
    other: Seq<char>,
)
    ensures
        assigned(scopes, name, value) is Some <==> lookup(scopes, name) is Some,
        assigned(scopes, name, value) matches Some(after) ==> {
            &&& lookup(after, name) == Some(value)
            &&& (other != name ==> lookup(after, other) == lookup(scopes, other))
            &&& after.len() == scopes.len()
        },
    decreases scopes.len(),
{
    if scopes.len() > 0 {
        if scopes[0].contains_key(name) {
            let after = scopes.update(0, scopes[0].insert(name, value));
            assert(after.drop_first() =~= scopes.drop_first());
        } else {
            lemma_get_after_assign(scopes.drop_first(), name, value, other);
            match assigned(scopes.drop_first(), name, value) {
                Some(rest) => {
                    let after = seq![scopes[0]] + rest;
                    assert(after.drop_first() =~= rest);
                    assert(after[0] == scopes[0]);
                },
                None => {},
            }
        }
    }
}

/// A new scope sees every variable of the environment it encloses, and
/// assigning through it changes that variable where it is bound.
pub proof fn lemma_get_through_new_scope<T>(
    scopes: Seq<Map<Seq<char>, T>>,
    name: Seq<char>,
    value: T,
)
    ensures
        lookup(seq![Map::<Seq<char>, T>::empty()] + scopes, name) == lookup(scopes, name),
        assigned(seq![Map::<Seq<char>, T>::empty()] + scopes, name, value) == match assigned(
            scopes,
            name,
            value,
        ) {
            Some(rest) => Some(seq![Map::<Seq<char>, T>::empty()] + rest),
            None => None,
        },
{
    let inner = seq![Map::<Seq<char>, T>::empty()] + scopes;
    assert(inner.drop_first() =~= scopes);
    assert(inner[0] == Map::<Seq<char>, T>::empty());
}

/// The scopes of an environment that may be missing: none if it is.
pub open spec fn scopes_or_none<T>(e: Option<Environment<T>>) -> Seq<Map<Seq<char>, T>> {
    match e {
        Some(e) => e.scopes(),
        None => seq![],
    }
}

/// The variables of a running program: its innermost scope and the
/// environment that encloses it.
pub struct Environment<T> {
    enclosing: Option<Box<Environment<T>>>,
    values: Vec<(String, T)>,
}

impl<T> Environment<T> {
    #[verifier::type_invariant]
    spec fn inv(self) -> bool {
        distinct_names(self.values@)
    }

    /// The scopes, innermost first.
    pub closed spec fn scopes(self) -> Seq<Map<Seq<char>, T>>
        decreases self,
    {
        match self.enclosing {
            Some(e) => seq![scope_of(self.values@)] + e.scopes(),
            None => seq![scope_of(self.values@)],
        }
    }

    /// There is always at least the innermost scope.
    pub proof fn lemma_scopes_not_empty(self)
        ensures
            self.scopes().len() >= 1,
    {
    }

    pub fn new() -> (e: Self)
        ensures
            e.scopes() == seq![Map::<Seq<char>, T>::empty()],
    {
        Environment { enclosing: None, values: Vec::new() }
    }

    /// An empty scope inside `enclosing`.
    pub fn new_enclosed(enclosing: Environment<T>) -> (e: Self)
        ensures
            e.scopes() == seq![Map::<Seq<char>, T>::empty()] + enclosing.scopes(),
    {
        Environment { enclosing: Some(Box::new(enclosing)), values: Vec::new() }
    }

    /// The environment that encloses this one: its scopes are all but the
    /// innermost; none when there is only one scope.
    pub(crate) fn into_enclosing(self) -> (r: Option<Environment<T>>)
        ensures
            match r {
                Some(e) => e.scopes() == self.scopes().drop_first(),
                None => self.scopes().len() == 1,
            },
    {
        match self.enclosing {
            Some(e) => {
                proof {
                    assert(self.scopes().drop_first() =~= e.scopes());
                }
                Some(*e)
            },
            None => None,
        }
    }

    /// Keeps the innermost scope and puts `enclosing` around it.
    pub(crate) fn set_enclosing(&mut self, enclosing: Option<Environment<T>>)
        ensures
            final(self).scopes() == seq![old(self).scopes()[0]] + scopes_or_none(enclosing),
    {
        proof {
            use_type_invariant(&*self);
        }
        self.enclosing = match enclosing {
            Some(e) => Some(Box::new(e)),
            None => None,
        };
        proof {
            assert(self.scopes() =~= seq![old(self).scopes()[0]] + scopes_or_none(enclosing));
        }
    }

    /// The index of the binding of `name` in the innermost scope.
    fn position(&self, name: &String) -> (r: Option<usize>)
        ensures
            match r {
                Some(i) => i < self.values@.len() && self.values@[i as int].0@ == name@,
                None => forall|i: int|
                    0 <= i < self.values@.len() ==> #[trigger] self.values@[i].0@ != name@,
            },
    {
        let mut i: usize = 0;
        while i < self.values.len()
            invariant
                0 <= i <= self.values@.len(),
                forall|j: int| 0 <= j < i ==> #[trigger] self.values@[j].0@ != name@,
            decreases self.values@.len() - i,
        {
            if self.values[i].0 == *name {
                return Some(i);
            }
            i += 1;
        }
        None
    }

    /// Binds `name` to `value` in the innermost scope.
    pub fn define(&mut self, name: String, value: T)
        ensures
            final(self).scopes() == defined(old(self).scopes(), name@, value),
    {
        proof {
            use_type_invariant(&*self);
        }
        match self.position(&name) {
            Some(i) => {
                let ghost entries = self.values@;
                let key = name;
                proof {
                    lemma_scope_of_update(entries, i as int, key, value);
                }
                let mut values = Vec::new();
                std::mem::swap(&mut values, &mut self.values);
                values.set(i, (key, value));
                proof {
                    assert(values@ == entries.update(i as int, (key, value)));
                }
                self.values = values;
            },
            None => {
                let ghost entries = self.values@;
                let ghost entry = (name, value);
                proof {
                    lemma_scope_of_push(entries, entry);
                }
                let mut values = Vec::new();
                std::mem::swap(&mut values, &mut self.values);
                values.push((name, value));
                proof {
                    assert(values@ == entries.push(entry));
                    assert forall|i: int, j: int|
                        0 <= i < values@.len() && 0 <= j < values@.len() && i != j implies #[trigger] values@[i].0@
                        != #[trigger] values@[j].0@ by {
                        if i < entries.len() && j < entries.len() {
                            assert(values@[i] == entries[i]);
                            assert(values@[j] == entries[j]);
                        } else if i < entries.len() {
                            assert(values@[i] == entries[i]);
                        } else {
                            assert(values@[j] == entries[j]);
                        }
                    }
                }
                self.values = values;
            },
        }
        proof {
            assert(self.scopes() =~= defined(old(self).scopes(), name@, value));
        }
    }

    /// Gives `value` to `name` in the innermost scope that binds it.
    pub fn assign(&mut self, name: &str, value: T) -> (r: Result<(), LoxError>)
        ensures
            match assigned(old(self).scopes(), name@, value) {
                Some(scopes) => r is Ok && final(self).scopes() == scopes,
                None => r matches Err(e) && is_runtime_error(e, undefined_assign_message(name@))
                    && final(self).scopes() == old(self).scopes(),
            },
        decreases *old(self),
    {
        proof {
            use_type_invariant(&*self);
        }
        let key = name.to_owned();
        let ghost entries = self.values@;
        proof {
            lemma_scope_of_contents(entries);
            assert(old(self).scopes()[0] == scope_of(entries));
        }
        match self.position(&key) {
            Some(i) => {
                proof {
                    lemma_scope_of_update(entries, i as int, key, value);
                }
                let mut values = Vec::new();
                std::mem::swap(&mut values, &mut self.values);
                values.set(i, (key, value));
                proof {
                    assert(values@ == entries.update(i as int, (key, value)));
                }
                self.values = values;
                proof {
                    assert(self.scopes() =~= old(self).scopes().update(
                        0,
                        old(self).scopes()[0].insert(name@, value),
                    ));
                }
                Ok(())
            },
            None => {
                assert(!scope_of(entries).contains_key(name@));
                let mut enclosing = None;
                std::mem::swap(&mut enclosing, &mut self.enclosing);
                match enclosing {
                    Some(mut enclosing) => {
                        let r = enclosing.assign(name, value);
                        self.enclosing = Some(enclosing);
                        proof {
                            let olds = old(self).scopes();
                            assert(olds.drop_first() =~= (*old(self).enclosing->0).scopes());
                            match assigned(olds.drop_first(), name@, value) {
                                Some(rest) => {
                                    assert(self.scopes() =~= seq![olds[0]] + rest);
                                },
                                None => {
                                    assert(self.scopes() =~= olds);
                                },
                            }
                        }
                        r
                    },
                    None => {
                        proof {
                            assert(old(self).scopes().drop_first() =~= Seq::<Map<Seq<char>, T>>::empty());
                            assert(assigned(old(self).scopes().drop_first(), name@, value) is None);
                            assert(assigned(old(self).scopes(), name@, value) is None);
                        }
                        let mut message = "undefined variable: '".to_owned();
                        message.append(name);
                        message.append("'");
                        Err(LoxError::Runtime { message })
                    },
                }
            },
        }
    }

    /// The value of `name` in the innermost scope that binds it.
    pub fn get(&self, name: &str) -> (r: Result<&T, LoxError>)
        ensures
            match lookup(self.scopes(), name@) {
                Some(v) => r == Ok::<&T, LoxError>(&v),
                None => r matches Err(e) && is_runtime_error(e, undefined_get_message(name@)),
            },
        decreases self,
    {
        proof {
            use_type_invariant(self);
            lemma_scope_of_contents(self.values@);
        }
        let key = name.to_owned();
        proof {
            assert(self.scopes()[0] == scope_of(self.values@));
        }
        match self.position(&key) {
            Some(i) => {
                proof {
                    assert(scope_of(self.values@).contains_key(name@));
                    assert(scope_of(self.values@)[name@] == self.values@[i as int].1);
                    assert(lookup(self.scopes(), name@) == Some(self.values@[i as int].1));
                }
                Ok(&self.values[i].1)
            },
            None => {
                assert(!scope_of(self.values@).contains_key(name@));
                match &self.enclosing {
                    Some(enclosing) => {
                        proof {
                            assert(self.scopes().drop_first() =~= enclosing.scopes());
                            assert(lookup(self.scopes(), name@) == lookup(enclosing.scopes(), name@));
                        }
                        enclosing.get(name)
                    },
                    None => {
                        proof {
                            assert(self.scopes().drop_first() =~= Seq::<Map<Seq<char>, T>>::empty());
                            assert(lookup(self.scopes().drop_first(), name@) == None::<T>);
                            assert(lookup(self.scopes(), name@) == None::<T>);
                        }
                        let mut message = "undefined variable: ".to_owned();
                        message.append(name);
                        Err(LoxError::Runtime { message })
                    },
                }
            },
        }
    }
}

impl<T: Clone> Clone for Environment<T> {
    /// A copy of every scope, each value cloned.
    fn clone(&self) -> (r: Self)
        ensures
            scopes_cloned(self.scopes(), r.scopes()),
        decreases self,
    {
        proof {
            use_type_invariant(self);
        }
        let mut values: Vec<(String, T)> = Vec::new();
        let mut i: usize = 0;
        while i < self.values.len()
            invariant
                0 <= i <= self.values@.len(),
                values@.len() == i,
                distinct_names(self.values@),
                forall|j: int| 0 <= j < i ==> (#[trigger] values@[j]).0@ == self.values@[j].0@,
                forall|j: int| 0 <= j < i ==> cloned(self.values@[j].1, (#[trigger] values@[j]).1),
            decreases self.values@.len() - i,
        {
            let name = self.values[i].0.clone();
            let value = self.values[i].1.clone();
            values.push((name, value));
            i += 1;
        }
        proof {
            assert(distinct_names(values@)) by {
                assert forall|a: int, b: int|
                    0 <= a < values@.len() && 0 <= b < values@.len() && a != b implies #[trigger] values@[a].0@
                    != #[trigger] values@[b].0@ by {
                    assert(values@[a].0@ == self.values@[a].0@);
                    assert(values@[b].0@ == self.values@[b].0@);
                }
            }
            assert forall|j: int| 0 <= j < self.values@.len() implies (#[trigger] self.values@[j]).0@
                == values@[j].0@ && cloned(self.values@[j].1, values@[j].1) by {
                assert(values@[j].0@ == self.values@[j].0@);
                assert(cloned(self.values@[j].1, values@[j].1));
            }
            lemma_scope_of_cloned(self.values@, values@);
        }
        let enclosing = match &self.enclosing {
            Some(e) => Some(Box::new((**e).clone())),
            None => None,
        };
        let r = Environment { enclosing, values };
        proof {
            let a = self.scopes();
            let b = r.scopes();
            assert(a[0] == scope_of(self.values@));
            assert(b[0] == scope_of(values@));
            assert forall|i: int| 0 <= i < a.len() implies {
                &&& (#[trigger] a[i]).dom() == b[i].dom()
                &&& forall|k: Seq<char>| a[i].contains_key(k) ==> cloned(a[i][k], #[trigger] b[i][k])
            } by {
                if i > 0 {
                    match self.enclosing {
                        Some(e) => {
                            assert(a[i] == e.scopes()[i - 1]);
                            assert(b[i] == r.enclosing->0.scopes()[i - 1]);
                        },
                        None => {},
                    }
                }
            }
        }
        r
    }
}

} // verus!
