use std::collections::HashMap;
use vstd::prelude::*;
use vstd::string::*;
use crate::table::Table;
use crate::value::Value;

verus! {

/// One scope: its bindings, and the scope around it.
pub struct Scope {
    pub values: Table<Value>,
    pub enclosing: Option<usize>,
}

/// The scopes of a running program and the one that is current. A scope
/// is never taken away: whoever holds its number finds it again, with all
/// that was bound in it since.
pub struct Environment {
    pub scopes: Vec<Scope>,
    pub current: usize,
    pub locals: HashMap<usize, usize>,
}

/// The scopes form chains that end in the outermost scope, number 0:
/// every other scope lies within one that was made before it.
pub open spec fn chained(scopes: Seq<Scope>) -> bool {
    &&& scopes.len() > 0
    &&& scopes[0].enclosing is None
    &&& forall|i: int| 0 <= i < scopes.len() ==> (#[trigger] scopes[i]).values.wf()
    &&& forall|i: int|
        0 < i < scopes.len() ==> (#[trigger] scopes[i]).enclosing is Some && scopes[i].enclosing->Some_0
            < i
}

/// The scope `hops` steps outward from `from`, if the chain is that long.
pub open spec fn ancestor(scopes: Seq<Scope>, from: int, hops: nat) -> Option<int>
    decreases hops,
{
    if !(0 <= from < scopes.len()) {
        None
    } else if hops == 0 {
        Some(from)
    } else {
        match scopes[from].enclosing {
            Some(outer) => ancestor(scopes, outer as int, (hops - 1) as nat),
            None => None,
        }
    }
}

/// The nearest scope from `from` outward that binds `name`.
pub open spec fn holder(scopes: Seq<Scope>, from: int, name: Seq<char>) -> Option<int>
    decreases from,
{
    if !(0 <= from < scopes.len()) {
        None
    } else if scopes[from].values@.contains_key(name) {
        Some(from)
    } else {
        match scopes[from].enclosing {
            Some(outer) => if outer < from {
                holder(scopes, outer as int, name)
            } else {
                None
            },
            None => None,
        }
    }
}

/// What `name` is bound to in the scope `at`.
pub open spec fn bound(scopes: Seq<Scope>, at: Option<int>, name: Seq<char>) -> Option<Value> {
    match at {
        Some(i) => if 0 <= i < scopes.len() && scopes[i].values@.contains_key(name) {
            Some(scopes[i].values@[name])
        } else {
            None
        },
        None => None,
    }
}

/// The scopes with `name` bound to `value` in the scope `at`.
pub open spec fn rebound(scopes: Seq<Scope>, at: int, name: Seq<char>, value: Value) -> Seq<
    Map<Seq<char>, Value>,
> {
    bindings(scopes).update(at, scopes[at].values@.insert(name, value))
}

/// The bindings of each scope.
pub open spec fn bindings(scopes: Seq<Scope>) -> Seq<Map<Seq<char>, Value>> {
    Seq::new(scopes.len(), |i: int| scopes[i].values@)
}

/// The scope around each scope.
pub open spec fn parents(scopes: Seq<Scope>) -> Seq<Option<usize>> {
    Seq::new(scopes.len(), |i: int| scopes[i].enclosing)
}

impl Environment {
    pub open spec fn wf(&self) -> bool {
        &&& chained(self.scopes@)
        &&& self.current < self.scopes@.len()
    }

    /// What `name` is bound to, looking from the current scope outward.
    pub open spec fn lookup(&self, name: Seq<char>) -> Option<Value> {
        bound(self.scopes@, holder(self.scopes@, self.current as int, name), name)
    }

    /// What `name` is bound to in the scope `hops` steps outward.
    pub open spec fn lookup_at(&self, hops: nat, name: Seq<char>) -> Option<Value> {
        bound(self.scopes@, ancestor(self.scopes@, self.current as int, hops), name)
    }

    /// What `name` is bound to in the outermost scope.
    pub open spec fn lookup_global(&self, name: Seq<char>) -> Option<Value> {
        bound(self.scopes@, Some(0int), name)
    }

    /// Only the bindings of the scope `at` differ from those of `before`:
    /// there `name` is bound to `value`.
    pub open spec fn rebinds(&self, before: &Environment, at: int, name: Seq<char>, value: Value) -> bool {
        &&& self.current == before.current
        &&& self.locals == before.locals
        &&& parents(self.scopes@) == parents(before.scopes@)
        &&& bindings(self.scopes@) == rebound(before.scopes@, at, name, value)
    }

    /// An environment with the outermost scope alone, empty.
    pub fn new(locals: HashMap<usize, usize>) -> (r: Self)
        ensures
            r.wf(),
            r.current == 0,
            r.scopes@.len() == 1,
            r.scopes@[0].values@ == Map::<Seq<char>, Value>::empty(),
            r.locals == locals,
    {
        let mut scopes: Vec<Scope> = Vec::new();
        scopes.push(Scope { values: Table::new(), enclosing: None });
        Environment { scopes, current: 0, locals }
    }

    /// Takes the hop counts that the resolver found.
    pub fn resolve(&mut self, locals: HashMap<usize, usize>)
        ensures
            final(self).scopes == old(self).scopes,
            final(self).current == old(self).current,
            final(self).locals == locals,
    {
        self.locals = locals;
    }

    /// Binds `name` to `value` in the scope `at`, in place of what it was
    /// bound to there.
    pub fn define_in(&mut self, at: usize, name: String, value: Value)
        requires
            old(self).wf(),
            at < old(self).scopes@.len(),
        ensures
            final(self).wf(),
            final(self).rebinds(old(self), at as int, name@, value),
            final(self).scopes@.len() == old(self).scopes@.len(),
    {
        self.scopes[at].values.insert(name, value);
        assert(parents(self.scopes@) =~= parents(old(self).scopes@));
        assert(bindings(self.scopes@) =~= rebound(old(self).scopes@, at as int, name@, value));
    }

    /// Binds `name` to `value` in the current scope, in place of what it
    /// was bound to there.
    pub fn define(&mut self, name: String, value: Value)
        requires
            old(self).wf(),
        ensures
            final(self).wf(),
            final(self).rebinds(old(self), old(self).current as int, name@, value),
            final(self).scopes@.len() == old(self).scopes@.len(),
    {
        let at: usize = self.current;
        self.define_in(at, name, value);
    }

    /// The scope `hops` steps outward from the current one.
    pub fn scope_at(&self, hops: usize) -> (r: Option<usize>)
        requires
            self.wf(),
        ensures
            match r {
                Some(i) => i < self.scopes@.len() && ancestor(
                    self.scopes@,
                    self.current as int,
                    hops as nat,
                ) == Some(i as int),
                None => ancestor(self.scopes@, self.current as int, hops as nat) is None,
            },
    {
        let mut at: usize = self.current;
        let mut left: usize = hops;
        while left > 0
            invariant
                self.wf(),
                at < self.scopes@.len(),
                ancestor(self.scopes@, self.current as int, hops as nat) == ancestor(
                    self.scopes@,
                    at as int,
                    left as nat,
                ),
            decreases left,
        {
            match self.scopes[at].enclosing {
                Some(outer) => {
                    at = outer;
                },
                None => {
                    return None;
                },
            }
            left = left - 1;
        }
        Some(at)
    }

    /// The nearest scope from the current one outward that binds `name`.
    pub fn scope_of(&self, name: &String) -> (r: Option<usize>)
        requires
            self.wf(),
        ensures
            match r {
                Some(i) => i < self.scopes@.len() && holder(
                    self.scopes@,
                    self.current as int,
                    name@,
                ) == Some(i as int) && self.scopes@[i as int].values@.contains_key(name@),
                None => holder(self.scopes@, self.current as int, name@) is None,
            },
    {
        let mut at: usize = self.current;
        loop
            invariant
                self.wf(),
                at < self.scopes@.len(),
                holder(self.scopes@, self.current as int, name@) == holder(
                    self.scopes@,
                    at as int,
                    name@,
                ),
            decreases at,
        {
            if self.scopes[at].values.contains(name) {
                return Some(at);
            }
            match self.scopes[at].enclosing {
                Some(outer) => {
                    at = outer;
                },
                None => {
                    return None;
                },
            }
        }
    }

    /// What `name` is bound to in the scope `at`.
    pub fn read(&self, at: Option<usize>, name: &String) -> (r: Option<Value>)
        requires
            self.wf(),
            at matches Some(i) ==> i < self.scopes@.len(),
        ensures
            r == bound(
                self.scopes@,
                match at {
                    Some(i) => Some(i as int),
                    None => None,
                },
                name@,
            ),
    {
        match at {
            None => None,
            Some(i) => match self.scopes[i].values.find(name) {
                Some(j) => Some(self.scopes[i].values.values[j].clone()),
                None => None,
            },
        }
    }

    /// What `name` is bound to, looking from the current scope outward.
    pub fn get(&self, name: &String) -> (r: Option<Value>)
        requires
            self.wf(),
        ensures
            r == self.lookup(name@),
    {
        self.read(self.scope_of(name), name)
    }

    /// What `name` is bound to in the scope `hops` steps outward.
    pub fn get_at(&self, hops: usize, name: &String) -> (r: Option<Value>)
        requires
            self.wf(),
        ensures
            r == self.lookup_at(hops as nat, name@),
    {
        self.read(self.scope_at(hops), name)
    }

    /// What `name` is bound to in the outermost scope.
    pub fn get_global(&self, name: &String) -> (r: Option<Value>)
        requires
            self.wf(),
        ensures
            r == self.lookup_global(name@),
    {
        self.read(Some(0), name)
    }

    /// Binds `name` to `value` in the scope `at` if it is bound there.
    pub fn write(&mut self, at: Option<usize>, name: &String, value: Value) -> (r: bool)
        requires
            old(self).wf(),
            at matches Some(i) ==> i < old(self).scopes@.len(),
        ensures
            final(self).wf(),
            final(self).scopes@.len() == old(self).scopes@.len(),
            r == (at is Some && old(self).scopes@[at->Some_0 as int].values@.contains_key(name@)),
            r ==> final(self).rebinds(old(self), at->Some_0 as int, name@, value),
            !r ==> *final(self) == *old(self),
    {
        match at {
            None => false,
            Some(i) => {
                if self.scopes[i].values.contains(name) {
                    self.define_in(i, name.clone(), value);
                    true
                } else {
                    false
                }
            },
        }
    }

    /// Binds `name` to `value` in the nearest scope, from the current one
    /// outward, that binds it. Tells whether there is one.
    pub fn assign(&mut self, name: &String, value: Value) -> (r: bool)
        requires
            old(self).wf(),
        ensures
            final(self).wf(),
            final(self).scopes@.len() == old(self).scopes@.len(),
            r == (holder(old(self).scopes@, old(self).current as int, name@) is Some),
            r ==> final(self).rebinds(
                old(self),
                holder(old(self).scopes@, old(self).current as int, name@)->Some_0,
                name@,
                value,
            ),
            !r ==> *final(self) == *old(self),
    {
        let at = self.scope_of(name);
        self.write(at, name, value)
    }

    /// Binds `name` to `value` in the scope `hops` steps outward, if it is
    /// bound there.
    pub fn assign_at(&mut self, hops: usize, name: &String, value: Value) -> (r: bool)
        requires
            old(self).wf(),
        ensures
            final(self).wf(),
            final(self).scopes@.len() == old(self).scopes@.len(),
            r == (old(self).lookup_at(hops as nat, name@) is Some),
            r ==> final(self).rebinds(
                old(self),
                ancestor(old(self).scopes@, old(self).current as int, hops as nat)->Some_0,
                name@,
                value,
            ),
            !r ==> *final(self) == *old(self),
    {
        let at = self.scope_at(hops);
        self.write(at, name, value)
    }

    /// Binds `name` to `value` in the outermost scope, if it is bound
    /// there.
    pub fn assign_global(&mut self, name: &String, value: Value) -> (r: bool)
        requires
            old(self).wf(),
        ensures
            final(self).wf(),
            final(self).scopes@.len() == old(self).scopes@.len(),
            r == (old(self).lookup_global(name@) is Some),
            r ==> final(self).rebinds(old(self), 0, name@, value),
            !r ==> *final(self) == *old(self),
    {
        self.write(Some(0), name, value)
    }

    /// Makes a new, empty scope within the scope `outer`, and gives its
    /// number.
    pub fn enclose_in(&mut self, outer: usize) -> (r: usize)
        requires
            old(self).wf(),
            outer < old(self).scopes@.len(),
        ensures
            final(self).wf(),
            r == old(self).scopes@.len(),
            final(self).scopes@ == old(self).scopes@.push(final(self).scopes@[r as int]),
            final(self).scopes@[r as int].enclosing == Some(outer),
            final(self).scopes@[r as int].values@ == Map::<Seq<char>, Value>::empty(),
            final(self).current == old(self).current,
            final(self).locals == old(self).locals,
    {
        let r: usize = self.scopes.len();
        self.scopes.push(Scope { values: Table::new(), enclosing: Some(outer) });
        assert(self.scopes@ =~= old(self).scopes@.push(self.scopes@[r as int]));
        r
    }

    /// Makes a new, empty scope within the current one, and gives its
    /// number. The current scope stays current.
    pub fn enclose(&mut self) -> (r: usize)
        requires
            old(self).wf(),
        ensures
            final(self).wf(),
            r == old(self).scopes@.len(),
            final(self).scopes@ == old(self).scopes@.push(final(self).scopes@[r as int]),
            final(self).scopes@[r as int].enclosing == Some(old(self).current),
            final(self).scopes@[r as int].values@ == Map::<Seq<char>, Value>::empty(),
            final(self).current == old(self).current,
            final(self).locals == old(self).locals,
    {
        let outer: usize = self.current;
        self.enclose_in(outer)
    }
}

/// The scope that is `hops` steps outward depends on the chains alone.
pub proof fn lemma_ancestor_by_parents(a: Seq<Scope>, b: Seq<Scope>, from: int, hops: nat)
    requires
        a.len() <= b.len(),
        parents(b).subrange(0, a.len() as int) == parents(a),
        chained(a),
    ensures
        ancestor(a, from, hops) is Some ==> ancestor(b, from, hops) == ancestor(a, from, hops),
        0 <= from < a.len() && a.len() == b.len() ==> ancestor(b, from, hops) == ancestor(a, from, hops),
    decreases hops,
{
    if 0 <= from < a.len() {
        assert(parents(a)[from] == a[from].enclosing);
        assert(parents(b).subrange(0, a.len() as int)[from] == b[from].enclosing);
        if hops > 0 {
            match a[from].enclosing {
                Some(outer) => {
                    if from > 0 {
                        lemma_ancestor_by_parents(a, b, outer as int, (hops - 1) as nat);
                    }
                },
                None => {},
            }
        }
    }
}

/// A binding that was written through one handle is read through every
/// handle that leads to the same scope, whatever scopes were made since
/// and whichever scope is current: a scope outlives the block that made
/// it.
pub proof fn lemma_captured_binding(
    before: Seq<Scope>,
    after: Seq<Scope>,
    writer: int,
    hops: nat,
    reader: int,
    steps: nat,
    name: Seq<char>,
    value: Value,
)
    requires
        chained(before),
        before.len() <= after.len(),
        ancestor(before, writer, hops) is Some,
        ancestor(before, reader, steps) == ancestor(before, writer, hops),
        parents(after).subrange(0, before.len() as int) == parents(before),
        bindings(after).subrange(0, before.len() as int) == rebound(
            before,
            ancestor(before, writer, hops)->Some_0,
            name,
            value,
        ),
    ensures
        bound(after, ancestor(after, reader, steps), name) == Some(value),
{
    lemma_ancestor_by_parents(before, after, reader, steps);
    lemma_ancestor_in_range(before, writer, hops);
    let at = ancestor(before, writer, hops)->Some_0;
    assert(bindings(after).subrange(0, before.len() as int)[at] == after[at].values@);
}

/// The scope that is `hops` steps outward is one of the scopes.
pub proof fn lemma_ancestor_in_range(scopes: Seq<Scope>, from: int, hops: nat)
    requires
        chained(scopes),
    ensures
        ancestor(scopes, from, hops) matches Some(i) ==> 0 <= i < scopes.len(),
    decreases hops,
{
    if 0 <= from < scopes.len() && hops > 0 {
        match scopes[from].enclosing {
            Some(outer) => {
                lemma_ancestor_in_range(scopes, outer as int, (hops - 1) as nat);
            },
            None => {},
        }
    }
}

} // verus!
