//! Context passing between components: scoped values with fallback to the
//! parent context, and callbacks passed as props.
use vstd::prelude::*;

verus! {

/// A provider of context values for a component tree. Each value is stored
/// under a key (one key per kind of value); a lookup that finds nothing
/// here continues in the parent context.
pub struct ContextProvider<V> {
    parent: Option<Box<ContextProvider<V>>>,
    values: Vec<(u64, V)>,
}

/// The entries as a map from key to value.
pub open spec fn entries_map<V>(vs: Seq<(u64, V)>) -> Map<u64, V>
    decreases vs.len(),
{
    if vs.len() == 0 {
        Map::empty()
    } else {
        entries_map(vs.drop_last()).insert(vs.last().0, vs.last().1)
    }
}

impl<V> ContextProvider<V> {
    /// The values provided in this context itself.
    pub closed spec fn local(self) -> Map<u64, V> {
        entries_map(self.values@)
    }

    /// The parent context, if any.
    pub closed spec fn parent_ctx(self) -> Option<ContextProvider<V>> {
        match self.parent {
            Some(p) => Some(*p),
            None => None,
        }
    }

    /// The value found for a key: here first, then in the parents.
    pub closed spec fn lookup(self, key: u64) -> Option<V>
        decreases self,
    {
        if entries_map(self.values@).dom().contains(key) {
            Some(entries_map(self.values@)[key])
        } else {
            match self.parent {
                Some(p) => p.lookup(key),
                None => None,
            }
        }
    }

    /// Every context in the chain stores each key once.
    pub closed spec fn wf(self) -> bool
        decreases self,
    {
        &&& forall|i: int, j: int|
            0 <= i < j < self.values@.len() ==> self.values@[i].0 != self.values@[j].0
        &&& match self.parent {
            Some(p) => p.wf(),
            None => true,
        }
    }

    /// A context without values and without a parent.
    pub fn new() -> (r: Self)
        ensures
            r.wf(),
            r.local() == Map::<u64, V>::empty(),
            r.parent_ctx() is None,
    {
        ContextProvider { parent: None, values: Vec::new() }
    }

    /// A context without values whose lookups fall back to `parent`.
    pub fn with_parent(parent: ContextProvider<V>) -> (r: Self)
        requires
            parent.wf(),
        ensures
            r.wf(),
            r.local() == Map::<u64, V>::empty(),
            r.parent_ctx() == Some(parent),
    {
        ContextProvider { parent: Some(Box::new(parent)), values: Vec::new() }
    }

    /// Position of a key among the local entries.
    fn local_position(&self, key: u64) -> (r: Option<usize>)
        requires
            self.wf(),
        ensures
            match r {
                Some(i) => i < self.values@.len() && self.values@[i as int].0 == key,
                None => !entries_map(self.values@).dom().contains(key),
            },
            r is None <==> !entries_map(self.values@).dom().contains(key),
    {
        let mut i: usize = 0;
        while i < self.values.len()
            invariant
                i <= self.values@.len(),
                forall|j: int| 0 <= j < i ==> self.values@[j].0 != key,
            decreases self.values.len() - i,
        {
            if self.values[i].0 == key {
                proof {
                    lemma_entries_map_contains(self.values@, i as int);
                }
                return Some(i);
            }
            i = i + 1;
        }
        proof {
            lemma_entries_map_absent(self.values@, key);
        }
        None
    }

    /// Provide a value under `key` in this context, replacing any value
    /// stored here under that key.
    pub fn provide(&mut self, key: u64, value: V) -> (r: Result<(), String>)
        requires
            old(self).wf(),
        ensures
            r is Ok,
            final(self).wf(),
            final(self).local() == old(self).local().insert(key, value),
            final(self).parent_ctx() == old(self).parent_ctx(),
    {
        match self.local_position(key) {
            Some(i) => {
                let ghost prev = self.values@;
                self.values.set(i, (key, value));
                proof {
                    lemma_entries_map_update(prev, i as int, key, value);
                }
            },
            None => {
                let ghost prev = self.values@;
                self.values.push((key, value));
                assert(self.values@.drop_last() =~= prev);
                assert forall|a: int, b: int| 0 <= a < b < self.values@.len() implies self.values@[a].0
                    != self.values@[b].0 by {
                    if b == prev.len() {
                        proof_from_absent(prev, key, a);
                    }
                }
            },
        }
        Ok(())
    }

    /// The value for `key`, from this context or else from its parents.
    pub fn consume(&self, key: u64) -> (r: Option<&V>)
        requires
            self.wf(),
        ensures
            match (r, self.lookup(key)) {
                (Some(v), Some(w)) => *v == w,
                (None, None) => true,
                _ => false,
            },
        decreases self,
    {
        match self.local_position(key) {
            Some(i) => {
                proof {
                    lemma_entries_map_index(self.values@, i as int);
                }
                Some(&self.values[i].1)
            },
            None => match &self.parent {
                Some(p) => p.consume(key),
                None => None,
            },
        }
    }

    /// Whether a value for `key` is available here or in a parent.
    pub fn has(&self, key: u64) -> (r: bool)
        requires
            self.wf(),
        ensures
            r == self.lookup(key) is Some,
        decreases self,
    {
        if self.local_position(key).is_some() {
            return true;
        }
        match &self.parent {
            Some(p) => p.has(key),
            None => false,
        }
    }

    /// Remove the value stored under `key` in this context (parents are not
    /// touched); true when there was one.
    pub fn remove(&mut self, key: u64) -> (r: bool)
        requires
            old(self).wf(),
        ensures
            final(self).wf(),
            r == old(self).local().dom().contains(key),
            final(self).local() == old(self).local().remove(key),
            final(self).parent_ctx() == old(self).parent_ctx(),
    {
        match self.local_position(key) {
            Some(i) => {
                let ghost prev = self.values@;
                self.values.remove(i);
                proof {
                    lemma_entries_map_remove(prev, i as int);
                }
                true
            },
            None => {
                assert(entries_map(self.values@) =~= entries_map(self.values@).remove(key));
                false
            },
        }
    }
}

/// A key stored at a position is in the map.
proof fn lemma_entries_map_contains<V>(vs: Seq<(u64, V)>, i: int)
    requires
        0 <= i < vs.len(),
    ensures
        entries_map(vs).dom().contains(vs[i].0),
    decreases vs.len(),
{
    if i < vs.len() - 1 {
        lemma_entries_map_contains(vs.drop_last(), i);
    }
}

/// A key stored nowhere is not in the map.
proof fn lemma_entries_map_absent<V>(vs: Seq<(u64, V)>, key: u64)
    requires
        forall|j: int| 0 <= j < vs.len() ==> vs[j].0 != key,
    ensures
        !entries_map(vs).dom().contains(key),
    decreases vs.len(),
{
    if vs.len() > 0 {
        lemma_entries_map_absent(vs.drop_last(), key);
    }
}

/// With distinct keys, the map gives the value stored at a position.
proof fn lemma_entries_map_index<V>(vs: Seq<(u64, V)>, i: int)
    requires
        0 <= i < vs.len(),
        forall|a: int, b: int| 0 <= a < b < vs.len() ==> vs[a].0 != vs[b].0,
    ensures
        entries_map(vs).dom().contains(vs[i].0),
        entries_map(vs)[vs[i].0] == vs[i].1,
    decreases vs.len(),
{
    lemma_entries_map_contains(vs, i);
    if i < vs.len() - 1 {
        lemma_entries_map_index(vs.drop_last(), i);
    }
}

/// A key absent from the entries differs from every stored key.
proof fn proof_from_absent<V>(vs: Seq<(u64, V)>, key: u64, a: int)
    requires
        !entries_map(vs).dom().contains(key),
        0 <= a < vs.len(),
    ensures
        vs[a].0 != key,
{
    lemma_entries_map_contains(vs, a);
}

/// Overwriting the entry at a position updates the map there.
proof fn lemma_entries_map_update<V>(vs: Seq<(u64, V)>, i: int, key: u64, value: V)
    requires
        0 <= i < vs.len(),
        vs[i].0 == key,
        forall|a: int, b: int| 0 <= a < b < vs.len() ==> vs[a].0 != vs[b].0,
    ensures
        entries_map(vs.update(i, (key, value))) == entries_map(vs).insert(key, value),
    decreases vs.len(),
{
    let ws = vs.update(i, (key, value));
    if i == vs.len() - 1 {
        assert(ws.drop_last() =~= vs.drop_last());
        lemma_entries_map_absent(vs.drop_last(), key);
        assert(entries_map(ws) =~= entries_map(vs).insert(key, value));
    } else {
        assert(ws.drop_last() =~= vs.drop_last().update(i, (key, value)));
        lemma_entries_map_update(vs.drop_last(), i, key, value);
        assert(entries_map(ws) =~= entries_map(vs).insert(key, value));
    }
}

/// Removing the entry at a position removes its key from the map.
proof fn lemma_entries_map_remove<V>(vs: Seq<(u64, V)>, i: int)
    requires
        0 <= i < vs.len(),
        forall|a: int, b: int| 0 <= a < b < vs.len() ==> vs[a].0 != vs[b].0,
    ensures
        entries_map(vs.remove(i)) == entries_map(vs).remove(vs[i].0),
        forall|a: int, b: int| 0 <= a < b < vs.remove(i).len() ==> vs.remove(i)[a].0 != vs.remove(i)[b].0,
    decreases vs.len(),
{
    let ws = vs.remove(i);
    let key = vs[i].0;
    if i == vs.len() - 1 {
        assert(ws =~= vs.drop_last());
        lemma_entries_map_absent(vs.drop_last(), key);
        assert(entries_map(ws) =~= entries_map(vs).remove(key));
    } else {
        assert(ws.drop_last() =~= vs.drop_last().remove(i));
        lemma_entries_map_remove(vs.drop_last(), i);
        assert(ws.last() == vs.last());
        assert(entries_map(ws) =~= entries_map(vs).remove(key));
    }
}

/// Law: a value provided in a context is what that context then gives for its key.
pub proof fn law_provide_then_consume<V>(before: ContextProvider<V>, after: ContextProvider<V>, key: u64, value: V)
    requires
        after.local() == before.local().insert(key, value),
    ensures
        after.lookup(key) == Some(value),
{
    reveal_lookup(after, key);
}

/// Law: a key not provided locally is looked up in the parent.
pub proof fn law_fallback_to_parent<V>(ctx: ContextProvider<V>, key: u64)
    requires
        !ctx.local().dom().contains(key),
    ensures
        ctx.lookup(key) == match ctx.parent_ctx() {
            Some(p) => p.lookup(key),
            None => None,
        },
{
}

/// Law: after removing a key locally, lookups for it fall back to the parent.
pub proof fn law_remove_then_consume<V>(before: ContextProvider<V>, after: ContextProvider<V>, key: u64)
    requires
        after.local() == before.local().remove(key),
        after.parent_ctx() == before.parent_ctx(),
    ensures
        after.lookup(key) == match before.parent_ctx() {
            Some(p) => p.lookup(key),
            None => None,
        },
{
    assert(!after.local().dom().contains(key));
}

/// Law: providing a value under one key changes no lookup of another key.
pub proof fn law_provide_keeps_other_keys<V>(
    before: ContextProvider<V>,
    after: ContextProvider<V>,
    key: u64,
    value: V,
    other: u64,
)
    requires
        after.local() == before.local().insert(key, value),
        after.parent_ctx() == before.parent_ctx(),
        other != key,
    ensures
        after.lookup(other) == before.lookup(other),
{
    assert(after.local().dom().contains(other) == before.local().dom().contains(other));
    if before.local().dom().contains(other) {
        assert(after.local()[other] == before.local()[other]);
    }
}

/// A local value is found first.
proof fn reveal_lookup<V>(ctx: ContextProvider<V>, key: u64)
    requires
        ctx.local().dom().contains(key),
    ensures
        ctx.lookup(key) == Some(ctx.local()[key]),
{
}

/// A callback that can be passed as a prop.
pub struct Callback<F> {
    func: F,
}

impl<F> Callback<F> {
    /// The function that the callback calls.
    pub closed spec fn function(self) -> F {
        self.func
    }

    /// Wrap a function as a callback.
    pub fn new(func: F) -> (r: Self)
        ensures
            r.function() == func,
    {
        Callback { func }
    }

    /// Call the callback with the given argument.
    pub fn call<A, R>(&self, args: A) -> (r: R) where F: Fn(A) -> R
        requires
            call_requires(self.function(), (args,)),
        ensures
            call_ensures(self.function(), (args,), r),
    {
        (self.func)(args)
    }
}

impl<F: Clone> Clone for Callback<F> {
    /// A callback of a clone of the same function.
    fn clone(&self) -> (r: Self)
        ensures
            cloned(self.function(), r.function()),
    {
        Callback { func: self.func.clone() }
    }
}

/// Convenience function for creating a callback.
pub fn callback<F>(func: F) -> (r: Callback<F>)
    ensures
        r.function() == func,
{
    Callback::new(func)
}

/// Law: `callback` and `Callback::new` make the same callback of a
/// function.
pub proof fn law_callback_is_new<F>(a: Callback<F>, b: Callback<F>, func: F)
    requires
        a.function() == func,
        b.function() == func,
    ensures
        a == b,
{
}

} // verus!
