//! Reactive values with change propagation: signals hold values, computed
//! values are derived from other values by a function, and effects run a
//! callback on the values they read. Setting a signal to a new value
//! recomputes every computed value whose inputs changed, in the order they
//! were created, and runs every effect whose inputs changed.
//!
//! Each computed value and effect lists the values it reads when it is
//! created; a value can only read values created before it, so the values
//! form a graph without cycles.
use vstd::prelude::*;
use vstd::pervasive::cloned;
use vstd::std_specs::cmp::PartialEqSpec;

verus! {

/// Errors of signal operations.
#[derive(Debug)]
pub enum SignalError {
    /// The signal's value could not be accessed.
    AccessError(String),
    /// A value of another type was expected.
    TypeMismatch { expected: &'static str, actual: &'static str },
    /// Another error.
    Other(String),
}

/// `==` on `T` is equality: it follows its specification, and that
/// specification holds exactly of equal values (as for integers).
pub open spec fn eq_is_equality<T: PartialEq>() -> bool {
    &&& T::obeys_eq_spec()
    &&& forall|a: T, b: T| #[trigger] a.eq_spec(&b) <==> a == b
}

/// `args` are clones of the values at positions `ds`, in order.
pub open spec fn cloned_all<T: Clone>(vals: Seq<T>, ds: Seq<usize>, args: Seq<T>) -> bool {
    &&& args.len() == ds.len()
    &&& forall|k: int| 0 <= k < ds.len() ==> cloned(vals[ds[k] as int], #[trigger] args[k])
}

/// The value at `i` is what `f` gave for clones of the values at `ds`.
pub open spec fn derived<T: Clone, F: Fn(&[T]) -> T>(vals: Seq<T>, ds: Seq<usize>, f: F, i: int) -> bool {
    exists|args: &[T]| cloned_all(vals, ds, args@) && #[trigger] call_ensures(f, (args,), vals[i])
}

/// Some value at the positions `ds` differs between `a` and `b`.
pub open spec fn some_input_changed<T>(a: Seq<T>, b: Seq<T>, ds: Seq<usize>) -> bool {
    exists|k: int| 0 <= k < ds.len() && a[ds[k] as int] != b[ds[k] as int]
}

/// Whether a value is derived in the same way from inputs that did not
/// change.
proof fn lemma_derived_frame<T: Clone, F: Fn(&[T]) -> T>(a: Seq<T>, b: Seq<T>, ds: Seq<usize>, f: F, i: int)
    requires
        derived(a, ds, f, i),
        a[i] == b[i],
        forall|k: int| 0 <= k < ds.len() ==> a[ds[k] as int] == b[ds[k] as int],
    ensures
        derived(b, ds, f, i),
{
    let args = choose|args: &[T]| cloned_all(a, ds, args@) && #[trigger] call_ensures(f, (args,), a[i]);
    assert(cloned_all(b, ds, args@));
}

/// A signal: a value that is set from outside.
#[derive(Debug, Clone, Copy)]
pub struct Signal {
    id: usize,
}

/// A computed value: derived from other values by a function.
#[derive(Debug, Clone, Copy)]
pub struct Computed {
    id: usize,
}

impl Signal {
    /// The position of the signal's value in its scope.
    pub closed spec fn spec_id(&self) -> int {
        self.id as int
    }

    /// The position of the signal's value in its scope.
    pub fn id(&self) -> (r: usize)
        ensures
            r == self.spec_id(),
    {
        self.id
    }
}

impl Computed {
    /// The position of the computed value in its scope.
    pub closed spec fn spec_id(&self) -> int {
        self.id as int
    }

    /// The position of the computed value in its scope.
    pub fn id(&self) -> (r: usize)
        ensures
            r == self.spec_id(),
    {
        self.id
    }
}

/// The values of a reactive system, with the function of each computed
/// value, the inputs of each computed value and effect, and the effects.
pub struct ReactiveScope<T, F, E> {
    values: Vec<T>,
    derive: Vec<Option<F>>,
    deps: Vec<Vec<usize>>,
    effects: Vec<E>,
    effect_deps: Vec<Vec<usize>>,
    runs: Ghost<Seq<nat>>,
}

impl<T: Clone + PartialEq, F: Fn(&[T]) -> T, E: Fn(&[T])> ReactiveScope<T, F, E> {
    /// The values, in the order they were created.
    pub closed spec fn values(&self) -> Seq<T> {
        self.values@
    }

    /// Whether the value at `i` is a signal's.
    pub closed spec fn is_signal(&self, i: int) -> bool {
        self.derive@[i] is None
    }

    /// The positions a computed value reads, in order.
    pub closed spec fn inputs(&self, i: int) -> Seq<usize> {
        self.deps@[i]@
    }

    /// The function of a computed value.
    pub closed spec fn function(&self, i: int) -> F {
        self.derive@[i]->Some_0
    }

    /// How many effects there are.
    pub closed spec fn effect_count(&self) -> nat {
        self.effects@.len()
    }

    /// The positions an effect reads, in order.
    pub closed spec fn effect_inputs(&self, e: int) -> Seq<usize> {
        self.effect_deps@[e]@
    }

    /// The callback of an effect.
    pub closed spec fn effect(&self, e: int) -> E {
        self.effects@[e]
    }

    /// How often an effect has run.
    pub closed spec fn runs(&self, e: int) -> nat {
        self.runs@[e]
    }

    /// The scope is consistent: one function slot and one input list per
    /// value, one input list and run count per effect; a signal reads
    /// nothing, a computed value reads only values created before it and
    /// its function accepts any inputs; an effect reads only values that
    /// exist and accepts any inputs.
    pub closed spec fn wf(&self) -> bool {
        &&& self.derive@.len() == self.values@.len()
        &&& self.deps@.len() == self.values@.len()
        &&& self.effect_deps@.len() == self.effects@.len()
        &&& self.runs@.len() == self.effects@.len()
        &&& forall|i: int| 0 <= i < self.values@.len() && self.is_signal(i) ==> self.inputs(i).len() == 0
        &&& forall|i: int, k: int|
            0 <= i < self.values@.len() && 0 <= k < self.inputs(i).len() ==> self.inputs(i)[k] < i
        &&& forall|i: int, args: &[T]|
            0 <= i < self.values@.len() && !self.is_signal(i) ==> call_requires(
                self.function(i),
                (args,),
            )
        &&& forall|e: int, k: int|
            0 <= e < self.effects@.len() && 0 <= k < self.effect_inputs(e).len() ==> self.effect_inputs(e)[k]
                < self.values@.len()
        &&& forall|e: int, args: &[T]| 0 <= e < self.effects@.len() ==> call_requires(self.effect(e), (args,))
    }

    /// Every computed value is what its function gave for clones of its
    /// current inputs.
    pub closed spec fn consistent(&self) -> bool {
        forall|i: int|
            0 <= i < self.values@.len() && !self.is_signal(i) ==> derived(
                self.values@,
                self.inputs(i),
                self.function(i),
                i,
            )
    }

    /// Both scopes have the same signals, computed values (with their
    /// functions and inputs) and effects (with their callbacks and
    /// inputs).
    pub open spec fn same_graph(&self, other: &Self) -> bool {
        &&& self.values().len() == other.values().len()
        &&& forall|i: int|
            0 <= i < self.values().len() ==> (#[trigger] self.is_signal(i) <==> other.is_signal(i))
                && self.inputs(i) == other.inputs(i) && (!self.is_signal(i) ==> self.function(i)
                == other.function(i))
        &&& self.effect_count() == other.effect_count()
        &&& forall|e: int|
            0 <= e < self.effect_count() ==> #[trigger] self.effect_inputs(e) == other.effect_inputs(e)
                && self.effect(e) == other.effect(e)
    }

    /// A scope without values or effects.
    pub fn new() -> (r: Self)
        ensures
            r.wf(),
            r.consistent(),
            r.values().len() == 0,
            r.effect_count() == 0,
    {
        ReactiveScope {
            values: Vec::new(),
            derive: Vec::new(),
            deps: Vec::new(),
            effects: Vec::new(),
            effect_deps: Vec::new(),
            runs: Ghost(Seq::empty()),
        }
    }
}

/// Some position of `ds` is flagged.
pub open spec fn flagged(changed: Seq<bool>, ds: Seq<usize>) -> bool {
    exists|k: int| 0 <= k < ds.len() && changed[ds[k] as int]
}

/// Whether some position of `ds` is flagged (`flagged`).
fn any_flagged(changed: &Vec<bool>, ds: &Vec<usize>) -> (r: bool)
    requires
        forall|k: int| 0 <= k < ds@.len() ==> ds@[k] < changed@.len(),
    ensures
        r == flagged(changed@, ds@),
{
    let mut k: usize = 0;
    while k < ds.len()
        invariant
            k <= ds@.len(),
            forall|l: int| 0 <= l < ds@.len() ==> ds@[l] < changed@.len(),
            forall|l: int| 0 <= l < k ==> !changed@[ds@[l] as int],
        decreases ds@.len() - k,
    {
        if changed[ds[k]] {
            return true;
        }
        k = k + 1;
    }
    false
}

impl<T: Clone + PartialEq, F: Fn(&[T]) -> T, E: Fn(&[T])> ReactiveScope<T, F, E> {
    /// The scope keeps every value, function, input list, effect and run
    /// count of `old`, and may have more values and effects after them.
    pub open spec fn extends(&self, old: &Self) -> bool {
        &&& old.values().len() <= self.values().len()
        &&& forall|i: int|
            0 <= i < old.values().len() ==> #[trigger] self.values()[i] == old.values()[i]
                && (self.is_signal(i) <==> old.is_signal(i)) && self.inputs(i) == old.inputs(i) && (
                !old.is_signal(i) ==> self.function(i) == old.function(i))
        &&& old.effect_count() <= self.effect_count()
        &&& forall|e: int|
            0 <= e < old.effect_count() ==> #[trigger] self.effect_inputs(e) == old.effect_inputs(e)
                && self.effect(e) == old.effect(e) && self.runs(e) == old.runs(e)
    }

    /// Adding a value after the others, a signal reading nothing or a
    /// computed value reading earlier values with a function that accepts
    /// any inputs, keeps the scope consistent and extends it.
    proof fn lemma_push_value(old: &Self, new: &Self)
        requires
            old.wf(),
            new.values@ == old.values@.push(new.values@.last()),
            new.derive@ == old.derive@.push(new.derive@.last()),
            new.deps@ == old.deps@.push(new.deps@.last()),
            new.derive@.last() is None ==> new.deps@.last()@.len() == 0,
            forall|k: int| 0 <= k < new.deps@.last()@.len() ==> new.deps@.last()@[k] < old.values@.len(),
            new.derive@.last() matches Some(f) ==> forall|args: &[T]| call_requires(f, (args,)),
            new.effects@ == old.effects@,
            new.effect_deps@ == old.effect_deps@,
            new.runs@ == old.runs@,
        ensures
            new.wf(),
            new.extends(old),
    {
        let n = old.values@.len() as int;
        assert forall|i: int| 0 <= i < n implies new.derive@[i] == old.derive@[i] && new.deps@[i] == old.deps@[i]
            && new.values@[i] == old.values@[i] by {}
        assert(new.derive@[n] == new.derive@.last());
        assert(new.deps@[n] == new.deps@.last());
        assert forall|i: int| 0 <= i < new.values@.len() && new.is_signal(i) implies new.inputs(i).len() == 0 by {
            if i < n {
                assert(old.is_signal(i));
            }
        }
        assert forall|i: int, k: int| 0 <= i < new.values@.len() && 0 <= k < new.inputs(i).len() implies new.inputs(
            i,
        )[k] < i by {
            if i < n {
                assert(new.inputs(i) == old.inputs(i));
            }
        }
        assert forall|i: int, args: &[T]| 0 <= i < new.values@.len() && !new.is_signal(i) implies call_requires(
            new.function(i),
            (args,),
        ) by {
            if i < n {
                assert(new.function(i) == old.function(i));
                assert(!old.is_signal(i));
            }
        }
        assert forall|e: int, k: int|
            0 <= e < new.effects@.len() && 0 <= k < new.effect_inputs(e).len() implies new.effect_inputs(e)[k]
                < new.values@.len() by {
            assert(new.effect_inputs(e) == old.effect_inputs(e));
        }
        assert forall|e: int, args: &[T]| 0 <= e < new.effects@.len() implies call_requires(new.effect(e), (args,)) by {
            assert(new.effect(e) == old.effect(e));
        }
    }

    /// Adding an effect that reads existing values and accepts any inputs
    /// keeps the scope consistent and extends it.
    proof fn lemma_push_effect(old: &Self, new: &Self)
        requires
            old.wf(),
            new.values@ == old.values@,
            new.derive@ == old.derive@,
            new.deps@ == old.deps@,
            new.effects@ == old.effects@.push(new.effects@.last()),
            new.effect_deps@ == old.effect_deps@.push(new.effect_deps@.last()),
            new.runs@ == old.runs@.push(new.runs@.last()),
            forall|k: int| 0 <= k < new.effect_deps@.last()@.len() ==> new.effect_deps@.last()@[k] < old.values@.len(),
            forall|args: &[T]| call_requires(new.effects@.last(), (args,)),
        ensures
            new.wf(),
            new.extends(old),
            old.consistent() ==> new.consistent(),
    {
        let n = old.effects@.len() as int;
        assert forall|i: int| 0 <= i < new.values@.len() implies (new.is_signal(i) <==> old.is_signal(i))
            && new.inputs(i) == old.inputs(i) && new.function(i) == old.function(i) by {}
        assert forall|e: int| 0 <= e < n implies new.effects@[e] == old.effects@[e] && new.effect_deps@[e]
            == old.effect_deps@[e] && new.runs@[e] == old.runs@[e] by {}
        if old.consistent() {
            assert forall|i: int| 0 <= i < new.values@.len() && !new.is_signal(i) implies derived(
                new.values@,
                new.inputs(i),
                new.function(i),
                i,
            ) by {
                assert(!old.is_signal(i));
            }
        }
        assert(new.effects@[n] == new.effects@.last());
        assert(new.effect_deps@[n] == new.effect_deps@.last());
        assert forall|e: int, k: int|
            0 <= e < new.effects@.len() && 0 <= k < new.effect_inputs(e).len() implies new.effect_inputs(e)[k]
                < new.values@.len() by {
            if e < n {
                assert(new.effect_inputs(e) == old.effect_inputs(e));
            }
        }
        assert forall|e: int, args: &[T]| 0 <= e < new.effects@.len() implies call_requires(new.effect(e), (args,)) by {
            if e < n {
                assert(new.effect(e) == old.effect(e));
            }
        }
    }

    /// Clones of the values at positions `ds`, in order.
    fn clone_inputs(&self, ds: &Vec<usize>) -> (r: Vec<T>)
        requires
            forall|k: int| 0 <= k < ds@.len() ==> ds@[k] < self.values().len(),
        ensures
            cloned_all(self.values(), ds@, r@),
    {
        let mut r: Vec<T> = Vec::new();
        let mut k: usize = 0;
        while k < ds.len()
            invariant
                k <= ds@.len(),
                forall|l: int| 0 <= l < ds@.len() ==> ds@[l] < self.values().len(),
                r@.len() == k,
                forall|l: int| 0 <= l < k ==> cloned(self.values()[ds@[l] as int], #[trigger] r@[l]),
            decreases ds@.len() - k,
        {
            let x = self.values[ds[k]].clone();
            r.push(x);
            k = k + 1;
        }
        r
    }

    /// A value that extends the scope's prefix keeps the computed values
    /// before it derived.
    proof fn lemma_extend_consistent(old: &Self, new: &Self)
        requires
            old.wf(),
            old.consistent(),
            new.extends(old),
        ensures
            forall|i: int|
                0 <= i < old.values().len() && !new.is_signal(i) ==> derived(
                    new.values(),
                    new.inputs(i),
                    new.function(i),
                    i,
                ),
    {
        assert forall|i: int| 0 <= i < old.values().len() && !new.is_signal(i) implies derived(
            new.values(),
            new.inputs(i),
            new.function(i),
            i,
        ) by {
            assert(new.values()[i] == old.values()[i]);
            assert forall|k: int| 0 <= k < old.inputs(i).len() implies old.values()[old.inputs(i)[k] as int]
                == new.values()[old.inputs(i)[k] as int] by {
                assert(old.inputs(i)[k] < i);
                assert(new.values()[old.inputs(i)[k] as int] == old.values()[old.inputs(i)[k] as int]);
            }
            lemma_derived_frame(old.values(), new.values(), old.inputs(i), old.function(i), i);
        }
    }
}

/// Creates a signal holding `initial`, after the scope's other values.
pub fn create_signal<T: Clone + PartialEq, F: Fn(&[T]) -> T, E: Fn(&[T])>(
    initial: T,
    scope: &mut ReactiveScope<T, F, E>,
) -> (r: Signal)
    requires
        old(scope).wf(),
    ensures
        final(scope).wf(),
        final(scope).extends(&*old(scope)),
        final(scope).values() == old(scope).values().push(initial),
        final(scope).effect_count() == old(scope).effect_count(),
        r.spec_id() == old(scope).values().len(),
        final(scope).is_signal(r.spec_id()),
        old(scope).consistent() ==> final(scope).consistent(),
{
    let id = scope.values.len();
    scope.values.push(initial);
    scope.derive.push(None);
    scope.deps.push(Vec::new());
    proof {
        ReactiveScope::lemma_push_value(&*old(scope), &*scope);
        if old(scope).consistent() {
            ReactiveScope::lemma_extend_consistent(&*old(scope), &*scope);
        }
    }
    Signal { id }
}

/// Creates a computed value read from the values at `deps`, in order: its
/// value is what `compute_fn` gives for clones of them, now and after every
/// change of one of them.
pub fn create_computed<T: Clone + PartialEq, F: Fn(&[T]) -> T, E: Fn(&[T])>(
    deps: Vec<usize>,
    compute_fn: F,
    scope: &mut ReactiveScope<T, F, E>,
) -> (r: Computed)
    requires
        old(scope).wf(),
        forall|k: int| 0 <= k < deps@.len() ==> deps@[k] < old(scope).values().len(),
        forall|args: &[T]| call_requires(compute_fn, (args,)),
    ensures
        final(scope).wf(),
        final(scope).extends(&*old(scope)),
        final(scope).values().len() == old(scope).values().len() + 1,
        final(scope).effect_count() == old(scope).effect_count(),
        r.spec_id() == old(scope).values().len(),
        !final(scope).is_signal(r.spec_id()),
        final(scope).inputs(r.spec_id()) == deps@,
        final(scope).function(r.spec_id()) == compute_fn,
        derived(final(scope).values(), deps@, compute_fn, r.spec_id()),
        old(scope).consistent() ==> final(scope).consistent(),
{
    let args = scope.clone_inputs(&deps);
    let a = args.as_slice();
    let value = compute_fn(a);
    let id = scope.values.len();
    let ghost before = scope.values@;
    scope.values.push(value);
    scope.derive.push(Some(compute_fn));
    scope.deps.push(deps);
    proof {
        assert(scope.values@ == before.push(value));
        assert(cloned_all(scope.values@, deps@, a@)) by {
            assert forall|k: int| 0 <= k < deps@.len() implies cloned(scope.values@[deps@[k] as int], #[trigger] a@[k]) by {
                assert(scope.values@[deps@[k] as int] == before[deps@[k] as int]);
            }
        }
        assert(call_ensures(compute_fn, (a,), scope.values@[id as int]));
        ReactiveScope::lemma_push_value(&*old(scope), &*scope);
        if old(scope).consistent() {
            ReactiveScope::lemma_extend_consistent(&*old(scope), &*scope);
        }
    }
    Computed { id }
}

/// Creates an effect reading the values at `deps`, in order, and runs it
/// once on clones of them; it runs again after every change of one of them.
pub fn create_effect<T: Clone + PartialEq, F: Fn(&[T]) -> T, E: Fn(&[T])>(
    deps: Vec<usize>,
    closure: E,
    scope: &mut ReactiveScope<T, F, E>,
)
    requires
        old(scope).wf(),
        forall|k: int| 0 <= k < deps@.len() ==> deps@[k] < old(scope).values().len(),
        forall|args: &[T]| call_requires(closure, (args,)),
    ensures
        final(scope).wf(),
        final(scope).extends(&*old(scope)),
        final(scope).values() == old(scope).values(),
        final(scope).effect_count() == old(scope).effect_count() + 1,
        final(scope).effect_inputs(old(scope).effect_count() as int) == deps@,
        final(scope).effect(old(scope).effect_count() as int) == closure,
        final(scope).runs(old(scope).effect_count() as int) == 1,
        old(scope).consistent() ==> final(scope).consistent(),
{
    let args = scope.clone_inputs(&deps);
    closure(args.as_slice());
    scope.effects.push(closure);
    scope.effect_deps.push(deps);
    proof {
        scope.runs@ = scope.runs@.push(1);
        ReactiveScope::lemma_push_effect(&*old(scope), &*scope);
    }
}

impl<T: Clone + PartialEq, F: Fn(&[T]) -> T, E: Fn(&[T])> ReactiveScope<T, F, E> {
    /// What setting the signal at `id` to `v` leaves, starting from
    /// `before`. The graph is unchanged. A value equal to the old one
    /// changes nothing; otherwise the signal holds `v`. Other signals keep
    /// their values. Where `==` is equality: computed values stay derived
    /// from their inputs, a computed value whose inputs kept their values
    /// keeps its own, and each effect has run once more exactly when one
    /// of its inputs has a new value.
    pub open spec fn set_outcome(&self, before: &Self, id: int, v: T) -> bool {
        &&& self.wf()
        &&& self.same_graph(before)
        &&& T::obeys_eq_spec() && before.values()[id].eq_spec(&v) ==> self.values() == before.values() && (
        forall|e: int| 0 <= e < self.effect_count() ==> #[trigger] self.runs(e) == before.runs(e))
        &&& T::obeys_eq_spec() && !before.values()[id].eq_spec(&v) ==> self.values()[id] == v
        &&& forall|j: int|
            0 <= j < self.values().len() && j != id && before.is_signal(j) ==> #[trigger] self.values()[j]
                == before.values()[j]
        &&& eq_is_equality::<T>() && before.consistent() ==> self.consistent()
        &&& eq_is_equality::<T>() ==> forall|e: int|
            0 <= e < self.effect_count() ==> #[trigger] self.runs(e) == before.runs(e) + if some_input_changed(
                before.values(),
                self.values(),
                before.effect_inputs(e),
            ) {
                1nat
            } else {
                0nat
            }
        &&& eq_is_equality::<T>() ==> forall|j: int|
            0 <= j < self.values().len() && !before.is_signal(j) && !some_input_changed(
                before.values(),
                self.values(),
                before.inputs(j),
            ) ==> #[trigger] self.values()[j] == before.values()[j]
    }

    /// Changing values and run counts, but not how many there are, keeps
    /// the graph and its consistency conditions.
    proof fn lemma_values_frame(old: &Self, new: &Self)
        requires
            old.wf(),
            new.values@.len() == old.values@.len(),
            new.derive@ == old.derive@,
            new.deps@ == old.deps@,
            new.effects@ == old.effects@,
            new.effect_deps@ == old.effect_deps@,
            new.runs@.len() == old.runs@.len(),
        ensures
            new.wf(),
            new.same_graph(old),
            forall|i: int| #[trigger] new.inputs(i) == old.inputs(i),
            forall|i: int| #[trigger] new.is_signal(i) == old.is_signal(i),
            forall|i: int| #[trigger] new.function(i) == old.function(i),
            forall|e: int| #[trigger] new.effect_inputs(e) == old.effect_inputs(e),
            forall|e: int| #[trigger] new.effect(e) == old.effect(e),
    {
        assert forall|i: int| 0 <= i < new.values@.len() && new.is_signal(i) implies new.inputs(i).len() == 0 by {
            assert(old.is_signal(i));
        }
        assert forall|i: int, k: int| 0 <= i < new.values@.len() && 0 <= k < new.inputs(i).len() implies new.inputs(
            i,
        )[k] < i by {
            assert(new.inputs(i) == old.inputs(i));
        }
        assert forall|i: int, args: &[T]| 0 <= i < new.values@.len() && !new.is_signal(i) implies call_requires(
            new.function(i),
            (args,),
        ) by {
            assert(!old.is_signal(i));
            assert(new.function(i) == old.function(i));
            assert(call_requires(old.function(i), (args,)));
        }
        assert forall|e: int, k: int|
            0 <= e < new.effects@.len() && 0 <= k < new.effect_inputs(e).len() implies new.effect_inputs(e)[k]
                < new.values@.len() by {
            assert(new.effect_inputs(e) == old.effect_inputs(e));
        }
        assert forall|e: int, args: &[T]| 0 <= e < new.effects@.len() implies call_requires(new.effect(e), (args,)) by {
            assert(new.effect(e) == old.effect(e));
            assert(call_requires(old.effect(e), (args,)));
        }
    }

    /// Where `==` is equality, the flags mark exactly the values that
    /// changed, so a list of positions is flagged exactly when one of its
    /// values changed.
    proof fn lemma_flags(changed: Seq<bool>, a: Seq<T>, b: Seq<T>, ds: Seq<usize>)
        requires
            eq_is_equality::<T>(),
            changed.len() == a.len(),
            a.len() == b.len(),
            forall|k: int| 0 <= k < ds.len() ==> ds[k] < a.len(),
            forall|x: int| 0 <= x < a.len() && !changed[x] ==> a[x] == b[x],
            forall|x: int| 0 <= x < a.len() && changed[x] ==> !a[x].eq_spec(&b[x]),
        ensures
            flagged(changed, ds) <==> some_input_changed(a, b, ds),
    {
        if flagged(changed, ds) {
            let k = choose|k: int| 0 <= k < ds.len() && changed[ds[k] as int];
            assert(!a[ds[k] as int].eq_spec(&b[ds[k] as int]));
        }
        if some_input_changed(a, b, ds) {
            let k = choose|k: int| 0 <= k < ds.len() && a[ds[k] as int] != b[ds[k] as int];
            assert(changed[ds[k] as int]);
        }
    }

    /// Sets the signal at `id` to `v` and propagates the change
    /// (`set_outcome`).
    fn set_value(&mut self, id: usize, v: T)
        requires
            old(self).wf(),
            id < old(self).values().len(),
            old(self).is_signal(id as int),
        ensures
            final(self).set_outcome(&*old(self), id as int, v),
    {
        let same = self.values[id] == v;
        if same {
            return;
        }
        let ghost old_vals = self.values@;
        let n = self.values.len();
        self.values.set(id, v);
        proof {
            Self::lemma_values_frame(&*old(self), &*self);
            if eq_is_equality::<T>() && old(self).consistent() {
                assert forall|x: int| 0 <= x < id + 1 && !self.is_signal(x) implies derived(
                    self.values@,
                    self.inputs(x),
                    self.function(x),
                    x,
                ) by {
                    assert(x != id);
                    assert(derived(old_vals, self.inputs(x), self.function(x), x));
                    assert forall|k: int| 0 <= k < self.inputs(x).len() implies old_vals[self.inputs(x)[k] as int]
                        == self.values@[self.inputs(x)[k] as int] by {
                        assert(self.inputs(x)[k] < x);
                    }
                    lemma_derived_frame(old_vals, self.values@, self.inputs(x), self.function(x), x);
                }
            }
        }
        let mut changed: Vec<bool> = Vec::new();
        let mut t: usize = 0;
        while t < n
            invariant
                t <= n,
                changed@.len() == t,
                forall|l: int| 0 <= l < t ==> changed@[l] == (l == id),
            decreases n - t,
        {
            changed.push(t == id);
            t = t + 1;
        }
        let mut j: usize = id + 1;
        while j < n
            invariant
                old(self).wf(),
                self.wf(),
                self.same_graph(&*old(self)),
                self.derive@ == old(self).derive@,
                self.deps@ == old(self).deps@,
                self.effects@ == old(self).effects@,
                self.effect_deps@ == old(self).effect_deps@,
                self.runs@ == old(self).runs@,
                old_vals == old(self).values(),
                n == self.values@.len(),
                id < j <= n,
                changed@.len() == n,
                changed@[id as int],
                self.values@[id as int] == v,
                T::obeys_eq_spec() ==> !old_vals[id as int].eq_spec(&v),
                forall|x: int| 0 <= x < n && !changed@[x] ==> self.values@[x] == old_vals[x],
                forall|x: int| j <= x < n ==> !changed@[x],
                forall|x: int| 0 <= x < id ==> !changed@[x],
                forall|x: int| 0 <= x < n && x != id && self.is_signal(x) ==> !changed@[x],
                T::obeys_eq_spec() ==> forall|x: int|
                    0 <= x < n && changed@[x] ==> !old_vals[x].eq_spec(&self.values@[x]),
                forall|x: int|
                    0 <= x < j && !self.is_signal(x) && !flagged(changed@, self.inputs(x)) ==> !changed@[x],
                eq_is_equality::<T>() && old(self).consistent() ==> forall|x: int|
                    0 <= x < j && !self.is_signal(x) ==> derived(self.values@, self.inputs(x), self.function(x), x),
            decreases n - j,
        {
            let ghost before = self.values@;
            let ghost cbefore = changed@;
            let ghost jj = j as int;
            let ghost s0: Self = *self;
            match &self.derive[j] {
                Some(f) => {
                    proof {
                        assert(!self.is_signal(jj));
                        assert(*f == self.function(jj));
                    }
                    if any_flagged(&changed, &self.deps[j]) {
                        let args = self.clone_inputs(&self.deps[j]);
                        let a = args.as_slice();
                        let nv = f(a);
                        let differs = self.values[j] != nv;
                        if differs {
                            self.values.set(j, nv);
                            changed.set(j, true);
                        }
                        proof {
                            assert(cloned_all(self.values@, self.inputs(jj), a@)) by {
                                assert forall|k: int| 0 <= k < self.inputs(jj).len() implies cloned(
                                    self.values@[self.inputs(jj)[k] as int],
                                    #[trigger] a@[k],
                                ) by {
                                    assert(self.inputs(jj)[k] < jj);
                                    assert(self.values@[self.inputs(jj)[k] as int] == before[self.inputs(jj)[k] as int]);
                                }
                            }
                            if eq_is_equality::<T>() {
                                if !differs {
                                    assert(before[jj].eq_spec(&nv));
                                    assert(self.values@[jj] == nv);
                                }
                                assert(call_ensures(self.function(jj), (a,), self.values@[jj]));
                                assert(derived(self.values@, self.inputs(jj), self.function(jj), jj));
                            }
                        }
                    } else {
                        proof {
                            if eq_is_equality::<T>() && old(self).consistent() {
                                assert(!old(self).is_signal(jj));
                                assert(derived(old_vals, old(self).inputs(jj), old(self).function(jj), jj));
                                assert forall|k: int| 0 <= k < self.inputs(jj).len() implies old_vals[self.inputs(jj)[k] as int]
                                    == self.values@[self.inputs(jj)[k] as int] by {
                                    assert(!changed@[self.inputs(jj)[k] as int]);
                                }
                                lemma_derived_frame(old_vals, self.values@, self.inputs(jj), self.function(jj), jj);
                            }
                        }
                    }
                },
                None => {},
            }
            proof {
                Self::lemma_values_frame(&*old(self), &*self);
                Self::lemma_values_frame(&s0, &*self);
                if eq_is_equality::<T>() && old(self).consistent() {
                    assert forall|x: int| 0 <= x < jj && !self.is_signal(x) implies derived(
                        self.values@,
                        self.inputs(x),
                        self.function(x),
                        x,
                    ) by {
                        assert(!s0.is_signal(x));
                        assert(derived(before, s0.inputs(x), s0.function(x), x));
                        assert forall|k: int| 0 <= k < self.inputs(x).len() implies before[self.inputs(x)[k] as int]
                            == self.values@[self.inputs(x)[k] as int] by {
                            assert(self.inputs(x)[k] < x);
                        }
                        lemma_derived_frame(before, self.values@, self.inputs(x), self.function(x), x);
                    }
                }
                assert forall|x: int| 0 <= x < jj && !self.is_signal(x) && !flagged(changed@, self.inputs(x)) implies !changed@[x] by {
                    assert forall|k: int| 0 <= k < self.inputs(x).len() implies changed@[self.inputs(x)[k] as int]
                        == cbefore[self.inputs(x)[k] as int] by {
                        assert(self.inputs(x)[k] < x);
                    }
                    if flagged(cbefore, self.inputs(x)) {
                        let k = choose|k: int| 0 <= k < self.inputs(x).len() && cbefore[self.inputs(x)[k] as int];
                        assert(changed@[self.inputs(x)[k] as int]);
                    }
                }
            }
            j = j + 1;
        }
        let ghost final_vals = self.values@;
        let ghost s1: Self = *self;
        let mut e: usize = 0;
        while e < self.effects.len()
            invariant
                self.wf(),
                old(self).wf(),
                self.same_graph(&*old(self)),
                self.derive@ == old(self).derive@,
                self.deps@ == old(self).deps@,
                self.values@ == final_vals,
                self.effects@ == old(self).effects@,
                self.effect_deps@ == old(self).effect_deps@,
                self.runs@.len() == old(self).runs@.len(),
                changed@.len() == n,
                n == self.values@.len(),
                e <= self.effects@.len(),
                forall|f: int| 0 <= f < e ==> #[trigger] self.runs@[f] == old(self).runs@[f] + if flagged(
                    changed@,
                    self.effect_inputs(f),
                ) {
                    1nat
                } else {
                    0nat
                },
                forall|f: int| e <= f < self.effects@.len() ==> #[trigger] self.runs@[f] == old(self).runs@[f],
            decreases self.effects@.len() - e,
        {
            proof {
                assert(self.effect_inputs(e as int) == self.effect_deps@[e as int]@);
            }
            if any_flagged(&changed, &self.effect_deps[e]) {
                let args = self.clone_inputs(&self.effect_deps[e]);
                let a = args.as_slice();
                let cb = &self.effects[e];
                proof {
                    assert(*cb == self.effect(e as int));
                }
                cb(a);
                proof {
                    self.runs@ = self.runs@.update(e as int, self.runs@[e as int] + 1);
                }
            }
            proof {
                Self::lemma_values_frame(&*old(self), &*self);
            }
            e = e + 1;
        }
        proof {
            Self::lemma_values_frame(&*old(self), &*self);
            assert(self.wf());
            assert(self.same_graph(&*old(self)));
            assert(T::obeys_eq_spec() ==> !old(self).values()[id as int].eq_spec(&v));
            assert(self.values()[id as int] == v);
            assert forall|x: int|
                0 <= x < self.values().len() && x != id && old(self).is_signal(x) implies #[trigger] self.values()[x]
                    == old(self).values()[x] by {
                assert(self.is_signal(x));
                assert(!changed@[x]);
            }
            if eq_is_equality::<T>() && old(self).consistent() {
                Self::lemma_values_frame(&s1, &*self);
                assert forall|x: int| 0 <= x < self.values@.len() && !self.is_signal(x) implies derived(
                    self.values@,
                    self.inputs(x),
                    self.function(x),
                    x,
                ) by {
                    assert(!s1.is_signal(x));
                    assert(derived(s1.values@, s1.inputs(x), s1.function(x), x));
                }
                assert(self.consistent());
            }
            if eq_is_equality::<T>() {
                assert forall|f: int| 0 <= f < self.effect_count() implies #[trigger] self.runs(f) == old(self).runs(f)
                    + if some_input_changed(old(self).values(), self.values(), old(self).effect_inputs(f)) {
                    1nat
                } else {
                    0nat
                } by {
                    Self::lemma_flags(changed@, old_vals, final_vals, old(self).effect_inputs(f));
                }
                assert forall|x: int|
                    0 <= x < self.values().len() && !old(self).is_signal(x) && !some_input_changed(
                        old(self).values(),
                        self.values(),
                        old(self).inputs(x),
                    ) implies #[trigger] self.values()[x] == old(self).values()[x] by {
                    Self::lemma_flags(changed@, old_vals, final_vals, old(self).inputs(x));
                }
            }
        }
    }
}

impl Signal {
    /// A clone of the signal's value.
    pub fn get<T: Clone + PartialEq, F: Fn(&[T]) -> T, E: Fn(&[T])>(&self, scope: &ReactiveScope<T, F, E>) -> (r: T)
        requires
            0 <= self.spec_id() < scope.values().len(),
        ensures
            cloned(scope.values()[self.spec_id()], r),
    {
        scope.values[self.id].clone()
    }

    /// Sets the signal's value and propagates the change to the computed
    /// values and effects that read it (`set_outcome`): a value equal to
    /// the current one changes nothing.
    pub fn set<T: Clone + PartialEq, F: Fn(&[T]) -> T, E: Fn(&[T])>(&self, scope: &mut ReactiveScope<T, F, E>, new_value: T)
        requires
            old(scope).wf(),
            0 <= self.spec_id() < old(scope).values().len(),
            old(scope).is_signal(self.spec_id()),
        ensures
            final(scope).set_outcome(&*old(scope), self.spec_id(), new_value),
    {
        scope.set_value(self.id, new_value);
    }

    /// Sets the signal to what `f` gives for its current value, as `set`.
    pub fn update<T: Clone + PartialEq, F: Fn(&[T]) -> T, E: Fn(&[T]), G: FnOnce(&T) -> T>(
        &self,
        scope: &mut ReactiveScope<T, F, E>,
        f: G,
    )
        requires
            old(scope).wf(),
            0 <= self.spec_id() < old(scope).values().len(),
            old(scope).is_signal(self.spec_id()),
            call_requires(f, (&old(scope).values()[self.spec_id()],)),
        ensures
            exists|v: T|
                call_ensures(f, (&old(scope).values()[self.spec_id()],), v) && #[trigger] final(scope).set_outcome(
                    &*old(scope),
                    self.spec_id(),
                    v,
                ),
    {
        let v = f(&scope.values[self.id]);
        scope.set_value(self.id, v);
    }
}

impl Computed {
    /// A clone of the computed value.
    pub fn get<T: Clone + PartialEq, F: Fn(&[T]) -> T, E: Fn(&[T])>(&self, scope: &ReactiveScope<T, F, E>) -> (r: T)
        requires
            0 <= self.spec_id() < scope.values().len(),
        ensures
            cloned(scope.values()[self.spec_id()], r),
    {
        scope.values[self.id].clone()
    }
}

} // verus!
