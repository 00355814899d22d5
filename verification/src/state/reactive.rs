//! Scope-based reactive values: signals that hold a value, effects that
//! run a callback, and computed values derived on demand. Every node gets
//! its identifier from the scope it is created in.
use vstd::prelude::*;

verus! {

/// Errors of the reactive system.
#[derive(Debug, Clone, Copy, PartialEq, Eq, Structural)]
pub enum SignalError {
    /// The signal is no longer accessible.
    SignalDropped,
    /// A circular dependency was found.
    CircularDependency,
    /// An invalid state transition.
    InvalidState,
}

/// The identifier of a reactive node.
#[derive(Debug, Clone, Copy, PartialEq, Eq, Hash, Structural)]
pub struct NodeId(usize);

impl NodeId {
    /// The raw identifier, in specifications.
    pub closed spec fn raw(self) -> nat {
        self.0 as nat
    }
}

/// Hands out node identifiers, in order from zero.
pub struct ReactiveScope {
    next_id: usize,
}

impl ReactiveScope {
    /// How many identifiers were handed out.
    pub closed spec fn issued(&self) -> nat {
        self.next_id as nat
    }

    /// A scope that has handed out nothing.
    pub fn new() -> (r: Self)
        ensures
            r.issued() == 0,
    {
        ReactiveScope { next_id: 0 }
    }

    /// The next identifier.
    fn next_id(&mut self) -> (r: NodeId)
        requires
            old(self).issued() < usize::MAX,
        ensures
            r.raw() == old(self).issued(),
            final(self).issued() == old(self).issued() + 1,
    {
        let id = NodeId(self.next_id);
        self.next_id = self.next_id + 1;
        id
    }
}

impl Default for ReactiveScope {
    fn default() -> (r: Self)
        ensures
            r.issued() == 0,
    {
        ReactiveScope::new()
    }
}

/// A reactive signal: a value, and whether it changed since it was last
/// seen.
pub struct Signal<T> {
    id: NodeId,
    value: T,
    dirty: bool,
}

impl<T> Signal<T> {
    /// The signal's identifier.
    pub closed spec fn node(&self) -> NodeId {
        self.id
    }

    /// The value held.
    pub closed spec fn value(&self) -> T {
        self.value
    }

    /// Whether the value changed since it was last seen.
    pub closed spec fn is_dirty(&self) -> bool {
        self.dirty
    }

    /// The current value.
    pub fn get(&self) -> (r: &T)
        ensures
            *r == self.value(),
    {
        &self.value
    }

    /// Mutable access to the value.
    pub fn get_mut(&mut self) -> (r: &mut T)
        ensures
            *r == old(self).value(),
            final(self).value() == *final(r),
            final(self).node() == old(self).node(),
            final(self).is_dirty() == old(self).is_dirty(),
    {
        &mut self.value
    }

    /// Sets the value and marks the signal as changed.
    pub fn set(&mut self, value: T) -> (r: Result<(), SignalError>)
        ensures
            r is Ok,
            final(self).value() == value,
            final(self).is_dirty(),
            final(self).node() == old(self).node(),
    {
        self.value = value;
        self.dirty = true;
        Ok(())
    }

    /// Changes the value in place with `f` and marks the signal as
    /// changed.
    pub fn update<F: FnOnce(&mut T)>(&mut self, f: F) -> (r: Result<(), SignalError>)
        requires
            forall|x: &mut T| *x == old(self).value() ==> #[trigger] call_requires(f, (x,)),
        ensures
            r is Ok,
            exists|m: &mut T| *m == old(self).value() && *final(m) == final(self).value() && call_ensures(f, (m,), ()),
            final(self).is_dirty(),
            final(self).node() == old(self).node(),
    {
        f(&mut self.value);
        self.dirty = true;
        Ok(())
    }
}

/// An effect: a callback run when the values it reads change.
pub struct Effect<F> {
    id: NodeId,
    callback: Option<F>,
    dirty: bool,
}

impl<F: FnMut()> Effect<F> {
    /// The effect's identifier.
    pub closed spec fn node(&self) -> NodeId {
        self.id
    }

    /// The callback, if it is present.
    pub closed spec fn callback(&self) -> Option<F> {
        self.callback
    }

    /// Whether the effect has to run again.
    pub closed spec fn is_dirty(&self) -> bool {
        self.dirty
    }

    /// Runs the callback, if there is one, and marks the effect as up to
    /// date.
    pub fn run(&mut self) -> (r: Result<(), SignalError>)
        requires
            old(self).callback() matches Some(f) ==> call_requires(f, ()),
        ensures
            r is Ok,
            final(self).node() == old(self).node(),
            old(self).callback() is None ==> final(self).callback() is None && final(self).is_dirty()
                == old(self).is_dirty(),
            old(self).callback() matches Some(f) ==> (final(self).callback() is Some && !final(self).is_dirty()
                && call_ensures(f, (), ())),
    {
        match self.callback.take() {
            Some(mut callback) => {
                callback();
                self.callback = Some(callback);
                self.dirty = false;
            },
            None => {},
        }
        Ok(())
    }
}

/// A value computed on demand, and kept until it is marked as stale.
pub struct ReactiveComputed<T, F> {
    id: NodeId,
    value: Option<T>,
    compute_fn: Option<F>,
    dirty: bool,
}

impl<T, F: FnMut() -> T> ReactiveComputed<T, F> {
    /// The node's identifier.
    pub closed spec fn node(&self) -> NodeId {
        self.id
    }

    /// The value computed last, if any.
    pub closed spec fn cached(&self) -> Option<T> {
        self.value
    }

    /// The computing function, if it is present.
    pub closed spec fn compute_fn(&self) -> Option<F> {
        self.compute_fn
    }

    /// Whether the value has to be computed again.
    pub closed spec fn is_dirty(&self) -> bool {
        self.dirty
    }

    /// Computes the value again, if there is a computing function.
    fn recompute(&mut self)
        requires
            old(self).compute_fn() matches Some(f) ==> call_requires(f, ()),
        ensures
            final(self).node() == old(self).node(),
            old(self).compute_fn() is None ==> *final(self) == *old(self),
            old(self).compute_fn() matches Some(f) ==> (final(self).compute_fn() is Some && !final(self).is_dirty()
                && (final(self).cached() matches Some(v) && call_ensures(f, (), v))),
    {
        match self.compute_fn.take() {
            Some(mut compute_fn) => {
                let new_value = compute_fn();
                self.value = Some(new_value);
                self.compute_fn = Some(compute_fn);
                self.dirty = false;
            },
            None => {},
        }
    }

    /// The value: computed again first when it is stale or was never
    /// computed; an error when there is none.
    pub fn get(&mut self) -> (r: Result<&T, SignalError>)
        requires
            old(self).compute_fn() matches Some(f) ==> call_requires(f, ()),
        ensures
            final(self).node() == old(self).node(),
            old(self).is_dirty() || old(self).cached() is None ==> (old(self).compute_fn() matches Some(f)
                ==> (r matches Ok(v) && call_ensures(f, (), *v) && final(self).cached() == Some(*v)
                && !final(self).is_dirty())),
            !(old(self).is_dirty() || old(self).cached() is None) ==> (*final(self) == *old(self)
                && (r matches Ok(v) && old(self).cached() == Some(*v))),
            old(self).cached() is None && old(self).compute_fn() is None ==> r == Err::<&T, SignalError>(
                SignalError::InvalidState,
            ),
    {
        if self.dirty || self.value.is_none() {
            self.recompute();
        }
        match &self.value {
            Some(v) => Ok(v),
            None => Err(SignalError::InvalidState),
        }
    }
}

/// A new signal holding `initial_value`, with the scope's next identifier.
pub fn create_signal<T>(scope: &mut ReactiveScope, initial_value: T) -> (r: Signal<T>)
    requires
        old(scope).issued() < usize::MAX,
    ensures
        final(scope).issued() == old(scope).issued() + 1,
        r.node().raw() == old(scope).issued(),
        r.value() == initial_value,
        !r.is_dirty(),
{
    Signal { id: scope.next_id(), value: initial_value, dirty: false }
}

/// A new effect, with the scope's next identifier, run once at creation.
pub fn create_effect<F: FnMut()>(scope: &mut ReactiveScope, callback: F) -> (r: Effect<F>)
    requires
        old(scope).issued() < usize::MAX,
        call_requires(callback, ()),
    ensures
        final(scope).issued() == old(scope).issued() + 1,
        r.node().raw() == old(scope).issued(),
        call_ensures(callback, (), ()),
        r.callback() is Some,
        !r.is_dirty(),
{
    let mut effect = Effect { id: scope.next_id(), callback: Some(callback), dirty: true };
    let _ = effect.run();
    effect
}

/// A new computed value, with the scope's next identifier; nothing is
/// computed until it is read.
pub fn create_computed<T, F: FnMut() -> T>(scope: &mut ReactiveScope, compute_fn: F) -> (r: ReactiveComputed<T, F>)
    requires
        old(scope).issued() < usize::MAX,
    ensures
        final(scope).issued() == old(scope).issued() + 1,
        r.node().raw() == old(scope).issued(),
        r.cached() is None,
        r.compute_fn() == Some(compute_fn),
        r.is_dirty(),
{
    ReactiveComputed { id: scope.next_id(), value: None, compute_fn: Some(compute_fn), dirty: true }
}

} // verus!
