//! State containers: a value with subscribers told of each change, and
//! the reactive signals, effects and computed values of `reactive`.
use vstd::prelude::*;

pub mod reactive;
pub mod reactive_new;

verus! {

/// Errors of state operations.
#[derive(Debug, Clone, Copy, PartialEq, Eq, Structural)]
pub enum StateError {
    /// The new value has the wrong type.
    TypeMismatch,
}

/// A piece of state whose changes can be observed.
pub trait State: Sized {
    /// The type of the value held.
    type Value;

    /// The type of the callbacks told of changes.
    type Subscriber: Fn(Self::Value);

    /// Every subscriber accepts every value.
    spec fn ready(&self) -> bool;

    /// The callback accepts every value.
    spec fn accepts(callback: Self::Subscriber) -> bool;

    /// The current value.
    fn get(&self) -> &Self::Value;

    /// Replaces the value and tells the subscribers.
    fn set(&mut self, value: Self::Value) -> (r: Result<(), StateError>)
        requires
            old(self).ready(),
        ensures
            final(self).ready(),
    ;

    /// Adds a subscriber, told of each new value.
    fn subscribe(&mut self, callback: Self::Subscriber)
        requires
            old(self).ready(),
            Self::accepts(callback),
        ensures
            final(self).ready(),
    ;
}

/// A value and the callbacks told of each new value (each receives its
/// own copy).
#[verifier::reject_recursive_types(T)]
pub struct SimpleState<T, S> {
    value: T,
    subscribers: Vec<S>,
}

impl<T: Clone, S: Fn(T)> SimpleState<T, S> {
    /// The value held.
    pub closed spec fn value(&self) -> T {
        self.value
    }

    /// The subscribers, in the order they are told.
    pub closed spec fn subscribers(&self) -> Seq<S> {
        self.subscribers@
    }

    /// Every subscriber accepts every value.
    pub open spec fn subscribers_ready(&self) -> bool {
        forall|i: int, x: T| 0 <= i < self.subscribers().len() ==> #[trigger] call_requires(self.subscribers()[i], (x,))
    }

    /// A state holding `initial`, with no subscribers.
    pub fn new(initial: T) -> (r: Self)
        ensures
            r.value() == initial,
            r.subscribers().len() == 0,
            r.subscribers_ready(),
    {
        SimpleState { value: initial, subscribers: Vec::new() }
    }
}

impl<T: Clone, S: Fn(T)> Clone for SimpleState<T, S> {
    /// A copy of the value, without the subscribers.
    fn clone(&self) -> (r: Self)
        ensures
            cloned(self.value(), r.value()),
            r.subscribers().len() == 0,
    {
        SimpleState { value: self.value.clone(), subscribers: Vec::new() }
    }
}

impl<T: Clone, S: Fn(T)> State for SimpleState<T, S> {
    type Value = T;

    type Subscriber = S;

    open spec fn ready(&self) -> bool {
        self.subscribers_ready()
    }

    open spec fn accepts(callback: S) -> bool {
        forall|x: T| call_requires(callback, (x,))
    }

    fn get(&self) -> (r: &T)
        ensures
            *r == self.value(),
    {
        &self.value
    }

    /// Replaces the value, then calls each subscriber with a copy of it,
    /// in order.
    fn set(&mut self, value: T) -> (r: Result<(), StateError>)
        ensures
            r is Ok,
            final(self).value() == value,
            final(self).subscribers() == old(self).subscribers(),
    {
        self.value = value;
        let mut i: usize = 0;
        while i < self.subscribers.len()
            invariant
                i <= self.subscribers@.len(),
                self.value == value,
                self.subscribers == old(self).subscribers,
                old(self).subscribers_ready(),
            decreases self.subscribers@.len() - i,
        {
            let v = self.value.clone();
            assert(self.subscribers@[i as int] == old(self).subscribers()[i as int]);
            assert(call_requires(old(self).subscribers()[i as int], (v,)));
            (self.subscribers[i])(v);
            i = i + 1;
        }
        assert forall|j: int, x: T| 0 <= j < self.subscribers().len() implies #[trigger] call_requires(
            self.subscribers()[j],
            (x,),
        ) by {
            assert(self.subscribers()[j] == old(self).subscribers()[j]);
        }
        Ok(())
    }

    fn subscribe(&mut self, callback: S)
        ensures
            final(self).value() == old(self).value(),
            final(self).subscribers() == old(self).subscribers().push(callback),
    {
        let ghost before = self.subscribers();
        self.subscribers.push(callback);
        assert forall|i: int, x: T| 0 <= i < self.subscribers().len() implies #[trigger] call_requires(
            self.subscribers()[i],
            (x,),
        ) by {
            if i < before.len() {
                assert(self.subscribers()[i] == before[i]);
            } else {
                assert(self.subscribers()[i] == callback);
                assert(call_requires(callback, (x,)));
            }
        }
    }
}

} // verus!
