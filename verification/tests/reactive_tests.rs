use orbit::state::reactive::{create_computed, create_effect, create_signal, ReactiveScope, SignalError};
use orbit::state::{SimpleState, State};
use std::cell::RefCell;
use std::rc::Rc;

#[test]
fn test_signal_creation_and_access() {
    let mut scope = ReactiveScope::new();
    let signal = create_signal(&mut scope, 42);

    assert_eq!(*signal.get(), 42);
}

#[test]
fn test_signal_update() {
    let mut scope = ReactiveScope::new();
    let mut signal = create_signal(&mut scope, 10);

    signal.update(|v| *v += 5).unwrap();
    assert_eq!(*signal.get(), 15);
}

#[test]
fn test_effect_creation() {
    let mut scope = ReactiveScope::new();
    let counter = Rc::new(RefCell::new(0));
    let counter_clone = counter.clone();

    let _effect = create_effect(&mut scope, move || {
        *counter_clone.borrow_mut() += 1;
    });

    // The effect runs once on creation.
    assert_eq!(*counter.borrow(), 1);
}

#[test]
fn test_computed_value() {
    let mut scope = ReactiveScope::new();
    let signal = create_signal(&mut scope, 5);
    let signal_value = *signal.get();

    let mut computed = create_computed(&mut scope, move || signal_value * 2);

    assert_eq!(*computed.get().unwrap(), 10);
}

#[test]
fn signal_set_and_get_mut() {
    let mut scope = ReactiveScope::new();
    let mut signal = create_signal(&mut scope, String::from("a"));
    signal.set(String::from("b")).unwrap();
    assert_eq!(signal.get(), "b");
    signal.get_mut().push('c');
    assert_eq!(signal.get(), "bc");
}

#[test]
fn effect_runs_again_on_demand() {
    let mut scope = ReactiveScope::new();
    let runs = Rc::new(RefCell::new(0));
    let runs_clone = runs.clone();
    let mut effect = create_effect(&mut scope, move || {
        *runs_clone.borrow_mut() += 1;
    });
    effect.run().unwrap();
    effect.run().unwrap();
    assert_eq!(*runs.borrow(), 3);
}

#[test]
fn computed_value_is_cached_until_stale() {
    let mut scope = ReactiveScope::new();
    let calls = Rc::new(RefCell::new(0));
    let calls_clone = calls.clone();
    let mut computed = create_computed(&mut scope, move || {
        *calls_clone.borrow_mut() += 1;
        7
    });
    assert_eq!(*computed.get().unwrap(), 7);
    assert_eq!(*computed.get().unwrap(), 7);
    assert_eq!(*calls.borrow(), 1);
    let _ = SignalError::InvalidState;
}

#[test]
fn simple_state_notifies_subscribers() {
    let seen = Rc::new(RefCell::new(Vec::new()));
    let seen_clone = seen.clone();
    let mut state: SimpleState<i32, Box<dyn Fn(i32)>> = SimpleState::new(1);
    assert_eq!(*state.get(), 1);
    state.subscribe(Box::new(move |v| seen_clone.borrow_mut().push(v)));
    state.set(2).unwrap();
    state.set(3).unwrap();
    assert_eq!(*state.get(), 3);
    assert_eq!(*seen.borrow(), vec![2, 3]);
}
