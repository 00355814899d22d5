use std::cell::{Cell, RefCell};
use std::rc::Rc;

use orbit::state::reactive_new::{create_computed, create_effect, create_signal, ReactiveScope};

type Derive = Box<dyn Fn(&[i32]) -> i32>;
type Run = Box<dyn Fn(&[i32])>;
type Scope = ReactiveScope<i32, Derive, Run>;

fn derive(f: impl Fn(&[i32]) -> i32 + 'static) -> Derive {
    Box::new(f)
}

fn run(f: impl Fn(&[i32]) + 'static) -> Run {
    Box::new(f)
}

#[test]
fn reactive_new_test_basic_signal() {
    let mut scope: Scope = ReactiveScope::new();
    let count = create_signal(0, &mut scope);

    assert_eq!(count.get(&scope), 0);

    count.set(&mut scope, 5);
    assert_eq!(count.get(&scope), 5);

    count.update(&mut scope, |c: &i32| *c + 1);
    assert_eq!(count.get(&scope), 6);
}

#[test]
fn reactive_new_test_basic_computed() {
    let mut scope: Scope = ReactiveScope::new();
    let count = create_signal(0, &mut scope);
    let double = create_computed(vec![count.id()], derive(|v| v[0] * 2), &mut scope);

    assert_eq!(double.get(&scope), 0);

    count.set(&mut scope, 5);
    assert_eq!(double.get(&scope), 10);
}

#[test]
fn test_effect_tracks_dependencies() {
    let mut scope: Scope = ReactiveScope::new();
    let count = create_signal(0, &mut scope);
    let effect_ran = Rc::new(Cell::new(0));

    let effect_ran_clone = effect_ran.clone();
    create_effect(
        vec![count.id()],
        run(move |_v| {
            effect_ran_clone.set(effect_ran_clone.get() + 1);
        }),
        &mut scope,
    );

    // Effect should have run once initially
    assert_eq!(effect_ran.get(), 1);

    // Effect should run again when signal changes
    count.set(&mut scope, 5);
    assert_eq!(effect_ran.get(), 2);

    // Effect should not run when value doesn't change
    count.set(&mut scope, 5);
    assert_eq!(effect_ran.get(), 2);

    // Effect should run again when value changes
    count.set(&mut scope, 10);
    assert_eq!(effect_ran.get(), 3);
}

#[test]
fn reactive_new_test_computed_dependency_chain() {
    let mut scope: Scope = ReactiveScope::new();
    let count = create_signal(0, &mut scope);
    let double = create_computed(vec![count.id()], derive(|v| v[0] * 2), &mut scope);
    let quadruple = create_computed(vec![double.id()], derive(|v| v[0] * 2), &mut scope);

    assert_eq!(count.get(&scope), 0);
    assert_eq!(double.get(&scope), 0);
    assert_eq!(quadruple.get(&scope), 0);

    count.set(&mut scope, 5);
    assert_eq!(count.get(&scope), 5);
    assert_eq!(double.get(&scope), 10);
    assert_eq!(quadruple.get(&scope), 20);
}

#[test]
fn reactive_new_test_multiple_dependencies() {
    let mut scope: Scope = ReactiveScope::new();
    let a = create_signal(1, &mut scope);
    let b = create_signal(2, &mut scope);
    let sum = create_computed(vec![a.id(), b.id()], derive(|v| v[0] + v[1]), &mut scope);

    assert_eq!(sum.get(&scope), 3);

    a.set(&mut scope, 5);
    assert_eq!(sum.get(&scope), 7);

    b.set(&mut scope, 10);
    assert_eq!(sum.get(&scope), 15);
}

#[test]
fn effects_see_the_new_values_and_ignore_other_signals() {
    let mut scope: Scope = ReactiveScope::new();
    let a = create_signal(1, &mut scope);
    let other = create_signal(0, &mut scope);
    let double = create_computed(vec![a.id()], derive(|v| v[0] * 2), &mut scope);
    let seen = Rc::new(RefCell::new(Vec::new()));
    let seen_clone = seen.clone();
    create_effect(
        vec![a.id(), double.id()],
        run(move |v| seen_clone.borrow_mut().push((v[0], v[1]))),
        &mut scope,
    );
    a.set(&mut scope, 3);
    other.set(&mut scope, 9);
    assert_eq!(*seen.borrow(), vec![(1, 2), (3, 6)]);
}

#[test]
fn a_computed_value_that_keeps_its_value_stops_propagation() {
    let mut scope: Scope = ReactiveScope::new();
    let n = create_signal(4, &mut scope);
    let is_even = create_computed(vec![n.id()], derive(|v| (v[0] % 2 == 0) as i32), &mut scope);
    let runs = Rc::new(Cell::new(0));
    let runs_clone = runs.clone();
    create_effect(vec![is_even.id()], run(move |_| runs_clone.set(runs_clone.get() + 1)), &mut scope);
    assert_eq!(runs.get(), 1);
    n.set(&mut scope, 6);
    assert_eq!(is_even.get(&scope), 1);
    assert_eq!(runs.get(), 1);
    n.set(&mut scope, 7);
    assert_eq!(is_even.get(&scope), 0);
    assert_eq!(runs.get(), 2);
}
