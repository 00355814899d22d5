//! State change detection: snapshots of a component's state fields, the
//! changes between two snapshots, and a tracker that batches changes and
//! keeps dirty flags.
use vstd::prelude::*;
use std::time::{Duration, Instant};
use crate::component::{ComponentError, ComponentId};
use crate::component::state_hash::{default_hash_of, fields_bytes, state_hash};
use crate::text::{chars_of, key_index, lemma_key_index_at, set_pair};
use crate::time::{
    duration_as_nanos, duration_from_millis, duration_nanos, duration_zero, instant_duration_since, instant_elapsed,
    instant_now,
};

verus! {

/// A tracked state value.
#[derive(Debug)]
pub enum StateValue {
    /// Text.
    Text(String),
    /// An integer.
    Integer(i64),
    /// A floating-point number, by its IEEE 754 bits.
    Float(u64),
    /// A boolean.
    Boolean(bool),
    /// A list of values.
    Array(Vec<StateValue>),
    /// Named values, each name once.
    Object(Vec<(String, StateValue)>),
    /// No value.
    Null,
}

/// Whether the bits are those of a NaN.
pub open spec fn is_nan_bits(b: u64) -> bool {
    (b & 0x7ff0_0000_0000_0000u64) == 0x7ff0_0000_0000_0000u64 && (b & 0x000f_ffff_ffff_ffffu64) != 0
}

/// Whether the bits are those of a zero of either sign.
pub open spec fn is_zero_bits(b: u64) -> bool {
    (b & 0x7fff_ffff_ffff_ffffu64) == 0
}

/// IEEE 754 equality of two doubles given by their bits: no NaN equals
/// anything, the two zeros are equal, other numbers are equal when their
/// bits are.
pub open spec fn float_bits_eq(a: u64, b: u64) -> bool {
    !is_nan_bits(a) && !is_nan_bits(b) && (a == b || (is_zero_bits(a) && is_zero_bits(b)))
}

/// Equality of state values: of the same kind and equal contents; floats
/// compare as IEEE 754 numbers; objects compare as maps from names to
/// values.
pub open spec fn value_eq(a: StateValue, b: StateValue) -> bool
    decreases a, 0nat,
{
    match a {
        StateValue::Text(x) => b matches StateValue::Text(y) && x@ == y@,
        StateValue::Integer(x) => b matches StateValue::Integer(y) && x == y,
        StateValue::Float(x) => b matches StateValue::Float(y) && float_bits_eq(x, y),
        StateValue::Boolean(x) => b matches StateValue::Boolean(y) && x == y,
        StateValue::Array(xs) => b matches StateValue::Array(ys) && xs@.len() == ys@.len()
            && items_eq(xs@, ys@, xs@.len() as int),
        StateValue::Object(xs) => b matches StateValue::Object(ys) && xs@.len() == ys@.len()
            && entries_in(xs@, ys@, xs@.len() as int),
        StateValue::Null => b is Null,
    }
}

/// The first `k` items of two lists are pairwise equal.
pub open spec fn items_eq(xs: Seq<StateValue>, ys: Seq<StateValue>, k: int) -> bool
    decreases xs, k,
{
    if k <= 0 || k > xs.len() || k > ys.len() {
        k <= 0
    } else {
        items_eq(xs, ys, k - 1) && value_eq(xs[k - 1], ys[k - 1])
    }
}

/// The position of the first value named `name`, if any.
#[verifier::opaque]
pub open spec fn entry_index(ys: Seq<(String, StateValue)>, name: Seq<char>) -> Option<int> {
    if exists|j: int| 0 <= j < ys.len() && ys[j].0@ == name {
        Some(choose|j: int| 0 <= j < ys.len() && ys[j].0@ == name && forall|l: int| 0 <= l < j ==> ys[l].0@ != name)
    } else {
        None
    }
}

/// The first value named `name` among some named values, if any.
pub open spec fn entry_value(ys: Seq<(String, StateValue)>, name: Seq<char>) -> Option<StateValue> {
    match entry_index(ys, name) {
        Some(j) => Some(ys[j].1),
        None => None,
    }
}

/// The first value named `name` is the one found at `j`.
pub proof fn lemma_entry_index_at(ys: Seq<(String, StateValue)>, name: Seq<char>, j: int)
    requires
        0 <= j < ys.len(),
        ys[j].0@ == name,
        forall|l: int| 0 <= l < j ==> ys[l].0@ != name,
    ensures
        entry_index(ys, name) == Some(j),
{
    reveal(entry_index);
    let c = choose|c: int| 0 <= c < ys.len() && ys[c].0@ == name && forall|l: int| 0 <= l < c ==> ys[l].0@ != name;
    assert(0 <= c < ys.len() && ys[c].0@ == name && forall|l: int| 0 <= l < c ==> ys[l].0@ != name);
    if c < j {
        assert(ys[c].0@ != name);
    } else if j < c {
        assert(ys[j].0@ != name);
    }
}

/// The position of the first value named `name`, if any.
fn find_entry(ys: &Vec<(String, StateValue)>, name: &String) -> (r: Option<usize>)
    ensures
        match r {
            Some(j) => entry_index(ys@, name@) == Some(j as int) && j < ys@.len(),
            None => entry_index(ys@, name@) is None,
        },
{
    let mut j: usize = 0;
    while j < ys.len()
        invariant
            j <= ys@.len(),
            forall|l: int| 0 <= l < j ==> ys@[l].0@ != name@,
        decreases ys@.len() - j,
    {
        if ys[j].0 == *name {
            proof {
                lemma_entry_index_at(ys@, name@, j as int);
            }
            return Some(j);
        }
        j = j + 1;
    }
    proof {
        reveal(entry_index);
    }
    None
}

/// Equal prefixes stay equal when shortened.
pub proof fn lemma_items_eq_mono(xs: Seq<StateValue>, ys: Seq<StateValue>, j: int, k: int)
    requires
        0 <= j <= k <= xs.len(),
        k <= ys.len(),
        items_eq(xs, ys, k),
    ensures
        items_eq(xs, ys, j),
    decreases k - j,
{
    if j < k {
        lemma_items_eq_mono(xs, ys, j, k - 1);
    }
}

/// Contained prefixes stay contained when shortened.
pub proof fn lemma_entries_in_mono(xs: Seq<(String, StateValue)>, ys: Seq<(String, StateValue)>, j: int, k: int)
    requires
        0 <= j <= k <= xs.len(),
        entries_in(xs, ys, k),
    ensures
        entries_in(xs, ys, j),
    decreases k - j,
{
    if j < k {
        lemma_entries_in_mono(xs, ys, j, k - 1);
    }
}

/// IEEE 754 equality of two doubles given by their bits.
fn float_bits_equal(a: u64, b: u64) -> (r: bool)
    ensures
        r == float_bits_eq(a, b),
{
    let a_nan = (a & 0x7ff0_0000_0000_0000u64) == 0x7ff0_0000_0000_0000u64 && (a & 0x000f_ffff_ffff_ffffu64) != 0;
    let b_nan = (b & 0x7ff0_0000_0000_0000u64) == 0x7ff0_0000_0000_0000u64 && (b & 0x000f_ffff_ffff_ffffu64) != 0;
    let a_zero = (a & 0x7fff_ffff_ffff_ffffu64) == 0;
    let b_zero = (b & 0x7fff_ffff_ffff_ffffu64) == 0;
    !a_nan && !b_nan && (a == b || (a_zero && b_zero))
}

/// Whether two state values are equal (`value_eq`).
pub fn values_equal(a: &StateValue, b: &StateValue) -> (r: bool)
    ensures
        r == value_eq(*a, *b),
    decreases *a,
{
    match a {
        StateValue::Text(x) => match b {
            StateValue::Text(y) => *x == *y,
            _ => false,
        },
        StateValue::Integer(x) => match b {
            StateValue::Integer(y) => *x == *y,
            _ => false,
        },
        StateValue::Float(x) => match b {
            StateValue::Float(y) => float_bits_equal(*x, *y),
            _ => false,
        },
        StateValue::Boolean(x) => match b {
            StateValue::Boolean(y) => *x == *y,
            _ => false,
        },
        StateValue::Array(xs) => match b {
            StateValue::Array(ys) => {
                if xs.len() != ys.len() {
                    return false;
                }
                let mut i: usize = 0;
                while i < xs.len()
                    invariant
                        xs@.len() == ys@.len(),
                        i <= xs@.len(),
                        items_eq(xs@, ys@, i as int),
                        *a == StateValue::Array(*xs),
                        *b == StateValue::Array(*ys),
                    decreases xs@.len() - i,
                {
                    proof {
                        assert(decreases_to!(*xs => xs[i as int]));
                        assert(decreases_to!(*a => (*a)->Array_0));
                    }
                    if !values_equal(&xs[i], &ys[i]) {
                        proof {
                            if items_eq(xs@, ys@, xs@.len() as int) {
                                lemma_items_eq_mono(xs@, ys@, i + 1, xs@.len() as int);
                            }
                        }
                        return false;
                    }
                    i = i + 1;
                }
                true
            },
            _ => false,
        },
        StateValue::Object(xs) => match b {
            StateValue::Object(ys) => {
                if xs.len() != ys.len() {
                    return false;
                }
                let mut i: usize = 0;
                while i < xs.len()
                    invariant
                        xs@.len() == ys@.len(),
                        i <= xs@.len(),
                        entries_in(xs@, ys@, i as int),
                        *a == StateValue::Object(*xs),
                        *b == StateValue::Object(*ys),
                    decreases xs@.len() - i,
                {
                    match find_entry(ys, &xs[i].0) {
                        Some(j) => {
                            proof {
                                assert(decreases_to!(*xs => xs[i as int]));
                                assert(decreases_to!(*a => (*a)->Object_0));
                            }
                            assert(entry_value(ys@, xs@[i as int].0@) == Some(ys@[j as int].1));
                            if !values_equal(&xs[i].1, &ys[j].1) {
                                proof {
                                    if entries_in(xs@, ys@, xs@.len() as int) {
                                        lemma_entries_in_mono(xs@, ys@, i + 1, xs@.len() as int);
                                    }
                                }
                                return false;
                            }
                        },
                        None => {
                            proof {
                                if entries_in(xs@, ys@, xs@.len() as int) {
                                    lemma_entries_in_mono(xs@, ys@, i + 1, xs@.len() as int);
                                }
                            }
                            return false;
                        },
                    }
                    i = i + 1;
                }
                true
            },
            _ => false,
        },
        StateValue::Null => match b {
            StateValue::Null => true,
            _ => false,
        },
    }
}

/// Each of the first `k` named values of `xs` has an equal value under
/// the same name in `ys`.
pub open spec fn entries_in(xs: Seq<(String, StateValue)>, ys: Seq<(String, StateValue)>, k: int) -> bool
    decreases xs, k,
{
    if k <= 0 || k > xs.len() {
        k <= 0
    } else {
        entries_in(xs, ys, k - 1) && match entry_value(ys, xs[k - 1].0@) {
            Some(w) => value_eq(xs[k - 1].1, w),
            None => false,
        }
    }
}


/// The content of a state value.
pub enum ValueView {
    Text(Seq<char>),
    Integer(i64),
    Float(u64),
    Boolean(bool),
    Array(Seq<ValueView>),
    Object(Seq<(Seq<char>, ValueView)>),
    Null,
}

/// The content of a state value.
pub open spec fn value_view(v: StateValue) -> ValueView
    decreases v, 0nat,
{
    match v {
        StateValue::Text(x) => ValueView::Text(x@),
        StateValue::Integer(x) => ValueView::Integer(x),
        StateValue::Float(x) => ValueView::Float(x),
        StateValue::Boolean(x) => ValueView::Boolean(x),
        StateValue::Array(xs) => ValueView::Array(values_view(xs@, xs@.len() as int)),
        StateValue::Object(xs) => ValueView::Object(entries_view(xs@, xs@.len() as int)),
        StateValue::Null => ValueView::Null,
    }
}

/// The contents of the first `k` values.
pub open spec fn values_view(xs: Seq<StateValue>, k: int) -> Seq<ValueView>
    decreases xs, k,
{
    if k <= 0 || k > xs.len() {
        Seq::empty()
    } else {
        values_view(xs, k - 1).push(value_view(xs[k - 1]))
    }
}

/// The contents of the first `k` named values.
pub open spec fn entries_view(xs: Seq<(String, StateValue)>, k: int) -> Seq<(Seq<char>, ValueView)>
    decreases xs, k,
{
    if k <= 0 || k > xs.len() {
        Seq::empty()
    } else {
        entries_view(xs, k - 1).push((xs[k - 1].0@, value_view(xs[k - 1].1)))
    }
}

impl View for StateValue {
    type V = ValueView;

    open spec fn view(&self) -> ValueView {
        value_view(*self)
    }
}

/// `values_view` lists the contents one by one.
pub proof fn lemma_values_view(xs: Seq<StateValue>, k: int)
    requires
        0 <= k <= xs.len(),
    ensures
        values_view(xs, k).len() == k,
        forall|j: int| 0 <= j < k ==> values_view(xs, k)[j] == value_view(#[trigger] xs[j]),
    decreases k,
{
    if k > 0 {
        lemma_values_view(xs, k - 1);
    }
}

/// `entries_view` lists the contents one by one.
pub proof fn lemma_entries_view(xs: Seq<(String, StateValue)>, k: int)
    requires
        0 <= k <= xs.len(),
    ensures
        entries_view(xs, k).len() == k,
        forall|j: int| 0 <= j < k ==> entries_view(xs, k)[j] == (xs[j].0@, value_view(#[trigger] xs[j].1)),
    decreases k,
{
    if k > 0 {
        lemma_entries_view(xs, k - 1);
    }
}

/// A copy of a state value.
pub fn copy_value(v: &StateValue) -> (r: StateValue)
    ensures
        r@ == v@,
    decreases *v,
{
    match v {
        StateValue::Text(x) => StateValue::Text(x.clone()),
        StateValue::Integer(x) => StateValue::Integer(*x),
        StateValue::Float(x) => StateValue::Float(*x),
        StateValue::Boolean(x) => StateValue::Boolean(*x),
        StateValue::Array(xs) => {
            let mut out: Vec<StateValue> = Vec::new();
            let mut i: usize = 0;
            while i < xs.len()
                invariant
                    i <= xs@.len(),
                    out@.len() == i,
                    forall|j: int| 0 <= j < i ==> value_view(#[trigger] out@[j]) == value_view(xs@[j]),
                    *v == StateValue::Array(*xs),
                decreases xs@.len() - i,
            {
                proof {
                    assert(decreases_to!(*xs => xs[i as int]));
                    assert(decreases_to!(*v => (*v)->Array_0));
                }
                out.push(copy_value(&xs[i]));
                i = i + 1;
            }
            proof {
                lemma_values_view(out@, out@.len() as int);
                lemma_values_view(xs@, xs@.len() as int);
                assert forall|j: int| 0 <= j < out@.len() implies values_view(out@, out@.len() as int)[j]
                    == values_view(xs@, xs@.len() as int)[j] by {
                    assert(value_view(out@[j]) == value_view(xs@[j]));
                }
                assert(values_view(out@, out@.len() as int) =~= values_view(xs@, xs@.len() as int));
            }
            StateValue::Array(out)
        },
        StateValue::Object(xs) => {
            let mut out: Vec<(String, StateValue)> = Vec::new();
            let mut i: usize = 0;
            while i < xs.len()
                invariant
                    i <= xs@.len(),
                    out@.len() == i,
                    forall|j: int| 0 <= j < i ==> (#[trigger] out@[j]).0@ == xs@[j].0@ && value_view(out@[j].1) == value_view(xs@[j].1),
                    *v == StateValue::Object(*xs),
                decreases xs@.len() - i,
            {
                proof {
                    assert(decreases_to!(*xs => xs[i as int]));
                    assert(decreases_to!(*v => (*v)->Object_0));
                }
                out.push((xs[i].0.clone(), copy_value(&xs[i].1)));
                i = i + 1;
            }
            proof {
                lemma_entries_view(out@, out@.len() as int);
                lemma_entries_view(xs@, xs@.len() as int);
                assert forall|j: int| 0 <= j < out@.len() implies entries_view(out@, out@.len() as int)[j]
                    == entries_view(xs@, xs@.len() as int)[j] by {
                    assert(out@[j].0@ == xs@[j].0@ && value_view(out@[j].1) == value_view(xs@[j].1));
                }
                assert(entries_view(out@, out@.len() as int) =~= entries_view(xs@, xs@.len() as int));
            }
            StateValue::Object(out)
        },
        StateValue::Null => StateValue::Null,
    }
}


// ---------------------------------------------------------------------
// Changes
// ---------------------------------------------------------------------

/// Priority levels of state changes.
#[derive(Debug, Clone, Copy, PartialEq, Eq, PartialOrd, Ord, Hash, Structural)]
pub enum ChangePriority {
    Low,
    Normal,
    High,
    Critical,
}

/// A change of one state field.
#[derive(Debug)]
pub struct StateChange {
    /// The field that changed.
    pub field_name: String,
    /// Its previous value.
    pub old_value: Option<StateValue>,
    /// Its new value.
    pub new_value: StateValue,
    /// When the change was seen.
    pub timestamp: Instant,
    /// How urgent the change is.
    pub priority: ChangePriority,
}

/// The content of a change: field, previous value, new value, priority.
pub type ChangeView = (Seq<char>, Option<ValueView>, ValueView, ChangePriority);

/// The content of an optional value.
pub open spec fn opt_view(o: Option<StateValue>) -> Option<ValueView> {
    match o {
        Some(v) => Some(v@),
        None => None,
    }
}

/// The content of a change.
pub open spec fn change_view(c: StateChange) -> ChangeView {
    (c.field_name@, opt_view(c.old_value), c.new_value@, c.priority)
}

/// The contents of some changes.
pub open spec fn changes_view(cs: Seq<StateChange>) -> Seq<ChangeView> {
    Seq::new(cs.len(), |i: int| change_view(cs[i]))
}

/// The changes for the first `k` new fields: a field whose previous value
/// is missing or different is changed.
pub open spec fn modified_fields(
    old: Seq<(String, StateValue)>,
    new: Seq<(String, StateValue)>,
    k: int,
) -> Seq<ChangeView>
    decreases k,
{
    if k <= 0 || k > new.len() {
        Seq::empty()
    } else {
        let prev = modified_fields(old, new, k - 1);
        let name = new[k - 1].0@;
        let v = new[k - 1].1;
        match entry_value(old, name) {
            Some(w) => if value_eq(w, v) {
                prev
            } else {
                prev.push((name, Some(w@), v@, ChangePriority::Normal))
            },
            None => prev.push((name, None, v@, ChangePriority::Normal)),
        }
    }
}

/// The changes for the first `k` previous fields that are gone: each
/// becomes null.
pub open spec fn removed_fields(
    old: Seq<(String, StateValue)>,
    new: Seq<(String, StateValue)>,
    k: int,
) -> Seq<ChangeView>
    decreases k,
{
    if k <= 0 || k > old.len() {
        Seq::empty()
    } else {
        let prev = removed_fields(old, new, k - 1);
        if entry_index(new, old[k - 1].0@) is None {
            prev.push((old[k - 1].0@, Some(old[k - 1].1@), ValueView::Null, ChangePriority::Normal))
        } else {
            prev
        }
    }
}

/// The changes from the `old` fields to the `new` ones: modified and new
/// fields in the order of `new`, then removed fields in the order of
/// `old`; all of normal priority.
pub open spec fn diff_changes(old: Seq<(String, StateValue)>, new: Seq<(String, StateValue)>) -> Seq<ChangeView> {
    modified_fields(old, new, new.len() as int) + removed_fields(old, new, old.len() as int)
}

/// Some change is for the field named `n`.
pub open spec fn changes_name(cs: Seq<ChangeView>, n: Seq<char>) -> bool {
    exists|i: int| 0 <= i < cs.len() && #[trigger] cs[i].0 == n
}

/// A change for `n` is among the first `k` modified fields exactly when
/// one of the first `k` new fields is named `n` and its previous value is
/// missing or different.
proof fn lemma_modified_names(old: Seq<(String, StateValue)>, new: Seq<(String, StateValue)>, k: int, n: Seq<char>)
    requires
        0 <= k <= new.len(),
    ensures
        changes_name(modified_fields(old, new, k), n) <==> exists|j: int|
            0 <= j < k && #[trigger] new[j].0@ == n && !(entry_value(old, n) matches Some(w) && value_eq(
                w,
                new[j].1,
            )),
    decreases k,
{
    if k > 0 {
        lemma_modified_names(old, new, k - 1, n);
        let prev = modified_fields(old, new, k - 1);
        let cur = modified_fields(old, new, k);
        if changes_name(cur, n) {
            let i = choose|i: int| 0 <= i < cur.len() && #[trigger] cur[i].0 == n;
            if i >= prev.len() {
                assert(new[k - 1].0@ == n);
            } else {
                assert(cur[i] == prev[i]);
                assert(changes_name(prev, n));
            }
        }
        if exists|j: int|
            0 <= j < k && #[trigger] new[j].0@ == n && !(entry_value(old, n) matches Some(w) && value_eq(
                w,
                new[j].1,
            )) {
            let j = choose|j: int|
                0 <= j < k && #[trigger] new[j].0@ == n && !(entry_value(old, n) matches Some(w) && value_eq(
                    w,
                    new[j].1,
                ));
            if j == k - 1 {
                assert(cur[prev.len() as int].0 == n);
            } else {
                assert(changes_name(prev, n));
                let i = choose|i: int| 0 <= i < prev.len() && #[trigger] prev[i].0 == n;
                assert(cur[i] == prev[i]);
            }
        }
    }
}

/// A change for `n` is among the first `k` removed fields exactly when
/// one of the first `k` previous fields is named `n` and no new field is.
proof fn lemma_removed_names(old: Seq<(String, StateValue)>, new: Seq<(String, StateValue)>, k: int, n: Seq<char>)
    requires
        0 <= k <= old.len(),
    ensures
        changes_name(removed_fields(old, new, k), n) <==> (exists|j: int|
            0 <= j < k && #[trigger] old[j].0@ == n) && entry_index(new, n) is None,
    decreases k,
{
    if k > 0 {
        lemma_removed_names(old, new, k - 1, n);
        let prev = removed_fields(old, new, k - 1);
        let cur = removed_fields(old, new, k);
        if changes_name(cur, n) {
            let i = choose|i: int| 0 <= i < cur.len() && #[trigger] cur[i].0 == n;
            if i >= prev.len() {
                assert(old[k - 1].0@ == n);
            } else {
                assert(cur[i] == prev[i]);
            }
        }
        if (exists|j: int| 0 <= j < k && #[trigger] old[j].0@ == n) && entry_index(new, n) is None {
            let j = choose|j: int| 0 <= j < k && #[trigger] old[j].0@ == n;
            if j == k - 1 {
                assert(cur[prev.len() as int].0 == n);
            } else {
                assert(changes_name(prev, n));
                let i = choose|i: int| 0 <= i < prev.len() && #[trigger] prev[i].0 == n;
                assert(cur[i] == prev[i]);
            }
        }
    }
}

/// The field named `n` in fields with distinct names is the one found at
/// its position.
proof fn lemma_named_field(fs: Seq<(String, StateValue)>, n: Seq<char>)
    requires
        forall|i: int, j: int| 0 <= i < j < fs.len() ==> fs[i].0@ != fs[j].0@,
    ensures
        (exists|j: int| 0 <= j < fs.len() && #[trigger] fs[j].0@ == n) <==> entry_index(fs, n) is Some,
        forall|j: int| 0 <= j < fs.len() && #[trigger] fs[j].0@ == n ==> entry_value(fs, n) == Some(fs[j].1),
{
    assert forall|j: int| 0 <= j < fs.len() && #[trigger] fs[j].0@ == n implies entry_value(fs, n) == Some(fs[j].1) by {
        lemma_entry_index_at(fs, n, j);
    }
    reveal(entry_index);
}

/// A snapshot diff changes a field exactly when its value is new, gone
/// or different: between fields with distinct names, there is a change
/// for name `n` if and only if `n` has a value now that it had not, or
/// that differs from the one it had, or had a value that it has no more.
pub proof fn law_diff_per_name(old: Seq<(String, StateValue)>, new: Seq<(String, StateValue)>, n: Seq<char>)
    requires
        forall|i: int, j: int| 0 <= i < j < old.len() ==> old[i].0@ != old[j].0@,
        forall|i: int, j: int| 0 <= i < j < new.len() ==> new[i].0@ != new[j].0@,
    ensures
        changes_name(diff_changes(old, new), n) <==> match (entry_value(old, n), entry_value(new, n)) {
            (_, Some(v)) => !(entry_value(old, n) matches Some(w) && value_eq(w, v)),
            (Some(_), None) => true,
            (None, None) => false,
        },
{
    let m = modified_fields(old, new, new.len() as int);
    let r = removed_fields(old, new, old.len() as int);
    lemma_modified_names(old, new, new.len() as int, n);
    lemma_removed_names(old, new, old.len() as int, n);
    lemma_named_field(old, n);
    lemma_named_field(new, n);
    let d = diff_changes(old, new);
    assert(changes_name(d, n) <==> changes_name(m, n) || changes_name(r, n)) by {
        if changes_name(d, n) {
            let i = choose|i: int| 0 <= i < d.len() && #[trigger] d[i].0 == n;
            if i < m.len() {
                assert(d[i] == m[i]);
            } else {
                assert(d[i] == r[i - m.len()]);
            }
        }
        if changes_name(m, n) {
            let i = choose|i: int| 0 <= i < m.len() && #[trigger] m[i].0 == n;
            assert(d[i] == m[i]);
        }
        if changes_name(r, n) {
            let i = choose|i: int| 0 <= i < r.len() && #[trigger] r[i].0 == n;
            assert(d[i + m.len()] == r[i]);
        }
    }
    reveal(entry_index);
}

/// Comparing fields with distinct names to themselves finds no modified
/// field among the first `k`, when each value equals itself.
proof fn lemma_modified_self(fs: Seq<(String, StateValue)>, k: int)
    requires
        forall|i: int, j: int| 0 <= i < j < fs.len() ==> fs[i].0@ != fs[j].0@,
        forall|i: int| 0 <= i < fs.len() ==> value_eq(#[trigger] fs[i].1, fs[i].1),
        0 <= k <= fs.len(),
    ensures
        modified_fields(fs, fs, k).len() == 0,
        removed_fields(fs, fs, k).len() == 0,
    decreases k,
{
    if k > 0 {
        lemma_modified_self(fs, k - 1);
        lemma_entry_index_at(fs, fs[k - 1].0@, k - 1);
        assert(value_eq(fs[k - 1].1, fs[k - 1].1));
    }
}

/// A snapshot compared with itself shows no change, when its fields have
/// distinct names and each value equals itself (a value holding a NaN
/// does not).
pub proof fn law_diff_with_itself_is_empty(fs: Seq<(String, StateValue)>)
    requires
        forall|i: int, j: int| 0 <= i < j < fs.len() ==> fs[i].0@ != fs[j].0@,
        forall|i: int| 0 <= i < fs.len() ==> value_eq(#[trigger] fs[i].1, fs[i].1),
    ensures
        diff_changes(fs, fs).len() == 0,
{
    lemma_modified_self(fs, fs.len() as int);
}

/// The changes when the first `k` fields appear for the first time.
pub open spec fn fresh_fields(new: Seq<(String, StateValue)>, k: int) -> Seq<ChangeView>
    decreases k,
{
    if k <= 0 || k > new.len() {
        Seq::empty()
    } else {
        fresh_fields(new, k - 1).push((new[k - 1].0@, None, new[k - 1].1@, ChangePriority::Normal))
    }
}

/// A change of normal priority, seen at `now`.
fn make_change(name: &String, old_value: Option<StateValue>, new_value: StateValue, now: Instant) -> (r: StateChange)
    ensures
        change_view(r) == (name@, opt_view(old_value), new_value@, ChangePriority::Normal),
{
    StateChange { field_name: name.clone(), old_value, new_value, timestamp: now, priority: ChangePriority::Normal }
}

/// A batch of changes.
#[derive(Debug)]
pub struct StateChanges {
    /// The changes.
    pub changes: Vec<StateChange>,
    /// When the batch was made.
    pub batch_timestamp: Instant,
    /// Whether the batch needs processing at once.
    pub immediate: bool,
}

/// The changes of priority `p`, in order.
pub open spec fn of_priority(cs: Seq<ChangeView>, p: ChangePriority) -> Seq<ChangeView> {
    cs.filter(|c: ChangeView| c.3 == p)
}

impl StateChanges {
    /// A batch of the given changes, stamped now.
    pub fn new(changes: Vec<StateChange>, immediate: bool) -> (r: Self)
        ensures
            r.changes == changes,
            r.immediate == immediate,
    {
        StateChanges { changes, batch_timestamp: instant_now(), immediate }
    }

    /// Whether the batch holds no change.
    pub fn is_empty(&self) -> (r: bool)
        ensures
            r == (self.changes@.len() == 0),
    {
        self.changes.len() == 0
    }

    /// The number of changes.
    pub fn len(&self) -> (r: usize)
        ensures
            r == self.changes@.len(),
    {
        self.changes.len()
    }

    /// The changes of the given field, in order.
    pub fn changes_for_field(&self, field_name: &str) -> (r: Vec<&StateChange>)
        ensures
            r@.len() == changes_view(self.changes@).filter(|c: ChangeView| c.0 == field_name@).len(),
            forall|i: int| 0 <= i < r@.len() ==> change_view(*r@[i]) == changes_view(self.changes@).filter(
                |c: ChangeView| c.0 == field_name@,
            )[i],
    {
        let ghost pred = |c: ChangeView| c.0 == field_name@;
        let ghost cv = changes_view(self.changes@);
        let wanted = chars_of(field_name);
        let mut r: Vec<&StateChange> = Vec::new();
        let mut i: usize = 0;
        while i < self.changes.len()
            invariant
                i <= self.changes@.len(),
                cv == changes_view(self.changes@),
                pred == (|c: ChangeView| c.0 == field_name@),
                wanted@ == field_name@,
                r@.len() == cv.take(i as int).filter(pred).len(),
                forall|j: int| 0 <= j < r@.len() ==> change_view(*r@[j]) == cv.take(i as int).filter(pred)[j],
            decreases self.changes@.len() - i,
        {
            assert(cv.take(i + 1).drop_last() =~= cv.take(i as int));
            proof {
                reveal(Seq::filter);
            }
            let name = chars_of(self.changes[i].field_name.as_str());
            assert(cv[i as int].0 == self.changes@[i as int].field_name@);
            let ghost r0 = r@;
            if crate::text::eq_chars(name.as_slice(), wanted.as_slice()) {
                r.push(&self.changes[i]);
                assert(cv.take(i + 1).filter(pred) == cv.take(i as int).filter(pred).push(cv[i as int]));
            } else {
                assert(cv.take(i + 1).filter(pred) == cv.take(i as int).filter(pred));
            }
            i = i + 1;
        }
        assert(cv.take(self.changes@.len() as int) =~= cv);
        r
    }

    /// Whether some change is critical.
    pub fn has_critical_changes(&self) -> (r: bool)
        ensures
            r == exists|i: int| 0 <= i < self.changes@.len() && self.changes@[i].priority == ChangePriority::Critical,
    {
        let mut i: usize = 0;
        while i < self.changes.len()
            invariant
                i <= self.changes@.len(),
                forall|j: int| 0 <= j < i ==> self.changes@[j].priority != ChangePriority::Critical,
            decreases self.changes@.len() - i,
        {
            if self.changes[i].priority == ChangePriority::Critical {
                return true;
            }
            i = i + 1;
        }
        false
    }

    /// Orders the changes from critical to low priority, keeping the order
    /// of changes of equal priority.
    pub fn sort_by_priority(&mut self)
        ensures
            changes_view(final(self).changes@) == of_priority(changes_view(old(self).changes@), ChangePriority::Critical)
                + of_priority(changes_view(old(self).changes@), ChangePriority::High) + of_priority(
                changes_view(old(self).changes@),
                ChangePriority::Normal,
            ) + of_priority(changes_view(old(self).changes@), ChangePriority::Low),
            final(self).batch_timestamp == old(self).batch_timestamp,
            final(self).immediate == old(self).immediate,
    {
        let ghost cv = changes_view(self.changes@);
        let mut critical: Vec<StateChange> = Vec::new();
        let mut high: Vec<StateChange> = Vec::new();
        let mut normal: Vec<StateChange> = Vec::new();
        let mut low: Vec<StateChange> = Vec::new();
        let mut rest: Vec<StateChange> = Vec::new();
        std::mem::swap(&mut rest, &mut self.changes);
        assert(changes_view(rest@) == cv);
        let mut i: usize = 0;
        let n = rest.len();
        while rest.len() > 0
            invariant
                i + rest@.len() == n,
                cv.len() == n,
                changes_view(rest@) == cv.skip(i as int),
                changes_view(critical@) == of_priority(cv.take(i as int), ChangePriority::Critical),
                changes_view(high@) == of_priority(cv.take(i as int), ChangePriority::High),
                changes_view(normal@) == of_priority(cv.take(i as int), ChangePriority::Normal),
                changes_view(low@) == of_priority(cv.take(i as int), ChangePriority::Low),
                self.batch_timestamp == old(self).batch_timestamp,
                self.immediate == old(self).immediate,
            decreases rest@.len(),
        {
            let ghost r0 = rest@;
            let c = rest.remove(0);
            assert(change_view(c) == cv[i as int]) by {
                assert(changes_view(r0)[0] == cv.skip(i as int)[0]);
            }
            assert(changes_view(rest@) =~= cv.skip(i + 1)) by {
                assert forall|j: int| 0 <= j < rest@.len() implies changes_view(rest@)[j] == cv.skip(i + 1)[j] by {
                    assert(changes_view(r0)[j + 1] == cv.skip(i as int)[j + 1]);
                }
            }
            assert(cv.take(i + 1).drop_last() =~= cv.take(i as int));
            proof {
                reveal(Seq::filter);
            }
            let ghost (c0, h0, n0, l0) = (critical@, high@, normal@, low@);
            match c.priority {
                ChangePriority::Critical => {
                    critical.push(c);
                    assert(changes_view(critical@) =~= changes_view(c0).push(change_view(c)));
                },
                ChangePriority::High => {
                    high.push(c);
                    assert(changes_view(high@) =~= changes_view(h0).push(change_view(c)));
                },
                ChangePriority::Normal => {
                    normal.push(c);
                    assert(changes_view(normal@) =~= changes_view(n0).push(change_view(c)));
                },
                ChangePriority::Low => {
                    low.push(c);
                    assert(changes_view(low@) =~= changes_view(l0).push(change_view(c)));
                },
            }
            i = i + 1;
        }
        assert(cv.take(i as int) =~= cv);
        let ghost (c0, h0, n0, l0) = (changes_view(critical@), changes_view(high@), changes_view(normal@), changes_view(low@));
        critical.append(&mut high);
        critical.append(&mut normal);
        critical.append(&mut low);
        assert(changes_view(critical@) =~= c0 + h0 + n0 + l0);
        self.changes = critical;
    }
}

// ---------------------------------------------------------------------
// Snapshots
// ---------------------------------------------------------------------

/// Options of change tracking.
#[derive(Debug, Clone)]
pub struct StateTrackingConfig {
    /// How long changes may wait in a batch before it is flushed.
    pub max_batch_time: Duration,
    /// How many changes a batch holds before it is flushed.
    pub max_batch_size: usize,
    /// Whether objects and arrays are compared deeply.
    pub deep_comparison: bool,
    /// The least time between two snapshots.
    pub snapshot_throttle: Duration,
}

impl Default for StateTrackingConfig {
    /// Batches of at most 50 changes or 16 ms, deep comparison, at most
    /// one snapshot per millisecond.
    fn default() -> (r: Self)
        ensures
            duration_nanos(r.max_batch_time) == 16_000_000,
            r.max_batch_size == 50,
            r.deep_comparison,
            duration_nanos(r.snapshot_throttle) == 1_000_000,
    {
        StateTrackingConfig {
            max_batch_time: duration_from_millis(16),
            max_batch_size: 50,
            deep_comparison: true,
            snapshot_throttle: duration_from_millis(1),
        }
    }
}

/// The state of a component at one moment.
#[derive(Debug)]
pub struct StateSnapshot {
    /// When the snapshot was taken.
    pub timestamp: Instant,
    /// A hash of the fields, for quick comparison: it does not depend on
    /// the order the fields are listed in (`state_hash`).
    pub state_hash: u64,
    /// The named state fields.
    pub fields: Vec<(String, StateValue)>,
}

impl StateSnapshot {
    /// A snapshot of the given fields, taken now.
    pub fn new(fields: Vec<(String, StateValue)>) -> (r: Self)
        ensures
            r.fields == fields,
            r.state_hash == default_hash_of(fields_bytes(fields@)),
    {
        let state_hash = state_hash(&fields);
        StateSnapshot { timestamp: instant_now(), state_hash, fields }
    }

    /// The changes from this snapshot to `other` (`diff_changes`), all
    /// stamped now.
    pub fn diff(&self, other: &StateSnapshot) -> (r: Vec<StateChange>)
        ensures
            changes_view(r@) == diff_changes(self.fields@, other.fields@),
    {
        let now = instant_now();
        let mut changes: Vec<StateChange> = Vec::new();
        let ghost old_fields = self.fields@;
        let ghost new_fields = other.fields@;
        let mut i: usize = 0;
        while i < other.fields.len()
            invariant
                i <= new_fields.len(),
                old_fields == self.fields@,
                new_fields == other.fields@,
                changes_view(changes@) == modified_fields(old_fields, new_fields, i as int),
            decreases new_fields.len() - i,
        {
            let name = &other.fields[i].0;
            let value = &other.fields[i].1;
            let ghost c0 = changes@;
            match find_entry(&self.fields, name) {
                Some(j) => {
                    if !values_equal(&self.fields[j].1, value) {
                        let c = make_change(name, Some(copy_value(&self.fields[j].1)), copy_value(value), now);
                        changes.push(c);
                        assert(changes_view(changes@) =~= changes_view(c0).push(change_view(c)));
                    }
                },
                None => {
                    let c = make_change(name, None, copy_value(value), now);
                    changes.push(c);
                    assert(changes_view(changes@) =~= changes_view(c0).push(change_view(c)));
                },
            }
            i = i + 1;
        }
        let ghost modified = changes_view(changes@);
        let mut k: usize = 0;
        while k < self.fields.len()
            invariant
                k <= old_fields.len(),
                old_fields == self.fields@,
                new_fields == other.fields@,
                modified == modified_fields(old_fields, new_fields, new_fields.len() as int),
                changes_view(changes@) == modified + removed_fields(old_fields, new_fields, k as int),
            decreases old_fields.len() - k,
        {
            let name = &self.fields[k].0;
            let ghost c0 = changes@;
            if find_entry(&other.fields, name).is_none() {
                let c = make_change(name, Some(copy_value(&self.fields[k].1)), StateValue::Null, now);
                changes.push(c);
                assert(changes_view(changes@) =~= changes_view(c0).push(change_view(c)));
            }
            k = k + 1;
        }
        changes
    }
}

// ---------------------------------------------------------------------
// Tracking
// ---------------------------------------------------------------------

/// Tracks the state changes of a component: keeps the last two snapshots,
/// batches changes and flags changed fields as dirty.
pub struct StateTracker {
    component_id: ComponentId,
    previous_state: Option<StateSnapshot>,
    current_state: Option<StateSnapshot>,
    change_batch: Vec<StateChange>,
    dirty_fields: Vec<(String, bool)>,
    config: StateTrackingConfig,
}

/// The dirty flags after flagging the fields of some changes, in order.
pub open spec fn flag_all(d: Seq<(Seq<char>, bool)>, cs: Seq<ChangeView>) -> Seq<(Seq<char>, bool)>
    decreases cs.len(),
{
    if cs.len() == 0 {
        d
    } else {
        set_pair(flag_all(d, cs.drop_last()), cs.last().0, true)
    }
}

/// The (name, flag) contents of dirty flags.
pub open spec fn flags_view(d: Seq<(String, bool)>) -> Seq<(Seq<char>, bool)> {
    Seq::new(d.len(), |i: int| (d[i].0@, d[i].1))
}

/// Sets the flag of `name`.
fn set_flag(flags: &mut Vec<(String, bool)>, name: String, flag: bool)
    ensures
        flags_view(final(flags)@) == set_pair(flags_view(old(flags)@), name@, flag),
{
    let ghost v0 = flags_view(flags@);
    let ghost key = name@;
    let mut i: usize = 0;
    while i < flags.len()
        invariant
            flags@ == old(flags)@,
            v0 == flags_view(flags@),
            key == name@,
            i <= flags@.len(),
            forall|j: int| 0 <= j < i ==> v0[j].0 != key,
        decreases flags@.len() - i,
    {
        assert(v0[i as int].0 == flags@[i as int].0@);
        if flags[i].0 == name {
            proof {
                lemma_key_index_at(v0, key, i as int);
            }
            flags.set(i, (name, flag));
            assert(flags_view(flags@) =~= v0.update(i as int, (key, flag)));
            return;
        }
        i = i + 1;
    }
    flags.push((name, flag));
    assert(flags_view(flags@) =~= v0.push((key, flag)));
}

/// The flag of `name`, false when it has none.
pub open spec fn flag_of(d: Seq<(Seq<char>, bool)>, name: Seq<char>) -> bool {
    match key_index(d, name) {
        Some(i) => d[i].1,
        None => false,
    }
}

impl StateTracker {
    /// The component tracked.
    pub closed spec fn spec_component(&self) -> ComponentId {
        self.component_id
    }

    /// The snapshot before the current one.
    pub closed spec fn previous(&self) -> Option<StateSnapshot> {
        self.previous_state
    }

    /// The current snapshot.
    pub closed spec fn current(&self) -> Option<StateSnapshot> {
        self.current_state
    }

    /// The changes waiting in the batch.
    pub closed spec fn batch(&self) -> Seq<ChangeView> {
        changes_view(self.change_batch@)
    }

    /// The dirty flags of the fields.
    pub closed spec fn flags(&self) -> Seq<(Seq<char>, bool)> {
        flags_view(self.dirty_fields@)
    }

    /// The tracking options.
    pub closed spec fn spec_config(&self) -> StateTrackingConfig {
        self.config
    }

    /// A tracker of a component with the given options; nothing recorded.
    pub fn new(component_id: ComponentId, config: StateTrackingConfig) -> (r: Self)
        ensures
            r.spec_component() == component_id,
            r.spec_config() == config,
            r.previous() is None,
            r.current() is None,
            r.batch().len() == 0,
            r.flags().len() == 0,
    {
        let r = StateTracker {
            component_id,
            previous_state: None,
            current_state: None,
            change_batch: Vec::new(),
            dirty_fields: Vec::new(),
            config,
        };
        assert(r.batch() =~= Seq::<ChangeView>::empty());
        assert(r.flags() =~= Seq::<(Seq<char>, bool)>::empty());
        r
    }

    /// A tracker with the default options.
    pub fn new_default(component_id: ComponentId) -> (r: Self)
        ensures
            r.spec_component() == component_id,
            r.spec_config().max_batch_size == 50,
            r.previous() is None,
            r.current() is None,
            r.batch().len() == 0,
            r.flags().len() == 0,
    {
        StateTracker::new(component_id, StateTrackingConfig::default())
    }

    /// Whether the batch is due: it holds changes and is full, or its
    /// oldest change waited long enough (the clock decides), or it holds a
    /// critical change.
    fn should_flush_batch(&self) -> (r: bool)
        ensures
            self.batch().len() == 0 ==> !r,
            self.batch().len() > 0 && self.batch().len() >= self.spec_config().max_batch_size ==> r,
            self.batch().len() > 0 && (exists|i: int| 0 <= i < self.batch().len() && self.batch()[i].3
                == ChangePriority::Critical) ==> r,
    {
        if self.change_batch.len() == 0 {
            return false;
        }
        if self.change_batch.len() >= self.config.max_batch_size {
            return true;
        }
        let waited = instant_elapsed(&self.change_batch[0].timestamp);
        if duration_as_nanos(&waited) >= duration_as_nanos(&self.config.max_batch_time) {
            return true;
        }
        let mut i: usize = 0;
        while i < self.change_batch.len()
            invariant
                i <= self.change_batch@.len(),
                forall|j: int| 0 <= j < i ==> self.batch()[j].3 != ChangePriority::Critical,
            decreases self.change_batch@.len() - i,
        {
            assert(self.batch()[i as int].3 == self.change_batch@[i as int].priority);
            if self.change_batch[i].priority == ChangePriority::Critical {
                return true;
            }
            i = i + 1;
        }
        false
    }

    /// Takes the batch out: its changes, stamped now, not immediate.
    pub fn flush_batch(&mut self) -> (r: StateChanges)
        ensures
            changes_view(r.changes@) == old(self).batch(),
            !r.immediate,
            final(self).batch().len() == 0,
            final(self).flags() == old(self).flags(),
            final(self).current() == old(self).current(),
            final(self).previous() == old(self).previous(),
            final(self).spec_component() == old(self).spec_component(),
            final(self).spec_config() == old(self).spec_config(),
    {
        let mut changes: Vec<StateChange> = Vec::new();
        std::mem::swap(&mut changes, &mut self.change_batch);
        assert(self.batch() =~= Seq::<ChangeView>::empty());
        StateChanges { changes, batch_timestamp: instant_now(), immediate: false }
    }

    /// The changes recording `new_fields` brings: against the current
    /// snapshot, or all fields when there is none.
    pub open spec fn changes_for(old: Self, new_fields: Seq<(String, StateValue)>) -> Seq<ChangeView> {
        match old.current() {
            Some(cur) => diff_changes(cur.fields@, new_fields),
            None => fresh_fields(new_fields, new_fields.len() as int),
        }
    }

    /// Recording `new_fields` left everything as it was.
    pub open spec fn state_kept(old: Self, new: Self, r: Result<Option<StateChanges>, ComponentError>) -> bool {
        &&& r matches Ok(None)
        &&& new.current() == old.current()
        &&& new.previous() == old.previous()
        &&& new.batch() == old.batch()
        &&& new.flags() == old.flags()
    }

    /// Recording `new_fields` made them the current snapshot, flagged and
    /// batched their changes, and returned the batch when it was due.
    pub open spec fn state_recorded(
        old: Self,
        new: Self,
        new_fields: Seq<(String, StateValue)>,
        r: Result<Option<StateChanges>, ComponentError>,
    ) -> bool {
        let cs = Self::changes_for(old, new_fields);
        let batch = old.batch() + cs;
        &&& new.previous() == old.current()
        &&& new.current() matches Some(c) && c.fields@ == new_fields
        &&& new.flags() == flag_all(old.flags(), cs)
        &&& r matches Ok(Some(out)) ==> changes_view(out.changes@) == batch && new.batch().len() == 0
        &&& r matches Ok(None) ==> new.batch() == batch
        &&& r is Ok
        &&& batch.len() > 0 && batch.len() >= old.spec_config().max_batch_size ==> r matches Ok(Some(_))
    }

    /// A snapshot taken `since` after the current one is too early: there
    /// is a current snapshot and less than the throttle has passed.
    pub open spec fn throttled(old: Self, since: Duration) -> bool {
        old.current() is Some && duration_nanos(since) < duration_nanos(old.spec_config().snapshot_throttle)
    }

    /// What `update_state` does with `new_fields`, whatever the clock says.
    pub open spec fn update_state_post(
        old: Self,
        new: Self,
        new_fields: Seq<(String, StateValue)>,
        r: Result<Option<StateChanges>, ComponentError>,
    ) -> bool {
        &&& new.spec_component() == old.spec_component()
        &&& new.spec_config() == old.spec_config()
        &&& {
            ||| old.current() is Some && Self::state_kept(old, new, r)
            ||| Self::state_recorded(old, new, new_fields, r)
        }
    }

    /// Records new state fields, with the time since the current snapshot
    /// read from the clock: `record_snapshot` of a snapshot of them.
    pub fn update_state(&mut self, new_fields: Vec<(String, StateValue)>) -> (r: Result<
        Option<StateChanges>,
        ComponentError,
    >)
        ensures
            Self::update_state_post(*old(self), *final(self), new_fields@, r),
    {
        let snapshot = StateSnapshot::new(new_fields);
        let since = match &self.current_state {
            Some(current) => instant_duration_since(&snapshot.timestamp, &current.timestamp),
            None => duration_zero(),
        };
        self.record_snapshot(snapshot, since)
    }

    /// Records a snapshot taken `since` after the current one. When that
    /// is less than the throttle, nothing happens. Otherwise its fields
    /// become the current snapshot (the old one becomes the previous),
    /// their changes (against the old snapshot, or all fields when there
    /// was none) are flagged dirty and added to the batch, and the batch
    /// is returned (and emptied) when it is due.
    pub fn record_snapshot(&mut self, snapshot: StateSnapshot, since: Duration) -> (r: Result<
        Option<StateChanges>,
        ComponentError,
    >)
        ensures
            final(self).spec_component() == old(self).spec_component(),
            final(self).spec_config() == old(self).spec_config(),
            Self::throttled(*old(self), since) ==> Self::state_kept(*old(self), *final(self), r),
            !Self::throttled(*old(self), since) ==> Self::state_recorded(
                *old(self),
                *final(self),
                snapshot.fields@,
                r,
            ),
    {
        let throttled = match &self.current_state {
            Some(current) => duration_as_nanos(&since) < duration_as_nanos(&self.config.snapshot_throttle),
            None => false,
        };
        if throttled {
            return Ok(None);
        }
        let ghost new_fields = snapshot.fields@;
        let changes = match &self.current_state {
            Some(previous) => previous.diff(&snapshot),
            None => {
                let mut fresh: Vec<StateChange> = Vec::new();
                let now = snapshot.timestamp;
                let mut i: usize = 0;
                while i < snapshot.fields.len()
                    invariant
                        i <= snapshot.fields@.len(),
                        changes_view(fresh@) == fresh_fields(snapshot.fields@, i as int),
                    decreases snapshot.fields@.len() - i,
                {
                    let ghost f0 = fresh@;
                    let c = make_change(&snapshot.fields[i].0, None, copy_value(&snapshot.fields[i].1), now);
                    fresh.push(c);
                    assert(changes_view(fresh@) =~= changes_view(f0).push(change_view(c)));
                    i = i + 1;
                }
                fresh
            },
        };
        let ghost cs = changes_view(changes@);
        let ghost flags0 = self.flags();
        let ghost batch0 = self.batch();
        self.previous_state = self.current_state.take();
        self.current_state = Some(snapshot);
        let mut rest = changes;
        let mut done: usize = 0;
        let total = rest.len();
        while rest.len() > 0
            invariant
                done + rest@.len() == total,
                cs.len() == total,
                changes_view(rest@) == cs.skip(done as int),
                self.flags() == flag_all(flags0, cs.take(done as int)),
                self.batch() == batch0 + cs.take(done as int),
                self.component_id == old(self).component_id,
                self.config == old(self).config,
                self.previous_state == old(self).current_state,
                self.current_state matches Some(c) && c.fields@ == new_fields,
            decreases rest@.len(),
        {
            let ghost r0 = rest@;
            let change = rest.remove(0);
            assert(change_view(change) == cs[done as int]) by {
                assert(changes_view(r0)[0] == cs.skip(done as int)[0]);
            }
            assert(changes_view(rest@) =~= cs.skip(done + 1)) by {
                assert forall|j: int| 0 <= j < rest@.len() implies changes_view(rest@)[j] == cs.skip(done + 1)[j] by {
                    assert(changes_view(r0)[j + 1] == cs.skip(done as int)[j + 1]);
                }
            }
            assert(cs.take(done + 1).drop_last() =~= cs.take(done as int));
            set_flag(&mut self.dirty_fields, change.field_name.clone(), true);
            let ghost b0 = self.change_batch@;
            self.change_batch.push(change);
            assert(self.batch() =~= changes_view(b0).push(change_view(change)));
            assert(batch0 + cs.take(done + 1) =~= (batch0 + cs.take(done as int)).push(cs[done as int]));
            done = done + 1;
        }
        assert(cs.take(total as int) =~= cs);
        if self.should_flush_batch() {
            Ok(Some(self.flush_batch()))
        } else {
            Ok(None)
        }
    }

    /// Whether a field is flagged dirty.
    pub fn is_field_dirty(&self, field_name: &str) -> (r: bool)
        ensures
            r == flag_of(self.flags(), field_name@),
    {
        let wanted = chars_of(field_name);
        let ghost d = self.flags();
        let mut i: usize = 0;
        while i < self.dirty_fields.len()
            invariant
                i <= self.dirty_fields@.len(),
                d == self.flags(),
                d == flags_view(self.dirty_fields@),
                wanted@ == field_name@,
                forall|j: int| 0 <= j < i ==> d[j].0 != field_name@,
            decreases self.dirty_fields@.len() - i,
        {
            let name = chars_of(self.dirty_fields[i].0.as_str());
            assert(d[i as int].0 == self.dirty_fields@[i as int].0@);
            if crate::text::eq_chars(name.as_slice(), wanted.as_slice()) {
                proof {
                    lemma_key_index_at(d, field_name@, i as int);
                }
                return self.dirty_fields[i].1;
            }
            i = i + 1;
        }
        false
    }

    /// Flags a field as clean.
    pub fn mark_field_clean(&mut self, field_name: &str)
        ensures
            final(self).flags() == set_pair(old(self).flags(), field_name@, false),
            final(self).batch() == old(self).batch(),
            final(self).current() == old(self).current(),
            final(self).previous() == old(self).previous(),
            final(self).spec_component() == old(self).spec_component(),
            final(self).spec_config() == old(self).spec_config(),
    {
        set_flag(&mut self.dirty_fields, field_name.to_owned(), false);
    }

    /// The fields flagged dirty, in the order they were first flagged.
    pub fn get_dirty_fields(&self) -> (r: Vec<String>)
        ensures
            r@.len() == self.flags().filter(|f: (Seq<char>, bool)| f.1).len(),
            forall|i: int| 0 <= i < r@.len() ==> r@[i]@ == self.flags().filter(|f: (Seq<char>, bool)| f.1)[i].0,
    {
        let ghost pred = |f: (Seq<char>, bool)| f.1;
        let ghost d = self.flags();
        let mut r: Vec<String> = Vec::new();
        let mut i: usize = 0;
        while i < self.dirty_fields.len()
            invariant
                i <= self.dirty_fields@.len(),
                d == self.flags(),
                d == flags_view(self.dirty_fields@),
                pred == (|f: (Seq<char>, bool)| f.1),
                r@.len() == d.take(i as int).filter(pred).len(),
                forall|j: int| 0 <= j < r@.len() ==> r@[j]@ == d.take(i as int).filter(pred)[j].0,
            decreases self.dirty_fields@.len() - i,
        {
            assert(d.take(i + 1).drop_last() =~= d.take(i as int));
            proof {
                reveal(Seq::filter);
            }
            assert(d[i as int] == (self.dirty_fields@[i as int].0@, self.dirty_fields@[i as int].1));
            if self.dirty_fields[i].1 {
                r.push(self.dirty_fields[i].0.clone());
                assert(d.take(i + 1).filter(pred) == d.take(i as int).filter(pred).push(d[i as int]));
            } else {
                assert(d.take(i + 1).filter(pred) == d.take(i as int).filter(pred));
            }
            i = i + 1;
        }
        assert(d.take(self.dirty_fields@.len() as int) =~= d);
        r
    }

    /// Whether some field is flagged dirty.
    pub fn has_dirty_fields(&self) -> (r: bool)
        ensures
            r == exists|i: int| 0 <= i < self.flags().len() && self.flags()[i].1,
    {
        let mut i: usize = 0;
        while i < self.dirty_fields.len()
            invariant
                i <= self.dirty_fields@.len(),
                forall|j: int| 0 <= j < i ==> !self.flags()[j].1,
            decreases self.dirty_fields@.len() - i,
        {
            assert(self.flags()[i as int].1 == self.dirty_fields@[i as int].1);
            if self.dirty_fields[i].1 {
                return true;
            }
            i = i + 1;
        }
        false
    }

    /// The component tracked.
    pub fn component_id(&self) -> (r: ComponentId)
        ensures
            r == self.spec_component(),
    {
        self.component_id
    }

    /// The current snapshot.
    pub fn current_snapshot(&self) -> (r: Option<&StateSnapshot>)
        ensures
            match r {
                Some(s) => self.current() == Some(*s),
                None => self.current() is None,
            },
    {
        self.current_state.as_ref()
    }

    /// The previous snapshot.
    pub fn previous_snapshot(&self) -> (r: Option<&StateSnapshot>)
        ensures
            match r {
                Some(s) => self.previous() == Some(*s),
                None => self.previous() is None,
            },
    {
        self.previous_state.as_ref()
    }

    /// Forgets the snapshots, the batch and the flags.
    pub fn clear(&mut self)
        ensures
            final(self).previous() is None,
            final(self).current() is None,
            final(self).batch().len() == 0,
            final(self).flags().len() == 0,
            final(self).spec_component() == old(self).spec_component(),
            final(self).spec_config() == old(self).spec_config(),
    {
        self.previous_state = None;
        self.current_state = None;
        self.change_batch.clear();
        self.dirty_fields.clear();
        assert(self.batch() =~= Seq::<ChangeView>::empty());
        assert(self.flags() =~= Seq::<(Seq<char>, bool)>::empty());
    }
}

} // verus!
