//! Performance hooks: a memoization cache with least-used eviction and
//! expiry, and a monitor of render, update and mount times.
use vstd::prelude::*;
use std::time::{Duration, Instant};
use crate::component::ComponentId;
use crate::component::state_tracking::StateChanges;
use crate::time::{
    duration_add, duration_as_nanos, duration_div, duration_nanos, duration_quotient,
    duration_zero, instant_elapsed, instant_now, max_duration_nanos,
};

verus! {

// ---------------------------------------------------------------------
// Memoization
// ---------------------------------------------------------------------

/// Components whose rendering can be memoized by a key.
pub trait Memoizable {
    /// The key that identifies a rendering.
    type MemoKey: Eq + Clone;

    /// The key of the current rendering.
    fn memo_key(&self) -> Self::MemoKey;

    /// Whether a change of key calls for a new rendering.
    fn should_memo_update(&self, old_key: &Self::MemoKey, new_key: &Self::MemoKey) -> bool;
}

/// Keys of a memoization cache: values that can be told apart by their
/// view.
pub trait CacheKey: View + Sized {
    /// Whether two keys are the same key.
    fn same_key(&self, other: &Self) -> (r: bool)
        ensures
            r == (self@ == other@),
    ;
}

impl CacheKey for String {
    fn same_key(&self, other: &Self) -> (r: bool) {
        *self == *other
    }
}

impl CacheKey for u64 {
    fn same_key(&self, other: &Self) -> (r: bool) {
        *self == *other
    }
}

/// A cached value, when it was stored, and how often it was used.
#[derive(Clone)]
struct CacheEntry<V> {
    value: V,
    created_at: Instant,
    access_count: u64,
}

/// A memoization cache of bounded size whose entries expire after a
/// time to live. The entries are kept from least to most recently used
/// (stored or read); when the cache is full, storing evicts the least
/// recently used one.
pub struct MemoCache<K, V> {
    entries: Vec<(K, CacheEntry<V>)>,
    max_size: usize,
    ttl: Duration,
}

/// What the cache holds: key, value and use count of each entry.
pub type CacheSlot<KV, V> = (KV, V, u64);

/// The position of the entry with key `k`, if any.
pub open spec fn slot_of<KV, V>(es: Seq<CacheSlot<KV, V>>, k: KV) -> Option<int> {
    if exists|i: int| 0 <= i < es.len() && es[i].0 == k {
        Some(choose|i: int| 0 <= i < es.len() && es[i].0 == k)
    } else {
        None
    }
}

/// No key occurs twice.
pub open spec fn distinct_keys<KV, V>(es: Seq<CacheSlot<KV, V>>) -> bool {
    forall|i: int, j: int| 0 <= i < j < es.len() ==> es[i].0 != es[j].0
}

/// The entry with key `k` in entries without repeated keys is the one
/// found at its position.
pub proof fn lemma_slot_of_at<KV, V>(es: Seq<CacheSlot<KV, V>>, k: KV, i: int)
    requires
        distinct_keys(es),
        0 <= i < es.len(),
        es[i].0 == k,
    ensures
        slot_of(es, k) == Some(i),
{
    let j = choose|j: int| 0 <= j < es.len() && es[j].0 == k;
    if j < i {
        assert(es[j].0 != es[i].0);
    } else if i < j {
        assert(es[i].0 != es[j].0);
    }
}

/// The entries after storing `v` under `k` with one use: the entry with
/// that key, if any, leaves its place, and the new one becomes the most
/// recently used, at the end.
pub open spec fn put_slot<KV, V>(es: Seq<CacheSlot<KV, V>>, k: KV, v: V) -> Seq<CacheSlot<KV, V>> {
    match slot_of(es, k) {
        Some(i) => es.remove(i).push((k, v, 1u64)),
        None => es.push((k, v, 1u64)),
    }
}

/// Removing an entry keeps the keys distinct and every other entry
/// findable.
proof fn lemma_remove_slot<KV, V>(es: Seq<CacheSlot<KV, V>>, i: int)
    requires
        distinct_keys(es),
        0 <= i < es.len(),
    ensures
        distinct_keys(es.remove(i)),
        forall|k: KV| k != es[i].0 ==> #[trigger] slot_of(es.remove(i), k) == match slot_of(es, k) {
            Some(j) => Some(if j < i { j } else { j - 1 }),
            None => None,
        },
        slot_of(es.remove(i), es[i].0) is None,
{
    let r = es.remove(i);
    assert forall|a: int, b: int| 0 <= a < b < r.len() implies r[a].0 != r[b].0 by {
        let a0 = if a < i { a } else { a + 1 };
        let b0 = if b < i { b } else { b + 1 };
        assert(r[a] == es[a0] && r[b] == es[b0]);
    }
    assert forall|k: KV| k != es[i].0 implies #[trigger] slot_of(r, k) == match slot_of(es, k) {
        Some(j) => Some(if j < i { j } else { j - 1 }),
        None => None,
    } by {
        match slot_of(es, k) {
            Some(j) => {
                assert(es[j].0 == k);
                lemma_slot_of_at(es, k, j);
                let j1 = if j < i { j } else { j - 1 };
                assert(r[j1] == es[j]);
                lemma_slot_of_at(r, k, j1);
            },
            None => {
                if exists|x: int| 0 <= x < r.len() && r[x].0 == k {
                    let x = choose|x: int| 0 <= x < r.len() && r[x].0 == k;
                    let x0 = if x < i { x } else { x + 1 };
                    assert(es[x0].0 == k);
                }
            },
        }
    }
    if exists|x: int| 0 <= x < r.len() && r[x].0 == es[i].0 {
        let x = choose|x: int| 0 <= x < r.len() && r[x].0 == es[i].0;
        let x0 = if x < i { x } else { x + 1 };
        assert(es[x0].0 == es[i].0);
    }
}

/// Adding an entry with a new key at the end keeps the keys distinct;
/// there it is found.
proof fn lemma_push_slot<KV, V>(es: Seq<CacheSlot<KV, V>>, e: CacheSlot<KV, V>)
    requires
        distinct_keys(es),
        slot_of(es, e.0) is None,
    ensures
        distinct_keys(es.push(e)),
        slot_of(es.push(e), e.0) == Some(es.len() as int),
        forall|k: KV| k != e.0 ==> #[trigger] slot_of(es.push(e), k) == slot_of(es, k),
{
    let r = es.push(e);
    assert forall|j: int| 0 <= j < es.len() implies es[j].0 != e.0 by {}
    lemma_slot_of_at(r, e.0, es.len() as int);
    assert forall|k: KV| k != e.0 implies #[trigger] slot_of(r, k) == slot_of(es, k) by {
        match slot_of(es, k) {
            Some(j) => {
                lemma_slot_of_at(es, k, j);
                lemma_slot_of_at(r, k, j);
            },
            None => {
                if exists|x: int| 0 <= x < r.len() && r[x].0 == k {
                    let x = choose|x: int| 0 <= x < r.len() && r[x].0 == k;
                    assert(es[x].0 == k);
                }
            },
        }
    }
}

/// After storing `v` under `k`, the entries hold `v` under `k` with one
/// use, as the most recently used, still hold each other key with its
/// value and use count, and no key occurs twice.
pub proof fn law_put_then_find<KV, V>(es: Seq<CacheSlot<KV, V>>, k: KV, v: V)
    requires
        distinct_keys(es),
    ensures
        distinct_keys(put_slot(es, k, v)),
        slot_of(put_slot(es, k, v), k) == Some(put_slot(es, k, v).len() - 1),
        put_slot(es, k, v).last() == (k, v, 1u64),
        forall|j: int|
            0 <= j < es.len() && es[j].0 != k ==> (#[trigger] slot_of(put_slot(es, k, v), es[j].0)
                matches Some(i) && put_slot(es, k, v)[i] == es[j]),
{
    match slot_of(es, k) {
        Some(i) => {
            assert(es[i].0 == k);
            lemma_remove_slot(es, i);
            lemma_push_slot(es.remove(i), (k, v, 1u64));
            assert forall|j: int| 0 <= j < es.len() && es[j].0 != k implies (#[trigger] slot_of(
                put_slot(es, k, v),
                es[j].0,
            ) matches Some(x) && put_slot(es, k, v)[x] == es[j]) by {
                lemma_slot_of_at(es, es[j].0, j);
                let j1 = if j < i { j } else { j - 1 };
                assert(es.remove(i)[j1] == es[j]);
            }
        },
        None => {
            lemma_push_slot(es, (k, v, 1u64));
            assert forall|j: int| 0 <= j < es.len() && es[j].0 != k implies (#[trigger] slot_of(
                put_slot(es, k, v),
                es[j].0,
            ) matches Some(x) && put_slot(es, k, v)[x] == es[j]) by {
                lemma_slot_of_at(es, es[j].0, j);
            }
        },
    }
}

impl<K: CacheKey, V: Clone> MemoCache<K, V> {
    /// The entries: key, value and use count.
    pub closed spec fn slots(&self) -> Seq<CacheSlot<K::V, V>> {
        Seq::new(
            self.entries@.len(),
            |i: int| (self.entries@[i].0@, self.entries@[i].1.value, self.entries@[i].1.access_count),
        )
    }

    /// The most entries the cache is meant to hold.
    pub closed spec fn capacity(&self) -> usize {
        self.max_size
    }

    /// How long an entry stays valid.
    pub closed spec fn time_to_live(&self) -> Duration {
        self.ttl
    }

    /// Well-formed: no key occurs twice.
    pub open spec fn wf(&self) -> bool {
        distinct_keys(self.slots())
    }

    /// An empty cache holding at most `max_size` entries (at least one once
    /// something is stored), each valid for `ttl`.
    pub fn new(max_size: usize, ttl: Duration) -> (r: Self)
        ensures
            r.wf(),
            r.slots().len() == 0,
            r.capacity() == max_size,
            r.time_to_live() == ttl,
    {
        let r = MemoCache { entries: Vec::new(), max_size, ttl };
        assert(r.slots() =~= Seq::<CacheSlot<K::V, V>>::empty());
        r
    }

    /// The position of the entry with the given key.
    fn position(&self, key: &K) -> (r: Option<usize>)
        requires
            self.wf(),
        ensures
            match r {
                Some(i) => i < self.slots().len() && self.slots()[i as int].0 == key@
                    && slot_of(self.slots(), key@) == Some(i as int),
                None => slot_of(self.slots(), key@) is None,
            },
    {
        let mut i: usize = 0;
        while i < self.entries.len()
            invariant
                i <= self.entries@.len(),
                self.slots().len() == self.entries@.len(),
                distinct_keys(self.slots()),
                forall|j: int| 0 <= j < i ==> self.slots()[j].0 != key@,
            decreases self.entries@.len() - i,
        {
            if self.entries[i].0.same_key(key) {
                proof {
                    lemma_slot_of_at(self.slots(), key@, i as int);
                }
                return Some(i);
            }
            i = i + 1;
        }
        None
    }

    /// The value stored under `key` when its entry is `age` old: a live
    /// entry (younger than the time to live) counts one more use and
    /// becomes the most recently used; an expired one is removed.
    pub fn get_at(&mut self, key: &K, age: Duration) -> (r: Option<V>)
        requires
            old(self).wf(),
            slot_of(old(self).slots(), key@) matches Some(i) ==> old(self).slots()[i].2 < u64::MAX,
        ensures
            final(self).wf(),
            final(self).capacity() == old(self).capacity(),
            final(self).time_to_live() == old(self).time_to_live(),
            match slot_of(old(self).slots(), key@) {
                None => r is None && final(self).slots() == old(self).slots(),
                Some(i) => {
                    let s = old(self).slots()[i];
                    if duration_nanos(age) < duration_nanos(old(self).time_to_live()) {
                        r matches Some(v) && cloned(s.1, v) && final(self).slots() == old(self).slots().remove(
                            i,
                        ).push((s.0, s.1, (s.2 + 1) as u64))
                    } else {
                        r is None && final(self).slots() == old(self).slots().remove(i)
                    }
                },
            },
    {
        match self.position(key) {
            None => None,
            Some(i) => {
                let ghost before = self.slots();
                proof {
                    lemma_remove_slot(before, i as int);
                }
                let age_nanos = duration_as_nanos(&age);
                let ttl_nanos = duration_as_nanos(&self.ttl);
                let (k, mut entry) = self.entries.remove(i);
                assert(self.slots() =~= before.remove(i as int));
                if age_nanos < ttl_nanos {
                    entry.access_count = entry.access_count + 1;
                    let v = entry.value.clone();
                    self.entries.push((k, entry));
                    proof {
                        lemma_push_slot(before.remove(i as int), (before[i as int].0, before[i as int].1, (before[i as int].2 + 1) as u64));
                    }
                    assert(self.slots() =~= before.remove(i as int).push(
                        (before[i as int].0, before[i as int].1, (before[i as int].2 + 1) as u64),
                    ));
                    Some(v)
                } else {
                    None
                }
            },
        }
    }

    /// The value stored under `key`, if it has not expired: `get_at` with
    /// the age of its entry, read from the clock.
    pub fn get(&mut self, key: &K) -> (r: Option<V>)
        requires
            old(self).wf(),
            slot_of(old(self).slots(), key@) matches Some(i) ==> old(self).slots()[i].2 < u64::MAX,
        ensures
            final(self).wf(),
            final(self).capacity() == old(self).capacity(),
            final(self).time_to_live() == old(self).time_to_live(),
            match slot_of(old(self).slots(), key@) {
                None => r is None && final(self).slots() == old(self).slots(),
                Some(i) => {
                    let s = old(self).slots()[i];
                    ||| r matches Some(v) && cloned(s.1, v) && final(self).slots() == old(self).slots().remove(
                        i,
                    ).push((s.0, s.1, (s.2 + 1) as u64))
                    ||| r is None && final(self).slots() == old(self).slots().remove(i)
                },
            },
    {
        match self.position(key) {
            None => None,
            Some(i) => {
                let age = instant_elapsed(&self.entries[i].1.created_at);
                self.get_at(key, age)
            },
        }
    }

    /// Stores `value` under `key` with one use, as the most recently used
    /// entry. When the cache already holds `capacity` entries or more, the
    /// least recently used entry (the first) is evicted first.
    pub fn set(&mut self, key: K, value: V)
        requires
            old(self).wf(),
        ensures
            final(self).wf(),
            final(self).capacity() == old(self).capacity(),
            final(self).time_to_live() == old(self).time_to_live(),
            old(self).slots().len() >= old(self).capacity() && old(self).slots().len() > 0
                ==> final(self).slots() == put_slot(old(self).slots().remove(0), key@, value),
            !(old(self).slots().len() >= old(self).capacity() && old(self).slots().len() > 0)
                ==> final(self).slots() == put_slot(old(self).slots(), key@, value),
    {
        let ghost s0 = self.slots();
        if self.entries.len() >= self.max_size && self.entries.len() > 0 {
            self.entries.remove(0);
            proof {
                lemma_remove_slot(s0, 0);
            }
            assert(self.slots() =~= s0.remove(0));
        }
        let ghost s1 = self.slots();
        let ghost kv = key@;
        let entry = CacheEntry { value, created_at: instant_now(), access_count: 1 };
        proof {
            law_put_then_find(s1, kv, value);
        }
        match self.position(&key) {
            Some(i) => {
                self.entries.remove(i);
                assert(self.slots() =~= s1.remove(i as int));
                self.entries.push((key, entry));
                assert(self.slots() =~= s1.remove(i as int).push((kv, value, 1u64)));
            },
            None => {
                self.entries.push((key, entry));
                assert(self.slots() =~= s1.push((kv, value, 1u64)));
            },
        }
    }

    /// Removes every entry.
    pub fn clear(&mut self)
        ensures
            final(self).wf(),
            final(self).slots().len() == 0,
            final(self).capacity() == old(self).capacity(),
            final(self).time_to_live() == old(self).time_to_live(),
    {
        self.entries.clear();
        assert(self.slots() =~= Seq::<CacheSlot<K::V, V>>::empty());
    }

    /// The number of entries.
    pub fn size(&self) -> (r: usize)
        ensures
            r == self.slots().len(),
    {
        self.entries.len()
    }
}

/// When a lazily loaded component is created.
#[derive(Debug, Clone, Copy, PartialEq, Eq, Structural)]
pub enum LoadTrigger {
    /// At once.
    Immediate,
    /// When mounted.
    OnMount,
    /// When first rendered.
    OnFirstRender,
    /// When it becomes visible.
    OnVisible,
}

// ---------------------------------------------------------------------
// Monitoring
// ---------------------------------------------------------------------

/// How many render or update times are kept per component.
pub const TIMING_WINDOW: usize = 100;

/// The times recorded for `id` (none when it has none).
pub open spec fn times_of(table: Seq<(ComponentId, Seq<Duration>)>, id: ComponentId) -> Seq<Duration> {
    if exists|i: int| 0 <= i < table.len() && table[i].0 == id {
        table[choose|i: int| 0 <= i < table.len() && table[i].0 == id].1
    } else {
        Seq::empty()
    }
}

/// No component occurs twice in a table.
pub open spec fn ids_distinct<T>(t: Seq<(ComponentId, T)>) -> bool {
    forall|i: int, j: int| 0 <= i < j < t.len() ==> t[i].0 != t[j].0
}

/// The entry for `id` in a table without repeats is the one found at its
/// position.
pub proof fn lemma_times_of_at(t: Seq<(ComponentId, Seq<Duration>)>, id: ComponentId, i: int)
    requires
        ids_distinct(t),
        0 <= i < t.len(),
        t[i].0 == id,
    ensures
        times_of(t, id) == t[i].1,
{
    let k = choose|k: int| 0 <= k < t.len() && t[k].0 == id;
    if k < i {
        assert(t[k].0 != t[i].0);
    } else if i < k {
        assert(t[i].0 != t[k].0);
    }
}

/// Two tables with the same components at the same positions and the
/// same times away from position `i` agree on every other component.
pub proof fn lemma_times_of_other(
    t0: Seq<(ComponentId, Seq<Duration>)>,
    t1: Seq<(ComponentId, Seq<Duration>)>,
    i: int,
    o: ComponentId,
)
    requires
        ids_distinct(t0),
        t0.len() <= t1.len() <= t0.len() + 1,
        t1.len() > t0.len() ==> i == t0.len(),
        0 <= i < t1.len(),
        forall|j: int| 0 <= j < t0.len() ==> t1[j].0 == t0[j].0,
        forall|j: int| 0 <= j < t1.len() && j != i ==> t1[j] == t0[j],
        t1[i].0 != o,
        ids_distinct(t1),
    ensures
        times_of(t1, o) == times_of(t0, o),
{
    if exists|j: int| 0 <= j < t0.len() && t0[j].0 == o {
        let j = choose|j: int| 0 <= j < t0.len() && t0[j].0 == o;
        lemma_times_of_at(t0, o, j);
        assert(t1[j].0 == o);
        lemma_times_of_at(t1, o, j);
    } else if exists|j: int| 0 <= j < t1.len() && t1[j].0 == o {
        let j = choose|j: int| 0 <= j < t1.len() && t1[j].0 == o;
        if j < t0.len() {
            assert(t0[j].0 == o);
        } else {
            assert(j == i);
        }
    }
}

/// The times after recording `d`: appended, and the oldest dropped when
/// more than the window would be kept.
pub open spec fn recorded(times: Seq<Duration>, d: Duration) -> Seq<Duration> {
    let s = times.push(d);
    if s.len() > TIMING_WINDOW {
        s.drop_first()
    } else {
        s
    }
}

/// The sum of the lengths of some durations, in nanoseconds.
pub open spec fn total_nanos(ds: Seq<Duration>) -> nat
    decreases ds.len(),
{
    if ds.len() == 0 {
        0
    } else {
        total_nanos(ds.drop_last()) + duration_nanos(ds.last())
    }
}

/// A prefix sums to no more than the whole.
pub proof fn lemma_total_nanos_prefix(ds: Seq<Duration>, k: int)
    requires
        0 <= k <= ds.len(),
    ensures
        total_nanos(ds.take(k)) <= total_nanos(ds),
    decreases ds.len(),
{
    if k < ds.len() {
        assert(ds.drop_last().take(k) =~= ds.take(k));
        lemma_total_nanos_prefix(ds.drop_last(), k);
    } else {
        assert(ds.take(k) =~= ds);
    }
}

/// Law: a recorded time is the newest of the component's times, which
/// the statistics count: one more of them (as long as fewer than the
/// window were kept; otherwise the oldest gives way), and their total
/// grows by the new time.
pub proof fn law_record_then_statistics(ts: Seq<Duration>, d: Duration)
    requires
        ts.len() <= TIMING_WINDOW,
    ensures
        recorded(ts, d).last() == d,
        recorded(ts, d).len() == if ts.len() < TIMING_WINDOW {
            ts.len() + 1
        } else {
            TIMING_WINDOW as nat
        },
        ts.len() < TIMING_WINDOW ==> total_nanos(recorded(ts, d)) == total_nanos(ts) + duration_nanos(d),
{
    let s = ts.push(d);
    assert(s.drop_last() =~= ts);
}

/// Aggregate render-time statistics of a component.
#[derive(Debug, Clone)]
pub struct RenderStatistics {
    /// Number of recorded renders.
    pub count: usize,
    /// Their total time.
    pub total: Duration,
    /// Their average time.
    pub average: Duration,
    /// The shortest.
    pub min: Duration,
    /// The longest.
    pub max: Duration,
}

impl RenderStatistics {
    /// The statistics of no renders: all zero.
    pub open spec fn is_empty(self) -> bool {
        &&& self.count == 0
        &&& duration_nanos(self.total) == 0
        &&& duration_nanos(self.average) == 0
        &&& duration_nanos(self.min) == 0
        &&& duration_nanos(self.max) == 0
    }
}

impl Default for RenderStatistics {
    fn default() -> (r: Self)
        ensures
            r.is_empty(),
    {
        RenderStatistics {
            count: 0,
            total: duration_zero(),
            average: duration_zero(),
            min: duration_zero(),
            max: duration_zero(),
        }
    }
}

/// Records render, update and mount times per component.
pub struct PerformanceMonitor {
    render_times: Vec<(ComponentId, Vec<Duration>)>,
    update_times: Vec<(ComponentId, Vec<Duration>)>,
    mount_times: Vec<(ComponentId, Duration)>,
}

/// A running render measurement for one component.
pub struct RenderTimer {
    component_id: ComponentId,
    start_time: Instant,
}

impl RenderTimer {
    /// The component being measured.
    pub closed spec fn spec_component(&self) -> ComponentId {
        self.component_id
    }

    /// Ends the measurement and reports the time since it started (read
    /// from the clock) to `monitor` as a render time of the component:
    /// `record_render_time` with that time.
    pub fn finish(self, monitor: &mut PerformanceMonitor)
        requires
            old(monitor).wf(),
        ensures
            final(monitor).wf(),
            exists|d: Duration|
                times_of(final(monitor).renders(), self.spec_component()) == #[trigger] recorded(
                    times_of(old(monitor).renders(), self.spec_component()),
                    d,
                ),
            forall|o: ComponentId|
                o != self.spec_component() ==> times_of(final(monitor).renders(), o) == times_of(
                    old(monitor).renders(),
                    o,
                ),
            final(monitor).updates() == old(monitor).updates(),
            final(monitor).mounts() == old(monitor).mounts(),
    {
        let duration = instant_elapsed(&self.start_time);
        monitor.record_render_time(self.component_id, duration);
        assert(times_of(monitor.renders(), self.spec_component()) == recorded(
            times_of(old(monitor).renders(), self.spec_component()),
            duration,
        ));
    }
}

/// The mount time recorded for `id` in a table, if any.
pub open spec fn mount_in(m: Seq<(ComponentId, Duration)>, id: ComponentId) -> Option<Duration> {
    if exists|i: int| 0 <= i < m.len() && m[i].0 == id {
        Some(m[choose|i: int| 0 <= i < m.len() && m[i].0 == id].1)
    } else {
        None
    }
}

/// The mount entry for `id` in a table without repeats is the one found
/// at its position.
pub proof fn lemma_mount_in_at(m: Seq<(ComponentId, Duration)>, id: ComponentId, i: int)
    requires
        ids_distinct(m),
        0 <= i < m.len(),
        m[i].0 == id,
    ensures
        mount_in(m, id) == Some(m[i].1),
{
    let k = choose|k: int| 0 <= k < m.len() && m[k].0 == id;
    if k < i {
        assert(m[k].0 != m[i].0);
    } else if i < k {
        assert(m[i].0 != m[k].0);
    }
}

/// Mount tables that agree away from position `i`, with the same
/// components at the same positions, agree on every other component.
pub proof fn lemma_mount_in_other(
    m0: Seq<(ComponentId, Duration)>,
    m1: Seq<(ComponentId, Duration)>,
    i: int,
    o: ComponentId,
)
    requires
        ids_distinct(m0),
        ids_distinct(m1),
        m0.len() <= m1.len() <= m0.len() + 1,
        m1.len() > m0.len() ==> i == m0.len(),
        0 <= i < m1.len(),
        forall|j: int| 0 <= j < m0.len() ==> m1[j].0 == m0[j].0,
        forall|j: int| 0 <= j < m1.len() && j != i ==> m1[j] == m0[j],
        m1[i].0 != o,
    ensures
        mount_in(m1, o) == mount_in(m0, o),
{
    if exists|j: int| 0 <= j < m0.len() && m0[j].0 == o {
        let j = choose|j: int| 0 <= j < m0.len() && m0[j].0 == o;
        lemma_mount_in_at(m0, o, j);
        assert(m1[j].0 == o);
        lemma_mount_in_at(m1, o, j);
    } else if exists|j: int| 0 <= j < m1.len() && m1[j].0 == o {
        let j = choose|j: int| 0 <= j < m1.len() && m1[j].0 == o;
        if j < m0.len() {
            assert(m0[j].0 == o);
        } else {
            assert(j == i);
        }
    }
}

/// The table of a monitor as (component, times) pairs.
pub open spec fn table_view(t: Seq<(ComponentId, Vec<Duration>)>) -> Seq<(ComponentId, Seq<Duration>)> {
    Seq::new(t.len(), |i: int| (t[i].0, t[i].1@))
}

/// A well-formed table: no component twice, no more than the window of
/// times each.
pub open spec fn table_wf(t: Seq<(ComponentId, Seq<Duration>)>) -> bool {
    &&& ids_distinct(t)
    &&& forall|i: int| 0 <= i < t.len() ==> #[trigger] t[i].1.len() <= TIMING_WINDOW
}

impl PerformanceMonitor {
    /// Recorded render times.
    pub closed spec fn renders(&self) -> Seq<(ComponentId, Seq<Duration>)> {
        table_view(self.render_times@)
    }

    /// Recorded update times.
    pub closed spec fn updates(&self) -> Seq<(ComponentId, Seq<Duration>)> {
        table_view(self.update_times@)
    }

    /// Recorded mount times.
    pub closed spec fn mounts(&self) -> Seq<(ComponentId, Duration)> {
        self.mount_times@
    }

    /// Well-formed: each table is well-formed and no mount is recorded
    /// twice for a component.
    pub open spec fn wf(&self) -> bool {
        &&& table_wf(self.renders())
        &&& table_wf(self.updates())
        &&& ids_distinct(self.mounts())
    }

    /// The mount time recorded for `id`, if any.
    pub open spec fn mount_of(&self, id: ComponentId) -> Option<Duration> {
        mount_in(self.mounts(), id)
    }

    /// A monitor with nothing recorded.
    pub fn new() -> (r: Self)
        ensures
            r.wf(),
            r.renders().len() == 0,
            r.updates().len() == 0,
            r.mounts().len() == 0,
    {
        let r = PerformanceMonitor {
            render_times: Vec::new(),
            update_times: Vec::new(),
            mount_times: Vec::new(),
        };
        assert(r.renders() =~= Seq::<(ComponentId, Seq<Duration>)>::empty());
        assert(r.updates() =~= Seq::<(ComponentId, Seq<Duration>)>::empty());
        r
    }

    /// Starts measuring a render of `component_id`; `RenderTimer::finish`
    /// reports the measured time back to this monitor.
    pub fn start_render_timing(&self, component_id: ComponentId) -> (r: RenderTimer)
        ensures
            r.spec_component() == component_id,
    {
        RenderTimer { component_id, start_time: instant_now() }
    }

    /// Records `d` for `id` in a table.
    fn record_in(table: &mut Vec<(ComponentId, Vec<Duration>)>, id: ComponentId, d: Duration)
        requires
            table_wf(table_view(old(table)@)),
        ensures
            table_wf(table_view(final(table)@)),
            times_of(table_view(final(table)@), id) == recorded(times_of(table_view(old(table)@), id), d),
            forall|o: ComponentId|
                o != id ==> times_of(table_view(final(table)@), o) == times_of(table_view(old(table)@), o),
    {
        let ghost t0 = table_view(table@);
        let mut i: usize = 0;
        while i < table.len()
            invariant
                table@ == old(table)@,
                t0 == table_view(table@),
                table_wf(t0),
                i <= table@.len(),
                forall|j: int| 0 <= j < i ==> t0[j].0 != id,
            decreases table@.len() - i,
        {
            if table[i].0 == id {
                assert(t0[i as int].0 == id);
                let (k, mut times) = table.remove(i);
                times.push(d);
                if times.len() > TIMING_WINDOW {
                    times.remove(0);
                }
                table.insert(i, (k, times));
                let ghost t1 = table_view(table@);
                assert(t1 =~= t0.update(i as int, (id, recorded(t0[i as int].1, d))));
                proof {
                    lemma_times_of_at(t0, id, i as int);
                    lemma_times_of_at(t1, id, i as int);
                    assert forall|o: ComponentId| o != id implies times_of(t1, o) == times_of(t0, o) by {
                        lemma_times_of_other(t0, t1, i as int, o);
                    }
                }
                return;
            }
            i = i + 1;
        }
        let mut times: Vec<Duration> = Vec::new();
        times.push(d);
        table.push((id, times));
        let ghost t1 = table_view(table@);
        assert(t1 =~= t0.push((id, seq![d])));
        assert(recorded(Seq::<Duration>::empty(), d) =~= seq![d]);
        proof {
            lemma_times_of_at(t1, id, t0.len() as int);
            assert forall|o: ComponentId| o != id implies times_of(t1, o) == times_of(t0, o) by {
                lemma_times_of_other(t0, t1, t0.len() as int, o);
            }
        }
    }

    /// Records a render time: appended to the component's times, of which
    /// only the last 100 are kept.
    pub fn record_render_time(&mut self, component_id: ComponentId, duration: Duration)
        requires
            old(self).wf(),
        ensures
            final(self).wf(),
            times_of(final(self).renders(), component_id) == recorded(
                times_of(old(self).renders(), component_id),
                duration,
            ),
            forall|o: ComponentId|
                o != component_id ==> times_of(final(self).renders(), o) == times_of(old(self).renders(), o),
            final(self).updates() == old(self).updates(),
            final(self).mounts() == old(self).mounts(),
    {
        Self::record_in(&mut self.render_times, component_id, duration);
    }

    /// Records an update time: appended to the component's times, of which
    /// only the last 100 are kept.
    pub fn record_update_time(&mut self, component_id: ComponentId, duration: Duration)
        requires
            old(self).wf(),
        ensures
            final(self).wf(),
            times_of(final(self).updates(), component_id) == recorded(
                times_of(old(self).updates(), component_id),
                duration,
            ),
            forall|o: ComponentId|
                o != component_id ==> times_of(final(self).updates(), o) == times_of(old(self).updates(), o),
            final(self).renders() == old(self).renders(),
            final(self).mounts() == old(self).mounts(),
    {
        Self::record_in(&mut self.update_times, component_id, duration);
    }

    /// Records the mount time of a component, replacing an earlier one.
    pub fn record_mount_time(&mut self, component_id: ComponentId, duration: Duration)
        requires
            old(self).wf(),
        ensures
            final(self).wf(),
            final(self).mount_of(component_id) == Some(duration),
            forall|o: ComponentId| o != component_id ==> final(self).mount_of(o) == old(self).mount_of(o),
            final(self).renders() == old(self).renders(),
            final(self).updates() == old(self).updates(),
    {
        let ghost m0 = self.mount_times@;
        let mut i: usize = 0;
        while i < self.mount_times.len()
            invariant
                self.mount_times@ == m0,
                m0 == old(self).mount_times@,
                old(self).wf(),
                ids_distinct(m0),
                self.render_times == old(self).render_times,
                self.update_times == old(self).update_times,
                i <= m0.len(),
                forall|j: int| 0 <= j < i ==> m0[j].0 != component_id,
            decreases m0.len() - i,
        {
            if self.mount_times[i].0 == component_id {
                self.mount_times.set(i, (component_id, duration));
                let ghost m1 = self.mount_times@;
                assert(m1 =~= m0.update(i as int, (component_id, duration)));
                assert forall|a: int, b: int| 0 <= a < b < m1.len() implies m1[a].0 != m1[b].0 by {
                    assert(m1[a].0 == m0[a].0);
                    assert(m1[b].0 == m0[b].0);
                }
                proof {
                    lemma_mount_in_at(m1, component_id, i as int);
                    assert forall|o: ComponentId| o != component_id implies mount_in(m1, o) == mount_in(m0, o) by {
                        lemma_mount_in_other(m0, m1, i as int, o);
                    }
                }
                return;
            }
            i = i + 1;
        }
        self.mount_times.push((component_id, duration));
        let ghost m1 = self.mount_times@;
        assert(m1 =~= m0.push((component_id, duration)));
        proof {
            lemma_mount_in_at(m1, component_id, m0.len() as int);
            assert forall|o: ComponentId| o != component_id implies mount_in(m1, o) == mount_in(m0, o) by {
                lemma_mount_in_other(m0, m1, m0.len() as int, o);
            }
        }
    }

    /// Where the render times of a component are kept, if it has any.
    fn render_position(&self, component_id: ComponentId) -> (r: Option<usize>)
        requires
            self.wf(),
        ensures
            match r {
                Some(i) => i < self.renders().len() && self.renders()[i as int].0 == component_id
                    && times_of(self.renders(), component_id) == self.render_times@[i as int].1@,
                None => times_of(self.renders(), component_id) == Seq::<Duration>::empty(),
            },
    {
        let ghost t = self.renders();
        let mut i: usize = 0;
        while i < self.render_times.len()
            invariant
                t == self.renders(),
                t == table_view(self.render_times@),
                table_wf(t),
                i <= self.render_times@.len(),
                forall|j: int| 0 <= j < i ==> t[j].0 != component_id,
            decreases self.render_times@.len() - i,
        {
            if self.render_times[i].0 == component_id {
                proof {
                    lemma_times_of_at(t, component_id, i as int);
                }
                return Some(i);
            }
            i = i + 1;
        }
        None
    }

    /// The average render time of a component: its total recorded render
    /// time divided by their number, or nothing when none is recorded.
    pub fn get_average_render_time(&self, component_id: ComponentId) -> (r: Option<Duration>)
        requires
            self.wf(),
            total_nanos(times_of(self.renders(), component_id)) <= max_duration_nanos(),
        ensures
            times_of(self.renders(), component_id).len() == 0 ==> r is None,
            times_of(self.renders(), component_id).len() > 0 ==> (r matches Some(d) && duration_nanos(d)
                == duration_quotient(
                total_nanos(times_of(self.renders(), component_id)),
                times_of(self.renders(), component_id).len() as u32,
            )),
    {
        match self.render_position(component_id) {
            None => None,
            Some(i) => {
                let times = &self.render_times[i].1;
                if times.len() == 0 {
                    return None;
                }
                assert(self.renders()[i as int].1.len() <= TIMING_WINDOW);
                let total = total_of(times);
                Some(duration_div(total, times.len() as u32))
            },
        }
    }

    /// Count, total, average, shortest and longest render time of a
    /// component; all zero when none is recorded.
    pub fn get_render_statistics(&self, component_id: ComponentId) -> (r: RenderStatistics)
        requires
            self.wf(),
            total_nanos(times_of(self.renders(), component_id)) <= max_duration_nanos(),
        ensures
            ({
                let ts = times_of(self.renders(), component_id);
                &&& ts.len() == 0 ==> r.is_empty()
                &&& ts.len() > 0 ==> {
                    &&& r.count == ts.len()
                    &&& duration_nanos(r.total) == total_nanos(ts)
                    &&& duration_nanos(r.average) == duration_quotient(total_nanos(ts), ts.len() as u32)
                    &&& exists|j: int| 0 <= j < ts.len() && r.min == ts[j]
                    &&& forall|j: int| 0 <= j < ts.len() ==> duration_nanos(r.min) <= duration_nanos(#[trigger] ts[j])
                    &&& exists|j: int| 0 <= j < ts.len() && r.max == ts[j]
                    &&& forall|j: int| 0 <= j < ts.len() ==> duration_nanos(#[trigger] ts[j]) <= duration_nanos(r.max)
                }
            }),
    {
        match self.render_position(component_id) {
            None => RenderStatistics::default(),
            Some(i) => {
                let times = &self.render_times[i].1;
                if times.len() == 0 {
                    return RenderStatistics::default();
                }
                assert(self.renders()[i as int].1.len() <= TIMING_WINDOW);
                let total = total_of(times);
                let average = duration_div(total, times.len() as u32);
                let (lo, hi) = extremes(times);
                RenderStatistics { count: times.len(), total, average, min: times[lo], max: times[hi] }
            },
        }
    }
}

impl Default for PerformanceMonitor {
    fn default() -> (r: Self)
        ensures
            r.wf(),
            r.renders().len() == 0,
            r.updates().len() == 0,
            r.mounts().len() == 0,
    {
        PerformanceMonitor::new()
    }
}

/// The sum of some durations.
fn total_of(times: &Vec<Duration>) -> (r: Duration)
    requires
        total_nanos(times@) <= max_duration_nanos(),
    ensures
        duration_nanos(r) == total_nanos(times@),
{
    let mut total = duration_zero();
    let mut i: usize = 0;
    while i < times.len()
        invariant
            i <= times@.len(),
            total_nanos(times@) <= max_duration_nanos(),
            duration_nanos(total) == total_nanos(times@.take(i as int)),
        decreases times@.len() - i,
    {
        proof {
            lemma_total_nanos_prefix(times@, i + 1);
            assert(times@.take(i + 1).drop_last() =~= times@.take(i as int));
        }
        total = duration_add(total, times[i]);
        i = i + 1;
    }
    assert(times@.take(times@.len() as int) =~= times@);
    total
}

/// The positions of a shortest and of a longest of some durations.
fn extremes(times: &Vec<Duration>) -> (r: (usize, usize))
    requires
        times@.len() > 0,
    ensures
        r.0 < times@.len(),
        r.1 < times@.len(),
        forall|j: int| 0 <= j < times@.len() ==> duration_nanos(times@[r.0 as int]) <= duration_nanos(#[trigger] times@[j]),
        forall|j: int| 0 <= j < times@.len() ==> duration_nanos(#[trigger] times@[j]) <= duration_nanos(times@[r.1 as int]),
{
    let mut lo: usize = 0;
    let mut hi: usize = 0;
    let mut lo_n = duration_as_nanos(&times[0]);
    let mut hi_n = lo_n;
    let mut i: usize = 1;
    while i < times.len()
        invariant
            1 <= i <= times@.len(),
            lo < i,
            hi < i,
            lo_n == duration_nanos(times@[lo as int]),
            hi_n == duration_nanos(times@[hi as int]),
            forall|j: int| 0 <= j < i ==> lo_n <= duration_nanos(#[trigger] times@[j]),
            forall|j: int| 0 <= j < i ==> duration_nanos(#[trigger] times@[j]) <= hi_n,
        decreases times@.len() - i,
    {
        let n = duration_as_nanos(&times[i]);
        if n < lo_n {
            lo = i;
            lo_n = n;
        }
        if n >= hi_n {
            hi = i;
            hi_n = n;
        }
        i = i + 1;
    }
    (lo, hi)
}

// ---------------------------------------------------------------------
// Update batching
// ---------------------------------------------------------------------

/// Collects the state changes of components into batches, one per
/// component, until they are flushed.
pub struct UpdateBatcher {
    pending_updates: Vec<(ComponentId, Vec<StateChanges>)>,
    batch_timeout: Duration,
    max_batch_size: usize,
}

/// The position of the batch of `id`, if any.
pub open spec fn batch_of(bs: Seq<(ComponentId, Seq<StateChanges>)>, id: ComponentId) -> Option<int> {
    if exists|i: int| 0 <= i < bs.len() && bs[i].0 == id {
        Some(choose|i: int| 0 <= i < bs.len() && bs[i].0 == id)
    } else {
        None
    }
}

/// The batches after adding `c` to the batch of `id`: appended to its
/// batch, or a new batch at the end.
pub open spec fn add_to_batch(bs: Seq<(ComponentId, Seq<StateChanges>)>, id: ComponentId, c: StateChanges) -> Seq<
    (ComponentId, Seq<StateChanges>),
> {
    match batch_of(bs, id) {
        Some(i) => bs.update(i, (id, bs[i].1.push(c))),
        None => bs.push((id, seq![c])),
    }
}

/// No component has two batches.
pub open spec fn distinct_batches(bs: Seq<(ComponentId, Seq<StateChanges>)>) -> bool {
    forall|i: int, j: int| 0 <= i < j < bs.len() ==> bs[i].0 != bs[j].0
}

/// The batch found for a component is the only one it has.
proof fn lemma_batch_of_at(bs: Seq<(ComponentId, Seq<StateChanges>)>, id: ComponentId, i: int)
    requires
        distinct_batches(bs),
        0 <= i < bs.len(),
        bs[i].0 == id,
    ensures
        batch_of(bs, id) == Some(i),
{
    let j = choose|j: int| 0 <= j < bs.len() && bs[j].0 == id;
    if j != i {
        if j < i {
            assert(bs[j].0 != bs[i].0);
        } else {
            assert(bs[i].0 != bs[j].0);
        }
    }
}

/// The contents of batches.
pub open spec fn batches_view(bs: Seq<(ComponentId, Vec<StateChanges>)>) -> Seq<(ComponentId, Seq<StateChanges>)> {
    Seq::new(bs.len(), |i: int| (bs[i].0, bs[i].1@))
}

impl UpdateBatcher {
    /// The batches, one per component, in the order the components first
    /// queued a change.
    pub closed spec fn batches(&self) -> Seq<(ComponentId, Seq<StateChanges>)> {
        batches_view(self.pending_updates@)
    }

    /// How long a batch may wait.
    pub closed spec fn timeout(&self) -> Duration {
        self.batch_timeout
    }

    /// How many changes a batch holds before it is due.
    pub closed spec fn max_size(&self) -> usize {
        self.max_batch_size
    }

    /// No component has two batches.
    pub open spec fn wf(&self) -> bool {
        distinct_batches(self.batches())
    }

    /// A batcher without batches.
    pub fn new(batch_timeout: Duration, max_batch_size: usize) -> (r: Self)
        ensures
            r.wf(),
            r.batches().len() == 0,
            r.timeout() == batch_timeout,
            r.max_size() == max_batch_size,
    {
        let r = UpdateBatcher { pending_updates: Vec::new(), batch_timeout, max_batch_size };
        assert(r.batches() =~= Seq::<(ComponentId, Seq<StateChanges>)>::empty());
        r
    }

    /// The position of the batch of a component.
    fn position(&self, id: ComponentId) -> (r: Option<usize>)
        requires
            self.wf(),
        ensures
            match r {
                Some(i) => i < self.batches().len() && batch_of(self.batches(), id) == Some(i as int),
                None => batch_of(self.batches(), id) is None,
            },
    {
        let mut i: usize = 0;
        while i < self.pending_updates.len()
            invariant
                i <= self.pending_updates@.len(),
                distinct_batches(self.batches()),
                forall|j: int| 0 <= j < i ==> self.batches()[j].0 != id,
            decreases self.pending_updates@.len() - i,
        {
            assert(self.batches()[i as int].0 == self.pending_updates@[i as int].0);
            if self.pending_updates[i].0 == id {
                proof {
                    lemma_batch_of_at(self.batches(), id, i as int);
                }
                return Some(i);
            }
            i = i + 1;
        }
        None
    }

    /// Adds changes to the batch of a component.
    pub fn queue_update(&mut self, component_id: ComponentId, changes: StateChanges)
        requires
            old(self).wf(),
        ensures
            final(self).wf(),
            final(self).batches() == add_to_batch(old(self).batches(), component_id, changes),
            final(self).timeout() == old(self).timeout(),
            final(self).max_size() == old(self).max_size(),
    {
        let ghost b0 = self.batches();
        match self.position(component_id) {
            Some(i) => {
                let (id, mut list) = self.pending_updates.remove(i);
                let ghost l0 = list@;
                list.push(changes);
                self.pending_updates.insert(i, (id, list));
                proof {
                    assert(b0[i as int].1 == l0);
                    assert(self.batches() =~= b0.update(i as int, (component_id, l0.push(changes))));
                }
            },
            None => {
                let mut list: Vec<StateChanges> = Vec::new();
                list.push(changes);
                self.pending_updates.push((component_id, list));
                proof {
                    assert(self.batches() =~= b0.push((component_id, seq![changes])));
                    assert forall|a: int, b: int| 0 <= a < b < self.batches().len() implies self.batches()[a].0
                        != self.batches()[b].0 by {
                        if b == b0.len() {
                            assert(batch_of(b0, component_id) is None);
                            assert(b0[a].0 != component_id);
                        }
                    }
                }
            },
        }
    }

    /// Takes all batches out, leaving none.
    pub fn flush_updates(&mut self) -> (r: Vec<(ComponentId, Vec<StateChanges>)>)
        requires
            old(self).wf(),
        ensures
            final(self).wf(),
            batches_view(r@) == old(self).batches(),
            final(self).batches().len() == 0,
            final(self).timeout() == old(self).timeout(),
            final(self).max_size() == old(self).max_size(),
    {
        let mut out: Vec<(ComponentId, Vec<StateChanges>)> = Vec::new();
        std::mem::swap(&mut out, &mut self.pending_updates);
        assert(self.batches() =~= Seq::<(ComponentId, Seq<StateChanges>)>::empty());
        out
    }

    /// Whether the batch of a component is due: it holds at least the
    /// most changes a batch holds, or its first changes waited at least
    /// the timeout (the clock decides); never for a component without a
    /// batch.
    pub fn should_flush(&self, component_id: ComponentId) -> (r: bool)
        requires
            self.wf(),
        ensures
            batch_of(self.batches(), component_id) is None ==> !r,
            batch_of(self.batches(), component_id) matches Some(i) && self.batches()[i].1.len()
                >= self.max_size() ==> r,
    {
        match self.position(component_id) {
            None => false,
            Some(i) => {
                let list = &self.pending_updates[i].1;
                if list.len() >= self.max_batch_size {
                    return true;
                }
                if list.len() > 0 {
                    let waited = instant_elapsed(&list[0].batch_timestamp);
                    duration_as_nanos(&waited) >= duration_as_nanos(&self.batch_timeout)
                } else {
                    false
                }
            },
        }
    }
}

} // verus!
