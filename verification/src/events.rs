//! Event values, propagation control and layout-aware hit testing.
use vstd::prelude::*;
use crate::component::ComponentId;
use crate::time::{duration_as_micros, instant_elapsed, instant_now};
use crate::text::{decimal, push_decimal, push_str};

pub mod delegation;
pub mod dispatcher;
pub mod emitter;

verus! {

/// The identity of type `T` (`std::any::TypeId::of`). Nothing is stated of
/// it here.
#[verifier::external_body]
pub(crate) fn type_of<T: ?Sized + 'static>() -> std::any::TypeId {
    std::any::TypeId::of::<T>()
}

/// Whether two type identities are equal (`==` on `TypeId`).
#[verifier::external_body]
pub(crate) fn same_type(a: &std::any::TypeId, b: &std::any::TypeId) -> (r: bool)
    ensures
        r == (*a == *b),
{
    *a == *b
}


// ---------------------------------------------------------------------
// Event values
// ---------------------------------------------------------------------

/// Mouse buttons.
#[derive(Debug, Clone, Copy, PartialEq, Eq, Structural)]
pub enum MouseButton {
    /// Left mouse button.
    Left,
    /// Middle mouse button.
    Middle,
    /// Right mouse button.
    Right,
}

/// Keyboard events, with the key and its physical code.
#[derive(Debug, Clone)]
pub enum KeyboardEvent {
    /// Key down.
    Down { key: String, code: String },
    /// Key up.
    Up { key: String, code: String },
    /// Key press.
    Press { key: String, code: String },
}

/// Focus events.
#[derive(Debug, Clone, Copy, PartialEq, Eq, Structural)]
pub enum FocusEvent {
    /// Focus gained.
    Focus,
    /// Focus lost.
    Blur,
}

/// Component lifecycle events.
#[derive(Debug, Clone, Copy, PartialEq, Eq, Structural)]
pub enum LifecycleEvent {
    /// Mounted.
    Mount,
    /// Unmounted.
    Unmount,
    /// Updated.
    Update,
}

/// An application-defined event: a name and a payload.
#[derive(Debug)]
pub struct CustomEvent<D> {
    /// Event name.
    pub name: String,
    /// Event data.
    pub data: D,
}

/// Something that handles events of type `E`.
pub trait Handler<E> {
    /// Handles an event; an error is reported as a message.
    fn handle(&self, event: &E) -> Result<(), String>;
}

/// Errors of the event system.
#[derive(Debug, Clone)]
pub enum EventError {
    /// Hit testing failed.
    HitTest(String),
}

// ---------------------------------------------------------------------
// Propagation control
// ---------------------------------------------------------------------

/// The phase an event is in while it travels through the component tree.
#[derive(Debug, Clone, Copy, PartialEq, Eq, Structural)]
pub enum PropagationPhase {
    /// Travelling down from the root towards the target.
    Capturing,
    /// At the target component.
    Target,
    /// Travelling up from the target towards the root.
    Bubbling,
}

/// Controls how an event propagates through the component tree.
#[derive(Debug, Clone)]
pub struct EventPropagation {
    /// Whether the event stops propagating.
    pub stopped: bool,
    /// Whether the default action is prevented.
    pub default_prevented: bool,
    /// The current propagation phase.
    pub phase: PropagationPhase,
    /// The original target of the event.
    pub target_id: Option<usize>,
    /// The component currently handling the event.
    pub current_target_id: Option<usize>,
}

impl EventPropagation {
    /// Fresh propagation state in the given phase: not stopped, default not
    /// prevented, no targets.
    pub fn new(phase: PropagationPhase) -> (r: Self)
        ensures
            !r.stopped,
            !r.default_prevented,
            r.phase == phase,
            r.target_id is None,
            r.current_target_id is None,
    {
        EventPropagation {
            stopped: false,
            default_prevented: false,
            phase,
            target_id: None,
            current_target_id: None,
        }
    }

    /// Stops propagation; nothing else changes.
    pub fn stop_propagation(&mut self)
        ensures
            final(self).stopped,
            final(self).default_prevented == old(self).default_prevented,
            final(self).phase == old(self).phase,
            final(self).target_id == old(self).target_id,
            final(self).current_target_id == old(self).current_target_id,
    {
        self.stopped = true;
    }

    /// Prevents the default action; nothing else changes.
    pub fn prevent_default(&mut self)
        ensures
            final(self).default_prevented,
            final(self).stopped == old(self).stopped,
            final(self).phase == old(self).phase,
            final(self).target_id == old(self).target_id,
            final(self).current_target_id == old(self).current_target_id,
    {
        self.default_prevented = true;
    }

    /// Whether propagation was stopped.
    pub fn is_propagation_stopped(&self) -> (r: bool)
        ensures
            r == self.stopped,
    {
        self.stopped
    }

    /// Whether the default action was prevented.
    pub fn is_default_prevented(&self) -> (r: bool)
        ensures
            r == self.default_prevented,
    {
        self.default_prevented
    }
}

// ---------------------------------------------------------------------
// Hit testing
// ---------------------------------------------------------------------

/// A laid-out component as hit testing sees it: its identifier, whether
/// its bounds meet the tested point (or region), and its children in paint
/// order.
#[derive(Debug)]
pub struct HitNode {
    /// The component laid out here.
    pub id: ComponentId,
    /// Whether the node's bounds meet what is tested.
    pub hit: bool,
    /// Child nodes, back to front.
    pub children: Vec<HitNode>,
}

/// The components met, innermost first: for a node that is hit, the hits
/// of its children in order, then the node itself; nothing below a node
/// that is missed.
pub open spec fn hits_inner_first(n: HitNode) -> Seq<ComponentId>
    decreases n,
{
    if n.hit {
        hits_inner_first_all(n.children@, n.children@.len() as int).push(n.id)
    } else {
        Seq::empty()
    }
}

/// `hits_inner_first` of the first `k` nodes, concatenated.
pub open spec fn hits_inner_first_all(ns: Seq<HitNode>, k: int) -> Seq<ComponentId>
    decreases ns, k,
{
    if k <= 0 || k > ns.len() {
        Seq::empty()
    } else {
        hits_inner_first_all(ns, k - 1) + hits_inner_first(ns[k - 1])
    }
}


/// The components met, outermost first: a node that is hit, then the hits
/// of its children in order; nothing below a node that is missed.
pub open spec fn hits_outer_first(n: HitNode) -> Seq<ComponentId>
    decreases n,
{
    if n.hit {
        seq![n.id] + hits_outer_first_all(n.children@, n.children@.len() as int)
    } else {
        Seq::empty()
    }
}

/// `hits_outer_first` of the first `k` nodes, concatenated.
pub open spec fn hits_outer_first_all(ns: Seq<HitNode>, k: int) -> Seq<ComponentId>
    decreases ns, k,
{
    if k <= 0 || k > ns.len() {
        Seq::empty()
    } else {
        hits_outer_first_all(ns, k - 1) + hits_outer_first(ns[k - 1])
    }
}

/// The nodes a hit test looks at: every node whose parent was hit, and
/// the root.
pub open spec fn nodes_visited(n: HitNode) -> nat
    decreases n,
{
    if n.hit {
        1 + nodes_visited_all(n.children@, n.children@.len() as int)
    } else {
        1
    }
}

/// `nodes_visited` of the first `k` nodes, summed.
pub open spec fn nodes_visited_all(ns: Seq<HitNode>, k: int) -> nat
    decreases ns, k,
{
    if k <= 0 || k > ns.len() {
        0
    } else {
        nodes_visited_all(ns, k - 1) + nodes_visited(ns[k - 1])
    }
}

/// No more hits than visited nodes.
pub proof fn lemma_hits_le_visited(n: HitNode)
    ensures
        hits_inner_first(n).len() <= nodes_visited(n),
        hits_outer_first(n).len() == hits_inner_first(n).len(),
    decreases n,
{
    if n.hit {
        lemma_hits_le_visited_all(n.children@, n.children@.len() as int);
    }
}

/// No more hits than visited nodes, over the first `k` nodes.
pub proof fn lemma_hits_le_visited_all(ns: Seq<HitNode>, k: int)
    ensures
        hits_inner_first_all(ns, k).len() <= nodes_visited_all(ns, k),
        hits_outer_first_all(ns, k).len() == hits_inner_first_all(ns, k).len(),
    decreases ns, k,
{
    if 0 < k <= ns.len() {
        lemma_hits_le_visited_all(ns, k - 1);
        lemma_hits_le_visited(ns[k - 1]);
    }
}

/// Both hit-testing orders find the same components, as often: the
/// innermost-first list is a reordering of the outermost-first one.
pub proof fn law_hit_orders_agree(n: HitNode)
    ensures
        hits_inner_first(n).to_multiset() == hits_outer_first(n).to_multiset(),
    decreases n,
{
    if n.hit {
        law_hit_orders_agree_all(n.children@, n.children@.len() as int);
        let inner = hits_inner_first_all(n.children@, n.children@.len() as int);
        let outer = hits_outer_first_all(n.children@, n.children@.len() as int);
        vstd::seq_lib::lemma_multiset_commutative(inner, seq![n.id]);
        vstd::seq_lib::lemma_multiset_commutative(seq![n.id], outer);
        assert(inner.push(n.id) =~= inner + seq![n.id]);
        broadcast use vstd::multiset::group_multiset_axioms;
    }
}

/// Both hit-testing orders find the same components over the first `k`
/// nodes.
pub proof fn law_hit_orders_agree_all(ns: Seq<HitNode>, k: int)
    ensures
        hits_inner_first_all(ns, k).to_multiset() == hits_outer_first_all(ns, k).to_multiset(),
    decreases ns, k,
{
    if 0 < k <= ns.len() {
        law_hit_orders_agree_all(ns, k - 1);
        law_hit_orders_agree(ns[k - 1]);
        vstd::seq_lib::lemma_multiset_commutative(hits_inner_first_all(ns, k - 1), hits_inner_first(ns[k - 1]));
        vstd::seq_lib::lemma_multiset_commutative(hits_outer_first_all(ns, k - 1), hits_outer_first(ns[k - 1]));
    } else {
        assert(hits_inner_first_all(ns, k) =~= Seq::<ComponentId>::empty());
        assert(hits_outer_first_all(ns, k) =~= Seq::<ComponentId>::empty());
    }
}

/// Performance statistics of hit testing.
#[derive(Debug, Clone)]
pub struct HitTestStats {
    /// Number of hit tests performed.
    pub hit_tests: u64,
    /// Time spent in hit testing, in microseconds.
    pub hit_test_time_us: u64,
    /// Number of nodes tested in the last hit test.
    pub nodes_tested: u32,
    /// Number of hits found in the last hit test.
    pub hits_found: u32,
}

impl HitTestStats {
    /// The summary of the statistics (as `Display` writes it).
    pub fn to_message(&self) -> (r: String)
        ensures
            r@ == "Hit Test Stats: "@ + decimal(self.hit_tests as nat) + " tests, "@ + decimal(
                self.hit_test_time_us as nat,
            ) + "\u{3bc}s total time, "@ + decimal(self.nodes_tested as nat) + " nodes tested, "@ + decimal(
                self.hits_found as nat,
            ) + " hits found"@,
    {
        let mut m = String::new();
        push_str(&mut m, "Hit Test Stats: ");
        push_decimal(&mut m, self.hit_tests);
        push_str(&mut m, " tests, ");
        push_decimal(&mut m, self.hit_test_time_us);
        push_str(&mut m, "\u{3bc}s total time, ");
        push_decimal(&mut m, self.nodes_tested as u64);
        push_str(&mut m, " nodes tested, ");
        push_decimal(&mut m, self.hits_found as u64);
        push_str(&mut m, " hits found");
        m
    }

    /// All counters are zero.
    pub open spec fn is_zero(self) -> bool {
        self.hit_tests == 0 && self.hit_test_time_us == 0 && self.nodes_tested == 0
            && self.hits_found == 0
    }
}

impl Default for HitTestStats {
    fn default() -> (r: Self)
        ensures
            r.is_zero(),
    {
        HitTestStats { hit_tests: 0, hit_test_time_us: 0, nodes_tested: 0, hits_found: 0 }
    }
}

/// Hit testing engine: finds the components under a point or within a
/// region, and keeps statistics.
#[derive(Debug)]
pub struct HitTester {
    /// Performance statistics.
    pub stats: HitTestStats,
}

/// The statistics after a hit test that visited `visited` nodes and found
/// `found` components: one more test, at least one more microsecond
/// (the clock decides how many; the total stops at `u64::MAX`).
pub open spec fn stats_after_test(
    before: HitTestStats,
    after: HitTestStats,
    visited: nat,
    found: nat,
) -> bool {
    &&& after.hit_tests == before.hit_tests + 1
    &&& after.nodes_tested == visited
    &&& after.hits_found == found
    &&& after.hit_test_time_us >= before.hit_test_time_us
    &&& (after.hit_test_time_us > before.hit_test_time_us || before.hit_test_time_us == u64::MAX)
}

impl HitTester {
    /// A hit tester with zeroed statistics.
    pub fn new() -> (r: Self)
        ensures
            r.stats.is_zero(),
    {
        HitTester { stats: HitTestStats::default() }
    }

    /// Visits `node` and appends its hits, innermost first.
    fn collect_inner_first(&mut self, node: &HitNode, hits: &mut Vec<ComponentId>)
        requires
            old(self).stats.nodes_tested + nodes_visited(*node) <= u32::MAX,
        ensures
            final(hits)@ == old(hits)@ + hits_inner_first(*node),
            final(self).stats.nodes_tested == old(self).stats.nodes_tested + nodes_visited(*node),
            final(self).stats.hit_tests == old(self).stats.hit_tests,
            final(self).stats.hit_test_time_us == old(self).stats.hit_test_time_us,
            final(self).stats.hits_found == old(self).stats.hits_found,
        decreases node,
    {
        self.stats.nodes_tested = self.stats.nodes_tested + 1;
        if node.hit {
            let ghost start = self.stats;
            let ghost h0 = hits@;
            let ghost cs = node.children@;
            let mut i: usize = 0;
            while i < node.children.len()
                invariant
                    cs == node.children@,
                    node.hit,
                    i <= cs.len(),
                    hits@ == h0 + hits_inner_first_all(cs, i as int),
                    self.stats.nodes_tested == start.nodes_tested + nodes_visited_all(cs, i as int),
                    start.nodes_tested + nodes_visited_all(cs, cs.len() as int) <= u32::MAX,
                    self.stats.hit_tests == start.hit_tests,
                    self.stats.hit_test_time_us == start.hit_test_time_us,
                    self.stats.hits_found == start.hits_found,
                decreases cs.len() - i,
            {
                proof {
                    lemma_visited_all_mono(cs, i + 1, cs.len() as int);
                }
                self.collect_inner_first(&node.children[i], hits);
                i = i + 1;
                assert(hits@ =~= h0 + hits_inner_first_all(cs, i as int));
            }
            hits.push(node.id);
        }
    }

    /// Visits `node` and appends its hits, outermost first.
    fn collect_outer_first(&mut self, node: &HitNode, hits: &mut Vec<ComponentId>)
        requires
            old(self).stats.nodes_tested + nodes_visited(*node) <= u32::MAX,
        ensures
            final(hits)@ == old(hits)@ + hits_outer_first(*node),
            final(self).stats.nodes_tested == old(self).stats.nodes_tested + nodes_visited(*node),
            final(self).stats.hit_tests == old(self).stats.hit_tests,
            final(self).stats.hit_test_time_us == old(self).stats.hit_test_time_us,
            final(self).stats.hits_found == old(self).stats.hits_found,
        decreases node,
    {
        self.stats.nodes_tested = self.stats.nodes_tested + 1;
        if node.hit {
            hits.push(node.id);
            let ghost start = self.stats;
            let ghost h0 = hits@;
            let ghost cs = node.children@;
            let mut i: usize = 0;
            while i < node.children.len()
                invariant
                    cs == node.children@,
                    node.hit,
                    i <= cs.len(),
                    hits@ == h0 + hits_outer_first_all(cs, i as int),
                    self.stats.nodes_tested == start.nodes_tested + nodes_visited_all(cs, i as int),
                    start.nodes_tested + nodes_visited_all(cs, cs.len() as int) <= u32::MAX,
                    self.stats.hit_tests == start.hit_tests,
                    self.stats.hit_test_time_us == start.hit_test_time_us,
                    self.stats.hits_found == start.hits_found,
                decreases cs.len() - i,
            {
                proof {
                    lemma_visited_all_mono(cs, i + 1, cs.len() as int);
                }
                self.collect_outer_first(&node.children[i], hits);
                i = i + 1;
                assert(hits@ =~= h0 + hits_outer_first_all(cs, i as int));
            }
            assert(hits@ =~= old(hits)@ + hits_outer_first(*node));
        }
    }

    /// Records a finished test: one more test, its duration (at least one
    /// microsecond) and what it found.
    fn finish_test(&mut self, start: &std::time::Instant, found: usize)
        requires
            old(self).stats.hit_tests < u64::MAX,
            found <= u32::MAX,
        ensures
            final(self).stats.hit_tests == old(self).stats.hit_tests + 1,
            final(self).stats.nodes_tested == old(self).stats.nodes_tested,
            final(self).stats.hits_found == found,
            final(self).stats.hit_test_time_us >= old(self).stats.hit_test_time_us,
            final(self).stats.hit_test_time_us > old(self).stats.hit_test_time_us
                || old(self).stats.hit_test_time_us == u64::MAX,
    {
        let elapsed = instant_elapsed(start);
        let micros = duration_as_micros(&elapsed);
        let truncated: u64 = micros as u64;
        let elapsed_us: u64 = if truncated > 1 { truncated } else { 1 };
        self.stats.hit_tests = self.stats.hit_tests + 1;
        self.stats.hit_test_time_us = self.stats.hit_test_time_us.saturating_add(elapsed_us);
        self.stats.hits_found = found as u32;
    }

    /// All components whose bounds contain the tested point (the `hit`
    /// flags), innermost first: each hit component comes after the hits
    /// below it, and siblings come in order.
    pub fn hit_test(&mut self, layout_root: &HitNode) -> (r: Result<Vec<ComponentId>, EventError>)
        requires
            nodes_visited(*layout_root) <= u32::MAX,
            old(self).stats.hit_tests < u64::MAX,
        ensures
            r matches Ok(hits) && hits@ == hits_inner_first(*layout_root),
            stats_after_test(
                old(self).stats,
                final(self).stats,
                nodes_visited(*layout_root),
                hits_inner_first(*layout_root).len(),
            ),
    {
        let start = instant_now();
        self.stats.nodes_tested = 0;
        self.stats.hits_found = 0;
        let mut hits: Vec<ComponentId> = Vec::new();
        self.collect_inner_first(layout_root, &mut hits);
        proof {
            lemma_hits_le_visited(*layout_root);
        }
        let found = hits.len();
        self.finish_test(&start, found);
        Ok(hits)
    }

    /// All components whose bounds contain the tested point, outermost
    /// first (a depth-first walk: each hit component, then the hits below
    /// it, siblings in order).
    pub fn hit_test_depth_first(&mut self, layout_root: &HitNode) -> (r: Result<
        Vec<ComponentId>,
        EventError,
    >)
        requires
            nodes_visited(*layout_root) <= u32::MAX,
            old(self).stats.hit_tests < u64::MAX,
        ensures
            r matches Ok(hits) && hits@ == hits_outer_first(*layout_root),
            stats_after_test(
                old(self).stats,
                final(self).stats,
                nodes_visited(*layout_root),
                hits_outer_first(*layout_root).len(),
            ),
    {
        let start = instant_now();
        self.stats.nodes_tested = 0;
        self.stats.hits_found = 0;
        let mut hits: Vec<ComponentId> = Vec::new();
        self.collect_outer_first(layout_root, &mut hits);
        proof {
            lemma_hits_le_visited(*layout_root);
        }
        let found = hits.len();
        self.finish_test(&start, found);
        Ok(hits)
    }

    /// The top-most component at the tested point: the first of
    /// `hit_test`'s result, if any; the statistics change as for
    /// `hit_test`.
    pub fn hit_test_top(&mut self, layout_root: &HitNode) -> (r: Result<
        Option<ComponentId>,
        EventError,
    >)
        requires
            nodes_visited(*layout_root) <= u32::MAX,
            old(self).stats.hit_tests < u64::MAX,
        ensures
            r == Ok::<Option<ComponentId>, EventError>(
                if hits_inner_first(*layout_root).len() > 0 {
                    Some(hits_inner_first(*layout_root)[0])
                } else {
                    None
                },
            ),
            stats_after_test(
                old(self).stats,
                final(self).stats,
                nodes_visited(*layout_root),
                hits_inner_first(*layout_root).len(),
            ),
    {
        let hits = self.hit_test(layout_root)?;
        if hits.len() > 0 {
            Ok(Some(hits[0]))
        } else {
            Ok(None)
        }
    }

    /// All components whose bounds meet the tested region (the `hit` flags),
    /// outermost first, siblings in order.
    pub fn hit_test_region(&mut self, layout_root: &HitNode) -> (r: Result<
        Vec<ComponentId>,
        EventError,
    >)
        requires
            nodes_visited(*layout_root) <= u32::MAX,
            old(self).stats.hit_tests < u64::MAX,
        ensures
            r matches Ok(hits) && hits@ == hits_outer_first(*layout_root),
            stats_after_test(
                old(self).stats,
                final(self).stats,
                nodes_visited(*layout_root),
                hits_outer_first(*layout_root).len(),
            ),
    {
        let start = instant_now();
        self.stats.nodes_tested = 0;
        self.stats.hits_found = 0;
        let mut hits: Vec<ComponentId> = Vec::new();
        self.collect_outer_first(layout_root, &mut hits);
        proof {
            lemma_hits_le_visited(*layout_root);
        }
        let found = hits.len();
        self.finish_test(&start, found);
        Ok(hits)
    }

    /// Resets the statistics to zero.
    pub fn reset_stats(&mut self)
        ensures
            final(self).stats.is_zero(),
    {
        self.stats = HitTestStats::default();
    }

    /// The statistics.
    pub fn get_stats(&self) -> (r: &HitTestStats)
        ensures
            *r == self.stats,
    {
        &self.stats
    }
}

impl Default for HitTester {
    fn default() -> (r: Self)
        ensures
            r.stats.is_zero(),
    {
        HitTester::new()
    }
}

/// Visiting more of the sibling list visits no fewer nodes.
pub proof fn lemma_visited_all_mono(ns: Seq<HitNode>, j: int, k: int)
    requires
        0 <= j <= k <= ns.len(),
    ensures
        nodes_visited_all(ns, j) <= nodes_visited_all(ns, k),
    decreases k - j,
{
    if j < k {
        lemma_visited_all_mono(ns, j, k - 1);
    }
}

} // verus!
