//! Event delegation: delegates linked to a parent and to children, handlers
//! registered per phase and event type, and the order in which a
//! dispatched event reaches them (capturing down, at the target, bubbling
//! up).
use vstd::prelude::*;
use std::any::TypeId;

use crate::events::{same_type, type_of};

use crate::component::composition::{lemma_child_count, lemma_node_count, node_count, nodes_count, Node};
use crate::events::{EventPropagation, PropagationPhase};

verus! {

/// Something called with the events that reach a delegate.
pub trait DelegateHandler {
    /// Handles an event of type `E` in the given propagation state.
    fn handle<E: 'static>(&self, event: &E, propagation: &EventPropagation);
}

/// An event together with the control of its propagation.
pub struct DelegatedEvent<E> {
    /// The event.
    pub event: E,
    /// Its propagation control.
    pub propagation: EventPropagation,
}

impl<E> DelegatedEvent<E> {
    /// The event in a phase, propagating, default allowed, no targets.
    pub fn new(event: E, phase: PropagationPhase) -> (r: Self)
        ensures
            r.event == event,
            r.propagation == (EventPropagation {
                stopped: false,
                default_prevented: false,
                phase,
                target_id: None,
                current_target_id: None,
            }),
    {
        DelegatedEvent { event, propagation: EventPropagation::new(phase) }
    }

    /// Stops the propagation of the event.
    pub fn stop_propagation(&mut self)
        ensures
            final(self).event == old(self).event,
            final(self).propagation == (EventPropagation { stopped: true, ..old(self).propagation }),
    {
        self.propagation.stop_propagation();
    }

    /// Prevents the default action of the event.
    pub fn prevent_default(&mut self)
        ensures
            final(self).event == old(self).event,
            final(self).propagation == (EventPropagation { default_prevented: true, ..old(self).propagation }),
    {
        self.propagation.prevent_default();
    }
}

/// The handlers of one delegate for each phase, each with the type of
/// event it is for, and the delegate's links: its component, its parent
/// and its children (as places in a `DelegationTree`).
pub struct EventDelegate<H> {
    capturing_handlers: Vec<(TypeId, H)>,
    bubbling_handlers: Vec<(TypeId, H)>,
    target_handlers: Vec<(TypeId, H)>,
    component_id: Option<usize>,
    parent: Option<usize>,
    children: Vec<usize>,
}

/// The links of a delegate: its component, its parent, its children.
pub type DelegateLinks = (Option<usize>, Option<usize>, Seq<usize>);

impl<H: DelegateHandler> EventDelegate<H> {
    /// The links of the delegate.
    pub closed spec fn links(&self) -> DelegateLinks {
        (self.component_id, self.parent, self.children@)
    }

    /// How many handlers are registered: capturing, bubbling, at the
    /// target.
    pub closed spec fn handler_counts(&self) -> (nat, nat, nat) {
        (self.capturing_handlers@.len(), self.bubbling_handlers@.len(), self.target_handlers@.len())
    }

    /// The registered handlers: capturing, bubbling, at the target; each
    /// in the order it was registered.
    pub closed spec fn phase_handlers(&self) -> (Seq<H>, Seq<H>, Seq<H>) {
        (
            self.capturing_handlers@.map_values(|p: (TypeId, H)| p.1),
            self.bubbling_handlers@.map_values(|p: (TypeId, H)| p.1),
            self.target_handlers@.map_values(|p: (TypeId, H)| p.1),
        )
    }

    /// A delegate for a component, without handlers, parent or children.
    pub fn new(component_id: Option<usize>) -> (r: Self)
        ensures
            r.links() == (component_id, None::<usize>, Seq::<usize>::empty()),
            r.handler_counts() == (0nat, 0nat, 0nat),
    {
        let r = EventDelegate {
            capturing_handlers: Vec::new(),
            bubbling_handlers: Vec::new(),
            target_handlers: Vec::new(),
            component_id,
            parent: None,
            children: Vec::new(),
        };
        assert(r.links().2 =~= Seq::<usize>::empty());
        r
    }

    /// Registers a handler for events of type `E` in the capturing phase.
    pub fn capture<E: 'static>(&mut self, handler: H)
        ensures
            final(self).links() == old(self).links(),
            final(self).phase_handlers() == (old(self).phase_handlers().0.push(handler), old(self).phase_handlers().1, old(self).phase_handlers().2),
            final(self).handler_counts() == (old(self).handler_counts().0 + 1, old(self).handler_counts().1,
                old(self).handler_counts().2),
    {
        let ghost before = self.capturing_handlers@;
        let entry = (type_of::<E>(), handler);
        self.capturing_handlers.push(entry);
        assert(self.capturing_handlers@ == before.push(entry));
        assert(self.phase_handlers().0 =~= old(self).phase_handlers().0.push(handler));
    }

    /// Registers a handler for events of type `E` in the bubbling phase.
    pub fn bubble<E: 'static>(&mut self, handler: H)
        ensures
            final(self).links() == old(self).links(),
            final(self).phase_handlers() == (old(self).phase_handlers().0, old(self).phase_handlers().1.push(handler), old(self).phase_handlers().2),
            final(self).handler_counts() == (old(self).handler_counts().0, old(self).handler_counts().1 + 1,
                old(self).handler_counts().2),
    {
        let ghost before = self.bubbling_handlers@;
        let entry = (type_of::<E>(), handler);
        self.bubbling_handlers.push(entry);
        assert(self.bubbling_handlers@ == before.push(entry));
        assert(self.phase_handlers().1 =~= old(self).phase_handlers().1.push(handler));
    }

    /// Registers a handler for events of type `E` at this target only.
    pub fn on<E: 'static>(&mut self, handler: H)
        ensures
            final(self).links() == old(self).links(),
            final(self).phase_handlers() == (old(self).phase_handlers().0, old(self).phase_handlers().1, old(self).phase_handlers().2.push(handler)),
            final(self).handler_counts() == (old(self).handler_counts().0, old(self).handler_counts().1,
                old(self).handler_counts().2 + 1),
    {
        let ghost before = self.target_handlers@;
        let entry = (type_of::<E>(), handler);
        self.target_handlers.push(entry);
        assert(self.target_handlers@ == before.push(entry));
        assert(self.phase_handlers().2 =~= old(self).phase_handlers().2.push(handler));
    }

    /// Calls, in order, the handlers registered for events of type `E` in
    /// a phase.
    pub fn run_handlers<E: 'static>(&self, phase: PropagationPhase, event: &E, propagation: &EventPropagation) {
        let kind = type_of::<E>();
        let handlers = match phase {
            PropagationPhase::Capturing => &self.capturing_handlers,
            PropagationPhase::Target => &self.target_handlers,
            PropagationPhase::Bubbling => &self.bubbling_handlers,
        };
        let mut i: usize = 0;
        while i < handlers.len()
            invariant
                i <= handlers@.len(),
            decreases handlers@.len() - i,
        {
            if same_type(&handlers[i].0, &kind) {
                handlers[i].1.handle(event, propagation);
            }
            i = i + 1;
        }
    }
}

/// The delegates the capturing phase reaches from `i`, in order: `i`,
/// then, unless `i` belongs to the target, what it reaches from each of
/// its children in turn; at most `fuel` levels deep.
pub open spec fn capture_order(ls: Seq<DelegateLinks>, i: int, target: Option<usize>, fuel: nat) -> Seq<int>
    decreases fuel, 0int,
{
    if fuel == 0 || !(0 <= i < ls.len()) {
        Seq::empty()
    } else if ls[i].0 == target {
        seq![i]
    } else {
        seq![i] + children_order(ls, ls[i].2, target, (fuel - 1) as nat, ls[i].2.len() as int)
    }
}

/// What the capturing phase reaches from the first `k` of `cs`, in order.
pub open spec fn children_order(ls: Seq<DelegateLinks>, cs: Seq<usize>, target: Option<usize>, fuel: nat, k: int) -> Seq<
    int,
>
    decreases fuel, k,
{
    if k <= 0 || k > cs.len() {
        Seq::empty()
    } else {
        children_order(ls, cs, target, fuel, k - 1) + capture_order(ls, cs[k - 1] as int, target, fuel)
    }
}

/// The delegates the bubbling phase reaches from `i`: `i`, then its
/// parent, and so on; at most `fuel` of them.
pub open spec fn bubble_order(ls: Seq<DelegateLinks>, i: int, fuel: nat) -> Seq<int>
    decreases fuel,
{
    if fuel == 0 || !(0 <= i < ls.len()) {
        Seq::empty()
    } else {
        seq![i] + match ls[i].1 {
            Some(p) => bubble_order(ls, p as int, (fuel - 1) as nat),
            None => Seq::empty(),
        }
    }
}

/// Places of delegates, each with a phase.
pub open spec fn in_phase(s: Seq<int>, phase: PropagationPhase) -> Seq<(usize, PropagationPhase)> {
    s.map_values(|i: int| (i as usize, phase))
}

/// The visits a dispatch from `at` to `target` makes: capturing from `at`
/// down, `at` itself when it belongs to the target, then bubbling from
/// `at` up. No walk goes deeper than there are delegates, which only a
/// cycle would need.
pub open spec fn delivery(ls: Seq<DelegateLinks>, at: int, target: Option<usize>) -> Seq<(usize, PropagationPhase)> {
    let fuel = (ls.len() + 1) as nat;
    in_phase(capture_order(ls, at, target, fuel), PropagationPhase::Capturing) + (if ls[at].0 == target {
        seq![(at as usize, PropagationPhase::Target)]
    } else {
        Seq::empty()
    }) + in_phase(bubble_order(ls, at, fuel), PropagationPhase::Bubbling)
}

/// The visit `v` of a dispatch of `event` to `target_id` was made: when
/// `v` names a delegate of the tree, that delegate ran its handlers for the
/// visit's phase with a propagation state in that phase, for that target,
/// with that delegate's component as the current target, neither stopped
/// nor with its default prevented.
pub open spec fn visit_made<H: DelegateHandler, E: 'static>(
    t: DelegationTree<H>,
    v: (usize, PropagationPhase),
    event: &E,
    target_id: Option<usize>,
) -> bool {
    v.0 < t.links().len() ==> exists|p: EventPropagation|
        p.phase == v.1 && p.target_id == target_id && p.current_target_id == t.links()[v.0 as int].0 && !p.stopped
            && !p.default_prevented && #[trigger] call_ensures(
            EventDelegate::<H>::run_handlers::<E>,
            (&t.delegate_at(v.0 as int), v.1, event, &p),
            (),
        )
}

/// A dispatch starts by capturing at the delegate it is made from; when
/// that delegate belongs to the target, the capturing phase goes no
/// further and the target phase follows at once; bubbling starts there
/// too and follows the parent links.
pub proof fn law_delivery_shape(ls: Seq<DelegateLinks>, at: int, target: Option<usize>)
    requires
        0 <= at < ls.len(),
    ensures
        delivery(ls, at, target)[0] == (at as usize, PropagationPhase::Capturing),
        ls[at].0 == target ==> delivery(ls, at, target)[1] == (at as usize, PropagationPhase::Target),
        ls[at].0 == target ==> delivery(ls, at, target)[2] == (at as usize, PropagationPhase::Bubbling),
        ls[at].0 == target && ls[at].1 is None ==> delivery(ls, at, target) == seq![
            (at as usize, PropagationPhase::Capturing),
            (at as usize, PropagationPhase::Target),
            (at as usize, PropagationPhase::Bubbling),
        ],
{
    let fuel = (ls.len() + 1) as nat;
    assert(capture_order(ls, at, target, fuel)[0] == at);
    if ls[at].0 == target {
        assert(capture_order(ls, at, target, fuel) == seq![at]);
        assert(bubble_order(ls, at, fuel)[0] == at);
        if ls[at].1 is None {
            assert(bubble_order(ls, at, fuel) == seq![at]);
            assert(delivery(ls, at, target) =~= seq![
                (at as usize, PropagationPhase::Capturing),
                (at as usize, PropagationPhase::Target),
                (at as usize, PropagationPhase::Bubbling),
            ]);
        }
    }
}

/// The delegate `n` parent links above `i` (`i` itself for none), or -1
/// when the links end before.
pub open spec fn ancestor(ls: Seq<DelegateLinks>, i: int, n: nat) -> int
    decreases n,
{
    if n == 0 {
        i
    } else if 0 <= i < ls.len() {
        match ls[i].1 {
            Some(p) => ancestor(ls, p as int, (n - 1) as nat),
            None => -1,
        }
    } else {
        -1
    }
}

/// The bubbling walk from `i` visits, `n` steps in, the delegate `n`
/// parent links above `i`.
proof fn lemma_bubble_ancestor(ls: Seq<DelegateLinks>, i: int, fuel: nat, n: nat)
    requires
        forall|j: int| 0 <= j < ls.len() ==> (#[trigger] ls[j].1 matches Some(p) ==> p < ls.len()),
        0 <= i < ls.len(),
        0 <= ancestor(ls, i, n) < ls.len(),
        n < fuel,
    ensures
        n < bubble_order(ls, i, fuel).len(),
        bubble_order(ls, i, fuel)[n as int] == ancestor(ls, i, n),
    decreases n,
{
    if n > 0 {
        let p = ls[i].1->Some_0;
        lemma_bubble_ancestor(ls, p as int, (fuel - 1) as nat, (n - 1) as nat);
    }
}

/// Law: a dispatch bubbles up through every ancestor of the delegate it
/// starts from: for each delegate reached by following parent links from
/// `at` (at most as many links as there are delegates), the dispatch visits
/// it in the bubbling phase.
pub proof fn law_bubbling_reaches_ancestors(ls: Seq<DelegateLinks>, at: int, target: Option<usize>, n: nat)
    requires
        forall|j: int| 0 <= j < ls.len() ==> (#[trigger] ls[j].1 matches Some(p) ==> p < ls.len()),
        0 <= at < ls.len(),
        0 <= ancestor(ls, at, n) < ls.len(),
        n <= ls.len(),
    ensures
        exists|k: int|
            0 <= k < delivery(ls, at, target).len() && #[trigger] delivery(ls, at, target)[k] == (
                ancestor(ls, at, n) as usize,
                PropagationPhase::Bubbling,
            ),
{
    let fuel = (ls.len() + 1) as nat;
    lemma_bubble_ancestor(ls, at, fuel, n);
    let c = in_phase(capture_order(ls, at, target, fuel), PropagationPhase::Capturing);
    let t: Seq<(usize, PropagationPhase)> = if ls[at].0 == target {
        seq![(at as usize, PropagationPhase::Target)]
    } else {
        Seq::empty()
    };
    let b = in_phase(bubble_order(ls, at, fuel), PropagationPhase::Bubbling);
    let k = c.len() + t.len() + n;
    assert(delivery(ls, at, target) == c + t + b);
    assert(delivery(ls, at, target)[k as int] == b[n as int]);
}

/// Delegates linked to each other, each at a place.
pub struct DelegationTree<H> {
    delegates: Vec<EventDelegate<H>>,
}

impl<H: DelegateHandler> DelegationTree<H> {
    /// The delegate at place `i`.
    pub closed spec fn delegate_at(&self, i: int) -> EventDelegate<H> {
        self.delegates@[i]
    }

    /// The links of the delegates, by place.
    pub closed spec fn links(&self) -> Seq<DelegateLinks> {
        self.delegates@.map_values(|d: EventDelegate<H>| d.links())
    }

    /// The handlers of the delegates, by place.
    pub closed spec fn handlers(&self) -> Seq<(Seq<H>, Seq<H>, Seq<H>)> {
        self.delegates@.map_values(|d: EventDelegate<H>| d.phase_handlers())
    }

    /// Every parent and child is a place of the tree.
    pub open spec fn wf(&self) -> bool {
        forall|i: int|
            0 <= i < self.links().len() ==> {
                &&& (#[trigger] self.links()[i]).1 matches Some(p) ==> p < self.links().len()
                &&& forall|k: int| 0 <= k < self.links()[i].2.len() ==> self.links()[i].2[k] < self.links().len()
            }
    }

    /// `down` decreases from each delegate to each of its children, `up`
    /// from each delegate to its parent.
    pub open spec fn ranked(&self, down: Map<int, nat>, up: Map<int, nat>) -> bool {
        &&& forall|i: int| 0 <= i < self.links().len() ==> down.dom().contains(i) && up.dom().contains(i)
        &&& forall|i: int, k: int|
            0 <= i < self.links().len() && 0 <= k < self.links()[i].2.len() ==> down[#[trigger] self.links()[i].2[k] as int]
                < down[i]
        &&& forall|i: int|
            0 <= i < self.links().len() && self.links()[i].1 is Some ==> up[self.links()[i].1->0 as int]
                < #[trigger] up[i]
    }

    /// Neither children links nor parent links form a cycle.
    pub open spec fn acyclic(&self) -> bool {
        exists|down: Map<int, nat>, up: Map<int, nat>| self.ranked(down, up)
    }

    /// A tree without delegates.
    pub fn new() -> (r: Self)
        ensures
            r.wf(),
            r.links().len() == 0,
    {
        let r = DelegationTree { delegates: Vec::new() };
        assert(r.links() =~= Seq::<DelegateLinks>::empty());
        r
    }

    /// How many delegates the tree holds.
    pub fn len(&self) -> (r: usize)
        ensures
            r == self.links().len(),
    {
        self.delegates.len()
    }

    /// Adds a delegate; its place is returned.
    pub fn insert(&mut self, delegate: EventDelegate<H>) -> (r: usize)
        requires
            old(self).wf(),
            delegate.links().1 is None,
            delegate.links().2.len() == 0,
        ensures
            final(self).wf(),
            r == old(self).links().len(),
            final(self).links() == old(self).links().push(delegate.links()),
    {
        let ghost before = self.delegates@;
        let r = self.delegates.len();
        self.delegates.push(delegate);
        assert(self.delegates@ == before.push(delegate));
        assert(self.links() =~= old(self).links().push(delegate.links()));
        r
    }

    /// The delegate at a place.
    pub fn delegate(&self, i: usize) -> (r: &EventDelegate<H>)
        requires
            i < self.links().len(),
        ensures
            r.links() == self.links()[i as int],
            *r == self.delegate_at(i as int),
    {
        &self.delegates[i]
    }

    /// Registers a handler for events of type `E` in the capturing phase
    /// of the delegate at `i`.
    pub fn capture<E: 'static>(&mut self, i: usize, handler: H)
        requires
            i < old(self).links().len(),
        ensures
            final(self).links() == old(self).links(),
            final(self).handlers() == old(self).handlers().update(i as int, (old(self).handlers()[i as int].0.push(handler), old(self).handlers()[i as int].1, old(self).handlers()[i as int].2)),
    {
        let mut d = self.delegates.remove(i);
        d.capture::<E>(handler);
        self.delegates.insert(i, d);
        assert(self.links() =~= old(self).links());
        assert(self.handlers() =~= old(self).handlers().update(i as int, (old(self).handlers()[i as int].0.push(handler), old(self).handlers()[i as int].1, old(self).handlers()[i as int].2)));
    }

    /// Registers a handler for events of type `E` in the bubbling phase of
    /// the delegate at `i`.
    pub fn bubble<E: 'static>(&mut self, i: usize, handler: H)
        requires
            i < old(self).links().len(),
        ensures
            final(self).links() == old(self).links(),
            final(self).handlers() == old(self).handlers().update(i as int, (old(self).handlers()[i as int].0, old(self).handlers()[i as int].1.push(handler), old(self).handlers()[i as int].2)),
    {
        let mut d = self.delegates.remove(i);
        d.bubble::<E>(handler);
        self.delegates.insert(i, d);
        assert(self.links() =~= old(self).links());
        assert(self.handlers() =~= old(self).handlers().update(i as int, (old(self).handlers()[i as int].0, old(self).handlers()[i as int].1.push(handler), old(self).handlers()[i as int].2)));
    }

    /// Registers a handler for events of type `E` at the delegate at `i`
    /// as the target.
    pub fn on<E: 'static>(&mut self, i: usize, handler: H)
        requires
            i < old(self).links().len(),
        ensures
            final(self).links() == old(self).links(),
            final(self).handlers() == old(self).handlers().update(i as int, (old(self).handlers()[i as int].0, old(self).handlers()[i as int].1, old(self).handlers()[i as int].2.push(handler))),
    {
        let mut d = self.delegates.remove(i);
        d.on::<E>(handler);
        self.delegates.insert(i, d);
        assert(self.links() =~= old(self).links());
        assert(self.handlers() =~= old(self).handlers().update(i as int, (old(self).handlers()[i as int].0, old(self).handlers()[i as int].1, old(self).handlers()[i as int].2.push(handler))));
    }

    /// Makes `parent` the parent of `child`, for bubbling.
    pub fn set_parent(&mut self, child: usize, parent: usize)
        requires
            old(self).wf(),
            child < old(self).links().len(),
            parent < old(self).links().len(),
        ensures
            final(self).wf(),
            final(self).links() == old(self).links().update(
                child as int,
                (old(self).links()[child as int].0, Some(parent), old(self).links()[child as int].2),
            ),
    {
        let mut d = self.delegates.remove(child);
        d.parent = Some(parent);
        self.delegates.insert(child, d);
        assert(self.links() =~= old(self).links().update(
            child as int,
            (old(self).links()[child as int].0, Some(parent), old(self).links()[child as int].2),
        ));
    }

    /// Adds `child` after the children of `parent`, for capturing.
    pub fn add_child(&mut self, parent: usize, child: usize)
        requires
            old(self).wf(),
            child < old(self).links().len(),
            parent < old(self).links().len(),
        ensures
            final(self).wf(),
            final(self).links() == old(self).links().update(
                parent as int,
                (
                    old(self).links()[parent as int].0,
                    old(self).links()[parent as int].1,
                    old(self).links()[parent as int].2.push(child),
                ),
            ),
    {
        let mut d = self.delegates.remove(parent);
        let ghost kids = d.children@;
        d.children.push(child);
        assert(d.children@ == kids.push(child));
        self.delegates.insert(parent, d);
        assert(self.links() =~= old(self).links().update(
            parent as int,
            (
                old(self).links()[parent as int].0,
                old(self).links()[parent as int].1,
                old(self).links()[parent as int].2.push(child),
            ),
        ));
        assert forall|i: int| 0 <= i < self.links().len() implies {
            &&& (#[trigger] self.links()[i]).1 matches Some(p) ==> p < self.links().len()
            &&& forall|k: int| 0 <= k < self.links()[i].2.len() ==> self.links()[i].2[k] < self.links().len()
        } by {
            if i == parent {
                assert forall|k: int| 0 <= k < self.links()[i].2.len() implies self.links()[i].2[k]
                    < self.links().len() by {
                    if k < kids.len() {
                        assert(self.links()[i].2[k] == old(self).links()[i].2[k]);
                    }
                }
            }
        }
    }

    /// Appends the capturing walk from `i` to `out`.
    fn capture_into(&self, i: usize, target: Option<usize>, fuel: usize, out: &mut Vec<(usize, PropagationPhase)>)
        requires
            self.wf(),
            i < self.links().len(),
        ensures
            final(out)@ == old(out)@ + in_phase(
                capture_order(self.links(), i as int, target, fuel as nat),
                PropagationPhase::Capturing,
            ),
        decreases fuel, 0int,
    {
        let ghost ls = self.links();
        if fuel == 0 {
            assert(in_phase(capture_order(ls, i as int, target, 0), PropagationPhase::Capturing) =~= Seq::<
                (usize, PropagationPhase),
            >::empty());
            return;
        }
        let ghost start = out@;
        out.push((i, PropagationPhase::Capturing));
        assert(ls[i as int].0 == self.delegates@[i as int].component_id);
        if self.delegates[i].component_id == target {
            assert(in_phase(capture_order(ls, i as int, target, fuel as nat), PropagationPhase::Capturing) =~= seq![
                (i, PropagationPhase::Capturing),
            ]);
            return;
        }
        let children = &self.delegates[i].children;
        assert(children@ == ls[i as int].2);
        let mut k: usize = 0;
        while k < children.len()
            invariant
                self.wf(),
                ls == self.links(),
                i < ls.len(),
                children@ == ls[i as int].2,
                k <= children@.len(),
                fuel > 0,
                out@ == start.push((i, PropagationPhase::Capturing)) + in_phase(
                    children_order(ls, children@, target, (fuel - 1) as nat, k as int),
                    PropagationPhase::Capturing,
                ),
            decreases children@.len() - k,
        {
            let ghost before = out@;
            let c = children[k];
            assert(c < ls.len());
            self.capture_into(c, target, fuel - 1, out);
            assert(in_phase(
                children_order(ls, children@, target, (fuel - 1) as nat, k + 1),
                PropagationPhase::Capturing,
            ) =~= in_phase(
                children_order(ls, children@, target, (fuel - 1) as nat, k as int),
                PropagationPhase::Capturing,
            ) + in_phase(capture_order(ls, c as int, target, (fuel - 1) as nat), PropagationPhase::Capturing));
            k = k + 1;
        }
        assert(in_phase(capture_order(ls, i as int, target, fuel as nat), PropagationPhase::Capturing) =~= seq![
            (i, PropagationPhase::Capturing),
        ] + in_phase(
            children_order(ls, children@, target, (fuel - 1) as nat, children@.len() as int),
            PropagationPhase::Capturing,
        ));
    }

    /// Appends the bubbling walk from `i` to `out`.
    fn bubble_into(&self, i: usize, fuel: usize, out: &mut Vec<(usize, PropagationPhase)>)
        requires
            self.wf(),
            i < self.links().len(),
        ensures
            final(out)@ == old(out)@ + in_phase(bubble_order(self.links(), i as int, fuel as nat), PropagationPhase::Bubbling),
        decreases fuel,
    {
        let ghost ls = self.links();
        if fuel == 0 {
            assert(in_phase(bubble_order(ls, i as int, 0), PropagationPhase::Bubbling) =~= Seq::<
                (usize, PropagationPhase),
            >::empty());
            return;
        }
        let ghost start = out@;
        out.push((i, PropagationPhase::Bubbling));
        assert(ls[i as int].1 == self.delegates@[i as int].parent);
        match self.delegates[i].parent {
            Some(p) => {
                self.bubble_into(p, fuel - 1, out);
                assert(in_phase(bubble_order(ls, i as int, fuel as nat), PropagationPhase::Bubbling) =~= seq![
                    (i, PropagationPhase::Bubbling),
                ] + in_phase(bubble_order(ls, p as int, (fuel - 1) as nat), PropagationPhase::Bubbling));
            },
            None => {
                assert(in_phase(bubble_order(ls, i as int, fuel as nat), PropagationPhase::Bubbling) =~= seq![
                    (i, PropagationPhase::Bubbling),
                ]);
            },
        }
    }

    /// The visits a dispatch from `at` to the component `target_id` makes,
    /// in order, each with its phase (see `delivery`).
    pub fn dispatch_plan(&self, at: usize, target_id: Option<usize>) -> (r: Vec<(usize, PropagationPhase)>)
        requires
            self.wf(),
            at < self.links().len(),
            self.links().len() < usize::MAX,
        ensures
            r@ == delivery(self.links(), at as int, target_id),
    {
        let fuel = self.delegates.len() + 1;
        let mut out: Vec<(usize, PropagationPhase)> = Vec::new();
        self.capture_into(at, target_id, fuel, &mut out);
        let ghost captured = out@;
        assert(self.links()[at as int].0 == self.delegates@[at as int].component_id);
        if self.delegates[at].component_id == target_id {
            out.push((at, PropagationPhase::Target));
        }
        let ghost middle = out@;
        self.bubble_into(at, fuel, &mut out);
        assert(out@ =~= delivery(self.links(), at as int, target_id));
        out
    }

    /// Dispatches an event from the delegate at `at` to the component
    /// `target_id`: each visit of `dispatch_plan`, in order, calls the
    /// handlers registered for events of type `E` in its phase, with the
    /// propagation state of that visit (the visited delegate as the current
    /// target). Handlers cannot stop the propagation. Neither children
    /// links nor parent links may form a cycle: the walks would not end.
    pub fn dispatch<E: 'static>(&self, at: usize, event: &E, target_id: Option<usize>)
        requires
            self.wf(),
            self.acyclic(),
            at < self.links().len(),
            self.links().len() < usize::MAX,
        ensures
            forall|k: int|
                0 <= k < delivery(self.links(), at as int, target_id).len() ==> visit_made(
                    *self,
                    #[trigger] delivery(self.links(), at as int, target_id)[k],
                    event,
                    target_id,
                ),
    {
        let plan = self.dispatch_plan(at, target_id);
        let mut k: usize = 0;
        while k < plan.len()
            invariant
                self.wf(),
                k <= plan@.len(),
                plan@ == delivery(self.links(), at as int, target_id),
                forall|j: int| 0 <= j < k ==> visit_made(*self, #[trigger] plan@[j], event, target_id),
            decreases plan@.len() - k,
        {
            let (i, phase) = plan[k];
            if i < self.delegates.len() {
                let propagation = EventPropagation {
                    stopped: false,
                    default_prevented: false,
                    phase,
                    target_id,
                    current_target_id: self.delegates[i].component_id,
                };
                self.delegates[i].run_handlers(phase, event, &propagation);
                assert(self.links()[i as int].0 == self.delegates@[i as int].component_id);
            }
            assert(visit_made(*self, plan@[k as int], event, target_id));
            k = k + 1;
        }
    }
}

/// The delegates from `r` on mirror the tree of node `n`: the delegate at
/// `r` is for `n`'s component and lists, in order, one delegate per child
/// of `n`, each after `r`, with `r` as parent, mirroring that child's tree.
pub open spec fn mirrors(ls: Seq<DelegateLinks>, r: int, n: Node) -> bool
    decreases node_count(n), 0int, 0int,
{
    proof {
        lemma_node_count(n);
    }
    &&& 0 <= r < ls.len()
    &&& r + node_count(n) <= ls.len()
    &&& ls[r].0 == Some(n.spec_id())
    &&& ls[r].2.len() == n.spec_children().len()
    &&& mirrors_from(ls, r, n.spec_children(), n.spec_children().len() as int)
}

/// The first `k` children listed by the delegate at `r` mirror the trees
/// of the first `k` nodes of `ns`.
pub open spec fn mirrors_from(ls: Seq<DelegateLinks>, r: int, ns: Seq<Node>, k: int) -> bool
    decreases nodes_count(ns, k), 1int, k,
{
    if k <= 0 || k > ns.len() {
        true
    } else {
        &&& mirrors_from(ls, r, ns, k - 1)
        &&& 0 <= r < ls.len()
        &&& k - 1 < ls[r].2.len()
        &&& r < ls[r].2[k - 1]
        &&& ls[r].2[k - 1] < ls.len()
        &&& ls[ls[r].2[k - 1] as int].1 == Some(r as usize)
        &&& mirrors(ls, ls[r].2[k - 1] as int, ns[k - 1])
    }
}

/// A mirror survives changes to delegates before it and new delegates
/// after all others.
proof fn lemma_mirrors_frame(l1: Seq<DelegateLinks>, l2: Seq<DelegateLinks>, r: int, n: Node, p: int)
    requires
        mirrors(l1, r, n),
        p < r,
        l1.len() <= l2.len(),
        forall|i: int| 0 <= i < l1.len() && i != p ==> #[trigger] l2[i] == l1[i],
    ensures
        mirrors(l2, r, n),
    decreases node_count(n), 0int, 0int,
{
    lemma_node_count(n);
    lemma_mirrors_from_frame(l1, l2, r, n.spec_children(), n.spec_children().len() as int, p);
}

/// The mirrored children survive changes to delegates other than theirs
/// and their parent's, and longer children lists of the parent that keep
/// the ones already listed.
proof fn lemma_mirrors_from_frame(l1: Seq<DelegateLinks>, l2: Seq<DelegateLinks>, r: int, ns: Seq<Node>, k: int, p: int)
    requires
        mirrors_from(l1, r, ns, k),
        p <= r,
        l1.len() <= l2.len(),
        forall|i: int| 0 <= i < l1.len() && i != p ==> #[trigger] l2[i] == l1[i],
        0 <= r < l1.len(),
        l2[r].2.len() >= l1[r].2.len(),
        forall|j: int| 0 <= j < l1[r].2.len() ==> #[trigger] l2[r].2[j] == l1[r].2[j],
    ensures
        mirrors_from(l2, r, ns, k),
    decreases nodes_count(ns, k), 1int, k,
{
    if 0 < k <= ns.len() {
        lemma_mirrors_from_frame(l1, l2, r, ns, k - 1, p);
        let c = l1[r].2[k - 1] as int;
        assert(l2[r].2[k - 1] == l1[r].2[k - 1]);
        assert(l2[c] == l1[c]);
        lemma_mirrors_frame(l1, l2, c, ns[k - 1], p);
    }
}

/// Builds delegates for a node and, below it, for its children: the node's
/// delegate is added (and returned), its parent set to `parent_delegate`,
/// which lists it as a child; the node's delegate lists the delegate of
/// each of its children once, in order, each with the node's delegate as
/// parent; the same holds below.
pub fn build_delegation_tree<H: DelegateHandler>(
    node: &Node,
    tree: &mut DelegationTree<H>,
    parent_delegate: Option<usize>,
) -> (r: usize)
    requires
        old(tree).wf(),
        parent_delegate matches Some(p) ==> p < old(tree).links().len(),
    ensures
        final(tree).wf(),
        r == old(tree).links().len(),
        final(tree).links().len() == old(tree).links().len() + node_count(*node),
        final(tree).links()[r as int].0 == Some(node.spec_id()),
        final(tree).links()[r as int].1 == parent_delegate,
        final(tree).links()[r as int].2.len() == node.spec_children().len(),
        forall|j: int|
            0 <= j < node.spec_children().len() ==> {
                let c = #[trigger] final(tree).links()[r as int].2[j];
                &&& r < c < final(tree).links().len()
                &&& final(tree).links()[c as int].0 == Some(node.spec_children()[j].spec_id())
                &&& final(tree).links()[c as int].1 == Some(r)
            },
        forall|i: int|
            0 <= i < old(tree).links().len() && Some(i as usize) != parent_delegate
                ==> #[trigger] final(tree).links()[i] == old(tree).links()[i],
        parent_delegate matches Some(p) ==> final(tree).links()[p as int] == (
            old(tree).links()[p as int].0,
            old(tree).links()[p as int].1,
            old(tree).links()[p as int].2.push(r),
        ),
        mirrors(final(tree).links(), r as int, *node),
    decreases node_count(*node),
{
    let ghost t0 = tree.links();
    let idx = tree.insert(EventDelegate::new(Some(node.id_value())));
    match parent_delegate {
        Some(p) => {
            tree.set_parent(idx, p);
            tree.add_child(p, idx);
        },
        None => {},
    }
    let children = node.children();
    proof {
        lemma_node_count(*node);
        assert(tree.links()[idx as int].2 =~= Seq::<usize>::empty());
    }
    let mut k: usize = 0;
    while k < children.len()
        invariant
            tree.wf(),
            children@ == node.spec_children(),
            k <= children@.len(),
            idx == t0.len(),
            tree.links().len() == t0.len() + 1 + nodes_count(children@, k as int),
            tree.links()[idx as int].0 == Some(node.spec_id()),
            tree.links()[idx as int].1 == parent_delegate,
            tree.links()[idx as int].2.len() == k,
            forall|j: int|
                0 <= j < k ==> {
                    let c = #[trigger] tree.links()[idx as int].2[j];
                    &&& idx < c < tree.links().len()
                    &&& tree.links()[c as int].0 == Some(children@[j].spec_id())
                    &&& tree.links()[c as int].1 == Some(idx)
                },
            forall|i: int|
                0 <= i < t0.len() && Some(i as usize) != parent_delegate ==> #[trigger] tree.links()[i] == t0[i],
            parent_delegate matches Some(p) ==> p < t0.len() && tree.links()[p as int] == (
                t0[p as int].0,
                t0[p as int].1,
                t0[p as int].2.push(idx),
            ),
            mirrors_from(tree.links(), idx as int, children@, k as int),
        decreases children@.len() - k,
    {
        proof {
            lemma_child_count(*node, k as int);
            lemma_node_count(children@[k as int]);
        }
        let ghost before = tree.links();
        let c = build_delegation_tree(&children[k], tree, Some(idx));
        proof {
            lemma_mirrors_from_frame(before, tree.links(), idx as int, children@, k as int, idx as int);
            assert(tree.links()[idx as int].2[k as int] == c);
            assert(mirrors_from(tree.links(), idx as int, children@, k + 1));
            assert(tree.links()[idx as int].2 == before[idx as int].2.push(c));
            assert forall|j: int| 0 <= j < k + 1 implies {
                let d = #[trigger] tree.links()[idx as int].2[j];
                &&& idx < d < tree.links().len()
                &&& tree.links()[d as int].0 == Some(children@[j].spec_id())
                &&& tree.links()[d as int].1 == Some(idx)
            } by {
                if j < k {
                    let d = before[idx as int].2[j];
                    assert(tree.links()[idx as int].2[j] == d);
                    assert(d != idx);
                    assert(tree.links()[d as int] == before[d as int]);
                }
            }
            assert(nodes_count(children@, k + 1) == nodes_count(children@, k as int) + node_count(children@[k as int]));
            assert forall|i: int|
                0 <= i < t0.len() && Some(i as usize) != parent_delegate implies #[trigger] tree.links()[i] == t0[i] by {
                assert(before[i] == t0[i]);
            }
        }
        k = k + 1;
    }
    proof {
        lemma_node_count(*node);
        assert(mirrors(tree.links(), idx as int, *node));
    }
    idx
}

/// Law: after a dispatch (its postcondition), every ancestor of the
/// delegate it started from has run its handlers in the bubbling phase,
/// with itself as the current target.
pub proof fn law_dispatch_bubbles_through_ancestors<H: DelegateHandler, E: 'static>(
    t: DelegationTree<H>,
    at: usize,
    event: &E,
    target_id: Option<usize>,
    n: nat,
)
    requires
        t.wf(),
        at < t.links().len(),
        forall|k: int|
            0 <= k < delivery(t.links(), at as int, target_id).len() ==> visit_made(
                t,
                #[trigger] delivery(t.links(), at as int, target_id)[k],
                event,
                target_id,
            ),
        0 <= ancestor(t.links(), at as int, n) < t.links().len(),
        n <= t.links().len(),
    ensures
        visit_made(t, (ancestor(t.links(), at as int, n) as usize, PropagationPhase::Bubbling), event, target_id),
{
    assert forall|j: int| 0 <= j < t.links().len() implies (#[trigger] t.links()[j].1 matches Some(p) ==> p < t.links().len()) by {}
    law_bubbling_reaches_ancestors(t.links(), at as int, target_id, n);
}

} // verus!
