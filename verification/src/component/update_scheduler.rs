//! Prioritized, de-duplicated scheduling of component updates.
use vstd::prelude::*;
use crate::component::{no_duplicates, position_of, ComponentId};

verus! {

/// Priority level of a component update.
#[derive(Debug, Clone, Copy, PartialEq, Eq, PartialOrd, Ord, Hash, Structural)]
pub enum UpdatePriority {
    /// May be delayed while higher-priority updates are pending.
    Low,
    /// Processed in order.
    Normal,
    /// Processed before normal updates.
    High,
    /// Processed first.
    Critical,
}

/// The rank of a priority in the queue: critical before high before the rest.
pub open spec fn rank(p: UpdatePriority) -> int {
    match p {
        UpdatePriority::Critical => 2,
        UpdatePriority::High => 1,
        _ => 0,
    }
}

/// A scheduled update.
#[derive(Debug, Clone, Copy, PartialEq, Eq, Structural)]
pub struct ScheduledUpdate {
    /// Component to update.
    pub component_id: ComponentId,
    /// Priority of the update.
    pub priority: UpdatePriority,
}

/// The components of a list of updates, in order.
pub open spec fn queued_ids(q: Seq<ScheduledUpdate>) -> Seq<ComponentId> {
    q.map_values(|u: ScheduledUpdate| u.component_id)
}

/// Ranks never increase along the queue.
pub open spec fn ordered(q: Seq<ScheduledUpdate>) -> bool {
    forall|i: int, j: int| 0 <= i < j < q.len() ==> rank(q[i].priority) >= rank(q[j].priority)
}

/// Position of the first update below high priority, or the queue length.
pub open spec fn first_below_high(q: Seq<ScheduledUpdate>) -> int
    decreases q.len(),
{
    if q.len() == 0 {
        0
    } else if rank(q[0].priority) == 0 {
        0
    } else {
        1 + first_below_high(q.drop_first())
    }
}

/// The queue after inserting a new update: critical updates go to the front,
/// high ones before the first normal or low one, the rest to the back.
pub open spec fn enqueue(q: Seq<ScheduledUpdate>, u: ScheduledUpdate) -> Seq<ScheduledUpdate> {
    match u.priority {
        UpdatePriority::Critical => seq![u] + q,
        UpdatePriority::High => q.take(first_below_high(q)) + seq![u] + q.skip(first_below_high(q)),
        _ => q.push(u),
    }
}

/// Scheduler that batches component updates, each component at most once,
/// ordered by priority.
#[derive(Debug, Clone)]
pub struct UpdateScheduler {
    updates: Vec<ScheduledUpdate>,
    pending: Vec<ComponentId>,
    updating: bool,
}

impl Default for UpdateScheduler {
    fn default() -> (r: Self)
        ensures
            r.wf(),
            r.queue().len() == 0,
    {
        Self::new()
    }
}

impl UpdateScheduler {
    /// The queued updates, in processing order.
    pub closed spec fn queue(self) -> Seq<ScheduledUpdate> {
        self.updates@
    }

    /// The queue holds each pending component once, ordered by rank.
    pub closed spec fn wf(self) -> bool {
        &&& no_duplicates(queued_ids(self.updates@))
        &&& self.pending@ == queued_ids(self.updates@)
        &&& ordered(self.updates@)
    }

    /// An empty scheduler.
    pub fn new() -> (r: Self)
        ensures
            r.wf(),
            r.queue().len() == 0,
    {
        let r = UpdateScheduler { updates: Vec::new(), pending: Vec::new(), updating: false };
        assert(queued_ids(r.updates@) =~= r.pending@);
        r
    }

    /// Schedule a component for update. A component already pending is left
    /// where it is; otherwise its update is queued by priority.
    pub fn schedule_update(&mut self, component_id: ComponentId, priority: UpdatePriority) -> (r: Result<(), String>)
        requires
            old(self).wf(),
        ensures
            r is Ok,
            final(self).wf(),
            queued_ids(old(self).queue()).contains(component_id) ==> final(self).queue() == old(self).queue(),
            !queued_ids(old(self).queue()).contains(component_id) ==> final(self).queue() == enqueue(
                old(self).queue(),
                ScheduledUpdate { component_id, priority },
            ),
    {
        if position_of(&self.pending, component_id).is_some() {
            return Ok(());
        }
        let u = ScheduledUpdate { component_id, priority };
        let ghost q = self.updates@;
        match priority {
            UpdatePriority::Critical => {
                self.updates.insert(0, u);
                self.pending.insert(0, component_id);
                assert(self.updates@ =~= seq![u] + q);
            },
            UpdatePriority::High => {
                let pos = self.first_below_high_pos();
                self.updates.insert(pos, u);
                self.pending.insert(pos, component_id);
                assert(self.updates@ =~= q.take(pos as int) + seq![u] + q.skip(pos as int));
            },
            _ => {
                self.updates.push(u);
                self.pending.push(component_id);
            },
        }
        proof {
            lemma_enqueue_keeps_wf(q, u);
        }
        assert(self.pending@ =~= queued_ids(self.updates@));
        Ok(())
    }

    /// Position of the first queued update below high priority.
    fn first_below_high_pos(&self) -> (r: usize)
        ensures
            r == first_below_high(self.updates@),
            r <= self.updates@.len(),
    {
        let mut i: usize = 0;
        assert(self.updates@.skip(0) =~= self.updates@);
        while i < self.updates.len()
            invariant
                i <= self.updates@.len(),
                first_below_high(self.updates@) == i + first_below_high(self.updates@.skip(i as int)),
            decreases self.updates.len() - i,
        {
            match self.updates[i].priority {
                UpdatePriority::Low | UpdatePriority::Normal => {
                    return i;
                },
                _ => {},
            }
            assert(self.updates@.skip(i as int).drop_first() =~= self.updates@.skip(i + 1));
            i = i + 1;
        }
        i
    }

    /// Process all queued updates in order, calling `update_component` once
    /// for each, with its component; a failing call does not stop the
    /// others. Returns how many updates were processed.
    pub fn process_updates<F>(&mut self, update_component: F) -> (r: Result<usize, String>) where
        F: FnMut(ComponentId) -> Result<(), String>,

        requires
            old(self).wf(),
            forall|id: ComponentId| #[trigger] call_requires(update_component, (id,)),
        ensures
            final(self).wf(),
            final(self).queue().len() == 0,
            r == Ok::<usize, String>(old(self).queue().len() as usize),
            exists|rs: Seq<Result<(), String>>|
                {
                    &&& #[trigger] rs.len() == old(self).queue().len()
                    &&& forall|i: int|
                        0 <= i < rs.len() ==> #[trigger] call_ensures(
                            update_component,
                            (queued_ids(old(self).queue())[i],),
                            rs[i],
                        )
                },
    {
        let mut f = update_component;
        self.updating = true;
        let mut count: usize = 0;
        let ghost total = self.updates@.len();
        let ghost ids = queued_ids(self.updates@);
        let ghost mut rs: Seq<Result<(), String>> = Seq::empty();
        assert(total <= usize::MAX) by {
            assert(self.updates@.len() == self.updates.len());
        }
        assert(ids.skip(0) =~= ids);
        while self.updates.len() > 0
            invariant
                self.wf(),
                count + self.updates@.len() == total,
                total <= usize::MAX,
                ids.len() == total,
                queued_ids(self.updates@) == ids.skip(count as int),
                rs.len() == count,
                f == update_component,
                forall|i: int| 0 <= i < rs.len() ==> #[trigger] call_ensures(f, (ids[i],), rs[i]),
                forall|id: ComponentId| #[trigger] call_requires(f, (id,)),
            decreases self.updates@.len(),
        {
            let ghost q = self.updates@;
            let u = self.updates.remove(0);
            self.pending.remove(0);
            assert(self.updates@ =~= q.drop_first());
            assert(queued_ids(self.updates@) =~= queued_ids(q).drop_first());
            assert(u.component_id == ids[count as int]) by {
                assert(queued_ids(q)[0] == q[0].component_id);
                assert(ids.skip(count as int)[0] == ids[count as int]);
            }
            let res = f(u.component_id);
            proof {
                rs = rs.push(res);
                assert(ids.skip(count as int).drop_first() =~= ids.skip(count + 1));
            }
            count = count + 1;
        }
        self.updating = false;
        Ok(count)
    }

    /// Whether any update is pending.
    pub fn has_pending_updates(&self) -> (r: Result<bool, String>)
        requires
            self.wf(),
        ensures
            r == Ok::<bool, String>(self.queue().len() > 0),
    {
        Ok(self.pending.len() > 0)
    }

    /// The number of pending updates.
    pub fn pending_update_count(&self) -> (r: Result<usize, String>)
        requires
            self.wf(),
        ensures
            r == Ok::<usize, String>(self.queue().len() as usize),
    {
        Ok(self.pending.len())
    }

    /// Drop all queued updates.
    pub fn clear_updates(&mut self) -> (r: Result<(), String>)
        ensures
            r is Ok,
            final(self).wf(),
            final(self).queue().len() == 0,
    {
        self.updates.clear();
        self.pending.clear();
        assert(queued_ids(self.updates@) =~= self.pending@);
        Ok(())
    }
}

/// Positions before `first_below_high` hold critical or high updates, and
/// the one there (if any) is normal or low.
proof fn lemma_first_below_high(q: Seq<ScheduledUpdate>)
    ensures
        0 <= first_below_high(q) <= q.len(),
        forall|i: int| 0 <= i < first_below_high(q) ==> rank(#[trigger] q[i].priority) >= 1,
        first_below_high(q) < q.len() ==> rank(q[first_below_high(q)].priority) == 0,
    decreases q.len(),
{
    if q.len() > 0 && rank(q[0].priority) != 0 {
        lemma_first_below_high(q.drop_first());
        assert forall|i: int| 0 <= i < first_below_high(q) implies rank(#[trigger] q[i].priority) >= 1 by {
            if i > 0 {
                assert(q[i] == q.drop_first()[i - 1]);
            }
        }
    }
}

/// Enqueueing a component that is not queued keeps the queue free of
/// duplicates and ordered by rank.
pub proof fn lemma_enqueue_keeps_wf(q: Seq<ScheduledUpdate>, u: ScheduledUpdate)
    requires
        no_duplicates(queued_ids(q)),
        ordered(q),
        !queued_ids(q).contains(u.component_id),
    ensures
        no_duplicates(queued_ids(enqueue(q, u))),
        ordered(enqueue(q, u)),
        queued_ids(enqueue(q, u)).to_set() == queued_ids(q).to_set().insert(u.component_id),
{
    let r = enqueue(q, u);
    lemma_first_below_high(q);
    let p = first_below_high(q);
    assert forall|k: int| 0 <= k < q.len() implies #[trigger] q[k].component_id != u.component_id by {
        assert(queued_ids(q)[k] == q[k].component_id);
    }
    // every element of r is u or an element of q, with a matching index map
    assert(r.len() == q.len() + 1);
    let idx = |k: int|
        match u.priority {
            UpdatePriority::Critical => k - 1,
            UpdatePriority::High => if k < p {
                k
            } else {
                k - 1
            },
            _ => k,
        };
    let upos = match u.priority {
        UpdatePriority::Critical => 0,
        UpdatePriority::High => p,
        _ => q.len() as int,
    };
    assert forall|k: int| 0 <= k < r.len() implies (k == upos ==> #[trigger] r[k] == u) && (k
        != upos ==> r[k] == q[idx(k)] && 0 <= idx(k) < q.len()) by {}
    assert forall|i: int, j: int| 0 <= i < j < r.len() implies queued_ids(r)[i] != queued_ids(r)[j] by {
        assert(queued_ids(r)[i] == r[i].component_id);
        assert(queued_ids(r)[j] == r[j].component_id);
        if i != upos && j != upos {
            assert(queued_ids(q)[idx(i)] == q[idx(i)].component_id);
            assert(queued_ids(q)[idx(j)] == q[idx(j)].component_id);
        }
    }
    assert forall|i: int, j: int| 0 <= i < j < r.len() implies rank(r[i].priority) >= rank(
        r[j].priority,
    ) by {
        if i != upos && j != upos {
        } else if i == upos {
            if u.priority == UpdatePriority::High {
                assert(j > p);
            }
        } else {
            if u.priority == UpdatePriority::High {
                assert(i < p);
            }
        }
    }
    assert forall|x: ComponentId| queued_ids(r).to_set().contains(x) <==> queued_ids(q).to_set().insert(u.component_id).contains(x) by {
        if queued_ids(r).to_set().contains(x) {
            let k = choose|k: int| 0 <= k < queued_ids(r).len() && queued_ids(r)[k] == x;
            assert(queued_ids(r)[k] == r[k].component_id);
            if k != upos {
                assert(queued_ids(q)[idx(k)] == q[idx(k)].component_id);
            }
        }
        if queued_ids(q).to_set().insert(u.component_id).contains(x) {
            if x == u.component_id {
                assert(queued_ids(r)[upos] == r[upos].component_id);
            } else {
                let k = choose|k: int| 0 <= k < queued_ids(q).len() && queued_ids(q)[k] == x;
                let kk = match u.priority {
                    UpdatePriority::Critical => k + 1,
                    UpdatePriority::High => if k < p {
                        k
                    } else {
                        k + 1
                    },
                    _ => k,
                };
                assert(r[kk] == q[k]);
                assert(queued_ids(r)[kk] == r[kk].component_id);
                assert(queued_ids(q)[k] == q[k].component_id);
            }
        }
    }
    assert(queued_ids(r).to_set() =~= queued_ids(q).to_set().insert(u.component_id));
}

} // verus!
