//! Component lifecycle: the steps a component takes part in, callbacks
//! registered per phase, the context a component lives in, and the manager
//! that moves a component through its phases.
use vstd::prelude::*;

use crate::component::composition::Node;
use crate::component::state_tracking::{StateChanges, StateTracker, StateValue};
use crate::component::{
    ComponentError, ComponentId, LifecyclePhase, MountContext, UnmountContext, UnmountReason,
    UpdateScheduler,
};
use crate::time::instant_now;

verus! {

/// A UI component: what it does at each step of its life. Each step
/// succeeds unless the component says otherwise.
pub trait Component: Sized {
    /// The props of the component.
    type Props: Clone + 'static;

    /// The component's identifier.
    fn component_id(&self) -> ComponentId;

    /// Called once, right after creation.
    fn initialize(&mut self) -> (r: Result<(), ComponentError>)
        default_ensures
            r is Ok,
            *final(self) == *old(self),
    {
        Ok(())
    }

    /// Called when the component is first added to the tree.
    fn mount(&mut self) -> (r: Result<(), ComponentError>)
        default_ensures
            r is Ok,
            *final(self) == *old(self),
    {
        Ok(())
    }

    /// Called when the component is mounted, with the mount context; by
    /// default it calls `mount`.
    fn on_mount(&mut self, context: &MountContext) -> (r: Result<(), ComponentError>)
        default_ensures
            exists|m: &mut Self|
                mut_ref_current(m) == *old(self) && mut_ref_future(m) == *final(self)
                    && #[trigger] call_ensures(Self::mount, (m,), r),
    {
        self.mount()
    }

    /// Called before the component is mounted.
    fn before_mount(&mut self) -> (r: Result<(), ComponentError>)
        default_ensures
            r is Ok,
            *final(self) == *old(self),
    {
        Ok(())
    }

    /// Called after the component was mounted.
    fn after_mount(&mut self) -> (r: Result<(), ComponentError>)
        default_ensures
            r is Ok,
            *final(self) == *old(self),
    {
        Ok(())
    }

    /// Called when a piece of state changed; by default it asks for an
    /// update.
    fn state_changed(&mut self, state_key: &str) -> (r: Result<(), ComponentError>)
        default_ensures
            exists|m: &mut Self|
                mut_ref_current(m) == *old(self) && mut_ref_future(m) == *final(self)
                    && #[trigger] call_ensures(Self::request_update, (m,), r),
    {
        self.request_update()
    }

    /// Called with the state changes that were detected.
    fn on_update(&mut self, changes: &StateChanges) -> (r: Result<(), ComponentError>)
        default_ensures
            r is Ok,
            *final(self) == *old(self),
    {
        Ok(())
    }

    /// Asks for the component to be rendered again.
    fn request_update(&mut self) -> (r: Result<(), ComponentError>)
        default_ensures
            r is Ok,
            *final(self) == *old(self),
    {
        Ok(())
    }

    /// Whether the component should update for new props; by default it
    /// always should.
    fn should_update(&self, new_props: &Self::Props) -> (r: bool)
        default_ensures
            r,
    {
        true
    }

    /// Called before the component updates with new props.
    fn before_update(&mut self, new_props: &Self::Props) -> (r: Result<(), ComponentError>)
        default_ensures
            r is Ok,
            *final(self) == *old(self),
    {
        Ok(())
    }

    /// Updates the component with new props.
    fn update(&mut self, props: Self::Props) -> Result<(), ComponentError>;

    /// Called after the component updated.
    fn after_update(&mut self) -> (r: Result<(), ComponentError>)
        default_ensures
            r is Ok,
            *final(self) == *old(self),
    {
        Ok(())
    }

    /// Called before the component is unmounted.
    fn before_unmount(&mut self) -> (r: Result<(), ComponentError>)
        default_ensures
            r is Ok,
            *final(self) == *old(self),
    {
        Ok(())
    }

    /// Called when the component is unmounted, with the unmount context; by
    /// default it calls `unmount`.
    fn on_unmount(&mut self, context: &UnmountContext) -> (r: Result<(), ComponentError>)
        default_ensures
            exists|m: &mut Self|
                mut_ref_current(m) == *old(self) && mut_ref_future(m) == *final(self)
                    && #[trigger] call_ensures(Self::unmount, (m,), r),
    {
        self.unmount()
    }

    /// Called after the component was unmounted.
    fn after_unmount(&mut self) -> (r: Result<(), ComponentError>)
        default_ensures
            r is Ok,
            *final(self) == *old(self),
    {
        Ok(())
    }

    /// Called when the component is removed from the tree.
    fn unmount(&mut self) -> (r: Result<(), ComponentError>)
        default_ensures
            r is Ok,
            *final(self) == *old(self),
    {
        Ok(())
    }

    /// Releases what the component holds.
    fn cleanup(&mut self) -> (r: Result<(), ComponentError>)
        default_ensures
            r is Ok,
            *final(self) == *old(self),
    {
        Ok(())
    }

    /// The child nodes of the component.
    fn render(&self) -> Result<Vec<Node>, ComponentError>;

    /// The phase the component reports; by default `Created`.
    fn lifecycle_phase(&self) -> (r: LifecyclePhase)
        default_ensures
            r == LifecyclePhase::Created,
    {
        LifecyclePhase::Created
    }
}

/// A callback run on a component at some phase of its life.
pub trait LifecycleCallback<C> {
    /// Runs the callback on the component.
    fn call(&mut self, component: &mut C);
}

/// `i` is a step of a run through the component states `cs`.
pub open spec fn run_step<C>(cs: Seq<C>, i: int) -> bool {
    0 <= i && i + 1 < cs.len()
}

/// Runs each callback of a list on a component, first to last: the list
/// keeps its callbacks in their order, each as its call left it, and the
/// component goes through the states the calls lead it through.
fn run_all<C, H: LifecycleCallback<C>>(callbacks: &mut Vec<H>, component: &mut C)
    ensures
        final(callbacks)@.len() == old(callbacks)@.len(),
        exists|cs: Seq<C>|
            {
                &&& cs.len() == old(callbacks)@.len() + 1
                &&& cs[0] == *old(component)
                &&& cs.last() == *final(component)
                &&& forall|i: int|
                    #[trigger] run_step(cs, i) ==> exists|mh: &mut H, mc: &mut C|
                        {
                            &&& mut_ref_current(mh) == old(callbacks)@[i]
                            &&& mut_ref_future(mh) == final(callbacks)@[i]
                            &&& mut_ref_current(mc) == cs[i]
                            &&& mut_ref_future(mc) == cs[i + 1]
                            &&& #[trigger] call_ensures(H::call, (mh, mc), ())
                        }
            },
{
    let mut waiting: Vec<H> = Vec::new();
    std::mem::swap(&mut waiting, callbacks);
    let ghost orig = waiting@;
    let ghost mut cs: Seq<C> = seq![*component];
    while waiting.len() > 0
        invariant
            waiting@ == orig.skip(callbacks@.len() as int),
            callbacks@.len() <= orig.len(),
            orig == old(callbacks)@,
            cs.len() == callbacks@.len() + 1,
            cs[0] == *old(component),
            cs.last() == *component,
            forall|i: int|
                #[trigger] run_step(cs, i) ==> exists|mh: &mut H, mc: &mut C|
                        {
                            &&& mut_ref_current(mh) == orig[i]
                            &&& mut_ref_future(mh) == callbacks@[i]
                            &&& mut_ref_current(mc) == cs[i]
                            &&& mut_ref_future(mc) == cs[i + 1]
                            &&& #[trigger] call_ensures(H::call, (mh, mc), ())
                        },
        decreases waiting@.len(),
    {
        let ghost k = callbacks@.len() as int;
        let mut callback = waiting.remove(0);
        assert(callback == orig[k]);
        let ghost before_cs = cs;
        let ghost before = callbacks@;
        callback.call(component);
        proof {
            cs = cs.push(*component);
        }
        callbacks.push(callback);
        assert(callbacks@ == before.push(callback));
        assert(waiting@ =~= orig.skip(callbacks@.len() as int));
        assert forall|i: int| #[trigger] run_step(cs, i) implies exists|mh: &mut H, mc: &mut C|
                        {
                            &&& mut_ref_current(mh) == orig[i]
                            &&& mut_ref_future(mh) == callbacks@[i]
                            &&& mut_ref_current(mc) == cs[i]
                            &&& mut_ref_future(mc) == cs[i + 1]
                            &&& #[trigger] call_ensures(H::call, (mh, mc), ())
                        } by {
            if i < k {
                assert(run_step(before_cs, i));
                assert(cs[i] == before_cs[i]);
                assert(cs[i + 1] == before_cs[i + 1]);
                assert(callbacks@[i] == before[i]);
            }
        }
    }
}

/// The list of callbacks run at a phase, if any: on mount for `Mounted`,
/// before update for `BeforeUpdate`, on update for `Updating`, before
/// unmount for `BeforeUnmount`, on unmount for `Unmounted`.
pub open spec fn phase_list(phase: LifecyclePhase) -> Option<int> {
    match phase {
        LifecyclePhase::Mounted => Some(0),
        LifecyclePhase::BeforeUpdate => Some(1),
        LifecyclePhase::Updating => Some(2),
        LifecyclePhase::BeforeUnmount => Some(3),
        LifecyclePhase::Unmounted => Some(4),
        _ => None,
    }
}

/// Callbacks registered for the phases of a component.
pub struct LifecycleHooks<H> {
    on_mount: Vec<H>,
    on_before_update: Vec<H>,
    on_update: Vec<H>,
    on_before_unmount: Vec<H>,
    on_unmount: Vec<H>,
}

impl<H> LifecycleHooks<H> {
    /// How many callbacks are registered: on mount, before update, on
    /// update, before unmount and on unmount.
    pub closed spec fn counts(&self) -> (nat, nat, nat, nat, nat) {
        (
            self.on_mount@.len(),
            self.on_before_update@.len(),
            self.on_update@.len(),
            self.on_before_unmount@.len(),
            self.on_unmount@.len(),
        )
    }

    /// The callbacks of one list, in the order they were registered: on
    /// mount (0), before update (1), on update (2), before unmount (3), on
    /// unmount (4).
    pub closed spec fn list(&self, j: int) -> Seq<H> {
        if j == 0 {
            self.on_mount@
        } else if j == 1 {
            self.on_before_update@
        } else if j == 2 {
            self.on_update@
        } else if j == 3 {
            self.on_before_unmount@
        } else {
            self.on_unmount@
        }
    }

    /// No callbacks.
    pub fn new() -> (r: Self)
        ensures
            r.counts() == (0nat, 0nat, 0nat, 0nat, 0nat),
    {
        LifecycleHooks {
            on_mount: Vec::new(),
            on_before_update: Vec::new(),
            on_update: Vec::new(),
            on_before_unmount: Vec::new(),
            on_unmount: Vec::new(),
        }
    }

    /// Registers a callback run when the component is mounted.
    pub fn on_mount(&mut self, callback: H)
        ensures
            final(self).counts().0 == old(self).counts().0 + 1,
            final(self).counts().1 == old(self).counts().1,
            final(self).counts().2 == old(self).counts().2,
            final(self).counts().3 == old(self).counts().3,
            final(self).counts().4 == old(self).counts().4,
    {
        let ghost l = self.on_mount@;
        self.on_mount.push(callback);
        assert(self.on_mount@ == l.push(callback));
        assert(self.on_mount@.len() == l.len() + 1);
    }

    /// Registers a callback run before the component updates.
    pub fn on_before_update(&mut self, callback: H)
        ensures
            final(self).counts().0 == old(self).counts().0,
            final(self).counts().1 == old(self).counts().1 + 1,
            final(self).counts().2 == old(self).counts().2,
            final(self).counts().3 == old(self).counts().3,
            final(self).counts().4 == old(self).counts().4,
    {
        let ghost l = self.on_before_update@;
        self.on_before_update.push(callback);
        assert(self.on_before_update@ == l.push(callback));
        assert(self.on_before_update@.len() == l.len() + 1);
    }

    /// Registers a callback run when the component updates.
    pub fn on_update(&mut self, callback: H)
        ensures
            final(self).counts().0 == old(self).counts().0,
            final(self).counts().1 == old(self).counts().1,
            final(self).counts().2 == old(self).counts().2 + 1,
            final(self).counts().3 == old(self).counts().3,
            final(self).counts().4 == old(self).counts().4,
    {
        let ghost l = self.on_update@;
        self.on_update.push(callback);
        assert(self.on_update@ == l.push(callback));
        assert(self.on_update@.len() == l.len() + 1);
    }

    /// Registers a callback run before the component unmounts.
    pub fn on_before_unmount(&mut self, callback: H)
        ensures
            final(self).counts().0 == old(self).counts().0,
            final(self).counts().1 == old(self).counts().1,
            final(self).counts().2 == old(self).counts().2,
            final(self).counts().3 == old(self).counts().3 + 1,
            final(self).counts().4 == old(self).counts().4,
    {
        let ghost l = self.on_before_unmount@;
        self.on_before_unmount.push(callback);
        assert(self.on_before_unmount@ == l.push(callback));
        assert(self.on_before_unmount@.len() == l.len() + 1);
    }

    /// Registers a callback run when the component unmounts.
    pub fn on_unmount(&mut self, callback: H)
        ensures
            final(self).counts().0 == old(self).counts().0,
            final(self).counts().1 == old(self).counts().1,
            final(self).counts().2 == old(self).counts().2,
            final(self).counts().3 == old(self).counts().3,
            final(self).counts().4 == old(self).counts().4 + 1,
    {
        let ghost l = self.on_unmount@;
        self.on_unmount.push(callback);
        assert(self.on_unmount@ == l.push(callback));
        assert(self.on_unmount@.len() == l.len() + 1);
    }

    /// Runs the callbacks registered for a phase: mount callbacks for
    /// `Mounted`, before-update ones for `BeforeUpdate`, update ones for
    /// `Updating`, before-unmount ones for `BeforeUnmount` and unmount ones
    /// for `Unmounted`; none for the other phases.
    fn execute<C>(&mut self, phase: LifecyclePhase, component: &mut C) where H: LifecycleCallback<C>
        ensures
            final(self).counts() == old(self).counts(),
            phase_list(phase) is None ==> *final(self) == *old(self) && *final(component) == *old(component),
            phase_list(phase) matches Some(k) ==> {
                &&& forall|j: int| 0 <= j < 5 && j != k ==> #[trigger] final(self).list(j) == old(self).list(j)
                &&& final(self).list(k).len() == old(self).list(k).len()
                &&& exists|cs: Seq<C>|
                {
                    &&& cs.len() == old(self).list(k).len() + 1
                    &&& cs[0] == *old(component)
                    &&& cs.last() == *final(component)
                    &&& forall|i: int|
                        #[trigger] run_step(cs, i) ==> exists|mh: &mut H, mc: &mut C|
                            {
                                &&& mut_ref_current(mh) == old(self).list(k)[i]
                                &&& mut_ref_future(mh) == final(self).list(k)[i]
                                &&& mut_ref_current(mc) == cs[i]
                                &&& mut_ref_future(mc) == cs[i + 1]
                                &&& #[trigger] call_ensures(H::call, (mh, mc), ())
                            }
                }
            },
    {
        match phase {
            LifecyclePhase::Mounted => {
                run_all(&mut self.on_mount, component);
                assert(self.list(0) == self.on_mount@);
                assert(old(self).list(0) == old(self).on_mount@);
                assert forall|j: int| 0 <= j < 5 && j != 0 implies #[trigger] self.list(j) == old(self).list(j) by {}
            },
            LifecyclePhase::BeforeUpdate => {
                run_all(&mut self.on_before_update, component);
                assert(self.list(1) == self.on_before_update@);
                assert(old(self).list(1) == old(self).on_before_update@);
                assert forall|j: int| 0 <= j < 5 && j != 1 implies #[trigger] self.list(j) == old(self).list(j) by {}
            },
            LifecyclePhase::Updating => {
                run_all(&mut self.on_update, component);
                assert(self.list(2) == self.on_update@);
                assert(old(self).list(2) == old(self).on_update@);
                assert forall|j: int| 0 <= j < 5 && j != 2 implies #[trigger] self.list(j) == old(self).list(j) by {}
            },
            LifecyclePhase::BeforeUnmount => {
                run_all(&mut self.on_before_unmount, component);
                assert(self.list(3) == self.on_before_unmount@);
                assert(old(self).list(3) == old(self).on_before_unmount@);
                assert forall|j: int| 0 <= j < 5 && j != 3 implies #[trigger] self.list(j) == old(self).list(j) by {}
            },
            LifecyclePhase::Unmounted => {
                run_all(&mut self.on_unmount, component);
                assert(self.list(4) == self.on_unmount@);
                assert(old(self).list(4) == old(self).on_unmount@);
                assert forall|j: int| 0 <= j < 5 && j != 4 implies #[trigger] self.list(j) == old(self).list(j) by {}
            },
            _ => {},
        }
    }
}

/// What a component lives in: its identifier, its phase, the callbacks
/// registered for its phases and the updates it scheduled.
pub struct Context<H> {
    id: ComponentId,
    lifecycle_hooks: LifecycleHooks<H>,
    lifecycle_phase: LifecyclePhase,
    update_scheduler: UpdateScheduler,
}

impl<H> Context<H> {
    /// The identifier of the context.
    pub closed spec fn spec_id(&self) -> ComponentId {
        self.id
    }

    /// The phase recorded in the context.
    pub closed spec fn phase(&self) -> LifecyclePhase {
        self.lifecycle_phase
    }

    /// The components with a scheduled update.
    pub closed spec fn pending(&self) -> Set<ComponentId> {
        self.update_scheduler.pending()
    }

    /// The callbacks registered.
    pub closed spec fn hooks(&self) -> LifecycleHooks<H> {
        self.lifecycle_hooks
    }

    /// How many callbacks are registered per phase.
    pub closed spec fn hook_counts(&self) -> (nat, nat, nat, nat, nat) {
        self.lifecycle_hooks.counts()
    }

    /// The update record is consistent.
    pub closed spec fn wf(&self) -> bool {
        self.update_scheduler.wf()
    }

    /// Both contexts agree on all but the phase.
    pub open spec fn agrees(&self, other: &Self) -> bool {
        &&& self.spec_id() == other.spec_id()
        &&& self.pending() == other.pending()
        &&& self.hook_counts() == other.hook_counts()
        &&& self.wf() == other.wf()
    }

    /// A context with the given identifier, in phase `Created`, with no
    /// callbacks and no scheduled update.
    pub fn new(id: ComponentId) -> (r: Self)
        ensures
            r.wf(),
            r.spec_id() == id,
            r.phase() == LifecyclePhase::Created,
            r.pending() == Set::<ComponentId>::empty(),
            r.hook_counts() == (0nat, 0nat, 0nat, 0nat, 0nat),
    {
        Context {
            id,
            lifecycle_hooks: LifecycleHooks::new(),
            lifecycle_phase: LifecyclePhase::Created,
            update_scheduler: UpdateScheduler::new(),
        }
    }

    /// The identifier of the context.
    pub fn id(&self) -> (r: ComponentId)
        ensures
            r == self.spec_id(),
    {
        self.id
    }

    /// The phase recorded in the context.
    pub fn lifecycle_phase(&self) -> (r: LifecyclePhase)
        ensures
            r == self.phase(),
    {
        self.lifecycle_phase
    }

    /// Records a phase.
    pub(crate) fn set_lifecycle_phase(&mut self, phase: LifecyclePhase)
        ensures
            final(self).phase() == phase,
            final(self).agrees(old(self)),
            final(self).hooks() == old(self).hooks(),
    {
        self.lifecycle_phase = phase;
    }

    /// Schedules an update of a component.
    pub fn schedule_update(&mut self, component_id: ComponentId)
        requires
            old(self).wf(),
        ensures
            final(self).wf(),
            final(self).pending() == old(self).pending().insert(component_id),
            final(self).spec_id() == old(self).spec_id(),
            final(self).phase() == old(self).phase(),
            final(self).hook_counts() == old(self).hook_counts(),
    {
        self.update_scheduler.schedule_update(component_id);
    }

    /// Whether a component has a scheduled update.
    pub fn has_pending_update(&self, component_id: ComponentId) -> (r: bool)
        ensures
            r == self.pending().contains(component_id),
    {
        self.update_scheduler.has_pending_update(component_id)
    }

    /// The callbacks of the context, to register more.
    pub fn lifecycle_hooks_mut(&mut self) -> (r: &mut LifecycleHooks<H>)
        ensures
            *r == old(self).hooks(),
            final(self).hooks() == *final(r),
            final(self).spec_id() == old(self).spec_id(),
            final(self).phase() == old(self).phase(),
            final(self).pending() == old(self).pending(),
            final(self).wf() == old(self).wf(),
    {
        &mut self.lifecycle_hooks
    }

    /// Runs the callbacks registered for a phase on a component.
    pub fn execute_lifecycle_hooks<C>(&mut self, phase: LifecyclePhase, component: &mut C) where
        H: LifecycleCallback<C>,

        ensures
            final(self).agrees(old(self)),
            final(self).phase() == old(self).phase(),
            phase_list(phase) is None ==> final(self).hooks() == old(self).hooks() && *final(component)
                == *old(component),
            phase_list(phase) matches Some(k) ==> {
                &&& forall|j: int| 0 <= j < 5 && j != k ==> #[trigger] final(self).hooks().list(j) == old(self).hooks().list(j)
                &&& final(self).hooks().list(k).len() == old(self).hooks().list(k).len()
                &&& exists|cs: Seq<C>|
                {
                    &&& cs.len() == old(self).hooks().list(k).len() + 1
                    &&& cs[0] == *old(component)
                    &&& cs.last() == *final(component)
                    &&& forall|i: int|
                        #[trigger] run_step(cs, i) ==> exists|mh: &mut H, mc: &mut C|
                            {
                                &&& mut_ref_current(mh) == old(self).hooks().list(k)[i]
                                &&& mut_ref_future(mh) == final(self).hooks().list(k)[i]
                                &&& mut_ref_current(mc) == cs[i]
                                &&& mut_ref_future(mc) == cs[i + 1]
                                &&& #[trigger] call_ensures(H::call, (mh, mc), ())
                            }
                }
            },
    {
        self.lifecycle_hooks.execute(phase, component);
    }
}

/// What every component has: an identifier, a phase and a context.
pub struct ComponentBase<H> {
    id: ComponentId,
    lifecycle_phase: LifecyclePhase,
    context: Context<H>,
}

impl<H> ComponentBase<H> {
    /// The identifier of the component.
    pub closed spec fn spec_id(&self) -> ComponentId {
        self.id
    }

    /// The phase the component reports.
    pub closed spec fn phase(&self) -> LifecyclePhase {
        self.lifecycle_phase
    }

    /// The component's context.
    pub closed spec fn ctx(&self) -> Context<H> {
        self.context
    }

    /// A created component with an identifier, in a context.
    pub fn new(id: ComponentId, context: Context<H>) -> (r: Self)
        ensures
            r.spec_id() == id,
            r.phase() == LifecyclePhase::Created,
            r.ctx() == context,
    {
        ComponentBase { id, lifecycle_phase: LifecyclePhase::Created, context }
    }

    /// The identifier of the component.
    pub fn id(&self) -> (r: ComponentId)
        ensures
            r == self.spec_id(),
    {
        self.id
    }

    /// The phase the component reports.
    pub fn lifecycle_phase(&self) -> (r: LifecyclePhase)
        ensures
            r == self.phase(),
    {
        self.lifecycle_phase
    }

    /// Records a phase, in the component and in its context.
    pub fn set_lifecycle_phase(&mut self, phase: LifecyclePhase)
        ensures
            final(self).phase() == phase,
            final(self).ctx().phase() == phase,
            final(self).ctx().agrees(&old(self).ctx()),
            final(self).spec_id() == old(self).spec_id(),
    {
        self.lifecycle_phase = phase;
        self.context.set_lifecycle_phase(phase);
    }

    /// The component's context.
    pub fn context(&self) -> (r: &Context<H>)
        ensures
            *r == self.ctx(),
    {
        &self.context
    }

    /// The component's context, to change it.
    pub fn context_mut(&mut self) -> (r: &mut Context<H>)
        ensures
            *r == old(self).ctx(),
            final(self).ctx() == *final(r),
            final(self).phase() == old(self).phase(),
            final(self).spec_id() == old(self).spec_id(),
    {
        &mut self.context
    }
}

/// The props of a component that takes none.
#[derive(Debug, Clone, Copy)]
pub struct NoProps;

impl<H> Component for ComponentBase<H> {
    type Props = NoProps;

    fn component_id(&self) -> (r: ComponentId)
        ensures
            r == self.spec_id(),
    {
        self.id
    }

    /// Nothing to update.
    fn update(&mut self, props: NoProps) -> (r: Result<(), ComponentError>)
        ensures
            r is Ok,
            *final(self) == *old(self),
    {
        Ok(())
    }

    /// Nothing to draw.
    fn render(&self) -> (r: Result<Vec<Node>, ComponentError>)
        ensures
            r matches Ok(v) && v@.len() == 0,
    {
        Ok(Vec::new())
    }

    fn lifecycle_phase(&self) -> (r: LifecyclePhase)
        ensures
            r == self.phase(),
    {
        self.lifecycle_phase
    }
}

/// A component with its identifier and its current props.
pub struct ComponentInstance<C: Component> {
    /// The identifier the component had when the instance was made.
    pub id: ComponentId,
    /// The component.
    pub instance: C,
    /// Its current props.
    pub props: C::Props,
}

impl<C: Component> ComponentInstance<C> {
    /// An instance of a component with its props; the identifier is the
    /// one the component reports.
    pub fn new(instance: C, props: C::Props) -> (r: Self)
        ensures
            r.instance == instance,
            r.props == props,
    {
        let id = instance.component_id();
        ComponentInstance { id, instance, props }
    }

    /// The identifier of the component.
    pub fn id(&self) -> (r: ComponentId)
        ensures
            r == self.id,
    {
        self.id
    }

    /// Stores new props; the component itself is not called.
    pub fn update(&mut self, props: C::Props) -> (r: Result<(), ComponentError>)
        ensures
            r is Ok,
            final(self).props == props,
            final(self).instance == old(self).instance,
            final(self).id == old(self).id,
    {
        self.props = props;
        Ok(())
    }
}

/// The name of a phase, as `Debug` writes it.
pub open spec fn phase_name(p: LifecyclePhase) -> Seq<char> {
    match p {
        LifecyclePhase::Created => "Created"@,
        LifecyclePhase::Mounting => "Mounting"@,
        LifecyclePhase::Mounted => "Mounted"@,
        LifecyclePhase::BeforeUpdate => "BeforeUpdate"@,
        LifecyclePhase::Updating => "Updating"@,
        LifecyclePhase::BeforeUnmount => "BeforeUnmount"@,
        LifecyclePhase::Unmounting => "Unmounting"@,
        LifecyclePhase::Unmounted => "Unmounted"@,
    }
}

/// The name of a phase, as `Debug` writes it.
pub fn phase_text(p: LifecyclePhase) -> (r: String)
    ensures
        r@ == phase_name(p),
{
    match p {
        LifecyclePhase::Created => "Created".to_string(),
        LifecyclePhase::Mounting => "Mounting".to_string(),
        LifecyclePhase::Mounted => "Mounted".to_string(),
        LifecyclePhase::BeforeUpdate => "BeforeUpdate".to_string(),
        LifecyclePhase::Updating => "Updating".to_string(),
        LifecyclePhase::BeforeUnmount => "BeforeUnmount".to_string(),
        LifecyclePhase::Unmounting => "Unmounting".to_string(),
        LifecyclePhase::Unmounted => "Unmounted".to_string(),
    }
}

/// The `Debug` text of the type identity of `T` (`std::any::TypeId::of`).
/// Nothing is stated of it: the text depends on the compiler.
#[verifier::external_body]
fn type_id_text<T: ?Sized + 'static>() -> String {
    format!("{:?}", std::any::TypeId::of::<T>())
}

/// The result of three steps run in turn until one fails: the first
/// failure, or the last result.
pub open spec fn first_failure(
    a: Result<(), ComponentError>,
    b: Result<(), ComponentError>,
    c: Result<(), ComponentError>,
) -> Result<(), ComponentError> {
    if a is Err {
        a
    } else if b is Err {
        b
    } else {
        c
    }
}

/// The result of two steps run in turn until one fails: the first
/// failure, or the last result.
pub open spec fn first_failure2(a: Result<(), ComponentError>, b: Result<(), ComponentError>) -> Result<
    (),
    ComponentError,
> {
    if a is Err {
        a
    } else {
        b
    }
}

/// The phase a mount ends in, from the results of `before_mount` and
/// `on_mount`: `Created` when either fails, `Mounted` when both succeed.
pub open spec fn mount_phase(before: Result<(), ComponentError>, on_mount: Result<(), ComponentError>) -> LifecyclePhase {
    if before is Err || on_mount is Err {
        LifecyclePhase::Created
    } else {
        LifecyclePhase::Mounted
    }
}

/// The phase and result of a mount, from the results of `before_mount`
/// and `on_mount`, in that order; a result that follows a failure does not
/// count.
pub fn mount_outcome(
    before: Result<(), ComponentError>,
    on_mount: Result<(), ComponentError>,
) -> (r: (LifecyclePhase, Result<(), ComponentError>))
    ensures
        r.0 == mount_phase(before, on_mount),
        r.1 == first_failure2(before, on_mount),
{
    if before.is_err() {
        (LifecyclePhase::Created, before)
    } else if on_mount.is_err() {
        (LifecyclePhase::Created, on_mount)
    } else {
        (LifecyclePhase::Mounted, on_mount)
    }
}

/// The phase an update ends in, from the results of `before_update`,
/// `update` and `after_update`: `BeforeUpdate` when one fails, `Mounted`
/// when all succeed.
pub open spec fn update_phase(
    before: Result<(), ComponentError>,
    update: Result<(), ComponentError>,
    after: Result<(), ComponentError>,
) -> LifecyclePhase {
    if before is Err || update is Err || after is Err {
        LifecyclePhase::BeforeUpdate
    } else {
        LifecyclePhase::Mounted
    }
}

/// The phase and result of an update, from the results of
/// `before_update`, `update` and `after_update`, in that order; a result
/// that follows a failure does not count.
pub fn update_outcome(
    before: Result<(), ComponentError>,
    update: Result<(), ComponentError>,
    after: Result<(), ComponentError>,
) -> (r: (LifecyclePhase, Result<(), ComponentError>))
    ensures
        r.0 == update_phase(before, update, after),
        r.1 == first_failure(before, update, after),
{
    if before.is_err() {
        (LifecyclePhase::BeforeUpdate, before)
    } else if update.is_err() {
        (LifecyclePhase::BeforeUpdate, update)
    } else if after.is_err() {
        (LifecyclePhase::BeforeUpdate, after)
    } else {
        (LifecyclePhase::Mounted, after)
    }
}

/// The phase an unmount ends in, from the results of `before_unmount`
/// and `on_unmount`: `BeforeUnmount` when `before_unmount` fails,
/// `Unmounting` when `on_unmount` fails, `Unmounted` when both succeed.
pub open spec fn unmount_phase(
    before: Result<(), ComponentError>,
    on_unmount: Result<(), ComponentError>,
) -> LifecyclePhase {
    if before is Err {
        LifecyclePhase::BeforeUnmount
    } else if on_unmount is Err {
        LifecyclePhase::Unmounting
    } else {
        LifecyclePhase::Unmounted
    }
}

/// The phase and result of an unmount, from the results of
/// `before_unmount` and `on_unmount`, in that order; a result that follows
/// a failure does not count.
pub fn unmount_outcome(
    before: Result<(), ComponentError>,
    on_unmount: Result<(), ComponentError>,
) -> (r: (LifecyclePhase, Result<(), ComponentError>))
    ensures
        r.0 == unmount_phase(before, on_unmount),
        r.1 == first_failure2(before, on_unmount),
{
    if before.is_err() {
        (LifecyclePhase::BeforeUnmount, before)
    } else if on_unmount.is_err() {
        (LifecyclePhase::Unmounting, on_unmount)
    } else {
        (LifecyclePhase::Unmounted, on_unmount)
    }
}

/// The state fields a tracker records of a component: the text of its
/// props type identity, and the name of the phase the component reports.
pub open spec fn state_fields_of<C: Component>(c: C, f: Seq<(String, StateValue)>) -> bool {
    &&& f.len() == 2
    &&& f[0].0@ == "__props_type_id"@
    &&& f[0].1 is Text
    &&& f[1].0@ == "__lifecycle_phase"@
    &&& exists|p: LifecyclePhase|
        #[trigger] call_ensures(C::lifecycle_phase, (&c,), p) && (f[1].1 matches StateValue::Text(t) && t@
            == phase_name(p))
}

/// `cs` are the component states a lifecycle operation goes through, `rs`
/// the results of its steps.
pub open spec fn steps_taken<C>(cs: Seq<C>, rs: Seq<Result<(), ComponentError>>) -> bool {
    rs.len() >= 2 && cs.len() >= rs.len() + 1
}

/// The result is the refusal of `operation` in phase `phase`.
pub open spec fn refused(r: Result<(), ComponentError>, phase: LifecyclePhase, operation: Seq<char>) -> bool {
    r matches Err(ComponentError::InvalidLifecycleTransition(p, s)) && p == phase && s@ == operation
}

/// Moves a component through its phases: created, mounted, updated,
/// unmounted; runs the component's steps and the context's callbacks, and
/// tracks the component's state.
pub struct LifecycleManager<C: Component, H: LifecycleCallback<C>> {
    phase: LifecyclePhase,
    component: ComponentInstance<C>,
    context: Context<H>,
    state_tracker: StateTracker,
    last_updated: std::time::Instant,
}

impl<C: Component, H: LifecycleCallback<C>> LifecycleManager<C, H> {
    /// The phase of the component.
    pub closed spec fn phase(&self) -> LifecyclePhase {
        self.phase
    }

    /// The managed component.
    pub closed spec fn instance(&self) -> ComponentInstance<C> {
        self.component
    }

    /// The component's context.
    pub closed spec fn ctx(&self) -> Context<H> {
        self.context
    }

    /// The tracker of the component's state.
    pub closed spec fn tracker(&self) -> StateTracker {
        self.state_tracker
    }

    /// The context is consistent.
    pub open spec fn wf(&self) -> bool {
        self.ctx().wf()
    }

    /// What `initialize` does: refused outside `Created`; otherwise the phase
    /// stays `Created`, and the context records it on success.
    pub open spec fn initialize_spec(old: Self, new: Self, r: Result<(), ComponentError>) -> bool {
        &&& (old.phase() != LifecyclePhase::Created ==> refused(r, old.phase(), "initialize"@)
            && new == old)
        &&& (old.phase() == LifecyclePhase::Created ==> {
                &&& new.phase() == LifecyclePhase::Created
                &&& new.ctx().agrees(&old.ctx())
                &&& r is Ok ==> new.ctx().phase() == LifecyclePhase::Created
                &&& r is Err ==> new.ctx() == old.ctx()
                &&& new.instance().props == old.instance().props
                &&& new.instance().id == old.instance().id
                &&& new.tracker() == old.tracker()
            })
    }

    /// What `mount` does, whatever the component's steps return.
    pub open spec fn mount_spec(old: Self, new: Self, r: Result<(), ComponentError>) -> bool {
        &&& (old.phase() != LifecyclePhase::Created ==> refused(r, old.phase(), "mount"@)
            && new == old)
        &&& (old.phase() == LifecyclePhase::Created ==> {
                &&& r is Ok <==> new.phase() == LifecyclePhase::Mounted
                &&& new.phase() == LifecyclePhase::Created || new.phase()
                    == LifecyclePhase::Mounting || new.phase() == LifecyclePhase::Mounted
                &&& new.ctx().phase() == new.phase() || new.ctx() == old.ctx()
                &&& r is Ok ==> new.ctx().phase() == LifecyclePhase::Mounted
                &&& new.ctx().agrees(&old.ctx())
                &&& new.instance().props == old.instance().props
                &&& new.instance().id == old.instance().id
                &&& new.tracker() == old.tracker()
            })
    }

    /// What `update` does, whatever the component's steps return.
    pub open spec fn update_spec(old: Self, new: Self, props: C::Props, r: Result<(), ComponentError>) -> bool {
        &&& (old.phase() != LifecyclePhase::Mounted ==> refused(r, old.phase(), "update"@)
            && new == old)
        &&& (old.phase() == LifecyclePhase::Mounted ==> {
                &&& r is Ok <==> new.phase() == LifecyclePhase::Mounted
                &&& r is Err ==> new.phase() == LifecyclePhase::BeforeUpdate
                &&& r is Ok ==> new.instance().props == props
                &&& new.ctx().phase() == new.phase()
                &&& new.ctx().agrees(&old.ctx())
                &&& new.instance().id == old.instance().id
                &&& new.tracker() == old.tracker()
            })
    }

    /// What `unmount` does, whatever the component's steps return.
    pub open spec fn unmount_spec(old: Self, new: Self, r: Result<(), ComponentError>) -> bool {
        &&& (old.phase() != LifecyclePhase::Mounted ==> refused(r, old.phase(), "unmount"@)
            && new == old)
        &&& (old.phase() == LifecyclePhase::Mounted ==> {
                &&& r is Ok <==> new.phase() == LifecyclePhase::Unmounted
                &&& new.phase() == LifecyclePhase::BeforeUnmount || new.phase()
                    == LifecyclePhase::Unmounting || new.phase() == LifecyclePhase::Unmounted
                &&& new.ctx().phase() == new.phase()
                &&& new.ctx().agrees(&old.ctx())
                &&& new.instance().props == old.instance().props
                &&& new.instance().id == old.instance().id
                &&& new.tracker() == old.tracker()
            })
    }

    /// Once unmounted, a component accepts no lifecycle operation: each is
    /// refused with the operation's name and leaves the manager unchanged.
    pub proof fn law_unmounted_is_final(m: Self, n: Self, props: C::Props, r: Result<(), ComponentError>)
        requires
            m.phase() == LifecyclePhase::Unmounted,
        ensures
            Self::initialize_spec(m, n, r) ==> refused(r, LifecyclePhase::Unmounted, "initialize"@) && n == m,
            Self::mount_spec(m, n, r) ==> refused(r, LifecyclePhase::Unmounted, "mount"@) && n == m,
            Self::update_spec(m, n, props, r) ==> refused(r, LifecyclePhase::Unmounted, "update"@) && n == m,
            Self::unmount_spec(m, n, r) ==> refused(r, LifecyclePhase::Unmounted, "unmount"@) && n == m,
    {
    }

    /// A created component that mounts and then unmounts successfully is
    /// `Mounted` in between and `Unmounted` after, with the same props and
    /// identifier, and its context records each phase.
    pub proof fn law_mount_then_unmount(
        m0: Self,
        m1: Self,
        m2: Self,
        r1: Result<(), ComponentError>,
        r2: Result<(), ComponentError>,
    )
        requires
            m0.phase() == LifecyclePhase::Created,
            Self::mount_spec(m0, m1, r1),
            r1 is Ok,
            Self::unmount_spec(m1, m2, r2),
            r2 is Ok,
        ensures
            m1.phase() == LifecyclePhase::Mounted,
            m1.ctx().phase() == LifecyclePhase::Mounted,
            m2.phase() == LifecyclePhase::Unmounted,
            m2.ctx().phase() == LifecyclePhase::Unmounted,
            m2.instance().props == m0.instance().props,
            m2.instance().id == m0.instance().id,
            m2.ctx().agrees(&m0.ctx()),
    {
    }

    /// A successful update of a mounted component leaves it `Mounted` with
    /// the new props; a failed one leaves it `BeforeUpdate`.
    pub proof fn law_update_outcome(m0: Self, m1: Self, props: C::Props, r: Result<(), ComponentError>)
        requires
            m0.phase() == LifecyclePhase::Mounted,
            Self::update_spec(m0, m1, props, r),
        ensures
            r is Ok ==> m1.phase() == LifecyclePhase::Mounted && m1.instance().props == props,
            r is Err ==> m1.phase() == LifecyclePhase::BeforeUpdate,
    {
    }

    /// A manager of a created component in a context; no state recorded.
    pub fn new(component: ComponentInstance<C>, context: Context<H>) -> (r: Self)
        ensures
            r.phase() == LifecyclePhase::Created,
            r.instance() == component,
            r.ctx() == context,
            r.tracker().spec_component() == component.id,
            r.tracker().current() is None,
            r.tracker().previous() is None,
            r.tracker().batch().len() == 0,
    {
        let component_id = component.id();
        LifecycleManager {
            phase: LifecyclePhase::Created,
            component,
            context,
            state_tracker: StateTracker::new_default(component_id),
            last_updated: instant_now(),
        }
    }

    /// The phase of the component.
    pub fn current_phase(&self) -> (r: LifecyclePhase)
        ensures
            r == self.phase(),
    {
        self.phase
    }

    /// The managed component.
    pub fn get_component(&self) -> (r: &ComponentInstance<C>)
        ensures
            *r == self.instance(),
    {
        &self.component
    }

    /// The component's context.
    pub fn get_context(&self) -> (r: &Context<H>)
        ensures
            *r == self.ctx(),
    {
        &self.context
    }

    /// Lets a created component initialize itself. Refused in any other
    /// phase. The phase stays `Created`; on success the context records
    /// `Created`.
    pub fn initialize(&mut self) -> (r: Result<(), ComponentError>)
        ensures
            Self::initialize_spec(*old(self), *final(self), r),
    {
        if self.phase != LifecyclePhase::Created {
            return Err(ComponentError::InvalidLifecycleTransition(self.phase, "initialize".to_string()));
        }
        let result = self.component.instance.initialize();
        if result.is_ok() {
            self.context.set_lifecycle_phase(LifecyclePhase::Created);
        }
        result
    }

    /// Mounts a created component: `before_mount`, then phase `Mounting`,
    /// `on_mount` with a mount context (by default it calls `mount`); on
    /// success phase `Mounted`, the context's mount callbacks, first to
    /// last, and `after_mount` (whose failure is ignored). Refused in any
    /// other phase. The phase and result follow from the results of the
    /// steps (`mount_outcome`): when `before_mount` fails nothing changes;
    /// when `on_mount` fails the component is `Created` again.
    pub fn mount(&mut self) -> (r: Result<(), ComponentError>)
        requires
            old(self).wf(),
        ensures
            final(self).wf(),
            Self::mount_spec(*old(self), *final(self), r),
            old(self).phase() == LifecyclePhase::Created ==> exists|cs: Seq<C>, rs: Seq<Result<(), ComponentError>>|
                {
                    &&& #[trigger] steps_taken(cs, rs)
                    &&& rs.len() == 2
                    &&& cs.len() == 5
                    &&& cs[0] == old(self).instance().instance
                    &&& cs[4] == final(self).instance().instance
                    &&& final(self).phase() == mount_phase(rs[0], rs[1])
                    &&& r == first_failure2(rs[0], rs[1])
                    &&& exists|k: &mut C|
                        mut_ref_current(k) == cs[0] && mut_ref_future(k) == cs[1]
                            && #[trigger] call_ensures(C::before_mount, (k,), rs[0])
                    &&& rs[0] is Err ==> cs[4] == cs[1]
                    &&& rs[0] is Ok ==> exists|k: &mut C, x: MountContext|
                        mut_ref_current(k) == cs[1] && mut_ref_future(k) == cs[2]
                            && call_ensures(C::component_id, (&cs[0],), x.component_id)
                            && x.parent_id is None && x.options.is_default()
                            && #[trigger] call_ensures(C::on_mount, (k, &x), rs[1])
                    &&& rs[0] is Ok && rs[1] is Err ==> cs[4] == cs[2]
                    &&& r is Err ==> final(self).ctx().hooks() == old(self).ctx().hooks()
                    &&& r is Ok ==> exists|k: &mut C, a: Result<(), ComponentError>|
                        mut_ref_current(k) == cs[3] && mut_ref_future(k) == cs[4]
                            && #[trigger] call_ensures(C::after_mount, (k,), a)
                    &&& r is Ok ==> {
                        &&& forall|j: int|
                            0 <= j < 5 && j != 0 ==> #[trigger] final(self).ctx().hooks().list(j)
                                == old(self).ctx().hooks().list(j)
                        &&& final(self).ctx().hooks().list(0).len() == old(self).ctx().hooks().list(0).len()
                        &&& exists|hs: Seq<C>|
                            {
                                &&& hs.len() == old(self).ctx().hooks().list(0).len() + 1
                                &&& hs[0] == cs[2]
                                &&& hs.last() == cs[3]
                                &&& forall|i: int|
                                    #[trigger] run_step(hs, i) ==> exists|mh: &mut H, mc: &mut C|
                                        {
                                            &&& mut_ref_current(mh) == old(self).ctx().hooks().list(0)[i]
                                            &&& mut_ref_future(mh) == final(self).ctx().hooks().list(0)[i]
                                            &&& mut_ref_current(mc) == hs[i]
                                            &&& mut_ref_future(mc) == hs[i + 1]
                                            &&& #[trigger] call_ensures(H::call, (mh, mc), ())
                                        }
                            }
                    }
                },
    {
        if self.phase != LifecyclePhase::Created {
            return Err(ComponentError::InvalidLifecycleTransition(self.phase, "mount".to_string()));
        }
        let mount_context = MountContext::new(self.component.instance.component_id());
        let ghost c0 = self.component.instance;
        let before = self.component.instance.before_mount();
        let ghost c1 = self.component.instance;
        let ghost b = before;
        if before.is_err() {
            let (_, r) = mount_outcome(before, Ok(()));
            assert(steps_taken(seq![c0, c1, c1, c1, c1], seq![b, Ok(())]));
            return r;
        }
        self.phase = LifecyclePhase::Mounting;
        self.context.set_lifecycle_phase(LifecyclePhase::Mounting);
        let on_mount = self.component.instance.on_mount(&mount_context);
        let ghost c2 = self.component.instance;
        let ghost o = on_mount;
        let (phase, r) = mount_outcome(Ok(()), on_mount);
        self.phase = phase;
        self.context.set_lifecycle_phase(phase);
        if r.is_ok() {
            self.context.execute_lifecycle_hooks(LifecyclePhase::Mounted, &mut self.component.instance);
            let ghost c3 = self.component.instance;
            let _ = self.component.instance.after_mount();
            let ghost c4 = self.component.instance;
            assert(steps_taken(seq![c0, c1, c2, c3, c4], seq![b, o]));
        } else {
            assert(steps_taken(seq![c0, c1, c2, c2, c2], seq![b, o]));
        }
        r
    }

    /// Updates a mounted component with new props: phase `BeforeUpdate`,
    /// the context's before-update callbacks, `before_update`, `update`,
    /// the context's update callbacks, the props are stored,
    /// `after_update`; on success phase `Mounted` again. Refused in any
    /// other phase. The phase and result follow from the results of the
    /// steps (`update_outcome`): when a step fails the component stays
    /// `BeforeUpdate`.
    pub fn update(&mut self, props: C::Props) -> (r: Result<(), ComponentError>)
        requires
            old(self).wf(),
        ensures
            final(self).wf(),
            Self::update_spec(*old(self), *final(self), props, r),
            old(self).phase() == LifecyclePhase::Mounted ==> exists|cs: Seq<C>, rs: Seq<Result<(), ComponentError>>|
                {
                    &&& #[trigger] steps_taken(cs, rs)
                    &&& cs.len() == 6
                    &&& cs[0] == old(self).instance().instance
                    &&& cs[5] == final(self).instance().instance
                    &&& final(self).phase() == update_phase(rs[0], rs[1], rs[2])
                    &&& r == first_failure(rs[0], rs[1], rs[2])
                    &&& final(self).ctx().hooks().list(1).len() == old(self).ctx().hooks().list(1).len()
                    &&& exists|hs: Seq<C>|
                        {
                            &&& hs.len() == old(self).ctx().hooks().list(1).len() + 1
                            &&& hs[0] == cs[0]
                            &&& hs.last() == cs[1]
                            &&& forall|i: int|
                                #[trigger] run_step(hs, i) ==> exists|mh: &mut H, mc: &mut C|
                                    {
                                        &&& mut_ref_current(mh) == old(self).ctx().hooks().list(1)[i]
                                        &&& mut_ref_future(mh) == final(self).ctx().hooks().list(1)[i]
                                        &&& mut_ref_current(mc) == hs[i]
                                        &&& mut_ref_future(mc) == hs[i + 1]
                                        &&& #[trigger] call_ensures(H::call, (mh, mc), ())
                                    }
                        }
                    &&& exists|k: &mut C|
                        mut_ref_current(k) == cs[1] && mut_ref_future(k) == cs[2]
                            && #[trigger] call_ensures(C::before_update, (k, &props), rs[0])
                    &&& rs[0] is Err ==> cs[5] == cs[2]
                    &&& rs[0] is Ok ==> exists|k: &mut C, p: C::Props|
                        mut_ref_current(k) == cs[2] && mut_ref_future(k) == cs[3] && cloned(props, p)
                            && #[trigger] call_ensures(C::update, (k, p), rs[1])
                    &&& rs[0] is Ok && rs[1] is Err ==> cs[5] == cs[3]
                    &&& !(rs[0] is Ok && rs[1] is Ok) ==> final(self).instance().props == old(self).instance().props
                        && final(self).ctx().hooks().list(2) == old(self).ctx().hooks().list(2)
                    &&& forall|j: int|
                        0 <= j < 5 && j != 1 && j != 2 ==> #[trigger] final(self).ctx().hooks().list(j)
                            == old(self).ctx().hooks().list(j)
                    &&& rs[0] is Ok && rs[1] is Ok ==> {
                        &&& final(self).instance().props == props
                        &&& exists|k: &mut C|
                            mut_ref_current(k) == cs[4] && mut_ref_future(k) == cs[5]
                                && #[trigger] call_ensures(C::after_update, (k,), rs[2])
                        &&& final(self).ctx().hooks().list(2).len() == old(self).ctx().hooks().list(2).len()
                        &&& exists|hs: Seq<C>|
                            {
                                &&& hs.len() == old(self).ctx().hooks().list(2).len() + 1
                                &&& hs[0] == cs[3]
                                &&& hs.last() == cs[4]
                                &&& forall|i: int|
                                    #[trigger] run_step(hs, i) ==> exists|mh: &mut H, mc: &mut C|
                                        {
                                            &&& mut_ref_current(mh) == old(self).ctx().hooks().list(2)[i]
                                            &&& mut_ref_future(mh) == final(self).ctx().hooks().list(2)[i]
                                            &&& mut_ref_current(mc) == hs[i]
                                            &&& mut_ref_future(mc) == hs[i + 1]
                                            &&& #[trigger] call_ensures(H::call, (mh, mc), ())
                                        }
                            }
                    }
                },
    {
        if self.phase != LifecyclePhase::Mounted {
            return Err(ComponentError::InvalidLifecycleTransition(self.phase, "update".to_string()));
        }
        self.phase = LifecyclePhase::BeforeUpdate;
        self.context.set_lifecycle_phase(LifecyclePhase::BeforeUpdate);
        let ghost c0 = self.component.instance;
        self.context.execute_lifecycle_hooks(LifecyclePhase::BeforeUpdate, &mut self.component.instance);
        let ghost c1 = self.component.instance;
        let before = self.component.instance.before_update(&props);
        let ghost c2 = self.component.instance;
        let ghost b = before;
        if before.is_err() {
            let (_, r) = update_outcome(before, Ok(()), Ok(()));
            assert(steps_taken(seq![c0, c1, c2, c2, c2, c2], seq![b, Ok(()), Ok(())]));
            return r;
        }
        let updated = self.component.instance.update(props.clone());
        let ghost c3 = self.component.instance;
        let ghost u = updated;
        if updated.is_err() {
            let (_, r) = update_outcome(Ok(()), updated, Ok(()));
            assert(steps_taken(seq![c0, c1, c2, c3, c3, c3], seq![b, u, Ok(())]));
            return r;
        }
        self.context.execute_lifecycle_hooks(LifecyclePhase::Updating, &mut self.component.instance);
        let ghost c4 = self.component.instance;
        self.component.props = props;
        let after = self.component.instance.after_update();
        let ghost c5 = self.component.instance;
        let ghost a = after;
        let (phase, r) = update_outcome(Ok(()), Ok(()), after);
        if r.is_ok() {
            self.phase = phase;
            self.context.set_lifecycle_phase(phase);
        }
        assert(steps_taken(seq![c0, c1, c2, c3, c4, c5], seq![b, u, a]));
        r
    }

    /// Unmounts a mounted component: phase `BeforeUnmount`, the context's
    /// before-unmount callbacks, `before_unmount`, phase `Unmounting`,
    /// `on_unmount` with an unmount context (reason: removed; by default it
    /// calls `unmount`); on success phase `Unmounted`, the context's unmount
    /// callbacks and `after_unmount` (whose failure is ignored). Refused in
    /// any other phase. The phase and result follow from the results of the
    /// steps (`unmount_outcome`): when a step fails the component stays in
    /// the phase it reached.
    pub fn unmount(&mut self) -> (r: Result<(), ComponentError>)
        requires
            old(self).wf(),
        ensures
            final(self).wf(),
            Self::unmount_spec(*old(self), *final(self), r),
            old(self).phase() == LifecyclePhase::Mounted ==> exists|cs: Seq<C>, rs: Seq<Result<(), ComponentError>>|
                {
                    &&& #[trigger] steps_taken(cs, rs)
                    &&& rs.len() == 2
                    &&& cs.len() == 6
                    &&& cs[0] == old(self).instance().instance
                    &&& cs[5] == final(self).instance().instance
                    &&& final(self).phase() == unmount_phase(rs[0], rs[1])
                    &&& r == first_failure2(rs[0], rs[1])
                    &&& final(self).ctx().hooks().list(3).len() == old(self).ctx().hooks().list(3).len()
                    &&& exists|hs: Seq<C>|
                        {
                            &&& hs.len() == old(self).ctx().hooks().list(3).len() + 1
                            &&& hs[0] == cs[0]
                            &&& hs.last() == cs[1]
                            &&& forall|i: int|
                                #[trigger] run_step(hs, i) ==> exists|mh: &mut H, mc: &mut C|
                                    {
                                        &&& mut_ref_current(mh) == old(self).ctx().hooks().list(3)[i]
                                        &&& mut_ref_future(mh) == final(self).ctx().hooks().list(3)[i]
                                        &&& mut_ref_current(mc) == hs[i]
                                        &&& mut_ref_future(mc) == hs[i + 1]
                                        &&& #[trigger] call_ensures(H::call, (mh, mc), ())
                                    }
                        }
                    &&& exists|k: &mut C|
                        mut_ref_current(k) == cs[1] && mut_ref_future(k) == cs[2]
                            && #[trigger] call_ensures(C::before_unmount, (k,), rs[0])
                    &&& rs[0] is Err ==> cs[5] == cs[2]
                    &&& rs[0] is Ok ==> exists|k: &mut C, x: UnmountContext|
                        mut_ref_current(k) == cs[2] && mut_ref_future(k) == cs[3] && x.reason
                            == UnmountReason::Removed && x.parent_id is None && !x.force_cleanup
                            && call_ensures(C::component_id, (&cs[2],), x.component_id)
                            && #[trigger] call_ensures(C::on_unmount, (k, &x), rs[1])
                    &&& rs[0] is Ok && rs[1] is Err ==> cs[5] == cs[3]
                    &&& forall|j: int|
                        0 <= j < 5 && j != 3 && j != 4 ==> #[trigger] final(self).ctx().hooks().list(j)
                            == old(self).ctx().hooks().list(j)
                    &&& r is Err ==> final(self).ctx().hooks().list(4) == old(self).ctx().hooks().list(4)
                    &&& r is Ok ==> {
                        &&& exists|k: &mut C, a: Result<(), ComponentError>|
                            mut_ref_current(k) == cs[4] && mut_ref_future(k) == cs[5]
                                && #[trigger] call_ensures(C::after_unmount, (k,), a)
                        &&& final(self).ctx().hooks().list(4).len() == old(self).ctx().hooks().list(4).len()
                        &&& exists|hs: Seq<C>|
                            {
                                &&& hs.len() == old(self).ctx().hooks().list(4).len() + 1
                                &&& hs[0] == cs[3]
                                &&& hs.last() == cs[4]
                                &&& forall|i: int|
                                    #[trigger] run_step(hs, i) ==> exists|mh: &mut H, mc: &mut C|
                                        {
                                            &&& mut_ref_current(mh) == old(self).ctx().hooks().list(4)[i]
                                            &&& mut_ref_future(mh) == final(self).ctx().hooks().list(4)[i]
                                            &&& mut_ref_current(mc) == hs[i]
                                            &&& mut_ref_future(mc) == hs[i + 1]
                                            &&& #[trigger] call_ensures(H::call, (mh, mc), ())
                                        }
                            }
                    }
                },
    {
        if self.phase != LifecyclePhase::Mounted {
            return Err(ComponentError::InvalidLifecycleTransition(self.phase, "unmount".to_string()));
        }
        self.phase = LifecyclePhase::BeforeUnmount;
        self.context.set_lifecycle_phase(LifecyclePhase::BeforeUnmount);
        let ghost c0 = self.component.instance;
        self.context.execute_lifecycle_hooks(LifecyclePhase::BeforeUnmount, &mut self.component.instance);
        let ghost c1 = self.component.instance;
        let before = self.component.instance.before_unmount();
        let ghost c2 = self.component.instance;
        let ghost b = before;
        if before.is_err() {
            let (_, r) = unmount_outcome(before, Ok(()));
            assert(steps_taken(seq![c0, c1, c2, c2, c2, c2], seq![b, Ok(())]));
            return r;
        }
        self.phase = LifecyclePhase::Unmounting;
        self.context.set_lifecycle_phase(LifecyclePhase::Unmounting);
        let unmount_context = UnmountContext::new(
            self.component.instance.component_id(),
            UnmountReason::Removed,
        );
        let on_unmount = self.component.instance.on_unmount(&unmount_context);
        let ghost c3 = self.component.instance;
        let ghost o = on_unmount;
        let (phase, r) = unmount_outcome(Ok(()), on_unmount);
        if r.is_ok() {
            self.phase = phase;
            self.context.set_lifecycle_phase(phase);
            self.context.execute_lifecycle_hooks(LifecyclePhase::Unmounted, &mut self.component.instance);
            let ghost c4 = self.component.instance;
            let _ = self.component.instance.after_unmount();
            let ghost c5 = self.component.instance;
            assert(steps_taken(seq![c0, c1, c2, c3, c4, c5], seq![b, o]));
        } else {
            assert(steps_taken(seq![c0, c1, c2, c3, c3, c3], seq![b, o]));
        }
        r
    }

    /// The state of the component as the tracker sees it: the text of the
    /// props type identity and the name of the phase the component reports.
    fn extract_component_state(&self) -> (r: Vec<(String, StateValue)>)
        ensures
            state_fields_of(self.instance().instance, r@),
    {
        let mut fields: Vec<(String, StateValue)> = Vec::new();
        fields.push(("__props_type_id".to_string(), StateValue::Text(type_id_text::<C::Props>())));
        let reported = self.component.instance.lifecycle_phase();
        let name = phase_text(reported);
        fields.push(("__lifecycle_phase".to_string(), StateValue::Text(name)));
        fields
    }

    /// Processes the state changes of a mounted component: the tracker
    /// records its current state; when that yields a batch of changes, the
    /// component goes through `BeforeUpdate` (the context's callbacks for
    /// it, then `on_update` with the changes), `Updating`, an update of it
    /// is scheduled in the context, and it is `Mounted` again. Refused in
    /// any other phase. When `on_update` fails the component stays
    /// `BeforeUpdate`.
    pub fn handle_updates(&mut self) -> (r: Result<(), ComponentError>)
        requires
            old(self).wf(),
        ensures
            final(self).wf(),
            old(self).phase() != LifecyclePhase::Mounted ==> refused(r, old(self).phase(), "handle_updates"@)
                && *final(self) == *old(self),
            old(self).phase() == LifecyclePhase::Mounted ==> {
                &&& r is Ok <==> final(self).phase() == LifecyclePhase::Mounted
                &&& r is Err ==> final(self).phase() == LifecyclePhase::BeforeUpdate
                &&& final(self).ctx().phase() == final(self).phase() || final(self).ctx().phase()
                    == old(self).ctx().phase()
                &&& final(self).ctx().pending() == old(self).ctx().pending() || (r is Ok
                    && final(self).ctx().pending() == old(self).ctx().pending().insert(
                    old(self).tracker().spec_component(),
                ))
                &&& final(self).ctx().spec_id() == old(self).ctx().spec_id()
                &&& final(self).ctx().hook_counts() == old(self).ctx().hook_counts()
                &&& final(self).instance().props == old(self).instance().props
                &&& final(self).instance().id == old(self).instance().id
                &&& final(self).tracker().spec_component() == old(self).tracker().spec_component()
            },
            old(self).phase() == LifecyclePhase::Mounted ==> exists|f: Seq<(String, StateValue)>, out: Result<Option<StateChanges>, ComponentError>|
                {
                    &&& #[trigger] StateTracker::update_state_post(old(self).tracker(), final(self).tracker(), f, out)
                    &&& state_fields_of(old(self).instance().instance, f)
                    &&& !(out matches Ok(Some(ch)) && ch.changes@.len() > 0) ==> {
                        &&& r is Ok
                        &&& final(self).phase() == LifecyclePhase::Mounted
                        &&& final(self).ctx() == old(self).ctx()
                        &&& final(self).instance() == old(self).instance()
                    }
                    &&& match out {
                        Ok(Some(ch)) => ch.changes@.len() > 0 ==> (exists|u: Result<(), ComponentError>, k: &mut C|
                            {
                                &&& #[trigger] call_ensures(C::on_update, (k, &ch), u)
                                &&& r == u
                                &&& u is Ok ==> final(self).phase() == LifecyclePhase::Mounted
                                    && final(self).ctx().pending() == old(self).ctx().pending().insert(
                                    old(self).tracker().spec_component(),
                                )
                                &&& u is Err ==> final(self).phase() == LifecyclePhase::BeforeUpdate
                                    && final(self).ctx().pending() == old(self).ctx().pending()
                            }),
                        _ => true,
                    }
                },
    {
        if self.phase != LifecyclePhase::Mounted {
            return Err(
                ComponentError::InvalidLifecycleTransition(self.phase, "handle_updates".to_string()),
            );
        }
        let current_state = self.extract_component_state();
        let ghost f = current_state@;
        let recorded = self.state_tracker.update_state(current_state);
        let ghost out = recorded;
        assert(StateTracker::update_state_post(old(self).tracker(), self.tracker(), f, out));
        match recorded {
            Err(e) => {
                return Err(e);
            },
            Ok(None) => {},
            Ok(Some(state_changes)) => {
                if !state_changes.is_empty() {
                    self.phase = LifecyclePhase::BeforeUpdate;
                    self.context.set_lifecycle_phase(LifecyclePhase::BeforeUpdate);
                    self.context.execute_lifecycle_hooks(
                        LifecyclePhase::BeforeUpdate,
                        &mut self.component.instance,
                    );
                    let handled = self.component.instance.on_update(&state_changes);
                    if handled.is_err() {
                        assert(StateTracker::update_state_post(old(self).tracker(), self.tracker(), f, out));
                        assert(state_fields_of(old(self).instance().instance, f));
                        assert(out matches Ok(Some(ch)) && ch == state_changes);
                        return handled;
                    }
                    self.phase = LifecyclePhase::Updating;
                    self.context.set_lifecycle_phase(LifecyclePhase::Updating);
                    let id = self.state_tracker.component_id();
                    self.context.schedule_update(id);
                    self.phase = LifecyclePhase::Mounted;
                    self.context.set_lifecycle_phase(LifecyclePhase::Mounted);
                    self.last_updated = instant_now();
                    assert(StateTracker::update_state_post(old(self).tracker(), self.tracker(), f, out));
                    assert(state_fields_of(old(self).instance().instance, f));
                    assert(out matches Ok(Some(ch)) && ch == state_changes);
                    return handled;
                }
            },
        }
        assert(StateTracker::update_state_post(old(self).tracker(), self.tracker(), f, out));
        Ok(())
    }

    /// The nodes of a mounted component: none. Refused in any other phase.
    pub fn render(&self) -> (r: Result<Vec<Node>, ComponentError>)
        ensures
            self.phase() != LifecyclePhase::Mounted ==> (r matches Err(
                ComponentError::InvalidLifecycleTransition(p, s),
            ) && p == self.phase() && s@ == "render"@),
            self.phase() == LifecyclePhase::Mounted ==> (r matches Ok(v) && v@.len() == 0),
    {
        if self.phase != LifecyclePhase::Mounted {
            return Err(ComponentError::InvalidLifecycleTransition(self.phase, "render".to_string()));
        }
        Ok(Vec::new())
    }
}

} // verus!
