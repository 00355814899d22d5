//! Component identities, lifecycle phases, mount/unmount contexts and a
//! simple pending-update set.
use vstd::prelude::*;

pub mod composition;
pub mod context;
pub mod hoc;
pub mod lifecycle;
pub mod performance;
pub mod props;
pub mod state_hash;
pub mod state_tracking;
pub mod tree;
pub mod update_scheduler;

use crate::time::instant_now;
use crate::component::lifecycle::{phase_name, phase_text};
use crate::text::{decimal, push_decimal, push_str};

verus! {

/// A type identity (`std::any::TypeId`); opaque here.
#[verifier::external_type_specification]
#[verifier::external_body]
pub struct ExTypeId(std::any::TypeId);

/// Unique identifier for component instances.
#[derive(Debug, Clone, Copy, PartialEq, Eq, Hash, Structural)]
pub struct ComponentId(u64);

impl ComponentId {
    /// The identifier with the given raw value.
    pub fn from_raw(raw: u64) -> (r: Self)
        ensures
            r.raw() == raw,
    {
        ComponentId(raw)
    }

    /// The raw ID value.
    pub fn id(&self) -> (r: u64)
        ensures
            r == self.raw(),
    {
        self.0
    }

    /// The raw ID value, in specifications.
    pub closed spec fn raw(self) -> u64 {
        self.0
    }

    /// The text of an identifier: `Component#` and the raw value.
    pub open spec fn text(self) -> Seq<char> {
        "Component#"@ + decimal(self.raw() as nat)
    }

    /// The text of the identifier (as `Display` writes it).
    pub fn to_text(&self) -> (r: String)
        ensures
            r@ == self.text(),
    {
        let mut m = String::new();
        push_str(&mut m, "Component#");
        push_decimal(&mut m, self.0);
        m
    }
}

/// Lifecycle phase of a component.
#[derive(Debug, Clone, Copy, PartialEq, Eq, Structural)]
pub enum LifecyclePhase {
    /// Created but not yet mounted.
    Created,
    /// Being mounted.
    Mounting,
    /// Fully mounted and operational.
    Mounted,
    /// About to be updated.
    BeforeUpdate,
    /// Updating.
    Updating,
    /// About to be unmounted.
    BeforeUnmount,
    /// Being unmounted.
    Unmounting,
    /// Unmounted and inactive.
    Unmounted,
}

/// Options for component mounting.
#[derive(Debug, Clone)]
pub struct MountOptions {
    /// Whether to enable automatic state tracking.
    pub enable_state_tracking: bool,
    /// Whether to register lifecycle hooks.
    pub register_hooks: bool,
    /// Custom mounting data, as (key, value) pairs.
    pub custom_data: Vec<(String, String)>,
}

impl MountOptions {
    /// The default options: no state tracking, no hooks, no custom data.
    pub fn new() -> (r: Self)
        ensures
            r.is_default(),
    {
        MountOptions { enable_state_tracking: false, register_hooks: false, custom_data: Vec::new() }
    }

    /// These are the default options.
    pub open spec fn is_default(self) -> bool {
        !self.enable_state_tracking && !self.register_hooks && self.custom_data@.len() == 0
    }
}

impl Default for MountOptions {
    fn default() -> (r: Self)
        ensures
            r.is_default(),
    {
        MountOptions::new()
    }
}

/// Context provided during component mounting.
#[derive(Debug, Clone)]
pub struct MountContext {
    /// Component being mounted.
    pub component_id: ComponentId,
    /// Parent component, if any.
    pub parent_id: Option<ComponentId>,
    /// Mount timestamp.
    pub timestamp: std::time::Instant,
    /// Mount options.
    pub options: MountOptions,
}

/// Reasons for component unmounting.
#[derive(Debug, Clone, Copy, PartialEq, Eq, Structural)]
pub enum UnmountReason {
    /// Explicitly removed.
    Removed,
    /// The parent was unmounted.
    ParentUnmounted,
    /// Replaced.
    Replaced,
    /// Application shutdown.
    Shutdown,
    /// Error condition.
    Error,
}

/// Context provided during component unmounting.
#[derive(Debug, Clone)]
pub struct UnmountContext {
    /// Component being unmounted.
    pub component_id: ComponentId,
    /// Parent component, if any.
    pub parent_id: Option<ComponentId>,
    /// Unmount timestamp.
    pub timestamp: std::time::Instant,
    /// Why the component is unmounted.
    pub reason: UnmountReason,
    /// Whether cleanup should be forced.
    pub force_cleanup: bool,
}

impl MountContext {
    /// A mount context for a root component, stamped with the current time.
    pub fn new(component_id: ComponentId) -> (r: Self)
        ensures
            r.component_id == component_id,
            r.parent_id is None,
            r.options.is_default(),
    {
        MountContext {
            component_id,
            parent_id: None,
            timestamp: instant_now(),
            options: MountOptions::new(),
        }
    }

    /// A mount context for a child component.
    pub fn with_parent(component_id: ComponentId, parent_id: ComponentId) -> (r: Self)
        ensures
            r.component_id == component_id,
            r.parent_id == Some(parent_id),
            r.options.is_default(),
    {
        MountContext {
            component_id,
            parent_id: Some(parent_id),
            timestamp: instant_now(),
            options: MountOptions::new(),
        }
    }

    /// The same context with the given options.
    pub fn with_options(self, options: MountOptions) -> (r: Self)
        ensures
            r.component_id == self.component_id,
            r.parent_id == self.parent_id,
            r.timestamp == self.timestamp,
            r.options == options,
    {
        let mut s = self;
        s.options = options;
        s
    }
}

impl UnmountContext {
    /// An unmount context for a root component; cleanup is not forced.
    pub fn new(component_id: ComponentId, reason: UnmountReason) -> (r: Self)
        ensures
            r.component_id == component_id,
            r.parent_id is None,
            r.reason == reason,
            !r.force_cleanup,
    {
        UnmountContext {
            component_id,
            parent_id: None,
            timestamp: instant_now(),
            reason,
            force_cleanup: false,
        }
    }

    /// An unmount context for a child component; cleanup is not forced.
    pub fn with_parent(component_id: ComponentId, parent_id: ComponentId, reason: UnmountReason) -> (r:
        Self)
        ensures
            r.component_id == component_id,
            r.parent_id == Some(parent_id),
            r.reason == reason,
            !r.force_cleanup,
    {
        UnmountContext {
            component_id,
            parent_id: Some(parent_id),
            timestamp: instant_now(),
            reason,
            force_cleanup: false,
        }
    }

    /// The same context with the force-cleanup flag set to `force`.
    pub fn with_force_cleanup(self, force: bool) -> (r: Self)
        ensures
            r.component_id == self.component_id,
            r.parent_id == self.parent_id,
            r.timestamp == self.timestamp,
            r.reason == self.reason,
            r.force_cleanup == force,
    {
        let mut s = self;
        s.force_cleanup = force;
        s
    }
}

/// Errors of component operations.
#[derive(Debug)]
pub enum ComponentError {
    /// Component type not found in the registry.
    TypeNotFound(std::any::TypeId),
    /// Props type mismatch.
    PropsMismatch { expected: std::any::TypeId, got: std::any::TypeId },
    /// Invalid props type for the component.
    InvalidPropsType,
    /// Error downcasting props or component.
    DowncastError,
    /// Error acquiring a lock.
    LockError(String),
    /// Invalid lifecycle transition.
    InvalidLifecycleTransition(LifecyclePhase, String),
    /// Error rendering a component.
    RenderError(String),
    /// Error updating a component.
    UpdateError(String),
    /// Error mounting a component.
    MountError(String),
    /// Error unmounting a component.
    UnmountError(String),
    /// Error from the reactive system.
    ReactiveSystemError(String),
}

/// The `Debug` text of a type identity. Nothing is stated of it: it depends
/// on the compiler.
#[verifier::external_body]
fn type_id_debug(t: &std::any::TypeId) -> String {
    format!("{:?}", t)
}

impl ComponentError {
    /// The message of an error (as `Display` writes it); for the variants
    /// that name type identities, what surrounds the identities' texts.
    pub fn to_message(&self) -> (r: String)
        ensures
            match self {
                ComponentError::TypeNotFound(_) => exists|t: Seq<char>|
                    r@ == "Component type "@ + t + " not found"@,
                ComponentError::PropsMismatch { .. } => exists|a: Seq<char>, b: Seq<char>|
                    r@ == "Props type mismatch - expected "@ + a + ", got "@ + b,
                ComponentError::InvalidPropsType => r@ == "Invalid props type for the component"@,
                ComponentError::DowncastError => r@ == "Failed to downcast props or component"@,
                ComponentError::LockError(m) => r@ == "Lock error: "@ + m@,
                ComponentError::InvalidLifecycleTransition(phase, op) => r@ == "Invalid lifecycle transition: cannot "@
                    + op@ + " while in "@ + phase_name(*phase) + " phase"@,
                ComponentError::RenderError(m) => r@ == "Error rendering component: "@ + m@,
                ComponentError::UpdateError(m) => r@ == "Error updating component: "@ + m@,
                ComponentError::MountError(m) => r@ == "Error mounting component: "@ + m@,
                ComponentError::UnmountError(m) => r@ == "Error unmounting component: "@ + m@,
                ComponentError::ReactiveSystemError(m) => r@ == "Reactive system error: "@ + m@,
            },
    {
        let mut out = String::new();
        match self {
            ComponentError::TypeNotFound(t) => {
                push_str(&mut out, "Component type ");
                let text = type_id_debug(t);
                push_str(&mut out, text.as_str());
                let ghost mid = text@;
                push_str(&mut out, " not found");
                assert(out@ == "Component type "@ + mid + " not found"@);
            },
            ComponentError::PropsMismatch { expected, got } => {
                push_str(&mut out, "Props type mismatch - expected ");
                let a = type_id_debug(expected);
                push_str(&mut out, a.as_str());
                push_str(&mut out, ", got ");
                let b = type_id_debug(got);
                push_str(&mut out, b.as_str());
                assert(out@ == "Props type mismatch - expected "@ + a@ + ", got "@ + b@);
            },
            ComponentError::InvalidPropsType => {
                push_str(&mut out, "Invalid props type for the component");
            },
            ComponentError::DowncastError => {
                push_str(&mut out, "Failed to downcast props or component");
            },
            ComponentError::LockError(m) => {
                push_str(&mut out, "Lock error: ");
                push_str(&mut out, m.as_str());
            },
            ComponentError::InvalidLifecycleTransition(phase, op) => {
                push_str(&mut out, "Invalid lifecycle transition: cannot ");
                push_str(&mut out, op.as_str());
                push_str(&mut out, " while in ");
                let name = phase_text(*phase);
                push_str(&mut out, name.as_str());
                push_str(&mut out, " phase");
            },
            ComponentError::RenderError(m) => {
                push_str(&mut out, "Error rendering component: ");
                push_str(&mut out, m.as_str());
            },
            ComponentError::UpdateError(m) => {
                push_str(&mut out, "Error updating component: ");
                push_str(&mut out, m.as_str());
            },
            ComponentError::MountError(m) => {
                push_str(&mut out, "Error mounting component: ");
                push_str(&mut out, m.as_str());
            },
            ComponentError::UnmountError(m) => {
                push_str(&mut out, "Error unmounting component: ");
                push_str(&mut out, m.as_str());
            },
            ComponentError::ReactiveSystemError(m) => {
                push_str(&mut out, "Reactive system error: ");
                push_str(&mut out, m.as_str());
            },
        }
        out
    }
}

/// No component occurs twice.
pub open spec fn no_duplicates(v: Seq<ComponentId>) -> bool {
    forall|i: int, j: int| 0 <= i < j < v.len() ==> v[i] != v[j]
}

/// Whether a component occurs in a list, by scanning it.
pub fn position_of(v: &Vec<ComponentId>, id: ComponentId) -> (r: Option<usize>)
    ensures
        match r {
            Some(i) => i < v@.len() && v@[i as int] == id && forall|j: int| 0 <= j < i ==> v@[j] != id,
            None => !v@.contains(id),
        },
{
    let mut i: usize = 0;
    while i < v.len()
        invariant
            i <= v.len(),
            forall|j: int| 0 <= j < i ==> v@[j] != id,
        decreases v.len() - i,
    {
        if v[i].0 == id.0 {
            return Some(i);
        }
        i = i + 1;
    }
    None
}

/// The set of components with a pending update, and whether a batch is scheduled.
#[derive(Debug, Default)]
pub struct UpdateScheduler {
    pending_updates: Vec<ComponentId>,
    batch_scheduled: bool,
}

impl UpdateScheduler {
    /// The components with a pending update.
    pub closed spec fn pending(self) -> Set<ComponentId> {
        self.pending_updates@.to_set()
    }

    /// Whether a batch of updates has been scheduled.
    pub closed spec fn scheduled(self) -> bool {
        self.batch_scheduled
    }

    /// No component is recorded twice.
    pub closed spec fn wf(self) -> bool {
        no_duplicates(self.pending_updates@)
    }

    /// An empty scheduler.
    pub fn new() -> (r: Self)
        ensures
            r.wf(),
            r.pending() == Set::<ComponentId>::empty(),
            !r.scheduled(),
    {
        let r = UpdateScheduler { pending_updates: Vec::new(), batch_scheduled: false };
        assert(r.pending_updates@.to_set() =~= Set::<ComponentId>::empty());
        r
    }

    /// Schedule a component for update.
    pub fn schedule_update(&mut self, component_id: ComponentId)
        requires
            old(self).wf(),
        ensures
            final(self).wf(),
            final(self).pending() == old(self).pending().insert(component_id),
            final(self).scheduled(),
    {
        match position_of(&self.pending_updates, component_id) {
            Some(_) => {
                assert(self.pending_updates@.to_set() =~= self.pending_updates@.to_set().insert(
                    component_id,
                ));
            },
            None => {
                let ghost prev = self.pending_updates@;
                self.pending_updates.push(component_id);
                assert forall|x: ComponentId| self.pending_updates@.to_set().contains(x)
                    <==> prev.to_set().insert(component_id).contains(x) by {
                    if self.pending_updates@.to_set().contains(x) {
                        let k = choose|k: int| 0 <= k < self.pending_updates@.len() && self.pending_updates@[k] == x;
                        if k < prev.len() {
                            assert(prev[k] == x);
                        }
                    }
                    if prev.to_set().contains(x) {
                        let k = choose|k: int| 0 <= k < prev.len() && prev[k] == x;
                        assert(self.pending_updates@[k] == x);
                    }
                    if x == component_id {
                        assert(self.pending_updates@[prev.len() as int] == x);
                    }
                }
                assert(self.pending_updates@.to_set() =~= prev.to_set().insert(component_id));
            },
        }
        if !self.batch_scheduled {
            self.batch_scheduled = true;
        }
    }

    /// Whether a component has a pending update.
    pub fn has_pending_update(&self, component_id: ComponentId) -> (r: bool)
        ensures
            r == self.pending().contains(component_id),
    {
        position_of(&self.pending_updates, component_id).is_some()
    }

    /// Clear the pending update of a component.
    pub fn clear_pending(&mut self, component_id: ComponentId)
        requires
            old(self).wf(),
        ensures
            final(self).wf(),
            final(self).pending() == old(self).pending().remove(component_id),
            final(self).scheduled() == old(self).scheduled(),
    {
        match position_of(&self.pending_updates, component_id) {
            Some(i) => {
                let ghost prev = self.pending_updates@;
                self.pending_updates.remove(i);
                assert(self.pending_updates@ =~= prev.take(i as int) + prev.skip(i + 1));
                assert forall|x: ComponentId| self.pending_updates@.to_set().contains(x)
                    <==> prev.to_set().remove(component_id).contains(x) by {
                    if prev.to_set().remove(component_id).contains(x) {
                        let k = choose|k: int| 0 <= k < prev.len() && prev[k] == x;
                        if k < i {
                            assert(self.pending_updates@[k] == x);
                        } else {
                            assert(k != i);
                            assert(self.pending_updates@[k - 1] == x);
                        }
                    }
                    if self.pending_updates@.to_set().contains(x) {
                        let k = choose|k: int| 0 <= k < self.pending_updates@.len() && self.pending_updates@[k] == x;
                        if k < i {
                            assert(prev[k] == x);
                        } else {
                            assert(prev[k + 1] == x);
                        }
                    }
                }
                assert(self.pending_updates@.to_set() =~= prev.to_set().remove(component_id));
            },
            None => {
                assert(self.pending_updates@.to_set() =~= self.pending_updates@.to_set().remove(
                    component_id,
                ));
            },
        }
    }

    /// All components with a pending update, each once.
    pub fn get_pending_components(&self) -> (r: Vec<ComponentId>)
        requires
            self.wf(),
        ensures
            r@.to_set() == self.pending(),
            no_duplicates(r@),
    {
        self.pending_updates.clone()
    }
}

} // verus!
