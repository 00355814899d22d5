//! Higher-order components: a wrapper that runs a component and lets a
//! pattern see its props and intercept its lifecycle steps.
use vstd::prelude::*;
use std::marker::PhantomData;

use crate::component::composition::Node;
use crate::component::lifecycle::Component;
use crate::component::state_tracking::StateChanges;
use crate::component::{ComponentError, ComponentId, LifecyclePhase, MountContext, UnmountContext};

verus! {

/// What a higher-order component does around the component it wraps.
pub trait HigherOrderComponent<T: Component> {
    /// The props of the wrapper.
    type HOCProps: Clone + 'static;

    /// The wrapped component's props for the wrapper's props.
    fn transform_props(hoc_props: &Self::HOCProps) -> T::Props;

    /// Changes the wrapped component after it is made; by default nothing.
    fn enhance_component(component: &mut T, hoc_props: &Self::HOCProps) -> (r: Result<(), ComponentError>)
        default_ensures
            r is Ok,
            *final(component) == *old(component),
    {
        Ok(())
    }

    /// Runs before the wrapped component mounts; by default nothing.
    fn on_wrapped_mount(component: &mut T, context: &MountContext, hoc_props: &Self::HOCProps) -> (r: Result<
        (),
        ComponentError,
    >)
        default_ensures
            r is Ok,
            *final(component) == *old(component),
    {
        Ok(())
    }

    /// Runs before the wrapped component handles state changes; by default
    /// nothing.
    fn on_wrapped_update(component: &mut T, changes: &StateChanges, hoc_props: &Self::HOCProps) -> (r: Result<
        (),
        ComponentError,
    >)
        default_ensures
            r is Ok,
            *final(component) == *old(component),
    {
        Ok(())
    }

    /// Runs before the wrapped component unmounts; by default nothing.
    fn on_wrapped_unmount(component: &mut T, context: &UnmountContext, hoc_props: &Self::HOCProps) -> (r: Result<
        (),
        ComponentError,
    >)
        default_ensures
            r is Ok,
            *final(component) == *old(component),
    {
        Ok(())
    }
}

/// A component wrapped by a higher-order component `H`: it keeps the
/// wrapper's props, its own identifier and phase, and passes each step on
/// to the wrapped component, letting `H` act first where it intercepts.
pub struct HOCWrapper<H: HigherOrderComponent<T>, T: Component> {
    wrapped_component: T,
    hoc_props: H::HOCProps,
    component_id: ComponentId,
    lifecycle_phase: LifecyclePhase,
    pattern: PhantomData<H>,
}

impl<H: HigherOrderComponent<T>, T: Component> HOCWrapper<H, T> {
    /// The wrapped component.
    pub closed spec fn wrapped(&self) -> T {
        self.wrapped_component
    }

    /// The wrapper's props.
    pub closed spec fn props(&self) -> H::HOCProps {
        self.hoc_props
    }

    /// The wrapper's identifier.
    pub closed spec fn spec_id(&self) -> ComponentId {
        self.component_id
    }

    /// The wrapper's phase.
    pub closed spec fn phase(&self) -> LifecyclePhase {
        self.lifecycle_phase
    }

    /// Wraps the component that `create` makes from the props `H` derives
    /// from `hoc_props`, then lets `H` enhance it; refused when that fails.
    /// The wrapper is `Created`, with the given identifier.
    pub fn new<F: FnOnce(T::Props) -> T>(hoc_props: H::HOCProps, component_id: ComponentId, create: F) -> (r: Result<
        Self,
        ComponentError,
    >)
        requires
            forall|p: T::Props| #[trigger] call_requires(create, (p,)),
        ensures
            exists|p: T::Props, c: T, e: Result<(), ComponentError>, k: &mut T|
                {
                    &&& #[trigger] call_ensures(H::transform_props, (&hoc_props,), p)
                    &&& #[trigger] call_ensures(create, (p,), c)
                    &&& mut_ref_current(k) == c
                    &&& #[trigger] call_ensures(H::enhance_component, (k, &hoc_props), e)
                    &&& match r {
                        Ok(w) => e is Ok && w.wrapped() == mut_ref_future(k) && w.props() == hoc_props
                            && w.spec_id() == component_id && w.phase() == LifecyclePhase::Created,
                        Err(x) => e == Err::<(), ComponentError>(x),
                    }
                },
    {
        let wrapped_props = H::transform_props(&hoc_props);
        let mut wrapped_component = create(wrapped_props);
        let enhanced = H::enhance_component(&mut wrapped_component, &hoc_props);
        match enhanced {
            Err(x) => Err(x),
            Ok(()) => Ok(
                HOCWrapper {
                    wrapped_component,
                    hoc_props,
                    component_id,
                    lifecycle_phase: LifecyclePhase::Created,
                    pattern: PhantomData,
                },
            ),
        }
    }

    /// The wrapped component.
    pub fn wrapped_component(&self) -> (r: &T)
        ensures
            *r == self.wrapped(),
    {
        &self.wrapped_component
    }

    /// The wrapped component, to change it.
    pub fn wrapped_component_mut(&mut self) -> (r: &mut T)
        ensures
            *r == old(self).wrapped(),
            final(self).wrapped() == *final(r),
            final(self).props() == old(self).props(),
            final(self).spec_id() == old(self).spec_id(),
            final(self).phase() == old(self).phase(),
    {
        &mut self.wrapped_component
    }

    /// The wrapper's props.
    pub fn hoc_props(&self) -> (r: &H::HOCProps)
        ensures
            *r == self.props(),
    {
        &self.hoc_props
    }

    /// Only the wrapped component changed.
    pub open spec fn only_wrapped_changed(&self, other: &Self) -> bool {
        &&& self.props() == other.props()
        &&& self.spec_id() == other.spec_id()
        &&& self.phase() == other.phase()
    }
}

impl<H: HigherOrderComponent<T>, T: Component> Component for HOCWrapper<H, T> {
    type Props = H::HOCProps;

    fn component_id(&self) -> (r: ComponentId)
        ensures
            r == self.spec_id(),
    {
        self.component_id
    }

    /// The wrapped component initializes.
    fn initialize(&mut self) -> (r: Result<(), ComponentError>)
        ensures
            final(self).only_wrapped_changed(old(self)),
            exists|k: &mut T|
                mut_ref_current(k) == old(self).wrapped() && mut_ref_future(k) == final(self).wrapped()
                    && #[trigger] call_ensures(T::initialize, (k,), r),
    {
        self.wrapped_component.initialize()
    }

    /// The wrapped component prepares to mount.
    fn before_mount(&mut self) -> (r: Result<(), ComponentError>)
        ensures
            final(self).only_wrapped_changed(old(self)),
            exists|k: &mut T|
                mut_ref_current(k) == old(self).wrapped() && mut_ref_future(k) == final(self).wrapped()
                    && #[trigger] call_ensures(T::before_mount, (k,), r),
    {
        self.wrapped_component.before_mount()
    }

    /// `H` sees the mount first; unless it fails, the wrapped component
    /// then mounts with the same context.
    fn on_mount(&mut self, context: &MountContext) -> (r: Result<(), ComponentError>)
        ensures
            final(self).only_wrapped_changed(old(self)),
            exists|a: Result<(), ComponentError>, k: &mut T|
                {
                    &&& mut_ref_current(k) == old(self).wrapped()
                    &&& #[trigger] call_ensures(H::on_wrapped_mount, (k, context, &old(self).props()), a)
                    &&& a is Err ==> r == a && final(self).wrapped() == mut_ref_future(k)
                    &&& a is Ok ==> exists|m: &mut T|
                        mut_ref_current(m) == mut_ref_future(k) && mut_ref_future(m) == final(self).wrapped()
                            && #[trigger] call_ensures(T::on_mount, (m, context), r)
                },
    {
        let first = H::on_wrapped_mount(&mut self.wrapped_component, context, &self.hoc_props);
        if first.is_err() {
            return first;
        }
        self.wrapped_component.on_mount(context)
    }

    /// The wrapped component finishes mounting.
    fn after_mount(&mut self) -> (r: Result<(), ComponentError>)
        ensures
            final(self).only_wrapped_changed(old(self)),
            exists|k: &mut T|
                mut_ref_current(k) == old(self).wrapped() && mut_ref_future(k) == final(self).wrapped()
                    && #[trigger] call_ensures(T::after_mount, (k,), r),
    {
        self.wrapped_component.after_mount()
    }

    /// `H` sees the state changes first; unless it fails, the wrapped
    /// component then handles them.
    fn on_update(&mut self, changes: &StateChanges) -> (r: Result<(), ComponentError>)
        ensures
            final(self).only_wrapped_changed(old(self)),
            exists|a: Result<(), ComponentError>, k: &mut T|
                {
                    &&& mut_ref_current(k) == old(self).wrapped()
                    &&& #[trigger] call_ensures(H::on_wrapped_update, (k, changes, &old(self).props()), a)
                    &&& a is Err ==> r == a && final(self).wrapped() == mut_ref_future(k)
                    &&& a is Ok ==> exists|m: &mut T|
                        mut_ref_current(m) == mut_ref_future(k) && mut_ref_future(m) == final(self).wrapped()
                            && #[trigger] call_ensures(T::on_update, (m, changes), r)
                },
    {
        let first = H::on_wrapped_update(&mut self.wrapped_component, changes, &self.hoc_props);
        if first.is_err() {
            return first;
        }
        self.wrapped_component.on_update(changes)
    }

    /// Whether the wrapped component should update for the props `H`
    /// derives from the new ones.
    fn should_update(&self, new_props: &H::HOCProps) -> (r: bool)
        ensures
            exists|p: T::Props|
                #[trigger] call_ensures(H::transform_props, (new_props,), p) && #[trigger] call_ensures(
                    T::should_update,
                    (&self.wrapped(), &p),
                    r,
                ),
    {
        let wrapped_props = H::transform_props(new_props);
        let w = &self.wrapped_component;
        let r = w.should_update(&wrapped_props);
        assert(call_ensures(H::transform_props, (new_props,), wrapped_props));
        assert(call_ensures(T::should_update, (&self.wrapped(), &wrapped_props), r));
        r
    }

    /// The wrapped component prepares for the props `H` derives from the
    /// new ones.
    fn before_update(&mut self, new_props: &H::HOCProps) -> (r: Result<(), ComponentError>)
        ensures
            final(self).only_wrapped_changed(old(self)),
            exists|p: T::Props, k: &mut T|
                #[trigger] call_ensures(H::transform_props, (new_props,), p) && mut_ref_current(k) == old(self).wrapped()
                    && mut_ref_future(k) == final(self).wrapped() && #[trigger] call_ensures(
                    T::before_update,
                    (k, &p),
                    r,
                ),
    {
        let wrapped_props = H::transform_props(new_props);
        self.wrapped_component.before_update(&wrapped_props)
    }

    /// The wrapper keeps the new props; the wrapped component updates with
    /// the props `H` derives from them.
    fn update(&mut self, props: H::HOCProps) -> (r: Result<(), ComponentError>)
        ensures
            final(self).props() == props,
            final(self).spec_id() == old(self).spec_id(),
            final(self).phase() == old(self).phase(),
            exists|p: T::Props, k: &mut T|
                #[trigger] call_ensures(H::transform_props, (&props,), p) && mut_ref_current(k) == old(self).wrapped()
                    && mut_ref_future(k) == final(self).wrapped() && #[trigger] call_ensures(
                    T::update,
                    (k, p),
                    r,
                ),
    {
        let wrapped_props = H::transform_props(&props);
        self.hoc_props = props;
        self.wrapped_component.update(wrapped_props)
    }

    /// The wrapped component finishes updating.
    fn after_update(&mut self) -> (r: Result<(), ComponentError>)
        ensures
            final(self).only_wrapped_changed(old(self)),
            exists|k: &mut T|
                mut_ref_current(k) == old(self).wrapped() && mut_ref_future(k) == final(self).wrapped()
                    && #[trigger] call_ensures(T::after_update, (k,), r),
    {
        self.wrapped_component.after_update()
    }

    /// The wrapped component prepares to unmount.
    fn before_unmount(&mut self) -> (r: Result<(), ComponentError>)
        ensures
            final(self).only_wrapped_changed(old(self)),
            exists|k: &mut T|
                mut_ref_current(k) == old(self).wrapped() && mut_ref_future(k) == final(self).wrapped()
                    && #[trigger] call_ensures(T::before_unmount, (k,), r),
    {
        self.wrapped_component.before_unmount()
    }

    /// `H` sees the unmount first; unless it fails, the wrapped component
    /// then unmounts with the same context.
    fn on_unmount(&mut self, context: &UnmountContext) -> (r: Result<(), ComponentError>)
        ensures
            final(self).only_wrapped_changed(old(self)),
            exists|a: Result<(), ComponentError>, k: &mut T|
                {
                    &&& mut_ref_current(k) == old(self).wrapped()
                    &&& #[trigger] call_ensures(H::on_wrapped_unmount, (k, context, &old(self).props()), a)
                    &&& a is Err ==> r == a && final(self).wrapped() == mut_ref_future(k)
                    &&& a is Ok ==> exists|m: &mut T|
                        mut_ref_current(m) == mut_ref_future(k) && mut_ref_future(m) == final(self).wrapped()
                            && #[trigger] call_ensures(T::on_unmount, (m, context), r)
                },
    {
        let first = H::on_wrapped_unmount(&mut self.wrapped_component, context, &self.hoc_props);
        if first.is_err() {
            return first;
        }
        self.wrapped_component.on_unmount(context)
    }

    /// The wrapped component finishes unmounting.
    fn after_unmount(&mut self) -> (r: Result<(), ComponentError>)
        ensures
            final(self).only_wrapped_changed(old(self)),
            exists|k: &mut T|
                mut_ref_current(k) == old(self).wrapped() && mut_ref_future(k) == final(self).wrapped()
                    && #[trigger] call_ensures(T::after_unmount, (k,), r),
    {
        self.wrapped_component.after_unmount()
    }

    /// The wrapped component mounts.
    fn mount(&mut self) -> (r: Result<(), ComponentError>)
        ensures
            final(self).only_wrapped_changed(old(self)),
            exists|k: &mut T|
                mut_ref_current(k) == old(self).wrapped() && mut_ref_future(k) == final(self).wrapped()
                    && #[trigger] call_ensures(T::mount, (k,), r),
    {
        self.wrapped_component.mount()
    }

    /// The wrapped component unmounts.
    fn unmount(&mut self) -> (r: Result<(), ComponentError>)
        ensures
            final(self).only_wrapped_changed(old(self)),
            exists|k: &mut T|
                mut_ref_current(k) == old(self).wrapped() && mut_ref_future(k) == final(self).wrapped()
                    && #[trigger] call_ensures(T::unmount, (k,), r),
    {
        self.wrapped_component.unmount()
    }

    /// The wrapped component cleans up.
    fn cleanup(&mut self) -> (r: Result<(), ComponentError>)
        ensures
            final(self).only_wrapped_changed(old(self)),
            exists|k: &mut T|
                mut_ref_current(k) == old(self).wrapped() && mut_ref_future(k) == final(self).wrapped()
                    && #[trigger] call_ensures(T::cleanup, (k,), r),
    {
        self.wrapped_component.cleanup()
    }

    /// The wrapped component hears of the state change.
    fn state_changed(&mut self, state_key: &str) -> (r: Result<(), ComponentError>)
        ensures
            final(self).only_wrapped_changed(old(self)),
            exists|k: &mut T|
                mut_ref_current(k) == old(self).wrapped() && mut_ref_future(k) == final(self).wrapped()
                    && #[trigger] call_ensures(T::state_changed, (k, state_key), r),
    {
        self.wrapped_component.state_changed(state_key)
    }

    /// The wrapped component asks for an update.
    fn request_update(&mut self) -> (r: Result<(), ComponentError>)
        ensures
            final(self).only_wrapped_changed(old(self)),
            exists|k: &mut T|
                mut_ref_current(k) == old(self).wrapped() && mut_ref_future(k) == final(self).wrapped()
                    && #[trigger] call_ensures(T::request_update, (k,), r),
    {
        self.wrapped_component.request_update()
    }

    /// What the wrapped component renders.
    fn render(&self) -> (r: Result<Vec<Node>, ComponentError>)
        ensures
            call_ensures(T::render, (&self.wrapped(),), r),
    {
        self.wrapped_component.render()
    }

    /// The wrapper's phase.
    fn lifecycle_phase(&self) -> (r: LifecyclePhase)
        ensures
            r == self.phase(),
    {
        self.lifecycle_phase
    }
}

/// A pattern that passes props through and intercepts nothing (it stands
/// for logging, which is no part of the component's behaviour).
pub struct WithLogging;

impl<T: Component> HigherOrderComponent<T> for WithLogging {
    type HOCProps = T::Props;

    /// The wrapper's props, cloned.
    fn transform_props(hoc_props: &T::Props) -> T::Props {
        hoc_props.clone()
    }
}

/// A pattern that passes props through and, around the measured steps,
/// runs the wrapped component's `mount` before it mounts and its
/// `on_update` before it handles state changes.
pub struct WithPerformanceMonitoring;

impl<T: Component> HigherOrderComponent<T> for WithPerformanceMonitoring {
    type HOCProps = T::Props;

    /// The wrapper's props, cloned.
    fn transform_props(hoc_props: &T::Props) -> T::Props {
        hoc_props.clone()
    }

    /// The wrapped component's `mount`.
    fn on_wrapped_mount(component: &mut T, context: &MountContext, hoc_props: &T::Props) -> (r: Result<
        (),
        ComponentError,
    >)
        ensures
            exists|k: &mut T|
                mut_ref_current(k) == *old(component) && mut_ref_future(k) == *final(component)
                    && #[trigger] call_ensures(T::mount, (k,), r),
    {
        component.mount()
    }

    /// The wrapped component's `on_update` with the changes.
    fn on_wrapped_update(component: &mut T, changes: &StateChanges, hoc_props: &T::Props) -> (r: Result<
        (),
        ComponentError,
    >)
        ensures
            exists|k: &mut T|
                mut_ref_current(k) == *old(component) && mut_ref_future(k) == *final(component)
                    && #[trigger] call_ensures(T::on_update, (k, changes), r),
    {
        component.on_update(changes)
    }
}

/// A component wrapped for logging.
pub type LoggedComponent<T> = HOCWrapper<WithLogging, T>;

/// A component wrapped for performance monitoring.
pub type MonitoredComponent<T> = HOCWrapper<WithPerformanceMonitoring, T>;

} // verus!
