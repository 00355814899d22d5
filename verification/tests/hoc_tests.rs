use orbit::component::composition::Node;
use orbit::component::hoc::{HOCWrapper, LoggedComponent, MonitoredComponent, WithPerformanceMonitoring};
use orbit::component::lifecycle::Component;
use orbit::component::state_tracking::StateChanges;
use orbit::component::{ComponentError, ComponentId, LifecyclePhase, MountContext};

#[derive(Clone, Debug)]
struct TestProps {
    name: String,
}

struct TestComponent {
    id: ComponentId,
    props: TestProps,
    mounts: usize,
    updates: usize,
}

impl TestComponent {
    fn create(props: TestProps) -> Self {
        TestComponent { id: ComponentId::from_raw(77), props, mounts: 0, updates: 0 }
    }
}

impl Component for TestComponent {
    type Props = TestProps;

    fn component_id(&self) -> ComponentId {
        self.id
    }

    fn mount(&mut self) -> Result<(), ComponentError> {
        self.mounts += 1;
        Ok(())
    }

    fn on_update(&mut self, _changes: &StateChanges) -> Result<(), ComponentError> {
        self.updates += 1;
        Ok(())
    }

    fn update(&mut self, props: TestProps) -> Result<(), ComponentError> {
        self.props = props;
        Ok(())
    }

    fn render(&self) -> Result<Vec<Node>, ComponentError> {
        Ok(vec![])
    }
}

#[test]
fn test_logging_hoc() {
    let props = TestProps { name: "test".to_string() };
    let mut logged_component =
        LoggedComponent::<TestComponent>::new(props, ComponentId::from_raw(1), TestComponent::create).unwrap();
    assert_eq!(logged_component.wrapped_component().props.name, "test");
    assert!(logged_component.initialize().is_ok());
    assert!(logged_component.before_mount().is_ok());
}

#[test]
fn test_performance_monitoring_hoc() {
    let props = TestProps { name: "test".to_string() };
    let mut monitored_component =
        MonitoredComponent::<TestComponent>::new(props, ComponentId::from_raw(2), TestComponent::create).unwrap();
    assert!(monitored_component.initialize().is_ok());
}

#[test]
fn wrapper_passes_steps_on() {
    let props = TestProps { name: "a".to_string() };
    let mut w: HOCWrapper<WithPerformanceMonitoring, TestComponent> =
        HOCWrapper::new(props, ComponentId::from_raw(3), TestComponent::create).unwrap();
    assert_eq!(w.component_id(), ComponentId::from_raw(3));
    assert_eq!(w.lifecycle_phase(), LifecyclePhase::Created);
    // the pattern runs `mount`, then the wrapped `on_mount` (which calls `mount`) runs
    w.on_mount(&MountContext::new(ComponentId::from_raw(3))).unwrap();
    assert_eq!(w.wrapped_component().mounts, 2);
    w.update(TestProps { name: "b".to_string() }).unwrap();
    assert_eq!(w.hoc_props().name, "b");
    assert_eq!(w.wrapped_component().props.name, "b");
    w.wrapped_component_mut().props.name = "c".to_string();
    assert_eq!(w.wrapped_component().props.name, "c");
    assert!(w.render().unwrap().is_empty());
}
