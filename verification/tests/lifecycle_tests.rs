use orbit::component::composition::Node;
use orbit::component::lifecycle::{
    phase_text, Component, ComponentBase, ComponentInstance, Context, LifecycleCallback, LifecycleManager,
    NoProps,
};
use orbit::component::tree::{ComponentTree, TreeError};
use orbit::component::{
    ComponentError, ComponentId, LifecyclePhase, MountContext, UnmountContext, UnmountReason,
};

#[derive(Clone)]
struct TestProps {
    message: String,
}

#[derive(Default)]
struct Calls {
    mounted: bool,
    before_update: bool,
    updated: bool,
    after_update: bool,
    mounts: usize,
    unmounts: usize,
    before_unmount: bool,
    unmounted: bool,
}

struct TestComponent {
    id: ComponentId,
    message: String,
    calls: Calls,
    fail_mount: bool,
}

impl TestComponent {
    fn new(raw: u64, message: &str) -> Self {
        TestComponent {
            id: ComponentId::from_raw(raw),
            message: message.to_string(),
            calls: Calls::default(),
            fail_mount: false,
        }
    }
}

impl Component for TestComponent {
    type Props = TestProps;

    fn component_id(&self) -> ComponentId {
        self.id
    }

    fn mount(&mut self) -> Result<(), ComponentError> {
        if self.fail_mount {
            return Err(ComponentError::MountError("refused".to_string()));
        }
        self.calls.mounted = true;
        self.calls.mounts += 1;
        Ok(())
    }

    fn before_update(&mut self, _new_props: &TestProps) -> Result<(), ComponentError> {
        self.calls.before_update = true;
        Ok(())
    }

    fn update(&mut self, props: TestProps) -> Result<(), ComponentError> {
        self.calls.updated = true;
        self.message = props.message;
        Ok(())
    }

    fn after_update(&mut self) -> Result<(), ComponentError> {
        self.calls.after_update = true;
        Ok(())
    }

    fn before_unmount(&mut self) -> Result<(), ComponentError> {
        self.calls.before_unmount = true;
        Ok(())
    }

    fn unmount(&mut self) -> Result<(), ComponentError> {
        self.calls.unmounted = true;
        self.calls.unmounts += 1;
        Ok(())
    }

    fn render(&self) -> Result<Vec<Node>, ComponentError> {
        Ok(vec![])
    }
}

/// A callback that counts how often it ran.
struct Counter {
    runs: usize,
}

impl LifecycleCallback<TestComponent> for Counter {
    fn call(&mut self, component: &mut TestComponent) {
        self.runs += 1;
        component.message.push('!');
    }
}

fn create_test_component(raw: u64, name: &str) -> ComponentInstance<TestComponent> {
    let props = TestProps { message: name.to_string() };
    ComponentInstance::new(TestComponent::new(raw, name), props)
}

fn new_tree() -> ComponentTree<TestComponent, Counter> {
    ComponentTree::new(Context::new(ComponentId::from_raw(1000)))
}

#[test]
fn test_component_lifecycle() {
    let instance = create_test_component(1, "Hello");
    let context: Context<Counter> = Context::new(ComponentId::from_raw(1));
    let mut lifecycle_manager = LifecycleManager::new(instance, context);

    lifecycle_manager.initialize().expect("initialization should succeed");
    lifecycle_manager.mount().expect("mount should succeed");
    assert!(lifecycle_manager.get_component().instance.calls.mounted, "mount should have been called");

    let updated_props = TestProps { message: "Updated".to_string() };
    lifecycle_manager.update(updated_props).expect("update should succeed");
    {
        let component = &lifecycle_manager.get_component().instance;
        assert!(component.calls.updated, "update should have been called");
        assert!(component.calls.before_update, "before_update should have been called");
        assert!(component.calls.after_update, "after_update should have been called");
        assert_eq!(lifecycle_manager.get_component().props.message, "Updated", "Props should be updated");
    }

    lifecycle_manager.unmount().expect("unmount should succeed");
    {
        let component = &lifecycle_manager.get_component().instance;
        assert!(component.calls.unmounted, "unmount should have been called");
        assert!(component.calls.before_unmount, "before_unmount should have been called");
    }
}

#[test]
fn test_enhanced_lifecycle_with_contexts() {
    let instance = create_test_component(2, "x");
    let mut lifecycle_manager = LifecycleManager::new(instance, Context::<Counter>::new(ComponentId::from_raw(2)));
    assert!(lifecycle_manager.mount().is_ok());
    assert_eq!(lifecycle_manager.current_phase(), LifecyclePhase::Mounted);
    assert!(lifecycle_manager.unmount().is_ok());
    assert_eq!(lifecycle_manager.current_phase(), LifecyclePhase::Unmounted);
}

#[test]
fn test_mount_context_creation() {
    let component_id = ComponentId::from_raw(7);
    let mount_context = MountContext::new(component_id);

    assert_eq!(mount_context.component_id, component_id);
    assert!(mount_context.parent_id.is_none());
}

#[test]
fn test_unmount_context_creation() {
    let component_id = ComponentId::from_raw(8);
    let unmount_context = UnmountContext::new(component_id, UnmountReason::Removed);

    assert_eq!(unmount_context.component_id, component_id);
    assert_eq!(unmount_context.reason, UnmountReason::Removed);
    assert!(!unmount_context.force_cleanup);
}

#[test]
fn lifecycle_refuses_out_of_phase_operations() {
    let mut m = LifecycleManager::new(create_test_component(3, "a"), Context::<Counter>::new(ComponentId::from_raw(3)));
    match m.update(TestProps { message: "b".to_string() }) {
        Err(ComponentError::InvalidLifecycleTransition(p, op)) => {
            assert_eq!(p, LifecyclePhase::Created);
            assert_eq!(op, "update");
        },
        _ => panic!("update of a created component must be refused"),
    }
    assert!(m.unmount().is_err());
    assert!(m.handle_updates().is_err());
    assert!(m.render().is_err());
    m.mount().unwrap();
    assert!(m.initialize().is_err());
    match m.mount() {
        Err(e) => assert_eq!(
            e.to_message(),
            "Invalid lifecycle transition: cannot mount while in Mounted phase"
        ),
        Ok(()) => panic!("a second mount must be refused"),
    }
    assert_eq!(m.render().unwrap().len(), 0);
    m.unmount().unwrap();
    // once unmounted, nothing is accepted
    assert!(m.initialize().is_err());
    assert!(m.mount().is_err());
    assert!(m.update(TestProps { message: "c".to_string() }).is_err());
    assert!(m.unmount().is_err());
    assert!(m.handle_updates().is_err());
    assert_eq!(m.current_phase(), LifecyclePhase::Unmounted);
}

#[test]
fn mount_and_unmount_run_once() {
    let props = TestProps { message: "a".to_string() };
    let mut m = LifecycleManager::new(
        ComponentInstance::new(TestComponent::new(8, "a"), props),
        Context::<Counter>::new(ComponentId::from_raw(8)),
    );
    m.mount().unwrap();
    assert_eq!(m.get_component().instance.calls.mounts, 1);
    assert_eq!(m.current_phase(), LifecyclePhase::Mounted);
    m.unmount().unwrap();
    assert_eq!(m.get_component().instance.calls.unmounts, 1);
    assert_eq!(m.current_phase(), LifecyclePhase::Unmounted);
}

#[test]
fn failed_mount_returns_to_created() {
    let mut c = TestComponent::new(4, "a");
    c.fail_mount = true;
    let props = TestProps { message: "a".to_string() };
    let mut m = LifecycleManager::new(ComponentInstance::new(c, props), Context::<Counter>::new(ComponentId::from_raw(4)));
    // the default `on_mount` calls `mount`, which fails: the component is `Created` again
    assert!(m.mount().is_err());
    assert_eq!(m.current_phase(), LifecyclePhase::Created);
    assert_eq!(m.get_context().lifecycle_phase(), LifecyclePhase::Created);
}

#[test]
fn callbacks_run_in_their_phase() {
    let mut context: Context<Counter> = Context::new(ComponentId::from_raw(5));
    context.lifecycle_hooks_mut().on_before_update(Counter { runs: 0 });
    context.lifecycle_hooks_mut().on_mount(Counter { runs: 0 });
    context.lifecycle_hooks_mut().on_update(Counter { runs: 0 });
    context.lifecycle_hooks_mut().on_before_unmount(Counter { runs: 0 });
    context.lifecycle_hooks_mut().on_unmount(Counter { runs: 0 });
    let mut m = LifecycleManager::new(create_test_component(5, "m"), context);
    m.mount().unwrap();
    // the mount callback ran once, after the component was mounted
    assert_eq!(m.get_component().instance.message, "m!");
    assert!(m.get_component().instance.calls.mounted);
    m.update(TestProps { message: "n".to_string() }).unwrap();
    // the before-update callback ran before the update replaced the message,
    // the update callback after it
    assert_eq!(m.get_component().instance.message, "n!");
    assert_eq!(m.get_context().lifecycle_phase(), LifecyclePhase::Mounted);
    m.unmount().unwrap();
    // before-unmount and unmount callbacks, once each
    assert_eq!(m.get_component().instance.message, "n!!!");
    assert_eq!(m.current_phase(), LifecyclePhase::Unmounted);
}

#[test]
fn handle_updates_schedules_an_update() {
    let mut m = LifecycleManager::new(create_test_component(6, "h"), Context::<Counter>::new(ComponentId::from_raw(6)));
    m.mount().unwrap();
    m.handle_updates().unwrap();
    assert_eq!(m.current_phase(), LifecyclePhase::Mounted);
}

#[test]
fn phase_names() {
    assert_eq!(phase_text(LifecyclePhase::BeforeUnmount), "BeforeUnmount");
    assert_eq!(phase_text(LifecyclePhase::Created), "Created");
}

#[test]
fn test_component_tree_basic() {
    let mut tree = new_tree();

    let root_id = tree.add_component(create_test_component(1, "root")).unwrap();
    tree.set_root(root_id).unwrap();
    assert_eq!(tree.root_id().unwrap(), Some(root_id));

    let child_id = tree.add_component(create_test_component(2, "child")).unwrap();
    tree.add_child(root_id, child_id).unwrap();

    let children = tree.get_children(root_id).unwrap();
    assert_eq!(children.len(), 1);
    assert_eq!(children[0], child_id);

    let parent = tree.get_parent(child_id).unwrap();
    assert_eq!(parent, Some(root_id));
}

#[test]
fn test_component_tree_lifecycle() {
    let mut tree = new_tree();
    let root_id = tree.add_component(create_test_component(1, "root")).unwrap();
    tree.set_root(root_id).unwrap();
    let child1_id = tree.add_component(create_test_component(2, "child1")).unwrap();
    let child2_id = tree.add_component(create_test_component(3, "child2")).unwrap();
    tree.add_child(root_id, child1_id).unwrap();
    tree.add_child(root_id, child2_id).unwrap();

    tree.mount_component_tree(root_id).unwrap();

    let root_phase = tree.get_lifecycle_manager(root_id).unwrap().current_phase();
    assert_eq!(root_phase, LifecyclePhase::Mounted);
    let child1_phase = tree.get_lifecycle_manager(child1_id).unwrap().current_phase();
    assert_eq!(child1_phase, LifecyclePhase::Mounted);
}

#[test]
fn test_component_tree_removal() {
    let mut tree = new_tree();
    let root_id = tree.add_component(create_test_component(1, "root")).unwrap();
    tree.set_root(root_id).unwrap();
    let child1_id = tree.add_component(create_test_component(2, "child1")).unwrap();
    let child2_id = tree.add_component(create_test_component(3, "child2")).unwrap();
    tree.add_child(root_id, child1_id).unwrap();
    tree.add_child(root_id, child2_id).unwrap();

    tree.remove_child(root_id, child1_id).unwrap();
    let children = tree.get_children(root_id).unwrap();
    assert_eq!(children.len(), 1);
    assert_eq!(children[0], child2_id);

    let parent = tree.get_parent(child1_id).unwrap();
    assert_eq!(parent, None);
    assert!(tree.has_component(child1_id));

    tree.remove_component(child1_id).unwrap();
    assert!(!tree.has_component(child1_id));

    tree.remove_component(root_id).unwrap();
    assert!(!tree.has_component(root_id));
    assert!(!tree.has_component(child2_id));
    assert_eq!(tree.root_id().unwrap(), None);
}

#[test]
fn test_dirty_component_updates() {
    let mut tree = new_tree();
    let root_id = tree.add_component(create_test_component(1, "root")).unwrap();
    tree.set_root(root_id).unwrap();
    let child1_id = tree.add_component(create_test_component(2, "child1")).unwrap();
    let child2_id = tree.add_component(create_test_component(3, "child2")).unwrap();
    tree.add_child(root_id, child1_id).unwrap();
    tree.add_child(root_id, child2_id).unwrap();
    tree.mount_component_tree(root_id).unwrap();

    let dirty_components = vec![root_id, child1_id];
    let updated = tree.batch_update_components(&dirty_components).unwrap();
    assert_eq!(updated, 2);
}

#[test]
fn tree_refusals_and_messages() {
    let mut tree = new_tree();
    let a = tree.add_component(create_test_component(1, "a")).unwrap();
    let b = tree.add_component(create_test_component(2, "b")).unwrap();
    let c = tree.add_component(create_test_component(3, "c")).unwrap();
    let missing = ComponentId::from_raw(99);

    match tree.add_component(create_test_component(1, "again")) {
        Err(e) => assert_eq!(e.to_message(), "Component already exists: Component#1"),
        Ok(_) => panic!("duplicate must be refused"),
    }
    match tree.set_root(missing) {
        Err(e) => assert_eq!(e.to_message(), "Component not found: Component#99"),
        Ok(_) => panic!("unknown root must be refused"),
    }
    assert!(matches!(tree.add_child(missing, a), Err(TreeError::ComponentNotFound(x)) if x == missing));
    assert!(matches!(tree.add_child(a, missing), Err(TreeError::ComponentNotFound(x)) if x == missing));

    tree.add_child(a, c).unwrap();
    // same parent again: accepted, nothing changes
    tree.add_child(a, c).unwrap();
    assert_eq!(tree.get_children(a).unwrap(), vec![c]);
    match tree.add_child(b, c) {
        Err(TreeError::InvalidRelationship(m)) => assert_eq!(m, "Component 3 already has a parent 1"),
        _ => panic!("a second parent must be refused"),
    }
    match tree.add_child(b, c) {
        Err(e) => assert_eq!(
            e.to_message(),
            "Invalid parent-child relationship: Component 3 already has a parent 1"
        ),
        Ok(_) => panic!("a second parent must be refused"),
    }
    // a component cannot be its own child, nor the child of its descendant
    match tree.add_child(a, a) {
        Err(TreeError::InvalidRelationship(m)) => assert_eq!(m, "Component 1 is 1 or an ancestor of it"),
        _ => panic!("a self link must be refused"),
    }
    match tree.add_child(c, a) {
        Err(TreeError::InvalidRelationship(m)) => assert_eq!(m, "Component 1 is 3 or an ancestor of it"),
        _ => panic!("a link that closes a cycle must be refused"),
    }
    assert_eq!(tree.get_children(c).unwrap().len(), 0);
    assert_eq!(tree.get_parent(a).unwrap(), None);
    assert!(matches!(tree.batch_update_components(&[a, missing, b]), Err(TreeError::ComponentNotFound(x)) if x == missing));
    assert_eq!(tree.get_children(missing).unwrap().len(), 0);
    assert_eq!(tree.get_parent(missing).unwrap(), None);
    assert!(tree.get_component(missing).is_err());
    assert!(tree.remove_component(missing).is_err());
    assert_eq!(tree.detect_state_changes(a).unwrap(), false);
    assert_eq!(tree.get_components_to_update().unwrap().len(), 0);
    assert_eq!(tree.get_all_components().unwrap(), vec![a, b, c]);

    // render before mount is a lifecycle error
    match tree.render_component(a) {
        Err(e) => assert_eq!(
            e.to_message(),
            "Component lifecycle error: Invalid lifecycle transition: cannot render while in Created phase"
        ),
        Ok(_) => panic!("render of a created component must be refused"),
    }
}

#[test]
fn tree_mount_update_unmount() {
    let mut tree = new_tree();
    let a = tree.add_component(create_test_component(1, "a")).unwrap();
    let b = tree.add_component(create_test_component(2, "b")).unwrap();
    let c = tree.add_component(create_test_component(3, "c")).unwrap();
    tree.add_child(a, b).unwrap();
    tree.add_child(b, c).unwrap();
    tree.initialize_component(a).unwrap();
    tree.mount_component_tree(a).unwrap();
    for id in [a, b, c] {
        assert_eq!(tree.get_lifecycle_manager(id).unwrap().current_phase(), LifecyclePhase::Mounted);
    }
    // mounting again is refused by the first component
    assert!(matches!(tree.mount_component_tree(a), Err(TreeError::LifecycleError(_))));

    tree.update_component(b, TestProps { message: "new".to_string() }).unwrap();
    assert_eq!(tree.get_component(b).unwrap().props.message, "new");
    tree.update_component_tree(c, TestProps { message: "deep".to_string() }).unwrap();
    assert_eq!(tree.get_component(c).unwrap().instance.message, "deep");
    assert_eq!(tree.render_component(a).unwrap().len(), 0);

    tree.unmount_component_tree(a).unwrap();
    for id in [a, b, c] {
        assert_eq!(tree.get_lifecycle_manager(id).unwrap().current_phase(), LifecyclePhase::Unmounted);
    }
    assert!(tree.get_component(c).unwrap().instance.calls.unmounted);
}

#[test]
fn removing_a_component_removes_its_descendants_only() {
    let mut tree = new_tree();
    let a = tree.add_component(create_test_component(1, "a")).unwrap();
    let b = tree.add_component(create_test_component(2, "b")).unwrap();
    let c = tree.add_component(create_test_component(3, "c")).unwrap();
    let d = tree.add_component(create_test_component(4, "d")).unwrap();
    tree.add_child(a, b).unwrap();
    tree.add_child(b, c).unwrap();
    tree.add_child(a, d).unwrap();
    tree.set_root(a).unwrap();
    tree.remove_component(b).unwrap();
    assert!(!tree.has_component(b));
    assert!(!tree.has_component(c));
    assert!(tree.has_component(a));
    assert!(tree.has_component(d));
    assert_eq!(tree.get_children(a).unwrap(), vec![d]);
    assert_eq!(tree.root_id().unwrap(), Some(a));
}

#[test]
fn test_component_base() {
    let context: Context<Counter> = Context::new(ComponentId::from_raw(1));
    let mut base = ComponentBase::new(ComponentId::from_raw(11), context);

    assert_eq!(Component::lifecycle_phase(&base), LifecyclePhase::Created);

    base.set_lifecycle_phase(LifecyclePhase::Mounted);
    assert_eq!(Component::lifecycle_phase(&base), LifecyclePhase::Mounted);
    assert_eq!(base.context().lifecycle_phase(), LifecyclePhase::Mounted);
    assert_eq!(base.id(), ComponentId::from_raw(11));
    assert!(base.update(NoProps).is_ok());
    assert!(base.render().unwrap().is_empty());
}

/// A callback that does nothing.
struct Noop;

impl<C> LifecycleCallback<C> for Noop {
    fn call(&mut self, _component: &mut C) {}
}

#[test]
fn component_base_in_a_manager() {
    let base: ComponentBase<Noop> = ComponentBase::new(ComponentId::from_raw(12), Context::new(ComponentId::from_raw(12)));
    let mut m = LifecycleManager::new(ComponentInstance::new(base, NoProps), Context::<Noop>::new(ComponentId::from_raw(12)));
    m.mount().unwrap();
    m.update(NoProps).unwrap();
    m.unmount().unwrap();
    assert_eq!(m.current_phase(), LifecyclePhase::Unmounted);
    assert_eq!(m.get_component().id, ComponentId::from_raw(12));
}

#[test]
fn component_id_text() {
    assert_eq!(ComponentId::from_raw(42).to_text(), "Component#42");
    assert_eq!(ComponentId::from_raw(42).id(), 42);
}

#[test]
fn removal_stops_at_a_component_listed_twice() {
    let mut tree = new_tree();
    let r = tree.add_component(create_test_component(1, "r")).unwrap();
    let a = tree.add_component(create_test_component(2, "a")).unwrap();
    let b = tree.add_component(create_test_component(3, "b")).unwrap();
    tree.add_child(r, a).unwrap();
    tree.add_child(r, b).unwrap();
    // `a` does not list `b`, yet `b` loses its parent
    tree.remove_child(a, b).unwrap();
    assert_eq!(tree.get_parent(b).unwrap(), None);
    tree.add_child(a, b).unwrap();
    assert_eq!(tree.get_children(r).unwrap(), vec![a, b]);
    assert_eq!(tree.get_children(a).unwrap(), vec![b]);
    // `b` goes with `a`, and is then missing as the second child of `r`
    assert!(matches!(tree.remove_component(r), Err(TreeError::ComponentNotFound(x)) if x == b));
    assert!(!tree.has_component(a));
    assert!(!tree.has_component(b));
    assert!(tree.has_component(r));
}

#[test]
fn removal_of_a_forest_subtree_succeeds() {
    let mut tree = new_tree();
    let r = tree.add_component(create_test_component(1, "r")).unwrap();
    let a = tree.add_component(create_test_component(2, "a")).unwrap();
    let b = tree.add_component(create_test_component(3, "b")).unwrap();
    let c = tree.add_component(create_test_component(4, "c")).unwrap();
    tree.set_root(r).unwrap();
    tree.add_child(r, a).unwrap();
    tree.add_child(a, b).unwrap();
    tree.add_child(r, c).unwrap();
    tree.remove_component(a).unwrap();
    assert!(!tree.has_component(a));
    assert!(!tree.has_component(b));
    assert!(tree.has_component(c));
    assert_eq!(tree.get_children(r).unwrap(), vec![c]);
    tree.remove_component(r).unwrap();
    assert!(!tree.has_component(c));
    assert_eq!(tree.root_id().unwrap(), None);
}
