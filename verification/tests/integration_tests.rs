use orbit::component::composition::Node;
use orbit::component::lifecycle::{Component, ComponentInstance, Context, LifecycleCallback, LifecycleManager};
use orbit::component::tree::ComponentTree;
use orbit::component::{ComponentError, ComponentId, LifecyclePhase};

/// A component that records whether it was mounted and updated.
struct IntegrationTestComponent {
    id: ComponentId,
    name: String,
    count: i32,
    mounted: bool,
    updated: bool,
}

#[derive(Clone)]
struct TestProps {
    name: String,
}

impl IntegrationTestComponent {
    fn was_mounted(&self) -> bool {
        self.mounted
    }
}

impl Component for IntegrationTestComponent {
    type Props = TestProps;

    fn component_id(&self) -> ComponentId {
        self.id
    }

    fn render(&self) -> Result<Vec<Node>, ComponentError> {
        let mut node = Node::new(0);
        node.add_attribute("text".to_string(), format!("{}: {}", self.name, self.count));
        Ok(vec![node])
    }

    fn mount(&mut self) -> Result<(), ComponentError> {
        self.mounted = true;
        Ok(())
    }

    fn update(&mut self, props: TestProps) -> Result<(), ComponentError> {
        self.name = props.name;
        self.updated = true;
        Ok(())
    }
}

/// A callback that does nothing.
struct Quiet;

impl LifecycleCallback<IntegrationTestComponent> for Quiet {
    fn call(&mut self, _component: &mut IntegrationTestComponent) {}
}

fn create_test_component_instance(raw: u64, name: &str) -> ComponentInstance<IntegrationTestComponent> {
    let props = TestProps { name: name.to_string() };
    let component = IntegrationTestComponent {
        id: ComponentId::from_raw(raw),
        name: name.to_string(),
        count: 0,
        mounted: false,
        updated: false,
    };
    ComponentInstance::new(component, props)
}

fn new_tree() -> ComponentTree<IntegrationTestComponent, Quiet> {
    ComponentTree::new(Context::new(ComponentId::from_raw(500)))
}

fn phase_of(tree: &ComponentTree<IntegrationTestComponent, Quiet>, id: ComponentId) -> LifecyclePhase {
    tree.get_lifecycle_manager(id).unwrap().current_phase()
}

#[test]
fn integration_tests_test_complete_lifecycle_integration() {
    let mut tree = new_tree();

    let root_id = tree.add_component(create_test_component_instance(1, "root")).unwrap();
    tree.set_root(root_id).unwrap();

    let child1_id = tree.add_component(create_test_component_instance(2, "child1")).unwrap();
    tree.add_child(root_id, child1_id).unwrap();

    let child2_id = tree.add_component(create_test_component_instance(3, "child2")).unwrap();
    tree.add_child(root_id, child2_id).unwrap();

    tree.mount_component(root_id).unwrap();
    tree.mount_component(child1_id).unwrap();
    tree.mount_component(child2_id).unwrap();

    assert_eq!(phase_of(&tree, root_id), LifecyclePhase::Mounted);
    assert_eq!(phase_of(&tree, child1_id), LifecyclePhase::Mounted);
    assert_eq!(phase_of(&tree, child2_id), LifecyclePhase::Mounted);

    {
        let root_component = tree.get_component(root_id).unwrap();
        assert!(root_component.instance.was_mounted(), "Root component should be mounted");
    }

    let new_props = TestProps { name: "updated_child1".to_string() };
    tree.update_component(child1_id, new_props).unwrap();
    assert!(tree.get_component(child1_id).unwrap().instance.updated);
    assert_eq!(tree.get_component(child1_id).unwrap().instance.name, "updated_child1");

    tree.unmount_component(child1_id).unwrap();
    tree.unmount_component(child2_id).unwrap();
    tree.unmount_component(root_id).unwrap();

    assert_eq!(phase_of(&tree, root_id), LifecyclePhase::Unmounted);
    assert_eq!(phase_of(&tree, child1_id), LifecyclePhase::Unmounted);
    assert_eq!(phase_of(&tree, child2_id), LifecyclePhase::Unmounted);
}

#[test]
fn integration_tests_test_state_change_detection_integration() {
    let component_instance = create_test_component_instance(1, "test");
    let context: Context<Quiet> = Context::new(ComponentId::from_raw(1));
    let mut lifecycle_manager = LifecycleManager::new(component_instance, context);

    lifecycle_manager.initialize().unwrap();
    lifecycle_manager.mount().unwrap();

    let result = lifecycle_manager.handle_updates();
    match result {
        Ok(()) => {},
        Err(_) => {},
    }
}

#[test]
fn integration_tests_test_tree_wide_update_coordination() {
    let mut tree = new_tree();

    let root_id = tree.add_component(create_test_component_instance(1, "root")).unwrap();
    tree.set_root(root_id).unwrap();

    let child1_id = tree.add_component(create_test_component_instance(2, "child1")).unwrap();
    tree.add_child(root_id, child1_id).unwrap();

    let grandchild_id = tree.add_component(create_test_component_instance(3, "grandchild")).unwrap();
    tree.add_child(child1_id, grandchild_id).unwrap();

    tree.mount_component(root_id).unwrap();
    tree.mount_component(child1_id).unwrap();
    tree.mount_component(grandchild_id).unwrap();

    // the tree owns each lifecycle manager: the grandchild's pending updates
    // are looked for through the tree, and every component stays mounted
    {
        let manager = tree.get_lifecycle_manager(grandchild_id).unwrap();
        assert_eq!(manager.current_phase(), LifecyclePhase::Mounted);
    }
    assert!(tree.detect_state_changes(grandchild_id).is_ok());

    assert_eq!(phase_of(&tree, root_id), LifecyclePhase::Mounted);
    assert_eq!(phase_of(&tree, child1_id), LifecyclePhase::Mounted);
    assert_eq!(phase_of(&tree, grandchild_id), LifecyclePhase::Mounted);
}

#[test]
fn integration_tests_test_component_tree_dependency_ordering() {
    let mut tree = new_tree();

    let root_id = tree.add_component(create_test_component_instance(1, "root")).unwrap();
    tree.set_root(root_id).unwrap();

    let child1_id = tree.add_component(create_test_component_instance(2, "child1")).unwrap();
    tree.add_child(root_id, child1_id).unwrap();

    let child2_id = tree.add_component(create_test_component_instance(3, "child2")).unwrap();
    tree.add_child(root_id, child2_id).unwrap();

    tree.mount_component(root_id).unwrap();
    tree.mount_component(child1_id).unwrap();
    tree.mount_component(child2_id).unwrap();

    let all_components = tree.get_all_components().unwrap();
    assert!(all_components.contains(&root_id));
    assert!(all_components.contains(&child1_id));
    assert!(all_components.contains(&child2_id));
    assert_eq!(all_components.len(), 3);

    let children = tree.get_children(root_id).unwrap();
    assert_eq!(children.len(), 2);
    assert!(children.contains(&child1_id));
    assert!(children.contains(&child2_id));

    assert_eq!(tree.get_parent(child1_id).unwrap(), Some(root_id));
    assert_eq!(tree.get_parent(child2_id).unwrap(), Some(root_id));
    assert_eq!(tree.get_parent(root_id).unwrap(), None);
}

#[test]
fn rendered_text_names_the_component() {
    let mut tree = new_tree();
    let id = tree.add_component(create_test_component_instance(9, "label")).unwrap();
    tree.mount_component(id).unwrap();
    // the manager renders no nodes of its own
    assert_eq!(tree.render_component(id).unwrap().len(), 0);
    // the component renders its label
    let nodes = tree.get_component(id).unwrap().instance.render().unwrap();
    assert_eq!(nodes.len(), 1);
    assert_eq!(nodes[0].attributes().len(), 1);
    assert_eq!(nodes[0].attributes()[0].1, "label: 0");
}
