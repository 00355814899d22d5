use orbit::component::composition::{Node, Slot, SlottedProps};

#[test]
fn test_slot_creation() {
    let slot = Slot::new("header");
    assert_eq!(slot.name, "header");
    assert!(!slot.required);

    let required_slot = Slot::new("content").required();
    assert!(required_slot.required);
}

#[test]
fn test_slotted_props() {
    let props = SlottedProps::new()
        .with_slot(Slot::new("header"))
        .with_slot(Slot::new("content").required());

    assert!(props.get_slot("header").is_some());
    assert!(props.get_slot("content").is_some());
    assert!(props.get_slot("footer").is_none());
}

#[test]
fn slot_replaced_by_name() {
    let props = SlottedProps::new()
        .with_slot(Slot::new("header"))
        .with_slot(Slot::new("header").with_nodes(vec![Node::new(5)]));
    let slot = props.get_slot("header").unwrap();
    assert_eq!(slot.nodes.len(), 1);
    assert_eq!(slot.nodes[0].id_value(), 5);
}

#[test]
fn node_children_and_attributes() {
    let mut root = Node::new(1);
    assert_eq!(root.id(), Some(1));
    root.add_child(Node::new(2));
    root.add_child(Node::new(3));
    assert_eq!(root.children().len(), 2);
    assert_eq!(root.children()[1].id_value(), 3);
    root.add_attribute("class".to_string(), "a".to_string());
    root.add_attribute("id".to_string(), "x".to_string());
    root.add_attribute("class".to_string(), "b".to_string());
    assert_eq!(
        root.attributes(),
        &vec![("class".to_string(), "b".to_string()), ("id".to_string(), "x".to_string())]
    );
}
