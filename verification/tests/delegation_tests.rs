use std::cell::RefCell;
use std::rc::Rc;

use orbit::component::composition::Node;
use orbit::events::delegation::{build_delegation_tree, DelegateHandler, DelegatedEvent, DelegationTree, EventDelegate};
use orbit::events::{EventPropagation, PropagationPhase};

#[derive(Clone)]
struct Click;

#[derive(Clone)]
struct Key;

/// Records each call: the delegate's component and the phase.
#[derive(Clone)]
struct Recorder {
    log: Rc<RefCell<Vec<(Option<usize>, PropagationPhase)>>>,
}

impl DelegateHandler for Recorder {
    fn handle<E: 'static>(&self, _event: &E, propagation: &EventPropagation) {
        self.log.borrow_mut().push((propagation.current_target_id, propagation.phase));
    }
}

fn tree_of(root: &Node) -> (DelegationTree<Recorder>, usize) {
    let mut tree = DelegationTree::new();
    let r = build_delegation_tree(root, &mut tree, None);
    (tree, r)
}

/// Node 1 with children 2 and 3; node 2 has child 4.
fn sample() -> Node {
    let mut n2 = Node::new(2);
    n2.add_child(Node::new(4));
    let mut n1 = Node::new(1);
    n1.add_child(n2);
    n1.add_child(Node::new(3));
    n1
}

#[test]
fn building_lists_each_child_once() {
    let (tree, root) = tree_of(&sample());
    assert_eq!(root, 0);
    assert_eq!(tree.len(), 4);
    // the delegate tree mirrors the node tree: each child listed once
    let plan = tree.dispatch_plan(root, Some(99));
    let visited: Vec<usize> = plan.iter().filter(|(_, p)| *p == PropagationPhase::Capturing).map(|(i, _)| *i).collect();
    assert_eq!(visited, vec![0, 1, 2, 3]);
    // no delegate belongs to component 99: no target visit; bubbling at the root only
    assert_eq!(plan.last(), Some(&(0, PropagationPhase::Bubbling)));
}

#[test]
fn capturing_stops_at_the_target() {
    let (tree, root) = tree_of(&sample());
    let plan = tree.dispatch_plan(root, Some(1));
    assert_eq!(
        plan,
        vec![(0, PropagationPhase::Capturing), (0, PropagationPhase::Target), (0, PropagationPhase::Bubbling)]
    );
}

#[test]
fn bubbling_follows_parents() {
    let (tree, _root) = tree_of(&sample());
    // delegate 2 is node 4, below node 2 (delegate 1), below node 1 (delegate 0)
    let plan = tree.dispatch_plan(2, Some(4));
    assert_eq!(
        plan,
        vec![
            (2, PropagationPhase::Capturing),
            (2, PropagationPhase::Target),
            (2, PropagationPhase::Bubbling),
            (1, PropagationPhase::Bubbling),
            (0, PropagationPhase::Bubbling),
        ]
    );
}

#[test]
fn handlers_run_for_their_event_type_and_phase() {
    let (mut tree, root) = tree_of(&sample());
    let log = Rc::new(RefCell::new(Vec::new()));
    let rec = Recorder { log: log.clone() };
    // register on the root delegate: a capturing and a bubbling handler for clicks,
    // a target handler for keys
    tree.capture::<Click>(root, rec.clone());
    tree.bubble::<Click>(root, rec.clone());
    tree.on::<Key>(root, rec.clone());
    tree.dispatch(root, &Click, Some(1));
    assert_eq!(
        *log.borrow(),
        vec![(Some(1), PropagationPhase::Capturing), (Some(1), PropagationPhase::Bubbling)]
    );
    log.borrow_mut().clear();
    tree.dispatch(root, &Key, Some(1));
    assert_eq!(*log.borrow(), vec![(Some(1), PropagationPhase::Target)]);
}

#[test]
fn standalone_delegates() {
    let mut tree: DelegationTree<Recorder> = DelegationTree::new();
    let a = tree.insert(EventDelegate::new(Some(10)));
    let b = tree.insert(EventDelegate::new(Some(20)));
    tree.add_child(a, b);
    tree.set_parent(b, a);
    let plan = tree.dispatch_plan(a, Some(20));
    assert_eq!(
        plan,
        vec![(a, PropagationPhase::Capturing), (b, PropagationPhase::Capturing), (a, PropagationPhase::Bubbling)]
    );
}

#[test]
fn delegated_event_controls() {
    let mut e = DelegatedEvent::new(Click, PropagationPhase::Capturing);
    assert!(!e.propagation.is_propagation_stopped());
    e.stop_propagation();
    e.prevent_default();
    assert!(e.propagation.is_propagation_stopped());
    assert!(e.propagation.is_default_prevented());
}

/// Records the type names of the events it is called with.
#[derive(Clone)]
struct Names {
    tag: &'static str,
    log: Rc<RefCell<Vec<&'static str>>>,
}

impl orbit::events::emitter::EmitterHandler for Names {
    fn call<E: 'static>(&self, _event: &E) {
        self.log.borrow_mut().push(self.tag);
    }
}

#[test]
fn emitter_calls_handlers_of_the_type_in_order() {
    let log = Rc::new(RefCell::new(Vec::new()));
    let mut emitter = orbit::events::emitter::EventEmitter::new();
    emitter.on::<Click>(Names { tag: "c1", log: log.clone() }).unwrap();
    emitter.on::<Key>(Names { tag: "k", log: log.clone() }).unwrap();
    emitter.on::<Click>(Names { tag: "c2", log: log.clone() }).unwrap();
    emitter.emit(&Click).unwrap();
    assert_eq!(*log.borrow(), vec!["c1", "c2"]);
    emitter.emit(&Key).unwrap();
    assert_eq!(*log.borrow(), vec!["c1", "c2", "k"]);
    emitter.clear().unwrap();
    emitter.emit(&Click).unwrap();
    assert_eq!(log.borrow().len(), 3);
}
