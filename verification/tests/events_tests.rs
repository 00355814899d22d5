use orbit::component::ComponentId;
use orbit::events::dispatcher::{combine_results, Dispatcher};
use orbit::events::{EventPropagation, Handler, HitNode, HitTester, PropagationPhase};
use std::sync::atomic::{AtomicBool, Ordering};
use std::sync::Arc;

#[test]
fn test_hit_tester_creation() {
    let hit_tester = HitTester::new();
    assert_eq!(hit_tester.stats.hit_tests, 0);
    assert_eq!(hit_tester.stats.nodes_tested, 0);
}

fn node(id: u64, hit: bool, children: Vec<HitNode>) -> HitNode {
    HitNode { id: ComponentId::from_raw(id), hit, children }
}

/// Root (1) with two children (2, 3); child 2 holds a nested node (4).
/// The flags describe a point inside the nested node.
fn layout_at_nested_point() -> HitNode {
    node(1, true, vec![node(2, true, vec![node(4, true, vec![])]), node(3, false, vec![])])
}

fn ids(v: &[ComponentId]) -> Vec<u64> {
    v.iter().map(|c| c.id()).collect()
}

#[test]
fn hit_test_orders_innermost_first() {
    let mut tester = HitTester::new();
    let hits = tester.hit_test(&layout_at_nested_point()).unwrap();
    assert_eq!(ids(&hits), vec![4, 2, 1]);
    assert_eq!(tester.stats.hit_tests, 1);
    assert_eq!(tester.stats.nodes_tested, 4);
    assert_eq!(tester.stats.hits_found, 3);
    assert!(tester.stats.hit_test_time_us > 0);
}

#[test]
fn hit_test_top_and_miss() {
    let mut tester = HitTester::new();
    assert_eq!(tester.hit_test_top(&layout_at_nested_point()).unwrap(), Some(ComponentId::from_raw(4)));
    let miss = node(1, false, vec![node(2, true, vec![])]);
    assert!(tester.hit_test(&miss).unwrap().is_empty());
    assert_eq!(tester.stats.nodes_tested, 1);
    assert_eq!(tester.hit_test_top(&miss).unwrap(), None);
    assert_eq!(tester.stats.hit_tests, 3);
}

#[test]
fn depth_first_and_region_order_outermost_first() {
    let mut tester = HitTester::new();
    let hits = tester.hit_test_depth_first(&layout_at_nested_point()).unwrap();
    assert_eq!(ids(&hits), vec![1, 2, 4]);
    let region = node(1, true, vec![node(2, true, vec![]), node(3, true, vec![])]);
    let hits = tester.hit_test_region(&region).unwrap();
    assert_eq!(ids(&hits), vec![1, 2, 3]);
    assert_eq!(tester.get_stats().hits_found, 3);
    tester.reset_stats();
    assert_eq!(tester.stats.hit_tests, 0);
    assert_eq!(tester.stats.hit_test_time_us, 0);
}

#[test]
fn propagation_controls() {
    let mut p = EventPropagation::new(PropagationPhase::Bubbling);
    assert!(!p.is_propagation_stopped());
    assert!(!p.is_default_prevented());
    p.stop_propagation();
    assert!(p.is_propagation_stopped());
    assert!(!p.is_default_prevented());
    p.prevent_default();
    assert!(p.is_default_prevented());
    assert_eq!(p.phase, PropagationPhase::Bubbling);
    assert_eq!(p.target_id, None);
}

/// A rectangle of the tests' layout (`x`, `y`, width, height).
#[derive(Clone, Copy)]
struct Rect {
    x: f32,
    y: f32,
    w: f32,
    h: f32,
}

impl Rect {
    fn new(x: f32, y: f32, w: f32, h: f32) -> Self {
        Rect { x, y, w, h }
    }

    fn contains_point(&self, px: f32, py: f32) -> bool {
        px >= self.x && px <= self.x + self.w && py >= self.y && py <= self.y + self.h
    }

    fn intersects(&self, o: &Rect) -> bool {
        self.x < o.x + o.w && self.x + self.w > o.x && self.y < o.y + o.h && self.y + self.h > o.y
    }
}

/// The layout of the original tests: root (400 x 300) with a top-left
/// child holding a nested node and a bottom-right child.
struct Layout {
    id: u64,
    rect: Rect,
    children: Vec<Layout>,
}

fn create_test_layout() -> Layout {
    Layout {
        id: 1,
        rect: Rect::new(0.0, 0.0, 400.0, 300.0),
        children: vec![
            Layout {
                id: 2,
                rect: Rect::new(0.0, 0.0, 200.0, 150.0),
                children: vec![Layout { id: 4, rect: Rect::new(50.0, 50.0, 100.0, 50.0), children: vec![] }],
            },
            Layout { id: 3, rect: Rect::new(200.0, 150.0, 200.0, 150.0), children: vec![] },
        ],
    }
}

fn at_point(l: &Layout, px: f32, py: f32) -> HitNode {
    node(l.id, l.rect.contains_point(px, py), l.children.iter().map(|c| at_point(c, px, py)).collect())
}

fn in_region(l: &Layout, r: &Rect) -> HitNode {
    node(l.id, l.rect.intersects(r), l.children.iter().map(|c| in_region(c, r)).collect())
}

#[test]
fn test_simple_hit_test() {
    let mut hit_tester = HitTester::new();
    let layout = create_test_layout();
    let hits = hit_tester.hit_test(&at_point(&layout, 300.0, 50.0)).unwrap();
    assert_eq!(hits.len(), 1);
    assert_eq!(hits[0].id(), layout.id);
}

#[test]
fn test_nested_hit_test() {
    let mut hit_tester = HitTester::new();
    let layout = create_test_layout();
    let hits = hit_tester.hit_test(&at_point(&layout, 100.0, 75.0)).unwrap();
    assert_eq!(hits.len(), 3);
    assert_eq!(hits[0].id(), layout.children[0].children[0].id);
    assert_eq!(hits[1].id(), layout.children[0].id);
    assert_eq!(hits[2].id(), layout.id);
}

#[test]
fn test_hit_test_top() {
    let mut hit_tester = HitTester::new();
    let layout = create_test_layout();
    let top_hit = hit_tester.hit_test_top(&at_point(&layout, 100.0, 75.0)).unwrap();
    assert_eq!(top_hit, Some(ComponentId::from_raw(layout.children[0].children[0].id)));
}

#[test]
fn test_hit_test_miss() {
    let mut hit_tester = HitTester::new();
    let layout = create_test_layout();
    let hits = hit_tester.hit_test(&at_point(&layout, 500.0, 500.0)).unwrap();
    assert!(hits.is_empty());
}

#[test]
fn test_hit_test_region() {
    let mut hit_tester = HitTester::new();
    let layout = create_test_layout();
    let region = Rect::new(150.0, 100.0, 100.0, 100.0);
    let hits = hit_tester.hit_test_region(&in_region(&layout, &region)).unwrap();
    assert!(hits.len() >= 2);
    assert!(hits.contains(&ComponentId::from_raw(layout.id)));
}

#[test]
fn test_hit_test_depth_first() {
    let mut hit_tester = HitTester::new();
    let layout = create_test_layout();
    let hits = hit_tester.hit_test_depth_first(&at_point(&layout, 100.0, 75.0)).unwrap();
    assert!(!hits.is_empty());
    assert!(hits.contains(&ComponentId::from_raw(layout.id)));
    assert!(hits.contains(&ComponentId::from_raw(layout.children[0].id)));
    assert!(hits.contains(&ComponentId::from_raw(layout.children[0].children[0].id)));
}

#[test]
fn test_hit_test_statistics() {
    let mut hit_tester = HitTester::new();
    let layout = create_test_layout();
    hit_tester.hit_test(&at_point(&layout, 100.0, 75.0)).unwrap();

    assert_eq!(hit_tester.stats.hit_tests, 1);
    assert!(hit_tester.stats.nodes_tested > 0);
    assert!(hit_tester.stats.hit_test_time_us > 0);
    assert_eq!(hit_tester.stats.hits_found, 3);

    let stats_str = hit_tester.stats.to_message();
    assert!(stats_str.contains("1 tests"));
    assert!(stats_str.contains("3 hits found"));
}

#[derive(Clone)]
struct TestEvent {
    data: String,
}

/// A handler made of a closure.
struct FnHandler<F>(F);

impl<F: Fn(&TestEvent) -> Result<(), String>> Handler<TestEvent> for FnHandler<F> {
    fn handle(&self, event: &TestEvent) -> Result<(), String> {
        (self.0)(event)
    }
}

#[test]
fn test_dispatcher() {
    let mut dispatcher = Dispatcher::<TestEvent, FnHandler<_>>::new();
    let called = Arc::new(AtomicBool::new(false));
    let called_clone = called.clone();

    dispatcher
        .on(FnHandler(move |event: &TestEvent| {
            called_clone.store(true, Ordering::SeqCst);
            assert_eq!(event.data, "test");
            Ok(())
        }))
        .unwrap();

    dispatcher.dispatch(&TestEvent { data: "test".to_string() }).unwrap();

    assert!(called.load(Ordering::SeqCst));
}

/// A handler that fails with a fixed message, or succeeds.
struct Fixed(Option<&'static str>);

impl Handler<TestEvent> for Fixed {
    fn handle(&self, _event: &TestEvent) -> Result<(), String> {
        match self.0 {
            Some(m) => Err(m.to_string()),
            None => Ok(()),
        }
    }
}

#[test]
fn dispatcher_joins_failures() {
    let mut d = Dispatcher::<TestEvent, Fixed>::new();
    d.add_handler(Fixed(Some("a"))).unwrap();
    d.add_handler(Fixed(None)).unwrap();
    d.add_handler(Fixed(Some("b"))).unwrap();
    let e = TestEvent { data: String::new() };
    assert_eq!(d.dispatch(&e), Err("a, b".to_string()));
    d.clear().unwrap();
    assert_eq!(d.dispatch(&e), Ok(()));
}

#[test]
fn combining_results() {
    assert_eq!(combine_results(&vec![]), Ok(()));
    assert_eq!(combine_results(&vec![Ok(()), Ok(())]), Ok(()));
    assert_eq!(combine_results(&vec![Err("x".to_string())]), Err("x".to_string()));
    assert_eq!(
        combine_results(&vec![Err("x".to_string()), Ok(()), Err("y".to_string()), Err("z".to_string())]),
        Err("x, y, z".to_string())
    );
}

#[test]
fn both_hit_orders_find_the_same_components() {
    let layout = create_test_layout();
    let mut t = HitTester::new();
    let mut inner = ids(&t.hit_test(&at_point(&layout, 100.0, 75.0)).unwrap());
    let mut outer = ids(&t.hit_test_depth_first(&at_point(&layout, 100.0, 75.0)).unwrap());
    assert_eq!(outer, vec![1, 2, 4]);
    inner.sort();
    outer.sort();
    assert_eq!(inner, outer);
}
