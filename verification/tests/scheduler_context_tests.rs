use orbit::component::context::ContextProvider;
use orbit::component::update_scheduler::{UpdatePriority, UpdateScheduler};
use orbit::component::ComponentId;

fn process_all(scheduler: &mut UpdateScheduler) -> Vec<ComponentId> {
    let mut processed = Vec::new();
    scheduler
        .process_updates(|id| {
            processed.push(id);
            Ok(())
        })
        .unwrap();
    processed
}

#[test]
fn test_update_scheduler_basic() {
    let mut scheduler = UpdateScheduler::new();
    let c1 = ComponentId::from_raw(1);
    let c2 = ComponentId::from_raw(2);
    let c3 = ComponentId::from_raw(3);

    scheduler.schedule_update(c1, UpdatePriority::Normal).unwrap();
    scheduler.schedule_update(c2, UpdatePriority::High).unwrap();
    scheduler.schedule_update(c3, UpdatePriority::Low).unwrap();
    assert_eq!(scheduler.pending_update_count().unwrap(), 3);

    let processed = process_all(&mut scheduler);
    assert_eq!(processed.len(), 3);
    assert_eq!(processed[0], c2);
    assert_eq!(processed[1], c1);
    assert_eq!(processed[2], c3);
    assert_eq!(scheduler.pending_update_count().unwrap(), 0);
}

#[test]
fn test_duplicate_updates() {
    let mut scheduler = UpdateScheduler::new();
    let c1 = ComponentId::from_raw(1);
    scheduler.schedule_update(c1, UpdatePriority::Normal).unwrap();
    scheduler.schedule_update(c1, UpdatePriority::Normal).unwrap();
    scheduler.schedule_update(c1, UpdatePriority::Normal).unwrap();
    assert_eq!(scheduler.pending_update_count().unwrap(), 1);

    let processed = process_all(&mut scheduler);
    assert_eq!(processed.len(), 1);
    assert_eq!(processed[0], c1);
}

#[test]
fn test_priority_ordering() {
    let mut scheduler = UpdateScheduler::new();
    let c_normal = ComponentId::from_raw(1);
    let c_low = ComponentId::from_raw(2);
    let c_high = ComponentId::from_raw(3);
    let c_critical = ComponentId::from_raw(4);

    scheduler.schedule_update(c_normal, UpdatePriority::Normal).unwrap();
    scheduler.schedule_update(c_low, UpdatePriority::Low).unwrap();
    scheduler.schedule_update(c_high, UpdatePriority::High).unwrap();
    scheduler.schedule_update(c_critical, UpdatePriority::Critical).unwrap();

    let processed = process_all(&mut scheduler);
    assert_eq!(processed.len(), 4);
    assert_eq!(processed[0], c_critical);
    assert_eq!(processed[1], c_high);
    assert_eq!(processed[2], c_normal);
    assert_eq!(processed[3], c_low);
}

#[test]
fn test_clear_updates() {
    let mut scheduler = UpdateScheduler::new();
    let c1 = ComponentId::from_raw(1);
    let c2 = ComponentId::from_raw(2);
    scheduler.schedule_update(c1, UpdatePriority::Normal).unwrap();
    scheduler.schedule_update(c2, UpdatePriority::Normal).unwrap();
    assert_eq!(scheduler.pending_update_count().unwrap(), 2);

    scheduler.clear_updates().unwrap();
    assert_eq!(scheduler.pending_update_count().unwrap(), 0);
    assert!(!scheduler.has_pending_updates().unwrap());

    let processed = process_all(&mut scheduler);
    assert_eq!(processed.len(), 0);
}

#[test]
fn test_update_scheduler() {
    let mut scheduler = orbit::component::UpdateScheduler::default();
    let component_id = ComponentId::from_raw(9);

    assert!(!scheduler.has_pending_update(component_id));
    scheduler.schedule_update(component_id);
    assert!(scheduler.has_pending_update(component_id));

    let pending = scheduler.get_pending_components();
    assert_eq!(pending.len(), 1);
    assert_eq!(pending[0], component_id);

    scheduler.clear_pending(component_id);
    assert!(!scheduler.has_pending_update(component_id));
}

/// The values of the tests' contexts, one key per kind.
#[derive(Debug, Clone, PartialEq)]
enum Val {
    Int(i32),
    Text(String),
}

const INT: u64 = 1;
const TEXT: u64 = 2;
const FLOAT: u64 = 3;

#[test]
fn test_context_provider_basic() {
    let mut provider = ContextProvider::new();
    provider.provide(INT, Val::Int(42)).unwrap();
    provider.provide(TEXT, Val::Text("hello".to_string())).unwrap();

    assert_eq!(provider.consume(INT), Some(&Val::Int(42)));
    assert_eq!(provider.consume(TEXT), Some(&Val::Text("hello".to_string())));
    assert_eq!(provider.consume(FLOAT), None);

    assert!(provider.has(INT));
    assert!(provider.has(TEXT));
    assert!(!provider.has(FLOAT));
}

#[test]
fn test_context_provider_inheritance() {
    let mut parent = ContextProvider::new();
    parent.provide(INT, Val::Int(42)).unwrap();

    let mut child = ContextProvider::with_parent(parent);
    child.provide(TEXT, Val::Text("child_value".to_string())).unwrap();

    assert_eq!(child.consume(INT), Some(&Val::Int(42)));
    assert_eq!(child.consume(TEXT), Some(&Val::Text("child_value".to_string())));
}

#[test]
fn context_remove_falls_back_to_parent() {
    let mut parent = ContextProvider::new();
    parent.provide(INT, Val::Int(1)).unwrap();
    let mut child = ContextProvider::with_parent(parent);
    child.provide(INT, Val::Int(2)).unwrap();
    assert_eq!(child.consume(INT), Some(&Val::Int(2)));
    assert!(child.remove(INT));
    assert_eq!(child.consume(INT), Some(&Val::Int(1)));
    assert!(!child.remove(INT));
}

#[test]
fn providing_keeps_other_keys() {
    let mut parent = ContextProvider::new();
    parent.provide(TEXT, Val::Text("parent".to_string())).unwrap();
    let mut child = ContextProvider::with_parent(parent);
    child.provide(INT, Val::Int(1)).unwrap();
    assert_eq!(child.consume(TEXT), Some(&Val::Text("parent".to_string())));
    child.provide(INT, Val::Int(2)).unwrap();
    assert_eq!(child.consume(TEXT), Some(&Val::Text("parent".to_string())));
    assert_eq!(child.consume(FLOAT), None);
    assert_eq!(child.consume(INT), Some(&Val::Int(2)));
}

#[test]
fn callbacks_made_either_way_agree_and_clone() {
    let offset = 5;
    let a = orbit::component::context::callback(move |x: i32| x + offset);
    let b = orbit::component::context::Callback::new(move |x: i32| x + offset);
    assert_eq!(a.call(1), 6);
    assert_eq!(b.call(1), 6);
    let c = a.clone();
    assert_eq!(c.call(10), 15);
}
