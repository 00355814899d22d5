use std::time::Duration;

use orbit::component::state_tracking::{
    values_equal, ChangePriority, StateChange, StateChanges, StateSnapshot, StateTracker,
    StateTrackingConfig, StateValue,
};
use orbit::component::ComponentId;
use orbit::component::state_hash::{push_fields_bytes, push_value_bytes};

fn field<'a>(snapshot: &'a StateSnapshot, name: &str) -> Option<&'a StateValue> {
    snapshot.fields.iter().find(|(n, _)| n == name).map(|(_, v)| v)
}

#[test]
fn test_state_snapshot_creation() {
    let fields = vec![
        ("count".to_string(), StateValue::Integer(42)),
        ("name".to_string(), StateValue::Text("test".to_string())),
    ];
    let snapshot = StateSnapshot::new(fields);

    assert_eq!(snapshot.fields.len(), 2);
    assert!(values_equal(field(&snapshot, "count").unwrap(), &StateValue::Integer(42)));
    assert!(values_equal(field(&snapshot, "name").unwrap(), &StateValue::Text("test".to_string())));
}

#[test]
fn test_state_diff_detection() {
    let snapshot1 = StateSnapshot::new(vec![("count".to_string(), StateValue::Integer(1))]);
    let snapshot2 = StateSnapshot::new(vec![("count".to_string(), StateValue::Integer(2))]);

    let changes = snapshot1.diff(&snapshot2);

    assert_eq!(changes.len(), 1);
    assert_eq!(changes[0].field_name, "count");
    assert!(values_equal(changes[0].old_value.as_ref().unwrap(), &StateValue::Integer(1)));
    assert!(values_equal(&changes[0].new_value, &StateValue::Integer(2)));
}

#[test]
fn test_state_tracker_dirty_fields() {
    let component_id = ComponentId::from_raw(1);
    let mut config = StateTrackingConfig::default();
    config.max_batch_size = 1;
    let mut tracker = StateTracker::new(component_id, config);

    let changes = tracker.update_state(vec![("count".to_string(), StateValue::Integer(1))]).unwrap();

    assert!(tracker.is_field_dirty("count"));
    assert!(changes.is_some());

    tracker.mark_field_clean("count");
    assert!(!tracker.is_field_dirty("count"));
}

#[test]
fn test_batch_flushing() {
    let component_id = ComponentId::from_raw(2);
    let mut config = StateTrackingConfig::default();
    config.max_batch_size = 2;
    config.snapshot_throttle = Duration::from_nanos(1);

    let mut tracker = StateTracker::new(component_id, config);

    let changes1 = tracker.update_state(vec![("count".to_string(), StateValue::Integer(1))]).unwrap();
    assert!(changes1.is_none());

    let changes2 = tracker.update_state(vec![("count".to_string(), StateValue::Integer(2))]).unwrap();
    assert!(changes2.is_some());

    let changes = changes2.unwrap();
    assert_eq!(changes.changes.len(), 2);
}

#[test]
fn removed_and_unchanged_fields() {
    let before = StateSnapshot::new(vec![
        ("a".to_string(), StateValue::Integer(1)),
        ("b".to_string(), StateValue::Boolean(true)),
    ]);
    let after = StateSnapshot::new(vec![("a".to_string(), StateValue::Integer(1))]);
    let changes = before.diff(&after);
    assert_eq!(changes.len(), 1);
    assert_eq!(changes[0].field_name, "b");
    assert!(matches!(changes[0].new_value, StateValue::Null));
    assert!(before.diff(&before).is_empty());
}

#[test]
fn floats_compare_by_value() {
    let nan = StateValue::Float(f64::NAN.to_bits());
    assert!(!values_equal(&nan, &nan));
    let zero = StateValue::Float(0.0f64.to_bits());
    let minus_zero = StateValue::Float((-0.0f64).to_bits());
    assert!(values_equal(&zero, &minus_zero));
}

#[test]
fn changes_by_priority() {
    let now = std::time::Instant::now();
    let mk = |name: &str, p: ChangePriority| StateChange {
        field_name: name.to_string(),
        old_value: None,
        new_value: StateValue::Null,
        timestamp: now,
        priority: p,
    };
    let mut changes = StateChanges::new(
        vec![mk("x", ChangePriority::Low), mk("y", ChangePriority::Critical), mk("x", ChangePriority::High)],
        false,
    );
    assert_eq!(changes.len(), 3);
    assert!(!changes.is_empty());
    assert!(changes.has_critical_changes());
    assert_eq!(changes.changes_for_field("x").len(), 2);
    changes.sort_by_priority();
    let order: Vec<ChangePriority> = changes.changes.iter().map(|c| c.priority).collect();
    assert_eq!(order, vec![ChangePriority::Critical, ChangePriority::High, ChangePriority::Low]);
}

#[test]
fn tracker_keeps_two_snapshots() {
    let mut config = StateTrackingConfig::default();
    config.snapshot_throttle = Duration::from_nanos(1);
    let mut tracker = StateTracker::new(ComponentId::from_raw(3), config);
    assert!(tracker.current_snapshot().is_none());
    tracker.update_state(vec![("n".to_string(), StateValue::Integer(1))]).unwrap();
    tracker.update_state(vec![("n".to_string(), StateValue::Integer(2))]).unwrap();
    assert!(tracker.previous_snapshot().is_some());
    assert_eq!(tracker.get_dirty_fields(), vec!["n".to_string()]);
    assert!(tracker.has_dirty_fields());
    assert_eq!(tracker.component_id(), ComponentId::from_raw(3));
    tracker.clear();
    assert!(tracker.current_snapshot().is_none());
    assert!(!tracker.has_dirty_fields());
}

fn std_hash(bytes: &[u8]) -> u64 {
    let mut hasher = std::collections::hash_map::DefaultHasher::new();
    std::hash::Hasher::write(&mut hasher, bytes);
    std::hash::Hasher::finish(&hasher)
}

#[test]
fn field_bytes_follow_name_order() {
    let fields = vec![
        ("b".to_string(), StateValue::Integer(1)),
        ("a".to_string(), StateValue::Boolean(true)),
    ];
    let mut out = Vec::new();
    push_fields_bytes(&mut out, &fields);
    assert_eq!(
        out,
        vec![0x61, 0xff, 3, 1, 0x62, 0xff, 1, 1, 0, 0, 0, 0, 0, 0, 0]
    );
}

#[test]
fn value_bytes_of_each_kind() {
    let mut out = Vec::new();
    push_value_bytes(&mut out, &StateValue::Null);
    push_value_bytes(&mut out, &StateValue::Text("é".to_string()));
    push_value_bytes(&mut out, &StateValue::Float(0x0102));
    push_value_bytes(&mut out, &StateValue::Integer(-1));
    push_value_bytes(
        &mut out,
        &StateValue::Array(vec![StateValue::Boolean(false)]),
    );
    push_value_bytes(
        &mut out,
        &StateValue::Object(vec![
            ("y".to_string(), StateValue::Null),
            ("x".to_string(), StateValue::Null),
        ]),
    );
    let expected: Vec<u8> = vec![
        6, // null
        0, 0xc3, 0xa9, 0xff, // text
        2, 2, 1, 0, 0, 0, 0, 0, 0, // float bits
        1, 0xff, 0xff, 0xff, 0xff, 0xff, 0xff, 0xff, 0xff, // integer
        4, 1, 0, 0, 0, 0, 0, 0, 0, 3, 0, // list of one item
        5, b'x', 0xff, 6, b'y', 0xff, 6, // object, names in order
    ];
    assert_eq!(out, expected);
}

#[test]
fn snapshot_hash_ignores_field_order() {
    let a = StateSnapshot::new(vec![
        ("count".to_string(), StateValue::Integer(42)),
        ("name".to_string(), StateValue::Text("test".to_string())),
    ]);
    let b = StateSnapshot::new(vec![
        ("name".to_string(), StateValue::Text("test".to_string())),
        ("count".to_string(), StateValue::Integer(42)),
    ]);
    assert_eq!(a.state_hash, b.state_hash);
    let c = StateSnapshot::new(vec![
        ("name".to_string(), StateValue::Text("test".to_string())),
        ("count".to_string(), StateValue::Integer(43)),
    ]);
    assert_ne!(a.state_hash, c.state_hash);
}

#[test]
fn snapshot_hash_is_the_hash_of_the_field_bytes() {
    let s = StateSnapshot::new(vec![("a".to_string(), StateValue::Boolean(true))]);
    assert_eq!(s.state_hash, std_hash(&[0x61, 0xff, 3, 1]));
    let empty = StateSnapshot::new(vec![]);
    assert_eq!(empty.state_hash, std_hash(&[]));
}

#[test]
fn equal_states_hash_equal() {
    let make = || {
        vec![
            ("list".to_string(), StateValue::Array(vec![StateValue::Integer(1), StateValue::Null])),
            (
                "obj".to_string(),
                StateValue::Object(vec![("k".to_string(), StateValue::Text("v".to_string()))]),
            ),
        ]
    };
    let a = StateSnapshot::new(make());
    let b = StateSnapshot::new(make());
    assert_eq!(a.state_hash, b.state_hash);
    let c = StateSnapshot::new(vec![(
        "list".to_string(),
        StateValue::Array(vec![StateValue::Integer(2), StateValue::Null]),
    )]);
    assert_ne!(a.state_hash, c.state_hash);
}

#[test]
fn record_snapshot_decides_by_elapsed_time() {
    let mut config = StateTrackingConfig::default();
    config.snapshot_throttle = Duration::from_millis(100);
    let mut tracker = StateTracker::new(ComponentId::from_raw(4), config);
    // no current snapshot: recorded whatever the time
    let first = StateSnapshot::new(vec![("n".to_string(), StateValue::Integer(1))]);
    tracker.record_snapshot(first, Duration::from_millis(0)).unwrap();
    assert!(tracker.current_snapshot().is_some());
    assert!(tracker.previous_snapshot().is_none());
    // too early: nothing changes
    let early = StateSnapshot::new(vec![("n".to_string(), StateValue::Integer(2))]);
    assert!(tracker.record_snapshot(early, Duration::from_millis(99)).unwrap().is_none());
    assert!(tracker.previous_snapshot().is_none());
    assert!(matches!(field(tracker.current_snapshot().unwrap(), "n"), Some(StateValue::Integer(1))));
    // late enough: recorded
    let late = StateSnapshot::new(vec![("n".to_string(), StateValue::Integer(3))]);
    tracker.record_snapshot(late, Duration::from_millis(100)).unwrap();
    assert!(tracker.previous_snapshot().is_some());
    assert!(matches!(field(tracker.current_snapshot().unwrap(), "n"), Some(StateValue::Integer(3))));
}
