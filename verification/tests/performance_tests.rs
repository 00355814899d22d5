use orbit::component::performance::{MemoCache, PerformanceMonitor, RenderStatistics};
use orbit::component::ComponentId;
use std::time::Duration;

#[test]
fn test_memo_cache() {
    let mut cache: MemoCache<String, Vec<u8>> = MemoCache::new(2, Duration::from_secs(1));

    cache.set("key1".to_string(), vec![]);
    cache.set("key2".to_string(), vec![]);
    assert_eq!(cache.size(), 2);

    // Adding a third item evicts the least used one.
    cache.set("key3".to_string(), vec![]);
    assert_eq!(cache.size(), 2);
}

#[test]
fn test_performance_monitor() {
    let mut monitor = PerformanceMonitor::new();
    let component_id = ComponentId::from_raw(1);

    monitor.record_render_time(component_id, Duration::from_millis(10));
    monitor.record_render_time(component_id, Duration::from_millis(20));

    let avg = monitor.get_average_render_time(component_id).unwrap();
    assert_eq!(avg, Duration::from_millis(15));
}

#[test]
fn memo_cache_evicts_least_recently_used() {
    let mut cache: MemoCache<String, u32> = MemoCache::new(2, Duration::from_secs(3600));
    cache.set("a".to_string(), 1);
    cache.set("b".to_string(), 2);
    assert_eq!(cache.get(&"a".to_string()), Some(1));
    assert_eq!(cache.get(&"missing".to_string()), None);
    // "a" was read after "b" was stored: "b" is the least recently used.
    cache.set("c".to_string(), 3);
    assert_eq!(cache.size(), 2);
    assert_eq!(cache.get(&"b".to_string()), None);
    assert_eq!(cache.get(&"a".to_string()), Some(1));
    assert_eq!(cache.get(&"c".to_string()), Some(3));
}

#[test]
fn memo_cache_replaces_existing_key_and_clears() {
    let mut cache: MemoCache<u64, &'static str> = MemoCache::new(10, Duration::from_secs(3600));
    cache.set(7, "old");
    cache.set(7, "new");
    assert_eq!(cache.size(), 1);
    assert_eq!(cache.get(&7), Some("new"));
    cache.clear();
    assert_eq!(cache.size(), 0);
    assert_eq!(cache.get(&7), None);
}

#[test]
fn memo_cache_expired_entries_are_removed() {
    let mut cache: MemoCache<u64, u64> = MemoCache::new(10, Duration::from_nanos(0));
    cache.set(1, 10);
    assert_eq!(cache.get(&1), None);
    assert_eq!(cache.size(), 0);
}

#[test]
fn monitor_statistics_and_window() {
    let mut monitor = PerformanceMonitor::new();
    let id = ComponentId::from_raw(3);
    let other = ComponentId::from_raw(4);
    assert!(monitor.get_average_render_time(id).is_none());
    let empty: RenderStatistics = monitor.get_render_statistics(id);
    assert_eq!(empty.count, 0);
    assert_eq!(empty.total, Duration::ZERO);

    for ms in [30u64, 10, 20] {
        monitor.record_render_time(id, Duration::from_millis(ms));
    }
    monitor.record_render_time(other, Duration::from_millis(1));
    let stats = monitor.get_render_statistics(id);
    assert_eq!(stats.count, 3);
    assert_eq!(stats.total, Duration::from_millis(60));
    assert_eq!(stats.average, Duration::from_millis(20));
    assert_eq!(stats.min, Duration::from_millis(10));
    assert_eq!(stats.max, Duration::from_millis(30));

    // Only the last 100 render times are kept.
    for _ in 0..150 {
        monitor.record_render_time(other, Duration::from_millis(2));
    }
    let other_stats = monitor.get_render_statistics(other);
    assert_eq!(other_stats.count, 100);
    assert_eq!(other_stats.min, Duration::from_millis(2));
}

#[test]
fn monitor_records_updates_and_mounts() {
    let mut monitor = PerformanceMonitor::new();
    let id = ComponentId::from_raw(9);
    monitor.record_update_time(id, Duration::from_millis(5));
    monitor.record_mount_time(id, Duration::from_millis(7));
    monitor.record_mount_time(id, Duration::from_millis(8));
    // Update times do not count as render times.
    assert!(monitor.get_average_render_time(id).is_none());
    let timer = monitor.start_render_timing(id);
    timer.finish(&mut monitor);
    assert_eq!(monitor.get_render_statistics(id).count, 1);
    assert!(monitor.get_average_render_time(id).is_some());
}

#[test]
fn test_update_batcher() {
    let mut batcher = orbit::component::performance::UpdateBatcher::new(Duration::from_millis(100), 5);
    let component_id = ComponentId::from_raw(1);

    let changes = orbit::component::state_tracking::StateChanges {
        changes: vec![],
        batch_timestamp: std::time::Instant::now(),
        immediate: false,
    };

    batcher.queue_update(component_id, changes);
    let updates = batcher.flush_updates();
    assert!(updates.iter().any(|(id, _)| *id == component_id));
}

#[test]
fn batcher_groups_by_component() {
    let mut batcher = orbit::component::performance::UpdateBatcher::new(Duration::from_secs(3600), 2);
    let a = ComponentId::from_raw(1);
    let b = ComponentId::from_raw(2);
    let mk = || orbit::component::state_tracking::StateChanges::new(vec![], false);
    batcher.queue_update(a, mk());
    assert!(!batcher.should_flush(a));
    batcher.queue_update(b, mk());
    batcher.queue_update(a, mk());
    assert!(batcher.should_flush(a));
    assert!(!batcher.should_flush(b));
    assert!(!batcher.should_flush(ComponentId::from_raw(3)));
    let updates = batcher.flush_updates();
    assert_eq!(updates.len(), 2);
    assert_eq!(updates[0].0, a);
    assert_eq!(updates[0].1.len(), 2);
    assert_eq!(updates[1].1.len(), 1);
    assert!(batcher.flush_updates().is_empty());
}

#[test]
fn memo_cache_evicts_by_recency_not_count() {
    let mut c: MemoCache<String, u32> = MemoCache::new(2, Duration::from_secs(60));
    c.set("a".to_string(), 1);
    c.get(&"a".to_string());
    c.get(&"a".to_string());
    c.set("b".to_string(), 2);
    c.get(&"b".to_string());
    c.set("c".to_string(), 3);
    assert_eq!(c.size(), 2);
    assert_eq!(c.get(&"a".to_string()), None);
    assert_eq!(c.get(&"b".to_string()), Some(2));
    assert_eq!(c.get(&"c".to_string()), Some(3));
}

#[test]
fn memo_cache_get_at_decides_by_age() {
    let mut c: MemoCache<u64, u32> = MemoCache::new(4, Duration::from_millis(100));
    c.set(1, 10);
    assert_eq!(c.get_at(&1, Duration::from_millis(99)), Some(10));
    assert_eq!(c.size(), 1);
    assert_eq!(c.get_at(&1, Duration::from_millis(100)), None);
    assert_eq!(c.size(), 0);
    assert_eq!(c.get_at(&2, Duration::from_millis(0)), None);
}
