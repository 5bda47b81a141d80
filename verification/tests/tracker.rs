use flog::transport::device::{Device, DeviceEvent, DeviceKind, DeviceTracker};

fn dev(id: &str) -> Device {
    Device {
        id: id.to_string(),
        name: format!("name-{}", id),
        kind: DeviceKind::Local,
    }
}

#[test]
fn device_monitor_add_emits_once_per_id() {
    let mut t = DeviceTracker::new();
    assert!(t.add(dev("A")));
    assert!(!t.add(dev("A")));
    let events = t.take_events();
    assert_eq!(events.len(), 1);
}

#[test]
fn device_monitor_contains_reflects_add_remove() {
    let mut t = DeviceTracker::new();
    assert!(!t.contains("A"));
    t.add(dev("A"));
    assert!(t.contains("A"));
    t.remove("A");
    assert!(!t.contains("A"));
}

#[test]
fn device_monitor_remove_unknown_id_is_silent() {
    let mut t = DeviceTracker::new();
    t.remove("never-added");
    assert!(t.take_events().is_empty());
}

#[test]
fn device_monitor_remove_after_add_emits_removed() {
    let mut t = DeviceTracker::new();
    t.add(dev("A"));
    let _ = t.take_events();
    t.remove("A");
    let events = t.take_events();
    match events.into_iter().next().expect("Removed") {
        DeviceEvent::Removed(id) => assert_eq!(id, "A"),
        _ => panic!("expected Removed"),
    }
}

#[test]
fn device_monitor_removed_since_computes_delta_correctly() {
    let mut t = DeviceTracker::new();
    t.add(dev("A"));
    t.add(dev("B"));
    t.add(dev("C"));
    let current: Vec<String> = vec!["B".to_string()];
    let mut diff = t.removed_since(&current);
    diff.sort();
    assert_eq!(diff, vec!["A".to_string(), "C".to_string()]);
}

#[test]
fn device_monitor_removed_since_empty_when_snapshot_equals_known() {
    let mut t = DeviceTracker::new();
    t.add(dev("A"));
    let current: Vec<String> = vec!["A".to_string()];
    assert!(t.removed_since(&current).is_empty());
}

#[test]
fn device_monitor_drain_emits_removed_for_every_known_and_clears() {
    let mut t = DeviceTracker::new();
    t.add(dev("A"));
    t.add(dev("B"));
    let _ = t.take_events();
    t.drain();
    let mut removed: Vec<String> = Vec::new();
    for evt in t.take_events() {
        if let DeviceEvent::Removed(id) = evt {
            removed.push(id);
        }
    }
    removed.sort();
    assert_eq!(removed, vec!["A".to_string(), "B".to_string()]);
    t.drain();
    assert!(t.take_events().is_empty());
}

#[test]
fn device_monitor_device_event_debug_is_stable() {
    let ev_added = DeviceEvent::Added(dev("A"));
    let ev_removed = DeviceEvent::Removed("A".into());
    assert!(format!("{:?}", ev_added).contains("Added"));
    assert!(format!("{:?}", ev_removed).contains("Removed"));
}

#[test]
fn tracker_tests_add_emits_once_per_id() {
    let mut t = DeviceTracker::new();
    assert!(t.add(dev("A")));
    assert!(!t.add(dev("A")));
    let events = t.take_events();
    assert_eq!(events.len(), 1);
}

#[test]
fn tracker_tests_contains_reflects_add_remove() {
    let mut t = DeviceTracker::new();
    assert!(!t.contains("A"));
    t.add(dev("A"));
    assert!(t.contains("A"));
    t.remove("A");
    assert!(!t.contains("A"));
}

#[test]
fn tracker_tests_remove_unknown_id_is_silent() {
    let mut t = DeviceTracker::new();
    t.remove("never-added");
    assert!(t.take_events().is_empty());
}

#[test]
fn tracker_tests_remove_after_add_emits_removed() {
    let mut t = DeviceTracker::new();
    t.add(dev("A"));
    let _ = t.take_events();
    t.remove("A");
    let events = t.take_events();
    match events.into_iter().next().expect("Removed") {
        DeviceEvent::Removed(id) => assert_eq!(id, "A"),
        _ => panic!("expected Removed"),
    }
}

#[test]
fn tracker_tests_removed_since_computes_delta_correctly() {
    let mut t = DeviceTracker::new();
    t.add(dev("A"));
    t.add(dev("B"));
    t.add(dev("C"));
    let current: Vec<String> = vec!["B".to_string()];
    let mut diff = t.removed_since(&current);
    diff.sort();
    assert_eq!(diff, vec!["A".to_string(), "C".to_string()]);
}

#[test]
fn tracker_tests_removed_since_empty_when_snapshot_equals_known() {
    let mut t = DeviceTracker::new();
    t.add(dev("A"));
    let current: Vec<String> = vec!["A".to_string()];
    assert!(t.removed_since(&current).is_empty());
}

#[test]
fn tracker_tests_drain_emits_removed_for_every_known_and_clears() {
    let mut t = DeviceTracker::new();
    t.add(dev("A"));
    t.add(dev("B"));
    let _ = t.take_events();
    t.drain();
    let mut removed: Vec<String> = Vec::new();
    for evt in t.take_events() {
        if let DeviceEvent::Removed(id) = evt {
            removed.push(id);
        }
    }
    removed.sort();
    assert_eq!(removed, vec!["A".to_string(), "B".to_string()]);
    t.drain();
    assert!(t.take_events().is_empty());
}

#[test]
fn tracker_tests_device_event_debug_is_stable() {
    let ev_added = DeviceEvent::Added(dev("A"));
    let ev_removed = DeviceEvent::Removed("A".into());
    assert!(format!("{:?}", ev_added).contains("Added"));
    assert!(format!("{:?}", ev_removed).contains("Removed"));
}

// ── own checks ────────────────────────────────────────────────────

#[test]
fn tracker_add_then_take_events_yields_added_with_device() {
    let mut t = DeviceTracker::new();
    t.add(dev("X"));
    let events = t.take_events();
    match &events[0] {
        DeviceEvent::Added(d) => {
            assert_eq!(d.id, "X");
            assert_eq!(d.name, "name-X");
        }
        _ => panic!("expected Added"),
    }
    assert!(t.take_events().is_empty());
}

#[test]
fn tracker_readd_after_remove_emits_again() {
    let mut t = DeviceTracker::new();
    assert!(t.add(dev("A")));
    t.remove("A");
    assert!(t.add(dev("A")));
    assert_eq!(t.take_events().len(), 3);
}
