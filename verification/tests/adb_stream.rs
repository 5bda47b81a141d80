use flog::transport::adb_source::{online_serials, parse_frame_header, retire_missing, unknown_serials};
use flog::transport::device::{Device, DeviceEvent, DeviceKind, DeviceTracker};

/// Build a single length-prefixed adb track-devices frame.
fn make_frame(payload: &str) -> Vec<u8> {
    let mut out = format!("{:04x}", payload.len()).into_bytes();
    out.extend_from_slice(payload.as_bytes());
    out
}

fn make_stream(frames: &[&str]) -> Vec<u8> {
    let mut out = Vec::new();
    for f in frames {
        out.extend_from_slice(&make_frame(f));
    }
    out
}

/// Read one frame from `bytes` at `*pos` as the discovery loop does: the
/// four header bytes, then the body that they announce, as UTF-8.
fn read_frame(bytes: &[u8], pos: &mut usize) -> Option<String> {
    let hdr: [u8; 4] = bytes.get(*pos..*pos + 4)?.try_into().ok()?;
    let len = parse_frame_header(&hdr)?;
    let body = bytes.get(*pos + 4..*pos + 4 + len)?.to_vec();
    *pos += 4 + len;
    String::from_utf8(body).ok()
}

/// Follow a whole track-devices stream. A serial that adb cannot name
/// keeps its serial as its name.
fn read_stream(bytes: &[u8]) -> Vec<DeviceEvent> {
    let mut tracker = DeviceTracker::new();
    let mut events = Vec::new();
    let mut pos = 0;
    while let Some(text) = read_frame(bytes, &mut pos) {
        let current = online_serials(&text);
        for serial in unknown_serials(&tracker, &current) {
            let name = serial.clone();
            tracker.add(Device { id: serial, name, kind: DeviceKind::Android });
        }
        retire_missing(&mut tracker, &current);
        events.extend(tracker.take_events());
    }
    events
}

fn frame_of(bytes: Vec<u8>) -> Option<String> {
    let mut pos = 0;
    read_frame(&bytes, &mut pos)
}

fn check_read_frame_parses_single_frame() {
    let frame = frame_of(make_frame("SERIAL1\tdevice\n"));
    assert_eq!(frame.as_deref(), Some("SERIAL1\tdevice\n"));
}

fn check_read_frame_empty_frame_ok() {
    let frame = frame_of(b"0000".to_vec());
    assert_eq!(frame.as_deref(), Some(""));
}

fn check_read_frame_truncated_header_returns_none() {
    assert!(frame_of(b"00".to_vec()).is_none());
}

fn check_read_frame_non_hex_header_returns_none() {
    assert!(frame_of(b"XXXX".to_vec()).is_none());
}

fn check_read_frame_truncated_body_returns_none() {
    let mut bytes = b"000a".to_vec();
    bytes.extend_from_slice(b"short");
    assert!(frame_of(bytes).is_none());
}

fn check_read_stream_emits_added_for_online_device() {
    let events = read_stream(&make_stream(&["TESTDEV\tdevice\n"]));
    let evt = events.into_iter().next().expect("Added event");
    match evt {
        DeviceEvent::Added(dev) => {
            assert_eq!(dev.id, "TESTDEV");
            assert!(matches!(dev.kind, DeviceKind::Android));
        }
        _ => panic!("expected Added"),
    }
}

fn check_read_stream_ignores_offline_and_unauthorized() {
    let events = read_stream(&make_stream(&["DEV1\toffline\nDEV2\tunauthorized\n"]));
    assert!(events.is_empty());
}

fn check_read_stream_removed_when_device_disappears() {
    let events = read_stream(&make_stream(&["GONEDEV\tdevice\n", ""]));
    let mut saw_added = false;
    let mut saw_removed = false;
    for evt in events {
        match evt {
            DeviceEvent::Added(d) if d.id == "GONEDEV" => saw_added = true,
            DeviceEvent::Removed(id) if id == "GONEDEV" => saw_removed = true,
            _ => {}
        }
    }
    assert!(saw_added, "should have seen Added");
    assert!(saw_removed, "should have seen Removed");
}

fn check_read_stream_malformed_line_is_skipped() {
    let events = read_stream(&make_stream(&["malformed no tab here\n"]));
    assert!(events.is_empty());
}

#[test]
fn device_monitor_read_frame_parses_single_frame() {
    check_read_frame_parses_single_frame();
}

#[test]
fn tests_read_frame_parses_single_frame() {
    check_read_frame_parses_single_frame();
}

#[test]
fn device_monitor_read_frame_empty_frame_ok() {
    check_read_frame_empty_frame_ok();
}

#[test]
fn tests_read_frame_empty_frame_ok() {
    check_read_frame_empty_frame_ok();
}

#[test]
fn device_monitor_read_frame_truncated_header_returns_none() {
    check_read_frame_truncated_header_returns_none();
}

#[test]
fn tests_read_frame_truncated_header_returns_none() {
    check_read_frame_truncated_header_returns_none();
}

#[test]
fn device_monitor_read_frame_non_hex_header_returns_none() {
    check_read_frame_non_hex_header_returns_none();
}

#[test]
fn tests_read_frame_non_hex_header_returns_none() {
    check_read_frame_non_hex_header_returns_none();
}

#[test]
fn device_monitor_read_frame_truncated_body_returns_none() {
    check_read_frame_truncated_body_returns_none();
}

#[test]
fn tests_read_frame_truncated_body_returns_none() {
    check_read_frame_truncated_body_returns_none();
}

#[test]
fn device_monitor_read_stream_emits_added_for_online_device() {
    check_read_stream_emits_added_for_online_device();
}

#[test]
fn tests_read_stream_emits_added_for_online_device() {
    check_read_stream_emits_added_for_online_device();
}

#[test]
fn device_monitor_read_stream_ignores_offline_and_unauthorized() {
    check_read_stream_ignores_offline_and_unauthorized();
}

#[test]
fn tests_read_stream_ignores_offline_and_unauthorized() {
    check_read_stream_ignores_offline_and_unauthorized();
}

#[test]
fn device_monitor_read_stream_removed_when_device_disappears() {
    check_read_stream_removed_when_device_disappears();
}

#[test]
fn tests_read_stream_removed_when_device_disappears() {
    check_read_stream_removed_when_device_disappears();
}

#[test]
fn device_monitor_read_stream_malformed_line_is_skipped() {
    check_read_stream_malformed_line_is_skipped();
}

#[test]
fn tests_read_stream_malformed_line_is_skipped() {
    check_read_stream_malformed_line_is_skipped();
}

#[test]
fn retire_missing_queues_removed_in_known_order() {
    let mut tracker = DeviceTracker::new();
    for id in ["A", "B", "C"] {
        tracker.add(Device { id: id.into(), name: id.into(), kind: DeviceKind::Android });
    }
    let _ = tracker.take_events();
    retire_missing(&mut tracker, &vec!["B".to_string()]);
    let removed: Vec<String> = tracker
        .take_events()
        .into_iter()
        .map(|e| match e {
            DeviceEvent::Removed(id) => id,
            DeviceEvent::Added(d) => panic!("unexpected Added {}", d.id),
        })
        .collect();
    assert_eq!(removed, vec!["A".to_string(), "C".to_string()]);
    assert!(tracker.contains("B"));
    assert!(!tracker.contains("A"));
}
