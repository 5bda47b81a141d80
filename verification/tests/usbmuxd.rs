use flog::transport::device::{Device, DeviceEvent, DeviceKind};
use flog::transport::lockdown::{lockdown_request, lockdown_value, reply_length};
use flog::transport::usbmuxd::{
    build_connect_request, connect_port_field, decode_plist_header, encode_plist_frame, PlistItem, PlistScalar,
    HEADER_SIZE,
};
use flog::transport::usbmuxd_source::{encode_listen_frame, AttachOutcome, UsbmuxdSession};

fn detached_msg(device_id: u64) -> Vec<(String, PlistItem)> {
    vec![
        ("MessageType".to_string(), PlistItem::Str("Detached".to_string())),
        ("DeviceID".to_string(), PlistItem::Int(Some(device_id))),
    ]
}

fn attached_msg(device_id: u64, serial: &str, name: Option<&str>) -> Vec<(String, PlistItem)> {
    let mut props = vec![
        ("DeviceID".to_string(), PlistItem::Int(Some(device_id))),
        ("SerialNumber".to_string(), PlistItem::Str(serial.to_string())),
    ];
    if let Some(n) = name {
        props.push(("DeviceName".to_string(), PlistItem::Str(n.to_string())));
    }
    vec![
        ("MessageType".to_string(), PlistItem::Str("Attached".to_string())),
        ("Properties".to_string(), PlistItem::Dict(props)),
    ]
}

/// Act on an outcome as the discovery loop does, without a name lookup.
fn apply(s: &mut UsbmuxdSession, out: AttachOutcome) {
    if let AttachOutcome::NewDevice { device_id, serial, name, .. } = out {
        s.tracker.add(Device { id: serial, name, kind: DeviceKind::IosUsb { device_id } });
    }
}

fn serial_of(s: &UsbmuxdSession, id: u32) -> Option<&str> {
    s.interfaces.get(&id).map(|v| v.as_str())
}

fn check_attached_emits_added_once() {
    let mut s = UsbmuxdSession::new();
    let out = s.handle_attached(&attached_msg(5, "APPLE-SN-1", Some("My iPhone")));
    apply(&mut s, out);
    let evt = s.tracker.take_events().into_iter().next().expect("Added");
    match evt {
        DeviceEvent::Added(d) => {
            assert_eq!(d.id, "APPLE-SN-1");
            assert_eq!(d.name, "My iPhone");
            assert!(matches!(d.kind, DeviceKind::IosUsb { device_id: 5 }));
        }
        _ => panic!("expected Added"),
    }
    assert_eq!(serial_of(&s, 5), Some("APPLE-SN-1"));
}

fn check_attached_second_interface_does_not_duplicate() {
    let mut s = UsbmuxdSession::new();
    let out = s.handle_attached(&attached_msg(5, "APPLE-SN-1", Some("iPhone")));
    apply(&mut s, out);
    let out = s.handle_attached(&attached_msg(7, "APPLE-SN-1", Some("iPhone")));
    apply(&mut s, out);
    let count = s.tracker.take_events().len();
    assert_eq!(count, 1, "only one Added for same serial");
    assert_eq!(s.interfaces.len(), 2);
}

fn check_attached_empty_serial_is_ignored() {
    let mut s = UsbmuxdSession::new();
    let out = s.handle_attached(&attached_msg(1, "", None));
    apply(&mut s, out);
    assert!(s.tracker.take_events().is_empty());
    assert!(s.interfaces.is_empty());
}

fn check_attached_missing_properties_is_skipped() {
    let mut s = UsbmuxdSession::new();
    let outer = vec![("MessageType".to_string(), PlistItem::Str("Attached".to_string()))];
    let out = s.handle_attached(&outer);
    apply(&mut s, out);
    assert!(s.tracker.take_events().is_empty());
}

fn check_dispatch_routes_message_types() {
    let mut s = UsbmuxdSession::new();
    let out = s.dispatch(&attached_msg(1, "SN-A", Some("A")));
    apply(&mut s, out);
    let out = s.dispatch(&detached_msg(1));
    apply(&mut s, out);
    let unknown = vec![("MessageType".to_string(), PlistItem::Str("Weirdo".to_string()))];
    let out = s.dispatch(&unknown);
    apply(&mut s, out);
    let events = s.tracker.take_events();
    assert_eq!(events.len(), 2, "exactly Added + Removed: {:?}", events);
}

#[test]
fn device_monitor_handle_attached_emits_added_once() {
    check_attached_emits_added_once();
}

#[test]
fn tests_handle_attached_emits_added_once() {
    check_attached_emits_added_once();
}

#[test]
fn device_monitor_handle_attached_second_interface_does_not_duplicate() {
    check_attached_second_interface_does_not_duplicate();
}

#[test]
fn tests_handle_attached_second_interface_does_not_duplicate() {
    check_attached_second_interface_does_not_duplicate();
}

#[test]
fn device_monitor_handle_attached_empty_serial_is_ignored() {
    check_attached_empty_serial_is_ignored();
}

#[test]
fn tests_handle_attached_empty_serial_is_ignored() {
    check_attached_empty_serial_is_ignored();
}

#[test]
fn device_monitor_handle_attached_missing_properties_is_skipped() {
    check_attached_missing_properties_is_skipped();
}

#[test]
fn tests_handle_attached_missing_properties_is_skipped() {
    check_attached_missing_properties_is_skipped();
}

#[test]
fn device_monitor_dispatch_routes_message_types() {
    check_dispatch_routes_message_types();
}

#[test]
fn tests_dispatch_routes_message_types() {
    check_dispatch_routes_message_types();
}

fn iphone() -> Device {
    Device { id: "SN".into(), name: "iPhone".into(), kind: DeviceKind::IosUsb { device_id: 5 } }
}

fn entry<'a>(v: &'a [(String, PlistScalar)], key: &str) -> Option<&'a PlistScalar> {
    v.iter().find(|(k, _)| k == key).map(|(_, s)| s)
}

fn le(h: &[u8], i: usize) -> u32 {
    u32::from_le_bytes([h[i], h[i + 1], h[i + 2], h[i + 3]])
}

#[test]
fn device_monitor_handle_detached_last_interface_removes_device() {
    let mut s = UsbmuxdSession::new();
    s.tracker.add(iphone());
    let _ = s.tracker.take_events();
    s.interfaces.insert(5, "SN".into());
    s.handle_detached(&detached_msg(5));
    let events = s.tracker.take_events();
    match events.into_iter().next().expect("Removed") {
        DeviceEvent::Removed(id) => assert_eq!(id, "SN"),
        _ => panic!("expected Removed"),
    }
    assert!(s.interfaces.is_empty());
}

#[test]
fn device_monitor_handle_detached_other_interface_preserves_device() {
    let mut s = UsbmuxdSession::new();
    s.tracker.add(iphone());
    let _ = s.tracker.take_events();
    s.interfaces.insert(5, "SN".into());
    s.interfaces.insert(7, "SN".into());
    s.handle_detached(&detached_msg(5));
    assert!(s.tracker.take_events().is_empty());
    assert!(s.interfaces.contains_key(&7));
    assert!(!s.interfaces.contains_key(&5));
}

#[test]
fn device_monitor_handle_detached_unknown_device_id_is_noop() {
    let mut s = UsbmuxdSession::new();
    s.handle_detached(&detached_msg(999));
    assert!(s.tracker.take_events().is_empty());
}

#[test]
fn device_monitor_encode_listen_frame_shape_matches_usbmuxd_wire_format() {
    let (header, body) = encode_listen_frame().expect("encode");
    assert_eq!(header.len(), HEADER_SIZE);
    assert_eq!(le(&header, 0) as usize, HEADER_SIZE + body.len());
    assert_eq!(le(&header, 4), 1);
    assert_eq!(le(&header, 8), 8);
    assert_eq!(le(&header, 12), 1);
    let parsed = plist::Value::from_reader(std::io::Cursor::new(body)).unwrap();
    let d = parsed.as_dictionary().unwrap();
    assert_eq!(d.get("MessageType").unwrap().as_string(), Some("Listen"));
    assert_eq!(d.get("ProgName").unwrap().as_string(), Some("flog"));
}

#[test]
fn tests_handle_detached_last_interface_removes_device() {
    let mut s = UsbmuxdSession::new();
    s.tracker.add(iphone());
    let _ = s.tracker.take_events();
    s.interfaces.insert(5, "SN".into());
    s.handle_detached(&detached_msg(5));
    let events = s.tracker.take_events();
    match events.into_iter().next().expect("Removed") {
        DeviceEvent::Removed(id) => assert_eq!(id, "SN"),
        _ => panic!("expected Removed"),
    }
    assert!(s.interfaces.is_empty());
}

#[test]
fn tests_handle_detached_other_interface_preserves_device() {
    let mut s = UsbmuxdSession::new();
    s.tracker.add(iphone());
    let _ = s.tracker.take_events();
    s.interfaces.insert(5, "SN".into());
    s.interfaces.insert(7, "SN".into());
    s.handle_detached(&detached_msg(5));
    assert!(s.tracker.take_events().is_empty());
    assert!(s.interfaces.contains_key(&7));
    assert!(!s.interfaces.contains_key(&5));
}

#[test]
fn tests_handle_detached_unknown_device_id_is_noop() {
    let mut s = UsbmuxdSession::new();
    s.handle_detached(&detached_msg(999));
    assert!(s.tracker.take_events().is_empty());
}

#[test]
fn tests_encode_listen_frame_shape_matches_usbmuxd_wire_format() {
    let (header, body) = encode_listen_frame().expect("encode");
    assert_eq!(header.len(), HEADER_SIZE);
    assert_eq!(le(&header, 0) as usize, HEADER_SIZE + body.len());
    assert_eq!(le(&header, 4), 1);
    assert_eq!(le(&header, 8), 8);
    assert_eq!(le(&header, 12), 1);
    let parsed = plist::Value::from_reader(std::io::Cursor::new(body)).unwrap();
    let d = parsed.as_dictionary().unwrap();
    assert_eq!(d.get("MessageType").unwrap().as_string(), Some("Listen"));
    assert_eq!(d.get("ProgName").unwrap().as_string(), Some("flog"));
}

#[test]
fn build_connect_request_contains_required_fields() {
    let v = build_connect_request(42, 9753);
    assert_eq!(entry(&v, "MessageType"), Some(&PlistScalar::Str("Connect".into())));
    assert_eq!(entry(&v, "DeviceID"), Some(&PlistScalar::UInt(42)));
    assert_eq!(entry(&v, "PortNumber"), Some(&PlistScalar::UInt(connect_port_field(9753) as u64)));
    assert_eq!(entry(&v, "ClientVersionString"), Some(&PlistScalar::Str("flog".into())));
    assert_eq!(entry(&v, "ProgName"), Some(&PlistScalar::Str("flog".into())));
}

#[test]
fn encode_frame_header_layout_is_usbmuxd_compliant() {
    let dict = vec![("MessageType".to_string(), PlistScalar::Str("Listen".to_string()))];
    let (header, body) = encode_plist_frame(&dict, 7).expect("encode");
    assert_eq!(header.len(), HEADER_SIZE);
    assert_eq!(le(&header, 0) as usize, HEADER_SIZE + body.len());
    assert_eq!(le(&header, 4), 1);
    assert_eq!(le(&header, 8), 8);
    assert_eq!(le(&header, 12), 7);
}

#[test]
fn encode_decode_round_trip_via_buffer() {
    let src = build_connect_request(17, 9753);
    let (header, body) = encode_plist_frame(&src, 2).unwrap();
    let mut header_arr = [0u8; HEADER_SIZE];
    header_arr.copy_from_slice(&header);
    let (tag, body_len) = decode_plist_header(&header_arr);
    assert_eq!(tag, 2);
    assert_eq!(body_len, body.len());
    let parsed = plist::Value::from_reader(std::io::Cursor::new(body)).unwrap();
    let d = parsed.as_dictionary().unwrap();
    assert_eq!(d.get("MessageType").unwrap().as_string(), Some("Connect"));
    assert_eq!(d.get("DeviceID").unwrap().as_unsigned_integer(), Some(17u64));
}

#[test]
fn plist_parse_rejects_malformed_bytes() {
    let garbage = b"not a plist at all";
    let result = plist::Value::from_reader(std::io::Cursor::new(garbage.to_vec()));
    assert!(result.is_err(), "garbage should not parse");
}

// ── own checks ────────────────────────────────────────────────────

#[test]
fn lockdown_value_of_garbage_is_none() {
    assert_eq!(lockdown_value(b"not a plist at all".to_vec()), None);
}

#[test]
fn connect_request_port_is_byte_swapped() {
    let v = build_connect_request(1, 0x1234);
    assert_eq!(entry(&v, "PortNumber"), Some(&PlistScalar::UInt(0x3412)));
}

#[test]
fn lockdown_request_length_prefix_reads_back() {
    let m = lockdown_request("DeviceName").expect("encode");
    let len_buf = [m[0], m[1], m[2], m[3]];
    assert_eq!(reply_length(&len_buf) as usize, m.len() - 4);
    let body = m[4..].to_vec();
    let parsed = plist::Value::from_reader(std::io::Cursor::new(body)).unwrap();
    let d = parsed.as_dictionary().unwrap();
    assert_eq!(d.get("Request").unwrap().as_string(), Some("GetValue"));
    assert_eq!(d.get("Key").unwrap().as_string(), Some("DeviceName"));
}
