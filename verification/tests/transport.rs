use flog::transport::adb::{allocate_local_port, next_local_port, ADB_LOCAL_PORT_POOL_BASE, ADB_LOCAL_PORT_POOL_SIZE};
use flog::transport::adb_source::{capitalize_first, emulator_name, real_device_name};
use flog::transport::device::{ConnectionMethod, Device, DeviceKind};
use flog::transport::resolve::{resolve_transport_addr, TransportAddr};
use flog::transport::usbmuxd::{connect_port_field, decode_plist_header, HEADER_SIZE};

// ── adb port pool ─────────────────────────────────────────────────────

#[test]
fn next_local_port_within_pool_base() {
    assert_eq!(next_local_port(0), ADB_LOCAL_PORT_POOL_BASE);
}

#[test]
fn next_local_port_increments_by_one() {
    assert_eq!(next_local_port(1), ADB_LOCAL_PORT_POOL_BASE + 1);
    assert_eq!(next_local_port(5), ADB_LOCAL_PORT_POOL_BASE + 5);
}

#[test]
fn next_local_port_wraps_around_range() {
    assert_eq!(next_local_port(ADB_LOCAL_PORT_POOL_SIZE), ADB_LOCAL_PORT_POOL_BASE);
    assert_eq!(next_local_port(ADB_LOCAL_PORT_POOL_SIZE + 7), ADB_LOCAL_PORT_POOL_BASE + 7);
}

#[test]
fn next_local_port_stays_in_19753_29752_band() {
    for offset in [0u16, 1, 100, ADB_LOCAL_PORT_POOL_SIZE - 1, ADB_LOCAL_PORT_POOL_SIZE, u16::MAX] {
        let p = next_local_port(offset);
        assert!(p >= ADB_LOCAL_PORT_POOL_BASE, "{} below pool base", p);
        assert!(p < ADB_LOCAL_PORT_POOL_BASE + ADB_LOCAL_PORT_POOL_SIZE, "{} above pool", p);
    }
}

#[test]
fn adb_local_port_pool_constants_have_expected_values() {
    assert_eq!(ADB_LOCAL_PORT_POOL_BASE, 19753);
    assert_eq!(ADB_LOCAL_PORT_POOL_SIZE, 10000);
}

#[test]
fn allocate_local_port_advances_counter() {
    let mut counter = 0u16;
    let a = allocate_local_port(&mut counter);
    let b = allocate_local_port(&mut counter);
    let diff = b.wrapping_sub(a);
    assert_eq!(diff, 1);
}

#[test]
fn allocate_local_port_wraps_counter_and_pool() {
    let mut counter = u16::MAX;
    let a = allocate_local_port(&mut counter);
    assert_eq!(counter, 0);
    assert_eq!(a, ADB_LOCAL_PORT_POOL_BASE + (u16::MAX % ADB_LOCAL_PORT_POOL_SIZE));
    let b = allocate_local_port(&mut counter);
    assert_eq!(b, ADB_LOCAL_PORT_POOL_BASE);
    let mut last = ADB_LOCAL_PORT_POOL_SIZE - 1;
    assert_eq!(allocate_local_port(&mut last), ADB_LOCAL_PORT_POOL_BASE + ADB_LOCAL_PORT_POOL_SIZE - 1);
    assert_eq!(allocate_local_port(&mut last), ADB_LOCAL_PORT_POOL_BASE);
}

// ── devices ──────────────────────────────────────────────────────────

fn check_connection_methods() {
    let local = Device { id: "localhost".into(), name: "x".into(), kind: DeviceKind::Local };
    assert!(matches!(local.connection_method(), ConnectionMethod::Localhost));

    let android = Device { id: "SN123".into(), name: "x".into(), kind: DeviceKind::Android };
    match android.connection_method() {
        ConnectionMethod::AdbForward { serial } => assert_eq!(serial, "SN123"),
        _ => panic!("expected AdbForward"),
    }

    let ios = Device { id: "SN".into(), name: "x".into(), kind: DeviceKind::IosUsb { device_id: 42 } };
    match ios.connection_method() {
        ConnectionMethod::Usbmuxd { device_id } => assert_eq!(device_id, 42),
        _ => panic!("expected Usbmuxd"),
    }
}

#[test]
fn device_monitor_connection_method_maps_device_kind() {
    check_connection_methods();
}

#[test]
fn tracker_tests_connection_method_maps_device_kind() {
    check_connection_methods();
}

// ── device names ─────────────────────────────────────────────────────

#[test]
fn device_monitor_capitalize_first_basic_ascii() {
    assert_eq!(capitalize_first("samsung"), "Samsung");
    assert_eq!(capitalize_first("xiaomi"), "Xiaomi");
}

#[test]
fn device_monitor_capitalize_first_empty_is_empty() {
    assert_eq!(capitalize_first(""), "");
}

#[test]
fn device_monitor_capitalize_first_already_upper_is_noop() {
    assert_eq!(capitalize_first("OnePlus"), "OnePlus");
}

#[test]
fn device_monitor_capitalize_first_multibyte_char() {
    let out = capitalize_first("über");
    assert!(out.ends_with("ber"));
    assert!(out.starts_with('Ü'));
}

#[test]
fn tests_capitalize_first_basic_ascii() {
    assert_eq!(capitalize_first("samsung"), "Samsung");
    assert_eq!(capitalize_first("xiaomi"), "Xiaomi");
}

#[test]
fn tests_capitalize_first_empty_is_empty() {
    assert_eq!(capitalize_first(""), "");
}

#[test]
fn tests_capitalize_first_already_upper_is_noop() {
    assert_eq!(capitalize_first("OnePlus"), "OnePlus");
}

#[test]
fn tests_capitalize_first_multibyte_char() {
    let out = capitalize_first("über");
    assert!(out.ends_with("ber"));
    assert!(out.starts_with('Ü'));
}

#[test]
fn device_monitor_emulator_name_both_present_underscores_replaced() {
    assert_eq!(emulator_name(Some("Pixel_7_API_34".into()), Some("34".into())), "Pixel 7 API 34 (API 34, Emulator)");
}

#[test]
fn device_monitor_emulator_name_avd_only() {
    assert_eq!(emulator_name(Some("Test_AVD".into()), None), "Test AVD (Emulator)");
}

#[test]
fn device_monitor_emulator_name_api_only() {
    assert_eq!(emulator_name(None, Some("33".into())), "Android Emulator (API 33)");
}

#[test]
fn device_monitor_emulator_name_neither() {
    assert_eq!(emulator_name(None, None), "Android Emulator");
}

#[test]
fn tests_emulator_name_both_present_underscores_replaced() {
    assert_eq!(emulator_name(Some("Pixel_7_API_34".into()), Some("34".into())), "Pixel 7 API 34 (API 34, Emulator)");
}

#[test]
fn tests_emulator_name_avd_only() {
    assert_eq!(emulator_name(Some("Test_AVD".into()), None), "Test AVD (Emulator)");
}

#[test]
fn tests_emulator_name_api_only() {
    assert_eq!(emulator_name(None, Some("33".into())), "Android Emulator (API 33)");
}

#[test]
fn tests_emulator_name_neither() {
    assert_eq!(emulator_name(None, None), "Android Emulator");
}

#[test]
fn device_monitor_real_device_name_brand_model_deduped() {
    assert_eq!(real_device_name("S1", Some("samsung".into()), Some("Samsung Galaxy S24".into())), "Samsung Galaxy S24");
}

#[test]
fn device_monitor_real_device_name_brand_model_concatenated() {
    assert_eq!(real_device_name("S1", Some("oneplus".into()), Some("Nord 3".into())), "Oneplus Nord 3");
}

#[test]
fn device_monitor_real_device_name_model_only() {
    assert_eq!(real_device_name("S1", None, Some("Mi 11".into())), "Mi 11");
}

#[test]
fn device_monitor_real_device_name_brand_only_capitalized() {
    assert_eq!(real_device_name("S1", Some("pixel".into()), None), "Pixel");
}

#[test]
fn device_monitor_real_device_name_nothing_uses_serial() {
    assert_eq!(real_device_name("SN-123", None, None), "SN-123");
}

#[test]
fn tests_real_device_name_brand_model_deduped() {
    assert_eq!(real_device_name("S1", Some("samsung".into()), Some("Samsung Galaxy S24".into())), "Samsung Galaxy S24");
}

#[test]
fn tests_real_device_name_brand_model_concatenated() {
    assert_eq!(real_device_name("S1", Some("oneplus".into()), Some("Nord 3".into())), "Oneplus Nord 3");
}

#[test]
fn tests_real_device_name_model_only() {
    assert_eq!(real_device_name("S1", None, Some("Mi 11".into())), "Mi 11");
}

#[test]
fn tests_real_device_name_brand_only_capitalized() {
    assert_eq!(real_device_name("S1", Some("pixel".into()), None), "Pixel");
}

#[test]
fn tests_real_device_name_nothing_uses_serial() {
    assert_eq!(real_device_name("SN-123", None, None), "SN-123");
}

// ── transport planning ───────────────────────────────────────────────

fn local_device() -> Device {
    Device { id: "localhost".into(), name: "macOS".into(), kind: DeviceKind::Local }
}

fn android_device(serial: &str) -> Device {
    Device { id: serial.into(), name: "Pixel".into(), kind: DeviceKind::Android }
}

fn ios_device(device_id: u32) -> Device {
    Device { id: "APPLE-SN".into(), name: "iPhone".into(), kind: DeviceKind::IosUsb { device_id } }
}

#[test]
fn resolve_localhost_produces_localhost_variant() {
    let addr = resolve_transport_addr(&local_device(), 9753).expect("resolve");
    assert_eq!(addr, TransportAddr::Localhost { port: 9753 });
}

#[test]
fn resolve_android_produces_adb_forward_with_serial() {
    let addr = resolve_transport_addr(&android_device("SN-42"), 9755).expect("resolve");
    assert_eq!(addr, TransportAddr::AdbForward { serial: "SN-42".into(), port: 9755 });
}

#[test]
fn resolve_ios_usb_produces_usbmuxd_with_device_id() {
    let addr = resolve_transport_addr(&ios_device(7), 9760).expect("resolve");
    assert_eq!(addr, TransportAddr::Usbmuxd { device_id: 7, port: 9760 });
}

// ── usbmuxd framing ──────────────────────────────────────────────────

#[test]
fn connect_port_field_byte_swaps_u16() {
    assert_eq!(connect_port_field(62078), 0x7EF2);
    assert_eq!(connect_port_field(9753), 0x1926);
    assert_eq!(connect_port_field(0), 0);
    assert_eq!(connect_port_field(u16::MAX), 0x0000_FFFF);
    for p in [1u16, 80, 443, 8080, 32768] {
        let f = connect_port_field(p) as u16;
        assert_eq!(f.swap_bytes(), p);
    }
}

#[test]
fn decode_header_recovers_tag_and_body_len() {
    let mut h = [0u8; HEADER_SIZE];
    h[0..4].copy_from_slice(&100u32.to_le_bytes());
    h[4..8].copy_from_slice(&1u32.to_le_bytes());
    h[8..12].copy_from_slice(&8u32.to_le_bytes());
    h[12..16].copy_from_slice(&9u32.to_le_bytes());
    let (tag, body_len) = decode_plist_header(&h);
    assert_eq!(tag, 9);
    assert_eq!(body_len, 84);
}

#[test]
fn decode_header_handles_undersized_length_gracefully() {
    let mut h = [0u8; HEADER_SIZE];
    h[0..4].copy_from_slice(&4u32.to_le_bytes());
    h[12..16].copy_from_slice(&0u32.to_le_bytes());
    let (_tag, body_len) = decode_plist_header(&h);
    assert_eq!(body_len, 0);
}

// ── localhost discovery ──────────────────────────────────────────────

use flog::transport::local_source::{device_name, needs_simctl, parse_hello, parse_simctl_booted, scan_ports, Hello, ProbeState, ProbeStep};

#[test]
fn device_name_on_ios_uses_booted_simulator_or_fallback() {
    let hello = Hello { os: "iOS".into(), app: "MyCoolApp".into() };
    assert!(needs_simctl(&hello));
    assert_eq!(device_name(&hello, Some("iPhone 15 Pro".into())), "iPhone 15 Pro");
    assert_eq!(device_name(&hello, None), "Simulator");
}

#[test]
fn tests_parse_simctl_booted_finds_first_booted() {
    let json = br#"{
      "devices": {
        "com.apple.CoreSimulator.SimRuntime.iOS-17-4": [
          { "state": "Shutdown", "name": "iPhone 14" },
          { "state": "Booted",  "name": "iPhone 15 Pro" }
        ]
      }
    }"#;
    assert_eq!(parse_simctl_booted(json).as_deref(), Some("iPhone 15 Pro"));
}

#[test]
fn tests_parse_simctl_booted_returns_none_when_no_booted() {
    let json = br#"{ "devices": { "rt": [ { "state": "Shutdown", "name": "X" } ] } }"#;
    assert!(parse_simctl_booted(json).is_none());
}

#[test]
fn tests_parse_simctl_booted_returns_none_on_empty_devices() {
    let json = br#"{ "devices": {} }"#;
    assert!(parse_simctl_booted(json).is_none());
}

#[test]
fn tests_parse_simctl_booted_returns_none_on_malformed_json() {
    assert!(parse_simctl_booted(b"not json").is_none());
}

#[test]
fn tests_parse_simctl_booted_skips_non_array_runtime() {
    let json = br#"{ "devices": { "weird": "not an array",
                                  "rt": [ { "state": "Booted", "name": "OK" } ] } }"#;
    assert_eq!(parse_simctl_booted(json).as_deref(), Some("OK"));
}

#[test]
fn tests_parse_simctl_booted_missing_name_returns_none() {
    let json = br#"{ "devices": { "rt": [ { "state": "Booted" } ] } }"#;
    assert!(parse_simctl_booted(json).is_none());
}

#[test]
fn device_monitor_parse_simctl_booted_finds_first_booted() {
    let json = br#"{
      "devices": {
        "com.apple.CoreSimulator.SimRuntime.iOS-17-4": [
          { "state": "Shutdown", "name": "iPhone 14" },
          { "state": "Booted",  "name": "iPhone 15 Pro" }
        ]
      }
    }"#;
    assert_eq!(parse_simctl_booted(json).as_deref(), Some("iPhone 15 Pro"));
}

#[test]
fn device_monitor_parse_simctl_booted_returns_none_when_no_booted() {
    let json = br#"{ "devices": { "rt": [ { "state": "Shutdown", "name": "X" } ] } }"#;
    assert!(parse_simctl_booted(json).is_none());
}

#[test]
fn device_monitor_parse_simctl_booted_returns_none_on_empty_devices() {
    let json = br#"{ "devices": {} }"#;
    assert!(parse_simctl_booted(json).is_none());
}

#[test]
fn device_monitor_parse_simctl_booted_returns_none_on_malformed_json() {
    assert!(parse_simctl_booted(b"not json").is_none());
}

#[test]
fn device_monitor_parse_simctl_booted_skips_non_array_runtime() {
    let json = br#"{ "devices": { "weird": "not an array",
                                  "rt": [ { "state": "Booted", "name": "OK" } ] } }"#;
    assert_eq!(parse_simctl_booted(json).as_deref(), Some("OK"));
}

#[test]
fn device_monitor_parse_simctl_booted_missing_name_returns_none() {
    let json = br#"{ "devices": { "rt": [ { "state": "Booted" } ] } }"#;
    assert!(parse_simctl_booted(json).is_none());
}

#[test]
fn parse_hello_reads_identity_fields() {
    let h = parse_hello(r#"{"type":"hello","os":"ios","app":"Demo"}"#).unwrap();
    assert_eq!(h.os, "ios");
    assert_eq!(h.app, "Demo");
    let partial = parse_hello(r#"{"type":"hello","os":3}"#).unwrap();
    assert_eq!(partial.os, "");
    assert_eq!(partial.app, "");
    assert!(parse_hello(r#"{"type":"log","os":"ios"}"#).is_none());
    assert!(parse_hello("[]").is_none());
    assert!(parse_hello("not json").is_none());
}

#[test]
fn scan_ports_covers_ten_from_base() {
    assert_eq!(scan_ports(9753), (9753u16..9763).collect::<Vec<_>>());
}

#[test]
fn probe_state_skips_failed_ports_until_they_close() {
    let mut st = ProbeState::new();
    assert_eq!(st.on_scan(&vec![9753, 9754]), ProbeStep::Handshake(vec![9753, 9754]));
    st.on_handshake(9753, false);
    assert_eq!(st.non_flog, std::collections::HashSet::from([9753u16]));
    assert_eq!(st.on_scan(&vec![9753, 9754]), ProbeStep::Handshake(vec![9754]));
    assert_eq!(st.on_scan(&vec![9754]), ProbeStep::Handshake(vec![9754]));
    assert!(st.non_flog.is_empty());
    assert_eq!(st.on_scan(&vec![9753, 9754]), ProbeStep::Handshake(vec![9753, 9754]));
    st.on_handshake(9754, true);
    assert!(st.verified);
    assert_eq!(st.on_scan(&vec![9754]), ProbeStep::Idle);
    assert_eq!(st.on_scan(&vec![]), ProbeStep::Lost);
    assert!(!st.verified);
    assert!(st.non_flog.is_empty());
}

#[test]
fn probe_state_announces_added_once_then_removed() {
    let mut st = ProbeState::new();
    assert_eq!(st.on_scan(&vec![9753]), ProbeStep::Handshake(vec![9753]));
    assert!(st.on_handshake(9753, true));
    assert!(!st.on_handshake(9753, true));
    assert!(!st.on_handshake(9754, false));
    assert_eq!(st.on_scan(&vec![]), ProbeStep::Lost);
    assert_eq!(st.on_scan(&vec![]), ProbeStep::Handshake(vec![]));
    assert_eq!(st.on_scan(&vec![9753]), ProbeStep::Handshake(vec![9753]));
    assert!(st.on_handshake(9753, true));
}
