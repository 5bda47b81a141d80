use flog::transport::local_source::{device_name, needs_simctl, parse_hello, Hello};

fn check_device_name_falls_back_when_app_and_os_empty() {
    let hello = Hello { os: String::new(), app: String::new() };
    assert!(!needs_simctl(&hello));
    assert_eq!(device_name(&hello, None), "Simulator");
}

fn check_device_name_uses_app_for_non_ios_os() {
    let hello = Hello { os: "android".into(), app: "MyCoolApp".into() };
    assert!(!needs_simctl(&hello));
    assert_eq!(device_name(&hello, None), "MyCoolApp");
}

/// The greeting of a first text frame, as the handshake reads it.
fn check_handshake_returns_some_on_valid_hello() {
    let frame = r#"{"type":"hello","os":"ios","app":"DemoApp"}"#;
    let hello = parse_hello(frame).expect("valid hello");
    assert_eq!(hello.os, "ios");
    assert_eq!(hello.app, "DemoApp");
}

fn check_handshake_none_when_type_field_wrong() {
    let frame = r#"{"type":"greetings","os":"x","app":"y"}"#;
    assert!(parse_hello(frame).is_none());
}

fn check_handshake_none_on_malformed_json() {
    assert!(parse_hello("not a json").is_none());
}

#[test]
fn device_monitor_device_name_falls_back_when_app_and_os_empty() {
    check_device_name_falls_back_when_app_and_os_empty();
}

#[test]
fn tests_device_name_falls_back_when_app_and_os_empty() {
    check_device_name_falls_back_when_app_and_os_empty();
}

#[test]
fn device_monitor_device_name_uses_app_for_non_ios_os() {
    check_device_name_uses_app_for_non_ios_os();
}

#[test]
fn tests_device_name_uses_app_for_non_ios_os() {
    check_device_name_uses_app_for_non_ios_os();
}

#[test]
fn device_monitor_handshake_returns_some_on_valid_hello() {
    check_handshake_returns_some_on_valid_hello();
}

#[test]
fn tests_handshake_returns_some_on_valid_hello() {
    check_handshake_returns_some_on_valid_hello();
}

#[test]
fn device_monitor_handshake_none_when_type_field_wrong() {
    check_handshake_none_when_type_field_wrong();
}

#[test]
fn tests_handshake_none_when_type_field_wrong() {
    check_handshake_none_when_type_field_wrong();
}

#[test]
fn device_monitor_handshake_none_on_malformed_json() {
    check_handshake_none_on_malformed_json();
}

#[test]
fn tests_handshake_none_on_malformed_json() {
    check_handshake_none_on_malformed_json();
}
