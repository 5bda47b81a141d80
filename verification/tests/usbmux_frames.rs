use flog::transport::usbmuxd::{decode_plist_header, message_dict, PlistItem, HEADER_SIZE};

/// Build a raw usbmuxd wire frame around a plist value.
fn build_frame(val: plist::Value) -> Vec<u8> {
    let mut body = Vec::new();
    val.to_writer_xml(&mut body).unwrap();
    let total_len = (HEADER_SIZE + body.len()) as u32;
    let mut out = Vec::with_capacity(HEADER_SIZE + body.len());
    out.extend_from_slice(&total_len.to_le_bytes());
    out.extend_from_slice(&1u32.to_le_bytes());
    out.extend_from_slice(&8u32.to_le_bytes());
    out.extend_from_slice(&1u32.to_le_bytes());
    out.extend_from_slice(&body);
    out
}

/// Read one message as the usbmuxd loop does: the header, the body it
/// announces, and the dictionary in that body.
fn read_message(bytes: &[u8]) -> Option<Vec<(String, PlistItem)>> {
    let hdr: [u8; HEADER_SIZE] = bytes.get(..HEADER_SIZE)?.try_into().ok()?;
    let (_tag, body_len) = decode_plist_header(&hdr);
    let body = bytes.get(HEADER_SIZE..HEADER_SIZE + body_len)?.to_vec();
    message_dict(body)
}

fn check_parses_valid_frame() {
    let mut d = plist::Dictionary::new();
    d.insert("MessageType".into(), "Attached".into());
    let parsed = read_message(&build_frame(plist::Value::Dictionary(d))).expect("dict");
    let value = parsed.iter().find(|(k, _)| k == "MessageType").map(|(_, v)| v);
    assert!(matches!(value, Some(PlistItem::Str(s)) if s == "Attached"));
}

fn check_returns_none_on_truncated_header() {
    assert!(read_message(&[0u8, 0u8]).is_none());
}

fn check_returns_none_on_truncated_body() {
    let mut out = Vec::new();
    out.extend_from_slice(&32u32.to_le_bytes());
    out.extend_from_slice(&1u32.to_le_bytes());
    out.extend_from_slice(&8u32.to_le_bytes());
    out.extend_from_slice(&1u32.to_le_bytes());
    out.extend_from_slice(b"short");
    assert!(read_message(&out).is_none());
}

fn check_returns_none_on_non_dict_body() {
    let val = plist::Value::Array(vec!["x".into(), "y".into()]);
    assert!(read_message(&build_frame(val)).is_none());
}

#[test]
fn device_monitor_read_message_any_parses_valid_frame() {
    check_parses_valid_frame();
}

#[test]
fn tests_read_message_any_parses_valid_frame() {
    check_parses_valid_frame();
}

#[test]
fn device_monitor_read_message_any_returns_none_on_truncated_header() {
    check_returns_none_on_truncated_header();
}

#[test]
fn tests_read_message_any_returns_none_on_truncated_header() {
    check_returns_none_on_truncated_header();
}

#[test]
fn device_monitor_read_message_any_returns_none_on_truncated_body() {
    check_returns_none_on_truncated_body();
}

#[test]
fn tests_read_message_any_returns_none_on_truncated_body() {
    check_returns_none_on_truncated_body();
}

#[test]
fn device_monitor_read_message_any_returns_none_on_non_dict_body() {
    check_returns_none_on_non_dict_body();
}

#[test]
fn tests_read_message_any_returns_none_on_non_dict_body() {
    check_returns_none_on_non_dict_body();
}
