use flog::transport::device::{Device, DeviceKind};
use flog::ui::device_picker::{build_viewport, clamp_scroll, compute_modal_area, shorten_id};
use flog::ui::picker_content::{build_picker_lines, device_order, PickerApp};
use flog::ui::picker_rows::{push_app_card, push_device_top, PickerLine, Tone};
use flog::ui::input_field::FieldColor;
use flog::ui::status_chips::offline_devices_hint;
use unicode_width::UnicodeWidthStr;

fn app(id: &str, device: &str, name: &str, port: u16) -> PickerApp {
    PickerApp {
        id: id.into(),
        device_id: device.into(),
        app_name: name.into(),
        app_version: "1.2.3".into(),
        package_name: "com.example.app".into(),
        os: "ios".into(),
        build_mode: "debug".into(),
        port,
    }
}

fn text(line: &PickerLine) -> String {
    line.spans.iter().map(|s| s.text.as_str()).collect()
}

#[test]
fn shorten_id_keeps_short_ids() {
    assert_eq!(shorten_id("emulator-5554"), "emulator-5554");
    assert_eq!(shorten_id("localhost"), "localhost");
}

#[test]
fn shorten_id_elides_long_udid() {
    assert_eq!(shorten_id("00008150-001A2B3C4D5E401C"), "00008150...401C");
}

#[test]
fn modal_area_is_centred_two_thirds() {
    assert_eq!(compute_modal_area(120, 40), (20, 5, 80, 30));
}

#[test]
fn modal_area_narrow_terminal_keeps_margin() {
    assert_eq!(compute_modal_area(50, 6), (2, 0, 46, 8));
}

#[test]
fn device_order_lists_app_devices_first_each_once() {
    let apps = vec![app("a1", "D2", "A", 1), app("a2", "D1", "B", 2), app("a3", "D2", "C", 3)];
    let devices = vec![
        Device { id: "D1".into(), name: "One".into(), kind: DeviceKind::Android },
        Device { id: "D3".into(), name: "Three".into(), kind: DeviceKind::Local },
    ];
    assert_eq!(device_order(&apps, &devices), vec!["D2", "D1", "D3"]);
}

#[test]
fn picker_lines_for_one_device_with_one_app() {
    let apps = vec![app("app-1", "SN", "Demo", 9753)];
    let devices = vec![Device { id: "SN".into(), name: "iPhone".into(), kind: DeviceKind::IosUsb { device_id: 5 } }];
    let order = vec!["SN".to_string()];
    let c = build_picker_lines(&order, &devices, &apps, Some("app-1"), 0, 60);
    // base row, top, blank, six card rows, blank, bottom, base row
    assert_eq!(c.lines.len(), 12);
    assert_eq!(c.selectable_ids, vec!["app-1"]);
    for (i, l) in c.lines.iter().enumerate() {
        let expect = if (3..9).contains(&i) { Some(0) } else { None };
        assert_eq!(l.click_target, expect, "row {}", i);
        // card rows carry the card's own indents inside the container and
        // come out two columns wider than the container rows
        let want = if expect.is_some() { 62 } else { 60 };
        assert_eq!(text(l).width(), want, "row {} width", i);
    }
    let top = text(&c.lines[1]);
    assert!(top.contains("[iOS] iPhone"));
    assert!(top.contains("USB \u{b7} SN"));
    let card_top = text(&c.lines[3]);
    assert!(card_top.contains("Demo v1.2.3"));
    assert!(card_top.contains(" ACTIVE "));
    assert!(card_top.contains("Port: 9753"));
    assert!(card_top.contains('\u{2554}'));
}

#[test]
fn picker_lines_waiting_device_and_unknown_values() {
    let mut a = app("x", "D1", "Demo", 1);
    a.os = String::new();
    let apps = vec![a];
    let devices = vec![Device { id: "D2".into(), name: "Pixel".into(), kind: DeviceKind::Android }];
    let order = vec!["D1".to_string(), "D2".to_string()];
    let c = build_picker_lines(&order, &devices, &apps, None, 0, 50);
    let all: Vec<String> = c.lines.iter().map(text).collect();
    assert!(all.iter().any(|l| l.contains("Waiting for app...")));
    assert!(all.iter().any(|l| l.contains("Platform  unknown")));
    assert!(all.iter().any(|l| l.contains("[Simulator] D1")));
    assert!(all.iter().any(|l| l.contains("[Android] Pixel")));
    // selected but not active: cursor bar on the card rows
    assert!(all.iter().any(|l| l.contains('\u{258e}')));
}

#[test]
fn clamp_scroll_keeps_selected_card_visible() {
    let apps = vec![app("a", "D", "A", 1), app("b", "D", "B", 2), app("c", "D", "C", 3)];
    let devices: Vec<Device> = Vec::new();
    let order = vec!["D".to_string()];
    let c = build_picker_lines(&order, &devices, &apps, None, 2, 60);
    let mut selected = 5usize;
    let mut scroll = 0usize;
    let r = clamp_scroll(&c.lines, &mut selected, &mut scroll, 3, 8);
    assert_eq!(selected, 2);
    let rows: Vec<usize> = (0..c.lines.len()).filter(|&i| c.lines[i].click_target == Some(2)).collect();
    assert!(scroll <= rows[0]);
    assert!(*rows.last().unwrap() < scroll + 8);
    assert_eq!(r.scroll_offset, scroll);
    assert_eq!(r.total_lines, c.lines.len());
    assert_eq!(r.max_scroll, c.lines.len() - 8);
}

#[test]
fn viewport_click_regions_cover_visible_card_rows() {
    let apps = vec![app("a", "D", "A", 1)];
    let devices: Vec<Device> = Vec::new();
    let order = vec!["D".to_string()];
    let c = build_picker_lines(&order, &devices, &apps, None, 0, 40);
    let mut selected = 0usize;
    let mut scroll = 0usize;
    let s = clamp_scroll(&c.lines, &mut selected, &mut scroll, 1, 20);
    let v = build_viewport(&c.lines, 10, 3, 40, 38, 1, 3, &s);
    assert_eq!(v.out_lines.len(), 20);
    assert_eq!(v.click_regions.len(), 6);
    assert_eq!(v.click_regions[0], (3 + 3, 14, 46, 0));
    // rows past the list are blank base rows
    assert_eq!(v.out_lines[19].len(), 1);
    assert_eq!(v.out_lines[19][0].bg, Tone::Base);
}

#[test]
fn card_rows_fill_the_interior() {
    let mut lines: Vec<PickerLine> = Vec::new();
    push_app_card(&mut lines, 60, 58, 1, 3, 52, 4, false, true, "Shop", "", "com.shop", "android", "release", 9754);
    assert_eq!(lines.len(), 6);
    for l in &lines {
        assert_eq!(l.click_target, Some(4));
        assert_eq!(text(l).width(), 62);
    }
    assert!(text(&lines[0]).contains("\u{25cb} Shop\u{2500}"));
    assert!(text(&lines[2]).contains("Package   com.shop"));
    assert!(text(&lines[4]).contains("Mode      release"));
}

#[test]
fn device_top_border_layout() {
    let mut lines: Vec<PickerLine> = Vec::new();
    push_device_top(&mut lines, 40, 38, 1, "Android", "Pixel", "ADB", "SN1");
    let t = text(&lines[0]);
    assert!(t.starts_with(" \u{256d}\u{2500}\u{2500} [Android] Pixel "));
    assert!(t.ends_with(" ADB \u{b7} SN1 \u{2500}\u{2500}\u{256e} "));
    assert_eq!(t.width(), 40);
    assert_eq!(lines[0].click_target, None);
}

#[test]
fn offline_chip_text_and_width() {
    let (spans, w) = flog::ui::status_chips::offline_chip();
    assert_eq!(spans.len(), 1);
    assert_eq!(spans[0].text, " OFFLINE ");
    assert_eq!(w, 9);
}

#[test]
fn offline_devices_hint_casing() {
    let bg = FieldColor::Rgb(1, 2, 3);
    assert_eq!(offline_devices_hint(0, bg).0[0].text, " \u{21c5} No devices ");
    assert_eq!(offline_devices_hint(1, bg).0[0].text, " \u{21c5} 1 device ");
    let (spans, w) = offline_devices_hint(12, bg);
    assert_eq!(spans[0].text, " \u{21c5} 12 devices ");
    assert_eq!(w as usize, spans[0].text.width());
    assert_eq!(spans[0].style.bg, Some(bg));
}
