use flog::ui::logs::detail::panel::panel_layout;
use flog::ui::logs::status_bar::{
    app_context, bottom_buttons, live_text, new_logs_text, percent_text, scroll_percent,
};

#[test]
fn live_pill_pulses_every_eight_ticks() {
    assert_eq!(live_text(0), " ● LIVE ");
    assert_eq!(live_text(8), " ◉ LIVE ");
    assert_eq!(live_text(16), " ● LIVE ");
    assert_eq!(live_text(31), " ○ LIVE ");
    assert_eq!(live_text(32), " ● LIVE ");
}

#[test]
fn paused_pills() {
    assert_eq!(new_logs_text(12), " 12 new ");
    assert_eq!(percent_text(40), " 40% ");
    // 100 entries, 10 visible: the largest offset is 90.
    assert_eq!(scroll_percent(100, 10, 45), 50);
    assert_eq!(scroll_percent(100, 10, 500), 100);
    assert_eq!(scroll_percent(5, 10, 0), 100);
    assert_eq!(scroll_percent(3, 0, 1), 50);
}

#[test]
fn app_context_names_device_and_port() {
    assert_eq!(app_context("demo", "1.2.0", "Pixel 8", "emulator-5554", 9753), "demo v1.2.0 · Pixel 8 · :9753");
    assert_eq!(app_context("demo", "", "", "emulator-5554", 80), "demo · emulator-5554 · :80");
}

#[test]
fn buttons_sit_at_the_right_edge() {
    let (spacer, ranges) = bottom_buttons(100, 20);
    assert_eq!(spacer, 31);
    assert_eq!(ranges, vec![(51, 60), (61, 71), (72, 81), (82, 90), (91, 99)]);
    // No room: one blank, then the buttons.
    let (spacer, ranges) = bottom_buttons(30, 20);
    assert_eq!(spacer, 1);
    assert_eq!(ranges[0], (21, 30));
}

#[test]
fn side_panel_layout_windows_the_body() {
    let l = panel_layout(60, 2, 40, 20, 4, 30, 5);
    assert_eq!((l.inner_w, l.inner_h, l.body_height, l.scroll, l.end), (38, 18, 14, 5, 19));
    assert_eq!(l.copy_btn, (2, 94, 100));
    let l = panel_layout(0, 0, 4, 3, 4, 3, 9);
    assert_eq!((l.inner_w, l.inner_h, l.body_height, l.scroll, l.end), (2, 1, 0, 3, 3));
    assert_eq!(l.copy_btn, (0, 0, 4));
}
