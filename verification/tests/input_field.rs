use flog::ui::input_field::{render_input_field, visible_window, FieldColor, FieldStyle, InputFieldProps};

const SURFACE0: FieldColor = FieldColor::Rgb(54, 58, 79);
const SURFACE1: FieldColor = FieldColor::Rgb(73, 77, 100);
const TEXT: FieldColor = FieldColor::Rgb(202, 211, 245);
const YELLOW: FieldColor = FieldColor::Rgb(238, 212, 159);

fn style(fg: FieldColor, bg: FieldColor) -> FieldStyle {
    FieldStyle { fg: Some(fg), bg: Some(bg), underline_color: None, add_modifier: 0, sub_modifier: 0 }
}

#[test]
fn visible_window_active_cursor_in_middle() {
    let value = "abcdefghijklmnopqrst";
    let (out, _l, _r) = visible_window(value, 10, 5, true);
    let out_w: usize = out.chars().map(|c| unicode_width::UnicodeWidthChar::width(c).unwrap_or(0)).sum();
    assert!(out_w <= 5, "window exceeded box_width: {:?} w={}", out, out_w);
}

#[test]
fn render_input_field_narrow_fallback() {
    let r = render_input_field(InputFieldProps::with_default_style("Search", "(a|b)", "", false, 0, 5), 0);
    assert_eq!(r.used_width, 5);
    assert_eq!(r.hit_x, (0, 5));
}

#[test]
fn render_input_field_hit_x_covers_label() {
    let r = render_input_field(InputFieldProps::with_default_style("Search", "(a|b)", "", false, 0, 30), 5);
    assert_eq!(r.hit_x.0, 5);
    assert_eq!(r.hit_x.1, 5 + r.used_width);
}

#[test]
fn render_input_field_idle_empty_shows_hint() {
    let r = render_input_field(InputFieldProps::with_default_style("Search", "regex", "", false, 0, 30), 0);
    assert_eq!(r.spans.len(), 2);
    let body = &r.spans[1].text;
    assert!(body.contains("regex"), "body should contain hint: {:?}", body);
}

#[test]
fn render_input_field_idle_with_text_yellow_fg() {
    let r = render_input_field(InputFieldProps::with_default_style("Search", "regex", "hello", false, 0, 30), 0);
    let body_span = &r.spans[1];
    assert_eq!(body_span.style.fg, Some(YELLOW));
    assert!(body_span.text.contains("hello"));
}

#[test]
fn render_input_field_active_shows_underscore_cursor() {
    let r = render_input_field(InputFieldProps::with_default_style("Search", "regex", "abc", true, 3, 30), 0);
    let body = &r.spans[1].text;
    assert!(body.contains('_'), "active body should have cursor '_': {:?}", body);
    assert!(body.contains("abc"));
    assert_eq!(r.spans[1].style.fg, Some(TEXT));
}

#[test]
fn render_input_field_active_empty_shows_only_cursor() {
    let r = render_input_field(InputFieldProps::with_default_style("S", "h", "", true, 0, 20), 0);
    let body = &r.spans[1].text;
    assert!(body.starts_with('_'), "active empty body starts with '_': {:?}", body);
}

#[test]
fn render_input_field_used_width_consistent_with_hit_x() {
    let x = 12u16;
    let r = render_input_field(InputFieldProps::with_default_style("Tag", "pat", "", false, 0, 40), x);
    assert_eq!(r.hit_x, (x, x + r.used_width));
}

#[test]
fn render_input_field_long_text_truncates_with_ellipsis_when_idle() {
    let r = render_input_field(
        InputFieldProps::with_default_style("S", "", "abcdefghijklmnopqrstuvwxyz", false, 0, 12),
        0,
    );
    let body = &r.spans[1].text;
    assert!(body.contains('…'), "idle long text should have ellipsis: {:?}", body);
}

#[test]
fn render_input_field_bg_active_is_surface1() {
    let r = render_input_field(InputFieldProps::with_default_style("S", "", "x", true, 1, 20), 0);
    assert_eq!(r.spans[1].style.bg, Some(SURFACE1));
}

#[test]
fn render_input_field_bg_idle_is_surface0() {
    let r = render_input_field(InputFieldProps::with_default_style("S", "", "x", false, 0, 20), 0);
    assert_eq!(r.spans[1].style.bg, Some(SURFACE0));
}

#[test]
fn render_input_field_custom_palette_propagates_to_cells() {
    let custom_bg = FieldColor::Rgb(10, 20, 30);
    let custom_fg = FieldColor::Rgb(200, 210, 220);
    let cursor_fg = FieldColor::Rgb(250, 100, 100);
    let cursor_bg = custom_bg;
    let mut props = InputFieldProps::with_default_style("S", "", "abc", true, 3, 30);
    props.bg = custom_bg;
    props.fg = custom_fg;
    props.cursor_style = style(cursor_fg, cursor_bg);
    let r = render_input_field(props, 0);
    let body_span = &r.spans[1];
    assert_eq!(body_span.style.bg, Some(custom_bg));
    assert_eq!(body_span.style.fg, Some(custom_fg));
    assert!(body_span.text.contains("abc"));
    let cursor_span = r.spans.iter().find(|s| s.text == "_").expect("cursor span");
    assert_eq!(cursor_span.style.fg, Some(cursor_fg));
    assert_eq!(cursor_span.style.bg, Some(cursor_bg));
}

// ── own checks ────────────────────────────────────────────────────

#[test]
fn render_input_field_exact_idle_layout() {
    let r = render_input_field(InputFieldProps::with_default_style("S", "hint", "", false, 0, 12), 0);
    assert_eq!(r.spans[0].text, " S: ");
    assert_eq!(r.spans[1].text, "hint    ");
    assert_eq!(r.used_width, 12);
}

#[test]
fn render_input_field_exact_active_layout() {
    let r = render_input_field(InputFieldProps::with_default_style("S", "", "ab", true, 2, 10), 0);
    assert_eq!(r.spans.len(), 2);
    assert_eq!(r.spans[1].text, "ab_   ");
    assert_eq!(r.spans[1].style, style(TEXT, SURFACE1));
}

#[test]
fn render_input_field_degraded_text() {
    let r = render_input_field(InputFieldProps::with_default_style("Search", "", "", true, 0, 5), 0);
    assert_eq!(r.spans[0].text, "…    ");
    assert_eq!(r.hit_x, (0, 5));
}
