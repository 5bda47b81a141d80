use flog::text::wrap::wrap_multiline;
use flog::ui::bare_window;
use flog::ui::input_field::visible_window;
use flog::ui::logs::detail::renderers::is_sdk_frame_loc;
use flog::ui::logs::{compute_visible_entry_start, label, repeat_bar, repeat_bar_normalized, should_show, tag_color_index};

// ── input field window (embedded ellipsis) ──────────────────────────

#[test]
fn tests_visible_window_short_fits() {
    let (out, l, r) = visible_window("hello", 5, 10, false);
    assert_eq!(out, "hello");
    assert!(!l && !r);
}

#[test]
fn tests_visible_window_idle_truncates_tail() {
    let (out, l, r) = visible_window("abcdefghij", 0, 5, false);
    assert_eq!(out, "abcd…");
    assert!(!l);
    assert!(r);
}

#[test]
fn tests_visible_window_active_keeps_cursor_visible() {
    let (out, l, r) = visible_window("abcdefghij", 10, 5, true);
    assert!(out.starts_with('…'));
    assert!(out.ends_with('j'));
    assert!(l);
    assert!(!r);
}

#[test]
fn tests_visible_window_zero_box() {
    let (out, _, _) = visible_window("abc", 0, 0, false);
    assert_eq!(out, "");
}

#[test]
fn visible_window_idle_exact_fit_no_ellipsis() {
    let (out, l, r) = visible_window("abcde", 3, 5, false);
    assert_eq!(out, "abcde");
    assert!(!l && !r);
}

#[test]
fn visible_window_active_cursor_at_start_no_left_ellipsis() {
    let (out, l, r) = visible_window("abc", 0, 5, true);
    assert_eq!(out, "abc");
    assert!(!l && !r);
}

#[test]
fn visible_window_active_wide_char_no_overflow() {
    let (out, _l, _r) = visible_window("ab中de", 7, 3, true);
    let out_w: usize = out.chars().map(|c| if c == '中' { 2 } else { 1 }).sum();
    assert!(out_w <= 3, "got '{}' width {}", out, out_w);
}

// ── input field window (ellipsis drawn by the caller) ───────────────

#[test]
fn input_field_visible_window_short_fits() {
    let (out, l, r) = bare_window::visible_window("hello", 5, 10, false);
    assert_eq!(out, "hello");
    assert!(!l && !r);
}

#[test]
fn input_field_visible_window_idle_truncates_tail() {
    let (out, l, r) = bare_window::visible_window("abcdefghij", 0, 5, false);
    assert_eq!(out, "abcd");
    assert!(!l);
    assert!(r);
}

#[test]
fn input_field_visible_window_active_keeps_cursor_visible() {
    let (out, l, r) = bare_window::visible_window("abcdefghij", 10, 5, true);
    assert!(out.starts_with('…'));
    assert!(out.ends_with('j'));
    assert!(l);
    assert!(!r);
}

#[test]
fn input_field_visible_window_zero_box() {
    let (out, _, _) = bare_window::visible_window("abc", 0, 0, false);
    assert_eq!(out, "");
}

// ── jump pill ───────────────────────────────────────────────────────

#[test]
fn hidden_when_auto_scroll() {
    assert!(!should_show(true));
}

#[test]
fn shown_when_paused() {
    assert!(should_show(false));
}

#[test]
fn label_no_new() {
    assert_eq!(label(0), "  ↓ Jump to bottom  ");
}

#[test]
fn label_with_new() {
    assert_eq!(label(42), "  ↓ Jump to bottom  42 new  ");
}

// ── log list arithmetic ─────────────────────────────────────────────

#[test]
fn visible_start_within_bounds() {
    assert_eq!(compute_visible_entry_start(100, 10), 10);
}

#[test]
fn visible_start_equals_offset_when_offset_lt_total() {
    assert_eq!(compute_visible_entry_start(15, 10), 10);
}

#[test]
fn visible_start_clamps_to_total_when_offset_too_large() {
    assert_eq!(compute_visible_entry_start(5, 100), 5);
}

#[test]
fn visible_start_zero_total() {
    assert_eq!(compute_visible_entry_start(0, 0), 0);
    assert_eq!(compute_visible_entry_start(0, 50), 0);
}

#[test]
fn repeat_bar_normalized_zero_count() {
    assert_eq!(repeat_bar_normalized(0, 20), 0);
}

#[test]
fn repeat_bar_normalized_saturates_at_50() {
    assert_eq!(repeat_bar_normalized(50, 20), 20);
    assert_eq!(repeat_bar_normalized(100, 20), 20);
    assert_eq!(repeat_bar_normalized(1_000_000, 20), 20);
}

#[test]
fn repeat_bar_normalized_proportional() {
    assert_eq!(repeat_bar_normalized(25, 20), 10);
    assert_eq!(repeat_bar_normalized(10, 20), 4);
}

#[test]
fn repeat_bar_normalized_zero_width() {
    assert_eq!(repeat_bar_normalized(42, 0), 0);
}

// ── multi-line wrapping ─────────────────────────────────────────────

#[test]
fn wrap_multiline_splits_on_newline() {
    let s = "first line\n#0 frame a\n#1 frame b";
    let out = wrap_multiline(s, 80, 50);
    assert_eq!(out, vec!["first line", "#0 frame a", "#1 frame b"]);
}

#[test]
fn wrap_multiline_wraps_inside_long_segment() {
    let s = "short\naaaaaaaaaaaaaaaaaaaa";
    let out = wrap_multiline(s, 10, 50);
    assert_eq!(out, vec!["short", "aaaaaaaaaa", "aaaaaaaaaa"]);
}

#[test]
fn wrap_multiline_preserves_blank_lines() {
    let s = "a\n\nb";
    let out = wrap_multiline(s, 10, 50);
    assert_eq!(out, vec!["a", "", "b"]);
}

#[test]
fn wrap_multiline_respects_line_cap() {
    let s = "a\nb\nc\nd\ne";
    let out = wrap_multiline(s, 10, 3);
    assert_eq!(out.len(), 3);
    assert_eq!(out[0], "a");
}

#[test]
fn wrap_multiline_zero_width_returns_empty() {
    let out = wrap_multiline("abc\ndef", 0, 5);
    assert_eq!(out, vec![""]);
}

#[test]
fn wrap_multiline_zero_lines_returns_empty() {
    let out = wrap_multiline("abc\ndef", 10, 0);
    assert_eq!(out, vec![""]);
}

#[test]
fn wrap_multiline_leading_newline_preserves_blank() {
    let out = wrap_multiline("\nsecond", 10, 5);
    assert_eq!(out, vec!["", "second"]);
}

// ── stack frame classification ──────────────────────────────────────

#[test]
fn sdk_frame_classifier() {
    assert!(is_sdk_frame_loc("(dart:async/zone.dart:48:47)"));
    assert!(is_sdk_frame_loc("(dart:io/common.dart:58:9)"));
    assert!(is_sdk_frame_loc("(package:flutter/src/widgets/framework.dart:1:1)"));
    assert!(is_sdk_frame_loc("(package:flutter_test/flutter_test.dart:1:1)"));
    assert!(!is_sdk_frame_loc("(package:aura_lang_flutter/bootstrap.dart:23:7)"));
    assert!(!is_sdk_frame_loc("(package:hive/src/backend_vm.dart:81:5)"));
    assert!(!is_sdk_frame_loc("(package:dio/src/dio.dart:10:1)"));
}

#[test]
fn repeat_bar_shows_count_and_proportional_blocks() {
    assert_eq!(repeat_bar(25, 8), "x25 ████");
    assert_eq!(repeat_bar(3, 8), "x3 ");
    assert_eq!(repeat_bar(120, 8), "x120 ████████");
}

#[test]
fn tag_color_index_is_a_stable_hash_into_the_palette() {
    assert_eq!(tag_color_index(""), 0);
    assert_eq!(tag_color_index("A"), 0);
    assert_eq!(tag_color_index("AB"), 1);
    assert_eq!(tag_color_index("Network"), tag_color_index("Network"));
    assert!(tag_color_index("Network") < 5);
}
