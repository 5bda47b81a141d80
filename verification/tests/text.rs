use flog::text::wrap::{safe_pad, safe_truncate, wrap_multiline, wrap_text};
use unicode_width::UnicodeWidthStr;

#[test]
fn safe_pad_shorter_than_width_pads_spaces() {
    let r = safe_pad("hi", 5);
    assert_eq!(r, "hi   ");
    assert_eq!(r.len(), 5);
}

#[test]
fn safe_pad_exactly_width_returns_unchanged() {
    let r = safe_pad("hello", 5);
    assert_eq!(r, "hello");
}

#[test]
fn safe_pad_longer_than_width_truncates_no_ellipsis() {
    let r = safe_pad("abcdefgh", 5);
    assert_eq!(r.width(), 5);
    assert!("abcdefgh".starts_with(&r));
}

#[test]
fn safe_pad_cjk_respects_display_width() {
    let r = safe_pad("中", 5);
    assert_eq!(r.width(), 5);
    assert!(r.starts_with('中'));
}

#[test]
fn safe_pad_cjk_truncates_by_display_width() {
    let r = safe_pad("中a", 1);
    assert_eq!(r.width(), 1);
}

#[test]
fn safe_truncate_short_enough_returns_unchanged() {
    let r = safe_truncate("hello", 10);
    assert_eq!(r, "hello");
}

#[test]
fn safe_truncate_exactly_fits() {
    let r = safe_truncate("hello", 5);
    assert_eq!(r, "hello");
}

#[test]
fn safe_truncate_long_cuts_and_ellipses() {
    let r = safe_truncate("abcdefghij", 7);
    assert_eq!(r, "abcd...");
}

#[test]
fn safe_truncate_zero_width_returns_empty() {
    let r = safe_truncate("abc", 0);
    assert_eq!(r, "");
}

#[test]
fn safe_truncate_cjk_width_aware() {
    let r = safe_truncate("中中中", 5);
    assert!(r.ends_with("..."));
    assert!(r.starts_with('中'));
    assert!(r.width() <= 5);
}

#[test]
fn wrap_text_zero_width_returns_empty_placeholder() {
    let out = wrap_text("anything", 0, 3);
    assert_eq!(out, vec![""]);
}

#[test]
fn wrap_text_zero_max_lines_returns_empty_placeholder() {
    let out = wrap_text("anything", 10, 0);
    assert_eq!(out, vec![""]);
}

#[test]
fn wrap_text_exactly_width_one_line() {
    let out = wrap_text("abcde", 5, 5);
    assert_eq!(out, vec!["abcde"]);
}

#[test]
fn wrap_text_splits_on_width_boundary() {
    let out = wrap_text("abcdefghij", 5, 5);
    assert_eq!(out, vec!["abcde", "fghij"]);
}

#[test]
fn wrap_text_max_lines_cap_with_ellipsis() {
    let out = wrap_text("aaaaaaaaaaaaaaaaaaaa", 5, 2);
    assert_eq!(out.len(), 2);
    assert!(out[1].ends_with("..."));
}

#[test]
fn wrap_text_empty_string_yields_one_empty_line() {
    let out = wrap_text("", 10, 5);
    assert_eq!(out, vec![""]);
}

// ── own checks ────────────────────────────────────────────────────

#[test]
fn safe_truncate_exact_text_for_cjk() {
    assert_eq!(safe_truncate("中中中", 5), "中...");
}

#[test]
fn safe_pad_cjk_exact_text() {
    assert_eq!(safe_pad("中", 5), "中   ");
    assert_eq!(safe_pad("中a", 1), " ");
}

#[test]
fn wrap_text_lines_stay_within_width() {
    let out = wrap_text("中中中中ab中", 4, 10);
    assert_eq!(out, vec!["中中", "中中", "ab中"]);
    for l in &out {
        assert!(l.width() <= 4);
    }
}

#[test]
fn wrap_text_marker_fits_narrow_width() {
    assert_eq!(wrap_text("abcdef", 2, 1), vec![".."]);
    assert_eq!(wrap_text("abcdef", 1, 1), vec!["."]);
    assert_eq!(wrap_text("abcdef", 4, 1), vec!["a..."]);
}

#[test]
fn wrap_multiline_marks_dropped_pieces() {
    assert_eq!(wrap_multiline("a\nb\nc\nd\ne", 10, 3), vec!["a", "b", "c..."]);
    assert_eq!(wrap_multiline("a\nb\nc", 10, 3), vec!["a", "b", "c"]);
    assert_eq!(wrap_multiline("a\n\n\nd", 10, 3), vec!["a", "", "..."]);
    assert_eq!(wrap_multiline("a\nbbbbbbbbbbbbbbb\nc", 10, 2), vec!["a", "bbbbbbb..."]);
}

#[test]
fn safe_pad_fills_exactly_the_width() {
    for s in ["", "abc", "héllo wörld", "中文字符", "a中b"] {
        for w in 0..12 {
            assert_eq!(unicode_width::UnicodeWidthStr::width(safe_pad(s, w).as_str()), w, "{:?} to {}", s, w);
        }
    }
}
