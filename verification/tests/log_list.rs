use flog::ui::input_field::{FieldColor, FieldSpan};
use flog::ui::logs::list::{entry_row_count, log_rows, visible_summary, LogLine, LogRow, MAX_WRAP_LINES};
use flog::ui::logs::toolbar::LogLevel;

fn make_test_entry(ts: &str, tag: &str, msg: &str) -> LogRow {
    LogRow {
        level: LogLevel::Info,
        level_label: "INFO".to_string(),
        timestamp: ts.to_string(),
        tag: tag.to_string(),
        message: msg.to_string(),
        extra_lines: Vec::new(),
        repeat_count: 1,
        bookmarked: false,
        has_error: false,
        has_stack: false,
        stack_preview: Vec::new(),
        stack_more: 0,
    }
}

fn texts(spans: &[FieldSpan]) -> Vec<String> {
    spans.iter().map(|s| s.text.clone()).collect()
}

fn row_text(l: &LogLine) -> String {
    let mut s: String = l.spans.iter().map(|s| s.text.as_str()).collect();
    if let Some(b) = &l.body {
        s.push_str(&b.text);
    }
    s
}

#[test]
fn entry_row_count_separator_is_three() {
    let sep = make_test_entry("", "────", "");
    assert_eq!(entry_row_count(&sep, 80), 3);
}

#[test]
fn entry_row_count_short_message_one_row() {
    let e = make_test_entry("t", "TAG", "short msg");
    // 1 row for message; no extra_lines; no stack
    assert_eq!(entry_row_count(&e, 80), 1);
}

#[test]
fn entry_row_count_caps_at_max_wrap_lines() {
    let very_long = "x".repeat(5000);
    let e = make_test_entry("t", "TAG", &very_long);
    assert_eq!(entry_row_count(&e, 80), MAX_WRAP_LINES);
}

#[test]
fn entry_row_count_adds_extra_lines_and_stack() {
    let mut e = make_test_entry("t", "TAG", "boom");
    e.extra_lines = vec!["a".to_string(), "y".repeat(100)];
    e.has_stack = true;
    e.has_error = true;
    e.stack_preview = vec!["Error: boom".to_string(), "#0 main".to_string()];
    e.stack_more = 4;
    // message 1 + extras (1 + 3) + preview 2 + "more frames" 1
    assert_eq!(entry_row_count(&e, 80), 8);
}

#[test]
fn log_rows_lays_out_a_short_entry() {
    let e = make_test_entry("12:00:01.000", "TAG", "short msg");
    let (rows, map) = log_rows(&vec![e], 0, 5, 10, 80, 80, false);
    assert_eq!(rows.len(), 1);
    assert_eq!(map, vec![0]);
    let t = texts(&rows[0].spans);
    assert_eq!(&t[..8], &[" ", "  ", "12:00:01.000", " ", "  INFO   ", " ", "TAG           ", " "]);
    assert_eq!(row_text(&rows[0]).chars().count(), 80);
    assert!(rows[0].body.is_none());
    // Info on an unselected row: the base background.
    assert_eq!(rows[0].bg, FieldColor::Rgb(36, 39, 58));
}

#[test]
fn log_rows_selected_row_has_cursor_and_highlight() {
    let mut e = make_test_entry("t", "TAG", "m");
    e.level = LogLevel::Error;
    e.level_label = "ERROR".to_string();
    e.bookmarked = true;
    let (rows, _) = log_rows(&vec![e], 0, 0, 10, 60, 60, false);
    assert_eq!(rows[0].spans[0].text, "▎");
    assert_eq!(rows[0].spans[0].style.fg, Some(FieldColor::Rgb(237, 135, 150)));
    assert_eq!(rows[0].spans[1].text, "● ");
    assert_eq!(rows[0].bg, FieldColor::Rgb(73, 77, 100));
    assert_eq!(rows[0].spans[4].text, "  ERROR  ");
}

#[test]
fn log_rows_separator_is_blank_rule_blank() {
    let sep = make_test_entry("", "────", "");
    let (rows, map) = log_rows(&vec![sep], 0, 9, 10, 20, 20, false);
    assert_eq!(rows.len(), 3);
    assert_eq!(map, vec![0, 0, 0]);
    assert_eq!(row_text(&rows[0]), " ".repeat(20));
    assert_eq!(row_text(&rows[1]), format!(" {}", "─".repeat(19)));
    assert_eq!(row_text(&rows[2]), " ".repeat(20));
}

#[test]
fn log_rows_stops_at_height_but_keeps_first_row() {
    let long = make_test_entry("t", "TAG", &"x".repeat(5000));
    let short = make_test_entry("t", "TAG", "next");
    let (rows, map) = log_rows(&vec![long, short], 0, 9, 2, 80, 80, false);
    assert_eq!(rows.len(), 2);
    assert_eq!(map, vec![0, 0]);
    // A separator is cut by the budget too.
    let sep = make_test_entry("", "────", "");
    let (rows, map) = log_rows(&vec![sep], 0, 9, 2, 20, 20, false);
    assert_eq!(rows.len(), 2);
    assert_eq!(map, vec![0, 0]);
    // Entries after `start` only.
    let a = make_test_entry("t", "A", "one");
    let b = make_test_entry("t", "B", "two");
    let (rows, map) = log_rows(&vec![a, b], 1, 9, 5, 80, 80, false);
    assert_eq!(map, vec![1]);
    assert!(row_text(&rows[0]).contains("two"));
}

#[test]
fn log_rows_stack_preview_and_more_frames() {
    let mut e = make_test_entry("t", "TAG", "boom");
    e.level = LogLevel::Error;
    e.has_stack = true;
    e.has_error = true;
    e.stack_preview = vec!["Error: boom".to_string(), "#0 main".to_string()];
    e.stack_more = 3;
    let (rows, map) = log_rows(&vec![e.clone()], 0, 9, 10, 80, 80, false);
    assert_eq!(rows.len(), entry_row_count(&e, 80));
    assert_eq!(map, vec![0, 0, 0, 0]);
    let err = rows[1].spans.last().unwrap();
    assert!(row_text(&rows[1]).contains("Error: boom"));
    assert_eq!(rows[1].spans[8].style.fg, Some(FieldColor::Rgb(237, 135, 150)));
    assert_eq!(err.style.bg, Some(FieldColor::Rgb(50, 30, 35)));
    assert!(row_text(&rows[3]).contains("... 3 more frames"));
}

#[test]
fn log_rows_repeat_bar_is_pink_and_search_leaves_body() {
    let mut e = make_test_entry("t", "TAG", "again");
    e.repeat_count = 5;
    let (rows, _) = log_rows(&vec![e.clone()], 0, 9, 10, 80, 80, false);
    let bar = &rows[0].spans[8];
    assert!(bar.text.starts_with("x5 "));
    assert_eq!(bar.style.fg, Some(FieldColor::Rgb(245, 189, 230)));
    assert!(row_text(&rows[0]).contains("again"));
    let (rows, _) = log_rows(&vec![e], 0, 9, 10, 80, 80, true);
    assert_eq!(rows[0].body.as_ref().unwrap().text, "again");
}

#[test]
fn log_rows_count_matches_layout() {
    let mut e = make_test_entry("12:00:01.000", "Tag", &"word ".repeat(30));
    e.extra_lines = vec!["more".to_string()];
    let (rows, _) = log_rows(&vec![e.clone()], 0, 9, 50, 80, 80, false);
    assert_eq!(rows.len(), entry_row_count(&e, 80));
}

#[test]
fn visible_summary_counts_entries_and_end() {
    assert_eq!(visible_summary(&vec![3, 3, 4, 5, 5], 6), (true, 3));
    assert_eq!(visible_summary(&vec![3, 3, 4], 6), (false, 2));
    assert_eq!(visible_summary(&vec![], 0), (true, 0));
    assert_eq!(visible_summary(&vec![], 2), (false, 0));
    assert_eq!(visible_summary(&vec![0], 1), (true, 1));
}
