use std::collections::HashSet;

use flog::ui::fold_lines::{render_json, FoldPiece, FoldTone};
use flog::ui::fold_view::{FmtLine, JsonViewerState};

fn line(text: &str, depth: usize, close: Option<usize>) -> FmtLine {
    FmtLine { text: text.to_string(), depth, close_line: close }
}

fn object() -> Vec<FmtLine> {
    vec![
        line("{", 0, Some(3)),
        line("  \"a\": 1,", 1, None),
        line("  \"b\": null", 1, None),
        line("}", 0, None),
    ]
}

fn state(lines: &[FmtLine], collapsed: &[usize]) -> JsonViewerState {
    JsonViewerState {
        collapsed: collapsed.iter().copied().collect::<HashSet<usize>>(),
        foldable: lines.iter().enumerate().filter(|(_, l)| l.close_line.is_some()).map(|(i, _)| i).collect(),
        row_to_source: Vec::new(),
        total_lines: lines.len(),
    }
}

fn pieces(row: &[FoldPiece]) -> Vec<(String, FoldTone)> {
    row.iter().map(|p| (p.text.clone(), p.tone)).collect()
}

fn p(t: &str, tone: FoldTone) -> (String, FoldTone) {
    (t.to_string(), tone)
}

#[test]
fn render_json_open_object_tones_each_line() {
    let lines = object();
    let mut st = state(&lines, &[]);
    let rows = render_json(&lines, &mut st, 0, 10, 0);
    assert_eq!(rows.len(), 4);
    assert_eq!(pieces(&rows[0]), vec![p("", FoldTone::Plain), p("\u{25bc} ", FoldTone::Arrow), p("{", FoldTone::Brace(0))]);
    assert_eq!(
        pieces(&rows[1]),
        vec![
            p("  ", FoldTone::Plain),
            p("\"a\"", FoldTone::Key(1)),
            p(": ", FoldTone::Punct),
            p("1", FoldTone::Bare),
            p(",", FoldTone::Punct),
        ]
    );
    assert_eq!(
        pieces(&rows[2]),
        vec![p("  ", FoldTone::Plain), p("\"b\"", FoldTone::Key(1)), p(": ", FoldTone::Punct), p("null", FoldTone::Null)]
    );
    assert_eq!(pieces(&rows[3]), vec![p("}", FoldTone::Brace(0))]);
    assert_eq!(st.row_to_source, vec![0, 1, 2, 3]);
}

#[test]
fn render_json_collapsed_block_shows_child_count() {
    let lines = object();
    let mut st = state(&lines, &[0]);
    let rows = render_json(&lines, &mut st, 0, 10, 0);
    assert_eq!(rows.len(), 1);
    assert_eq!(
        pieces(&rows[0]),
        vec![
            p(" ", FoldTone::Plain),
            p("\u{25b6} ", FoldTone::Arrow),
            p("{...}", FoldTone::Folded),
            p(" (2)", FoldTone::Count),
        ]
    );
    assert_eq!(st.row_to_source, vec![0]);
}

#[test]
fn render_json_scroll_and_max_lines() {
    let lines = object();
    let mut st = state(&lines, &[]);
    let rows = render_json(&lines, &mut st, 1, 2, 0);
    assert_eq!(rows.len(), 2);
    assert_eq!(st.row_to_source, vec![1, 2]);
    let rows = render_json(&lines, &mut st, 0, 0, 0);
    assert!(rows.is_empty());
    assert!(st.row_to_source.is_empty());
}

#[test]
fn render_json_wraps_wide_lines() {
    let long = format!("  \"k\": \"{}\"", "x".repeat(50));
    let lines = vec![line("{", 0, Some(2)), line(&long, 1, None), line("}", 0, None)];
    let mut st = state(&lines, &[]);
    let rows = render_json(&lines, &mut st, 0, 10, 20);
    assert!(rows.len() > 3);
    let wrapped = rows.len() - 2;
    assert_eq!(st.row_to_source, [vec![0], vec![1; wrapped], vec![2]].concat());
    // The first wrapped line is coloured again; the rest are indented one level deeper.
    assert_eq!(rows[1][0].tone, FoldTone::Plain);
    assert_eq!(rows[2].len(), 1);
    assert_eq!(rows[2][0].tone, FoldTone::Wrapped);
    assert!(rows[2][0].text.starts_with("    "));
    // The wrap stops at max_lines.
    let rows = render_json(&lines, &mut st, 0, 2, 20);
    assert_eq!(rows.len(), 2);
    assert_eq!(st.row_to_source, vec![0, 1]);
}

#[test]
fn render_json_unquoted_keys_and_values() {
    let lines = vec![
        line("name: value", 0, None),
        line("a-b: c", 0, None),
        line("\"s\",", 2, None),
        line("true", 0, None),
        line("[1", 0, None),
        line("  ],", 3, None),
    ];
    let mut st = state(&lines, &[]);
    let rows = render_json(&lines, &mut st, 0, 10, 0);
    assert_eq!(
        pieces(&rows[0]),
        vec![p("name", FoldTone::Key(0)), p(": ", FoldTone::Punct), p("value", FoldTone::Bare)]
    );
    assert_eq!(pieces(&rows[1]), vec![p("a-b: c", FoldTone::Bare)]);
    assert_eq!(pieces(&rows[2]), vec![p("\"s\"", FoldTone::Str), p(",", FoldTone::Punct)]);
    assert_eq!(pieces(&rows[3]), vec![p("true", FoldTone::Bool)]);
    assert_eq!(pieces(&rows[4]), vec![p("[1", FoldTone::Brace(0))]);
    assert_eq!(pieces(&rows[5]), vec![p("  ", FoldTone::Plain), p("],", FoldTone::Brace(3))]);
}
