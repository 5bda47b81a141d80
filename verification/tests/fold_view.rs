use flog::ui::fold_view::{
    bracket_format, fold_rows, indent_brackets, init_state, toggle_fold, FoldRow, FoldRowKind, JsonViewerState,
};

#[test]
fn indent_brackets_breaks_objects_and_arrays() {
    let out = indent_brackets(r#"{"a": 1, "b": [1, 2], "c": {}}"#);
    assert_eq!(
        out,
        vec![
            "{",
            "  \"a\": 1,",
            "  \"b\": [",
            "    1,",
            "    2",
            "  ],",
            "  \"c\": {",
            "}",
            "}",
        ]
    );
}

#[test]
fn indent_brackets_keeps_string_contents() {
    let out = indent_brackets(r#"{"s": "a, {b} \"c\""}"#);
    assert_eq!(out, vec!["{", "  \"s\": \"a, {b} \\\"c\\\"\"", "}"]);
}

#[test]
fn indent_brackets_unbalanced_close_stays_at_zero() {
    let out = indent_brackets("]]x");
    assert_eq!(out, vec!["]", "]", "x"]);
}

#[test]
fn bracket_format_prefix_depth_and_close_lines() {
    let lines = bracket_format("resp: {\"a\": [1, 2], \"b\": 3}");
    let texts: Vec<&str> = lines.iter().map(|l| l.text.as_str()).collect();
    assert_eq!(texts, vec!["resp:", "{", "  \"a\": [", "    1,", "    2", "  ],", "  \"b\": 3", "}"]);
    let depths: Vec<usize> = lines.iter().map(|l| l.depth).collect();
    assert_eq!(depths, vec![0, 0, 1, 2, 2, 1, 1, 0]);
    assert_eq!(lines[1].close_line, Some(7));
    assert_eq!(lines[2].close_line, Some(5));
    assert_eq!(lines[0].close_line, None);
    assert_eq!(lines[3].close_line, None);
}

#[test]
fn bracket_format_without_brackets_keeps_lines() {
    let lines = bracket_format("plain\r\ntext\n");
    let texts: Vec<&str> = lines.iter().map(|l| l.text.as_str()).collect();
    assert_eq!(texts, vec!["plain", "text"]);
    assert!(lines.iter().all(|l| l.depth == 0 && l.close_line.is_none()));
    assert!(bracket_format("").is_empty());
}

#[test]
fn init_state_collapses_deep_blocks_and_toggle_round_trips() {
    let lines = bracket_format("{\"a\": {\"b\": [1]}}");
    let mut state = init_state(&lines, 1);
    assert_eq!(state.total_lines, lines.len());
    assert!(state.foldable.contains(&0));
    assert!(state.foldable.contains(&1));
    assert!(state.collapsed.contains(&1));
    assert!(!state.collapsed.contains(&0));
    assert!(state.collapsed.is_subset(&state.foldable));
    assert!(toggle_fold(&mut state, 1));
    assert!(!state.collapsed.contains(&1));
    assert!(toggle_fold(&mut state, 1));
    assert!(state.collapsed.contains(&1));
    let last = lines.len() - 1;
    assert!(!toggle_fold(&mut state, last));
    assert!(!state.collapsed.contains(&last));
}

#[test]
fn default_state_is_empty() {
    let s = JsonViewerState::default();
    assert!(s.collapsed.is_empty() && s.foldable.is_empty() && s.row_to_source.is_empty());
    assert_eq!(s.total_lines, 0);
}

#[test]
fn fold_rows_collapse_and_expand() {
    let lines = bracket_format(r#"{"a": 1, "b": [1, 2]}"#);
    // {, "a": 1, "b": [, 1, 2, ], }
    assert_eq!(lines.len(), 7);
    let mut state = init_state(&lines, 10);
    let rows = fold_rows(&lines, &state);
    assert_eq!(rows.len(), 7);
    assert_eq!(rows[0], FoldRow { source: 0, depth: 0, kind: FoldRowKind::Foldable });
    assert_eq!(rows[1].kind, FoldRowKind::Plain);

    assert!(toggle_fold(&mut state, 2));
    let rows = fold_rows(&lines, &state);
    let kinds: Vec<(usize, FoldRowKind)> = rows.iter().map(|r| (r.source, r.kind)).collect();
    assert_eq!(
        kinds,
        vec![
            (0, FoldRowKind::Foldable),
            (1, FoldRowKind::Plain),
            (2, FoldRowKind::Collapsed { square: false, children: 2 }),
            (6, FoldRowKind::Plain),
        ]
    );

    assert!(toggle_fold(&mut state, 0));
    let rows = fold_rows(&lines, &state);
    assert_eq!(rows, vec![FoldRow { source: 0, depth: 0, kind: FoldRowKind::Collapsed { square: false, children: 3 } }]);
}

#[test]
fn fold_rows_square_marker_for_array_lines() {
    let lines = bracket_format("[1, 2, 3]");
    let mut state = init_state(&lines, 10);
    assert!(toggle_fold(&mut state, 0));
    let rows = fold_rows(&lines, &state);
    assert_eq!(rows, vec![FoldRow { source: 0, depth: 0, kind: FoldRowKind::Collapsed { square: true, children: 3 } }]);
}

#[test]
fn indent_brackets_changes_only_layout() {
    let text = r#"resp {"a": [1, 2], "b": {"c": "x y"},   "d": []}"#;
    let out = indent_brackets(text);
    let shown = |s: &str| s.chars().filter(|c| !c.is_whitespace()).collect::<String>();
    assert_eq!(shown(&out.concat()), shown(text));
    assert!(out.iter().all(|l| !l.trim().is_empty()));
}

#[test]
fn bracket_format_pairs_nest() {
    let lines = bracket_format(r#"{"a": [1, {"b": 2}], "c": 3}"#);
    for (i, l) in lines.iter().enumerate() {
        if let Some(c) = l.close_line {
            assert!(i <= c && c < lines.len());
            assert!(l.text.trim_end().ends_with('{') || l.text.trim_end().ends_with('['));
            assert!(lines[c].text.trim_start().starts_with('}') || lines[c].text.trim_start().starts_with(']'));
            for (j, m) in lines.iter().enumerate().take(c).skip(i + 1) {
                if let Some(c2) = m.close_line {
                    assert!(c2 < c, "pair {}..{} crosses {}..{}", j, c2, i, c);
                }
            }
        }
    }
}
