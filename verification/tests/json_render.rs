use flog::ui::json_viewer::render::{append_render, JsonSpan};
use flog::ui::json_viewer::state::init_state;
use flog::ui::json_viewer::tree::parse;
use flog::ui::logs::detail::renderers::JsonRenderer;

fn line_text(l: &[JsonSpan]) -> String {
    l.iter().map(|s| s.text.as_str()).collect()
}

fn render(text: &str, width: usize) -> Vec<String> {
    let t = parse(text).unwrap();
    let mut s = init_state(&t, 0);
    if !s.expanded.is_empty() {
        s.expanded[0] = false;
    }
    let mut out = Vec::new();
    let mut cmap = Vec::new();
    append_render(&mut out, &mut cmap, &t, &s, "sec", "", width);
    assert_eq!(out.len(), cmap.len(), "out and click_map must stay in sync");
    out.iter().map(|l| line_text(l)).collect()
}

#[test]
fn render_leaf_null() {
    assert_eq!(render("null", 80), vec!["  null"]);
}

#[test]
fn render_leaf_bool() {
    assert_eq!(render("true", 80), vec!["  true"]);
    assert_eq!(render("false", 80), vec!["  false"]);
}

#[test]
fn render_leaf_number() {
    assert_eq!(render("1776684313608", 80), vec!["  1776684313608"]);
}

#[test]
fn render_leaf_string_short() {
    assert_eq!(render(r#""hello""#, 80), vec![r#"  "hello""#]);
}

#[test]
fn render_leaf_string_truncated() {
    let lines = render(r#""abcdefghij""#, 10);
    let line = &lines[0];
    let line_w = unicode_width::UnicodeWidthStr::width(line.as_str());
    assert!(line_w <= 10, "line width {} exceeds max_width 10: {:?}", line_w, line);
    assert!(line.starts_with("  \""), "missing marker + open quote: {:?}", line);
    assert!(line.ends_with("…\""), "missing ellipsis + close quote: {:?}", line);
    let content = &line["  \"".len()..line.len() - "…\"".len()];
    assert!(!content.is_empty());
    assert!("abcdefghij".starts_with(content), "not a prefix: {:?}", content);
}

#[test]
fn render_collapsed_object_shows_summary() {
    let lines = render(r#"{"code": 0, "message": "ok"}"#, 80);
    assert_eq!(lines.len(), 1);
    assert!(lines[0].contains("▶"), "should have fold marker: {:?}", lines);
    assert!(lines[0].contains("code"));
    assert!(lines[0].contains('0'));
    assert!(lines[0].contains("message"));
    assert!(lines[0].contains("ok"));
}

#[test]
fn render_collapsed_array_shows_length_suffix() {
    let lines = render("[1,2,3,4,5,6,7,8,9,10,11,12]", 40);
    assert_eq!(lines.len(), 1);
    assert!(lines[0].contains("(12)"), "should show count: {:?}", lines);
}

#[test]
fn render_empty_object_not_foldable() {
    let t = parse("{}").unwrap();
    let s = init_state(&t, 0);
    let mut out = Vec::new();
    let mut cmap = Vec::new();
    append_render(&mut out, &mut cmap, &t, &s, "sec", "", 80);
    assert_eq!(cmap, vec![None]);
    assert!(line_text(&out[0]).contains("{}"));
}

#[test]
fn render_collapsed_object_is_clickable() {
    let t = parse(r#"{"a": 1}"#).unwrap();
    let mut s = init_state(&t, 0);
    s.expanded[0] = false;
    let mut out = Vec::new();
    let mut cmap = Vec::new();
    append_render(&mut out, &mut cmap, &t, &s, "sec", "", 80);
    assert_eq!(cmap.len(), 1);
    assert_eq!(cmap[0], Some(("sec".into(), 0)));
}

#[test]
fn render_nested_container_in_summary_shows_placeholder() {
    let t = parse(r#"{"a": {"b": 1}}"#).unwrap();
    let mut s = init_state(&t, 0);
    s.expanded[0] = false;
    let mut out = Vec::new();
    let mut cmap = Vec::new();
    append_render(&mut out, &mut cmap, &t, &s, "sec", "", 80);
    assert_eq!(out.len(), 1);
    let rendered = line_text(&out[0]);
    assert!(rendered.contains("{…}"), "nested object should preview as placeholder: {:?}", rendered);
}

#[test]
fn render_collapsed_array_fits_within_max_width() {
    let t = parse("[111,222,333,444,555,666,777,888,999,1000,1001,1002]").unwrap();
    let mut s = init_state(&t, 0);
    s.expanded[0] = false;
    for max_w in 20..=80 {
        let mut out = Vec::new();
        let mut cmap = Vec::new();
        append_render(&mut out, &mut cmap, &t, &s, "sec", "", max_w);
        assert_eq!(out.len(), 1);
        let rendered = line_text(&out[0]);
        let w = unicode_width::UnicodeWidthStr::width(rendered.as_str());
        assert!(w <= max_w, "width {} exceeds max_width {}: {:?}", w, max_w, rendered);
    }
}

#[test]
fn render_collapsed_object_fits_within_max_width() {
    let t = parse(r#"{"code":200,"message":"ok","trace_id":"abc-def-1234","user":"alice"}"#).unwrap();
    let mut s = init_state(&t, 0);
    s.expanded[0] = false;
    for max_w in 10..=80 {
        let mut out = Vec::new();
        let mut cmap = Vec::new();
        append_render(&mut out, &mut cmap, &t, &s, "sec", "", max_w);
        assert_eq!(out.len(), 1);
        let rendered = line_text(&out[0]);
        let w = unicode_width::UnicodeWidthStr::width(rendered.as_str());
        assert!(w <= max_w, "width {} exceeds max_width {}: {:?}", w, max_w, rendered);
    }
}

#[test]
fn render_expanded_root_object_renders_children() {
    let t = parse(r#"{"a": 1, "b": "hi"}"#).unwrap();
    let s = init_state(&t, 1);
    let mut out = Vec::new();
    let mut cmap = Vec::new();
    append_render(&mut out, &mut cmap, &t, &s, "sec", "", 80);
    let texts: Vec<String> = out.iter().map(|l| line_text(l)).collect();
    assert_eq!(out.len(), 4, "lines={:?}", texts);
    assert!(texts[0].contains('{'));
    assert!(texts[0].contains('▼'));
    assert!(texts[1].contains("\"a\""));
    assert!(texts[1].contains('1'));
    assert!(texts[1].ends_with(','));
    assert!(texts[2].contains("\"b\""));
    assert!(texts[2].contains("hi"));
    assert!(texts[3].trim_end() == "  }");
    assert_eq!(cmap[0], Some(("sec".into(), 0)));
    assert_eq!(cmap[1], None);
    assert_eq!(cmap[2], None);
    assert_eq!(cmap[3], None);
}

#[test]
fn render_nested_expansion_with_collapsed_grandchild() {
    let t = parse(r#"{"a": {"b": {"c": 1}}}"#).unwrap();
    let s = init_state(&t, 1);
    let mut out = Vec::new();
    let mut cmap = Vec::new();
    append_render(&mut out, &mut cmap, &t, &s, "sec", "", 80);
    let texts: Vec<String> = out.iter().map(|l| line_text(l)).collect();
    assert_eq!(out.len(), 5, "lines={:?}", texts);
    assert!(texts[0].contains('▼'));
    assert!(texts[1].contains('▼'));
    assert!(texts[1].contains("\"a\""));
    assert!(texts[2].contains('▶'));
    assert!(texts[2].contains("\"b\""));
    assert!(texts[2].contains("\"c\""));
    let leading_spaces = |s: &str| s.chars().take_while(|c| *c == ' ').count();
    assert_eq!(leading_spaces(&texts[0]), 0);
    assert_eq!(leading_spaces(&texts[1]), 2);
    assert_eq!(leading_spaces(&texts[2]), 4);
}

#[test]
fn render_array_of_objects_alignment() {
    let t = parse(r#"{"items": [{"id":1},{"id":2}]}"#).unwrap();
    let s = init_state(&t, 1);
    let mut out = Vec::new();
    let mut cmap = Vec::new();
    append_render(&mut out, &mut cmap, &t, &s, "sec", "", 80);
    let texts: Vec<String> = out.iter().map(|l| line_text(l)).collect();
    assert_eq!(out.len(), 6, "lines={:?}", texts);
    let leading_spaces = |s: &str| s.chars().take_while(|c| *c == ' ').count();
    assert_eq!(leading_spaces(&texts[2]), 4);
    assert_eq!(leading_spaces(&texts[3]), 4);
    assert_eq!(leading_spaces(&texts[4]), 4);
}

#[test]
fn render_summary_texts_exactly() {
    assert_eq!(render(r#"{"a": 1, "b": [2], "c": "x"}"#, 80), vec![r#"▶ {"a": 1, "b": […], "c": "x"}"#]);
    assert_eq!(render("[1, 2, 3]", 80), vec!["▶ [1, 2, 3] (3)"]);
    assert_eq!(render("[111, 222, 333]", 14), vec!["▶ [111, …] (3)"]);
}

#[test]
fn json_renderer_resets_mismatched_state_and_reports_click_targets() {
    let t = parse(r#"{"a": {"b": 1}, "c": 2}"#).unwrap();
    let mut state = init_state(&t, 0);
    state.expanded.push(true);
    let rows = JsonRenderer.render(&t, 80, &mut state);
    assert_eq!(state.expanded, vec![true, true, false, false]);
    let texts: Vec<String> = rows.iter().map(|(l, _)| line_text(l)).collect();
    assert_eq!(texts, vec!["▼ {", "  ▼ \"a\": {", "      \"b\": 1", "    },", "    \"c\": 2", "  }"]);
    let clicks: Vec<Option<u32>> = rows.iter().map(|(_, c)| *c).collect();
    assert_eq!(clicks, vec![Some(0), Some(1), None, None, None, None]);
}
