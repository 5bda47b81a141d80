use flog::ui::json_viewer::colorize::{colorize_json_text, ColoredSpan, SpanClass};
use flog::ui::json_viewer::state::{init_state, toggle};
use flog::ui::json_viewer::tree::{parse, NodeKind};

fn all_text(lines: &[Vec<ColoredSpan>]) -> String {
    lines
        .iter()
        .map(|l| l.iter().map(|s| s.text.as_str()).collect::<Vec<_>>().join(""))
        .collect::<Vec<_>>()
        .join("\n")
}

// ── raw-text highlighting ───────────────────────────────────────────

#[test]
fn colorize_empty_string_returns_single_empty_line() {
    let out = colorize_json_text("");
    assert_eq!(out.len(), 1);
    assert_eq!(out[0].len(), 0);
}

#[test]
fn colorize_blank_line_passes_through() {
    let out = colorize_json_text("\n\n");
    assert_eq!(out.len(), 3);
}

#[test]
fn colorize_simple_key_value_object() {
    let out = colorize_json_text(r#"{"a":1}"#);
    let line = &out[0];
    assert_eq!(line[0].text, "{");
    assert_eq!(line[0].class, SpanClass::Brace(0));
    assert_eq!(line[1].text, "\"a\"");
    assert_eq!(line[1].class, SpanClass::Key(1));
    assert_eq!(line[2].text, ":");
    assert_eq!(line[2].class, SpanClass::Punct);
    assert_eq!(line[3].text, "1");
    assert_eq!(line[3].class, SpanClass::Num);
    assert_eq!(line[4].text, "}");
    assert_eq!(line[4].class, SpanClass::Brace(0));
}

#[test]
fn colorize_nested_object_uses_depth_colors() {
    let out = colorize_json_text(r#"{"a":{"b":1}}"#);
    let line = &out[0];
    let key_a = line.iter().find(|s| s.text == "\"a\"").map(|s| s.class).unwrap();
    let key_b = line.iter().find(|s| s.text == "\"b\"").map(|s| s.class).unwrap();
    assert_ne!(key_a, key_b);
    assert_eq!(key_a, SpanClass::Key(1));
    assert_eq!(key_b, SpanClass::Key(2));
}

#[test]
fn colorize_string_value_uses_str_color() {
    let out = colorize_json_text(r#""hello""#);
    assert_eq!(out[0][0].text, "\"hello\"");
    assert_eq!(out[0][0].class, SpanClass::Str);
}

#[test]
fn colorize_string_with_escape() {
    let out = colorize_json_text(r#""he\"llo""#);
    assert_eq!(out[0][0].text, r#""he\"llo""#);
    assert_eq!(out[0][0].class, SpanClass::Str);
}

#[test]
fn colorize_unterminated_string_enters_multiline_state() {
    let out = colorize_json_text("\"abc\n\"def\"");
    assert_eq!(out[0][0].class, SpanClass::Str);
    assert!(!out[1].is_empty());
    assert_eq!(out[1][0].class, SpanClass::Str);
}

#[test]
fn colorize_array_brackets_uses_brace_color() {
    let out = colorize_json_text(r#"[1, 2]"#);
    let line = &out[0];
    assert_eq!(line[0].text, "[");
    assert_eq!(line[0].class, SpanClass::Brace(0));
    assert_eq!(line[1].class, SpanClass::Num);
    let comma = line.iter().find(|s| s.text == ",").unwrap();
    assert_eq!(comma.class, SpanClass::Punct);
    let close = line.iter().find(|s| s.text == "]").unwrap();
    assert_eq!(close.class, SpanClass::Brace(0));
}

#[test]
fn colorize_true_and_false_use_bool_color() {
    let out = colorize_json_text("true false");
    let t = out[0].iter().find(|s| s.text == "true").unwrap();
    let f = out[0].iter().find(|s| s.text == "false").unwrap();
    assert_eq!(t.class, SpanClass::Bool);
    assert_eq!(f.class, SpanClass::Bool);
}

#[test]
fn colorize_null_uses_null_color_and_italic() {
    let out = colorize_json_text("null");
    let n = &out[0][0];
    assert_eq!(n.text, "null");
    assert_eq!(n.class, SpanClass::Null);
}

#[test]
fn colorize_truely_is_not_keyword() {
    let out = colorize_json_text("truely");
    assert_eq!(all_text(&out), "truely");
    for span in &out[0] {
        assert_ne!(span.class, SpanClass::Bool);
    }
}

#[test]
fn colorize_falsey_is_not_keyword() {
    let out = colorize_json_text("falsey");
    assert_eq!(all_text(&out), "falsey");
    for span in &out[0] {
        assert_ne!(span.class, SpanClass::Bool);
    }
}

#[test]
fn colorize_nullable_is_not_keyword() {
    let out = colorize_json_text("nullable");
    assert_eq!(all_text(&out), "nullable");
    for span in &out[0] {
        assert_ne!(span.class, SpanClass::Null);
    }
}

#[test]
fn colorize_integer() {
    let out = colorize_json_text("42");
    assert_eq!(out[0][0].text, "42");
    assert_eq!(out[0][0].class, SpanClass::Num);
}

#[test]
fn colorize_float() {
    let out = colorize_json_text("3.14");
    assert_eq!(out[0][0].text, "3.14");
    assert_eq!(out[0][0].class, SpanClass::Num);
}

#[test]
fn colorize_negative_number() {
    let out = colorize_json_text("-17");
    assert_eq!(out[0][0].text, "-17");
    assert_eq!(out[0][0].class, SpanClass::Num);
}

#[test]
fn colorize_negative_not_followed_by_digit_is_text() {
    let out = colorize_json_text("- abc");
    assert_eq!(all_text(&out), "- abc");
    for span in &out[0] {
        assert_ne!(span.class, SpanClass::Num);
    }
}

#[test]
fn colorize_exponent_number() {
    let out = colorize_json_text("1.5e10");
    assert_eq!(out[0][0].text, "1.5e10");
    assert_eq!(out[0][0].class, SpanClass::Num);
}

#[test]
fn colorize_malformed_json_passes_through() {
    let out = colorize_json_text("}]");
    assert_eq!(out[0].len(), 2);
    assert_eq!(out[0][0].class, SpanClass::Brace(0));
}

#[test]
fn colorize_preserves_surrounding_non_json_text() {
    let out = colorize_json_text("prefix {\"k\":1} suffix");
    assert_eq!(all_text(&out), "prefix {\"k\":1} suffix");
}

#[test]
fn colorize_multiline_json() {
    let src = "{\n  \"a\": 1\n}";
    let out = colorize_json_text(src);
    assert_eq!(out.len(), 3);
    assert_eq!(out[0][0].text, "{");
    let l1: String = out[1].iter().map(|s| s.text.as_str()).collect();
    assert!(l1.contains("\"a\""));
    assert!(l1.contains('1'));
    assert_eq!(out[2][0].text, "}");
}

#[test]
fn colorize_whitespace_runs_grouped_as_default() {
    let out = colorize_json_text("   ");
    assert_eq!(out[0].len(), 1);
    assert_eq!(out[0][0].text, "   ");
}

#[test]
fn colorize_tab_and_cr_in_whitespace() {
    let out = colorize_json_text("\t\r ");
    assert_eq!(out[0].len(), 1);
    assert_eq!(out[0][0].text, "\t\r ");
}

#[test]
fn colorize_unterminated_string_middle_of_line() {
    let out = colorize_json_text("\"abc");
    assert_eq!(out[0][0].class, SpanClass::Str);
}

#[test]
fn colorize_escape_in_unterminated_string_on_continuing_line() {
    let src = "\"a\nb\\nend\"";
    let out = colorize_json_text(src);
    assert_eq!(out.len(), 2);
}

#[test]
fn colorize_key_with_whitespace_before_colon() {
    let out = colorize_json_text(r#"{"a" :1}"#);
    let a = out[0].iter().find(|s| s.text == "\"a\"").unwrap();
    assert_eq!(a.class, SpanClass::Key(1));
}

#[test]
fn colorize_deep_nesting_beyond_palette_wraps() {
    let out = colorize_json_text(r#"{"a":{"b":{"c":{"d":{"e":{"f":{"g":1}}}}}}}"#);
    let g = out[0].iter().find(|s| s.text == "\"g\"").unwrap();
    assert_eq!(g.class, SpanClass::Key(7));
}

#[test]
fn colorize_plain_run_is_one_span_and_keeps_every_char() {
    let out = colorize_json_text("ab cd:\"x\"\n{\"k\" : tru }");
    assert_eq!(out.len(), 2);
    assert_eq!(out[0][0].text, "ab cd");
    assert_eq!(out[0][0].class, SpanClass::Plain);
    assert_eq!(out[0][1].class, SpanClass::Punct);
    assert_eq!(all_text(&out), "ab cd:\"x\"\n{\"k\" : tru }");
    let k = out[1].iter().find(|s| s.text == "\"k\"").unwrap();
    assert_eq!(k.class, SpanClass::Key(1));
}

// ── flat tree ───────────────────────────────────────────────────────

#[test]
fn parse_primitive_root() {
    let t = parse("42").unwrap();
    assert_eq!(t.nodes.len(), 1);
    assert_eq!(t.nodes[0].depth, 0);
    assert_eq!(t.nodes[0].kind, NodeKind::Number("42".into()));
    assert!(t.nodes[0].children.is_empty());
}

#[test]
fn parse_flat_object() {
    let t = parse(r#"{"a": 1, "b": "hi"}"#).unwrap();
    assert_eq!(t.nodes.len(), 3);
    assert_eq!(t.nodes[0].kind, NodeKind::Object);
    assert_eq!(t.nodes[0].children, vec![1, 2]);
    assert_eq!(t.nodes[1].key, Some("a".into()));
    assert_eq!(t.nodes[1].kind, NodeKind::Number("1".into()));
    assert_eq!(t.nodes[1].depth, 1);
    assert_eq!(t.nodes[1].parent, Some(0));
    assert_eq!(t.nodes[2].key, Some("b".into()));
    assert_eq!(t.nodes[2].kind, NodeKind::String("hi".into()));
}

#[test]
fn parse_nested_array() {
    let t = parse(r#"{"xs": [true, null]}"#).unwrap();
    assert_eq!(t.nodes.len(), 4);
    assert_eq!(t.nodes[1].kind, NodeKind::Array);
    assert_eq!(t.nodes[1].children, vec![2, 3]);
    assert_eq!(t.nodes[2].kind, NodeKind::Bool(true));
    assert_eq!(t.nodes[2].key, None);
    assert_eq!(t.nodes[2].depth, 2);
    assert_eq!(t.nodes[3].kind, NodeKind::Null);
}

#[test]
fn parse_empty_containers() {
    let t = parse(r#"{"a": [], "b": {}}"#).unwrap();
    assert_eq!(t.nodes.len(), 3);
    assert!(t.is_empty_container(1));
    assert!(t.is_empty_container(2));
}

#[test]
fn parse_invalid_json() {
    assert!(parse("not json").is_err());
    assert!(parse(r#"{"unterminated":"#).is_err());
}

#[test]
fn number_preserves_string_form() {
    let t = parse("1776684313608").unwrap();
    assert_eq!(t.nodes[0].kind, NodeKind::Number("1776684313608".into()));
}

#[test]
fn parse_preserves_object_key_order() {
    let t = parse(r#"{"z":1,"a":2,"m":3,"b":4}"#).unwrap();
    let keys: Vec<&str> = t.nodes[0]
        .children
        .iter()
        .map(|&cid| t.nodes[cid as usize].key.as_deref().unwrap())
        .collect();
    assert_eq!(keys, vec!["z", "a", "m", "b"]);
}

#[test]
fn parse_siblings_follow_whole_subtrees() {
    let t = parse(r#"[[1, 2], {"k": [3]}, 4]"#).unwrap();
    assert_eq!(t.nodes.len(), 8);
    assert_eq!(t.root().children, vec![1, 4, 7]);
    assert_eq!(t.node(4).children, vec![5]);
    assert_eq!(t.node(5).children, vec![6]);
    assert_eq!(t.node(5).parent, Some(4));
    assert_eq!(t.node(6).depth, 3);
    assert!(t.is_container(5));
    assert!(!t.is_container(7));
    assert!(!t.is_empty_container(1));
}

// ── fold state ──────────────────────────────────────────────────────

#[test]
fn init_expands_within_depth() {
    let t = parse(r#"{"a": {"b": {"c": 1}}}"#).unwrap();
    let s = init_state(&t, 1);
    assert!(s.expanded[0]);
    assert!(s.expanded[1]);
    assert!(!s.expanded[2]);
}

#[test]
fn init_depth_zero_only_root() {
    let t = parse(r#"{"a": {"b": 1}}"#).unwrap();
    let s = init_state(&t, 0);
    assert!(s.expanded[0]);
    assert!(!s.expanded[1]);
}

#[test]
fn toggle_flips_container() {
    let t = parse(r#"{"a": {"b": 1}}"#).unwrap();
    let mut s = init_state(&t, 0);
    assert!(!s.expanded[1]);
    assert!(toggle(&t, &mut s, 1));
    assert!(s.expanded[1]);
    assert!(toggle(&t, &mut s, 1));
    assert!(!s.expanded[1]);
}

#[test]
fn toggle_leaf_is_noop() {
    let t = parse(r#"{"a": 1}"#).unwrap();
    let mut s = init_state(&t, 0);
    assert!(!toggle(&t, &mut s, 1));
}

#[test]
fn toggle_out_of_bounds_is_noop() {
    let t = parse(r#"{}"#).unwrap();
    let mut s = init_state(&t, 0);
    assert!(!toggle(&t, &mut s, 99));
}

#[test]
fn is_expanded_past_the_end_is_false() {
    let t = parse(r#"{"a": {}}"#).unwrap();
    let s = init_state(&t, 5);
    assert!(s.is_expanded(0));
    assert!(s.is_expanded(1));
    assert!(!s.is_expanded(2));
    assert!(!s.is_expanded(u32::MAX));
}
