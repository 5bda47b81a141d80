use flog::ui::highlight::auto_highlight;
use flog::ui::logs::highlight_with_filter;
use flog::ui::input_field::{FieldColor, FieldStyle};
use flog::ui::logs::detail::renderers::{style_prose_line, ProseRenderer};

fn base() -> FieldStyle {
    FieldStyle { fg: Some(FieldColor::Rgb(202, 211, 245)), bg: None, underline_color: None, add_modifier: 0, sub_modifier: 0 }
}

#[test]
fn prose_renders_single_line() {
    let rows = ProseRenderer.render("hello world", 80);
    assert_eq!(rows.len(), 1);
}

#[test]
fn prose_colors_error_prefix() {
    let rows = ProseRenderer.render("Error: something bad", 80);
    assert_eq!(rows.len(), 1);
    assert!(rows[0].len() >= 2);
}

#[test]
fn prose_auto_highlights_http_line() {
    let rows = ProseRenderer.render("GET /api/users 200 (42ms)", 80);
    assert_eq!(rows.len(), 1);
    assert!(rows[0].len() >= 4, "expected multi-span line, got {} spans", rows[0].len());
}

#[test]
fn prose_auto_highlights_error_rest() {
    let rows = ProseRenderer.render("Error: request https://api.example.com failed with 500", 200);
    assert_eq!(rows.len(), 1);
    assert!(rows[0].len() >= 3);
}

// ── own checks ────────────────────────────────────────────────────

#[test]
fn auto_highlight_http_line_exact_spans() {
    let spans = auto_highlight("GET /api/users 200 (42ms)", base());
    let texts: Vec<&str> = spans.iter().map(|s| s.text.as_str()).collect();
    assert_eq!(texts, vec!["GET", " ", "/api/users", " ", "200", " ", "(42ms)"]);
    assert_eq!(spans[0].style.fg, Some(FieldColor::Named(5)));
    assert_eq!(spans[0].style.add_modifier, 1);
    assert_eq!(spans[1].style, base());
    assert_eq!(spans[4].style.fg, Some(FieldColor::Named(2)));
    assert_eq!(spans[6].style.fg, Some(FieldColor::Named(6)));
}

#[test]
fn auto_highlight_overlap_keeps_earliest() {
    let spans = auto_highlight("error https://x.com/error", base());
    let texts: Vec<&str> = spans.iter().map(|s| s.text.as_str()).collect();
    assert_eq!(texts, vec!["error", " ", "https://x.com/error"]);
    assert_eq!(spans[2].style.add_modifier, 8);
}

#[test]
fn auto_highlight_without_match_is_one_base_span() {
    let spans = auto_highlight("hello", base());
    assert_eq!(spans.len(), 1);
    assert_eq!(spans[0].text, "hello");
    let empty = auto_highlight("", base());
    assert_eq!(empty.len(), 1);
    assert_eq!(empty[0].text, "");
}

#[test]
fn auto_highlight_keeps_base_background() {
    let mut b = base();
    b.bg = Some(FieldColor::Rgb(1, 2, 3));
    let spans = auto_highlight("status 503", b);
    assert_eq!(spans.len(), 2);
    assert_eq!(spans[1].text, "503");
    assert_eq!(spans[1].style.bg, Some(FieldColor::Rgb(1, 2, 3)));
    assert_eq!(spans[1].style.fg, Some(FieldColor::Named(1)));
}

#[test]
fn style_prose_line_keeps_indent_and_keyword() {
    let spans = style_prose_line("  Exception: boom".to_string());
    assert_eq!(spans[0].text, "  ");
    assert_eq!(spans[1].text, "Exception:");
    assert_eq!(spans[1].style.fg, Some(FieldColor::Rgb(237, 135, 150)));
    assert_eq!(spans[2].text, " boom");
}

#[test]
fn style_prose_line_joined_text_is_the_line() {
    let line = "  Error: GET https://x.io failed 503";
    let spans = style_prose_line(line.to_string());
    let joined: String = spans.iter().map(|s| s.text.as_str()).collect();
    assert_eq!(joined, line);
}

#[test]
fn style_prose_line_wide_indent_counts_bytes_as_chars() {
    // the indent is measured in bytes and taken as chars
    let spans = style_prose_line("\u{3000}Error: x".to_string());
    let texts: Vec<&str> = spans.iter().map(|s| s.text.as_str()).collect();
    assert_eq!(texts, vec!["\u{3000}Er", "Error:", ""]);
}

#[test]
fn auto_highlight_joined_text_is_the_input() {
    let line = "POST /v1/a/b -> 404 (1234ms) crash at http://h/x";
    let spans = auto_highlight(line, base());
    let joined: String = spans.iter().map(|s| s.text.as_str()).collect();
    assert_eq!(joined, line);
    assert!(spans.len() >= 8);
}

#[test]
fn gradient_line_cycles_six_colours() {
    let spans = flog::ui::logo::gradient_line("██╗abcd");
    assert_eq!(spans.len(), 7);
    assert_eq!(spans[0].text, "█");
    assert_eq!(spans[0].style.fg, Some(FieldColor::Rgb(138, 173, 244)));
    assert_eq!(spans[3].style.fg, Some(FieldColor::Rgb(166, 218, 149)));
    assert_eq!(spans[6].style.fg, spans[0].style.fg);
    assert_eq!(spans[6].style.add_modifier, 1);
}

#[test]
fn highlight_with_filter_marks_matches() {
    let spans = highlight_with_filter("hello world", &vec![(6, 11)], base());
    let texts: Vec<&str> = spans.iter().map(|s| s.text.as_str()).collect();
    assert_eq!(texts, vec!["hello ", "world"]);
    assert_eq!(spans[1].style.bg, Some(FieldColor::Rgb(238, 212, 159)));
    assert_eq!(spans[0].style, base());
}

#[test]
fn highlight_with_filter_clips_and_handles_empty() {
    let t1: Vec<String> = highlight_with_filter("hello world", &vec![(0, 5), (20, 30)], base())
        .into_iter().map(|s| s.text).collect();
    assert_eq!(t1, vec!["hello", " world"]);
    let t2: Vec<String> = highlight_with_filter("abc", &vec![(3, 3)], base()).into_iter().map(|s| s.text).collect();
    assert_eq!(t2, vec!["abc"]);
    let t3: Vec<String> = highlight_with_filter("", &vec![(5, 5)], base()).into_iter().map(|s| s.text).collect();
    assert_eq!(t3, vec![""]);
    let t4: Vec<String> = highlight_with_filter("x", &vec![], base()).into_iter().map(|s| s.text).collect();
    assert_eq!(t4, vec!["x"]);
    let t5: Vec<String> = highlight_with_filter("aé b", &vec![(1, 3)], base()).into_iter().map(|s| s.text).collect();
    assert_eq!(t5, vec!["a", "é", " b"]);
}

#[test]
fn logo_lines_have_six_gradient_rows() {
    let rows = flog::ui::logo::logo_lines();
    assert_eq!(rows.len(), 6);
    let first: String = rows[0].iter().map(|s| s.text.as_str()).collect();
    assert_eq!(first, "███████╗██╗      ██████╗  ██████╗ ");
    assert_eq!(rows[5].len(), first.chars().count());
}
