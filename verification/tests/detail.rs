use flog::ui::logs::detail::renderers::{style_stack_line, DetailStyle, HeadingRenderer, StackRenderer};
use flog::ui::logs::detail::section::{is_async_marker, is_heading, is_stack_frame, split_text_sections, Section};

fn kinds(sections: &[Section]) -> Vec<&'static str> {
    sections
        .iter()
        .map(|s| match s {
            Section::Prose(_) => "prose",
            Section::Heading(_) => "heading",
            Section::StackTrace(_) => "stack",
        })
        .collect()
}

#[test]
fn prose_only() {
    let s = "just some text\nsecond line";
    let sections = split_text_sections(s);
    assert_eq!(sections.len(), 1);
    assert!(matches!(&sections[0], Section::Prose(t) if t == s));
}

#[test]
fn splits_heading_and_stack() {
    let s = "leading prose\n── Stack Trace ──\n\n#0 foo (a.dart:1:1)\n#1 bar (b.dart:2:2)\n<asynchronous suspension>\n#2 baz (c.dart:3:3)";
    let sections = split_text_sections(s);
    assert_eq!(kinds(&sections), vec!["prose", "heading", "stack"]);
    if let Section::StackTrace(stack) = &sections[2] {
        assert!(stack.contains("#0"));
        assert!(stack.contains("<asynchronous suspension>"));
        assert!(stack.contains("#2"));
    } else {
        panic!("expected stacktrace section");
    }
}

#[test]
fn error_heading_then_prose() {
    let s = "── Error ──\n\nSomething broke";
    let sections = split_text_sections(s);
    assert_eq!(sections.len(), 2);
    assert!(matches!(&sections[0], Section::Heading(t) if t.contains("Error")));
    assert!(matches!(&sections[1], Section::Prose(t) if t.contains("Something broke")));
}

#[test]
fn sections_trim_newlines_and_keep_order() {
    let s = "\n\nintro\n── A ──\n#0 f (x.dart:1:1)\n\n#1 g (y.dart:2:2)\nafter\n\n";
    let sections = split_text_sections(s);
    assert_eq!(kinds(&sections), vec!["prose", "heading", "stack", "stack", "prose"]);
    assert!(matches!(&sections[0], Section::Prose(t) if t == "intro"));
    assert!(matches!(&sections[1], Section::Heading(t) if t == "── A ──"));
    assert!(matches!(&sections[2], Section::StackTrace(t) if t == "#0 f (x.dart:1:1)"));
    assert!(matches!(&sections[3], Section::StackTrace(t) if t == "#1 g (y.dart:2:2)"));
    assert!(matches!(&sections[4], Section::Prose(t) if t == "after"));
}

#[test]
fn empty_text_has_no_sections() {
    assert!(split_text_sections("").is_empty());
    assert!(split_text_sections("\n\n").is_empty());
}

#[test]
fn line_classifiers() {
    assert!(is_heading("  ── Error ──  "));
    assert!(is_heading("──"));
    assert!(!is_heading("─ Error ─"));
    assert!(is_stack_frame("#12   main (a.dart:1:1)"));
    assert!(is_stack_frame("   #0\tfoo"));
    assert!(!is_stack_frame("#12main"));
    assert!(!is_stack_frame("#"));
    assert!(!is_stack_frame("x #0 foo"));
    assert!(is_async_marker("  <asynchronous suspension>  "));
    assert!(!is_async_marker("<asynchronous suspension> x"));
}

fn texts(row: &[flog::ui::logs::detail::renderers::DetailSpan]) -> Vec<String> {
    row.iter().map(|s| s.text.clone()).collect()
}

#[test]
fn stack_renderer_splits_frame_into_spans() {
    let lines = vec![
        "#0      Foo.bar (package:app/foo.dart:25:3)".to_string(),
        "<asynchronous suspension>".to_string(),
        "#1      Baz.qux (package:app/baz.dart:1:1)".to_string(),
    ];
    let rows = StackRenderer.render(&lines, 80);
    assert_eq!(rows.len(), 3);
    assert!(rows[0].len() >= 3);
    assert_eq!(rows[1].len(), 1);
    assert_eq!(texts(&rows[0]), vec!["#0", "      ", "Foo.bar ", "(package:app/foo.dart:25:3)"]);
    assert_eq!(rows[0][2].style, DetailStyle::Function);
    assert_eq!(rows[0][3].style, DetailStyle::Location);
    assert_eq!(rows[1][0].style, DetailStyle::AsyncMarker);
}

#[test]
fn stack_renderer_dims_sdk_frames() {
    let lines = vec![
        "#0      _checkForErrorResponse (dart:io/common.dart:58:9)".to_string(),
        "#1      MyApp.bootstrap (package:aura_lang_flutter/bootstrap.dart:23:7)".to_string(),
        "#2      StatelessWidget.build (package:flutter/src/widgets/framework.dart:400:1)".to_string(),
    ];
    let rows = StackRenderer.render(&lines, 80);
    assert_eq!(rows.len(), 3);
    let loc_styles: Vec<DetailStyle> = rows.iter().map(|r| r.last().unwrap().style).collect();
    assert_eq!(loc_styles[0], DetailStyle::SdkLocation);
    assert_eq!(loc_styles[1], DetailStyle::Location);
    assert_eq!(loc_styles[2], DetailStyle::SdkLocation);
}

#[test]
fn stack_line_collapsed_and_plain_rows() {
    let row = style_stack_line("#0 Foo._emit (package:app/foo.dart:25:3) × 3");
    assert_eq!(texts(&row), vec!["#0 Foo._emit (package:app/foo.dart:25:3) ", "× 3"]);
    assert_eq!(row[1].style, DetailStyle::RepeatCount);
    let plain = style_stack_line("not a frame");
    assert_eq!(texts(&plain), vec!["not a frame"]);
    assert_eq!(plain[0].style, DetailStyle::Text);
    let indented = style_stack_line("  #7 main");
    assert_eq!(texts(&indented), vec!["  ", "#7", " ", "main"]);
    assert_eq!(indented[0].style, DetailStyle::Raw);
}

#[test]
fn heading_renderer_emits_blank_then_rule() {
    let rows = HeadingRenderer.render("── Stack Trace ──", 40);
    assert_eq!(rows.len(), 2);
    assert!(rows[0].is_empty());
    assert_eq!(rows[1][0].text, "── ");
    assert_eq!(rows[1][1].text, " Stack Trace ");
    assert_eq!(rows[1][2].text.chars().count(), 40 - (11 + 8));
    let narrow = HeadingRenderer.render("── Stack Trace ──", 5);
    assert_eq!(narrow[1][2].text, "───");
}
