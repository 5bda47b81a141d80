use flog::ui::input_field::{FieldColor, FieldSpan};
use flog::ui::logs::toolbar::{level_badge, level_color, level_row, LogLevel, DIM};

fn texts(spans: &[FieldSpan]) -> Vec<String> {
    spans.iter().map(|s| s.text.clone()).collect()
}

#[test]
fn level_row_lists_pills_counts_and_pads() {
    let (spans, levels_x) = level_row(LogLevel::Info, 12, 40, None, 0, 60);
    assert_eq!(levels_x, 8);
    assert_eq!(
        texts(&spans),
        vec![" ", "Level: ", " S ", " V ", " D ", " I ", " W ", " E ", "    ", "Filtered: ", "12/40", &" ".repeat(60 - 45)]
    );
    // Below the minimum: dim; the minimum: its badge; above: its colour.
    assert_eq!(spans[2].style.add_modifier, DIM);
    assert_eq!(spans[5].style.bg, Some(FieldColor::Rgb(138, 173, 244)));
    assert_eq!(spans[6].style.fg, Some(level_color(LogLevel::Warning)));
    assert_eq!(level_badge(LogLevel::Error).2, true);
}

#[test]
fn level_row_shows_match_and_bookmarks() {
    let (spans, _) = level_row(LogLevel::System, 3, 5, Some((1, 4)), 2, 10);
    let t = texts(&spans);
    assert_eq!(&t[11..], &["    ", "Match: ", "2/4", "    ", "Bookmarks: ", "●2"]);
    // No room left: no padding.
    assert_eq!(t.len(), 17);
    // System is the minimum, nothing is dimmed.
    assert!(spans[2..8].iter().all(|s| s.style.add_modifier != DIM));
}
