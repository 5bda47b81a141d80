use flog::ui::logs::stats::{level_count, tag_ranking_rows};
use flog::ui::logs::toolbar::LogLevel;

#[test]
fn level_count_takes_the_first_entry_or_zero() {
    let counts = vec![(LogLevel::Info, 7), (LogLevel::Error, 2), (LogLevel::Info, 9)];
    assert_eq!(level_count(&counts, LogLevel::Info), 7);
    assert_eq!(level_count(&counts, LogLevel::Error), 2);
    assert_eq!(level_count(&counts, LogLevel::Warning), 0);
}

#[test]
fn tag_ranking_rows_align_and_scale_bars() {
    let ranking = vec![("Net".to_string(), 40), ("a-very-long-tag-name".to_string(), 10), ("x".to_string(), 0)];
    let rows = tag_ranking_rows(&ranking, 2);
    assert_eq!(rows.len(), 2);
    assert_eq!(rows[0].rank, "  1. ");
    assert_eq!(rows[0].tag, "Net           ");
    assert_eq!(rows[0].count, "    40 ");
    assert_eq!(rows[0].bar, 30);
    assert_eq!(rows[1].tag, "a-very-long-tag-name");
    assert_eq!(rows[1].bar, 7);
    let all = tag_ranking_rows(&ranking, 20);
    assert_eq!(all.len(), 3);
    assert_eq!(all[2].bar, 0);
    let mut many: Vec<(String, usize)> = (0..12).map(|i| (format!("t{}", i), 1)).collect();
    many[0].1 = 0;
    let rows = tag_ranking_rows(&many, 12);
    assert_eq!(rows[11].rank, " 12. ");
    // A top count of zero scales against one.
    assert_eq!(rows[1].bar, 30);
}
