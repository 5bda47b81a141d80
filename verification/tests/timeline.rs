use flog::ui::logs::timeline::timeline_buckets;
use flog::ui::logs::toolbar::LogLevel;

#[test]
fn timeline_buckets_count_and_mark_levels() {
    let levels = vec![
        LogLevel::Info,
        LogLevel::Error,
        LogLevel::Debug,
        LogLevel::Warning,
        LogLevel::Info,
        LogLevel::Info,
        LogLevel::Verbose,
    ];
    let b = timeline_buckets(&levels, 4, 2);
    assert_eq!(b, vec![(2, true, false), (2, false, true), (2, false, false), (1, false, false)]);
}

#[test]
fn timeline_buckets_past_the_end_are_empty() {
    let levels = vec![LogLevel::Info; 3];
    let b = timeline_buckets(&levels, 5, 1);
    assert_eq!(b, vec![(1, false, false), (1, false, false), (1, false, false), (0, false, false), (0, false, false)]);
    assert_eq!(timeline_buckets(&levels, 0, 1), Vec::<(u32, bool, bool)>::new());
}

#[test]
fn timeline_buckets_of_zero_size_hold_nothing() {
    let levels = vec![LogLevel::Error; 3];
    assert_eq!(timeline_buckets(&levels, 2, 0), vec![(0, false, false), (0, false, false)]);
}
