use flog::ui::logs::viewport::resolve_viewport;

#[test]
fn viewport_follows_the_end() {
    assert_eq!(resolve_viewport(&vec![1, 1, 1, 1, 1], 3, true, 0, 0), (2, 4));
    assert_eq!(resolve_viewport(&vec![1, 1, 1, 1, 1], 3, true, 3, 0), (2, 3));
    // An entry that no longer fits stops the walk back.
    assert_eq!(resolve_viewport(&vec![2, 2, 2], 3, true, 2, 0), (2, 2));
}

#[test]
fn viewport_scrolls_to_the_selection() {
    // Selection below the rows shown: it becomes the last entry shown.
    assert_eq!(resolve_viewport(&vec![1; 10], 3, false, 8, 0), (6, 8));
    // Selection above the offset: the viewport starts at it.
    assert_eq!(resolve_viewport(&vec![1; 10], 3, false, 2, 5), (2, 2));
    // Out-of-range offset and selection are clamped.
    assert_eq!(resolve_viewport(&vec![1; 10], 3, false, 100, 100), (9, 9));
    // A first entry taller than the rows still shows.
    assert_eq!(resolve_viewport(&vec![5, 1], 3, false, 0, 0), (0, 0));
}

#[test]
fn viewport_of_no_entries() {
    assert_eq!(resolve_viewport(&vec![], 3, true, 7, 7), (0, 0));
}
