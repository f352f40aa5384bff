use e_tui::cache::{DisplayLayoutCache, MessageLineRange};

#[test]
fn line_ranges_measure_and_detect_emptiness() {
    let range = MessageLineRange { start: 3, end: 7, owns_gap: false };
    assert_eq!(range.len(), 4);
    assert!(!range.is_empty());
    let inverted = MessageLineRange { start: 7, end: 3, owns_gap: true };
    assert_eq!(inverted.len(), 0);
    assert!(inverted.is_empty());
}

#[test]
fn layout_locates_wrapped_rows_and_clamps_past_the_end() {
    let layout = DisplayLayoutCache {
        width: 3,
        generation: 1,
        row_counts: vec![2, 1, 3],
        prefix: vec![0, 2, 3, 6],
    };
    assert_eq!(layout.total_rows(), 6);
    assert_eq!(layout.locate(0), (0, 0));
    assert_eq!(layout.locate(1), (0, 1));
    assert_eq!(layout.locate(2), (1, 0));
    assert_eq!(layout.locate(4), (2, 1));
    assert_eq!(layout.locate(99), (2, 2));
    assert_eq!(DisplayLayoutCache::default().locate(5), (0, 0));
}
