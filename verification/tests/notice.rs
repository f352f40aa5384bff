use e_tui::notice::NoticeState;

#[test]
fn clipboard_notice_formats_and_honors_legacy_duration_floor() {
    let shown_at = 1_000_000;
    let mut notice = NoticeState::default();
    notice.show_clipboard(2, "one tw", true, shown_at);
    assert_eq!(notice.visible_text(2, shown_at), Some("已复制 2 行：one tw..."));
    assert_eq!(notice.deadline(2), Some(shown_at + 3_000));
    assert!(!notice.expire(2, shown_at + 2_999));
    assert!(notice.expire(2, shown_at + 3_000));
}

#[test]
fn longer_configured_durations_apply_and_expiry_clears() {
    let mut notice = NoticeState::new();
    assert_eq!(notice.deadline(5), None);
    notice.show("saved".into(), 10);
    assert_eq!(notice.deadline(5), Some(5_010));
    assert_eq!(notice.visible_text(5, 5_009), Some("saved"));
    assert_eq!(notice.visible_text(5, 5_010), None);
    assert!(notice.expire(5, 6_000));
    assert!(!notice.expire(5, 7_000));
    assert_eq!(notice.visible_text(5, 0), None);
}
