use e_tui::preview::{
    PreviewContent, PreviewKey, PreviewPaneState, PreviewPolicy, PreviewRef, PreviewRevision,
    PreviewState, PreviewTarget,
};

fn deferred(id: &str, key: &str, revision: u64) -> PreviewTarget {
    PreviewTarget {
        id: id.into(),
        reference: PreviewRef::Deferred {
            key: PreviewKey(key.into()),
            revision: PreviewRevision(revision),
        },
    }
}

#[test]
fn target_change_resets_scroll_and_late_completion_only_populates_cache() {
    let mut pane = PreviewPaneState::default();
    pane.scroll = 9;
    let a = pane.select(Some(deferred("a", "a", 1))).unwrap();
    assert_eq!(pane.scroll, 0);
    pane.scroll = 4;
    let b = pane.select(Some(deferred("b", "b", 1))).unwrap();
    assert_eq!(pane.scroll, 0);
    assert!(!pane.complete(
        a.request_id,
        a.key.clone(),
        a.revision,
        Ok(PreviewContent::PlainText("A".into())),
    ));
    assert!(matches!(pane.state, PreviewState::Loading { .. }));
    assert!(pane.complete(
        b.request_id,
        b.key,
        b.revision,
        Ok(PreviewContent::PlainText("B".into())),
    ));
    assert_eq!(pane.state, PreviewState::Ready(PreviewContent::PlainText("B".into())));
}

#[test]
fn same_target_revision_refresh_preserves_scroll() {
    let mut pane = PreviewPaneState::default();
    pane.select(Some(deferred("a", "a", 1)));
    pane.scroll = 6;
    pane.select(Some(deferred("a", "a", 2)));
    assert_eq!(pane.scroll, 6);
}

#[test]
fn revision_and_error_completions_are_race_safe_across_policies() {
    let mut pane = PreviewPaneState::default();
    let old = pane.select(Some(deferred("a", "a", 1))).unwrap();
    let current = pane.select(Some(deferred("a", "a", 2))).unwrap();
    assert!(!pane.complete(
        old.request_id,
        old.key,
        old.revision,
        Ok(PreviewContent::PlainText("old".into())),
    ));
    pane.policy = PreviewPolicy::FollowReadingCursor;
    assert!(pane.complete(
        current.request_id,
        current.key,
        current.revision,
        Err("bounded error".into()),
    ));
    assert_eq!(pane.state, PreviewState::Error("bounded error".into()));
    pane.policy = PreviewPolicy::FollowLatestBlock;
    assert!(pane.select(Some(deferred("a", "a", 1))).is_none());
    assert_eq!(pane.state, PreviewState::Ready(PreviewContent::PlainText("old".into())));
}

#[test]
fn cached_target_is_reused_without_new_resolution() {
    let mut pane = PreviewPaneState::default();
    let request = pane.select(Some(deferred("a", "a", 1))).unwrap();
    pane.complete(
        request.request_id,
        request.key,
        request.revision,
        Ok(PreviewContent::Markdown("cached".into())),
    );
    pane.select(Some(deferred("b", "b", 1)));
    assert!(pane.select(Some(deferred("a", "a", 1))).is_none());
    assert_eq!(pane.state, PreviewState::Ready(PreviewContent::Markdown("cached".into())));
}

#[test]
fn request_ids_increase_per_deferred_resolution() {
    let mut pane = PreviewPaneState::default();
    let first = pane.select(Some(deferred("a", "a", 1))).unwrap();
    let second = pane.select(Some(deferred("b", "b", 1))).unwrap();
    assert!(second.request_id.0 > first.request_id.0);
    assert!(pane.select(None).is_none());
    assert_eq!(pane.state, PreviewState::Empty);
}
