use e_tui::action::PromptInput;
use e_tui::config::PaneWidthPercent;
use e_tui::interaction::{PaneResizeState, PendingPromptQueue, PromptDelivery};

fn text(prompt: &PromptInput) -> &str {
    prompt.plain_text().unwrap()
}

#[test]
fn prompt_queue_prioritizes_asap_and_cancels_them_as_a_batch() {
    let mut dispatch = PendingPromptQueue::default();
    for (t, delivery) in [
        ("a", PromptDelivery::Asap),
        ("b", PromptDelivery::AfterTurn),
        ("c", PromptDelivery::Asap),
        ("d", PromptDelivery::AfterTurn),
    ] {
        dispatch.push(PromptInput::text(t.into()), delivery);
    }
    assert_eq!(text(&dispatch.take_next(true).unwrap().prompt), "a");
    assert_eq!(text(&dispatch.take_next(true).unwrap().prompt), "c");
    assert!(dispatch.take_next(true).is_none());
    assert_eq!(text(&dispatch.take_next(false).unwrap().prompt), "b");
    assert_eq!(text(&dispatch.take_next(false).unwrap().prompt), "d");

    let mut cancellation = PendingPromptQueue::default();
    for (t, delivery) in [
        ("a", PromptDelivery::Asap),
        ("b", PromptDelivery::AfterTurn),
        ("c", PromptDelivery::Asap),
        ("d", PromptDelivery::AfterTurn),
    ] {
        cancellation.push(PromptInput::text(t.into()), delivery);
    }
    cancellation.cancel_asap();
    let cancelled = std::iter::from_fn(|| cancellation.cancel_latest())
        .map(|entry| entry.prompt.plain_text().unwrap().to_owned())
        .collect::<Vec<_>>();
    assert_eq!(cancelled, ["d", "b"]);
}

#[test]
fn cancellation_waits_for_admission_and_preserves_new_submissions() {
    let mut queue = PendingPromptQueue::default();
    queue.push(PromptInput::text("a".into()), PromptDelivery::Asap);
    queue.push(PromptInput::text("b".into()), PromptDelivery::AfterTurn);
    let sending = queue.take_next(true).unwrap();
    queue.begin_submission(sending);
    queue.push(PromptInput::text("c".into()), PromptDelivery::Asap);
    queue.cancel_asap();
    assert!(!queue.take_clear_request());
    assert!(queue.take_next(true).is_none());
    queue.push(PromptInput::text("new".into()), PromptDelivery::Asap);
    queue.cancel_asap();
    queue.update_remote(vec!["expanded a".into(), "extension".into()]);
    queue.complete_submission(false);
    assert!(queue.take_clear_request());
    assert!(!queue.take_clear_request());
    assert!(queue.take_next(true).is_none());
    queue.update_remote(Vec::new());
    assert!(!queue.is_empty());
    queue.complete_clear();
    assert_eq!(text(&queue.take_next(true).unwrap().prompt), "new");
    assert_eq!(text(&queue.cancel_latest().unwrap().prompt), "b");
    assert!(queue.is_empty());
}

#[test]
fn duplicate_remote_prompts_are_authoritative_not_text_matched() {
    let mut queue = PendingPromptQueue::default();
    queue.update_remote(vec!["same".into(), "same".into()]);
    queue.push(PromptInput::text("same".into()), PromptDelivery::AfterTurn);
    assert_eq!(queue.len(), 3);
    queue.update_remote(vec!["same".into()]);
    assert_eq!(queue.len(), 2);
    assert!(queue.take_next(false).is_none());
    queue.cancel_asap();
    assert!(queue.take_clear_request());
    queue.complete_clear(); // Failed clear: snapshot was not emptied.
    assert!(queue.has_asap());
    assert_eq!(queue.len(), 2);
    queue.cancel_asap();
    assert!(queue.take_clear_request());
    queue.clear();
    assert!(queue.is_empty());
    assert!(!queue.take_clear_request());
}

#[test]
fn rejected_admission_retains_payload_without_auto_retry() {
    let mut queue = PendingPromptQueue::default();
    queue.push(PromptInput::text("rejected".into()), PromptDelivery::Asap);
    let sending = queue.take_next(true).unwrap();
    queue.begin_submission(sending);
    queue.complete_submission(true);
    assert_eq!(text(&queue.entries()[0].prompt), "rejected");
    assert!(queue.take_next(false).is_none());
    queue.cancel_asap();
    assert!(queue.is_empty());
}

#[test]
fn expanded_drag_clamps_the_message_minimum_and_collapses_preview() {
    let mut resize = PaneResizeState::default();
    assert!(resize.begin(60, PaneWidthPercent::default_width(), false));
    resize.update(10, 100);
    let drag = resize.drag().unwrap();
    assert_eq!(drag.pending_percent.basis_points(), 2_500);
    assert!(!drag.pending_collapsed);

    resize.update(99, 100);
    let drag = resize.drag().unwrap();
    assert_eq!(drag.pending_percent.basis_points(), 10_000);
    assert!(drag.pending_collapsed);
}

#[test]
fn collapsed_drag_restores_at_sixteen_content_columns_and_continues_left() {
    let mut resize = PaneResizeState::default();
    resize.begin(98, PaneWidthPercent::default_width(), true);
    resize.update(97, 100);
    let drag = resize.drag().unwrap();
    assert!(!drag.pending_collapsed);
    assert_eq!(drag.pending_percent.columns(100), 81);

    resize.update(80, 100);
    let drag = resize.drag().unwrap();
    assert!(!drag.pending_collapsed);
    assert_eq!(drag.pending_percent.columns(100), 64);
}

#[test]
fn impossible_small_width_stays_collapsed_without_violating_minimum() {
    let mut resize = PaneResizeState::default();
    resize.begin(12, PaneWidthPercent::default_width(), false);
    resize.update(5, 20);
    let drag = resize.drag().unwrap();
    assert!(drag.pending_collapsed);
    assert_eq!(drag.pending_percent.basis_points(), 10_000);
}

#[test]
fn cancellation_discards_pending_resize() {
    let mut resize = PaneResizeState::default();
    resize.begin(60, PaneWidthPercent::default_width(), false);
    resize.update(40, 100);
    resize.cancel();
    assert!(!resize.is_active());
}

#[test]
fn second_begin_is_refused_and_finish_hands_back_the_pending_split() {
    let mut resize = PaneResizeState::default();
    assert!(resize.begin(60, PaneWidthPercent::default_width(), false));
    assert!(!resize.begin(10, PaneWidthPercent::minimum(), true));
    resize.update(50, 100);
    let done = resize.finish().unwrap();
    assert_eq!(done.start_column, 60);
    assert_eq!(done.pending_percent.basis_points(), 5_000);
    assert!(!resize.is_active());
}
