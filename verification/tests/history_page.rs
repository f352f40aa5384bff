use e_tui::execution_history::{ExecutionEvent, ExecutionRecord, HistoryQueryKind, HistoryQueryResult};
use e_tui::history_page::{HistoryLoadState, HistoryPage};

fn result(records: Vec<ExecutionRecord>, warnings: Vec<String>, next_offset: u64) -> HistoryQueryResult {
    HistoryQueryResult {
        path: "trace".into(),
        records,
        ranked_calls: Vec::new(),
        warnings,
        watermark: 1,
        next_offset,
        has_more: false,
    }
}

#[test]
fn stale_result_is_rejected_and_views_keep_independent_offsets() {
    let mut page = HistoryPage::loading(4, "session".into(), "root".into());
    let stale = result(Vec::new(), Vec::new(), 1);
    assert!(!page.complete(3, HistoryQueryKind::Show, stale));
    page.set_offset(7);
    page.toggle();
    assert_eq!(page.offset(), 0);
    page.set_offset(11);
    page.toggle();
    assert_eq!(page.offset(), 7);
    page.toggle();
    assert_eq!(page.offset(), 11);
}

#[test]
fn empty_result_has_a_distinct_state() {
    let mut page = HistoryPage::loading(1, "session".into(), "root".into());
    assert!(page.complete(
        1,
        HistoryQueryKind::Show,
        result(
            vec![ExecutionRecord { sequence: 1, run_id: "run".into(), time_unix_ms: 1, event: ExecutionEvent::Attached }],
            Vec::new(),
            1,
        )
    ));
    assert_eq!(page.state, HistoryLoadState::Empty);
}

#[test]
fn continuation_pages_extend_records_and_merge_warnings() {
    let mut page = HistoryPage::loading(1, "s".into(), "r".into());
    let attached = |sequence| ExecutionRecord { sequence, run_id: "run".into(), time_unix_ms: 1, event: ExecutionEvent::Attached };
    assert!(page.complete(1, HistoryQueryKind::Show, result(vec![attached(1)], vec!["b".into()], 0)));
    assert!(page.complete(1, HistoryQueryKind::Show, result(vec![attached(2)], vec!["a".into(), "b".into()], 5)));
    assert_eq!(page.records.len(), 2);
    assert_eq!(page.warnings, vec!["a".to_string(), "b".to_string()]);
    assert_eq!(page.next_offset, 5);
    assert!(page.fail(1, "broken".into()));
    assert_eq!(page.state, HistoryLoadState::Error("broken".into()));
    assert!(!page.fail(2, "other".into()));
}
