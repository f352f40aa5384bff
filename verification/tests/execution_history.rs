use e_tui::agent::timeline::{TimelineFact, TimelineRecord};
use e_tui::agent::tool::{ActivityState, ToolActivity, ToolCapability, ToolReference};
use e_tui::agent::{AgentEvent, TimelineEvent};
use e_tui::execution_capture::{
    enrich_historical_tool_metrics, trace_tool_metrics, ExecutionCapture, ObservedAt,
};
use e_tui::execution_history::{
    calls_from_records, format_history_export, longest_calls, ExecutionCall, ExecutionEvent,
    ExecutionOutcome, ExecutionRecord, MeasuredDuration, ObservedOutputLines, OperationFinish,
    OperationKind, OperationStart, OperationSummary, TimingSource,
};
use e_tui::preview::MutationHunk;

fn tool(capability: ToolCapability, reference: ToolReference) -> ToolActivity {
    ToolActivity {
        id: "call-1".into(),
        capability,
        label: "tool-name".into(),
        summary: "RAW_ARGUMENT_SECRET".into(),
        state: ActivityState::Running,
        reference: Some(reference),
        items: Vec::new(),
        preview: None,
    }
}

fn at(wall_unix_ms: u64, monotonic_ms: u64) -> ObservedAt {
    ObservedAt { wall_unix_ms, monotonic_ms }
}

fn tool_result(id: &str, output: &str, state: ActivityState, truncated: bool) -> TimelineFact {
    TimelineFact::ToolResult {
        activity_id: id.into(),
        output: output.into(),
        state,
        output_truncated: truncated,
        execution_metrics: None,
        starts_thinking: false,
        mutation_diff: None,
        mutation_hunks: Vec::new(),
    }
}

fn append(time_ms: Option<u64>, fact: TimelineFact) -> AgentEvent {
    AgentEvent::Timeline(TimelineEvent::Append(TimelineRecord {
        sequence: None,
        time_ms,
        surface: None,
        source_sequences: Vec::new(),
        fact,
    }))
}

#[test]
fn observed_lines_preserve_empty_truncated_and_line_ending_semantics() {
    assert_eq!(
        ObservedOutputLines::from_output("", false),
        ObservedOutputLines { count: 0, truncated: false }
    );
    assert_eq!(
        ObservedOutputLines::from_output("a\r\nb\r\n", true),
        ObservedOutputLines { count: 2, truncated: true }
    );
    assert_eq!(ObservedOutputLines::from_output("a\n\n", false).count, 2);
    assert_eq!(ObservedOutputLines::from_output("last", false).count, 1);
}

#[test]
fn ingress_capture_prefers_backend_time_and_deduplicates_terminal_events() {
    let activity = tool(ToolCapability::Command, ToolReference::Command { command: "cargo check".into() });
    let mut capture = ExecutionCapture::new("run".into());
    assert_eq!(capture.observe(&append(None, TimelineFact::TurnStart), at(1_000, 10)).len(), 1);
    assert_eq!(
        capture
            .observe(&append(Some(2_000), TimelineFact::ToolCall(activity.clone())), at(2_001, 20))
            .len(),
        1
    );
    let result = tool_result(&activity.id, "one\ntwo", ActivityState::Failure, true);
    let finished = capture.observe(&append(Some(2_125), result.clone()), at(2_130, 20));
    let ExecutionEvent::Finished(finish) = &finished[0].event else { panic!() };
    assert_eq!(
        finish.duration,
        Some(MeasuredDuration { duration_ms: 125, source: TimingSource::Backend })
    );
    assert_eq!(finish.output_lines, Some(ObservedOutputLines { count: 2, truncated: true }));
    assert_eq!(finish.outcome, ExecutionOutcome::Failure);
    assert!(capture.observe(&append(Some(2_126), result), at(2_131, 21)).is_empty());
    assert!(capture
        .observe(
            &AgentEvent::Timeline(TimelineEvent::Snapshot { records: Vec::new(), truncated: false }),
            at(3_000, 30)
        )
        .is_empty());
}

#[test]
fn ingress_capture_uses_monotonic_fallback_and_keeps_missing_starts_unknown() {
    let mut capture = ExecutionCapture::new("run".into());
    let activity = tool(ToolCapability::Read, ToolReference::Path { path: "a.rs".into() });
    capture.observe(&append(None, TimelineFact::ToolCall(activity.clone())), at(10_000, 50));
    let finished = capture.observe(
        &append(None, tool_result(&activity.id, "", ActivityState::Success, false)),
        at(9_000, 50),
    );
    let ExecutionEvent::Finished(finish) = &finished[0].event else { panic!() };
    assert_eq!(
        finish.duration,
        Some(MeasuredDuration { duration_ms: 0, source: TimingSource::ClientObserved })
    );
    let missing = capture.observe(
        &append(None, tool_result("missing", "", ActivityState::Success, false)),
        at(8_000, 60),
    );
    let ExecutionEvent::Finished(finish) = &missing[0].event else { panic!() };
    assert_eq!(finish.duration, None);
    assert_eq!(
        capture
            .observe(&append(None, TimelineFact::StepStart { turn: Some(2), step: Some(3) }), at(11_000, 70))
            .len(),
        1
    );
    let model = capture.observe(
        &append(None, TimelineFact::StepEnd { turn: Some(2), step: Some(3) }),
        at(11_400, 470),
    );
    let ExecutionEvent::Finished(finish) = &model[0].event else { panic!() };
    assert_eq!(finish.duration.unwrap().duration_ms, 400);
}

#[test]
fn rankings_are_bounded_stable_and_exclude_unmeasured_calls() {
    let operation = OperationStart::from_tool(
        &tool(ToolCapability::Command, ToolReference::Command { command: "cargo test".into() }),
        None,
        None,
    );
    let mut calls: Vec<_> = (0..65)
        .map(|sequence| ExecutionCall {
            sequence,
            run_id: "r".into(),
            start_unix_ms: 100,
            end_unix_ms: Some(200),
            operation: operation.clone(),
            finish: Some(OperationFinish {
                call_id: operation.call_id.clone(),
                outcome: ExecutionOutcome::Failure,
                duration: Some(MeasuredDuration {
                    duration_ms: sequence / 2,
                    source: TimingSource::ClientObserved,
                }),
                output_lines: None,
            }),
        })
        .collect();
    let ranked = longest_calls(&calls, 50);
    assert_eq!(ranked.len(), 50);
    assert_eq!(ranked[0].sequence, 64);
    assert_eq!(ranked[1].sequence, 62);
    assert_eq!(ranked[2].sequence, 63);
    assert_eq!(longest_calls(&calls, 100).len(), 65);
    calls[0].finish = None;
    calls[1].finish.as_mut().unwrap().duration = None;
    assert_eq!(longest_calls(&calls, 100).len(), 63);
    assert!(longest_calls(&calls, 0).is_empty());
    assert!(longest_calls(&[], 50).is_empty());
}

#[test]
fn historical_results_use_matching_trace_metrics_and_keep_missing_duration_unknown() {
    let start = OperationStart {
        call_id: "matched".into(),
        turn_id: None,
        parent_id: None,
        kind: OperationKind::Read,
        name: "read".into(),
        summary: OperationSummary::Paths { paths: vec!["a.rs".into()] },
    };
    let trace = vec![
        ExecutionRecord {
            sequence: 1,
            run_id: "run".into(),
            time_unix_ms: 1_000,
            event: ExecutionEvent::Started(start.clone()),
        },
        ExecutionRecord {
            sequence: 2,
            run_id: "run".into(),
            time_unix_ms: 1_125,
            event: ExecutionEvent::Finished(OperationFinish {
                call_id: start.call_id,
                outcome: ExecutionOutcome::Success,
                duration: Some(MeasuredDuration { duration_ms: 120, source: TimingSource::Backend }),
                output_lines: Some(ObservedOutputLines { count: 9, truncated: true }),
            }),
        },
    ];
    let result = |id: &str| TimelineRecord {
        sequence: None,
        time_ms: None,
        surface: None,
        source_sequences: Vec::new(),
        fact: tool_result(id, "native\noutput", ActivityState::Success, false),
    };
    let mut event = AgentEvent::Timeline(TimelineEvent::Snapshot {
        records: vec![result("matched"), result("missing")],
        truncated: false,
    });
    enrich_historical_tool_metrics(&mut event, &trace_tool_metrics(&trace));
    let AgentEvent::Timeline(TimelineEvent::Snapshot { records, .. }) = event else { panic!() };
    let metrics: Vec<_> = records
        .into_iter()
        .map(|record| match record.fact {
            TimelineFact::ToolResult { execution_metrics, .. } => execution_metrics.unwrap(),
            _ => panic!(),
        })
        .collect();
    assert_eq!(metrics[0].duration_ms, Some(120));
    assert_eq!(metrics[0].output_lines, Some(9));
    assert!(metrics[0].output_lines_truncated);
    assert_eq!(metrics[1].duration_ms, None);
    assert_eq!(metrics[1].output_lines, Some(2));
}

#[test]
fn summaries_keep_only_allowlisted_reference_fields() {
    let read = OperationStart::from_tool(
        &tool(
            ToolCapability::Read,
            ToolReference::Lines { path: "a.rs".into(), start: 1, lines: vec!["FILE_BODY_SECRET".into()] },
        ),
        None,
        None,
    );
    assert_eq!(read.summary, OperationSummary::Paths { paths: vec!["a.rs".into()] });
    let hunks = OperationStart::from_tool(
        &tool(
            ToolCapability::Edit,
            ToolReference::Hunks(vec![
                MutationHunk { path: Some("a.rs".into()), old: Some("OLD_SECRET".into()), new: None, anchor_line: None },
                MutationHunk { path: Some("a.rs".into()), old: None, new: Some("NEW_SECRET".into()), anchor_line: None },
                MutationHunk { path: Some("b.rs".into()), old: None, new: None, anchor_line: None },
            ]),
        ),
        None,
        None,
    );
    assert_eq!(hunks.summary, OperationSummary::Paths { paths: vec!["a.rs".into(), "b.rs".into()] });
    let generic = OperationStart::from_tool(
        &tool(ToolCapability::Generic, ToolReference::Command { command: "GENERIC_SECRET".into() }),
        None,
        None,
    );
    assert_eq!(generic.summary, OperationSummary::Identity);
    let command = OperationStart::from_tool(
        &tool(ToolCapability::Command, ToolReference::Command { command: "cargo test --locked".into() }),
        Some("turn-1".into()),
        None,
    );
    assert_eq!(command.summary, OperationSummary::Command { command: "cargo test --locked".into() });
    assert_eq!(command.turn_id.as_deref(), Some("turn-1"));
}

#[test]
fn calls_pair_records_and_export_renders_each_line() {
    let start = OperationStart {
        call_id: "c".into(),
        turn_id: None,
        parent_id: None,
        kind: OperationKind::Command,
        name: "run".into(),
        summary: OperationSummary::Command { command: "ls".into() },
    };
    let records = vec![
        ExecutionRecord { sequence: 1, run_id: "r".into(), time_unix_ms: 100, event: ExecutionEvent::Started(start) },
        ExecutionRecord {
            sequence: 2,
            run_id: "r".into(),
            time_unix_ms: 150,
            event: ExecutionEvent::Finished(OperationFinish {
                call_id: "c".into(),
                outcome: ExecutionOutcome::Success,
                duration: Some(MeasuredDuration { duration_ms: 50, source: TimingSource::Backend }),
                output_lines: Some(ObservedOutputLines { count: 3, truncated: true }),
            }),
        },
        ExecutionRecord {
            sequence: 3,
            run_id: "r".into(),
            time_unix_ms: 90,
            event: ExecutionEvent::Finished(OperationFinish {
                call_id: "orphan".into(),
                outcome: ExecutionOutcome::Cancelled,
                duration: None,
                output_lines: None,
            }),
        },
    ];
    let calls = calls_from_records(&records);
    assert_eq!(calls.len(), 2);
    assert_eq!(calls[0].operation.name, "unknown");
    assert_eq!(calls[1].end_unix_ms, Some(150));
    let text = format_history_export(&records, &["late".into()], None);
    assert_eq!(
        text,
        "Execution history\n90 unknown  -> 90 | cancelled | unknown | lines --\n100 run ls -> 150 | success | 50ms (Backend) | lines 3+\nWARNING: late\n"
    );
    assert_eq!(
        format_history_export(&[], &[], Some(10)),
        "Execution history\nNo eligible operations.\n"
    );
}

#[test]
fn capture_records_carry_the_run_and_consecutive_sequences() {
    let activity = tool(ToolCapability::Command, ToolReference::Command { command: "ls".into() });
    let mut capture = ExecutionCapture::new("run-7".into());
    let mut records = vec![capture.attached(at(1, 1))];
    records.extend(capture.observe(&append(None, TimelineFact::TurnStart), at(2, 2)));
    records.extend(capture.observe(&append(Some(3), TimelineFact::ToolCall(activity.clone())), at(3, 3)));
    records.push(capture.detached(at(4, 4)));
    assert_eq!(records.iter().map(|r| r.sequence).collect::<Vec<_>>(), (1..=records.len() as u64).collect::<Vec<_>>());
    assert!(records.iter().all(|r| r.run_id == "run-7"));
}
