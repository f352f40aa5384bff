use e_tui::agent::timeline::{LifecycleOutcome, TimelineFact, TimelineRecord};
use e_tui::agent::tool::{ActivityState, ToolActivity, ToolCapability, ToolReference};
use e_tui::display::{ActivityState as RowState, DisplayId, DisplayItem, DisplayTone};
use e_tui::preview::MutationHunk;
use e_tui::projection::activity::{ActivityMutation, PendingActivityEnrichment, PendingActivityResult};
use e_tui::projection::command::{self, CommandProjection};
use e_tui::projection::lifecycle::{self, LifecycleProjection, LifecycleTexts};
use e_tui::projection::retry;
use e_tui::projection::tool::{classify_file_call, FileAction, ToolMutation, ToolProjectionState};
use e_tui::projection::workflow::{self, compaction_label, WorkflowProjection};
use e_tui::projection::EventProjector;

fn edit_with_hunks(paths: &[Option<&str>]) -> ToolActivity {
    ToolActivity {
        id: "edit-1".into(),
        capability: ToolCapability::Edit,
        label: "edit".into(),
        summary: "edit".into(),
        state: ActivityState::Running,
        reference: Some(ToolReference::Hunks(
            paths
                .iter()
                .map(|path| MutationHunk {
                    path: path.map(str::to_owned),
                    old: Some("old".into()),
                    new: Some("new".into()),
                    anchor_line: None,
                })
                .collect(),
        )),
        items: Vec::new(),
        preview: None,
    }
}

fn record(sequence: Option<u64>, time_ms: Option<u64>, fact: TimelineFact) -> TimelineRecord {
    TimelineRecord { sequence, time_ms, surface: None, source_sequences: Vec::new(), fact }
}

fn read_call(id: &str, path: &str) -> TimelineFact {
    TimelineFact::ToolCall(ToolActivity {
        id: id.into(),
        capability: ToolCapability::Read,
        label: "read".into(),
        summary: path.into(),
        state: ActivityState::Running,
        reference: Some(ToolReference::Path { path: path.into() }),
        items: Vec::new(),
        preview: None,
    })
}

fn result(id: &str, output: &str, state: ActivityState) -> TimelineFact {
    TimelineFact::ToolResult {
        activity_id: id.into(),
        output: output.into(),
        state,
        output_truncated: false,
        execution_metrics: None,
        starts_thinking: false,
        mutation_diff: None,
        mutation_hunks: Vec::new(),
    }
}

#[test]
fn single_path_hunks_are_file_activities() {
    let activity = edit_with_hunks(&[Some(r"G:\repo\src\lib.rs"), Some(r"G:\repo\src\lib.rs")]);
    let classified = classify_file_call(&activity, Some(r"G:\repo"));
    assert!(matches!(classified, Some((FileAction::Edit, ref path)) if path == "src/lib.rs"));
}

#[test]
fn pathless_or_multi_path_hunks_are_not_one_file_activity() {
    assert!(classify_file_call(&edit_with_hunks(&[None]), None).is_none());
    assert!(classify_file_call(&edit_with_hunks(&[Some("a.rs"), Some("b.rs")]), None).is_none());
}

#[test]
fn compaction_legacy_labels_remain_lowercase_without_inventing_a_model() {
    assert_eq!(compaction_label("compacting", None), "compacting");
    assert_eq!(compaction_label("compacting complete", None), "compacting complete");
}

#[test]
fn compaction_label_names_a_known_model_only() {
    assert_eq!(compaction_label("compacting", Some("gpt")), "compacting with gpt");
    assert_eq!(compaction_label("compacting", Some("")), "compacting");
}

#[test]
fn workflow_members_hang_under_their_run() {
    let started = workflow::project(&record(
        None,
        Some(40),
        TimelineFact::WorkflowMemberStarted { workflow_id: "run".into(), sequence: 3, label: "scout".into() },
    ));
    match started {
        Some(WorkflowProjection::Workflow { key, mutation: ActivityMutation::Upsert(row) }) => {
            assert_eq!(key, "run:3");
            assert_eq!(row.id, DisplayId("workflow-agent:run:3".into()));
            assert_eq!(row.parent_id, Some(DisplayId("workflow:run".into())));
            assert_eq!(row.depth, 1);
            assert_eq!(row.summary, "scout");
            assert_eq!(row.start_ms, Some(40));
        }
        other => panic!("unexpected projection: {other:?}"),
    }
    let finished = workflow::project(&record(
        None,
        None,
        TimelineFact::WorkflowFinished { id: "run".into(), outcome: LifecycleOutcome::Cancelled },
    ));
    assert!(matches!(
        finished,
        Some(WorkflowProjection::Workflow { mutation: ActivityMutation::Settle { state: RowState::Cancelled, .. }, .. })
    ));
    assert!(workflow::project(&record(None, None, TimelineFact::TurnStart)).is_none());
}

#[test]
fn compaction_failure_keeps_the_error_and_no_label() {
    let finished = workflow::project(&record(
        None,
        None,
        TimelineFact::CompactionFinished {
            id: "c1".into(),
            model_name: Some("m".into()),
            error: Some("boom".into()),
        },
    ));
    match finished {
        Some(WorkflowProjection::Compaction {
            key,
            mutation: ActivityMutation::Settle { id, label, state, summary },
        }) => {
            assert_eq!(key, "c1");
            assert_eq!(id, DisplayId("compaction:c1".into()));
            assert_eq!(label, None);
            assert_eq!(state, RowState::Failure);
            assert_eq!(summary.as_deref(), Some("boom"));
        }
        other => panic!("unexpected projection: {other:?}"),
    }
}

#[test]
fn retry_rows_show_attempt_and_delay() {
    let scheduled = retry::project(
        &record(
            None,
            Some(7),
            TimelineFact::RetryScheduled {
                id: "r".into(),
                retry: 2,
                max_retries: Some(5),
                delay_ms: 300,
                message: "rate limited".into(),
            },
        ),
        None,
    );
    match scheduled {
        Some((key, ActivityMutation::Upsert(row))) => {
            assert_eq!(key, "r");
            assert_eq!(row.summary, "2/5 · 300ms · rate limited");
            assert_eq!(row.state, RowState::Waiting);
            assert_eq!(row.start_ms, Some(7));
        }
        other => panic!("unexpected projection: {other:?}"),
    }
    let started = retry::project(
        &record(None, None, TimelineFact::RetryStarted { id: "r".into(), retry: 3 }),
        None,
    );
    assert!(matches!(started, Some((_, ActivityMutation::Upsert(ref row))) if row.summary == "attempt 3"));
}

#[test]
fn command_rows_trim_arguments_and_nest_dispatches() {
    let started = command::project(
        &record(
            None,
            Some(1),
            TimelineFact::CommandStarted { id: "c".into(), name: "model".into(), args: Some("  gpt  ".into()) },
        ),
        None,
        0,
    );
    match started {
        Some(CommandProjection::Command { key, mutation: ActivityMutation::Upsert(row) }) => {
            assert_eq!(key, "c");
            assert_eq!(row.label, "/model");
            assert_eq!(row.summary, "gpt");
        }
        other => panic!("unexpected projection: {other:?}"),
    }
    let nested = command::project(
        &record(
            None,
            None,
            TimelineFact::SubagentStarted {
                root_id: "root".into(),
                parent_id: String::new(),
                id: "sub".into(),
                name: "agent".into(),
                summary: "look".into(),
            },
        ),
        None,
        u16::MAX,
    );
    match nested {
        Some(CommandProjection::Nested { mutation: ActivityMutation::Upsert(row), .. }) => {
            assert_eq!(row.parent_id, Some(DisplayId("tool-call:root".into())));
            assert_eq!(row.depth, u16::MAX);
        }
        other => panic!("unexpected projection: {other:?}"),
    }
}

fn texts() -> LifecycleTexts {
    LifecycleTexts {
        aborted: "aborted".into(),
        turn_error: "turn failed".into(),
        blocked: "blocked".into(),
        interrupted: "interrupted".into(),
        max_tokens: "max tokens".into(),
    }
}

#[test]
fn turn_errors_report_message_and_code() {
    let ended = lifecycle::project(
        &record(
            Some(9),
            None,
            TimelineFact::TurnEnd {
                reason: Some("error".into()),
                error_message: Some("bad".into()),
                error_code: Some("E1".into()),
            },
        ),
        &texts(),
    );
    match ended {
        Some(LifecycleProjection::TurnEnd { cancelled, outcome: Some(DisplayItem::Block(block)) }) => {
            assert!(!cancelled);
            assert_eq!(block.content, "bad (E1)");
            assert_eq!(block.tone, DisplayTone::Error);
            assert_eq!(block.id, DisplayId("event:9:turn-outcome".into()));
        }
        other => panic!("unexpected projection: {other:?}"),
    }
    let aborted = lifecycle::project(
        &record(None, None, TimelineFact::TurnEnd { reason: Some("aborted".into()), error_message: None, error_code: None }),
        &texts(),
    );
    assert!(matches!(aborted, Some(LifecycleProjection::TurnEnd { cancelled: true, outcome: Some(_) })));
    let goal = lifecycle::project(&record(None, None, TimelineFact::GoalChanged { summary: String::new() }), &texts());
    assert_eq!(goal, Some(LifecycleProjection::Goal(None)));
}

#[test]
fn file_calls_fold_into_one_group_until_another_tool_runs() {
    let mut state = ToolProjectionState::default();
    let first = state.project_call(&record(None, None, read_call("a", "src/a.rs")), None, true, 100);
    let second = state.project_call(&record(None, None, read_call("b", "src/b.rs")), None, true, 150);
    match second {
        Some(ToolMutation::Upsert(row)) => {
            assert_eq!(row.id, DisplayId("file-group:0".into()));
            assert_eq!(row.label, "read");
            assert_eq!(row.summary, "src/a.rs");
            assert_eq!(row.continuations.len(), 1);
            assert_eq!(row.continuations[0].summary, "src/b.rs");
            assert_eq!(row.state, RowState::Running);
        }
        other => panic!("unexpected mutation: {other:?} after {first:?}"),
    }
    assert_eq!(state.row_for_call("b"), Some(&DisplayId("file-group:0".into())));
    let done_a = state.project_result(&record(None, None, result("a", "x", ActivityState::Success)), 200);
    assert!(matches!(done_a, Some(ToolMutation::Upsert(ref row)) if row.state == RowState::Running));
    let done_b = state.project_result(&record(None, None, result("b", "x", ActivityState::Failure)), 260);
    match done_b {
        Some(ToolMutation::Upsert(row)) => {
            assert_eq!(row.state, RowState::Failure);
            assert_eq!(row.duration_ms, Some(160));
        }
        other => panic!("unexpected mutation: {other:?}"),
    }
    let items = state.group_items(&DisplayId("file-group:0".into())).unwrap();
    assert_eq!(items.len(), 2);
    assert_eq!(items[0].ok, Some(true));
    assert_eq!(items[1].ok, Some(false));
}

#[test]
fn plain_tool_rows_settle_with_line_counts_and_unknown_results_are_missing() {
    let mut state = ToolProjectionState::default();
    let call = TimelineFact::ToolCall(ToolActivity {
        id: "cmd".into(),
        capability: ToolCapability::Command,
        label: "shell".into(),
        summary: "ls".into(),
        state: ActivityState::Running,
        reference: None,
        items: Vec::new(),
        preview: None,
    });
    let opened = state.project_call(&record(None, None, call), None, true, 10);
    match opened {
        Some(ToolMutation::Upsert(row)) => {
            assert_eq!(row.id, DisplayId("tool-call:cmd".into()));
            assert_eq!(row.output_lines, Some(0));
            assert_eq!(row.live_duration_since, Some(10));
        }
        other => panic!("unexpected mutation: {other:?}"),
    }
    let settled = state.project_result(&record(None, None, result("cmd", "a\nb\nc", ActivityState::Success)), 25);
    match settled {
        Some(ToolMutation::Upsert(row)) => {
            assert_eq!(row.state, RowState::Success);
            assert_eq!(row.duration_ms, Some(15));
            assert_eq!(row.output_lines, Some(3));
        }
        other => panic!("unexpected mutation: {other:?}"),
    }
    let missing = state.project_result(&record(None, None, result("nope", "", ActivityState::Success)), 30);
    assert_eq!(missing, Some(ToolMutation::MissingResult));
}

#[test]
fn question_calls_are_ignored_through_their_result() {
    let mut state = ToolProjectionState::default();
    let call = TimelineFact::ToolCall(ToolActivity {
        id: "q".into(),
        capability: ToolCapability::Custom { namespace: "interaction".into(), name: "question".into() },
        label: "question".into(),
        summary: String::new(),
        state: ActivityState::Running,
        reference: None,
        items: Vec::new(),
        preview: None,
    });
    assert_eq!(state.project_call(&record(None, None, call), None, true, 0), Some(ToolMutation::Ignore));
    let answered = state.project_result(&record(None, None, result("q", "", ActivityState::Success)), 5);
    assert_eq!(answered, Some(ToolMutation::Ignore));
    let again = state.project_result(&record(None, None, result("q", "", ActivityState::Success)), 6);
    assert_eq!(again, Some(ToolMutation::MissingResult));
}

#[test]
fn pending_results_are_taken_once() {
    let mut projector = EventProjector::default();
    let id = DisplayId("retry:1".into());
    projector.remember_activity_result(
        id.clone(),
        PendingActivityResult { label: None, state: RowState::Success, summary: Some("ok".into()) },
    );
    assert!(projector.take_activity_result(&id).is_some());
    assert!(projector.take_activity_result(&id).is_none());
    projector.remember_activity_enrichment(id.clone(), PendingActivityEnrichment { summary: "s".into(), start_ms: None });
    let drained = projector.take_activity_enrichments();
    assert_eq!(drained.len(), 1);
    assert_eq!(drained[0].0, id);
    assert!(projector.take_activity_enrichments().is_empty());
}
