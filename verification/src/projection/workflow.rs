//! Workflow and compaction lifecycle rows.
use vstd::prelude::*;

use crate::agent::timeline::{LifecycleOutcome, TimelineFact, TimelineRecord};
use crate::display::{ActivityRow, ActivityState, DisplayId};
use crate::text::{decimal, first_chars, owned, push_decimal, push_str, take_chars};

use super::activity::ActivityMutation;

verus! {

#[derive(Debug, Clone, PartialEq, Eq)]
pub enum WorkflowProjection {
    Workflow { key: String, mutation: ActivityMutation },
    Compaction { key: String, mutation: ActivityMutation },
}

/// `LABEL`, or `LABEL with MODEL` when a non-empty model name is known.
pub open spec fn compaction_label_spec(label: Seq<char>, model: Option<Seq<char>>) -> Seq<char> {
    match model {
        Some(name) => if name.len() > 0 {
            label + " with "@ + name
        } else {
            label
        },
        None => label,
    }
}

pub fn compaction_label(label: &str, model: Option<&str>) -> (r: String)
    ensures
        r@ == compaction_label_spec(label@, match model {
            Some(m) => Some(m@),
            None => None,
        }),
{
    match model {
        Some(name) => {
            if name.unicode_len() > 0 {
                let mut s = owned(label);
                push_str(&mut s, " with ");
                push_str(&mut s, name);
                proof {
                    reveal_strlit(" with ");
                }
                s
            } else {
                owned(label)
            }
        },
        None => owned(label),
    }
}

pub open spec fn outcome_state_spec(outcome: LifecycleOutcome) -> ActivityState {
    match outcome {
        LifecycleOutcome::Success => ActivityState::Success,
        LifecycleOutcome::Failure => ActivityState::Failure,
        LifecycleOutcome::Cancelled => ActivityState::Cancelled,
    }
}

fn outcome_state(outcome: LifecycleOutcome) -> (r: ActivityState)
    ensures
        r == outcome_state_spec(outcome),
{
    match outcome {
        LifecycleOutcome::Success => ActivityState::Success,
        LifecycleOutcome::Failure => ActivityState::Failure,
        LifecycleOutcome::Cancelled => ActivityState::Cancelled,
    }
}

/// `RUN:MEMBER`, the key of one workflow member.
pub open spec fn member_key(run: Seq<char>, member: u64) -> Seq<char> {
    run + ":"@ + decimal(member as nat)
}

fn member_key_string(run: &str, member: u64) -> (r: String)
    ensures
        r@ == member_key(run@, member),
{
    let mut s = owned(run);
    push_str(&mut s, ":");
    push_decimal(&mut s, member);
    proof {
        reveal_strlit(":");
    }
    s
}

/// A row that started at `time` with a summary, a parent and a depth, and
/// otherwise fresh.
pub open spec fn started_row(
    row: ActivityRow,
    id: Seq<char>,
    label: Seq<char>,
    summary: Seq<char>,
    parent: Option<Seq<char>>,
    depth: u16,
    time: Option<u64>,
) -> bool {
    &&& row.id.0@ == id
    &&& row.label@ == label
    &&& row.summary@ == summary
    &&& row.continuations@.len() == 0
    &&& row.state == ActivityState::Running
    &&& row.start_ms == time
    &&& row.duration_ms is None
    &&& row.output_lines is None
    &&& !row.output_lines_truncated
    &&& row.live_duration_since is None
    &&& match parent {
        Some(p) => row.parent_id matches Some(pid) && pid.0@ == p,
        None => row.parent_id is None,
    }
    &&& row.depth == depth
    &&& row.count == 1
}

/// A settle of the row with this id.
pub open spec fn settles(
    m: ActivityMutation,
    id: Seq<char>,
    label: Option<Seq<char>>,
    state: ActivityState,
    summary: Option<Seq<char>>,
) -> bool {
    &&& m matches ActivityMutation::Settle { id: mid, label: ml, state: ms, summary: msum }
    &&& mid.0@ == id
    &&& crate::text::opt_view(ml) == label
    &&& ms == state
    &&& crate::text::opt_view(msum) == summary
}

/// What `project` yields for each fact.
pub open spec fn workflow_projected(fact: TimelineFact, time: Option<u64>, r: Option<WorkflowProjection>) -> bool {
    match fact {
        TimelineFact::WorkflowStarted { id, name } => r matches Some(
            WorkflowProjection::Workflow { key, mutation: ActivityMutation::Upsert(row) },
        ) && key@ == id@ && started_row(
            row,
            "workflow"@ + ":"@ + id@,
            "workflow"@,
            take_chars(name@, 120),
            None,
            0,
            time,
        ),
        TimelineFact::WorkflowMemberStarted { workflow_id, sequence, label } => r matches Some(
            WorkflowProjection::Workflow { key, mutation: ActivityMutation::Upsert(row) },
        ) && key@ == member_key(workflow_id@, sequence) && started_row(
            row,
            "workflow-agent"@ + ":"@ + member_key(workflow_id@, sequence),
            "agent"@,
            take_chars(label@, 120),
            Some("workflow"@ + ":"@ + workflow_id@),
            1,
            time,
        ),
        TimelineFact::WorkflowMemberFinished { workflow_id, sequence, outcome } => r matches Some(
            WorkflowProjection::Workflow { key, mutation },
        ) && key@ == member_key(workflow_id@, sequence) && settles(
            mutation,
            "workflow-agent"@ + ":"@ + member_key(workflow_id@, sequence),
            None,
            outcome_state_spec(outcome),
            None,
        ),
        TimelineFact::WorkflowFinished { id, outcome } => r matches Some(
            WorkflowProjection::Workflow { key, mutation },
        ) && key@ == id@ && settles(
            mutation,
            "workflow"@ + ":"@ + id@,
            None,
            outcome_state_spec(outcome),
            None,
        ),
        TimelineFact::CompactionStarted { id, model_name } => r matches Some(
            WorkflowProjection::Compaction { key, mutation: ActivityMutation::Upsert(row) },
        ) && key@ == id@ && started_row(
            row,
            "compaction"@ + ":"@ + id@,
            compaction_label_spec("compacting"@, crate::text::opt_view(model_name)),
            Seq::empty(),
            None,
            0,
            time,
        ),
        TimelineFact::CompactionSummary { id, .. } => r matches Some(
            WorkflowProjection::Compaction {
                key,
                mutation: ActivityMutation::Enrich { id: eid, summary, start_ms },
            },
        ) && key@ == id@ && eid.0@ == "compaction"@ + ":"@ + id@ && summary@ == "summary ready"@
            && start_ms is None,
        TimelineFact::CompactionFinished { id, model_name, error } => r matches Some(
            WorkflowProjection::Compaction { key, mutation },
        ) && key@ == id@ && settles(
            mutation,
            "compaction"@ + ":"@ + id@,
            if error is None {
                Some(compaction_label_spec("compacting complete"@, crate::text::opt_view(model_name)))
            } else {
                None
            },
            if error is None {
                ActivityState::Success
            } else {
                ActivityState::Failure
            },
            crate::text::opt_view(error),
        ),
        _ => r is None,
    }
}

fn opt_str(o: &Option<String>) -> (r: Option<&str>)
    ensures
        match r {
            Some(s) => o matches Some(t) && s@ == t@,
            None => o is None,
        },
{
    match o {
        Some(s) => Some(s.as_str()),
        None => None,
    }
}

/// The workflow or compaction row an event opens, enriches or settles.
pub fn project(event: &TimelineRecord) -> (r: Option<WorkflowProjection>)
    ensures
        workflow_projected(event.fact, event.time_ms, r),
{
    proof {
        reveal_strlit("workflow");
        reveal_strlit("workflow-agent");
        reveal_strlit("compaction");
        reveal_strlit("agent");
        reveal_strlit(":");
    }
    match &event.fact {
        TimelineFact::WorkflowStarted { id, name } => {
            let mut row = ActivityRow::root(
                DisplayId::correlated("workflow", id.as_str()),
                owned("workflow"),
            );
            row.summary = first_chars(name.as_str(), 120);
            row.start_ms = event.time_ms;
            let r = Some(
                WorkflowProjection::Workflow {
                    key: id.clone(),
                    mutation: ActivityMutation::Upsert(row),
                },
            );
            assert(workflow_projected(event.fact, event.time_ms, r));
            r
        },
        TimelineFact::WorkflowMemberStarted { workflow_id, sequence, label } => {
            let key = member_key_string(workflow_id.as_str(), *sequence);
            let mut row = ActivityRow::root(
                DisplayId::correlated("workflow-agent", key.as_str()),
                owned("agent"),
            );
            row.summary = first_chars(label.as_str(), 120);
            row.parent_id = Some(DisplayId::correlated("workflow", workflow_id.as_str()));
            row.depth = 1;
            row.start_ms = event.time_ms;
            let r = Some(WorkflowProjection::Workflow { key, mutation: ActivityMutation::Upsert(row) });
            assert(workflow_projected(event.fact, event.time_ms, r));
            r
        },
        TimelineFact::WorkflowMemberFinished { workflow_id, sequence, outcome } => {
            let key = member_key_string(workflow_id.as_str(), *sequence);
            let id = DisplayId::correlated("workflow-agent", key.as_str());
            let r = Some(
                WorkflowProjection::Workflow {
                    key,
                    mutation: ActivityMutation::Settle {
                        id,
                        label: None,
                        state: outcome_state(*outcome),
                        summary: None,
                    },
                },
            );
            assert(workflow_projected(event.fact, event.time_ms, r));
            r
        },
        TimelineFact::WorkflowFinished { id, outcome } => {
            let r = Some(
                WorkflowProjection::Workflow {
                    key: id.clone(),
                    mutation: ActivityMutation::Settle {
                        id: DisplayId::correlated("workflow", id.as_str()),
                        label: None,
                        state: outcome_state(*outcome),
                        summary: None,
                    },
                },
            );
            assert(workflow_projected(event.fact, event.time_ms, r));
            r
        },
        TimelineFact::CompactionStarted { id, model_name } => {
            let mut row = ActivityRow::root(
                DisplayId::correlated("compaction", id.as_str()),
                compaction_label("compacting", opt_str(model_name)),
            );
            row.start_ms = event.time_ms;
            proof {
                assert(row.summary@ =~= Seq::<char>::empty());
            }
            let r = Some(
                WorkflowProjection::Compaction {
                    key: id.clone(),
                    mutation: ActivityMutation::Upsert(row),
                },
            );
            assert(workflow_projected(event.fact, event.time_ms, r));
            r
        },
        TimelineFact::CompactionSummary { id, .. } => {
            let r = Some(
                WorkflowProjection::Compaction {
                    key: id.clone(),
                    mutation: ActivityMutation::Enrich {
                        id: DisplayId::correlated("compaction", id.as_str()),
                        summary: owned("summary ready"),
                        start_ms: None,
                    },
                },
            );
            assert(workflow_projected(event.fact, event.time_ms, r));
            r
        },
        TimelineFact::CompactionFinished { id, model_name, error } => {
            let failed = error.is_some();
            let label = if failed {
                None
            } else {
                Some(compaction_label("compacting complete", opt_str(model_name)))
            };
            let r = Some(
                WorkflowProjection::Compaction {
                    key: id.clone(),
                    mutation: ActivityMutation::Settle {
                        id: DisplayId::correlated("compaction", id.as_str()),
                        label,
                        state: if failed {
                            ActivityState::Failure
                        } else {
                            ActivityState::Success
                        },
                        summary: crate::text::copy_opt_string(error),
                    },
                },
            );
            assert(workflow_projected(event.fact, event.time_ms, r));
            r
        },
        _ => None,
    }
}

} // verus!
