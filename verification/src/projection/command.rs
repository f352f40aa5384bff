//! Slash-command rows and the nested dispatches they start.
use vstd::prelude::*;

use crate::agent::timeline::{TimelineFact, TimelineRecord};
use crate::display::{ActivityRow, ActivityState, DisplayId};
use crate::text::{first_chars, opt_view, owned, push_str, take_chars, trim, trimmed};

use super::activity::ActivityMutation;

verus! {

#[derive(Debug, Clone, PartialEq, Eq)]
pub enum CommandProjection {
    Command { key: String, mutation: ActivityMutation },
    Nested { key: String, mutation: ActivityMutation },
}

/// A running row with these fields, fresh otherwise.
pub open spec fn opened_row(
    row: ActivityRow,
    id: Seq<char>,
    label: Seq<char>,
    summary: Seq<char>,
    parent: Option<Seq<char>>,
    depth: u16,
    start: Option<u64>,
) -> bool {
    &&& row.id.0@ == id
    &&& row.label@ == label
    &&& row.summary@ == summary
    &&& row.continuations@.len() == 0
    &&& row.state == ActivityState::Running
    &&& row.start_ms == start
    &&& row.duration_ms is None
    &&& row.output_lines is None
    &&& !row.output_lines_truncated
    &&& row.live_duration_since is None
    &&& match parent {
        Some(p) => row.parent_id matches Some(pid) && pid.0@ == p,
        None => row.parent_id is None,
    }
    &&& row.depth == depth
    &&& row.count == 1
}

/// The nesting depth of a dispatch under a parent at `parent_depth`.
pub open spec fn nested_depth(parent_depth: u16) -> u16 {
    if parent_depth == u16::MAX {
        u16::MAX
    } else {
        (parent_depth + 1) as u16
    }
}

/// The parent a dispatch hangs under: the given row, else the tool call
/// that started it (its root call when no parent call is named).
pub open spec fn dispatch_parent(given: Option<DisplayId>, root: Seq<char>, parent_call: Seq<char>) -> Seq<char> {
    match given {
        Some(id) => id.0@,
        None => "tool-call"@ + ":"@ + if parent_call.len() == 0 {
            root
        } else {
            parent_call
        },
    }
}

/// What `project` yields for each fact.
pub open spec fn command_projected(
    fact: TimelineFact,
    time: Option<u64>,
    parent_id: Option<DisplayId>,
    parent_depth: u16,
    r: Option<CommandProjection>,
) -> bool {
    match fact {
        TimelineFact::CommandStarted { id, name, args } => r matches Some(
            CommandProjection::Command { key, mutation: ActivityMutation::Upsert(row) },
        ) && key@ == id@ && opened_row(
            row,
            "command"@ + ":"@ + id@,
            "/"@ + name@,
            take_chars(trim(match args {
                Some(a) => a@,
                None => Seq::empty(),
            }), 120),
            None,
            0,
            time,
        ),
        TimelineFact::CommandFinished { id, success, text } => r matches Some(
            CommandProjection::Command {
                key,
                mutation: ActivityMutation::Settle { id: sid, label, state, summary },
            },
        ) && key@ == id@ && sid.0@ == "command"@ + ":"@ + id@ && label is None && state == (
        if success {
            ActivityState::Success
        } else {
            ActivityState::Failure
        }) && opt_view(summary) == opt_view(text),
        TimelineFact::SubagentStarted { root_id, parent_id: parent_call, id, name, summary } => r matches Some(
            CommandProjection::Nested { key, mutation: ActivityMutation::Upsert(row) },
        ) && key@ == id@ && opened_row(
            row,
            "code-dispatch"@ + ":"@ + id@,
            name@,
            take_chars(summary@, 120),
            Some(dispatch_parent(parent_id, root_id@, parent_call@)),
            nested_depth(parent_depth),
            time,
        ),
        TimelineFact::SubagentFinished { id, failed } => r matches Some(
            CommandProjection::Nested {
                key,
                mutation: ActivityMutation::Settle { id: sid, label, state, summary },
            },
        ) && key@ == id@ && sid.0@ == "code-dispatch"@ + ":"@ + id@ && label is None && state == (
        if failed {
            ActivityState::Failure
        } else {
            ActivityState::Success
        }) && summary is None,
        _ => r is None,
    }
}

/// The command or dispatch row an event opens or settles. A dispatch hangs
/// under `parent_id` when given, one level below `parent_depth`.
pub fn project(event: &TimelineRecord, parent_id: Option<DisplayId>, parent_depth: u16) -> (r: Option<CommandProjection>)
    ensures
        command_projected(event.fact, event.time_ms, parent_id, parent_depth, r),
{
    match &event.fact {
        TimelineFact::CommandStarted { id, name, args } => {
            let mut label = owned("/");
            push_str(&mut label, name.as_str());
            proof {
                reveal_strlit("/");
            }
            let mut row = ActivityRow::root(DisplayId::correlated("command", id.as_str()), label);
            let args_text = match args {
                Some(a) => a.clone(),
                None => String::new(),
            };
            let t = trimmed(args_text.as_str());
            row.summary = first_chars(t.as_str(), 120);
            row.start_ms = event.time_ms;
            Some(CommandProjection::Command { key: id.clone(), mutation: ActivityMutation::Upsert(row) })
        },
        TimelineFact::CommandFinished { id, success, text } => {
            Some(
                CommandProjection::Command {
                    key: id.clone(),
                    mutation: ActivityMutation::Settle {
                        id: DisplayId::correlated("command", id.as_str()),
                        label: None,
                        state: if *success {
                            ActivityState::Success
                        } else {
                            ActivityState::Failure
                        },
                        summary: crate::text::copy_opt_string(text),
                    },
                },
            )
        },
        TimelineFact::SubagentStarted { root_id, parent_id: parent_call, id, name, summary } => {
            let parent = match parent_id {
                Some(p) => p,
                None => {
                    if parent_call.unicode_len() == 0 {
                        DisplayId::correlated("tool-call", root_id.as_str())
                    } else {
                        DisplayId::correlated("tool-call", parent_call.as_str())
                    }
                },
            };
            let mut row = ActivityRow::root(
                DisplayId::correlated("code-dispatch", id.as_str()),
                name.clone(),
            );
            row.parent_id = Some(parent);
            row.depth = parent_depth.saturating_add(1);
            row.summary = first_chars(summary.as_str(), 120);
            row.start_ms = event.time_ms;
            Some(CommandProjection::Nested { key: id.clone(), mutation: ActivityMutation::Upsert(row) })
        },
        TimelineFact::SubagentFinished { id, failed } => {
            Some(
                CommandProjection::Nested {
                    key: id.clone(),
                    mutation: ActivityMutation::Settle {
                        id: DisplayId::correlated("code-dispatch", id.as_str()),
                        label: None,
                        state: if *failed {
                            ActivityState::Failure
                        } else {
                            ActivityState::Success
                        },
                        summary: None,
                    },
                },
            )
        },
        _ => None,
    }
}

} // verus!
