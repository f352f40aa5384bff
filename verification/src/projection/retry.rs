//! Retry rows: a scheduled wait, then the attempt.
use vstd::prelude::*;

use crate::agent::timeline::{TimelineFact, TimelineRecord};
use crate::display::{ActivityRow, ActivityState, DisplayId};
use crate::text::{decimal, owned, push_decimal, push_str};

use super::activity::ActivityMutation;

verus! {

/// `RETRY/MAX · DELAYms · MESSAGE`, without `/MAX` when no maximum is known.
pub open spec fn scheduled_summary(retry: u64, max: Option<u64>, delay: u64, message: Seq<char>) -> Seq<char> {
    match max {
        Some(m) => decimal(retry as nat) + "/"@ + decimal(m as nat) + " · "@ + decimal(delay as nat)
            + "ms · "@ + message,
        None => decimal(retry as nat) + " · "@ + decimal(delay as nat) + "ms · "@ + message,
    }
}

/// A fresh top-level retry row for `id` in `state`, with a summary and start.
pub open spec fn retry_row(
    row: ActivityRow,
    id: Seq<char>,
    state: ActivityState,
    summary: Seq<char>,
    start: Option<u64>,
) -> bool {
    &&& row.id.0@ == "retry"@ + ":"@ + id
    &&& row.label@ == "retry"@
    &&& row.summary@ == summary
    &&& row.continuations@.len() == 0
    &&& row.state == state
    &&& row.start_ms == start
    &&& row.duration_ms is None
    &&& row.output_lines is None
    &&& !row.output_lines_truncated
    &&& row.live_duration_since is None
    &&& row.parent_id is None
    &&& row.depth == 0
    &&& row.count == 1
}

/// The retry row an event opens or restarts, keyed by the retry id. A
/// restarted attempt keeps the summary it already shows, if any.
pub fn project(event: &TimelineRecord, existing_summary: Option<String>) -> (r: Option<(String, ActivityMutation)>)
    ensures
        match event.fact {
            TimelineFact::RetryScheduled { id, retry, max_retries, delay_ms, message } => r matches Some(
                (key, ActivityMutation::Upsert(row)),
            ) && key@ == id@ && retry_row(
                row,
                id@,
                ActivityState::Waiting,
                scheduled_summary(retry, max_retries, delay_ms, message@),
                event.time_ms,
            ),
            TimelineFact::RetryStarted { id, retry } => r matches Some(
                (key, ActivityMutation::Upsert(row)),
            ) && key@ == id@ && retry_row(
                row,
                id@,
                ActivityState::Running,
                match existing_summary {
                    Some(s) => s@,
                    None => "attempt "@ + decimal(retry as nat),
                },
                None,
            ),
            _ => r is None,
        },
{
    proof {
        reveal_strlit("retry");
    }
    match &event.fact {
        TimelineFact::RetryScheduled { id, retry, max_retries, delay_ms, message } => {
            let mut row = ActivityRow::root(DisplayId::correlated("retry", id.as_str()), owned("retry"));
            row.state = ActivityState::Waiting;
            row.start_ms = event.time_ms;
            let mut s = String::new();
            push_decimal(&mut s, *retry);
            match max_retries {
                Some(m) => {
                    push_str(&mut s, "/");
                    push_decimal(&mut s, *m);
                },
                None => {},
            }
            push_str(&mut s, " · ");
            push_decimal(&mut s, *delay_ms);
            push_str(&mut s, "ms · ");
            push_str(&mut s, message.as_str());
            proof {
                assert(s@ =~= scheduled_summary(*retry, *max_retries, *delay_ms, message@));
            }
            row.summary = s;
            Some((id.clone(), ActivityMutation::Upsert(row)))
        },
        TimelineFact::RetryStarted { id, retry } => {
            let mut row = ActivityRow::root(DisplayId::correlated("retry", id.as_str()), owned("retry"));
            row.state = ActivityState::Running;
            row.summary = match existing_summary {
                Some(s) => s,
                None => {
                    let mut s = owned("attempt ");
                    push_decimal(&mut s, *retry);
                    s
                },
            };
            Some((id.clone(), ActivityMutation::Upsert(row)))
        },
        _ => None,
    }
}

} // verus!
