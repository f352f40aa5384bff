//! Agent-event capture and native-history enrichment over output-free
//! execution records.
use vstd::prelude::*;

use crate::agent::timeline::{TimelineFact, TimelineRecord, TokenUsage, ToolExecutionMetrics};
use crate::agent::tool::{ActivityState, ToolActivity, ToolCapability, ToolReference};
use crate::agent::{AgentEvent, CatalogEvent, TimelineEvent};
use crate::execution_history::{
    calls_from_records, calls_of, calls_view, copy_start, start_view, CallView, ExecutionCall,
    ExecutionEvent, ExecutionOutcome, ExecutionRecord, HistoryMessageKind, MeasuredDuration,
    ModelIdentity, ObservedOutputLines, OperationFinish, OperationKind, OperationStart,
    OperationSummary, StartView, SummaryView, TimingSource, TokenUsageRecord, line_count,
};
use crate::preview::ToolPreviewPrimary;
use crate::text::{decimal, opt_view, owned, push_decimal, push_str, str_eq, strs_view};

verus! {

// ---------- allowlisted operation summaries ----------

pub open spec fn kind_of(capability: ToolCapability) -> OperationKind {
    match capability {
        ToolCapability::Read | ToolCapability::SkillRead | ToolCapability::View => OperationKind::Read,
        ToolCapability::Edit | ToolCapability::Insert | ToolCapability::Replace
        | ToolCapability::Create => OperationKind::Edit,
        ToolCapability::Command => OperationKind::Command,
        ToolCapability::Search => OperationKind::Search,
        ToolCapability::Generic | ToolCapability::Custom { .. } => OperationKind::Other,
    }
}

/// Paths of the hunks that name one, in order.
pub open spec fn hunk_paths(hunks: Seq<crate::preview::MutationHunk>) -> Seq<Seq<char>>
    decreases hunks.len(),
{
    if hunks.len() == 0 {
        Seq::empty()
    } else {
        let rest = hunk_paths(hunks.drop_last());
        match hunks.last().path {
            Some(p) => rest.push(p@),
            None => rest,
        }
    }
}

/// The paths a reference names.
pub open spec fn reference_paths(reference: Option<ToolReference>) -> Seq<Seq<char>> {
    match reference {
        Some(ToolReference::Path { path }) => seq![path@],
        Some(ToolReference::Lines { path, .. }) => seq![path@],
        Some(ToolReference::Diff { path, .. }) => match path {
            Some(p) => seq![p@],
            None => Seq::empty(),
        },
        Some(ToolReference::Hunks(hunks)) => hunk_paths(hunks@),
        _ => Seq::empty(),
    }
}

/// `s` without consecutive repeats, as `Vec::dedup` leaves it.
pub open spec fn dedup(s: Seq<Seq<char>>) -> Seq<Seq<char>>
    decreases s.len(),
{
    if s.len() == 0 {
        s
    } else {
        let d = dedup(s.drop_last());
        if d.len() > 0 && d.last() == s.last() {
            d
        } else {
            d.push(s.last())
        }
    }
}

/// The only argument facts a trace may hold: a command line, paths, or a
/// search query and path, each from typed reference fields.
pub open spec fn tool_summary(activity: ToolActivity) -> SummaryView {
    match kind_of(activity.capability) {
        OperationKind::Command => match activity.reference {
            Some(ToolReference::Command { command }) => SummaryView::Command(command@),
            _ => SummaryView::Identity,
        },
        OperationKind::Read | OperationKind::Edit => {
            let paths = dedup(reference_paths(activity.reference));
            if paths.len() == 0 {
                SummaryView::Identity
            } else {
                SummaryView::Paths(paths)
            }
        },
        OperationKind::Search => match activity.preview {
            Some(p) => match p.primary {
                ToolPreviewPrimary::Search { query, path } => SummaryView::Search(query@, opt_view(path)),
                _ => match activity.reference {
                    Some(ToolReference::SearchResult { query, .. }) => SummaryView::Search(query@, None),
                    _ => SummaryView::Identity,
                },
            },
            None => match activity.reference {
                Some(ToolReference::SearchResult { query, .. }) => SummaryView::Search(query@, None),
                _ => SummaryView::Identity,
            },
        },
        _ => SummaryView::Identity,
    }
}

fn operation_kind(capability: &ToolCapability) -> (r: OperationKind)
    ensures
        r == kind_of(*capability),
{
    match capability {
        ToolCapability::Read | ToolCapability::SkillRead | ToolCapability::View => OperationKind::Read,
        ToolCapability::Edit | ToolCapability::Insert | ToolCapability::Replace
        | ToolCapability::Create => OperationKind::Edit,
        ToolCapability::Command => OperationKind::Command,
        ToolCapability::Search => OperationKind::Search,
        ToolCapability::Generic | ToolCapability::Custom { .. } => OperationKind::Other,
    }
}

fn push_dedup(v: &mut Vec<String>, x: &String, Ghost(raw): Ghost<Seq<Seq<char>>>)
    requires
        strs_view(old(v)@) == dedup(raw),
    ensures
        strs_view(final(v)@) == dedup(raw.push(x@)),
{
    proof {
        assert(raw.push(x@).drop_last() =~= raw);
    }
    if v.len() > 0 && str_eq(v[v.len() - 1].as_str(), x.as_str()) {
        proof {
            assert(strs_view(v@).last() == v@[v@.len() - 1]@);
        }
        return ;
    }
    let ghost before = v@;
    v.push(x.clone());
    proof {
        if before.len() > 0 {
            assert(strs_view(before).last() == before[before.len() - 1]@);
        }
        assert(strs_view(v@) =~= strs_view(before).push(x@));
    }
}

fn tool_paths(reference: &Option<ToolReference>) -> (r: Vec<String>)
    ensures
        strs_view(r@) == dedup(reference_paths(*reference)),
{
    let mut out: Vec<String> = Vec::new();
    proof {
        assert(strs_view(out@) =~= dedup(Seq::<Seq<char>>::empty()));
    }
    match reference {
        Some(ToolReference::Path { path }) => {
            push_dedup(&mut out, path, Ghost(Seq::empty()));
            proof {
                assert(Seq::<Seq<char>>::empty().push(path@) =~= seq![path@]);
            }
        },
        Some(ToolReference::Lines { path, .. }) => {
            push_dedup(&mut out, path, Ghost(Seq::empty()));
            proof {
                assert(Seq::<Seq<char>>::empty().push(path@) =~= seq![path@]);
            }
        },
        Some(ToolReference::Diff { path, .. }) => match path {
            Some(p) => {
                push_dedup(&mut out, p, Ghost(Seq::empty()));
                proof {
                    assert(Seq::<Seq<char>>::empty().push(p@) =~= seq![p@]);
                }
            },
            None => {},
        },
        Some(ToolReference::Hunks(hunks)) => {
            let mut i: usize = 0;
            while i < hunks.len()
                invariant
                    i <= hunks@.len(),
                    strs_view(out@) == dedup(hunk_paths(hunks@.take(i as int))),
                decreases hunks.len() - i,
            {
                proof {
                    assert(hunks@.take(i + 1).drop_last() =~= hunks@.take(i as int));
                }
                match &hunks[i].path {
                    Some(p) => push_dedup(&mut out, p, Ghost(hunk_paths(hunks@.take(i as int)))),
                    None => {},
                }
                i = i + 1;
            }
            proof {
                assert(hunks@.take(i as int) =~= hunks@);
            }
        },
        _ => {},
    }
    out
}

fn search_result_summary(reference: &Option<ToolReference>) -> (r: OperationSummary)
    ensures
        crate::execution_history::summary_view(r) == match *reference {
            Some(ToolReference::SearchResult { query, .. }) => SummaryView::Search(query@, None),
            _ => SummaryView::Identity,
        },
{
    match reference {
        Some(ToolReference::SearchResult { query, .. }) => OperationSummary::Search {
            query: query.clone(),
            path: None,
        },
        _ => OperationSummary::Identity,
    }
}

impl OperationStart {
    /// Presentation summaries and generic previews may hold raw arguments;
    /// only typed, allowlisted reference fields enter the trace.
    pub fn from_tool(activity: &ToolActivity, turn_id: Option<String>, parent_id: Option<String>) -> (r: OperationStart)
        ensures
            start_view(r) == (StartView {
                call_id: activity.id@,
                turn_id: opt_view(turn_id),
                parent_id: opt_view(parent_id),
                kind: kind_of(activity.capability),
                name: activity.label@,
                summary: tool_summary(*activity),
            }),
    {
        let kind = operation_kind(&activity.capability);
        let summary = match kind {
            OperationKind::Command => match &activity.reference {
                Some(ToolReference::Command { command }) => OperationSummary::Command {
                    command: command.clone(),
                },
                _ => OperationSummary::Identity,
            },
            OperationKind::Read | OperationKind::Edit => {
                let paths = tool_paths(&activity.reference);
                if paths.len() == 0 {
                    OperationSummary::Identity
                } else {
                    OperationSummary::Paths { paths }
                }
            },
            OperationKind::Search => match &activity.preview {
                Some(p) => match &p.primary {
                    ToolPreviewPrimary::Search { query, path } => OperationSummary::Search {
                        query: query.clone(),
                        path: crate::text::copy_opt_string(path),
                    },
                    _ => search_result_summary(&activity.reference),
                },
                None => search_result_summary(&activity.reference),
            },
            _ => OperationSummary::Identity,
        };
        OperationStart {
            call_id: activity.id.clone(),
            turn_id,
            parent_id,
            kind,
            name: activity.label.clone(),
            summary,
        }
    }
}

#[derive(Debug, Clone, Copy, PartialEq, Eq, Structural)]
pub struct ObservedAt {
    pub wall_unix_ms: u64,
    pub monotonic_ms: u64,
}

pub open spec fn usage_record(usage: TokenUsage) -> TokenUsageRecord {
    TokenUsageRecord {
        input_tokens: usage.input_tokens,
        output_tokens: usage.output_tokens,
        cache_read_tokens: usage.cache_read_tokens,
        cache_write_tokens: usage.cache_write_tokens,
    }
}

impl TokenUsageRecord {
    pub fn from_usage(usage: TokenUsage) -> (r: TokenUsageRecord)
        ensures
            r == usage_record(usage),
    {
        TokenUsageRecord {
            input_tokens: usage.input_tokens,
            output_tokens: usage.output_tokens,
            cache_read_tokens: usage.cache_read_tokens,
            cache_write_tokens: usage.cache_write_tokens,
        }
    }
}

// ---------- record values ----------

pub type ModelView = (Seq<char>, Seq<char>);

pub open spec fn model_view(m: ModelIdentity) -> ModelView {
    (m.provider@, m.model@)
}

pub open spec fn opt_model_view(m: Option<ModelIdentity>) -> Option<ModelView> {
    match m {
        Some(x) => Some(model_view(x)),
        None => None,
    }
}

pub enum EventView {
    Attached,
    Detached,
    TurnStarted(Seq<char>),
    TurnFinished(Seq<char>, ExecutionOutcome),
    Started(StartView),
    Finished(crate::execution_history::FinishView),
    ModelSelected(ModelView),
    MessageObserved(Option<Seq<char>>, HistoryMessageKind, Option<ModelView>),
    UsageRecorded(Option<Seq<char>>, Option<ModelView>, TokenUsageRecord, Option<u64>),
}

pub open spec fn event_view(e: ExecutionEvent) -> EventView {
    match e {
        ExecutionEvent::Attached => EventView::Attached,
        ExecutionEvent::Detached => EventView::Detached,
        ExecutionEvent::TurnStarted { turn_id } => EventView::TurnStarted(turn_id@),
        ExecutionEvent::TurnFinished { turn_id, outcome } => EventView::TurnFinished(turn_id@, outcome),
        ExecutionEvent::Started(op) => EventView::Started(start_view(op)),
        ExecutionEvent::Finished(f) => EventView::Finished(crate::execution_history::finish_view(f)),
        ExecutionEvent::ModelSelected { model } => EventView::ModelSelected(model_view(model)),
        ExecutionEvent::MessageObserved { turn_id, kind, model } => EventView::MessageObserved(
            opt_view(turn_id),
            kind,
            opt_model_view(model),
        ),
        ExecutionEvent::UsageRecorded { turn_id, model, usage, cost_usd_nanos } => EventView::UsageRecorded(
            opt_view(turn_id),
            opt_model_view(model),
            usage,
            cost_usd_nanos,
        ),
    }
}

pub struct RecordView {
    pub sequence: u64,
    pub run_id: Seq<char>,
    pub time_unix_ms: u64,
    pub event: EventView,
}

pub open spec fn record_view(r: ExecutionRecord) -> RecordView {
    RecordView {
        sequence: r.sequence,
        run_id: r.run_id@,
        time_unix_ms: r.time_unix_ms,
        event: event_view(r.event),
    }
}

pub open spec fn records_view(s: Seq<ExecutionRecord>) -> Seq<RecordView> {
    s.map_values(|r: ExecutionRecord| record_view(r))
}

// ---------- the capture state ----------

/// One open operation: its call id, the backend's start time if it sent
/// one, and when the frontend saw it start.
pub type ActiveView = (Seq<char>, Option<u64>, ObservedAt);

pub struct CaptureModel {
    pub run_id: Seq<char>,
    pub next_sequence: u64,
    pub next_turn: u64,
    pub next_model: u64,
    pub current_turn: Option<Seq<char>>,
    pub active: Seq<ActiveView>,
    pub active_models: Seq<Seq<char>>,
    pub terminal: Seq<Seq<char>>,
    pub current_model: Option<ModelView>,
    pub pending_cost: Option<u64>,
    pub pending_usage: Option<TokenUsageRecord>,
}

pub open spec fn sat_inc(n: u64) -> u64 {
    if n < u64::MAX {
        (n + 1) as u64
    } else {
        n
    }
}

/// Stamp the next sequence number on an event.
pub open spec fn record_step(m: CaptureModel, time: u64, ev: EventView) -> (CaptureModel, RecordView) {
    (
        CaptureModel { next_sequence: sat_inc(m.next_sequence), ..m },
        RecordView { sequence: m.next_sequence, run_id: m.run_id, time_unix_ms: time, event: ev },
    )
}

pub open spec fn turn_name(n: u64) -> Seq<char> {
    "turn-"@ + decimal(n as nat)
}

pub open spec fn begin_turn_step(m: CaptureModel) -> (CaptureModel, Seq<char>) {
    let id = turn_name(m.next_turn);
    (CaptureModel { next_turn: sat_inc(m.next_turn), current_turn: Some(id), ..m }, id)
}

pub open spec fn message_step(m: CaptureModel, time: u64, kind: HistoryMessageKind) -> (CaptureModel, RecordView) {
    record_step(m, time, EventView::MessageObserved(m.current_turn, kind, m.current_model))
}

pub open spec fn active_pos(active: Seq<ActiveView>, id: Seq<char>) -> Option<int>
    decreases active.len(),
{
    if active.len() == 0 {
        None
    } else if active[0].0 == id {
        Some(0)
    } else {
        match active_pos(active.drop_first(), id) {
            Some(i) => Some(i + 1),
            None => None,
        }
    }
}

/// Open an operation unless it is open or finished already.
pub open spec fn start_step(m: CaptureModel, op: StartView, backend: Option<u64>, at: ObservedAt, time: u64) -> (CaptureModel, Seq<RecordView>) {
    if active_pos(m.active, op.call_id) is Some || m.terminal.contains(op.call_id) {
        (m, Seq::empty())
    } else {
        let m1 = CaptureModel { active: m.active.push((op.call_id, backend, at)), ..m };
        let (m2, r) = record_step(m1, time, EventView::Started(op));
        (m2, seq![r])
    }
}

/// Backend timing when both ends are known and ordered, else the frontend's
/// monotonic clock.
pub open spec fn measured_duration(a: ActiveView, backend_end: Option<u64>, at: ObservedAt) -> MeasuredDuration {
    match (a.1, backend_end) {
        (Some(start), Some(end)) => if end >= start {
            MeasuredDuration { duration_ms: (end - start) as u64, source: TimingSource::Backend }
        } else {
            MeasuredDuration {
                duration_ms: crate::interaction::sat_sub(at.monotonic_ms as nat, a.2.monotonic_ms as nat) as u64,
                source: TimingSource::ClientObserved,
            }
        },
        _ => MeasuredDuration {
            duration_ms: crate::interaction::sat_sub(at.monotonic_ms as nat, a.2.monotonic_ms as nat) as u64,
            source: TimingSource::ClientObserved,
        },
    }
}

/// Close an operation once; a second terminal event for it is dropped.
pub open spec fn finish_step(
    m: CaptureModel,
    id: Seq<char>,
    outcome: ExecutionOutcome,
    lines: Option<ObservedOutputLines>,
    backend_end: Option<u64>,
    at: ObservedAt,
    time: u64,
) -> (CaptureModel, Seq<RecordView>) {
    if m.terminal.contains(id) {
        (m, Seq::empty())
    } else {
        let duration = match active_pos(m.active, id) {
            Some(i) => Some(measured_duration(m.active[i], backend_end, at)),
            None => None,
        };
        let active = match active_pos(m.active, id) {
            Some(i) => m.active.remove(i),
            None => m.active,
        };
        let m1 = CaptureModel { terminal: m.terminal.push(id), active, ..m };
        let (m2, r) = record_step(
            m1,
            time,
            EventView::Finished(
                crate::execution_history::FinishView { call_id: id, outcome, duration, output_lines: lines },
            ),
        );
        (m2, seq![r])
    }
}

pub open spec fn tool_outcome(state: ActivityState) -> ExecutionOutcome {
    match state {
        ActivityState::Failure => ExecutionOutcome::Failure,
        ActivityState::Cancelled => ExecutionOutcome::Cancelled,
        _ => ExecutionOutcome::Success,
    }
}

pub open spec fn unwrap_or_zero(o: Option<u64>) -> u64 {
    match o {
        Some(v) => v,
        None => 0,
    }
}

/// `model:TURN:STEP:`.
pub open spec fn step_prefix(turn: Option<u64>, step: Option<u64>) -> Seq<char> {
    "model:"@ + decimal(unwrap_or_zero(turn) as nat) + ":"@ + decimal(unwrap_or_zero(step) as nat) + ":"@
}

/// Index of the last id with this prefix.
pub open spec fn last_with_prefix(ids: Seq<Seq<char>>, prefix: Seq<char>) -> Option<int>
    decreases ids.len(),
{
    if ids.len() == 0 {
        None
    } else if crate::text::has_prefix(ids.last(), prefix) {
        Some(ids.len() - 1)
    } else {
        last_with_prefix(ids.drop_last(), prefix)
    }
}

/// The records one timeline fact adds, and the state after it.
pub open spec fn fact_step(m: CaptureModel, fact: TimelineFact, backend: Option<u64>, at: ObservedAt) -> (CaptureModel, Seq<RecordView>) {
    let time = match backend {
        Some(t) => t,
        None => at.wall_unix_ms,
    };
    match fact {
        TimelineFact::UserMessage { .. } => if m.current_turn is None {
            let (m1, id) = begin_turn_step(m);
            let (m2, r1) = record_step(m1, time, EventView::TurnStarted(id));
            let (m3, r2) = message_step(m2, time, HistoryMessageKind::User);
            (m3, seq![r1, r2])
        } else {
            let (m1, r) = message_step(m, time, HistoryMessageKind::User);
            (m1, seq![r])
        },
        TimelineFact::TurnStart => if m.current_turn is Some {
            (m, Seq::empty())
        } else {
            let (m1, id) = begin_turn_step(m);
            let (m2, r) = record_step(m1, time, EventView::TurnStarted(id));
            (m2, seq![r])
        },
        TimelineFact::TurnEnd { error_message, .. } => {
            let turn_id = match m.current_turn {
                Some(t) => t,
                None => "turn-unknown"@,
            };
            let outcome = if error_message is Some {
                ExecutionOutcome::Failure
            } else {
                ExecutionOutcome::Success
            };
            let (m1, r1) = message_step(m, time, HistoryMessageKind::AgentStop);
            let (m2, r2) = record_step(m1, time, EventView::TurnFinished(turn_id, outcome));
            (CaptureModel { current_turn: None, pending_usage: None, pending_cost: None, ..m2 }, seq![r1, r2])
        },
        TimelineFact::UsageCost { usd_nanos } => (CaptureModel { pending_cost: Some(usd_nanos), ..m }, Seq::empty()),
        TimelineFact::AssistantChunk { usage, .. } => match usage {
            Some(u) => (CaptureModel { pending_usage: Some(usage_record(u)), ..m }, Seq::empty()),
            None => (m, Seq::empty()),
        },
        TimelineFact::AssistantMessage { usage, .. } => {
            let (m1, r1) = message_step(m, time, HistoryMessageKind::Assistant);
            let cost = m1.pending_cost;
            let u = match usage {
                Some(x) => Some(usage_record(x)),
                None => m1.pending_usage,
            };
            let m2 = CaptureModel { pending_cost: None, pending_usage: None, ..m1 };
            match u {
                Some(x) => {
                    let (m3, r2) = record_step(
                        m2,
                        time,
                        EventView::UsageRecorded(m2.current_turn, m2.current_model, x, cost),
                    );
                    (m3, seq![r1, r2])
                },
                None => (m2, seq![r1]),
            }
        },
        TimelineFact::ToolCall(activity) => start_step(
            m,
            StartView {
                call_id: activity.id@,
                turn_id: m.current_turn,
                parent_id: None,
                kind: kind_of(activity.capability),
                name: activity.label@,
                summary: tool_summary(activity),
            },
            backend,
            at,
            time,
        ),
        TimelineFact::ToolResult { activity_id, output, state, output_truncated, .. } => finish_step(
            m,
            activity_id@,
            tool_outcome(state),
            Some(ObservedOutputLines { count: line_count(output@) as usize, truncated: output_truncated }),
            backend,
            at,
            time,
        ),
        TimelineFact::StepStart { turn, step } => {
            let call_id = step_prefix(turn, step) + decimal(m.next_model as nat);
            let m1 = CaptureModel {
                next_model: sat_inc(m.next_model),
                active_models: m.active_models.push(call_id),
                ..m
            };
            let turn_id = match m.current_turn {
                Some(t) => Some(t),
                None => match turn {
                    Some(t) => Some(turn_name(t)),
                    None => None,
                },
            };
            start_step(
                m1,
                StartView {
                    call_id,
                    turn_id,
                    parent_id: None,
                    kind: OperationKind::Model,
                    name: "model"@,
                    summary: SummaryView::Identity,
                },
                backend,
                at,
                time,
            )
        },
        TimelineFact::StepEnd { turn, step } => match last_with_prefix(m.active_models, step_prefix(turn, step)) {
            Some(i) => finish_step(
                CaptureModel { active_models: m.active_models.remove(i), ..m },
                m.active_models[i],
                ExecutionOutcome::Success,
                None,
                backend,
                at,
                time,
            ),
            None => (m, Seq::empty()),
        },
        TimelineFact::CommandStarted { id, name, args } => start_step(
            m,
            StartView {
                call_id: id@,
                turn_id: m.current_turn,
                parent_id: None,
                kind: OperationKind::Command,
                name: name@,
                summary: match args {
                    Some(a) => SummaryView::Command(a@),
                    None => SummaryView::Identity,
                },
            },
            backend,
            at,
            time,
        ),
        TimelineFact::CommandFinished { id, success, .. } => finish_step(
            m,
            id@,
            if success {
                ExecutionOutcome::Success
            } else {
                ExecutionOutcome::Failure
            },
            None,
            backend,
            at,
            time,
        ),
        _ => (m, Seq::empty()),
    }
}

/// The records one agent event adds, and the state after it. Only a model
/// change and appended live timeline facts are captured; snapshots and
/// history replays are ignored.
pub open spec fn observe_step(m: CaptureModel, event: AgentEvent, at: ObservedAt) -> (CaptureModel, Seq<RecordView>) {
    match event {
        AgentEvent::Catalog(CatalogEvent::Models { current, .. }) => match current {
            Some(c) => {
                let model = (c.provider@, c.model@);
                if m.current_model == Some(model) {
                    (m, Seq::empty())
                } else {
                    let (m1, r) = record_step(
                        CaptureModel { current_model: Some(model), ..m },
                        at.wall_unix_ms,
                        EventView::ModelSelected(model),
                    );
                    (m1, seq![r])
                }
            },
            None => (m, Seq::empty()),
        },
        AgentEvent::Timeline(TimelineEvent::Append(record)) => fact_step(m, record.fact, record.time_ms, at),
        _ => (m, Seq::empty()),
    }
}

// ---------- the capture ----------

struct ActiveOperation {
    call_id: String,
    backend_start_ms: Option<u64>,
    observed_start: ObservedAt,
}

spec fn active_view(a: ActiveOperation) -> ActiveView {
    (a.call_id@, a.backend_start_ms, a.observed_start)
}

/// Pure adapter-ingress state. Snapshot and history replay are ignored.
pub struct ExecutionCapture {
    run_id: String,
    next_sequence: u64,
    next_turn: u64,
    next_model: u64,
    current_turn: Option<String>,
    active: Vec<ActiveOperation>,
    active_models: Vec<String>,
    terminal: Vec<String>,
    current_model: Option<ModelIdentity>,
    pending_cost_usd_nanos: Option<u64>,
    pending_usage: Option<TokenUsageRecord>,
}

fn copy_model(m: &ModelIdentity) -> (r: ModelIdentity)
    ensures
        model_view(r) == model_view(*m),
{
    ModelIdentity { provider: m.provider.clone(), model: m.model.clone() }
}

fn copy_opt_model(m: &Option<ModelIdentity>) -> (r: Option<ModelIdentity>)
    ensures
        opt_model_view(r) == opt_model_view(*m),
{
    match m {
        Some(x) => Some(copy_model(x)),
        None => None,
    }
}

impl ExecutionCapture {
    pub closed spec fn model(&self) -> CaptureModel {
        CaptureModel {
            run_id: self.run_id@,
            next_sequence: self.next_sequence,
            next_turn: self.next_turn,
            next_model: self.next_model,
            current_turn: opt_view(self.current_turn),
            active: self.active@.map_values(|a: ActiveOperation| active_view(a)),
            active_models: strs_view(self.active_models@),
            terminal: strs_view(self.terminal@),
            current_model: opt_model_view(self.current_model),
            pending_cost: self.pending_cost_usd_nanos,
            pending_usage: self.pending_usage,
        }
    }

    pub fn new(run_id: String) -> (r: ExecutionCapture)
        ensures
            r.model() == (CaptureModel {
                run_id: run_id@,
                next_sequence: 1,
                next_turn: 1,
                next_model: 1,
                current_turn: None,
                active: Seq::empty(),
                active_models: Seq::empty(),
                terminal: Seq::empty(),
                current_model: None,
                pending_cost: None,
                pending_usage: None,
            }),
    {
        let r = ExecutionCapture {
            run_id,
            next_sequence: 1,
            next_turn: 1,
            next_model: 1,
            current_turn: None,
            active: Vec::new(),
            active_models: Vec::new(),
            terminal: Vec::new(),
            current_model: None,
            pending_cost_usd_nanos: None,
            pending_usage: None,
        };
        proof {
            assert(r.model().active =~= Seq::<ActiveView>::empty());
            assert(r.model().active_models =~= Seq::<Seq<char>>::empty());
            assert(r.model().terminal =~= Seq::<Seq<char>>::empty());
        }
        r
    }

    /// The route records are attributed to before the first model event.
    pub fn set_initial_model(&mut self, provider: Option<&str>, model: Option<&str>)
        ensures
            final(self).model() == (CaptureModel {
                current_model: match (provider, model) {
                    (Some(p), Some(m)) => Some((p@, m@)),
                    _ => None,
                },
                ..old(self).model()
            }),
    {
        self.current_model = match (provider, model) {
            (Some(p), Some(m)) => Some(ModelIdentity { provider: owned(p), model: owned(m) }),
            _ => None,
        };
    }

    pub fn attached(&mut self, at: ObservedAt) -> (r: ExecutionRecord)
        ensures
            (final(self).model(), record_view(r)) == record_step(old(self).model(), at.wall_unix_ms, EventView::Attached),
    {
        self.record(at.wall_unix_ms, ExecutionEvent::Attached)
    }

    pub fn detached(&mut self, at: ObservedAt) -> (r: ExecutionRecord)
        ensures
            (final(self).model(), record_view(r)) == record_step(old(self).model(), at.wall_unix_ms, EventView::Detached),
    {
        self.record(at.wall_unix_ms, ExecutionEvent::Detached)
    }

    fn record(&mut self, time_unix_ms: u64, event: ExecutionEvent) -> (r: ExecutionRecord)
        ensures
            (final(self).model(), record_view(r)) == record_step(old(self).model(), time_unix_ms, event_view(event)),
    {
        let sequence = self.next_sequence;
        self.next_sequence = self.next_sequence.saturating_add(1);
        ExecutionRecord { sequence, run_id: self.run_id.clone(), time_unix_ms, event }
    }

    fn begin_turn(&mut self) -> (r: String)
        ensures
            (final(self).model(), r@) == begin_turn_step(old(self).model()),
    {
        let mut id = owned("turn-");
        push_decimal(&mut id, self.next_turn);
        self.next_turn = self.next_turn.saturating_add(1);
        self.current_turn = Some(id.clone());
        proof {
            reveal_strlit("turn-");
        }
        id
    }

    fn message(&mut self, time_unix_ms: u64, kind: HistoryMessageKind) -> (r: ExecutionRecord)
        ensures
            (final(self).model(), record_view(r)) == message_step(old(self).model(), time_unix_ms, kind),
    {
        let turn_id = crate::text::copy_opt_string(&self.current_turn);
        let model = copy_opt_model(&self.current_model);
        self.record(time_unix_ms, ExecutionEvent::MessageObserved { turn_id, kind, model })
    }

    fn find_active(&self, id: &str) -> (r: Option<usize>)
        ensures
            match r {
                Some(k) => active_pos(self.model().active, id@) == Some(k as int) && k < self.active@.len(),
                None => active_pos(self.model().active, id@) is None,
            },
    {
        let ghost s = self.model().active;
        let mut i: usize = 0;
        proof {
            assert(s.skip(0) =~= s);
        }
        while i < self.active.len()
            invariant
                i <= self.active@.len(),
                s == self.model().active,
                s.len() == self.active@.len(),
                active_pos(s, id@) == (match active_pos(s.skip(i as int), id@) {
                    Some(j) => Some(j + i),
                    None => None,
                }),
            decreases self.active.len() - i,
        {
            proof {
                assert(s.skip(i as int).drop_first() =~= s.skip(i + 1));
                assert(s.skip(i as int)[0] == active_view(self.active@[i as int]));
            }
            if str_eq(self.active[i].call_id.as_str(), id) {
                return Some(i);
            }
            i = i + 1;
        }
        None
    }

    fn is_terminal(&self, id: &str) -> (r: bool)
        ensures
            r == self.model().terminal.contains(id@),
    {
        let mut i: usize = 0;
        while i < self.terminal.len()
            invariant
                i <= self.terminal@.len(),
                forall|k: int| 0 <= k < i ==> self.terminal@[k]@ != id@,
            decreases self.terminal.len() - i,
        {
            if str_eq(self.terminal[i].as_str(), id) {
                proof {
                    assert(self.model().terminal[i as int] == id@);
                }
                return true;
            }
            i = i + 1;
        }
        proof {
            if self.model().terminal.contains(id@) {
                let k = choose|k: int| 0 <= k < self.model().terminal.len() && self.model().terminal[k] == id@;
                assert(self.terminal@[k]@ == id@);
            }
        }
        false
    }

    fn start(&mut self, operation: OperationStart, backend_start_ms: Option<u64>, at: ObservedAt, record_time: u64) -> (r: Vec<ExecutionRecord>)
        ensures
            (final(self).model(), records_view(r@)) == start_step(old(self).model(), start_view(operation), backend_start_ms, at, record_time),
    {
        if self.find_active(operation.call_id.as_str()).is_some() || self.is_terminal(operation.call_id.as_str()) {
            let r: Vec<ExecutionRecord> = Vec::new();
            proof {
                assert(records_view(r@) =~= Seq::<RecordView>::empty());
            }
            return r;
        }
        let ghost before = self.active@;
        self.active.push(ActiveOperation {
            call_id: operation.call_id.clone(),
            backend_start_ms,
            observed_start: at,
        });
        proof {
            assert(self.active@.map_values(|a: ActiveOperation| active_view(a)) =~= before.map_values(
                |a: ActiveOperation| active_view(a),
            ).push((operation.call_id@, backend_start_ms, at)));
        }
        let rec = self.record(record_time, ExecutionEvent::Started(operation));
        let mut r: Vec<ExecutionRecord> = Vec::new();
        r.push(rec);
        proof {
            assert(records_view(r@) =~= seq![record_view(rec)]);
        }
        r
    }

    fn finish(
        &mut self,
        call_id: &str,
        outcome: ExecutionOutcome,
        output_lines: Option<ObservedOutputLines>,
        backend_end_ms: Option<u64>,
        at: ObservedAt,
        record_time: u64,
    ) -> (r: Vec<ExecutionRecord>)
        ensures
            (final(self).model(), records_view(r@)) == finish_step(
                old(self).model(),
                call_id@,
                outcome,
                output_lines,
                backend_end_ms,
                at,
                record_time,
            ),
    {
        if self.is_terminal(call_id) {
            let r: Vec<ExecutionRecord> = Vec::new();
            proof {
                assert(records_view(r@) =~= Seq::<RecordView>::empty());
            }
            return r;
        }
        let ghost m = self.model();
        let ghost before_terminal = self.terminal@;
        self.terminal.push(owned(call_id));
        proof {
            assert(strs_view(self.terminal@) =~= strs_view(before_terminal).push(call_id@));
        }
        let duration = match self.find_active(call_id) {
            Some(k) => {
                let ghost before_active = self.active@;
                let active = self.active.remove(k);
                proof {
                    assert(self.active@.map_values(|a: ActiveOperation| active_view(a)) =~= before_active.map_values(
                        |a: ActiveOperation| active_view(a),
                    ).remove(k as int));
                    assert(active_view(active) == m.active[k as int]);
                }
                let d = match (active.backend_start_ms, backend_end_ms) {
                    (Some(start), Some(end)) => if end >= start {
                        MeasuredDuration { duration_ms: end - start, source: TimingSource::Backend }
                    } else {
                        MeasuredDuration {
                            duration_ms: at.monotonic_ms.saturating_sub(active.observed_start.monotonic_ms),
                            source: TimingSource::ClientObserved,
                        }
                    },
                    _ => MeasuredDuration {
                        duration_ms: at.monotonic_ms.saturating_sub(active.observed_start.monotonic_ms),
                        source: TimingSource::ClientObserved,
                    },
                };
                Some(d)
            },
            None => None,
        };
        let rec = self.record(
            record_time,
            ExecutionEvent::Finished(OperationFinish { call_id: owned(call_id), outcome, duration, output_lines }),
        );
        let mut r: Vec<ExecutionRecord> = Vec::new();
        r.push(rec);
        proof {
            assert(records_view(r@) =~= seq![record_view(rec)]);
        }
        r
    }
}

fn one_record(r: ExecutionRecord) -> (v: Vec<ExecutionRecord>)
    ensures
        records_view(v@) == seq![record_view(r)],
{
    let mut v: Vec<ExecutionRecord> = Vec::new();
    v.push(r);
    proof {
        assert(records_view(v@) =~= seq![record_view(r)]);
    }
    v
}

fn two_records(a: ExecutionRecord, b: ExecutionRecord) -> (v: Vec<ExecutionRecord>)
    ensures
        records_view(v@) == seq![record_view(a), record_view(b)],
{
    let mut v: Vec<ExecutionRecord> = Vec::new();
    v.push(a);
    v.push(b);
    proof {
        assert(records_view(v@) =~= seq![record_view(a), record_view(b)]);
    }
    v
}

fn no_records() -> (v: Vec<ExecutionRecord>)
    ensures
        records_view(v@) == Seq::<RecordView>::empty(),
{
    let v: Vec<ExecutionRecord> = Vec::new();
    proof {
        assert(records_view(v@) =~= Seq::<RecordView>::empty());
    }
    v
}

fn step_prefix_string(turn: Option<u64>, step: Option<u64>) -> (r: String)
    ensures
        r@ == step_prefix(turn, step),
{
    let mut r = owned("model:");
    push_decimal(&mut r, match turn {
        Some(t) => t,
        None => 0,
    });
    push_str(&mut r, ":");
    push_decimal(&mut r, match step {
        Some(t) => t,
        None => 0,
    });
    push_str(&mut r, ":");
    proof {
        assert(r@ =~= step_prefix(turn, step));
    }
    r
}

impl ExecutionCapture {
    fn observe_fact(&mut self, fact: &TimelineFact, backend_time: Option<u64>, at: ObservedAt) -> (r: Vec<ExecutionRecord>)
        ensures
            (final(self).model(), records_view(r@)) == fact_step(old(self).model(), *fact, backend_time, at),
    {
        let record_time = match backend_time {
            Some(t) => t,
            None => at.wall_unix_ms,
        };
        match fact {
            TimelineFact::UserMessage { .. } => {
                if self.current_turn.is_none() {
                    let turn_id = self.begin_turn();
                    let r1 = self.record(record_time, ExecutionEvent::TurnStarted { turn_id });
                    let r2 = self.message(record_time, HistoryMessageKind::User);
                    two_records(r1, r2)
                } else {
                    let r = self.message(record_time, HistoryMessageKind::User);
                    one_record(r)
                }
            },
            TimelineFact::TurnStart => {
                if self.current_turn.is_some() {
                    no_records()
                } else {
                    let turn_id = self.begin_turn();
                    let r = self.record(record_time, ExecutionEvent::TurnStarted { turn_id });
                    one_record(r)
                }
            },
            TimelineFact::TurnEnd { error_message, .. } => {
                let turn_id = match &self.current_turn {
                    Some(t) => t.clone(),
                    None => owned("turn-unknown"),
                };
                let outcome = if error_message.is_some() {
                    ExecutionOutcome::Failure
                } else {
                    ExecutionOutcome::Success
                };
                let r1 = self.message(record_time, HistoryMessageKind::AgentStop);
                let r2 = self.record(record_time, ExecutionEvent::TurnFinished { turn_id, outcome });
                self.current_turn = None;
                self.pending_usage = None;
                self.pending_cost_usd_nanos = None;
                two_records(r1, r2)
            },
            TimelineFact::UsageCost { usd_nanos } => {
                self.pending_cost_usd_nanos = Some(*usd_nanos);
                no_records()
            },
            TimelineFact::AssistantChunk { usage, .. } => {
                match usage {
                    Some(u) => {
                        self.pending_usage = Some(TokenUsageRecord::from_usage(*u));
                    },
                    None => {},
                }
                no_records()
            },
            TimelineFact::AssistantMessage { usage, .. } => {
                let r1 = self.message(record_time, HistoryMessageKind::Assistant);
                let cost = self.pending_cost_usd_nanos;
                let u = match usage {
                    Some(x) => Some(TokenUsageRecord::from_usage(*x)),
                    None => self.pending_usage,
                };
                self.pending_cost_usd_nanos = None;
                self.pending_usage = None;
                match u {
                    Some(x) => {
                        let turn_id = crate::text::copy_opt_string(&self.current_turn);
                        let model = copy_opt_model(&self.current_model);
                        let r2 = self.record(
                            record_time,
                            ExecutionEvent::UsageRecorded { turn_id, model, usage: x, cost_usd_nanos: cost },
                        );
                        two_records(r1, r2)
                    },
                    None => one_record(r1),
                }
            },
            TimelineFact::ToolCall(activity) => {
                let turn = crate::text::copy_opt_string(&self.current_turn);
                let operation = OperationStart::from_tool(activity, turn, None);
                self.start(operation, backend_time, at, record_time)
            },
            TimelineFact::ToolResult { activity_id, output, state, output_truncated, .. } => {
                let outcome = match state {
                    ActivityState::Failure => ExecutionOutcome::Failure,
                    ActivityState::Cancelled => ExecutionOutcome::Cancelled,
                    _ => ExecutionOutcome::Success,
                };
                let lines = ObservedOutputLines::from_output(output.as_str(), *output_truncated);
                self.finish(activity_id.as_str(), outcome, Some(lines), backend_time, at, record_time)
            },
            TimelineFact::StepStart { turn, step } => {
                let mut call_id = step_prefix_string(*turn, *step);
                push_decimal(&mut call_id, self.next_model);
                self.next_model = self.next_model.saturating_add(1);
                let turn_id = match &self.current_turn {
                    Some(t) => Some(t.clone()),
                    None => match turn {
                        Some(t) => {
                            let mut name = owned("turn-");
                            push_decimal(&mut name, *t);
                            proof {
                                reveal_strlit("turn-");
                            }
                            Some(name)
                        },
                        None => None,
                    },
                };
                let ghost before = self.active_models@;
                self.active_models.push(call_id.clone());
                proof {
                    assert(strs_view(self.active_models@) =~= strs_view(before).push(call_id@));
                }
                let operation = OperationStart {
                    call_id,
                    turn_id,
                    parent_id: None,
                    kind: OperationKind::Model,
                    name: owned("model"),
                    summary: OperationSummary::Identity,
                };
                self.start(operation, backend_time, at, record_time)
            },
            TimelineFact::StepEnd { turn, step } => {
                let prefix = step_prefix_string(*turn, *step);
                let p = crate::text::chars_of(prefix.as_str());
                let ghost ids = strs_view(self.active_models@);
                let mut n = self.active_models.len();
                proof {
                    assert(ids.take(n as int) =~= ids);
                }
                while n > 0 && !crate::text::starts_with(
                    crate::text::chars_of(self.active_models[n - 1].as_str()).as_slice(),
                    p.as_slice(),
                )
                    invariant
                        n <= self.active_models@.len(),
                        ids == strs_view(self.active_models@),
                        p@ == prefix@,
                        last_with_prefix(ids, prefix@) == last_with_prefix(ids.take(n as int), prefix@),
                    decreases n,
                {
                    proof {
                        assert(ids.take(n as int).drop_last() =~= ids.take(n - 1));
                        assert(ids.take(n as int).last() == self.active_models@[n - 1]@);
                    }
                    n = n - 1;
                }
                if n == 0 {
                    proof {
                        assert(ids.take(0) =~= Seq::<Seq<char>>::empty());
                    }
                    no_records()
                } else {
                    proof {
                        assert(ids.take(n as int).last() == self.active_models@[n - 1]@);
                        assert(ids.take(n as int).len() == n);
                    }
                    let ghost before = self.active_models@;
                    let id = self.active_models.remove(n - 1);
                    proof {
                        assert(strs_view(self.active_models@) =~= strs_view(before).remove(n - 1));
                    }
                    self.finish(id.as_str(), ExecutionOutcome::Success, None, backend_time, at, record_time)
                }
            },
            TimelineFact::CommandStarted { id, name, args } => {
                let summary = match args {
                    Some(a) => OperationSummary::Command { command: a.clone() },
                    None => OperationSummary::Identity,
                };
                let operation = OperationStart {
                    call_id: id.clone(),
                    turn_id: crate::text::copy_opt_string(&self.current_turn),
                    parent_id: None,
                    kind: OperationKind::Command,
                    name: name.clone(),
                    summary,
                };
                self.start(operation, backend_time, at, record_time)
            },
            TimelineFact::CommandFinished { id, success, .. } => {
                let outcome = if *success {
                    ExecutionOutcome::Success
                } else {
                    ExecutionOutcome::Failure
                };
                self.finish(id.as_str(), outcome, None, backend_time, at, record_time)
            },
            _ => no_records(),
        }
    }

    /// Capture the execution records one agent event implies.
    pub fn observe(&mut self, event: &AgentEvent, at: ObservedAt) -> (r: Vec<ExecutionRecord>)
        ensures
            (final(self).model(), records_view(r@)) == observe_step(old(self).model(), *event, at),
    {
        match event {
            AgentEvent::Catalog(CatalogEvent::Models { current, .. }) => match current {
                Some(c) => {
                    let same = match &self.current_model {
                        Some(m) => str_eq(m.provider.as_str(), c.provider.as_str()) && str_eq(
                            m.model.as_str(),
                            c.model.as_str(),
                        ),
                        None => false,
                    };
                    if same {
                        no_records()
                    } else {
                        self.current_model = Some(
                            ModelIdentity { provider: c.provider.clone(), model: c.model.clone() },
                        );
                        let model = ModelIdentity { provider: c.provider.clone(), model: c.model.clone() };
                        let r = self.record(at.wall_unix_ms, ExecutionEvent::ModelSelected { model });
                        one_record(r)
                    }
                },
                None => no_records(),
            },
            AgentEvent::Timeline(TimelineEvent::Append(record)) => self.observe_fact(&record.fact, record.time_ms, at),
            _ => no_records(),
        }
    }
}

// ---------- native history enrichment ----------

/// What a finished call contributes to a tool result's metrics.
pub open spec fn call_metrics(c: CallView) -> ToolExecutionMetrics {
    let f = c.finish.unwrap();
    ToolExecutionMetrics {
        duration_ms: match f.duration {
            Some(d) => Some(d.duration_ms),
            None => None,
        },
        output_lines: match f.output_lines {
            Some(l) => Some(l.count),
            None => None,
        },
        output_lines_truncated: match f.output_lines {
            Some(l) => l.truncated,
            None => false,
        },
        started_unix_ms: Some(c.start_unix_ms),
        ended_unix_ms: c.end_unix_ms,
    }
}

/// `(call id, metrics)` for every finished call, in call order.
pub open spec fn metric_entries(calls: Seq<CallView>) -> Seq<(Seq<char>, ToolExecutionMetrics)>
    decreases calls.len(),
{
    if calls.len() == 0 {
        Seq::empty()
    } else {
        let rest = metric_entries(calls.drop_last());
        let c = calls.last();
        if c.finish is Some {
            rest.push((c.operation.call_id, call_metrics(c)))
        } else {
            rest
        }
    }
}

pub open spec fn metric_entries_view(v: Seq<(String, ToolExecutionMetrics)>) -> Seq<(Seq<char>, ToolExecutionMetrics)> {
    v.map_values(|e: (String, ToolExecutionMetrics)| (e.0@, e.1))
}

/// The metrics recorded last for a call id.
pub open spec fn metrics_for(entries: Seq<(Seq<char>, ToolExecutionMetrics)>, id: Seq<char>) -> Option<ToolExecutionMetrics>
    decreases entries.len(),
{
    if entries.len() == 0 {
        None
    } else if entries.last().0 == id {
        Some(entries.last().1)
    } else {
        metrics_for(entries.drop_last(), id)
    }
}

/// Per-call metrics from a trace, for enriching native history.
pub fn trace_tool_metrics(records: &[ExecutionRecord]) -> (r: Vec<(String, ToolExecutionMetrics)>)
    ensures
        metric_entries_view(r@) == metric_entries(calls_of(records@)),
{
    let calls = calls_from_records(records);
    let ghost cv = calls_view(calls@);
    let mut out: Vec<(String, ToolExecutionMetrics)> = Vec::new();
    let mut i: usize = 0;
    while i < calls.len()
        invariant
            i <= calls@.len(),
            cv == calls_view(calls@),
            metric_entries_view(out@) == metric_entries(cv.take(i as int)),
        decreases calls.len() - i,
    {
        proof {
            assert(cv.take(i + 1).drop_last() =~= cv.take(i as int));
            assert(cv.take(i + 1).last() == crate::execution_history::call_view(calls@[i as int]));
        }
        let call = &calls[i];
        match &call.finish {
            Some(f) => {
                let m = ToolExecutionMetrics {
                    duration_ms: match f.duration {
                        Some(d) => Some(d.duration_ms),
                        None => None,
                    },
                    output_lines: match f.output_lines {
                        Some(l) => Some(l.count),
                        None => None,
                    },
                    output_lines_truncated: match f.output_lines {
                        Some(l) => l.truncated,
                        None => false,
                    },
                    started_unix_ms: Some(call.start_unix_ms),
                    ended_unix_ms: call.end_unix_ms,
                };
                let ghost before = out@;
                out.push((call.operation.call_id.clone(), m));
                proof {
                    assert(metric_entries_view(out@) =~= metric_entries_view(before).push(
                        (call.operation.call_id@, m),
                    ));
                }
            },
            None => {},
        }
        i = i + 1;
    }
    proof {
        assert(cv.take(i as int) =~= cv);
    }
    out
}

/// Metrics a native tool result gets: the trace's for its call, else only
/// the line count of the output it carries.
pub open spec fn result_metrics(entries: Seq<(Seq<char>, ToolExecutionMetrics)>, id: Seq<char>, output: Seq<char>, truncated: bool) -> ToolExecutionMetrics {
    match metrics_for(entries, id) {
        Some(m) => m,
        None => ToolExecutionMetrics {
            duration_ms: None,
            output_lines: Some(line_count(output) as usize),
            output_lines_truncated: truncated,
            started_unix_ms: None,
            ended_unix_ms: None,
        },
    }
}

pub open spec fn enriched_record(r: TimelineRecord, entries: Seq<(Seq<char>, ToolExecutionMetrics)>) -> TimelineRecord {
    match r.fact {
        TimelineFact::ToolResult {
            activity_id,
            output,
            state,
            output_truncated,
            execution_metrics,
            starts_thinking,
            mutation_diff,
            mutation_hunks,
        } => TimelineRecord {
            fact: TimelineFact::ToolResult {
                activity_id,
                output,
                state,
                output_truncated,
                execution_metrics: Some(result_metrics(entries, activity_id@, output@, output_truncated)),
                starts_thinking,
                mutation_diff,
                mutation_hunks,
            },
            ..r
        },
        _ => r,
    }
}

fn lookup_metrics(entries: &[(String, ToolExecutionMetrics)], id: &str) -> (r: Option<ToolExecutionMetrics>)
    ensures
        r == metrics_for(metric_entries_view(entries@), id@),
{
    let ghost ev = metric_entries_view(entries@);
    let mut n = entries.len();
    proof {
        assert(ev.take(n as int) =~= ev);
    }
    while n > 0
        invariant
            n <= entries@.len(),
            ev == metric_entries_view(entries@),
            metrics_for(ev, id@) == metrics_for(ev.take(n as int), id@),
        decreases n,
    {
        proof {
            assert(ev.take(n as int).drop_last() =~= ev.take(n - 1));
            assert(ev.take(n as int).last() == (entries@[n - 1].0@, entries@[n - 1].1));
        }
        if str_eq(entries[n - 1].0.as_str(), id) {
            return Some(entries[n - 1].1);
        }
        n = n - 1;
    }
    None
}

fn enrich_record(record: TimelineRecord, entries: &[(String, ToolExecutionMetrics)]) -> (r: TimelineRecord)
    ensures
        r == enriched_record(record, metric_entries_view(entries@)),
{
    let TimelineRecord { sequence, time_ms, surface, source_sequences, fact } = record;
    let fact = match fact {
        TimelineFact::ToolResult {
            activity_id,
            output,
            state,
            output_truncated,
            execution_metrics,
            starts_thinking,
            mutation_diff,
            mutation_hunks,
        } => {
            let m = match lookup_metrics(entries, activity_id.as_str()) {
                Some(m) => m,
                None => {
                    let observed = ObservedOutputLines::from_output(output.as_str(), output_truncated);
                    ToolExecutionMetrics {
                        duration_ms: None,
                        output_lines: Some(observed.count),
                        output_lines_truncated: observed.truncated,
                        started_unix_ms: None,
                        ended_unix_ms: None,
                    }
                },
            };
            TimelineFact::ToolResult {
                activity_id,
                output,
                state,
                output_truncated,
                execution_metrics: Some(m),
                starts_thinking,
                mutation_diff,
                mutation_hunks,
            }
        },
        other => other,
    };
    TimelineRecord { sequence, time_ms, surface, source_sequences, fact }
}

fn enrich_records(records: Vec<TimelineRecord>, entries: &[(String, ToolExecutionMetrics)]) -> (r: Vec<TimelineRecord>)
    ensures
        r@.len() == records@.len(),
        forall|k: int| 0 <= k < r@.len() ==> #[trigger] r@[k] == enriched_record(records@[k], metric_entries_view(entries@)),
{
    let ghost all = records@;
    let mut rest = records;
    let mut reversed: Vec<TimelineRecord> = Vec::new();
    while rest.len() > 0
        invariant
            rest@ == all.take(rest@.len() as int),
            reversed@.len() + rest@.len() == all.len(),
            forall|k: int| 0 <= k < reversed@.len() ==> #[trigger] reversed@[k] == all[all.len() - 1 - k],
        decreases rest.len(),
    {
        let ghost n = rest@.len() as int;
        let r = rest.pop().unwrap();
        proof {
            assert(all.take(n - 1) =~= all.take(n).drop_last());
        }
        reversed.push(r);
    }
    let mut out: Vec<TimelineRecord> = Vec::new();
    while reversed.len() > 0
        invariant
            reversed@.len() + out@.len() == all.len(),
            forall|k: int| 0 <= k < reversed@.len() ==> #[trigger] reversed@[k] == all[all.len() - 1 - k],
            forall|k: int| 0 <= k < out@.len() ==> #[trigger] out@[k] == enriched_record(all[k], metric_entries_view(entries@)),
        decreases reversed.len(),
    {
        let r = reversed.pop().unwrap();
        out.push(enrich_record(r, entries));
    }
    out
}

/// Fill the metrics of every tool result in a native snapshot or history
/// page from the trace; other events are left alone.
pub fn enrich_historical_tool_metrics(event: &mut AgentEvent, trace_metrics: &[(String, ToolExecutionMetrics)])
    ensures
        match *old(event) {
            AgentEvent::Timeline(TimelineEvent::Snapshot { records, truncated }) => *final(event) matches AgentEvent::Timeline(TimelineEvent::Snapshot { records: r, truncated: t })
                && t == truncated && r@.len() == records@.len() && forall|k: int| 0 <= k < r@.len() ==> #[trigger] r@[k] == enriched_record(records@[k], metric_entries_view(trace_metrics@)),
            AgentEvent::Timeline(TimelineEvent::History { records, has_more }) => *final(event) matches AgentEvent::Timeline(TimelineEvent::History { records: r, has_more: h })
                && h == has_more && r@.len() == records@.len() && forall|k: int| 0 <= k < r@.len() ==> #[trigger] r@[k] == enriched_record(records@[k], metric_entries_view(trace_metrics@)),
            _ => *final(event) == *old(event),
        },
{
    match event {
        AgentEvent::Timeline(TimelineEvent::Snapshot { records, .. }) => {
            let mut taken: Vec<TimelineRecord> = Vec::new();
            std::mem::swap(&mut taken, records);
            *records = enrich_records(taken, trace_metrics);
        },
        AgentEvent::Timeline(TimelineEvent::History { records, .. }) => {
            let mut taken: Vec<TimelineRecord> = Vec::new();
            std::mem::swap(&mut taken, records);
            *records = enrich_records(taken, trace_metrics);
        },
        _ => {},
    }
}


/// Whether records `rs`, taken from `m` to `m2`, carry the capture's run id
/// and the next consecutive sequence numbers.
pub open spec fn numbered(m: CaptureModel, m2: CaptureModel, rs: Seq<RecordView>) -> bool {
    &&& m2.run_id == m.run_id
    &&& m2.next_sequence == m.next_sequence + rs.len()
    &&& forall|k: int| 0 <= k < rs.len() ==> (#[trigger] rs[k]).sequence == m.next_sequence + k && rs[k].run_id == m.run_id
}

/// Every record a capture hands out carries its run id and the next
/// sequence number, consecutively, as long as the numbers do not run out.
pub proof fn observed_records_are_numbered(m: CaptureModel, event: AgentEvent, at: ObservedAt)
    requires
        m.next_sequence + observe_step(m, event, at).1.len() <= u64::MAX,
    ensures
        numbered(m, observe_step(m, event, at).0, observe_step(m, event, at).1),
{
}

/// An attach or detach record takes the next sequence number.
pub proof fn single_records_are_numbered(m: CaptureModel, time: u64, ev: EventView)
    requires
        m.next_sequence < u64::MAX,
    ensures
        numbered(m, record_step(m, time, ev).0, seq![record_step(m, time, ev).1]),
{
}

} // verus!
