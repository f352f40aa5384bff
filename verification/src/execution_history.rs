//! Output-free execution values and pure inspection policy. Adapters own
//! clocks and storage.
use vstd::prelude::*;

use crate::sorting::{insert_position, insert_sorted, insertion_sorted};
use crate::text::{
    chars_of, copy_opt_string, copy_strings, decimal, opt_view, owned, push_decimal, push_str,
    strs_view,
};

verus! {

pub const TRACE_VERSION: u32 = 1;

#[derive(Debug, Clone, PartialEq, Eq)]
pub struct TraceIdentity {
    pub frontend: String,
    pub session_id: String,
    pub cwd: String,
}

#[derive(Debug, Clone, Copy, PartialEq, Eq, Structural)]
pub enum OperationKind {
    Model,
    Read,
    Edit,
    Command,
    Search,
    Other,
}

#[derive(Debug, Clone, Copy, PartialEq, Eq, Structural)]
pub enum TimingSource {
    Backend,
    ClientObserved,
}

#[derive(Debug, Clone, Copy, PartialEq, Eq, Structural)]
pub struct MeasuredDuration {
    pub duration_ms: u64,
    pub source: TimingSource,
}

#[derive(Debug, Clone, Copy, PartialEq, Eq, Structural)]
pub enum ExecutionOutcome {
    Success,
    Failure,
    Cancelled,
}

/// Counts the observed normalized result, never requested read limits or a
/// file's size.
#[derive(Debug, Clone, Copy, PartialEq, Eq, Structural)]
pub struct ObservedOutputLines {
    pub count: usize,
    pub truncated: bool,
}

/// Newline characters in `s`.
pub open spec fn newlines(s: Seq<char>) -> nat
    decreases s.len(),
{
    if s.len() == 0 {
        0
    } else {
        newlines(s.drop_last()) + if s.last() == '\n' {
            1nat
        } else {
            0nat
        }
    }
}

/// The number of lines `str::lines` yields: one per newline, plus an
/// unterminated last line.
pub open spec fn line_count(s: Seq<char>) -> nat {
    newlines(s) + if s.len() > 0 && s.last() != '\n' {
        1nat
    } else {
        0nat
    }
}

impl ObservedOutputLines {
    pub fn from_output(output: &str, truncated: bool) -> (r: ObservedOutputLines)
        ensures
            r.count == line_count(output@),
            r.truncated == truncated,
    {
        let v = chars_of(output);
        let mut count: usize = 0;
        let mut i: usize = 0;
        while i < v.len()
            invariant
                i <= v@.len(),
                count == newlines(v@.take(i as int)),
                count <= i,
                i > 0 && v@[i - 1] != '\n' ==> count < i,
            decreases v.len() - i,
        {
            proof {
                assert(v@.take(i + 1).drop_last() =~= v@.take(i as int));
            }
            if v[i] == '\n' {
                count = count + 1;
            }
            i = i + 1;
        }
        proof {
            assert(v@.take(i as int) =~= v@);
        }
        if v.len() > 0 && v[v.len() - 1] != '\n' {
            count = count + 1;
        }
        ObservedOutputLines { count, truncated }
    }
}

#[derive(Debug, Clone, PartialEq, Eq)]
pub enum OperationSummary {
    Identity,
    Command { command: String },
    Paths { paths: Vec<String> },
    Search { query: String, path: Option<String> },
}

#[derive(Debug, Clone, PartialEq, Eq)]
pub struct OperationStart {
    pub call_id: String,
    pub turn_id: Option<String>,
    pub parent_id: Option<String>,
    pub kind: OperationKind,
    pub name: String,
    pub summary: OperationSummary,
}

#[derive(Debug, Clone, PartialEq, Eq)]
pub struct OperationFinish {
    pub call_id: String,
    pub outcome: ExecutionOutcome,
    pub duration: Option<MeasuredDuration>,
    pub output_lines: Option<ObservedOutputLines>,
}

/// Which side of the conversation a message record notes.
#[derive(Debug, Clone, Copy, PartialEq, Eq, Structural)]
pub enum HistoryMessageKind {
    User,
    Assistant,
    AgentStop,
}

/// The provider/model route a record was made under.
#[derive(Debug, Clone, PartialEq, Eq)]
pub struct ModelIdentity {
    pub provider: String,
    pub model: String,
}

/// Token counts reported for one assistant message.
#[derive(Debug, Clone, Copy, PartialEq, Eq, Structural)]
pub struct TokenUsageRecord {
    pub input_tokens: u64,
    pub output_tokens: u64,
    pub cache_read_tokens: u64,
    pub cache_write_tokens: u64,
}

#[derive(Debug, Clone, PartialEq, Eq)]
pub enum ExecutionEvent {
    Attached,
    Detached,
    TurnStarted { turn_id: String },
    TurnFinished { turn_id: String, outcome: ExecutionOutcome },
    Started(OperationStart),
    Finished(OperationFinish),
    ModelSelected { model: ModelIdentity },
    MessageObserved {
        turn_id: Option<String>,
        kind: HistoryMessageKind,
        model: Option<ModelIdentity>,
    },
    UsageRecorded {
        turn_id: Option<String>,
        model: Option<ModelIdentity>,
        usage: TokenUsageRecord,
        cost_usd_nanos: Option<u64>,
    },
}

#[derive(Debug, Clone, PartialEq, Eq)]
pub struct ExecutionRecord {
    pub sequence: u64,
    pub run_id: String,
    pub time_unix_ms: u64,
    pub event: ExecutionEvent,
}

#[derive(Debug, Clone, PartialEq, Eq)]
pub enum TraceLine {
    Header { version: u32, identity: TraceIdentity },
    Event { record: ExecutionRecord },
}

#[derive(Debug, Clone, PartialEq, Eq)]
pub struct ExecutionCall {
    pub sequence: u64,
    pub run_id: String,
    pub start_unix_ms: u64,
    pub end_unix_ms: Option<u64>,
    pub operation: OperationStart,
    pub finish: Option<OperationFinish>,
}

// ---------- values by content ----------

pub enum SummaryView {
    Identity,
    Command(Seq<char>),
    Paths(Seq<Seq<char>>),
    Search(Seq<char>, Option<Seq<char>>),
}

pub open spec fn summary_view(s: OperationSummary) -> SummaryView {
    match s {
        OperationSummary::Identity => SummaryView::Identity,
        OperationSummary::Command { command } => SummaryView::Command(command@),
        OperationSummary::Paths { paths } => SummaryView::Paths(strs_view(paths@)),
        OperationSummary::Search { query, path } => SummaryView::Search(query@, opt_view(path)),
    }
}

pub struct StartView {
    pub call_id: Seq<char>,
    pub turn_id: Option<Seq<char>>,
    pub parent_id: Option<Seq<char>>,
    pub kind: OperationKind,
    pub name: Seq<char>,
    pub summary: SummaryView,
}

pub open spec fn start_view(op: OperationStart) -> StartView {
    StartView {
        call_id: op.call_id@,
        turn_id: opt_view(op.turn_id),
        parent_id: opt_view(op.parent_id),
        kind: op.kind,
        name: op.name@,
        summary: summary_view(op.summary),
    }
}

pub struct FinishView {
    pub call_id: Seq<char>,
    pub outcome: ExecutionOutcome,
    pub duration: Option<MeasuredDuration>,
    pub output_lines: Option<ObservedOutputLines>,
}

pub open spec fn finish_view(f: OperationFinish) -> FinishView {
    FinishView {
        call_id: f.call_id@,
        outcome: f.outcome,
        duration: f.duration,
        output_lines: f.output_lines,
    }
}

pub open spec fn opt_finish_view(f: Option<OperationFinish>) -> Option<FinishView> {
    match f {
        Some(x) => Some(finish_view(x)),
        None => None,
    }
}

pub struct CallView {
    pub sequence: u64,
    pub run_id: Seq<char>,
    pub start_unix_ms: u64,
    pub end_unix_ms: Option<u64>,
    pub operation: StartView,
    pub finish: Option<FinishView>,
}

pub open spec fn call_view(c: ExecutionCall) -> CallView {
    CallView {
        sequence: c.sequence,
        run_id: c.run_id@,
        start_unix_ms: c.start_unix_ms,
        end_unix_ms: c.end_unix_ms,
        operation: start_view(c.operation),
        finish: opt_finish_view(c.finish),
    }
}

pub open spec fn calls_view(s: Seq<ExecutionCall>) -> Seq<CallView> {
    s.map_values(|c: ExecutionCall| call_view(c))
}

pub fn copy_summary(s: &OperationSummary) -> (r: OperationSummary)
    ensures
        summary_view(r) == summary_view(*s),
{
    match s {
        OperationSummary::Identity => OperationSummary::Identity,
        OperationSummary::Command { command } => OperationSummary::Command { command: command.clone() },
        OperationSummary::Paths { paths } => OperationSummary::Paths { paths: copy_strings(paths) },
        OperationSummary::Search { query, path } => OperationSummary::Search {
            query: query.clone(),
            path: copy_opt_string(path),
        },
    }
}

pub fn copy_start(op: &OperationStart) -> (r: OperationStart)
    ensures
        start_view(r) == start_view(*op),
{
    OperationStart {
        call_id: op.call_id.clone(),
        turn_id: copy_opt_string(&op.turn_id),
        parent_id: copy_opt_string(&op.parent_id),
        kind: op.kind,
        name: op.name.clone(),
        summary: copy_summary(&op.summary),
    }
}

pub fn copy_finish(f: &OperationFinish) -> (r: OperationFinish)
    ensures
        finish_view(r) == finish_view(*f),
{
    OperationFinish {
        call_id: f.call_id.clone(),
        outcome: f.outcome,
        duration: f.duration,
        output_lines: f.output_lines,
    }
}

// ---------- ranking ----------

/// The measured duration of a terminal call.
pub open spec fn measured_ms(c: CallView) -> Option<u64> {
    match c.finish {
        Some(f) => match f.duration {
            Some(d) => Some(d.duration_ms),
            None => None,
        },
        None => None,
    }
}

/// Terminal, individually measured calls, in order.
pub open spec fn measured_calls(s: Seq<CallView>) -> Seq<CallView>
    decreases s.len(),
{
    if s.len() == 0 {
        s
    } else if measured_ms(s.last()) is Some {
        measured_calls(s.drop_last()).push(s.last())
    } else {
        measured_calls(s.drop_last())
    }
}

/// Longest first; equal durations by sequence.
pub open spec fn ranks_after(a: CallView, b: CallView) -> bool {
    measured_ms(a).unwrap() < measured_ms(b).unwrap() || (measured_ms(a).unwrap() == measured_ms(
        b,
    ).unwrap() && a.sequence > b.sequence)
}

pub open spec fn by_duration() -> spec_fn(CallView, CallView) -> bool {
    |a: CallView, b: CallView| ranks_after(a, b)
}

/// The `limit` longest measured calls.
pub open spec fn longest_of(calls: Seq<CallView>, limit: nat) -> Seq<CallView> {
    let ranked = insertion_sorted(measured_calls(calls), by_duration());
    if limit < ranked.len() {
        ranked.take(limit as int)
    } else {
        ranked
    }
}

fn measured(call: &ExecutionCall) -> (r: Option<u64>)
    ensures
        r == measured_ms(call_view(*call)),
{
    match &call.finish {
        Some(f) => match f.duration {
            Some(d) => Some(d.duration_ms),
            None => None,
        },
        None => None,
    }
}

fn call_after(a: &ExecutionCall, b: &ExecutionCall) -> (r: bool)
    requires
        measured_ms(call_view(*a)) is Some,
        measured_ms(call_view(*b)) is Some,
    ensures
        r == ranks_after(call_view(*a), call_view(*b)),
{
    let da = measured(a).unwrap();
    let db = measured(b).unwrap();
    da < db || (da == db && a.sequence > b.sequence)
}

fn insert_by_duration<'a>(v: &mut Vec<&'a ExecutionCall>, x: &'a ExecutionCall)
    requires
        measured_ms(call_view(*x)) is Some,
        forall|k: int| 0 <= k < old(v)@.len() ==> measured_ms(call_view(*#[trigger] old(v)@[k])) is Some,
    ensures
        refs_view(final(v)@) == insert_sorted(refs_view(old(v)@), call_view(*x), by_duration()),
        forall|k: int| 0 <= k < final(v)@.len() ==> measured_ms(call_view(*#[trigger] final(v)@[k])) is Some,
{
    let ghost s = refs_view(v@);
    let ghost xv = call_view(*x);
    let mut p: usize = 0;
    proof {
        assert(s.skip(0) =~= s);
    }
    while p < v.len() && !call_after(v[p], x)
        invariant
            p <= v@.len(),
            s == refs_view(v@),
            xv == call_view(*x),
            measured_ms(xv) is Some,
            forall|k: int| 0 <= k < v@.len() ==> measured_ms(call_view(*#[trigger] v@[k])) is Some,
            insert_position(s, xv, by_duration()) == p + insert_position(s.skip(p as int), xv, by_duration()),
        decreases v.len() - p,
    {
        proof {
            assert(s.skip(p as int)[0] == call_view(*v@[p as int]));
            assert(s.skip(p as int).drop_first() =~= s.skip(p + 1));
        }
        p = p + 1;
    }
    proof {
        if p < v@.len() {
            assert(s.skip(p as int)[0] == call_view(*v@[p as int]));
        }
    }
    v.insert(p, x);
    proof {
        assert(refs_view(v@) =~= s.insert(p as int, xv));
    }
}

pub open spec fn refs_view(s: Seq<&ExecutionCall>) -> Seq<CallView> {
    s.map_values(|c: &ExecutionCall| call_view(*c))
}

/// Only terminal, individually measured calls qualify; zero is a
/// measurement. Longest first, ties by sequence, at most `limit`.
pub fn longest_calls(calls: &[ExecutionCall], limit: usize) -> (r: Vec<&ExecutionCall>)
    ensures
        refs_view(r@) == longest_of(calls_view(calls@), limit as nat),
{
    let mut ranked: Vec<&ExecutionCall> = Vec::new();
    let mut i: usize = 0;
    while i < calls.len()
        invariant
            i <= calls@.len(),
            refs_view(ranked@) == insertion_sorted(measured_calls(calls_view(calls@.take(i as int))), by_duration()),
            forall|k: int| 0 <= k < ranked@.len() ==> measured_ms(call_view(*#[trigger] ranked@[k])) is Some,
        decreases calls.len() - i,
    {
        proof {
            assert(calls_view(calls@.take(i + 1)).drop_last() =~= calls_view(calls@.take(i as int)));
            assert(calls_view(calls@.take(i + 1)).last() == call_view(calls@[i as int]));
        }
        if measured(&calls[i]).is_some() {
            let ghost before = measured_calls(calls_view(calls@.take(i as int)));
            insert_by_duration(&mut ranked, &calls[i]);
            proof {
                assert(measured_calls(calls_view(calls@.take(i + 1))).drop_last() =~= before);
            }
        }
        i = i + 1;
    }
    proof {
        assert(calls@.take(i as int) =~= calls@);
        crate::sorting::lemma_insertion_sorted_permutes(measured_calls(calls_view(calls@)), by_duration());
    }
    let mut out: Vec<&ExecutionCall> = Vec::new();
    let mut j: usize = 0;
    while j < ranked.len() && j < limit
        invariant
            j <= ranked@.len(),
            j <= limit,
            out@ == ranked@.take(j as int),
        decreases ranked.len() - j,
    {
        out.push(ranked[j]);
        proof {
            assert(ranked@.take(j + 1) =~= ranked@.take(j as int).push(ranked@[j as int]));
        }
        j = j + 1;
    }
    proof {
        if limit < ranked@.len() {
            assert(refs_view(out@) =~= refs_view(ranked@).take(limit as int));
        } else {
            assert(out@ =~= ranked@);
        }
    }
    out
}


// ---------- reassembling calls ----------

pub open spec fn started_call(r: ExecutionRecord, op: OperationStart) -> CallView {
    CallView {
        sequence: r.sequence,
        run_id: r.run_id@,
        start_unix_ms: r.time_unix_ms,
        end_unix_ms: None,
        operation: start_view(op),
        finish: None,
    }
}

/// A finish whose start was never seen: an `unknown` operation that starts
/// where it ends.
pub open spec fn orphan_call(r: ExecutionRecord, f: OperationFinish) -> CallView {
    CallView {
        sequence: r.sequence,
        run_id: r.run_id@,
        start_unix_ms: r.time_unix_ms,
        end_unix_ms: None,
        operation: StartView {
            call_id: f.call_id@,
            turn_id: None,
            parent_id: None,
            kind: OperationKind::Other,
            name: "unknown"@,
            summary: SummaryView::Identity,
        },
        finish: None,
    }
}

pub open spec fn finished_call(c: CallView, r: ExecutionRecord, f: OperationFinish) -> CallView {
    CallView { end_unix_ms: Some(r.time_unix_ms), finish: Some(finish_view(f)), ..c }
}

/// The open call of a run with this call id.
pub open spec fn active_index(active: Seq<CallView>, run: Seq<char>, id: Seq<char>) -> Option<int>
    decreases active.len(),
{
    if active.len() == 0 {
        None
    } else if active[0].run_id == run && active[0].operation.call_id == id {
        Some(0)
    } else {
        match active_index(active.drop_first(), run, id) {
            Some(i) => Some(i + 1),
            None => None,
        }
    }
}

/// Finished calls in finish order, and calls still open, after `records`.
pub open spec fn fold_calls(records: Seq<ExecutionRecord>) -> (Seq<CallView>, Seq<CallView>)
    decreases records.len(),
{
    if records.len() == 0 {
        (Seq::empty(), Seq::empty())
    } else {
        let (done, active) = fold_calls(records.drop_last());
        let r = records.last();
        match r.event {
            ExecutionEvent::Started(op) => {
                let call = started_call(r, op);
                match active_index(active, r.run_id@, op.call_id@) {
                    Some(i) => (done, active.update(i, call)),
                    None => (done, active.push(call)),
                }
            },
            ExecutionEvent::Finished(f) => match active_index(active, r.run_id@, f.call_id@) {
                Some(i) => (done.push(finished_call(active[i], r, f)), active.remove(i)),
                None => (done.push(finished_call(orphan_call(r, f), r, f)), active),
            },
            _ => (done, active),
        }
    }
}

/// Earlier start first, then lower sequence.
pub open spec fn starts_after(a: CallView, b: CallView) -> bool {
    a.start_unix_ms > b.start_unix_ms || (a.start_unix_ms == b.start_unix_ms && a.sequence
        > b.sequence)
}

pub open spec fn by_start() -> spec_fn(CallView, CallView) -> bool {
    |a: CallView, b: CallView| starts_after(a, b)
}

/// Every call the records describe, in start order.
pub open spec fn calls_of(records: Seq<ExecutionRecord>) -> Seq<CallView> {
    insertion_sorted(fold_calls(records).0 + fold_calls(records).1, by_start())
}

fn find_active(active: &Vec<ExecutionCall>, run: &str, id: &str) -> (r: Option<usize>)
    ensures
        match r {
            Some(k) => active_index(calls_view(active@), run@, id@) == Some(k as int) && k
                < active@.len(),
            None => active_index(calls_view(active@), run@, id@) is None,
        },
{
    let ghost s = calls_view(active@);
    let mut i: usize = 0;
    proof {
        assert(s.skip(0) =~= s);
    }
    while i < active.len()
        invariant
            i <= active@.len(),
            s == calls_view(active@),
            active_index(s, run@, id@) == (match active_index(s.skip(i as int), run@, id@) {
                Some(j) => Some(j + i),
                None => None,
            }),
        decreases active.len() - i,
    {
        proof {
            assert(s.skip(i as int).drop_first() =~= s.skip(i + 1));
            assert(s.skip(i as int)[0] == call_view(active@[i as int]));
        }
        if crate::text::str_eq(active[i].run_id.as_str(), run) && crate::text::str_eq(
            active[i].operation.call_id.as_str(),
            id,
        ) {
            return Some(i);
        }
        i = i + 1;
    }
    None
}

fn insert_by_start(v: &mut Vec<ExecutionCall>, x: ExecutionCall)
    ensures
        calls_view(final(v)@) == insert_sorted(calls_view(old(v)@), call_view(x), by_start()),
{
    let ghost s = calls_view(v@);
    let ghost xv = call_view(x);
    let mut p: usize = 0;
    proof {
        assert(s.skip(0) =~= s);
    }
    while p < v.len() && !(v[p].start_unix_ms > x.start_unix_ms || (v[p].start_unix_ms
        == x.start_unix_ms && v[p].sequence > x.sequence))
        invariant
            p <= v@.len(),
            s == calls_view(v@),
            xv == call_view(x),
            insert_position(s, xv, by_start()) == p + insert_position(s.skip(p as int), xv, by_start()),
        decreases v.len() - p,
    {
        proof {
            assert(s.skip(p as int)[0] == call_view(v@[p as int]));
            assert(s.skip(p as int).drop_first() =~= s.skip(p + 1));
        }
        p = p + 1;
    }
    proof {
        if p < v@.len() {
            assert(s.skip(p as int)[0] == call_view(v@[p as int]));
        }
    }
    v.insert(p, x);
    proof {
        assert(calls_view(v@) =~= s.insert(p as int, xv));
    }
}

/// Pair start and finish records into calls, in start order. A start seen
/// twice for one run and call id replaces the earlier one; a finish without
/// a start becomes an `unknown` operation.
pub fn calls_from_records(records: &[ExecutionRecord]) -> (r: Vec<ExecutionCall>)
    ensures
        calls_view(r@) == calls_of(records@),
{
    let mut done: Vec<ExecutionCall> = Vec::new();
    let mut active: Vec<ExecutionCall> = Vec::new();
    let mut i: usize = 0;
    while i < records.len()
        invariant
            i <= records@.len(),
            (calls_view(done@), calls_view(active@)) == fold_calls(records@.take(i as int)),
        decreases records.len() - i,
    {
        let record = &records[i];
        proof {
            assert(records@.take(i + 1).drop_last() =~= records@.take(i as int));
            assert(records@.take(i + 1).last() == *record);
        }
        match &record.event {
            ExecutionEvent::Started(operation) => {
                let call = ExecutionCall {
                    sequence: record.sequence,
                    run_id: record.run_id.clone(),
                    start_unix_ms: record.time_unix_ms,
                    end_unix_ms: None,
                    operation: copy_start(operation),
                    finish: None,
                };
                let ghost before = active@;
                match find_active(&active, record.run_id.as_str(), operation.call_id.as_str()) {
                    Some(k) => {
                        active.set(k, call);
                        proof {
                            assert(calls_view(active@) =~= calls_view(before).update(k as int, call_view(call)));
                        }
                    },
                    None => {
                        active.push(call);
                        proof {
                            assert(calls_view(active@) =~= calls_view(before).push(call_view(call)));
                        }
                    },
                }
            },
            ExecutionEvent::Finished(finish) => {
                let ghost before_done = done@;
                let ghost before_active = active@;
                let mut call = match find_active(&active, record.run_id.as_str(), finish.call_id.as_str()) {
                    Some(k) => {
                        let c = active.remove(k);
                        proof {
                            assert(calls_view(active@) =~= calls_view(before_active).remove(k as int));
                        }
                        c
                    },
                    None => ExecutionCall {
                        sequence: record.sequence,
                        run_id: record.run_id.clone(),
                        start_unix_ms: record.time_unix_ms,
                        end_unix_ms: None,
                        operation: OperationStart {
                            call_id: finish.call_id.clone(),
                            turn_id: None,
                            parent_id: None,
                            kind: OperationKind::Other,
                            name: owned("unknown"),
                            summary: OperationSummary::Identity,
                        },
                        finish: None,
                    },
                };
                let ghost base = call_view(call);
                call.end_unix_ms = Some(record.time_unix_ms);
                call.finish = Some(copy_finish(finish));
                proof {
                    assert(call_view(call) == finished_call(base, *record, *finish));
                }
                done.push(call);
                proof {
                    assert(calls_view(done@) =~= calls_view(before_done).push(call_view(call)));
                }
            },
            _ => {},
        }
        i = i + 1;
    }
    proof {
        assert(records@.take(i as int) =~= records@);
    }
    let ghost all = calls_view(done@) + calls_view(active@);
    let mut result: Vec<ExecutionCall> = Vec::new();
    let mut pending = done;
    pending.append(&mut active);
    proof {
        assert(calls_view(pending@) =~= all);
    }
    let mut rest: Vec<ExecutionCall> = Vec::new();
    while pending.len() > 0
        invariant
            calls_view(rest@).len() + calls_view(pending@).len() == all.len(),
            calls_view(rest@) + calls_view(pending@).reverse() =~= all.reverse(),
        decreases pending.len(),
    {
        let ghost before_rest = rest@;
        let ghost before_pending = pending@;
        let c = pending.pop().unwrap();
        rest.push(c);
        proof {
            assert(calls_view(pending@) =~= calls_view(before_pending).drop_last());
            assert(calls_view(rest@) =~= calls_view(before_rest).push(call_view(c)));
            assert(calls_view(before_pending).reverse() =~= seq![call_view(c)] + calls_view(pending@).reverse());
        }
    }
    let mut taken: usize = 0;
    let total = rest.len();
    proof {
        assert(calls_view(rest@) =~= all.reverse());
    }
    while rest.len() > 0
        invariant
            rest@.len() + taken == total,
            total == all.len(),
            calls_view(rest@) == all.reverse().take(rest@.len() as int),
            calls_view(result@) == insertion_sorted(all.take(taken as int), by_start()),
        decreases rest.len(),
    {
        let ghost before = rest@;
        let c = rest.pop().unwrap();
        proof {
            assert(calls_view(rest@) =~= calls_view(before).drop_last());
            assert(calls_view(before).last() == call_view(c));
            assert(calls_view(before) == all.reverse().take(before.len() as int));
            assert(all.reverse().take(before.len() as int).last() == all.reverse()[before.len() - 1]);
            assert(call_view(c) == all[taken as int]);
            assert(all.take(taken + 1).drop_last() =~= all.take(taken as int));
            assert(all.reverse().take(rest@.len() as int) =~= all.reverse().take(before.len() as int).drop_last());
        }
        insert_by_start(&mut result, c);
        taken = taken + 1;
    }
    proof {
        assert(all.take(taken as int) =~= all);
    }
    result
}

// ---------- plain-text export ----------

/// Items separated by `", "`.
pub open spec fn comma_joined(items: Seq<Seq<char>>) -> Seq<char> {
    crate::debug_fmt::joined(items)
}

/// The one-line summary of an operation.
pub open spec fn summary_text_of(s: SummaryView) -> Seq<char> {
    match s {
        SummaryView::Identity => Seq::empty(),
        SummaryView::Command(c) => c,
        SummaryView::Paths(paths) => comma_joined(paths),
        SummaryView::Search(query, path) => match path {
            Some(p) => query + " at "@ + p,
            None => query,
        },
    }
}

pub open spec fn status_text(c: CallView) -> Seq<char> {
    match c.finish {
        Some(f) => match f.outcome {
            ExecutionOutcome::Success => "success"@,
            ExecutionOutcome::Failure => "failure"@,
            ExecutionOutcome::Cancelled => "cancelled"@,
        },
        None => "running"@,
    }
}

pub open spec fn duration_text(c: CallView) -> Seq<char> {
    match c.finish {
        Some(f) => match f.duration {
            Some(d) => decimal(d.duration_ms as nat) + "ms ("@ + match d.source {
                TimingSource::Backend => "Backend"@,
                TimingSource::ClientObserved => "ClientObserved"@,
            } + ")"@,
            None => "unknown"@,
        },
        None => "unknown"@,
    }
}

pub open spec fn lines_text(c: CallView) -> Seq<char> {
    match c.finish {
        Some(f) => match f.output_lines {
            Some(l) => decimal(l.count as nat) + if l.truncated {
                "+"@
            } else {
                ""@
            },
            None => "--"@,
        },
        None => "--"@,
    }
}

/// `START NAME SUMMARY[ -> END] | STATUS | DURATION | lines LINES`.
pub open spec fn call_line(c: CallView) -> Seq<char> {
    decimal(c.start_unix_ms as nat) + " "@ + c.operation.name + " "@ + summary_text_of(
        c.operation.summary,
    ) + match c.end_unix_ms {
        Some(end) => " -> "@ + decimal(end as nat),
        None => ""@,
    } + " | "@ + status_text(c) + " | "@ + duration_text(c) + " | lines "@ + lines_text(c)
        + "\n"@
}

pub open spec fn call_lines(calls: Seq<CallView>) -> Seq<char>
    decreases calls.len(),
{
    if calls.len() == 0 {
        Seq::empty()
    } else {
        call_lines(calls.drop_last()) + call_line(calls.last())
    }
}

pub open spec fn warning_lines(warnings: Seq<Seq<char>>) -> Seq<char>
    decreases warnings.len(),
{
    if warnings.len() == 0 {
        Seq::empty()
    } else {
        warning_lines(warnings.drop_last()) + "WARNING: "@ + warnings.last() + "\n"@
    }
}

/// The exported text: a title, the selected calls (or a note that none
/// qualify), then every warning.
pub open spec fn history_export(records: Seq<ExecutionRecord>, warnings: Seq<Seq<char>>, longest: Option<usize>) -> Seq<char> {
    let calls = calls_of(records);
    let selected = match longest {
        Some(limit) => longest_of(calls, limit as nat),
        None => calls,
    };
    "Execution history\n"@ + if selected.len() == 0 {
        "No eligible operations.\n"@
    } else {
        ""@
    } + call_lines(selected) + warning_lines(warnings)
}

fn summary_text(summary: &OperationSummary) -> (r: String)
    ensures
        r@ == summary_text_of(summary_view(*summary)),
{
    match summary {
        OperationSummary::Identity => String::new(),
        OperationSummary::Command { command } => command.clone(),
        OperationSummary::Paths { paths } => {
            let mut r = String::new();
            crate::debug_fmt::push_joined(&mut r, paths);
            proof {
                assert(r@ =~= comma_joined(strs_view(paths@)));
            }
            r
        },
        OperationSummary::Search { query, path } => match path {
            Some(p) => {
                let mut r = query.clone();
                push_str(&mut r, " at ");
                push_str(&mut r, p.as_str());
                r
            },
            None => query.clone(),
        },
    }
}

fn push_status(out: &mut String, call: &ExecutionCall)
    ensures
        final(out)@ == old(out)@ + status_text(call_view(*call)),
{
    match &call.finish {
        Some(f) => match f.outcome {
            ExecutionOutcome::Success => push_str(out, "success"),
            ExecutionOutcome::Failure => push_str(out, "failure"),
            ExecutionOutcome::Cancelled => push_str(out, "cancelled"),
        },
        None => push_str(out, "running"),
    }
}

fn push_duration(out: &mut String, call: &ExecutionCall)
    ensures
        final(out)@ == old(out)@ + duration_text(call_view(*call)),
{
    let ghost start = out@;
    let duration = match &call.finish {
        Some(f) => f.duration,
        None => None,
    };
    match duration {
        Some(d) => {
            push_decimal(out, d.duration_ms);
            push_str(out, "ms (");
            match d.source {
                TimingSource::Backend => push_str(out, "Backend"),
                TimingSource::ClientObserved => push_str(out, "ClientObserved"),
            }
            push_str(out, ")");
            proof {
                assert(out@ =~= start + duration_text(call_view(*call)));
            }
        },
        None => push_str(out, "unknown"),
    }
}

fn push_lines(out: &mut String, call: &ExecutionCall)
    ensures
        final(out)@ == old(out)@ + lines_text(call_view(*call)),
{
    let ghost start = out@;
    let lines = match &call.finish {
        Some(f) => f.output_lines,
        None => None,
    };
    match lines {
        Some(l) => {
            push_decimal(out, l.count as u64);
            if l.truncated {
                push_str(out, "+");
            }
            proof {
                reveal_strlit("");
                assert(out@ =~= start + lines_text(call_view(*call)));
            }
        },
        None => push_str(out, "--"),
    }
}

fn push_call_head(out: &mut String, call: &ExecutionCall)
    ensures
        final(out)@ == old(out)@ + decimal(call.start_unix_ms as nat) + " "@ + call.operation.name@
            + " "@ + summary_text_of(summary_view(call.operation.summary)) + match call.end_unix_ms {
            Some(end) => " -> "@ + decimal(end as nat),
            None => ""@,
        },
{
    let ghost start = out@;
    push_decimal(out, call.start_unix_ms);
    push_str(out, " ");
    push_str(out, call.operation.name.as_str());
    push_str(out, " ");
    let summary = summary_text(&call.operation.summary);
    push_str(out, summary.as_str());
    let ghost mid = out@;
    match call.end_unix_ms {
        Some(end) => {
            push_str(out, " -> ");
            push_decimal(out, end);
        },
        None => {},
    }
    proof {
        reveal_strlit("");
        assert(out@ =~= start + decimal(call.start_unix_ms as nat) + " "@ + call.operation.name@
            + " "@ + summary_text_of(summary_view(call.operation.summary)) + match call.end_unix_ms {
            Some(end) => " -> "@ + decimal(end as nat),
            None => ""@,
        });
    }
}

fn push_call_line(out: &mut String, call: &ExecutionCall)
    ensures
        final(out)@ == old(out)@ + call_line(call_view(*call)),
{
    let ghost start = out@;
    push_call_head(out, call);
    let ghost a = out@;
    push_str(out, " | ");
    push_status(out, call);
    push_str(out, " | ");
    push_duration(out, call);
    push_str(out, " | lines ");
    push_lines(out, call);
    push_str(out, "\n");
    proof {
        assert(out@ =~= start + call_line(call_view(*call)));
    }
}

/// The plain-text history export of some records: all calls in start
/// order, or the `longest` longest measured ones, then the warnings.
pub fn format_history_export(records: &[ExecutionRecord], warnings: &[String], longest: Option<usize>) -> (r: String)
    ensures
        r@ == history_export(records@, strs_view(warnings@), longest),
{
    let calls = calls_from_records(records);
    let selected: Vec<&ExecutionCall> = match longest {
        Some(limit) => longest_calls(calls.as_slice(), limit),
        None => {
            let mut all: Vec<&ExecutionCall> = Vec::new();
            let mut i: usize = 0;
            while i < calls.len()
                invariant
                    i <= calls@.len(),
                    refs_view(all@) == calls_view(calls@.take(i as int)),
                decreases calls.len() - i,
            {
                let ghost before = all@;
                all.push(&calls[i]);
                proof {
                    assert(calls@.take(i + 1) =~= calls@.take(i as int).push(calls@[i as int]));
                    assert(refs_view(all@) =~= refs_view(before).push(call_view(calls@[i as int])));
                    assert(calls_view(calls@.take(i + 1)) =~= calls_view(calls@.take(i as int)).push(call_view(calls@[i as int])));
                }
                i = i + 1;
            }
            proof {
                assert(calls@.take(i as int) =~= calls@);
            }
            all
        },
    };
    let ghost sel = refs_view(selected@);
    let mut output = owned("Execution history\n");
    if selected.len() == 0 {
        push_str(&mut output, "No eligible operations.\n");
    }
    let ghost head = output@;
    let mut k: usize = 0;
    while k < selected.len()
        invariant
            k <= selected@.len(),
            sel == refs_view(selected@),
            output@ == head + call_lines(sel.take(k as int)),
        decreases selected.len() - k,
    {
        push_call_line(&mut output, selected[k]);
        proof {
            assert(sel.take(k + 1).drop_last() =~= sel.take(k as int));
            assert(sel.take(k + 1).last() == call_view(*selected@[k as int]));
            assert(output@ =~= head + call_lines(sel.take(k + 1)));
        }
        k = k + 1;
    }
    proof {
        assert(sel.take(k as int) =~= sel);
    }
    let ghost body = output@;
    let mut w: usize = 0;
    while w < warnings.len()
        invariant
            w <= warnings@.len(),
            output@ == body + warning_lines(strs_view(warnings@.take(w as int))),
        decreases warnings.len() - w,
    {
        push_str(&mut output, "WARNING: ");
        push_str(&mut output, warnings[w].as_str());
        push_str(&mut output, "\n");
        proof {
            assert(strs_view(warnings@.take(w + 1)).drop_last() =~= strs_view(warnings@.take(w as int)));
            assert(strs_view(warnings@.take(w + 1)).last() == warnings@[w as int]@);
            assert(output@ =~= body + warning_lines(strs_view(warnings@.take(w + 1))));
        }
        w = w + 1;
    }
    proof {
        assert(warnings@.take(w as int) =~= warnings@);
        reveal_strlit("");
        assert(output@ =~= history_export(records@, strs_view(warnings@), longest));
    }
    output
}

#[derive(Debug, Clone, Copy, PartialEq, Eq, Structural)]
pub enum HistoryQueryKind {
    Path,
    Show,
    Copy,
    CopyLongest10,
    Longest50,
}

#[derive(Debug, Clone, PartialEq, Eq)]
pub struct HistoryInputGuard {
    pub text: String,
    pub cursor: usize,
}

#[derive(Debug, Clone, PartialEq, Eq)]
pub struct HistoryQueryRequest {
    pub request_id: u64,
    pub identity: TraceIdentity,
    pub kind: HistoryQueryKind,
    pub input_guard: Option<HistoryInputGuard>,
    pub after_offset: u64,
    pub watermark: Option<u64>,
}

#[derive(Debug, Clone, PartialEq, Eq)]
pub struct HistoryQueryResult {
    pub path: String,
    pub records: Vec<ExecutionRecord>,
    pub ranked_calls: Vec<ExecutionCall>,
    pub warnings: Vec<String>,
    pub watermark: u64,
    pub next_offset: u64,
    pub has_more: bool,
}

} // verus!
