//! Session-scoped state for the full-screen execution-history page.
use vstd::prelude::*;

use crate::execution_history::{
    calls_from_records, calls_of, calls_view, ExecutionCall, ExecutionRecord, HistoryQueryKind,
    HistoryQueryResult,
};
use crate::sorting::{insert_position, insert_sorted, insertion_sorted};
use crate::text::{chars_less, seq_less, str_eq, strs_view};

verus! {

#[derive(Debug, Clone, Copy, PartialEq, Eq, Structural)]
pub enum HistoryView {
    Turns,
    Longest,
}

#[derive(Debug, Clone, PartialEq, Eq)]
pub enum HistoryLoadState {
    Loading,
    Ready,
    Empty,
    Error(String),
}

#[derive(Debug, Clone)]
pub struct HistoryPage {
    pub request_id: u64,
    pub session_id: String,
    pub cwd: String,
    pub state: HistoryLoadState,
    pub records: Vec<ExecutionRecord>,
    pub calls: Vec<ExecutionCall>,
    pub longest_calls: Option<Vec<ExecutionCall>>,
    pub warnings: Vec<String>,
    pub watermark: Option<u64>,
    pub next_offset: u64,
    pub has_more: bool,
    pub loading_more: bool,
    pub view: HistoryView,
    pub turns_offset: usize,
    pub longest_offset: usize,
    pub body_height: usize,
}

/// Byte order of strings, as `str` compares them.
pub open spec fn string_after(a: Seq<char>, b: Seq<char>) -> bool {
    seq_less(b, a)
}

pub open spec fn by_text() -> spec_fn(Seq<char>, Seq<char>) -> bool {
    |a: Seq<char>, b: Seq<char>| string_after(a, b)
}

/// `s` without consecutive repeats.
pub open spec fn dedup_text(s: Seq<Seq<char>>) -> Seq<Seq<char>>
    decreases s.len(),
{
    if s.len() == 0 {
        s
    } else {
        let d = dedup_text(s.drop_last());
        if d.len() > 0 && d.last() == s.last() {
            d
        } else {
            d.push(s.last())
        }
    }
}

/// Warnings kept sorted and without repeats.
pub open spec fn merged_warnings(old: Seq<Seq<char>>, new: Seq<Seq<char>>) -> Seq<Seq<char>> {
    dedup_text(insertion_sorted(old + new, by_text()))
}

fn insert_text(v: &mut Vec<String>, x: String)
    ensures
        strs_view(final(v)@) == insert_sorted(strs_view(old(v)@), x@, by_text()),
{
    let ghost s = strs_view(v@);
    let xc = crate::text::chars_of(x.as_str());
    let mut p: usize = 0;
    proof {
        assert(s.skip(0) =~= s);
    }
    while p < v.len() && !chars_less(xc.as_slice(), crate::text::chars_of(v[p].as_str()).as_slice())
        invariant
            p <= v@.len(),
            s == strs_view(v@),
            xc@ == x@,
            insert_position(s, x@, by_text()) == p + insert_position(s.skip(p as int), x@, by_text()),
        decreases v.len() - p,
    {
        proof {
            assert(s.skip(p as int)[0] == v@[p as int]@);
            assert(s.skip(p as int).drop_first() =~= s.skip(p + 1));
        }
        p = p + 1;
    }
    proof {
        if p < v@.len() {
            assert(s.skip(p as int)[0] == v@[p as int]@);
        }
    }
    let ghost xv = x@;
    v.insert(p, x);
    proof {
        assert(strs_view(v@) =~= s.insert(p as int, xv));
    }
}

fn sort_dedup(v: Vec<String>) -> (r: Vec<String>)
    ensures
        strs_view(r@) == dedup_text(insertion_sorted(strs_view(v@), by_text())),
{
    let ghost all = strs_view(v@);
    let mut rest = v;
    let mut reversed: Vec<String> = Vec::new();
    while rest.len() > 0
        invariant
            strs_view(rest@) == all.take(rest@.len() as int),
            reversed@.len() + rest@.len() == all.len(),
            forall|k: int| 0 <= k < reversed@.len() ==> (#[trigger] reversed@[k])@ == all[all.len() - 1 - k],
        decreases rest.len(),
    {
        let ghost n = rest@.len() as int;
        let ghost before = rest@;
        let x = rest.pop().unwrap();
        proof {
            assert(strs_view(rest@) =~= strs_view(before).drop_last());
            assert(all.take(n - 1) =~= all.take(n).drop_last());
            assert(strs_view(before).last() == x@);
        }
        reversed.push(x);
    }
    let mut sorted: Vec<String> = Vec::new();
    let mut i: usize = 0;
    let total = reversed.len();
    while reversed.len() > 0
        invariant
            reversed@.len() + i == all.len(),
            all.len() == total,
            forall|k: int| 0 <= k < reversed@.len() ==> (#[trigger] reversed@[k])@ == all[all.len() - 1 - k],
            strs_view(sorted@) == insertion_sorted(all.take(i as int), by_text()),
        decreases reversed.len(),
    {
        let x = reversed.pop().unwrap();
        proof {
            assert(x@ == all[i as int]);
            assert(all.take(i + 1).drop_last() =~= all.take(i as int));
        }
        insert_text(&mut sorted, x);
        i = i + 1;
    }
    proof {
        assert(all.take(i as int) =~= all);
    }
    let ghost ss = strs_view(sorted@);
    let mut out: Vec<String> = Vec::new();
    let mut j: usize = 0;
    while j < sorted.len()
        invariant
            j <= sorted@.len(),
            ss == strs_view(sorted@),
            strs_view(out@) == dedup_text(ss.take(j as int)),
        decreases sorted.len() - j,
    {
        proof {
            assert(ss.take(j + 1).drop_last() =~= ss.take(j as int));
            assert(ss.take(j + 1).last() == sorted@[j as int]@);
        }
        let dup = out.len() > 0 && str_eq(out[out.len() - 1].as_str(), sorted[j].as_str());
        proof {
            if out@.len() > 0 {
                assert(strs_view(out@).last() == out@[out@.len() - 1]@);
            }
        }
        if !dup {
            let ghost before = out@;
            out.push(sorted[j].clone());
            proof {
                assert(strs_view(out@) =~= strs_view(before).push(sorted@[j as int]@));
            }
        }
        j = j + 1;
    }
    proof {
        assert(ss.take(j as int) =~= ss);
    }
    out
}

impl HistoryPage {
    /// A page waiting for its first result.
    pub fn loading(request_id: u64, session_id: String, cwd: String) -> (r: HistoryPage)
        ensures
            r.request_id == request_id,
            r.session_id == session_id,
            r.cwd == cwd,
            r.state == HistoryLoadState::Loading,
            r.records@.len() == 0,
            r.calls@.len() == 0,
            r.longest_calls is None,
            r.warnings@.len() == 0,
            r.watermark is None,
            r.next_offset == 0,
            !r.has_more,
            !r.loading_more,
            r.view == HistoryView::Turns,
            r.turns_offset == 0,
            r.longest_offset == 0,
            r.body_height == 1,
    {
        HistoryPage {
            request_id,
            session_id,
            cwd,
            state: HistoryLoadState::Loading,
            records: Vec::new(),
            calls: Vec::new(),
            longest_calls: None,
            warnings: Vec::new(),
            watermark: None,
            next_offset: 0,
            has_more: false,
            loading_more: false,
            view: HistoryView::Turns,
            turns_offset: 0,
            longest_offset: 0,
            body_height: 1,
        }
    }

    /// Apply a query result; results for another request are refused. A
    /// ranking replaces the longest-calls view; a continuation page extends
    /// the records, any other page replaces them.
    pub fn complete(&mut self, request_id: u64, kind: HistoryQueryKind, result: HistoryQueryResult) -> (accepted: bool)
        ensures
            accepted == (old(self).request_id == request_id),
            !accepted ==> *final(self) == *old(self),
            accepted && kind == HistoryQueryKind::Longest50 ==> final(self).longest_calls == Some(
                result.ranked_calls,
            ) && !final(self).loading_more && final(self).records == old(self).records
                && final(self).state == old(self).state,
            accepted && kind != HistoryQueryKind::Longest50 ==> {
                let extend = result.next_offset > 0 && old(self).records@.len() > 0;
                &&& final(self).records@ == if extend {
                    old(self).records@ + result.records@
                } else {
                    result.records@
                }
                &&& strs_view(final(self).warnings@) == if extend {
                    merged_warnings(strs_view(old(self).warnings@), strs_view(result.warnings@))
                } else {
                    strs_view(result.warnings@)
                }
                &&& calls_view(final(self).calls@) == calls_of(final(self).records@)
                &&& final(self).watermark == Some(result.watermark)
                &&& final(self).next_offset == result.next_offset
                &&& final(self).has_more == result.has_more
                &&& !final(self).loading_more
                &&& final(self).state == if final(self).calls@.len() == 0 {
                    HistoryLoadState::Empty
                } else {
                    HistoryLoadState::Ready
                }
                &&& final(self).longest_calls == old(self).longest_calls
                &&& final(self).view == old(self).view
            },
    {
        if self.request_id != request_id {
            return false;
        }
        if kind == HistoryQueryKind::Longest50 {
            self.longest_calls = Some(result.ranked_calls);
            self.loading_more = false;
            return true;
        }
        let HistoryQueryResult { path: _, records, ranked_calls: _, warnings, watermark, next_offset, has_more } = result;
        if next_offset > 0 && self.records.len() > 0 {
            let mut more = records;
            self.records.append(&mut more);
            let mut all: Vec<String> = Vec::new();
            std::mem::swap(&mut all, &mut self.warnings);
            let ghost old_warnings = all@;
            let mut new_warnings = warnings;
            all.append(&mut new_warnings);
            proof {
                assert(strs_view(all@) =~= strs_view(old_warnings) + strs_view(warnings@));
            }
            self.warnings = sort_dedup(all);
        } else {
            self.records = records;
            self.warnings = warnings;
        }
        self.calls = calls_from_records(self.records.as_slice());
        self.watermark = Some(watermark);
        self.next_offset = next_offset;
        self.has_more = has_more;
        self.loading_more = false;
        self.state = if self.calls.len() == 0 {
            HistoryLoadState::Empty
        } else {
            HistoryLoadState::Ready
        };
        true
    }

    /// Record a failed query; failures for another request are refused.
    pub fn fail(&mut self, request_id: u64, error: String) -> (accepted: bool)
        ensures
            accepted == (old(self).request_id == request_id),
            !accepted ==> *final(self) == *old(self),
            accepted ==> *final(self) == (HistoryPage {
                loading_more: false,
                state: HistoryLoadState::Error(error),
                ..*old(self)
            }),
    {
        if self.request_id != request_id {
            return false;
        }
        self.loading_more = false;
        self.state = HistoryLoadState::Error(error);
        true
    }

    /// The scroll offset of the current view.
    pub fn offset(&self) -> (r: usize)
        ensures
            r == match self.view {
                HistoryView::Turns => self.turns_offset,
                HistoryView::Longest => self.longest_offset,
            },
    {
        match self.view {
            HistoryView::Turns => self.turns_offset,
            HistoryView::Longest => self.longest_offset,
        }
    }

    /// Scroll the current view; the other keeps its offset.
    pub fn set_offset(&mut self, value: usize)
        ensures
            *final(self) == match old(self).view {
                HistoryView::Turns => HistoryPage { turns_offset: value, ..*old(self) },
                HistoryView::Longest => HistoryPage { longest_offset: value, ..*old(self) },
            },
    {
        match self.view {
            HistoryView::Turns => self.turns_offset = value,
            HistoryView::Longest => self.longest_offset = value,
        }
    }

    pub fn toggle(&mut self)
        ensures
            *final(self) == (HistoryPage {
                view: match old(self).view {
                    HistoryView::Turns => HistoryView::Longest,
                    HistoryView::Longest => HistoryView::Turns,
                },
                ..*old(self)
            }),
    {
        self.view = match self.view {
            HistoryView::Turns => HistoryView::Longest,
            HistoryView::Longest => HistoryView::Turns,
        };
    }
}

} // verus!
