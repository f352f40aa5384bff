//! Interaction state whose lifetime follows local user input: the pane
//! separator gesture, approval cards, scrolling and the pending-prompt queue.
use vstd::prelude::*;

use crate::action::{prompt_view, AgentRequest, PartView, PromptInput};
use crate::config::{
    pane_columns, pane_points, PaneWidthPercent, MAX_BASIS_POINTS, MIN_BASIS_POINTS,
};

verus! {

/// Minimum usable Preview content width at which the split remains useful.
pub const MIN_PREVIEW_COLUMNS: u16 = 16;

/// The split Preview rectangle reserves one separator column, one blank
/// column after it, the usable content width, and one right margin.
pub const PREVIEW_SEPARATOR_COLUMNS: u16 = 1;

pub const PREVIEW_SEPARATOR_GAP_COLUMNS: u16 = 1;

pub const PREVIEW_RIGHT_MARGIN_COLUMNS: u16 = 1;

pub const MIN_PREVIEW_PANE_WIDTH: u16 = 19;

/// One captured separator drag. Pending values are presentation-only until
/// the gesture finishes.
#[derive(Debug, Clone, Copy, PartialEq, Eq, Structural)]
pub struct PaneResizeDrag {
    pub start_column: u16,
    pub started_collapsed: bool,
    pub pending_percent: PaneWidthPercent,
    pub pending_collapsed: bool,
}

/// Transient state for the captured primary-button pane separator gesture.
#[derive(Debug, Clone, Copy, PartialEq, Eq, Structural)]
pub struct PaneResizeState {
    drag: Option<PaneResizeDrag>,
}

/// `a + b` saturated at `u16::MAX`.
pub open spec fn sat_add16(a: nat, b: nat) -> nat {
    if a + b > 65535 {
        65535
    } else {
        a + b
    }
}

/// `a - b` saturated at zero.
pub open spec fn sat_sub(a: nat, b: nat) -> nat {
    if a > b {
        (a - b) as nat
    } else {
        0
    }
}

/// Message columns the 25% minimum occupies.
pub open spec fn min_main_columns(total: nat) -> nat {
    pane_columns(MIN_BASIS_POINTS as nat, total)
}

/// Whether the terminal is wide enough for both panes.
pub open spec fn can_split(total: nat) -> bool {
    total >= sat_add16(min_main_columns(total), MIN_PREVIEW_PANE_WIDTH as nat)
}

/// The pending `(basis points, collapsed)` a drag from `start` that began
/// collapsed or expanded shows at `column`, given the previous pending points.
pub open spec fn resize_target(
    start: nat,
    started_collapsed: bool,
    prev_points: nat,
    column: nat,
    total: nat,
) -> (nat, bool) {
    let min_main = min_main_columns(total);
    if started_collapsed {
        let leftward = sat_sub(start, column);
        if leftward == 0 || !can_split(total) {
            (prev_points, true)
        } else {
            let preview = sat_add16(MIN_PREVIEW_PANE_WIDTH as nat, (leftward - 1) as nat);
            if preview > sat_sub(total, min_main) {
                (prev_points, true)
            } else {
                (pane_points(sat_sub(total, preview), total), false)
            }
        }
    } else {
        let main = if column < total {
            column
        } else {
            total
        };
        let points = pane_points(main, total);
        let preview = sat_sub(total, pane_columns(points, total));
        if !can_split(total) || preview < MIN_PREVIEW_PANE_WIDTH {
            (MAX_BASIS_POINTS as nat, true)
        } else {
            (points, false)
        }
    }
}

impl PaneResizeState {
    /// The gesture in progress, if any.
    pub closed spec fn current(self) -> Option<PaneResizeDrag> {
        self.drag
    }

    pub fn new() -> (r: PaneResizeState)
        ensures
            r.current() is None,
    {
        PaneResizeState { drag: None }
    }

    pub fn is_active(self) -> (r: bool)
        ensures
            r == self.current() is Some,
    {
        self.drag.is_some()
    }

    pub fn drag(self) -> (r: Option<PaneResizeDrag>)
        ensures
            r == self.current(),
    {
        self.drag
    }

    /// Capture a gesture; refused while one is in progress.
    pub fn begin(&mut self, start_column: u16, committed_percent: PaneWidthPercent, collapsed: bool) -> (r: bool)
        ensures
            r == old(self).current() is None,
            r ==> final(self).current() == Some(
                PaneResizeDrag {
                    start_column,
                    started_collapsed: collapsed,
                    pending_percent: committed_percent,
                    pending_collapsed: collapsed,
                },
            ),
            !r ==> final(self).current() == old(self).current(),
    {
        if self.drag.is_some() {
            return false;
        }
        self.drag = Some(
            PaneResizeDrag {
                start_column,
                started_collapsed: collapsed,
                pending_percent: committed_percent,
                pending_collapsed: collapsed,
            },
        );
        true
    }

    /// Update the pending split from a terminal column. Expanded and
    /// collapsed gestures share the arithmetic of the committed layout.
    pub fn update(&mut self, column: u16, total_columns: u16)
        ensures
            match old(self).current() {
                Some(d) => if total_columns == 0 {
                    final(self).current() == old(self).current()
                } else {
                    final(self).current() matches Some(n) && n.start_column == d.start_column
                        && n.started_collapsed == d.started_collapsed && (
                    n.pending_percent.spec_points() as nat, n.pending_collapsed) == resize_target(
                        d.start_column as nat,
                        d.started_collapsed,
                        d.pending_percent.spec_points() as nat,
                        column as nat,
                        total_columns as nat,
                    )
                },
                None => final(self).current() is None,
            },
    {
        let drag = match self.drag {
            Some(d) => d,
            None => return ,
        };
        if total_columns == 0 {
            return ;
        }
        let min_main = PaneWidthPercent::minimum().columns(total_columns);
        let split = total_columns >= min_main.saturating_add(MIN_PREVIEW_PANE_WIDTH);
        let (pending_percent, pending_collapsed) = if drag.started_collapsed {
            let leftward = drag.start_column.saturating_sub(column);
            if leftward == 0 || !split {
                (drag.pending_percent, true)
            } else {
                let preview_width = MIN_PREVIEW_PANE_WIDTH.saturating_add(leftward - 1);
                if preview_width > total_columns.saturating_sub(min_main) {
                    (drag.pending_percent, true)
                } else {
                    let main_width = total_columns.saturating_sub(preview_width);
                    (PaneWidthPercent::from_columns(main_width, total_columns), false)
                }
            }
        } else {
            let main_width = if column < total_columns {
                column
            } else {
                total_columns
            };
            let percent = PaneWidthPercent::from_columns(main_width, total_columns);
            let rendered_main = percent.columns(total_columns);
            let preview_width = total_columns.saturating_sub(rendered_main);
            if !split || preview_width < MIN_PREVIEW_PANE_WIDTH {
                (PaneWidthPercent::maximum(), true)
            } else {
                (percent, false)
            }
        };
        self.drag = Some(
            PaneResizeDrag {
                start_column: drag.start_column,
                started_collapsed: drag.started_collapsed,
                pending_percent,
                pending_collapsed,
            },
        );
    }

    /// End the gesture, handing back what it pended.
    pub fn finish(&mut self) -> (r: Option<PaneResizeDrag>)
        ensures
            r == old(self).current(),
            final(self).current() is None,
    {
        let r = self.drag;
        self.drag = None;
        r
    }

    pub fn cancel(&mut self)
        ensures
            final(self).current() is None,
    {
        self.drag = None;
    }
}

impl Default for PaneResizeState {
    fn default() -> (r: PaneResizeState)
        ensures
            r.current() is None,
    {
        PaneResizeState::new()
    }
}

/// One pending approval prompt.
#[derive(Debug, Clone)]
pub struct ApprovalCard {
    pub id: String,
    pub tool_name: String,
    pub reason: String,
}

impl ApprovalCard {
    pub fn answer(self, allow: bool) -> (r: AgentRequest)
        ensures
            r == (AgentRequest::ApprovalAnswer { id: self.id, allow }),
    {
        AgentRequest::ApprovalAnswer { id: self.id, allow }
    }
}

#[derive(Debug, Clone, Copy, PartialEq, Eq, Structural)]
pub struct ScrollState {
    pub follow: bool,
    pub offset: usize,
}

impl Default for ScrollState {
    fn default() -> (r: ScrollState)
        ensures
            r.follow && r.offset == 0,
    {
        ScrollState { follow: true, offset: 0 }
    }
}

#[derive(Debug, Clone, Copy, PartialEq, Eq, Structural)]
pub enum PromptDelivery {
    Asap,
    AfterTurn,
}

#[derive(Debug, Clone, PartialEq, Eq)]
pub struct PendingPrompt {
    pub prompt: PromptInput,
    pub delivery: PromptDelivery,
}

/// A pending prompt by value.
pub type PendingView = (Seq<PartView>, PromptDelivery);

pub open spec fn pending_view(p: PendingPrompt) -> PendingView {
    (prompt_view(p.prompt), p.delivery)
}

pub open spec fn pending_views(s: Seq<PendingPrompt>) -> Seq<PendingView> {
    s.map_values(|p: PendingPrompt| pending_view(p))
}

pub open spec fn opt_pending_views(o: Option<PendingPrompt>) -> Seq<PendingView> {
    match o {
        Some(p) => seq![pending_view(p)],
        None => Seq::empty(),
    }
}

/// The queue as its owner sees it.
pub struct QueueModel {
    /// Prompts the backend already holds, oldest first.
    pub remote: Seq<PendingView>,
    /// The prompt being admitted.
    pub sending: Option<PendingView>,
    /// Prompts whose admission was rejected.
    pub failed: Seq<PendingView>,
    /// Prompts not yet sent, oldest first.
    pub local: Seq<PendingView>,
    /// A clear of the backend queue is owed.
    pub clearing: bool,
    /// That clear has been requested.
    pub clear_sent: bool,
}

pub open spec fn opt_seq(o: Option<PendingView>) -> Seq<PendingView> {
    match o {
        Some(v) => seq![v],
        None => Seq::empty(),
    }
}

/// What the queue shows: backend prompts, the one in flight, rejected ones,
/// then local ones.
pub open spec fn queue_display(m: QueueModel) -> Seq<PendingView> {
    m.remote + opt_seq(m.sending) + m.failed + m.local
}

/// `s` without its ASAP entries, order kept.
pub open spec fn without_asap(s: Seq<PendingView>) -> Seq<PendingView>
    decreases s.len(),
{
    if s.len() == 0 {
        s
    } else if s.last().1 == PromptDelivery::Asap {
        without_asap(s.drop_last())
    } else {
        without_asap(s.drop_last()).push(s.last())
    }
}

/// Index of the first ASAP entry.
pub open spec fn first_asap(s: Seq<PendingView>) -> Option<int>
    decreases s.len(),
{
    if s.len() == 0 {
        None
    } else if s[0].1 == PromptDelivery::Asap {
        Some(0)
    } else {
        match first_asap(s.drop_first()) {
            Some(i) => Some(i + 1),
            None => None,
        }
    }
}

/// Which local entry `take_next` hands out, if any.
pub open spec fn next_index(m: QueueModel, agent_running: bool) -> Option<int> {
    if m.sending is Some || m.clearing {
        None
    } else {
        match first_asap(m.local) {
            Some(i) => Some(i),
            None => if !agent_running && m.remote.len() == 0 && m.failed.len() == 0 && m.local.len()
                > 0 {
                Some(0)
            } else {
                None
            },
        }
    }
}

pub open spec fn empty_model() -> QueueModel {
    QueueModel {
        remote: Seq::empty(),
        sending: None,
        failed: Seq::empty(),
        local: Seq::empty(),
        clearing: false,
        clear_sent: false,
    }
}

impl Default for PendingPromptQueue {
    fn default() -> (r: PendingPromptQueue)
        ensures
            r.wf(),
            r.model() == empty_model(),
    {
        PendingPromptQueue::new()
    }
}

/// Prompts waiting for delivery, in the order they are shown.
#[derive(Debug)]
pub struct PendingPromptQueue {
    local: Vec<PendingPrompt>,
    remote: Vec<PendingPrompt>,
    sending: Option<PendingPrompt>,
    failed: Vec<PendingPrompt>,
    clearing: bool,
    clear_sent: bool,
    display: Vec<PendingPrompt>,
}

fn duplicate_pending(p: &PendingPrompt) -> (r: PendingPrompt)
    ensures
        pending_view(r) == pending_view(*p),
{
    PendingPrompt { prompt: p.prompt.duplicate(), delivery: p.delivery }
}

fn append_copies(out: &mut Vec<PendingPrompt>, from: &Vec<PendingPrompt>)
    ensures
        pending_views(final(out)@) == pending_views(old(out)@) + pending_views(from@),
{
    let ghost start = out@;
    let mut i: usize = 0;
    while i < from.len()
        invariant
            i <= from@.len(),
            out@.len() == start.len() + i,
            forall|k: int| 0 <= k < start.len() ==> #[trigger] out@[k] == start[k],
            forall|k: int|
                0 <= k < i ==> pending_view(#[trigger] out@[start.len() + k]) == pending_view(from@[k]),
        decreases from.len() - i,
    {
        out.push(duplicate_pending(&from[i]));
        i = i + 1;
    }
    proof {
        assert forall|k: int| 0 <= k < out@.len() implies #[trigger] pending_views(out@)[k]
            == (pending_views(start) + pending_views(from@))[k] by {
            if k >= start.len() {
                assert(pending_view(out@[start.len() + (k - start.len())]) == pending_view(from@[k - start.len()]));
            }
        }
        assert(pending_views(out@) =~= pending_views(start) + pending_views(from@));
    }
}

impl PendingPromptQueue {
    pub closed spec fn model(&self) -> QueueModel {
        QueueModel {
            remote: pending_views(self.remote@),
            sending: match self.sending {
                Some(p) => Some(pending_view(p)),
                None => None,
            },
            failed: pending_views(self.failed@),
            local: pending_views(self.local@),
            clearing: self.clearing,
            clear_sent: self.clear_sent,
        }
    }

    /// The cached display agrees with the queue.
    pub closed spec fn wf(&self) -> bool {
        pending_views(self.display@) == queue_display(self.model())
    }

    pub fn new() -> (r: PendingPromptQueue)
        ensures
            r.wf(),
            r.model() == empty_model(),
    {
        let r = PendingPromptQueue {
            local: Vec::new(),
            remote: Vec::new(),
            sending: None,
            failed: Vec::new(),
            clearing: false,
            clear_sent: false,
            display: Vec::new(),
        };
        proof {
            assert(r.model().remote =~= Seq::<PendingView>::empty());
            assert(r.model().failed =~= Seq::<PendingView>::empty());
            assert(r.model().local =~= Seq::<PendingView>::empty());
            assert(pending_views(r.display@) =~= queue_display(r.model()));
        }
        r
    }

    fn rebuild(&mut self)
        ensures
            final(self).model() == old(self).model(),
            final(self).wf(),
    {
        let mut display: Vec<PendingPrompt> = Vec::new();
        append_copies(&mut display, &self.remote);
        match &self.sending {
            Some(p) => {
                let ghost before = display@;
                display.push(duplicate_pending(p));
                proof {
                    assert(pending_views(display@) =~= pending_views(before) + seq![pending_view(*p)]);
                }
            },
            None => {},
        }
        append_copies(&mut display, &self.failed);
        append_copies(&mut display, &self.local);
        proof {
            assert(pending_views(Seq::<PendingPrompt>::empty()) =~= Seq::<PendingView>::empty());
            assert(opt_seq(self.model().sending) =~= opt_pending_views(self.sending));
            assert(pending_views(display@) =~= queue_display(self.model()));
        }
        self.display = display;
    }

    pub fn push(&mut self, prompt: PromptInput, delivery: PromptDelivery)
        ensures
            final(self).wf(),
            final(self).model() == (QueueModel {
                local: old(self).model().local.push((prompt_view(prompt), delivery)),
                ..old(self).model()
            }),
    {
        let ghost before = self.local@;
        self.local.push(PendingPrompt { prompt, delivery });
        proof {
            assert(pending_views(self.local@) =~= pending_views(before).push(
                (prompt_view(prompt), delivery),
            ));
        }
        self.rebuild();
    }

    /// What the queue shows, in order.
    pub fn entries(&self) -> (r: &[PendingPrompt])
        requires
            self.wf(),
        ensures
            pending_views(r@) == queue_display(self.model()),
    {
        self.display.as_slice()
    }

    pub fn len(&self) -> (r: usize)
        requires
            self.wf(),
        ensures
            r == queue_display(self.model()).len(),
    {
        self.display.len()
    }

    /// Nothing shown and no clear owed.
    pub fn is_empty(&self) -> (r: bool)
        requires
            self.wf(),
        ensures
            r == (queue_display(self.model()).len() == 0 && !self.model().clearing),
    {
        self.display.len() == 0 && !self.clearing
    }

    pub fn clear(&mut self)
        ensures
            final(self).wf(),
            final(self).model() == empty_model(),
    {
        *self = PendingPromptQueue::new();
    }

    /// A clear is owed or some shown entry is ASAP.
    pub fn has_asap(&self) -> (r: bool)
        requires
            self.wf(),
        ensures
            r == (self.model().clearing || exists|k: int|
                0 <= k < queue_display(self.model()).len() && (#[trigger] queue_display(
                    self.model(),
                )[k]).1 == PromptDelivery::Asap),
    {
        if self.clearing {
            return true;
        }
        let mut i: usize = 0;
        while i < self.display.len()
            invariant
                i <= self.display@.len(),
                pending_views(self.display@) == queue_display(self.model()),
                forall|k: int| 0 <= k < i ==> (#[trigger] self.display@[k]).delivery != PromptDelivery::Asap,
            decreases self.display.len() - i,
        {
            if self.display[i].delivery == PromptDelivery::Asap {
                proof {
                    assert(queue_display(self.model())[i as int] == pending_view(self.display@[i as int]));
                }
                return true;
            }
            i = i + 1;
        }
        proof {
            assert forall|k: int| 0 <= k < queue_display(self.model()).len() implies (
            #[trigger] queue_display(self.model())[k]).1 != PromptDelivery::Asap by {
                assert(queue_display(self.model())[k] == pending_view(self.display@[k]));
            }
        }
        false
    }

    /// The backend holds or is admitting a prompt.
    pub fn has_backend(&self) -> (r: bool)
        ensures
            r == (self.model().sending is Some || self.model().remote.len() > 0),
    {
        self.sending.is_some() || self.remote.len() > 0
    }

    /// Drop every local ASAP prompt and every rejected one; when the backend
    /// holds prompts, owe a clear of its queue. Nothing happens while a clear
    /// is owed.
    pub fn cancel_asap(&mut self)
        requires
            old(self).wf(),
        ensures
            final(self).wf(),
            old(self).model().clearing ==> final(self).model() == old(self).model(),
            !old(self).model().clearing ==> final(self).model() == (QueueModel {
                local: without_asap(old(self).model().local),
                failed: Seq::empty(),
                clearing: old(self).model().sending is Some || old(self).model().remote.len() > 0,
                ..old(self).model()
            }),
    {
        if self.clearing {
            return ;
        }
        let mut kept: Vec<PendingPrompt> = Vec::new();
        let mut rest: Vec<PendingPrompt> = Vec::new();
        std::mem::swap(&mut rest, &mut self.local);
        let ghost all = rest@;
        let total = rest.len();
        let mut i: usize = 0;
        let mut reversed: Vec<PendingPrompt> = Vec::new();
        while rest.len() > 0
            invariant
                rest@ == all.take(rest@.len() as int),
                reversed@.len() + rest@.len() == all.len(),
                forall|k: int| 0 <= k < reversed@.len() ==> #[trigger] reversed@[k] == all[all.len() - 1 - k],
            decreases rest.len(),
        {
            let ghost n = rest@.len() as int;
            let entry = rest.pop().unwrap();
            proof {
                assert(all.take(n - 1) =~= all.take(n).drop_last());
            }
            reversed.push(entry);
        }
        while reversed.len() > 0
            invariant
                i <= all.len(),
                all.len() == total,
                reversed@.len() + i == all.len(),
                forall|k: int| 0 <= k < reversed@.len() ==> #[trigger] reversed@[k] == all[all.len() - 1 - k],
                pending_views(kept@) == without_asap(pending_views(all.take(i as int))),
            decreases reversed.len(),
        {
            let entry = reversed.pop().unwrap();
            proof {
                assert(entry == all[i as int]);
                assert(pending_views(all.take(i + 1)).drop_last() =~= pending_views(all.take(i as int)));
                assert(pending_views(all.take(i + 1)).last() == pending_view(entry));
            }
            if entry.delivery != PromptDelivery::Asap {
                let ghost before = kept@;
                kept.push(entry);
                proof {
                    assert(pending_views(kept@) =~= pending_views(before).push(pending_view(entry)));
                }
            }
            i = i + 1;
        }
        proof {
            assert(all.take(i as int) =~= all);
        }
        self.local = kept;
        self.failed = Vec::new();
        self.clearing = self.sending.is_some() || self.remote.len() > 0;
        proof {
            assert(pending_views(self.failed@) =~= Seq::<PendingView>::empty());
        }
        self.rebuild();
    }

    /// Hand out the owed clear once, and only when nothing is being admitted.
    pub fn take_clear_request(&mut self) -> (r: bool)
        requires
            old(self).wf(),
        ensures
            final(self).wf(),
            r == (old(self).model().clearing && !old(self).model().clear_sent
                && old(self).model().sending is None),
            r ==> final(self).model() == (QueueModel { clear_sent: true, ..old(self).model() }),
            !r ==> final(self).model() == old(self).model(),
    {
        if self.clearing && !self.clear_sent && self.sending.is_none() {
            self.clear_sent = true;
            true
        } else {
            false
        }
    }

    pub fn complete_clear(&mut self)
        requires
            old(self).wf(),
        ensures
            final(self).wf(),
            final(self).model() == (QueueModel {
                clearing: false,
                clear_sent: false,
                ..old(self).model()
            }),
    {
        self.clearing = false;
        self.clear_sent = false;
    }

    pub fn begin_submission(&mut self, pending: PendingPrompt)
        ensures
            final(self).wf(),
            final(self).model() == (QueueModel {
                sending: Some(pending_view(pending)),
                ..old(self).model()
            }),
    {
        self.sending = Some(pending);
        self.rebuild();
    }

    /// Admission finished; a rejected prompt is kept unless a clear is owed.
    pub fn complete_submission(&mut self, failed: bool)
        ensures
            final(self).wf(),
            final(self).model() == (QueueModel {
                sending: None,
                failed: match old(self).model().sending {
                    Some(p) => if failed && !old(self).model().clearing {
                        old(self).model().failed.push(p)
                    } else {
                        old(self).model().failed
                    },
                    None => old(self).model().failed,
                },
                ..old(self).model()
            }),
    {
        let sending = self.sending.take();
        match sending {
            Some(pending) => {
                if failed && !self.clearing {
                    let ghost before = self.failed@;
                    self.failed.push(pending);
                    proof {
                        assert(pending_views(self.failed@) =~= pending_views(before).push(
                            pending_view(pending),
                        ));
                    }
                }
            },
            None => {},
        }
        self.rebuild();
    }

    /// The backend's own queue, authoritative; every entry is ASAP.
    pub fn update_remote(&mut self, prompts: Vec<String>)
        ensures
            final(self).wf(),
            final(self).model() == (QueueModel {
                remote: Seq::new(
                    prompts@.len(),
                    |k: int| (seq![PartView::Text(prompts@[k]@)], PromptDelivery::Asap),
                ),
                ..old(self).model()
            }),
    {
        let mut remote: Vec<PendingPrompt> = Vec::new();
        let mut rest = prompts;
        let ghost all = rest@;
        let total = rest.len();
        let mut reversed: Vec<String> = Vec::new();
        while rest.len() > 0
            invariant
                rest@ == all.take(rest@.len() as int),
                reversed@.len() + rest@.len() == all.len(),
                forall|k: int| 0 <= k < reversed@.len() ==> #[trigger] reversed@[k] == all[all.len() - 1 - k],
            decreases rest.len(),
        {
            let ghost n = rest@.len() as int;
            let entry = rest.pop().unwrap();
            proof {
                assert(all.take(n - 1) =~= all.take(n).drop_last());
            }
            reversed.push(entry);
        }
        let mut i: usize = 0;
        while reversed.len() > 0
            invariant
                i <= all.len(),
                all.len() == total,
                reversed@.len() + i == all.len(),
                forall|k: int| 0 <= k < reversed@.len() ==> #[trigger] reversed@[k] == all[all.len() - 1 - k],
                remote@.len() == i,
                forall|k: int|
                    0 <= k < i ==> pending_view(#[trigger] remote@[k]) == (seq![PartView::Text(all[k]@)], PromptDelivery::Asap),
            decreases reversed.len(),
        {
            let text = reversed.pop().unwrap();
            proof {
                assert(text == all[i as int]);
            }
            let prompt = PromptInput::text(text);
            proof {
                assert(prompt_view(prompt) =~= seq![PartView::Text(all[i as int]@)]);
            }
            remote.push(PendingPrompt { prompt, delivery: PromptDelivery::Asap });
            i = i + 1;
        }
        self.remote = remote;
        proof {
            assert(pending_views(self.remote@) =~= Seq::new(
                all.len(),
                |k: int| (seq![PartView::Text(all[k]@)], PromptDelivery::Asap),
            ));
        }
        self.rebuild();
    }

    /// Withdraw the newest local prompt.
    pub fn cancel_latest(&mut self) -> (r: Option<PendingPrompt>)
        ensures
            final(self).wf(),
            old(self).model().local.len() == 0 ==> r is None && final(self).model() == old(
                self,
            ).model(),
            old(self).model().local.len() > 0 ==> (r matches Some(p) && pending_view(p) == old(
                self,
            ).model().local.last() && final(self).model() == (QueueModel {
                local: old(self).model().local.drop_last(),
                ..old(self).model()
            })),
    {
        let ghost before = self.local@;
        let pending = self.local.pop();
        proof {
            if before.len() > 0 {
                assert(pending_views(self.local@) =~= pending_views(before).drop_last());
            }
        }
        self.rebuild();
        pending
    }

    /// The next local prompt to deliver: the first ASAP one, or, when the
    /// agent is idle and nothing else is queued, the oldest. Nothing while a
    /// prompt is being admitted or a clear is owed.
    pub fn take_next(&mut self, agent_running: bool) -> (r: Option<PendingPrompt>)
        requires
            old(self).wf(),
        ensures
            final(self).wf(),
            match next_index(old(self).model(), agent_running) {
                Some(i) => r matches Some(p) && pending_view(p) == old(self).model().local[i]
                    && final(self).model() == (QueueModel {
                    local: old(self).model().local.remove(i),
                    ..old(self).model()
                }),
                None => r is None && final(self).model() == old(self).model(),
            },
    {
        if self.sending.is_some() || self.clearing {
            return None;
        }
        let ghost lv = pending_views(self.local@);
        let mut i: usize = 0;
        proof {
            assert(lv.skip(0) =~= lv);
        }
        while i < self.local.len() && self.local[i].delivery != PromptDelivery::Asap
            invariant
                i <= self.local@.len(),
                lv == pending_views(self.local@),
                first_asap(lv) == (match first_asap(lv.skip(i as int)) {
                    Some(j) => Some(j + i),
                    None => None,
                }),
            decreases self.local.len() - i,
        {
            proof {
                assert(lv.skip(i as int).drop_first() =~= lv.skip(i + 1));
                assert(lv.skip(i as int)[0] == pending_view(self.local@[i as int]));
            }
            i = i + 1;
        }
        let index = if i < self.local.len() {
            proof {
                assert(lv.skip(i as int)[0] == pending_view(self.local@[i as int]));
            }
            i
        } else if !agent_running && self.remote.len() == 0 && self.failed.len() == 0
            && self.local.len() > 0 {
            proof {
                assert(lv.skip(i as int).len() == 0);
            }
            0
        } else {
            proof {
                assert(lv.skip(i as int).len() == 0);
            }
            return None;
        };
        let ghost before = self.local@;
        let pending = self.local.remove(index);
        proof {
            assert(pending_views(self.local@) =~= pending_views(before).remove(index as int));
        }
        self.rebuild();
        Some(pending)
    }
}


/// Whether a queue in state `m` hands out its clear request now.
pub open spec fn clear_request_due(m: QueueModel) -> bool {
    m.clearing && !m.clear_sent && m.sending is None
}

/// A clear request is handed out once per cycle: after it is taken, taking
/// again before the clear completes gives nothing; and while a clear is
/// pending no prompt is taken for sending.
pub proof fn clear_request_is_taken_once(m: QueueModel, agent_running: bool)
    ensures
        clear_request_due(m) ==> !clear_request_due(QueueModel { clear_sent: true, ..m }),
        m.clearing ==> next_index(m, agent_running) is None,
        m.clearing ==> next_index(QueueModel { clear_sent: true, ..m }, agent_running) is None,
{
}


/// A drag never leaves a preview too narrow to use: where the terminal
/// cannot hold both panes the preview collapses, and a drag that began
/// expanded either collapses to the full-width message pane or keeps at
/// least the minimum preview width.
pub proof fn resize_keeps_a_usable_preview(start: nat, started_collapsed: bool, prev_points: nat, column: nat, total: nat)
    requires
        total > 0,
    ensures
        !can_split(total) ==> resize_target(start, started_collapsed, prev_points, column, total).1,
        !started_collapsed && resize_target(start, started_collapsed, prev_points, column, total).1
            ==> resize_target(start, started_collapsed, prev_points, column, total).0 == MAX_BASIS_POINTS as nat,
        !started_collapsed && !resize_target(start, started_collapsed, prev_points, column, total).1 ==> sat_sub(
            total,
            pane_columns(resize_target(start, started_collapsed, prev_points, column, total).0, total),
        ) >= MIN_PREVIEW_PANE_WIDTH,
{
}

} // verus!
