//! Owned presentation contracts shared by agent-event projection and the
//! terminal renderer.
use vstd::prelude::*;

use crate::sorting::{
    insert_position, insert_sorted, insertion_sorted, lemma_insertion_sorted_permutes,
};
use crate::text::{decimal, owned, push_decimal, push_str};

verus! {

#[derive(Debug, Clone, PartialEq, Eq, Hash, PartialOrd, Ord)]
pub struct DisplayId(pub String);

impl DisplayId {
    /// `event:SEQ:ROLE`.
    pub fn event(seq: u64, role: &str) -> (r: DisplayId)
        ensures
            r.0@ == "event:"@ + decimal(seq as nat) + ":"@ + role@,
    {
        let mut s = String::new();
        push_str(&mut s, "event:");
        push_decimal(&mut s, seq);
        push_str(&mut s, ":");
        push_str(&mut s, role);
        proof {
            reveal_strlit("event:");
            assert(s@ =~= "event:"@ + decimal(seq as nat) + ":"@ + role@);
        }
        DisplayId(s)
    }

    /// `KIND:ID`.
    pub fn correlated(kind: &str, id: &str) -> (r: DisplayId)
        ensures
            r.0@ == kind@ + ":"@ + id@,
    {
        let mut s = String::new();
        push_str(&mut s, kind);
        push_str(&mut s, ":");
        push_str(&mut s, id);
        proof {
            assert(s@ =~= kind@ + ":"@ + id@);
        }
        DisplayId(s)
    }

    /// `legacy:INDEX:ROLE`.
    pub fn legacy(index: usize, role: &str) -> (r: DisplayId)
        ensures
            r.0@ == "legacy:"@ + decimal(index as nat) + ":"@ + role@,
    {
        let mut s = String::new();
        push_str(&mut s, "legacy:");
        push_decimal(&mut s, index as u64);
        push_str(&mut s, ":");
        push_str(&mut s, role);
        proof {
            assert(s@ =~= "legacy:"@ + decimal(index as nat) + ":"@ + role@);
        }
        DisplayId(s)
    }
}

#[derive(Debug, Clone, Copy, PartialEq, Eq, Structural)]
pub enum ActivityState {
    Waiting,
    Running,
    Success,
    Failure,
    Cancelled,
}

impl ActivityState {
    pub fn is_active(self) -> (r: bool)
        ensures
            r == (self is Waiting || self is Running),
    {
        matches!(self, ActivityState::Waiting | ActivityState::Running)
    }
}

#[derive(Debug, Clone, PartialEq, Eq)]
pub struct ActivityContinuation {
    pub separator: String,
    pub label: String,
    pub summary: String,
}

/// One activity row. `live_duration_since` is a start time on the host's
/// monotonic clock, in milliseconds, kept only while a tool runs.
#[derive(Debug, Clone, PartialEq, Eq)]
pub struct ActivityRow {
    pub id: DisplayId,
    pub label: String,
    pub summary: String,
    pub continuations: Vec<ActivityContinuation>,
    pub state: ActivityState,
    pub start_ms: Option<u64>,
    pub duration_ms: Option<u64>,
    /// Output line count shown as trailing tool metadata.
    pub output_lines: Option<usize>,
    pub output_lines_truncated: bool,
    pub live_duration_since: Option<u64>,
    pub parent_id: Option<DisplayId>,
    pub depth: u16,
    pub count: usize,
}

impl ActivityRow {
    /// A running top-level row with nothing measured yet.
    pub fn root(id: DisplayId, label: String) -> (r: ActivityRow)
        ensures
            r.id == id,
            r.label@ == label@,
            r.summary@.len() == 0,
            r.continuations@.len() == 0,
            r.state == ActivityState::Running,
            r.start_ms is None,
            r.duration_ms is None,
            r.output_lines is None,
            !r.output_lines_truncated,
            r.live_duration_since is None,
            r.parent_id is None,
            r.depth == 0,
            r.count == 1,
    {
        ActivityRow {
            id,
            label,
            summary: String::new(),
            continuations: Vec::new(),
            state: ActivityState::Running,
            start_ms: None,
            duration_ms: None,
            output_lines: None,
            output_lines_truncated: false,
            live_duration_since: None,
            parent_id: None,
            depth: 0,
            count: 1,
        }
    }
}

#[derive(Debug, Clone, Copy, PartialEq, Eq, Structural)]
pub enum TranscriptFormat {
    Plain,
    Markdown,
    Reasoning,
    UnknownFallback,
}

#[derive(Debug, Clone, Copy, PartialEq, Eq, Structural)]
pub enum DisplayTone {
    Normal,
    Dim,
    Info,
    Warning,
    Error,
}

#[derive(Debug, Clone, PartialEq, Eq)]
pub struct TranscriptBlock {
    pub id: DisplayId,
    pub unit: Option<u64>,
    pub content: String,
    pub format: TranscriptFormat,
    pub tone: DisplayTone,
    pub copy_source: String,
    pub streaming: bool,
}

#[derive(Debug, Clone, Copy, PartialEq, Eq, Structural)]
pub enum CardRole {
    User,
    Context,
    Detail,
    Attachment,
}

#[derive(Debug, Clone, PartialEq, Eq)]
pub struct ContentCard {
    pub id: DisplayId,
    pub unit: Option<u64>,
    pub header: Option<String>,
    pub content: String,
    pub role: CardRole,
    pub tone: DisplayTone,
    pub horizontal_padding: usize,
    pub copy_source: String,
}

/// One merged Thinking-phase node: the breathing indicator row and the
/// streamed reasoning content.
#[derive(Debug, Clone, PartialEq, Eq)]
pub struct ThinkingNode {
    /// Breathing indicator row.
    pub row: ActivityRow,
    /// Copy unit for the accumulated reasoning content.
    pub unit: Option<u64>,
    /// Streamed reasoning text.
    pub content: String,
    pub copy_source: String,
    /// Whether reasoning chunks are still streaming into this node.
    pub streaming: bool,
    /// Turn this node's reasoning belongs to.
    pub turn: Option<u64>,
}

#[derive(Debug, Clone, PartialEq, Eq)]
pub enum DisplayItem {
    Activity(ActivityRow),
    Block(TranscriptBlock),
    Card(ContentCard),
    Composite { activity: ActivityRow, detail: ContentCard },
    Thinking(ThinkingNode),
}

/// The identity a display item is known by.
pub open spec fn item_id(item: DisplayItem) -> DisplayId {
    match item {
        DisplayItem::Activity(row) => row.id,
        DisplayItem::Block(block) => block.id,
        DisplayItem::Card(card) => card.id,
        DisplayItem::Composite { activity, .. } => activity.id,
        DisplayItem::Thinking(node) => node.row.id,
    }
}

impl DisplayItem {
    pub fn id(&self) -> (r: &DisplayId)
        ensures
            *r == item_id(*self),
    {
        match self {
            DisplayItem::Activity(row) => &row.id,
            DisplayItem::Block(block) => &block.id,
            DisplayItem::Card(card) => &card.id,
            DisplayItem::Composite { activity, .. } => &activity.id,
            DisplayItem::Thinking(node) => &node.row.id,
        }
    }

    pub fn is_activity(&self) -> (r: bool)
        ensures
            r == (*self is Activity || *self is Composite || *self is Thinking),
    {
        matches!(
            self,
            DisplayItem::Activity(_) | DisplayItem::Composite { .. } | DisplayItem::Thinking(_)
        )
    }
}

#[derive(Debug, Clone, Copy, PartialEq, Eq, Hash, Structural)]
pub enum InputAccessoryKind {
    Approval,
    Queue,
    Todo,
    Goal,
    Plan,
}

#[derive(Debug, Clone, Copy, PartialEq, Eq, Structural)]
pub struct InputAccessory {
    pub kind: InputAccessoryKind,
    pub priority: u16,
    pub desired_rows: u16,
    pub minimum_rows: u16,
    pub blocking: bool,
    pub insertion_order: u64,
}

#[derive(Debug, Clone, Copy, PartialEq, Eq, Structural)]
pub struct AccessoryAllocation {
    pub kind: InputAccessoryKind,
    pub rows: u16,
    pub focused: bool,
}

/// Allocation order: higher priority first, then earlier insertion.
pub open spec fn accessory_after(a: InputAccessory, b: InputAccessory) -> bool {
    a.priority < b.priority || (a.priority == b.priority && a.insertion_order > b.insertion_order)
}

pub open spec fn by_priority() -> spec_fn(InputAccessory, InputAccessory) -> bool {
    |a: InputAccessory, b: InputAccessory| accessory_after(a, b)
}

/// The fixed top-to-bottom order of the strip.
pub open spec fn visual_rank(kind: InputAccessoryKind) -> nat {
    match kind {
        InputAccessoryKind::Approval => 0,
        InputAccessoryKind::Goal => 1,
        InputAccessoryKind::Plan => 2,
        InputAccessoryKind::Todo => 3,
        InputAccessoryKind::Queue => 4,
    }
}

pub open spec fn by_visual_rank() -> spec_fn(AccessoryAllocation, AccessoryAllocation) -> bool {
    |a: AccessoryAllocation, b: AccessoryAllocation| visual_rank(a.kind) > visual_rank(b.kind)
}

/// The kind of the first blocking accessory.
pub open spec fn first_blocking(ranked: Seq<InputAccessory>) -> Option<InputAccessoryKind>
    decreases ranked.len(),
{
    if ranked.len() == 0 {
        None
    } else if ranked[0].blocking {
        Some(ranked[0].kind)
    } else {
        first_blocking(ranked.drop_first())
    }
}

/// Greedy allocation in ranked order: each accessory takes its desired rows,
/// capped by what is left, and is skipped when that falls below its minimum.
pub open spec fn allocate(
    ranked: Seq<InputAccessory>,
    budget: nat,
    focused: Option<InputAccessoryKind>,
) -> Seq<AccessoryAllocation>
    decreases ranked.len(),
{
    if ranked.len() == 0 || budget == 0 {
        Seq::empty()
    } else {
        let item = ranked[0];
        let wanted = if (item.desired_rows as nat) < budget {
            item.desired_rows as nat
        } else {
            budget
        };
        if wanted == 0 || wanted < item.minimum_rows {
            allocate(ranked.drop_first(), budget, focused)
        } else {
            seq![
                AccessoryAllocation {
                    kind: item.kind,
                    rows: wanted as u16,
                    focused: focused == Some(item.kind),
                },
            ] + allocate(ranked.drop_first(), (budget - wanted) as nat, focused)
        }
    }
}

/// Rows an allocation plan uses.
pub open spec fn rows_used(plan: Seq<AccessoryAllocation>) -> nat
    decreases plan.len(),
{
    if plan.len() == 0 {
        0
    } else {
        plan[0].rows as nat + rows_used(plan.drop_first())
    }
}

/// The strip plan for `accessories` in `budget` rows, in visual order.
pub open spec fn accessory_plan(accessories: Seq<InputAccessory>, budget: nat) -> Seq<
    AccessoryAllocation,
> {
    let ranked = insertion_sorted(accessories, by_priority());
    insertion_sorted(allocate(ranked, budget, first_blocking(ranked)), by_visual_rank())
}

pub proof fn lemma_allocate_bounded(
    ranked: Seq<InputAccessory>,
    budget: nat,
    focused: Option<InputAccessoryKind>,
)
    ensures
        rows_used(allocate(ranked, budget, focused)) <= budget,
    decreases ranked.len(),
{
    if ranked.len() > 0 && budget > 0 {
        let item = ranked[0];
        let wanted = if (item.desired_rows as nat) < budget {
            item.desired_rows as nat
        } else {
            budget
        };
        lemma_allocate_bounded(ranked.drop_first(), budget, focused);
        if !(wanted == 0 || wanted < item.minimum_rows) {
            lemma_allocate_bounded(ranked.drop_first(), (budget - wanted) as nat, focused);
            let rest = allocate(ranked.drop_first(), (budget - wanted) as nat, focused);
            let head = AccessoryAllocation {
                kind: item.kind,
                rows: wanted as u16,
                focused: focused == Some(item.kind),
            };
            assert((seq![head] + rest).drop_first() =~= rest);
        }
    }
}

/// Reordering a plan keeps the rows it uses.
pub proof fn lemma_rows_used_permutation(a: Seq<AccessoryAllocation>, b: Seq<AccessoryAllocation>)
    requires
        a.to_multiset() == b.to_multiset(),
    ensures
        rows_used(a) == rows_used(b),
    decreases a.len(),
{
    broadcast use vstd::seq_lib::group_to_multiset_ensures;

    if a.len() == 0 {
        assert(b.to_multiset().len() == 0);
        assert(b.len() == 0);
    } else {
        let x = a[0];
        assert(a.to_multiset().contains(x));
        assert(b.to_multiset().contains(x));
        let i = choose|i: int| 0 <= i < b.len() && b[i] == x;
        let b2 = b.remove(i);
        assert(a.drop_first().to_multiset() == a.to_multiset().remove(x)) by {
            assert(a =~= seq![x] + a.drop_first());
            vstd::seq_lib::lemma_multiset_commutative(seq![x], a.drop_first());
        }
        assert(b2.to_multiset() == b.to_multiset().remove(x)) by {
            assert(b =~= b.take(i) + seq![x] + b.skip(i + 1));
            assert(b2 =~= b.take(i) + b.skip(i + 1));
            vstd::seq_lib::lemma_multiset_commutative(b.take(i) + seq![x], b.skip(i + 1));
            vstd::seq_lib::lemma_multiset_commutative(b.take(i), seq![x]);
            vstd::seq_lib::lemma_multiset_commutative(b.take(i), b.skip(i + 1));
        }
        lemma_rows_used_permutation(a.drop_first(), b2);
        lemma_rows_used_remove(b, i);
    }
}

proof fn lemma_rows_used_remove(b: Seq<AccessoryAllocation>, i: int)
    requires
        0 <= i < b.len(),
    ensures
        rows_used(b) == b[i].rows + rows_used(b.remove(i)),
    decreases b.len(),
{
    if i > 0 {
        lemma_rows_used_remove(b.drop_first(), i - 1);
        assert(b.remove(i).drop_first() =~= b.drop_first().remove(i - 1));
    } else {
        assert(b.remove(0) =~= b.drop_first());
    }
}

/// The strip never uses more rows than its budget.
pub proof fn lemma_accessory_plan_bounded(accessories: Seq<InputAccessory>, budget: nat)
    ensures
        rows_used(accessory_plan(accessories, budget)) <= budget,
{
    let ranked = insertion_sorted(accessories, by_priority());
    let plan = allocate(ranked, budget, first_blocking(ranked));
    lemma_allocate_bounded(ranked, budget, first_blocking(ranked));
    lemma_insertion_sorted_permutes(plan, by_visual_rank());
    lemma_rows_used_permutation(insertion_sorted(plan, by_visual_rank()), plan);
}

fn accessory_after_exec(a: &InputAccessory, b: &InputAccessory) -> (r: bool)
    ensures
        r == accessory_after(*a, *b),
{
    a.priority < b.priority || (a.priority == b.priority && a.insertion_order > b.insertion_order)
}

fn visual_rank_exec(kind: InputAccessoryKind) -> (r: u8)
    ensures
        r == visual_rank(kind),
{
    match kind {
        InputAccessoryKind::Approval => 0,
        InputAccessoryKind::Goal => 1,
        InputAccessoryKind::Plan => 2,
        InputAccessoryKind::Todo => 3,
        InputAccessoryKind::Queue => 4,
    }
}

fn insert_accessory(v: &mut Vec<InputAccessory>, x: InputAccessory)
    ensures
        final(v)@ == insert_sorted(old(v)@, x, by_priority()),
{
    let ghost s = v@;
    let mut p: usize = 0;
    proof {
        assert(s.skip(0) =~= s);
    }
    while p < v.len() && !accessory_after_exec(&v[p], &x)
        invariant
            p <= v@.len(),
            v@ == s,
            insert_position(s, x, by_priority()) == p + insert_position(s.skip(p as int), x, by_priority()),
        decreases v.len() - p,
    {
        proof {
            assert(s.skip(p as int).drop_first() =~= s.skip(p + 1));
            assert(s.skip(p as int)[0] == s[p as int]);
        }
        p = p + 1;
    }
    proof {
        if p < s.len() {
            assert(s.skip(p as int)[0] == s[p as int]);
        }
    }
    v.insert(p, x);
}

fn insert_allocation(v: &mut Vec<AccessoryAllocation>, x: AccessoryAllocation)
    ensures
        final(v)@ == insert_sorted(old(v)@, x, by_visual_rank()),
{
    let ghost s = v@;
    let mut p: usize = 0;
    proof {
        assert(s.skip(0) =~= s);
    }
    while p < v.len() && !(visual_rank_exec(v[p].kind) > visual_rank_exec(x.kind))
        invariant
            p <= v@.len(),
            v@ == s,
            insert_position(s, x, by_visual_rank()) == p + insert_position(s.skip(p as int), x, by_visual_rank()),
        decreases v.len() - p,
    {
        proof {
            assert(s.skip(p as int).drop_first() =~= s.skip(p + 1));
            assert(s.skip(p as int)[0] == s[p as int]);
        }
        p = p + 1;
    }
    proof {
        if p < s.len() {
            assert(s.skip(p as int)[0] == s[p as int]);
        }
    }
    v.insert(p, x);
}

/// Allocate the bounded strip above the editor. Blocking accessories keep
/// their minimum before informational rows; focus belongs to the kind of the
/// highest-priority blocking accessory only. The result is in visual order.
pub fn allocate_accessories(accessories: &[InputAccessory], row_budget: u16) -> (r: Vec<
    AccessoryAllocation,
>)
    ensures
        r@ == accessory_plan(accessories@, row_budget as nat),
        rows_used(r@) <= row_budget,
{
    let mut ranked: Vec<InputAccessory> = Vec::new();
    let mut i: usize = 0;
    while i < accessories.len()
        invariant
            i <= accessories@.len(),
            ranked@ == insertion_sorted(accessories@.take(i as int), by_priority()),
        decreases accessories.len() - i,
    {
        proof {
            assert(accessories@.take(i + 1).drop_last() =~= accessories@.take(i as int));
        }
        insert_accessory(&mut ranked, accessories[i]);
        i = i + 1;
    }
    proof {
        assert(accessories@.take(i as int) =~= accessories@);
    }
    let ghost rs = ranked@;
    let mut j: usize = 0;
    proof {
        assert(rs.skip(0) =~= rs);
    }
    while j < ranked.len() && !ranked[j].blocking
        invariant
            j <= rs.len(),
            ranked@ == rs,
            first_blocking(rs) == first_blocking(rs.skip(j as int)),
        decreases ranked.len() - j,
    {
        proof {
            assert(rs.skip(j as int).drop_first() =~= rs.skip(j + 1));
        }
        j = j + 1;
    }
    let focused: Option<InputAccessoryKind> = if j < ranked.len() {
        proof {
            assert(rs.skip(j as int)[0] == rs[j as int]);
        }
        Some(ranked[j].kind)
    } else {
        proof {
            assert(rs.skip(j as int).len() == 0);
        }
        None
    };
    let ghost fk = first_blocking(rs);
    assert(focused == fk);
    let mut remaining = row_budget;
    let mut allocated: Vec<AccessoryAllocation> = Vec::new();
    let mut k: usize = 0;
    proof {
        assert(rs.skip(0) =~= rs);
        assert(allocated@ + allocate(rs.skip(0), remaining as nat, fk) =~= allocate(rs, row_budget as nat, fk));
    }
    while k < ranked.len() && remaining > 0
        invariant
            k <= rs.len(),
            ranked@ == rs,
            focused == fk,
            allocated@ + allocate(rs.skip(k as int), remaining as nat, fk) == allocate(
                rs,
                row_budget as nat,
                fk,
            ),
        decreases ranked.len() - k,
    {
        let item = ranked[k];
        proof {
            assert(rs.skip(k as int).drop_first() =~= rs.skip(k + 1));
            assert(rs.skip(k as int)[0] == item);
        }
        let wanted = if item.desired_rows < remaining {
            item.desired_rows
        } else {
            remaining
        };
        if !(wanted == 0 || wanted < item.minimum_rows) {
            let is_focused = match focused {
                Some(f) => f == item.kind,
                None => false,
            };
            let a = AccessoryAllocation { kind: item.kind, rows: wanted, focused: is_focused };
            let ghost before = allocated@;
            allocated.push(a);
            proof {
                assert(allocated@ + allocate(rs.skip(k + 1), (remaining - wanted) as nat, fk) =~= before
                    + allocate(rs.skip(k as int), remaining as nat, fk));
            }
            remaining = remaining - wanted;
        }
        k = k + 1;
    }
    proof {
        assert(allocate(rs.skip(k as int), remaining as nat, fk) =~= Seq::<AccessoryAllocation>::empty());
        assert(allocated@ =~= allocate(rs, row_budget as nat, fk));
    }
    let ghost plan = allocated@;
    let mut result: Vec<AccessoryAllocation> = Vec::new();
    let mut m: usize = 0;
    while m < allocated.len()
        invariant
            m <= plan.len(),
            allocated@ == plan,
            result@ == insertion_sorted(plan.take(m as int), by_visual_rank()),
        decreases allocated.len() - m,
    {
        proof {
            assert(plan.take(m + 1).drop_last() =~= plan.take(m as int));
        }
        insert_allocation(&mut result, allocated[m]);
        m = m + 1;
    }
    proof {
        assert(plan.take(m as int) =~= plan);
        lemma_accessory_plan_bounded(accessories@, row_budget as nat);
    }
    result
}

} // verus!
