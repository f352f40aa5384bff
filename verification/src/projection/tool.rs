//! Tool calls and folded file reads/edits as public activity rows.
use vstd::prelude::*;

use crate::agent::timeline::{TimelineFact, TimelineRecord};
use crate::agent::tool::{
    workspace_relative, workspace_relative_path, ActivityState as AgentActivityState, ToolActivity,
    ToolCapability, ToolReference,
};
use crate::display::{ActivityContinuation, ActivityRow, ActivityState, DisplayId};
use crate::execution_history::{line_count, ObservedOutputLines};
use crate::text::{decimal, owned, str_eq};
use crate::table::{table_get, table_insert, table_keys_unique, table_map, table_remove};

verus! {

#[derive(Debug, Clone, Copy, PartialEq, Eq, Hash, Structural)]
pub enum FileAction {
    Read,
    View,
    Edit,
    Replace,
    Insert,
    Create,
}

pub open spec fn action_label(action: FileAction) -> Seq<char> {
    match action {
        FileAction::Read => "read"@,
        FileAction::View => "view"@,
        FileAction::Edit => "edit"@,
        FileAction::Replace => "replace"@,
        FileAction::Insert => "insert"@,
        FileAction::Create => "create"@,
    }
}

impl FileAction {
    pub fn label(self) -> (r: &'static str)
        ensures
            r@ == action_label(self),
    {
        match self {
            FileAction::Read => "read",
            FileAction::View => "view",
            FileAction::Edit => "edit",
            FileAction::Replace => "replace",
            FileAction::Insert => "insert",
            FileAction::Create => "create",
        }
    }

    /// Creations stand alone; every other file action folds into a group.
    fn foldable(self) -> (r: bool)
        ensures
            r == (self != FileAction::Create),
    {
        !matches!(self, FileAction::Create)
    }
}

#[derive(Debug, Clone)]
pub struct FileItemProjection {
    pub action: FileAction,
    pub call_id: String,
    pub file: String,
    pub ok: Option<bool>,
}

#[derive(Debug, Clone)]
struct FileItem {
    action: FileAction,
    call_id: String,
    file: String,
    ok: Option<bool>,
}

#[derive(Debug, Clone)]
struct ToolCallState {
    row_id: DisplayId,
    start_ms: u64,
    create: bool,
}

#[derive(Debug, Clone)]
struct FileGroupState {
    id: DisplayId,
    items: Vec<FileItem>,
    start_ms: u64,
}

#[derive(Debug, Clone, PartialEq, Eq)]
pub enum ToolMutation {
    Upsert(ActivityRow),
    MissingResult,
    /// Interaction-only tools have their own page and never enter the
    /// transcript activity surface.
    Ignore,
}

/// A recorded call: the row it feeds, when it started, whether it creates.
pub struct CallView {
    pub row: Seq<char>,
    pub start: u64,
    pub create: bool,
}

/// One file in a folded group; `ok` is unknown until its result arrives.
pub struct ItemView {
    pub action: FileAction,
    pub call: Seq<char>,
    pub file: Seq<char>,
    pub ok: Option<bool>,
}

/// A folded group of file calls.
pub struct GroupView {
    pub items: Seq<ItemView>,
    pub start: u64,
}

spec fn item_view(item: FileItem) -> ItemView {
    ItemView { action: item.action, call: item.call_id@, file: item.file@, ok: item.ok }
}

pub open spec fn projection_view(p: FileItemProjection) -> ItemView {
    ItemView { action: p.action, call: p.call_id@, file: p.file@, ok: p.ok }
}

spec fn group_view(g: FileGroupState) -> GroupView {
    GroupView { items: g.items@.map_values(|i: FileItem| item_view(i)), start: g.start_ms }
}

spec fn call_view(c: ToolCallState) -> CallView {
    CallView { row: c.row_id.0@, start: c.start_ms, create: c.create }
}

/// The file action a tool capability performs, if any.
pub open spec fn capability_action(c: ToolCapability) -> Option<FileAction> {
    match c {
        ToolCapability::Read => Some(FileAction::Read),
        ToolCapability::View => Some(FileAction::View),
        ToolCapability::Edit => Some(FileAction::Edit),
        ToolCapability::Insert => Some(FileAction::Insert),
        ToolCapability::Replace => Some(FileAction::Replace),
        ToolCapability::Create => Some(FileAction::Create),
        _ => None,
    }
}

/// The one file a reference names: a path, lines of a path, a diff of a
/// path, or hunks that all name the same path.
pub open spec fn reference_path(r: Option<ToolReference>) -> Option<Seq<char>> {
    match r {
        Some(ToolReference::Path { path }) => Some(path@),
        Some(ToolReference::Lines { path, .. }) => Some(path@),
        Some(ToolReference::Diff { path: Some(p), .. }) => Some(p@),
        Some(ToolReference::Hunks(hs)) => if hs@.len() > 0 && hs@[0].path is Some && forall|i: int|
            0 <= i < hs@.len() ==> ((#[trigger] hs@[i]).path matches Some(p) && p@ == hs@[0].path->0@) {
            Some(hs@[0].path->0@)
        } else {
            None
        },
        _ => None,
    }
}

/// The file call an activity is, with its workspace-relative path.
pub open spec fn file_call(a: ToolActivity, workspace: Option<Seq<char>>) -> Option<(FileAction, Seq<char>)> {
    match capability_action(a.capability) {
        Some(action) => match reference_path(a.reference) {
            Some(p) => Some((action, workspace_relative(p, workspace))),
            None => None,
        },
        None => None,
    }
}

pub open spec fn opt_str_view(o: Option<&str>) -> Option<Seq<char>> {
    match o {
        Some(s) => Some(s@),
        None => None,
    }
}

/// The single-file action of a tool call: its file action and the path it
/// touches, relative to the workspace when inside it.
pub fn classify_file_call(activity: &ToolActivity, workspace: Option<&str>) -> (r: Option<(FileAction, String)>)
    ensures
        match r {
            Some((a, p)) => file_call(*activity, opt_str_view(workspace)) == Some((a, p@)),
            None => file_call(*activity, opt_str_view(workspace)) is None,
        },
{
    let action = match activity.capability {
        ToolCapability::Read => FileAction::Read,
        ToolCapability::View => FileAction::View,
        ToolCapability::Edit => FileAction::Edit,
        ToolCapability::Insert => FileAction::Insert,
        ToolCapability::Replace => FileAction::Replace,
        ToolCapability::Create => FileAction::Create,
        _ => {
            return None;
        },
    };
    let path: &String = match &activity.reference {
        Some(ToolReference::Path { path }) => path,
        Some(ToolReference::Lines { path, .. }) => path,
        Some(ToolReference::Diff { path: Some(path), .. }) => path,
        Some(ToolReference::Hunks(hunks)) => {
            if hunks.len() == 0 {
                return None;
            }
            let first: &String = match &hunks[0].path {
                Some(p) => p,
                None => {
                    return None;
                },
            };
            let mut i: usize = 0;
            while i < hunks.len()
                invariant
                    i <= hunks@.len(),
                    hunks@.len() > 0,
                    hunks@[0].path == Some(*first),
                    activity.reference == Some(ToolReference::Hunks(*hunks)),
                    capability_action(activity.capability) == Some(action),
                    forall|k: int|
                        0 <= k < i ==> ((#[trigger] hunks@[k]).path matches Some(p) && p@ == first@),
                decreases hunks.len() - i,
            {
                let same = match &hunks[i].path {
                    Some(p) => str_eq(p.as_str(), first.as_str()),
                    None => false,
                };
                if !same {
                    proof {
                        assert(!((hunks@[i as int]).path matches Some(p) && p@ == hunks@[0].path->0@));
                    }
                    return None;
                }
                i = i + 1;
            }
            first
        },
        _ => {
            return None;
        },
    };
    Some((action, workspace_relative_path(path.as_str(), workspace)))
}

/// How a group of file calls stands: running while any result is pending,
/// successful when every call succeeded, failed otherwise.
pub open spec fn group_state(items: Seq<ItemView>) -> ActivityState {
    if exists|i: int| 0 <= i < items.len() && (#[trigger] items[i]).ok is None {
        ActivityState::Running
    } else if forall|i: int| 0 <= i < items.len() ==> (#[trigger] items[i]).ok == Some(true) {
        ActivityState::Success
    } else {
        ActivityState::Failure
    }
}

pub open spec fn sat_sub(a: u64, b: u64) -> u64 {
    if a >= b {
        (a - b) as u64
    } else {
        0
    }
}

/// The row a folded group shows: its first file as label and summary, each
/// further file as a `; `-separated continuation.
pub open spec fn group_row(row: ActivityRow, id: Seq<char>, g: GroupView, now: u64) -> bool {
    let items = g.items;
    &&& row.id.0@ == id
    &&& row.label@ == if items.len() > 0 {
        action_label(items[0].action)
    } else {
        "files"@
    }
    &&& row.summary@ == if items.len() > 0 {
        items[0].file
    } else {
        Seq::<char>::empty()
    }
    &&& row.continuations@.len() == if items.len() > 0 {
        items.len() - 1
    } else {
        0
    }
    &&& forall|k: int|
        0 <= k < row.continuations@.len() ==> {
            &&& (#[trigger] row.continuations@[k]).separator@ == "; "@
            &&& row.continuations@[k].label@ == action_label(items[k + 1].action)
            &&& row.continuations@[k].summary@ == items[k + 1].file
        }
    &&& row.state == group_state(items)
    &&& row.start_ms == Some(g.start)
    &&& row.duration_ms == if group_state(items) == ActivityState::Running {
        None
    } else {
        Some(sat_sub(now, g.start))
    }
    &&& row.output_lines is None
    &&& !row.output_lines_truncated
    &&& row.live_duration_since is None
    &&& row.parent_id is None
    &&& row.depth == 0
    &&& row.count == 1
}

fn file_group_row(group: &FileGroupState, now_ms: u64) -> (r: ActivityRow)
    ensures
        group_row(r, group.id.0@, group_view(*group), now_ms),
{
    let ghost g = group_view(*group);
    let n = group.items.len();
    let mut continuations: Vec<ActivityContinuation> = Vec::new();
    let mut i: usize = 1;
    while i < n
        invariant
            1 <= i,
            n == group.items@.len(),
            i <= n || (n == 0 && i == 1),
            g == group_view(*group),
            continuations@.len() == i - 1,
            forall|k: int|
                0 <= k < continuations@.len() ==> {
                    &&& (#[trigger] continuations@[k]).separator@ == "; "@
                    &&& continuations@[k].label@ == action_label(g.items[k + 1].action)
                    &&& continuations@[k].summary@ == g.items[k + 1].file
                },
        decreases n - i,
    {
        let item = &group.items[i];
        proof {
            assert(g.items[i as int] == item_view(group.items@[i as int]));
        }
        continuations.push(
            ActivityContinuation {
                separator: owned("; "),
                label: owned(item.action.label()),
                summary: item.file.clone(),
            },
        );
        i = i + 1;
    }
    let mut pending = false;
    let mut all_ok = true;
    let mut j: usize = 0;
    while j < n
        invariant
            j <= n,
            n == group.items@.len(),
            g == group_view(*group),
            pending == exists|k: int| 0 <= k < j && (#[trigger] g.items[k]).ok is None,
            all_ok == forall|k: int| 0 <= k < j ==> (#[trigger] g.items[k]).ok == Some(true),
        decreases n - j,
    {
        let ok = group.items[j].ok;
        proof {
            assert(g.items[j as int] == item_view(group.items@[j as int]));
            assert(g.items[j as int].ok == ok);
        }
        if ok.is_none() {
            pending = true;
        }
        if ok != Some(true) {
            all_ok = false;
        }
        proof {
            assert forall|k: int| 0 <= k < j + 1 && (#[trigger] g.items[k]).ok is None implies pending by {
                if k < j {
                }
            }
            if all_ok {
                assert forall|k: int| 0 <= k < j + 1 implies (#[trigger] g.items[k]).ok == Some(true) by {
                    if k < j {
                    }
                }
            }
            if pending && j > 0 && ok.is_some() {
                let k = choose|k: int| 0 <= k < j && (#[trigger] g.items[k]).ok is None;
                assert(0 <= k < j + 1 && g.items[k].ok is None);
            }
            if !all_ok && ok == Some(true) {
                let k = choose|k: int| !(0 <= k < j ==> (#[trigger] g.items[k]).ok == Some(true));
                assert(!(0 <= k < j + 1 ==> g.items[k].ok == Some(true)));
            }
        }
        j = j + 1;
    }
    let mut row = ActivityRow::root(DisplayId(group.id.0.clone()), owned("files"));
    row.start_ms = Some(group.start_ms);
    if n > 0 {
        row.label = owned(group.items[0].action.label());
        row.summary = group.items[0].file.clone();
        proof {
            assert(g.items[0] == item_view(group.items@[0]));
        }
    } else {
        proof {
            reveal_strlit("files");
            assert(row.summary@ =~= Seq::<char>::empty());
        }
    }
    row.continuations = continuations;
    row.state = if pending {
        ActivityState::Running
    } else if all_ok {
        ActivityState::Success
    } else {
        ActivityState::Failure
    };
    if !pending {
        row.duration_ms = Some(now_ms.saturating_sub(group.start_ms));
    }
    proof {
        reveal_strlit("; ");
    }
    row
}


/// The interaction question tool, which has a page of its own.
pub open spec fn is_question_call(c: ToolCapability) -> bool {
    c matches ToolCapability::Custom { namespace, name } && namespace@ == "interaction"@ && name@
        == "question"@
}

/// The id of the `n`th folded file group.
pub open spec fn new_group_id(n: u64) -> Seq<char> {
    "file-group"@ + ":"@ + decimal(n as nat)
}

pub open spec fn wrapping_inc(n: u64) -> u64 {
    if n == u64::MAX {
        0
    } else {
        (n + 1) as u64
    }
}

/// Whether a call folds into the open file group.
pub open spec fn folds(a: ToolActivity, workspace: Option<Seq<char>>, merge: bool) -> bool {
    merge && (file_call(a, workspace) matches Some((action, _)) && action != FileAction::Create)
}

/// The running row of a single tool call; creations carry no live timer or
/// output count.
pub open spec fn call_row(
    row: ActivityRow,
    id: Seq<char>,
    label: Seq<char>,
    summary: Seq<char>,
    now: u64,
    create: bool,
) -> bool {
    &&& row.id.0@ == id
    &&& row.label@ == label
    &&& row.summary@ == summary
    &&& row.continuations@.len() == 0
    &&& row.state == ActivityState::Running
    &&& row.start_ms == Some(now)
    &&& row.duration_ms is None
    &&& row.output_lines == if create {
        None
    } else {
        Some(0usize)
    }
    &&& !row.output_lines_truncated
    &&& row.live_duration_since == if create {
        None
    } else {
        Some(now)
    }
    &&& row.parent_id is None
    &&& row.depth == 0
    &&& row.count == 1
}

/// The settled row of a single tool call's result.
pub open spec fn result_row(
    row: ActivityRow,
    call: CallView,
    ok: bool,
    now: u64,
    lines: nat,
    truncated: bool,
) -> bool {
    &&& row.id.0@ == call.row
    &&& row.label@ == "tool"@
    &&& row.summary@.len() == 0
    &&& row.continuations@.len() == 0
    &&& row.state == if ok {
        ActivityState::Success
    } else {
        ActivityState::Failure
    }
    &&& row.start_ms == Some(call.start)
    &&& row.duration_ms == if call.create {
        None
    } else {
        Some(sat_sub(now, call.start))
    }
    &&& row.output_lines == if call.create {
        None
    } else {
        Some(lines as usize)
    }
    &&& row.output_lines_truncated == (!call.create && truncated)
    &&& row.live_duration_since is None
    &&& row.parent_id is None
    &&& row.depth == 0
    &&& row.count == 1
}

/// The index of the first item of this call, or the length when none is.
pub open spec fn first_item(items: Seq<ItemView>, call: Seq<char>, from: int) -> int
    decreases items.len() - from,
{
    if from >= items.len() {
        items.len() as int
    } else if items[from].call == call {
        from
    } else {
        first_item(items, call, from + 1)
    }
}

/// The items with the first one of this call marked with its outcome.
pub open spec fn mark_first(items: Seq<ItemView>, call: Seq<char>, ok: bool) -> Seq<ItemView> {
    let i = first_item(items, call, 0);
    if 0 <= i < items.len() {
        items.update(i, ItemView { ok: Some(ok), ..items[i] })
    } else {
        items
    }
}

/// Per-session state of tool-call projection: which row each call feeds,
/// the calls that never show, and the folded file groups.
pub struct ToolProjectionState {
    calls: Vec<(String, ToolCallState)>,
    ignored_calls: Vec<(String, ())>,
    groups: Vec<(String, FileGroupState)>,
    open_group: Option<DisplayId>,
    next_group: u64,
}

impl ToolProjectionState {
    pub closed spec fn calls_view(&self) -> Map<Seq<char>, CallView> {
        table_map(self.calls@).map_values(|c: ToolCallState| call_view(c))
    }

    pub closed spec fn ignored_view(&self) -> Set<Seq<char>> {
        table_map(self.ignored_calls@).dom()
    }

    pub closed spec fn groups_view(&self) -> Map<Seq<char>, GroupView> {
        table_map(self.groups@).map_values(|g: FileGroupState| group_view(g))
    }

    pub closed spec fn open_view(&self) -> Option<Seq<char>> {
        match self.open_group {
            Some(id) => Some(id.0@),
            None => None,
        }
    }

    pub closed spec fn next_view(&self) -> u64 {
        self.next_group
    }

    pub closed spec fn wf(&self) -> bool {
        &&& table_keys_unique(self.calls@)
        &&& table_keys_unique(self.ignored_calls@)
        &&& table_keys_unique(self.groups@)
        &&& forall|k: Seq<char>| #[trigger]
            table_map(self.groups@).dom().contains(k) ==> table_map(self.groups@)[k].id.0@ == k
        &&& match self.open_group {
            Some(id) => table_map(self.groups@).dom().contains(id.0@),
            None => true,
        }
    }

    pub fn new() -> (r: ToolProjectionState)
        ensures
            r.wf(),
            r.calls_view() == Map::<Seq<char>, CallView>::empty(),
            r.ignored_view() == Set::<Seq<char>>::empty(),
            r.groups_view() == Map::<Seq<char>, GroupView>::empty(),
            r.open_view() is None,
            r.next_view() == 0,
    {
        let r = ToolProjectionState {
            calls: Vec::new(),
            ignored_calls: Vec::new(),
            groups: Vec::new(),
            open_group: None,
            next_group: 0,
        };
        proof {
            assert(r.calls_view() =~= Map::<Seq<char>, CallView>::empty());
            assert(r.ignored_view() =~= Set::<Seq<char>>::empty());
            assert(r.groups_view() =~= Map::<Seq<char>, GroupView>::empty());
        }
        r
    }

    /// Stop folding: the next file call starts a new group.
    pub fn close_group(&mut self)
        requires
            old(self).wf(),
        ensures
            final(self).wf(),
            final(self).open_view() is None,
            final(self).calls_view() == old(self).calls_view(),
            final(self).ignored_view() == old(self).ignored_view(),
            final(self).groups_view() == old(self).groups_view(),
            final(self).next_view() == old(self).next_view(),
    {
        self.open_group = None;
    }

    /// Project a tool call: the question tool is ignored, a file call folds
    /// into the open group (opening one when none is), any other call gets a
    /// row of its own and closes the group.
    pub fn project_call(
        &mut self,
        event: &TimelineRecord,
        session_cwd: Option<&str>,
        merge_files: bool,
        now_ms: u64,
    ) -> (r: Option<ToolMutation>)
        requires
            old(self).wf(),
        ensures
            final(self).wf(),
            match event.fact {
                TimelineFact::ToolCall(a) => if is_question_call(a.capability) {
                    &&& r == Some(ToolMutation::Ignore)
                    &&& final(self).open_view() is None
                    &&& final(self).ignored_view() == old(self).ignored_view().insert(a.id@)
                    &&& final(self).calls_view() == old(self).calls_view()
                    &&& final(self).groups_view() == old(self).groups_view()
                    &&& final(self).next_view() == old(self).next_view()
                } else if folds(a, opt_str_view(session_cwd), merge_files) {
                    let (action, path) = file_call(a, opt_str_view(session_cwd))->0;
                    let gid = match old(self).open_view() {
                        Some(g) => g,
                        None => new_group_id(old(self).next_view()),
                    };
                    let base = match old(self).open_view() {
                        Some(g) => old(self).groups_view()[g],
                        None => GroupView { items: Seq::empty(), start: now_ms },
                    };
                    let group = GroupView {
                        items: base.items.push(ItemView { action, call: a.id@, file: path, ok: None }),
                        start: base.start,
                    };
                    &&& r matches Some(ToolMutation::Upsert(row)) && group_row(row, gid, group, now_ms)
                    &&& final(self).groups_view() == old(self).groups_view().insert(gid, group)
                    &&& final(self).open_view() == Some(gid)
                    &&& final(self).next_view() == if old(self).open_view() is None {
                        wrapping_inc(old(self).next_view())
                    } else {
                        old(self).next_view()
                    }
                    &&& final(self).calls_view() == old(self).calls_view().insert(
                        a.id@,
                        CallView { row: gid, start: now_ms, create: false },
                    )
                    &&& final(self).ignored_view() == old(self).ignored_view()
                } else {
                    let (label, summary, create) = match file_call(a, opt_str_view(session_cwd)) {
                        Some((action, path)) => (action_label(action), path, action == FileAction::Create),
                        None => (a.label@, a.summary@, false),
                    };
                    let id = "tool-call"@ + ":"@ + a.id@;
                    &&& r matches Some(ToolMutation::Upsert(row)) && call_row(row, id, label, summary, now_ms, create)
                    &&& final(self).open_view() is None
                    &&& final(self).calls_view() == old(self).calls_view().insert(
                        a.id@,
                        CallView { row: id, start: now_ms, create },
                    )
                    &&& final(self).ignored_view() == old(self).ignored_view()
                    &&& final(self).groups_view() == old(self).groups_view()
                    &&& final(self).next_view() == old(self).next_view()
                },
                _ => r is None && *final(self) == *old(self),
            },
    {
        let activity = match &event.fact {
            TimelineFact::ToolCall(a) => a,
            _ => {
                return None;
            },
        };
        let call_id = &activity.id;
        let question = match &activity.capability {
            ToolCapability::Custom { namespace, name } => str_eq(namespace.as_str(), "interaction")
                && str_eq(name.as_str(), "question"),
            _ => false,
        };
        if question {
            self.open_group = None;
            table_insert(&mut self.ignored_calls, call_id.clone(), ());
            proof {
                assert(self.ignored_view() =~= old(self).ignored_view().insert(call_id@));
            }
            return Some(ToolMutation::Ignore);
        }
        let file = classify_file_call(activity, session_cwd);
        let fold = match &file {
            Some((action, _)) => merge_files && action.foldable(),
            None => false,
        };
        if fold {
            let (action, path) = match file {
                Some(f) => f,
                None => {
                    return None;
                },
            };
            let ghost old_next = self.next_group;
            let ghost was_open = self.open_group is Some;
            let key: String = match &self.open_group {
                Some(id) => id.0.clone(),
                None => {
                    let id = DisplayId::correlated("file-group", crate::text::decimal_string(self.next_group).as_str());
                    self.next_group = self.next_group.wrapping_add(1);
                    table_insert(
                        &mut self.groups,
                        id.0.clone(),
                        FileGroupState { id: DisplayId(id.0.clone()), items: Vec::new(), start_ms: now_ms },
                    );
                    self.open_group = Some(DisplayId(id.0.clone()));
                    id.0
                },
            };
            let ghost mid_groups = table_map(self.groups@);
            let mut group = match table_remove(&mut self.groups, key.as_str()) {
                Some(g) => g,
                None => {
                    return None;
                },
            };
            let ghost before = group_view(group);
            proof {
                assert(group.id.0@ == key@);
                if was_open {
                    assert(mid_groups == table_map(old(self).groups@));
                    assert(before == old(self).groups_view()[key@]);
                } else {
                    assert(before.items =~= Seq::<ItemView>::empty());
                    assert(key@ == new_group_id(old_next));
                }
            }
            group.items.push(FileItem { action, call_id: call_id.clone(), file: path, ok: None });
            let row = file_group_row(&group, now_ms);
            table_insert(&mut self.groups, key.clone(), group);
            table_insert(
                &mut self.calls,
                call_id.clone(),
                ToolCallState { row_id: DisplayId(key.clone()), start_ms: now_ms, create: false },
            );
            proof {
                assert(group_view(group).items =~= before.items.push(
                    ItemView { action, call: call_id@, file: path@, ok: None },
                ));
                assert(table_map(self.groups@) =~= mid_groups.insert(key@, group));
                assert(self.groups_view() =~= old(self).groups_view().insert(key@, group_view(group)));
                assert(self.calls_view() =~= old(self).calls_view().insert(
                    call_id@,
                    CallView { row: key@, start: now_ms, create: false },
                ));
                assert forall|k: Seq<char>| #[trigger]
                    table_map(self.groups@).dom().contains(k) implies table_map(self.groups@)[k].id.0@ == k by {
                }
            }
            return Some(ToolMutation::Upsert(row));
        }
        self.open_group = None;
        let (label, summary, create) = match file {
            Some((action, path)) => (owned(action.label()), path, matches!(action, FileAction::Create)),
            None => (activity.label.clone(), activity.summary.clone(), false),
        };
        let id = DisplayId::correlated("tool-call", call_id.as_str());
        table_insert(
            &mut self.calls,
            call_id.clone(),
            ToolCallState { row_id: DisplayId(id.0.clone()), start_ms: now_ms, create },
        );
        let mut row = ActivityRow::root(id, label);
        row.summary = summary;
        row.start_ms = Some(now_ms);
        if !create {
            row.output_lines = Some(0);
            row.live_duration_since = Some(now_ms);
        }
        proof {
            assert(self.calls_view() =~= old(self).calls_view().insert(
                call_id@,
                CallView { row: "tool-call"@ + ":"@ + call_id@, start: now_ms, create },
            ));
        }
        Some(ToolMutation::Upsert(row))
    }

    /// Project a tool result onto the row its call opened: an ignored call
    /// stays ignored, an unknown call reports a missing row, a folded call
    /// marks its file in the group, any other call settles its own row.
    pub fn project_result(&mut self, event: &TimelineRecord, now_ms: u64) -> (r: Option<ToolMutation>)
        requires
            old(self).wf(),
        ensures
            final(self).wf(),
            match event.fact {
                TimelineFact::ToolResult { activity_id, output, state, output_truncated, .. } => {
                    let id = activity_id@;
                    if old(self).ignored_view().contains(id) {
                        &&& r == Some(ToolMutation::Ignore)
                        &&& final(self).ignored_view() == old(self).ignored_view().remove(id)
                        &&& final(self).calls_view() == old(self).calls_view()
                        &&& final(self).groups_view() == old(self).groups_view()
                        &&& final(self).open_view() == old(self).open_view()
                        &&& final(self).next_view() == old(self).next_view()
                    } else if !old(self).calls_view().contains_key(id) {
                        &&& r == Some(ToolMutation::MissingResult)
                        &&& final(self).ignored_view() == old(self).ignored_view()
                        &&& final(self).calls_view() == old(self).calls_view()
                        &&& final(self).groups_view() == old(self).groups_view()
                        &&& final(self).open_view() == old(self).open_view()
                        &&& final(self).next_view() == old(self).next_view()
                    } else {
                        let call = old(self).calls_view()[id];
                        let ok = state == AgentActivityState::Success;
                        &&& final(self).ignored_view() == old(self).ignored_view()
                        &&& final(self).calls_view() == old(self).calls_view()
                        &&& final(self).open_view() == old(self).open_view()
                        &&& final(self).next_view() == old(self).next_view()
                        &&& if old(self).groups_view().contains_key(call.row) {
                            let g = old(self).groups_view()[call.row];
                            let marked = GroupView { items: mark_first(g.items, id, ok), start: g.start };
                            &&& r matches Some(ToolMutation::Upsert(row)) && group_row(row, call.row, marked, now_ms)
                            &&& final(self).groups_view() == old(self).groups_view().insert(call.row, marked)
                        } else {
                            &&& r matches Some(ToolMutation::Upsert(row)) && result_row(
                                row,
                                call,
                                ok,
                                now_ms,
                                line_count(output@),
                                output_truncated,
                            )
                            &&& final(self).groups_view() == old(self).groups_view()
                        }
                    }
                },
                _ => r is None && *final(self) == *old(self),
            },
    {
        let (activity_id, output, state, output_truncated) = match &event.fact {
            TimelineFact::ToolResult { activity_id, output, state, output_truncated, .. } => (
                activity_id,
                output,
                *state,
                *output_truncated,
            ),
            _ => {
                return None;
            },
        };
        if table_remove(&mut self.ignored_calls, activity_id.as_str()).is_some() {
            proof {
                assert(self.ignored_view() =~= old(self).ignored_view().remove(activity_id@));
            }
            return Some(ToolMutation::Ignore);
        }
        let (row_key, start_ms, create) = match table_get(&self.calls, activity_id.as_str()) {
            Some(call) => (call.row_id.0.clone(), call.start_ms, call.create),
            None => {
                return Some(ToolMutation::MissingResult);
            },
        };
        let ok = matches!(state, AgentActivityState::Success);
        let ghost old_groups = table_map(self.groups@);
        if let Some(mut group) = table_remove(&mut self.groups, row_key.as_str()) {
            let ghost before = group_view(group);
            let n = group.items.len();
            let mut i: usize = 0;
            let mut found = false;
            while i < n && !found
                invariant
                    i <= n,
                    n == group.items@.len(),
                    before == group_view(group),
                    first_item(before.items, activity_id@, 0) == first_item(before.items, activity_id@, i as int),
                    found ==> i < n && before.items[i as int].call == activity_id@,
                decreases n - i + (if found { 0int } else { 1int }),
            {
                proof {
                    assert(before.items[i as int] == item_view(group.items@[i as int]));
                }
                if str_eq(group.items[i].call_id.as_str(), activity_id.as_str()) {
                    found = true;
                } else {
                    i = i + 1;
                }
            }
            if found {
                let item = FileItem {
                    action: group.items[i].action,
                    call_id: group.items[i].call_id.clone(),
                    file: group.items[i].file.clone(),
                    ok: Some(ok),
                };
                group.items.set(i, item);
                proof {
                    assert(first_item(before.items, activity_id@, 0) == i);
                    assert(group_view(group).items =~= mark_first(before.items, activity_id@, ok));
                }
            } else {
                proof {
                    assert(first_item(before.items, activity_id@, 0) == n);
                    assert(group_view(group).items =~= mark_first(before.items, activity_id@, ok));
                }
            }
            let row = file_group_row(&group, now_ms);
            proof {
                assert(group.id.0@ == row_key@);
            }
            table_insert(&mut self.groups, row_key, group);
            proof {
                assert(self.groups_view() =~= old(self).groups_view().insert(
                    row_key@,
                    GroupView { items: mark_first(before.items, activity_id@, ok), start: before.start },
                ));
            }
            return Some(ToolMutation::Upsert(row));
        }
        let mut row = ActivityRow::root(DisplayId(row_key), owned("tool"));
        row.state = if ok {
            ActivityState::Success
        } else {
            ActivityState::Failure
        };
        row.start_ms = Some(start_ms);
        if !create {
            row.duration_ms = Some(now_ms.saturating_sub(start_ms));
            row.output_lines = Some(ObservedOutputLines::from_output(output.as_str(), output_truncated).count);
            row.output_lines_truncated = output_truncated;
        }
        proof {
            reveal_strlit("tool");
        }
        Some(ToolMutation::Upsert(row))
    }

    /// The row a call feeds.
    pub fn row_for_call(&self, call_id: &str) -> (r: Option<&DisplayId>)
        requires
            self.wf(),
        ensures
            match r {
                Some(id) => self.calls_view().contains_key(call_id@) && id.0@ == self.calls_view()[call_id@].row,
                None => !self.calls_view().contains_key(call_id@),
            },
    {
        match table_get(&self.calls, call_id) {
            Some(call) => Some(&call.row_id),
            None => None,
        }
    }

    /// The files of a folded group, in call order.
    pub fn group_items(&self, id: &DisplayId) -> (r: Option<Vec<FileItemProjection>>)
        requires
            self.wf(),
        ensures
            match r {
                Some(v) => self.groups_view().contains_key(id.0@) && v@.len() == self.groups_view()[id.0@].items.len()
                    && forall|k: int|
                    0 <= k < v@.len() ==> (#[trigger] projection_view(v@[k])) == self.groups_view()[id.0@].items[k],
                None => !self.groups_view().contains_key(id.0@),
            },
    {
        match table_get(&self.groups, id.0.as_str()) {
            Some(group) => {
                let ghost g = group_view(*group);
                let mut out: Vec<FileItemProjection> = Vec::new();
                let mut i: usize = 0;
                while i < group.items.len()
                    invariant
                        i <= group.items@.len(),
                        g == group_view(*group),
                        out@.len() == i,
                        forall|k: int| 0 <= k < i ==> (#[trigger] projection_view(out@[k])) == g.items[k],
                    decreases group.items.len() - i,
                {
                    let item = &group.items[i];
                    proof {
                        assert(g.items[i as int] == item_view(group.items@[i as int]));
                    }
                    out.push(
                        FileItemProjection {
                            action: item.action,
                            call_id: item.call_id.clone(),
                            file: item.file.clone(),
                            ok: item.ok,
                        },
                    );
                    i = i + 1;
                }
                Some(out)
            },
            None => None,
        }
    }
}

impl Default for ToolProjectionState {
    fn default() -> (r: ToolProjectionState)
        ensures
            r.wf(),
            r.calls_view() == Map::<Seq<char>, CallView>::empty(),
            r.ignored_view() == Set::<Seq<char>>::empty(),
            r.groups_view() == Map::<Seq<char>, GroupView>::empty(),
            r.open_view() is None,
            r.next_view() == 0,
    {
        ToolProjectionState::new()
    }
}

} // verus!
