//! Normalized agent-event classification and transcript storage.
use vstd::prelude::*;

pub mod activity;
pub mod command;
pub mod lifecycle;
pub mod retry;
pub mod store;
pub mod tool;
pub mod workflow;

pub use activity::{
    ActivityMutation, PendingActivityEnrichment, PendingActivityResult, PendingToolResult,
};
pub use store::{TranscriptNode, TranscriptStore};

use crate::agent::tool::ToolItem;
use crate::display::{DisplayId, DisplayItem};
use crate::preview::{PreviewRef, ToolPreview};
use crate::table::{table_drain, table_insert, table_keys_unique, table_map, table_remove};
use tool::ToolProjectionState;

verus! {

#[derive(Debug, Clone, PartialEq)]
pub enum ProjectionEffect {
    Reduce { insert_at: Option<usize> },
    SurfaceMutation { remove_indices: Vec<usize>, insert_at: Option<usize> },
    Display(DisplayItem),
    PageState(PageStateEffect),
    AccessoryState(AccessoryStateEffect),
    CompatibilityError(String),
    Ignore,
}

#[derive(Debug, Clone, PartialEq, Eq)]
pub enum PageStateEffect {
    Title(Option<String>),
}

#[derive(Debug, Clone, PartialEq, Eq)]
pub enum AccessoryStateEffect {
    Todo(Vec<(String, String)>),
    ClearTodo,
}

/// Correlation state of event projection: which rows and surfaces each
/// event id owns, and the results that wait for their rows. Tables are
/// keyed by the correlation id's text.
pub struct EventProjector {
    pub shadowed_surface_seqs: Vec<u64>,
    pub surface_order: Vec<u64>,
    pub surface_owners: Vec<(u64, usize)>,
    pub pending_surface_insert_at: Option<usize>,
    pub tool_calls: Vec<(String, DisplayId)>,
    /// Adapter-provided structured preview seed keyed by call id, retained so
    /// a result can enrich the same target instead of replacing it.
    pub tool_preview_seeds: Vec<(String, ToolPreview)>,
    pub commands: Vec<(String, DisplayId)>,
    pub retries: Vec<(String, DisplayId)>,
    pub compactions: Vec<(String, DisplayId)>,
    pub nested_calls: Vec<(String, DisplayId)>,
    pub workflows: Vec<(String, DisplayId)>,
    pub tool_family: ToolProjectionState,
    pub pending_tool_results: Vec<(String, PendingToolResult)>,
    pub pending_activity_results: Vec<(String, PendingActivityResult)>,
    pub pending_activity_enrichments: Vec<(String, PendingActivityEnrichment)>,
}

impl EventProjector {
    /// Each pending table names an id at most once.
    pub open spec fn wf(&self) -> bool {
        &&& table_keys_unique(self.pending_tool_results@)
        &&& table_keys_unique(self.pending_activity_results@)
        &&& table_keys_unique(self.pending_activity_enrichments@)
    }

    pub fn new() -> (r: EventProjector)
        ensures
            r.wf(),
            r.pending_tool_results@.len() == 0,
            r.pending_activity_results@.len() == 0,
            r.pending_activity_enrichments@.len() == 0,
    {
        EventProjector {
            shadowed_surface_seqs: Vec::new(),
            surface_order: Vec::new(),
            surface_owners: Vec::new(),
            pending_surface_insert_at: None,
            tool_calls: Vec::new(),
            tool_preview_seeds: Vec::new(),
            commands: Vec::new(),
            retries: Vec::new(),
            compactions: Vec::new(),
            nested_calls: Vec::new(),
            workflows: Vec::new(),
            tool_family: ToolProjectionState::new(),
            pending_tool_results: Vec::new(),
            pending_activity_results: Vec::new(),
            pending_activity_enrichments: Vec::new(),
        }
    }

    /// Keep a tool result until its call's row exists.
    pub fn remember_tool_result(&mut self, call_id: String, result: PendingToolResult)
        requires
            old(self).wf(),
        ensures
            final(self).wf(),
            table_map(final(self).pending_tool_results@) == table_map(old(self).pending_tool_results@).insert(
                call_id@,
                result,
            ),
            table_map(final(self).pending_activity_results@) == table_map(old(self).pending_activity_results@),
            table_map(final(self).pending_activity_enrichments@) == table_map(
                old(self).pending_activity_enrichments@,
            ),
    {
        table_insert(&mut self.pending_tool_results, call_id, result);
    }

    /// The result kept for a call, which is then forgotten.
    pub fn take_tool_result(&mut self, call_id: &str) -> (r: Option<PendingToolResult>)
        requires
            old(self).wf(),
        ensures
            final(self).wf(),
            table_map(final(self).pending_tool_results@) == table_map(old(self).pending_tool_results@).remove(call_id@),
            r == table_map(old(self).pending_tool_results@).get(call_id@),
            table_map(final(self).pending_activity_results@) == table_map(old(self).pending_activity_results@),
            table_map(final(self).pending_activity_enrichments@) == table_map(
                old(self).pending_activity_enrichments@,
            ),
    {
        table_remove(&mut self.pending_tool_results, call_id)
    }

    /// Keep a settle until its row exists.
    pub fn remember_activity_result(&mut self, id: DisplayId, result: PendingActivityResult)
        requires
            old(self).wf(),
        ensures
            final(self).wf(),
            table_map(final(self).pending_activity_results@) == table_map(old(self).pending_activity_results@).insert(
                id.0@,
                result,
            ),
            table_map(final(self).pending_tool_results@) == table_map(old(self).pending_tool_results@),
            table_map(final(self).pending_activity_enrichments@) == table_map(
                old(self).pending_activity_enrichments@,
            ),
    {
        table_insert(&mut self.pending_activity_results, id.0, result);
    }

    /// The settle kept for a row, which is then forgotten.
    pub fn take_activity_result(&mut self, id: &DisplayId) -> (r: Option<PendingActivityResult>)
        requires
            old(self).wf(),
        ensures
            final(self).wf(),
            table_map(final(self).pending_activity_results@) == table_map(old(self).pending_activity_results@).remove(
                id.0@,
            ),
            r == table_map(old(self).pending_activity_results@).get(id.0@),
            table_map(final(self).pending_tool_results@) == table_map(old(self).pending_tool_results@),
            table_map(final(self).pending_activity_enrichments@) == table_map(
                old(self).pending_activity_enrichments@,
            ),
    {
        table_remove(&mut self.pending_activity_results, id.0.as_str())
    }

    /// Keep an enrichment until its row exists.
    pub fn remember_activity_enrichment(&mut self, id: DisplayId, enrichment: PendingActivityEnrichment)
        requires
            old(self).wf(),
        ensures
            final(self).wf(),
            table_map(final(self).pending_activity_enrichments@) == table_map(
                old(self).pending_activity_enrichments@,
            ).insert(id.0@, enrichment),
            table_map(final(self).pending_tool_results@) == table_map(old(self).pending_tool_results@),
            table_map(final(self).pending_activity_results@) == table_map(old(self).pending_activity_results@),
    {
        table_insert(&mut self.pending_activity_enrichments, id.0, enrichment);
    }

    /// Every kept enrichment, each with its row id; none is kept afterwards.
    pub fn take_activity_enrichments(&mut self) -> (r: Vec<(DisplayId, PendingActivityEnrichment)>)
        requires
            old(self).wf(),
        ensures
            final(self).wf(),
            final(self).pending_activity_enrichments@.len() == 0,
            r@.len() == old(self).pending_activity_enrichments@.len(),
            forall|k: int|
                0 <= k < r@.len() ==> (#[trigger] r@[k]).0.0@ == old(self).pending_activity_enrichments@[k].0@
                    && r@[k].1 == old(self).pending_activity_enrichments@[k].1,
            table_map(final(self).pending_tool_results@) == table_map(old(self).pending_tool_results@),
            table_map(final(self).pending_activity_results@) == table_map(old(self).pending_activity_results@),
    {
        let drained = table_drain(&mut self.pending_activity_enrichments);
        let mut out: Vec<(DisplayId, PendingActivityEnrichment)> = Vec::new();
        let mut rest = drained;
        let ghost all = rest@;
        while rest.len() > 0
            invariant
                rest@.len() + out@.len() == all.len(),
                rest@ == all.skip(out@.len() as int),
                forall|k: int|
                    0 <= k < out@.len() ==> (#[trigger] out@[k]).0.0@ == all[k].0@ && out@[k].1 == all[k].1,
            decreases rest.len(),
        {
            let (key, value) = rest.remove(0);
            proof {
                assert(all[out@.len() as int] == (key, value));
            }
            out.push((DisplayId(key), value));
            proof {
                assert(rest@ =~= all.skip(out@.len() as int));
            }
        }
        out
    }
}

impl Default for EventProjector {
    fn default() -> (r: EventProjector)
        ensures
            r.wf(),
            r.pending_tool_results@.len() == 0,
            r.pending_activity_results@.len() == 0,
            r.pending_activity_enrichments@.len() == 0,
    {
        EventProjector::new()
    }
}

/// Canonical owner of normalized timeline projection and transcript storage.
pub struct TimelineModel {
    pub transcript: TranscriptStore,
    pub projector: EventProjector,
    /// Current whole-list todo projection rendered as an input accessory.
    pub todos: Vec<(String, String)>,
    pub goal: Option<String>,
    pub plan_mode: Option<String>,
    pub session_state_events: Vec<String>,
    pub next_thinking_id: u64,
    pub next_local_display_id: u64,
    pub pending_transcript_insert: Option<usize>,
    /// Stable display ids already present in the newer page while older
    /// history is replayed.
    pub replay_newer_display_ids: Vec<DisplayId>,
    pub replaying: bool,
    /// Adapter-provided specialized preview annotations keyed by display id.
    pub preview_refs: Vec<(String, PreviewRef)>,
    pub tool_items: Vec<(String, Vec<ToolItem>)>,
}

impl Default for TimelineModel {
    fn default() -> (r: TimelineModel)
        ensures
            r.transcript.wf(),
            r.transcript.indexed(),
            r.transcript.nodes_spec().len() == 0,
            r.projector.wf(),
            r.todos@.len() == 0,
            r.goal is None,
            r.plan_mode is None,
            r.next_thinking_id == 0,
            r.next_local_display_id == 0,
            r.pending_transcript_insert is None,
            !r.replaying,
    {
        TimelineModel {
            transcript: TranscriptStore::new(),
            projector: EventProjector::new(),
            todos: Vec::new(),
            goal: None,
            plan_mode: None,
            session_state_events: Vec::new(),
            next_thinking_id: 0,
            next_local_display_id: 0,
            pending_transcript_insert: None,
            replay_newer_display_ids: Vec::new(),
            replaying: false,
            preview_refs: Vec::new(),
            tool_items: Vec::new(),
        }
    }
}

} // verus!
