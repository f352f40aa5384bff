//! Activity mutations and the results that wait for their rows.
use vstd::prelude::*;

use crate::agent::timeline::ToolExecutionMetrics;
use crate::display::{ActivityRow, ActivityState, DisplayId};
use crate::preview::{MutationDiff, MutationHunk};

verus! {

/// A tool result that arrived before the row it belongs to.
#[derive(Debug, Clone)]
pub struct PendingToolResult {
    pub output: String,
    pub is_error: bool,
    pub output_truncated: bool,
    pub execution_metrics: Option<ToolExecutionMetrics>,
    pub time_ms: u64,
    pub surface_seq: Option<u64>,
    pub mutation_diff: Option<MutationDiff>,
    pub mutation_hunks: Vec<MutationHunk>,
}

/// A settle that arrived before the row it settles.
#[derive(Debug, Clone)]
pub struct PendingActivityResult {
    pub label: Option<String>,
    pub state: ActivityState,
    pub summary: Option<String>,
}

/// What a projected event does to one activity row.
#[derive(Debug, Clone, PartialEq, Eq)]
pub enum ActivityMutation {
    Upsert(ActivityRow),
    Settle { id: DisplayId, label: Option<String>, state: ActivityState, summary: Option<String> },
    Enrich { id: DisplayId, summary: String, start_ms: Option<u64> },
}

/// An enrichment that arrived before the row it enriches.
#[derive(Debug, Clone)]
pub struct PendingActivityEnrichment {
    pub summary: String,
    pub start_ms: Option<u64>,
}

} // verus!
