//! Kernel-neutral timeline facts produced by an agent adapter.
use vstd::prelude::*;

use super::tool::{ActivityState, ToolActivity};
use crate::preview::{MutationDiff, MutationHunk};

verus! {

#[derive(Debug, Clone, PartialEq, Eq)]
pub enum SurfaceOperation {
    Append,
    Replace { start: u64, end: u64 },
    Invalid,
}

#[derive(Debug, Clone, PartialEq, Eq)]
pub enum ContentBlock {
    Text(String),
    Reasoning(String),
    Image { label: String },
    Custom { namespace: String, kind: String },
}

#[derive(Debug, Clone, PartialEq, Eq, Default)]
pub struct MessageSource {
    pub kind: Option<String>,
    pub form: Option<String>,
    pub summary: Option<String>,
    pub producer: Option<String>,
}

#[derive(Debug, Clone, Copy, PartialEq, Eq, Default)]
pub struct TokenUsage {
    pub input_tokens: u64,
    pub output_tokens: u64,
    pub cache_read_tokens: u64,
    pub cache_write_tokens: u64,
}

#[derive(Debug, Clone, Copy, PartialEq, Eq)]
pub enum LifecycleOutcome {
    Success,
    Failure,
    Cancelled,
}

#[derive(Debug, Clone, Copy, PartialEq, Eq)]
pub struct ToolExecutionMetrics {
    pub duration_ms: Option<u64>,
    pub output_lines: Option<usize>,
    pub output_lines_truncated: bool,
    pub started_unix_ms: Option<u64>,
    pub ended_unix_ms: Option<u64>,
}

#[derive(Debug, Clone, PartialEq)]
pub enum TimelineFact {
    UserMessage {
        text: String,
        source_kind: Option<String>,
        content: Vec<ContentBlock>,
        source: MessageSource,
    },
    AssistantChunk {
        text: String,
        reasoning: String,
        turn: Option<u64>,
        step: Option<u64>,
        usage: Option<TokenUsage>,
    },
    AssistantMessage {
        text: String,
        reasoning: String,
        content: Vec<ContentBlock>,
        turn: Option<u64>,
        step: Option<u64>,
        usage: Option<TokenUsage>,
    },
    /// Provider-reported price for the immediately following final assistant
    /// message; capture metadata, never a transcript surface.
    UsageCost { usd_nanos: u64 },
    ToolCall(ToolActivity),
    ToolResult {
        activity_id: String,
        output: String,
        state: ActivityState,
        output_truncated: bool,
        /// Present only on native history/snapshot records.
        execution_metrics: Option<ToolExecutionMetrics>,
        /// Whether this result immediately begins a new model-thinking phase.
        starts_thinking: bool,
        mutation_diff: Option<MutationDiff>,
        mutation_hunks: Vec<MutationHunk>,
    },
    TurnStart,
    StepStart { turn: Option<u64>, step: Option<u64> },
    StepEnd { turn: Option<u64>, step: Option<u64> },
    TurnEnd { reason: Option<String>, error_message: Option<String>, error_code: Option<String> },
    SessionTitle { title: Option<String> },
    TodoWrite { todos: Vec<(String, String)> },
    RetryScheduled {
        id: String,
        retry: u64,
        max_retries: Option<u64>,
        delay_ms: u64,
        message: String,
    },
    RetryStarted { id: String, retry: u64 },
    CommandStarted { id: String, name: String, args: Option<String> },
    CommandFinished { id: String, success: bool, text: Option<String> },
    SubagentStarted {
        root_id: String,
        parent_id: String,
        id: String,
        name: String,
        summary: String,
    },
    SubagentFinished { id: String, failed: bool },
    WorkflowStarted { id: String, name: String },
    WorkflowMemberStarted { workflow_id: String, sequence: u64, label: String },
    WorkflowMemberFinished { workflow_id: String, sequence: u64, outcome: LifecycleOutcome },
    WorkflowFinished { id: String, outcome: LifecycleOutcome },
    CompactionStarted { id: String, model_name: Option<String> },
    AutoCompactionStarted { id: String },
    CompactionSummary { id: String, summary: String },
    CompactionFinished { id: String, model_name: Option<String>, error: Option<String> },
    AutoCompactionFinished { id: String, error: Option<String> },
    GoalChanged { summary: String },
    ModeChanged { mode: String },
    PresetSelected { preset: String },
    SessionState { state: String },
    Audit { namespace: String, kind: String },
    Custom { namespace: String, kind: Option<String>, summary: Option<String> },
}

#[derive(Debug, Clone, PartialEq)]
pub struct TimelineRecord {
    pub sequence: Option<u64>,
    pub time_ms: Option<u64>,
    pub surface: Option<SurfaceOperation>,
    pub source_sequences: Vec<u64>,
    pub fact: TimelineFact,
}

/// Facts that own a visible transcript surface.
pub open spec fn is_surface_fact(fact: TimelineFact) -> bool {
    !(fact is AssistantChunk || fact is UsageCost || fact is StepStart || fact is StepEnd
        || fact is SessionTitle || fact is Audit || fact is Custom)
}

impl TimelineRecord {
    /// Records that matter when history is replayed: surfaces, or any record
    /// carrying an explicit surface operation.
    pub fn is_replay_relevant(&self) -> (r: bool)
        ensures
            r == (is_surface_fact(self.fact) || self.surface is Some),
    {
        self.is_surface() || self.surface.is_some()
    }

    pub fn is_surface(&self) -> (r: bool)
        ensures
            r == is_surface_fact(self.fact),
    {
        match self.fact {
            TimelineFact::AssistantChunk { .. }
            | TimelineFact::UsageCost { .. }
            | TimelineFact::StepStart { .. }
            | TimelineFact::StepEnd { .. }
            | TimelineFact::SessionTitle { .. }
            | TimelineFact::Audit { .. }
            | TimelineFact::Custom { .. } => false,
            _ => true,
        }
    }
}

} // verus!
