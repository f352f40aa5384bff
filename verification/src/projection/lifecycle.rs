//! Turn lifecycle: starts, outcomes, goals, plans and session state.
use vstd::prelude::*;

use crate::agent::timeline::{TimelineFact, TimelineRecord};
use crate::display::{DisplayId, DisplayItem, DisplayTone, TranscriptBlock, TranscriptFormat};
use crate::text::{decimal, opt_view, owned, push_str, str_eq};

verus! {

#[derive(Debug, Clone, PartialEq, Eq)]
pub enum LifecycleProjection {
    TurnStart,
    TurnEnd { cancelled: bool, outcome: Option<DisplayItem> },
    Goal(Option<String>),
    Plan(Option<String>),
    Preset(String),
    SessionState(String),
    Ignore,
}

/// The localized notices a turn can end with.
#[derive(Debug, Clone, PartialEq, Eq)]
pub struct LifecycleTexts {
    pub aborted: String,
    pub turn_error: String,
    pub blocked: String,
    pub interrupted: String,
    pub max_tokens: String,
}

/// The outcome block of a turn: plain text in a tone, owned by the event.
pub open spec fn outcome_block(item: DisplayItem, sequence: Option<u64>, text: Seq<char>, tone: DisplayTone) -> bool {
    &&& item matches DisplayItem::Block(b)
    &&& b.id.0@ == match sequence {
        Some(seq) => "event:"@ + decimal(seq as nat) + ":"@ + "turn-outcome"@,
        None => "turn-outcome"@ + ":"@ + text,
    }
    &&& b.unit is None
    &&& b.content@ == text
    &&& b.format == TranscriptFormat::Plain
    &&& b.tone == tone
    &&& b.copy_source@ == text
    &&& !b.streaming
}

/// The text a failed turn reports: `MESSAGE (CODE)`, the message alone, or
/// the generic notice.
pub open spec fn error_text(message: Option<Seq<char>>, code: Option<Seq<char>>, generic: Seq<char>) -> Seq<char> {
    match (message, code) {
        (Some(m), Some(c)) => m + " ("@ + c + ")"@,
        (Some(m), None) => m,
        _ => generic,
    }
}

/// The notice and tone a turn-end reason shows, if any.
pub open spec fn reason_notice(
    reason: Option<Seq<char>>,
    message: Option<Seq<char>>,
    code: Option<Seq<char>>,
    texts: LifecycleTexts,
) -> Option<(Seq<char>, DisplayTone)> {
    match reason {
        Some(r) => if r == "aborted"@ {
            Some((texts.aborted@, DisplayTone::Dim))
        } else if r == "error"@ {
            Some((error_text(message, code, texts.turn_error@), DisplayTone::Error))
        } else if r == "blocked"@ {
            Some((texts.blocked@, DisplayTone::Dim))
        } else if r == "interrupted"@ {
            Some((texts.interrupted@, DisplayTone::Warning))
        } else if r == "max-tokens"@ {
            Some((texts.max_tokens@, DisplayTone::Warning))
        } else {
            None
        },
        None => None,
    }
}

/// A non-empty value, or nothing.
pub open spec fn non_empty(s: Seq<char>) -> Option<Seq<char>> {
    if s.len() == 0 {
        None
    } else {
        Some(s)
    }
}

fn block(sequence: Option<u64>, text: &str, tone: DisplayTone) -> (r: DisplayItem)
    ensures
        outcome_block(r, sequence, text@, tone),
{
    let id = match sequence {
        Some(seq) => DisplayId::event(seq, "turn-outcome"),
        None => DisplayId::correlated("turn-outcome", text),
    };
    DisplayItem::Block(
        TranscriptBlock {
            id,
            unit: None,
            content: owned(text),
            format: TranscriptFormat::Plain,
            tone,
            copy_source: owned(text),
            streaming: false,
        },
    )
}

fn non_empty_string(s: &String) -> (r: Option<String>)
    ensures
        opt_view(r) == non_empty(s@),
{
    if s.unicode_len() == 0 {
        None
    } else {
        Some(s.clone())
    }
}

/// What a lifecycle event means for the transcript and the page.
pub fn project(event: &TimelineRecord, texts: &LifecycleTexts) -> (r: Option<LifecycleProjection>)
    ensures
        match event.fact {
            TimelineFact::TurnStart => r == Some(LifecycleProjection::TurnStart),
            TimelineFact::TurnEnd { reason, error_message, error_code } => r matches Some(
                LifecycleProjection::TurnEnd { cancelled, outcome },
            ) && cancelled == (reason matches Some(t) && (t@ == "aborted"@ || t@ == "interrupted"@))
                && match reason_notice(opt_view(reason), opt_view(error_message), opt_view(error_code), *texts) {
                Some((text, tone)) => outcome matches Some(item) && outcome_block(item, event.sequence, text, tone),
                None => outcome is None,
            },
            TimelineFact::GoalChanged { summary } => r matches Some(LifecycleProjection::Goal(g))
                && opt_view(g) == non_empty(summary@),
            TimelineFact::ModeChanged { mode } => r matches Some(LifecycleProjection::Plan(p))
                && opt_view(p) == non_empty(mode@),
            TimelineFact::PresetSelected { preset } => r matches Some(LifecycleProjection::Preset(p))
                && p@ == preset@,
            TimelineFact::SessionState { state } => r matches Some(LifecycleProjection::SessionState(s))
                && s@ == state@,
            TimelineFact::StepStart { .. } | TimelineFact::StepEnd { .. } | TimelineFact::Audit { .. } => r
                == Some(LifecycleProjection::Ignore),
            _ => r is None,
        },
{
    proof {
        reveal_strlit("aborted");
        reveal_strlit("error");
        reveal_strlit("blocked");
        reveal_strlit("interrupted");
        reveal_strlit("max-tokens");
    }
    match &event.fact {
        TimelineFact::TurnStart => Some(LifecycleProjection::TurnStart),
        TimelineFact::TurnEnd { reason, error_message, error_code } => {
            let outcome = match reason {
                Some(r) => {
                    let r = r.as_str();
                    if str_eq(r, "aborted") {
                        Some(block(event.sequence, texts.aborted.as_str(), DisplayTone::Dim))
                    } else if str_eq(r, "error") {
                        let text = match (error_message, error_code) {
                            (Some(m), Some(c)) => {
                                let mut s = m.clone();
                                push_str(&mut s, " (");
                                push_str(&mut s, c.as_str());
                                push_str(&mut s, ")");
                                s
                            },
                            (Some(m), None) => m.clone(),
                            _ => texts.turn_error.clone(),
                        };
                        Some(block(event.sequence, text.as_str(), DisplayTone::Error))
                    } else if str_eq(r, "blocked") {
                        Some(block(event.sequence, texts.blocked.as_str(), DisplayTone::Dim))
                    } else if str_eq(r, "interrupted") {
                        Some(block(event.sequence, texts.interrupted.as_str(), DisplayTone::Warning))
                    } else if str_eq(r, "max-tokens") {
                        Some(block(event.sequence, texts.max_tokens.as_str(), DisplayTone::Warning))
                    } else {
                        None
                    }
                },
                None => None,
            };
            let cancelled = match reason {
                Some(r) => str_eq(r.as_str(), "aborted") || str_eq(r.as_str(), "interrupted"),
                None => false,
            };
            Some(LifecycleProjection::TurnEnd { cancelled, outcome })
        },
        TimelineFact::GoalChanged { summary } => Some(LifecycleProjection::Goal(non_empty_string(summary))),
        TimelineFact::ModeChanged { mode } => Some(LifecycleProjection::Plan(non_empty_string(mode))),
        TimelineFact::PresetSelected { preset } => Some(LifecycleProjection::Preset(preset.clone())),
        TimelineFact::SessionState { state } => Some(LifecycleProjection::SessionState(state.clone())),
        TimelineFact::StepStart { .. } | TimelineFact::StepEnd { .. } | TimelineFact::Audit { .. } => {
            Some(LifecycleProjection::Ignore)
        },
        _ => None,
    }
}

} // verus!
