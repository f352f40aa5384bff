//! Frontend-owned transient notices and their exact expiry deadlines.
//! Times are milliseconds on the host's monotonic clock.
use vstd::prelude::*;

use crate::text::{decimal, owned, push_decimal, push_str};

verus! {

pub const COPY_NOTICE_MIN_SECS: u64 = 3;

#[derive(Debug, Clone)]
struct TransientNotice {
    text: String,
    shown_at: u64,
}

#[derive(Debug, Clone)]
pub struct NoticeState {
    current: Option<TransientNotice>,
}

/// How long a notice stays, in milliseconds: the configured seconds, never
/// below the floor.
pub open spec fn notice_duration_ms(configured_secs: u64) -> nat {
    (if configured_secs < COPY_NOTICE_MIN_SECS {
        COPY_NOTICE_MIN_SECS
    } else {
        configured_secs
    }) as nat * 1000
}

/// The expiry time of a notice shown at `at`, saturated at the end of the
/// clock.
pub open spec fn deadline_at(at: u64, configured_secs: u64) -> u64 {
    if at + notice_duration_ms(configured_secs) > u64::MAX {
        u64::MAX
    } else {
        (at + notice_duration_ms(configured_secs)) as u64
    }
}

/// `已复制 LINES 行：PREVIEW`, with `...` when the preview was cut.
pub open spec fn clipboard_text(lines: usize, preview: Seq<char>, truncated: bool) -> Seq<char> {
    "已复制 "@ + decimal(lines as nat) + " 行："@ + preview + if truncated {
        "..."@
    } else {
        ""@
    }
}

impl NoticeState {
    /// The notice on display and when it was shown.
    pub closed spec fn shown(&self) -> Option<(Seq<char>, u64)> {
        match self.current {
            Some(n) => Some((n.text@, n.shown_at)),
            None => None,
        }
    }

    pub fn new() -> (r: NoticeState)
        ensures
            r.shown() is None,
    {
        NoticeState { current: None }
    }

    pub fn show(&mut self, text: String, now: u64)
        ensures
            final(self).shown() == Some((text@, now)),
    {
        self.current = Some(TransientNotice { text, shown_at: now });
    }

    pub fn show_clipboard(&mut self, lines: usize, preview: &str, truncated: bool, now: u64)
        ensures
            final(self).shown() == Some((clipboard_text(lines, preview@, truncated), now)),
    {
        let mut text = owned("已复制 ");
        push_decimal(&mut text, lines as u64);
        push_str(&mut text, " 行：");
        push_str(&mut text, preview);
        if truncated {
            push_str(&mut text, "...");
        }
        proof {
            reveal_strlit("");
            assert(text@ =~= clipboard_text(lines, preview@, truncated));
        }
        self.show(text, now);
    }

    /// When the notice expires, if one is shown; saturates at the end of
    /// the clock.
    pub fn deadline(&self, configured_secs: u64) -> (r: Option<u64>)
        ensures
            match self.shown() {
                Some((_, at)) => r == Some(deadline_at(at, configured_secs)),
                None => r is None,
            },
    {
        let secs = if configured_secs < COPY_NOTICE_MIN_SECS {
            COPY_NOTICE_MIN_SECS
        } else {
            configured_secs
        };
        let ms: u64 = if secs > u64::MAX / 1000 {
            proof {
                assert(secs * 1000 > u64::MAX) by (nonlinear_arith)
                    requires
                        secs > u64::MAX / 1000,
                ;
            }
            u64::MAX
        } else {
            proof {
                assert(secs * 1000 <= u64::MAX) by (nonlinear_arith)
                    requires
                        secs <= u64::MAX / 1000,
                ;
            }
            secs * 1000
        };
        match &self.current {
            Some(n) => Some(n.shown_at.saturating_add(ms)),
            None => None,
        }
    }

    /// The notice text while it has not yet expired.
    pub fn visible_text(&self, configured_secs: u64, now: u64) -> (r: Option<&str>)
        ensures
            match self.shown() {
                Some((text, at)) => if deadline_at(at, configured_secs) > now {
                    r matches Some(t) && t@ == text
                } else {
                    r is None
                },
                None => r is None,
            },
    {
        match (&self.current, self.deadline(configured_secs)) {
            (Some(n), Some(deadline)) => if deadline > now {
                Some(n.text.as_str())
            } else {
                None
            },
            _ => None,
        }
    }

    /// Drop the notice once its deadline has come.
    pub fn expire(&mut self, configured_secs: u64, now: u64) -> (expired: bool)
        ensures
            match old(self).shown() {
                Some((_, at)) => expired == (deadline_at(at, configured_secs) <= now),
                None => !expired,
            },
            expired ==> final(self).shown() is None,
            !expired ==> final(self).shown() == old(self).shown(),
    {
        match self.deadline(configured_secs) {
            None => false,
            Some(deadline) => if deadline > now {
                false
            } else {
                self.current = None;
                true
            },
        }
    }
}

impl Default for NoticeState {
    fn default() -> (r: NoticeState)
        ensures
            r.shown() is None,
    {
        NoticeState::new()
    }
}

} // verus!
