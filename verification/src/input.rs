//! Input-line state: a character buffer with a cursor, prompt history, and
//! atomic blocks. Each paste over the placeholder threshold is an
//! independent atomic block shown as `[N text pasted]`; pending images are
//! one object marker each, shown as `[Image NAME]`.
use vstd::prelude::*;

pub mod completion;
pub mod edit;
pub mod keys;
pub mod lines;
pub mod suggest;
pub mod words;

use crate::action::{duplicate_image, part_view, prompt_view, PartView, PromptImage, PromptInput, PromptPart};
use crate::command_catalog::{builtin_table, catalog_order, match_command_catalog, RankEntry};
use crate::config::Config;
use crate::i18n::Language;
use crate::text::{
    chars_of, contains, contains_seq, decimal, decimal_string, is_subsequence, lowercase, owned, push_char, push_str, string_of,
    string_of_range, to_lowercase,
};
use crate::unicode::{flatten_chars, grapheme_clusters, graphemes, str_width, text_width};

verus! {

/// The raw-buffer character that stands for one pending image.
pub const IMAGE_MARKER: char = '\u{fffc}';

/// Display width budget of an image name.
pub const IMAGE_NAME_DISPLAY_WIDTH: usize = 28;

/// Terminal and clipboard line endings in the internal form: every `\r\n`
/// and every lone `\r` becomes `\n`.
pub open spec fn normalized_newlines(s: Seq<char>) -> Seq<char>
    decreases s.len(),
{
    if s.len() == 0 {
        Seq::empty()
    } else if s[0] == '\r' {
        if s.len() > 1 && s[1] == '\n' {
            seq!['\n'] + normalized_newlines(s.subrange(2, s.len() as int))
        } else {
            seq!['\n'] + normalized_newlines(s.drop_first())
        }
    } else {
        seq![s[0]] + normalized_newlines(s.drop_first())
    }
}

/// Normalize terminal and system-clipboard line endings to the internal
/// newline representation.
pub fn normalize_paste_text(text: &str) -> (r: String)
    ensures
        r@ == normalized_newlines(text@),
{
    let v = chars_of(text);
    let mut out = String::new();
    let mut i: usize = 0;
    proof {
        assert(v@.subrange(0, v@.len() as int) =~= v@);
        assert(out@ + normalized_newlines(v@) =~= normalized_newlines(v@));
    }
    while i < v.len()
        invariant
            i <= v@.len(),
            v@ == text@,
            out@ + normalized_newlines(v@.subrange(i as int, v@.len() as int)) == normalized_newlines(v@),
        decreases v.len() - i,
    {
        let ghost rest = v@.subrange(i as int, v@.len() as int);
        if v[i] == '\r' {
            push_char(&mut out, '\n');
            if i + 1 < v.len() && v[i + 1] == '\n' {
                proof {
                    assert(rest.subrange(2, rest.len() as int) =~= v@.subrange(i + 2, v@.len() as int));
                    assert(out@ + normalized_newlines(v@.subrange(i + 2, v@.len() as int)) =~= (out@.drop_last()
                        + normalized_newlines(rest)));
                }
                i = i + 2;
            } else {
                proof {
                    assert(rest.drop_first() =~= v@.subrange(i + 1, v@.len() as int));
                    assert(out@ + normalized_newlines(v@.subrange(i + 1, v@.len() as int)) =~= (out@.drop_last()
                        + normalized_newlines(rest)));
                }
                i = i + 1;
            }
        } else {
            push_char(&mut out, v[i]);
            proof {
                assert(rest.drop_first() =~= v@.subrange(i + 1, v@.len() as int));
                assert(out@ + normalized_newlines(v@.subrange(i + 1, v@.len() as int)) =~= (out@.drop_last()
                    + normalized_newlines(rest)));
            }
            i = i + 1;
        }
    }
    proof {
        assert(v@.subrange(i as int, v@.len() as int) =~= Seq::<char>::empty());
        assert(out@ + Seq::<char>::empty() =~= out@);
    }
    out
}

/// The command line a catalog entry fills in.
pub open spec fn entry_line(e: RankEntry, cmds: Seq<crate::agent::CommandDescriptor>) -> Seq<char> {
    if e.source == 0 {
        seq!['/'] + builtin_table()[e.index as int].name@
    } else {
        seq!['/'] + cmds[e.index as int].name@
    }
}

/// Built-in-only command matching: the lines of the ranked built-in
/// catalog for `query` (prefix, then substring, then subsequence matches).
pub fn match_commands(query: &str) -> (r: Vec<String>)
    ensures
        r@.len() == catalog_order(query@, Seq::empty()).len(),
        forall|k: int| 0 <= k < r@.len() ==> (#[trigger] r@[k])@ == entry_line(catalog_order(query@, Seq::empty())[k], Seq::empty()),
{
    let none: Vec<crate::agent::CommandDescriptor> = Vec::new();
    let candidates = match_command_catalog(query, none.as_slice());
    proof {
        assert(none@ =~= Seq::empty());
    }
    let mut lines: Vec<String> = Vec::new();
    let mut i: usize = 0;
    while i < candidates.len()
        invariant
            i <= candidates@.len(),
            none@ == Seq::<crate::agent::CommandDescriptor>::empty(),
            candidates@.len() == catalog_order(query@, none@).len(),
            forall|k: int| 0 <= k < candidates@.len() ==> crate::command_catalog::presents(
                #[trigger] candidates@[k],
                catalog_order(query@, none@)[k],
                none@,
            ),
            lines@.len() == i,
            forall|k: int| 0 <= k < i ==> (#[trigger] lines@[k])@ == entry_line(catalog_order(query@, none@)[k], none@),
        decreases candidates.len() - i,
    {
        proof {
            let e = catalog_order(query@, none@)[i as int];
            assert(crate::command_catalog::presents(candidates@[i as int], e, none@));
        }
        lines.push(candidates[i].line.clone());
        i = i + 1;
    }
    lines
}

/// An over-threshold paste: raw-buffer characters `start..end`.
#[derive(Debug, Clone, Copy, PartialEq, Eq, Structural)]
pub struct PasteBlock {
    pub start: usize,
    pub end: usize,
}

/// A pending image: its object marker at `start..end` in the raw buffer.
#[derive(Debug, Clone, PartialEq, Eq)]
pub struct ImageBlock {
    pub start: usize,
    pub end: usize,
    pub image: PromptImage,
}

/// Ctrl+R history search.
#[derive(Clone)]
pub struct SearchState {
    pub query: String,
    pub sel: usize,
}

#[derive(Debug, Clone, Copy, PartialEq, Eq, Structural)]
pub enum SuggestionKind {
    Commands,
    Modes,
    Models,
    Efforts,
    Skills,
}

/// Suggestion popup state: the ranked rows for the typed query, the
/// highlighted selection, and the raw query kept for restoring it.
#[derive(Clone)]
pub struct Suggestion {
    pub query: String,
    pub sel: usize,
    pub matches: Vec<String>,
    pub descriptions: Vec<String>,
    pub sources: Vec<crate::command_catalog::CommandSource>,
    pub kind: SuggestionKind,
}

/// What a committed or special key asks of the UI.
pub enum InputAction {
    /// Nothing to do.
    Nothing,
    /// Send the committed buffer as soon as the active turn can accept it.
    Send(PromptInput),
    /// Keep the committed buffer until the active turn has fully ended.
    SendAfterTurn(PromptInput),
    /// Send the committed buffer as a slash command line with any images.
    Command { line: String, images: Vec<PromptImage>, original: PromptInput },
    /// Interrupt the agent.
    Interrupt,
    /// Quit the TUI.
    Quit,
    /// Toggle full-screen Preview on narrow terminals.
    PreviewToggle,
    /// Enter the reading view.
    ReadingToggle,
    /// Toggle multiline mode.
    ToggleMultiline,
}

/// The input bar.
pub struct InputState {
    pub buf: String,
    /// Cursor as a character index into `buf`.
    pub cursor: usize,
    pub history: Vec<String>,
    pub hist_idx: Option<usize>,
    pub multiline: bool,
    /// The text being edited before history browsing began.
    pub draft: Option<String>,
    pub draft_paste_blocks: Vec<PasteBlock>,
    pub draft_image_blocks: Vec<ImageBlock>,
    pub search: Option<SearchState>,
    pub language: Language,
    /// Pastes longer than this many characters become blocks.
    pub paste_placeholder_chars: usize,
    pub paste_blocks: Vec<PasteBlock>,
    pub image_blocks: Vec<ImageBlock>,
    /// History cap.
    pub history_limit: usize,
    pub suggest: Option<Suggestion>,
}

/// Blocks lie within a buffer of `len` characters, each list in order, and
/// no two blocks overlap.
pub open spec fn blocks_ok(ps: Seq<PasteBlock>, is: Seq<ImageBlock>, len: int) -> bool {
    &&& forall|i: int| 0 <= i < ps.len() ==> (#[trigger] ps[i]).start < ps[i].end <= len
    &&& forall|i: int| 0 <= i < is.len() ==> (#[trigger] is[i]).start < is[i].end <= len
    &&& forall|i: int, j: int| 0 <= i < j < ps.len() ==> (#[trigger] ps[i]).end <= (#[trigger] ps[j]).start
    &&& forall|i: int, j: int| 0 <= i < j < is.len() ==> (#[trigger] is[i]).end <= (#[trigger] is[j]).start
    &&& forall|i: int, j: int|
        0 <= i < ps.len() && 0 <= j < is.len() ==> (#[trigger] ps[i]).end <= (#[trigger] is[j]).start
            || is[j].end <= ps[i].start
}

/// The cursor is not strictly inside any block.
pub open spec fn cursor_outside(ps: Seq<PasteBlock>, is: Seq<ImageBlock>, cursor: int) -> bool {
    &&& forall|i: int| 0 <= i < ps.len() ==> !((#[trigger] ps[i]).start < cursor < ps[i].end)
    &&& forall|i: int| 0 <= i < is.len() ==> !((#[trigger] is[i]).start < cursor < is[i].end)
}

/// Blocks at or after `at` move right by `count`.
pub open spec fn shift_paste(bs: Seq<PasteBlock>, at: int, count: int) -> Seq<PasteBlock> {
    Seq::new(
        bs.len(),
        |i: int|
            if bs[i].start >= at {
                PasteBlock { start: (bs[i].start + count) as usize, end: (bs[i].end + count) as usize }
            } else {
                bs[i]
            },
    )
}

/// Image blocks at or after `at` move right by `count`.
pub open spec fn shift_image(bs: Seq<ImageBlock>, at: int, count: int) -> Seq<ImageBlock> {
    Seq::new(
        bs.len(),
        |i: int|
            if bs[i].start >= at {
                ImageBlock { start: (bs[i].start + count) as usize, end: (bs[i].end + count) as usize, image: bs[i].image }
            } else {
                bs[i]
            },
    )
}

/// Index of the first paste block, from `i` on, starting at or after `at`
/// (the end when none).
pub open spec fn paste_slot(bs: Seq<PasteBlock>, at: int, i: int) -> int
    decreases bs.len() - i,
{
    if i < 0 || i >= bs.len() {
        bs.len() as int
    } else if bs[i].start >= at {
        i
    } else {
        paste_slot(bs, at, i + 1)
    }
}

/// The draft's length, or none without a draft.
pub open spec fn draft_len(draft: Option<String>) -> int {
    match draft {
        Some(d) => d@.len() as int,
        None => 0,
    }
}

impl InputState {
    /// The state is consistent: the cursor and every block lie within the
    /// buffer, blocks do not overlap and the cursor is not inside one; the
    /// draft's blocks lie within the draft.
    pub open spec fn wf(&self) -> bool {
        &&& self.cursor <= self.buf@.len()
        &&& blocks_ok(self.paste_blocks@, self.image_blocks@, self.buf@.len() as int)
        &&& cursor_outside(self.paste_blocks@, self.image_blocks@, self.cursor as int)
        &&& blocks_ok(self.draft_paste_blocks@, self.draft_image_blocks@, draft_len(self.draft))
        &&& self.hist_idx matches Some(i) ==> i < self.history@.len()
        &&& self.suggest matches Some(sg) ==> sg.sel < sg.matches@.len()
    }

    /// An empty input bar configured from `config`.
    pub fn new(config: &Config) -> (r: InputState)
        ensures
            r.wf(),
            r.buf@.len() == 0 && r.cursor == 0,
            r.history@.len() == 0 && r.hist_idx is None,
            !r.multiline && r.draft is None && r.search is None && r.suggest is None,
            r.language == config.language,
            r.paste_placeholder_chars == config.paste_placeholder_chars,
            r.history_limit == config.history_limit,
            r.paste_blocks@.len() == 0 && r.image_blocks@.len() == 0,
    {
        InputState {
            buf: String::new(),
            cursor: 0,
            history: Vec::new(),
            hist_idx: None,
            multiline: false,
            draft: None,
            draft_paste_blocks: Vec::new(),
            draft_image_blocks: Vec::new(),
            search: None,
            language: config.language,
            paste_placeholder_chars: config.paste_placeholder_chars,
            paste_blocks: Vec::new(),
            image_blocks: Vec::new(),
            history_limit: config.history_limit,
            suggest: None,
        }
    }

    fn shift_blocks_for_insert(&mut self, at: usize, count: usize)
        requires
            forall|i: int| 0 <= i < old(self).paste_blocks@.len() ==> (#[trigger] old(self).paste_blocks@[i]).end + count <= usize::MAX,
            forall|i: int| 0 <= i < old(self).image_blocks@.len() ==> (#[trigger] old(self).image_blocks@[i]).end + count <= usize::MAX,
            forall|i: int| 0 <= i < old(self).paste_blocks@.len() ==> (#[trigger] old(self).paste_blocks@[i]).start <= old(self).paste_blocks@[i].end,
            forall|i: int| 0 <= i < old(self).image_blocks@.len() ==> (#[trigger] old(self).image_blocks@[i]).start <= old(self).image_blocks@[i].end,
        ensures
            final(self).paste_blocks@ == shift_paste(old(self).paste_blocks@, at as int, count as int),
            final(self).image_blocks@ == shift_image(old(self).image_blocks@, at as int, count as int),
            final(self).buf == old(self).buf,
            final(self).cursor == old(self).cursor,
            final(self).history == old(self).history,
            final(self).hist_idx == old(self).hist_idx,
            final(self).multiline == old(self).multiline,
            final(self).draft == old(self).draft,
            final(self).draft_paste_blocks == old(self).draft_paste_blocks,
            final(self).draft_image_blocks == old(self).draft_image_blocks,
            final(self).paste_placeholder_chars == old(self).paste_placeholder_chars,
            final(self).history_limit == old(self).history_limit,
            final(self).language == old(self).language,
            final(self).search == old(self).search,
            final(self).suggest == old(self).suggest,
    {
        let mut i: usize = 0;
        let ghost ps = self.paste_blocks@;
        while i < self.paste_blocks.len()
            invariant
                i <= self.paste_blocks@.len(),
                self.paste_blocks@.len() == ps.len(),
                forall|k: int| 0 <= k < ps.len() ==> (#[trigger] ps[k]).end + count <= usize::MAX,
                forall|k: int| 0 <= k < ps.len() ==> (#[trigger] ps[k]).start <= ps[k].end,
                forall|k: int| 0 <= k < i ==> #[trigger] self.paste_blocks@[k] == shift_paste(ps, at as int, count as int)[k],
                forall|k: int| i <= k < ps.len() ==> #[trigger] self.paste_blocks@[k] == ps[k],
                self.buf == old(self).buf,
                self.cursor == old(self).cursor,
                self.image_blocks == old(self).image_blocks,
                self.history == old(self).history,
                self.hist_idx == old(self).hist_idx,
                self.multiline == old(self).multiline,
                self.draft == old(self).draft,
                self.draft_paste_blocks == old(self).draft_paste_blocks,
                self.draft_image_blocks == old(self).draft_image_blocks,
                self.paste_placeholder_chars == old(self).paste_placeholder_chars,
                self.history_limit == old(self).history_limit,
                self.language == old(self).language,
                self.search == old(self).search,
                self.suggest == old(self).suggest,
                ps == old(self).paste_blocks@,
            decreases ps.len() - i,
        {
            let b = self.paste_blocks[i];
            if b.start >= at {
                self.paste_blocks.set(i, PasteBlock { start: b.start + count, end: b.end + count });
            }
            i = i + 1;
        }
        proof {
            assert(self.paste_blocks@ =~= shift_paste(ps, at as int, count as int));
        }
        let ghost is = self.image_blocks@;
        let mut j: usize = 0;
        while j < self.image_blocks.len()
            invariant
                j <= self.image_blocks@.len(),
                self.image_blocks@.len() == is.len(),
                forall|k: int| 0 <= k < is.len() ==> (#[trigger] is[k]).end + count <= usize::MAX,
                forall|k: int| 0 <= k < is.len() ==> (#[trigger] is[k]).start <= is[k].end,
                forall|k: int| 0 <= k < j ==> #[trigger] self.image_blocks@[k] == shift_image(is, at as int, count as int)[k],
                forall|k: int| j <= k < is.len() ==> #[trigger] self.image_blocks@[k] == is[k],
                self.paste_blocks@ == shift_paste(ps, at as int, count as int),
                self.buf == old(self).buf,
                self.cursor == old(self).cursor,
                self.history == old(self).history,
                self.hist_idx == old(self).hist_idx,
                self.multiline == old(self).multiline,
                self.draft == old(self).draft,
                self.draft_paste_blocks == old(self).draft_paste_blocks,
                self.draft_image_blocks == old(self).draft_image_blocks,
                self.paste_placeholder_chars == old(self).paste_placeholder_chars,
                self.history_limit == old(self).history_limit,
                self.language == old(self).language,
                ps == old(self).paste_blocks@,
                is == old(self).image_blocks@,
                self.search == old(self).search,
                self.suggest == old(self).suggest,
            decreases is.len() - j,
        {
            if self.image_blocks[j].start >= at {
                let mut b = self.image_blocks.remove(j);
                b.start = b.start + count;
                b.end = b.end + count;
                self.image_blocks.insert(j, b);
            }
            j = j + 1;
        }
        proof {
            assert(self.image_blocks@ =~= shift_image(is, at as int, count as int));
        }
    }
}

/// `buf` with `text` inserted at character `at`.
fn insert_text(buf: &String, at: usize, text: &str) -> (r: String)
    requires
        at <= buf@.len(),
    ensures
        r@ == buf@.subrange(0, at as int) + text@ + buf@.subrange(at as int, buf@.len() as int),
{
    let v = chars_of(buf.as_str());
    let mut r = string_of_range(v.as_slice(), 0, at);
    push_str(&mut r, text);
    let tail = string_of_range(v.as_slice(), at, v.len());
    push_str(&mut r, tail.as_str());
    r
}

/// The state after inserting `count` characters at the cursor: the
/// buffer grows there, blocks after it move right and the cursor follows.
pub open spec fn inserted_at_cursor(s: InputState, t: InputState, text: Seq<char>) -> bool {
    let at = s.cursor as int;
    let n = text.len() as int;
    &&& t.buf@ == s.buf@.subrange(0, at) + text + s.buf@.subrange(at, s.buf@.len() as int)
    &&& t.cursor == at + n
    &&& t.image_blocks@ == shift_image(s.image_blocks@, at, n)
    &&& t.history == s.history && t.hist_idx == s.hist_idx && t.multiline == s.multiline
    &&& t.draft == s.draft && t.draft_paste_blocks == s.draft_paste_blocks
    &&& t.draft_image_blocks == s.draft_image_blocks
    &&& t.paste_placeholder_chars == s.paste_placeholder_chars && t.history_limit == s.history_limit
    &&& t.language == s.language
}

proof fn lemma_shift_keeps_order(ps: Seq<PasteBlock>, is: Seq<ImageBlock>, len: int, at: int, n: int)
    requires
        blocks_ok(ps, is, len),
        cursor_outside(ps, is, at),
        0 <= at <= len,
        0 <= n,
        len + n <= usize::MAX,
    ensures
        blocks_ok(shift_paste(ps, at, n), shift_image(is, at, n), len + n),
        forall|i: int| 0 <= i < ps.len() ==> (#[trigger] shift_paste(ps, at, n)[i]).end <= at || shift_paste(ps, at, n)[i].start >= at + n,
        forall|i: int| 0 <= i < is.len() ==> (#[trigger] shift_image(is, at, n)[i]).end <= at || shift_image(is, at, n)[i].start >= at + n,
{
    let sp = shift_paste(ps, at, n);
    let si = shift_image(is, at, n);
    assert forall|i: int, j: int| 0 <= i < j < sp.len() implies (#[trigger] sp[i]).end <= (#[trigger] sp[j]).start by {
        assert(ps[i].end <= ps[j].start);
        assert(ps[i].start < ps[i].end);
    }
    assert forall|i: int, j: int| 0 <= i < j < si.len() implies (#[trigger] si[i]).end <= (#[trigger] si[j]).start by {
        assert(is[i].end <= is[j].start);
        assert(is[i].start < is[i].end);
    }
    assert forall|i: int, j: int| 0 <= i < sp.len() && 0 <= j < si.len() implies (#[trigger] sp[i]).end <= (#[trigger] si[j]).start
        || si[j].end <= sp[i].start by {
        assert(ps[i].end <= is[j].start || is[j].end <= ps[i].start);
        assert(ps[i].start < ps[i].end && is[j].start < is[j].end);
    }
    assert forall|i: int| 0 <= i < sp.len() implies (#[trigger] sp[i]).start < sp[i].end <= len + n by {
        assert(ps[i].start < ps[i].end <= len);
    }
    assert forall|i: int| 0 <= i < si.len() implies (#[trigger] si[i]).start < si[i].end <= len + n by {
        assert(is[i].start < is[i].end <= len);
    }
    assert forall|i: int| 0 <= i < ps.len() implies (#[trigger] sp[i]).end <= at || sp[i].start >= at + n by {
        assert(!(ps[i].start < at < ps[i].end));
    }
    assert forall|i: int| 0 <= i < is.len() implies (#[trigger] si[i]).end <= at || si[i].start >= at + n by {
        assert(!(is[i].start < at < is[i].end));
    }
}

impl InputState {
    /// Insert pasted text at the cursor. A paste over the threshold becomes
    /// an independent atomic block; the suggestion popup closes.
    #[verifier::rlimit(60)]
    pub fn paste(&mut self, text: &str)
        requires
            old(self).wf(),
            old(self).buf@.len() + text@.len() <= usize::MAX,
        ensures
            final(self).wf(),
            text@.len() == 0 ==> *final(self) == *old(self),
            text@.len() > 0 ==> {
                let at = old(self).cursor as int;
                let n = text@.len() as int;
                let shifted = shift_paste(old(self).paste_blocks@, at, n);
                &&& inserted_at_cursor(*old(self), *final(self), text@)
                &&& final(self).paste_blocks@ == if n > old(self).paste_placeholder_chars {
                    shifted.insert(paste_slot(shifted, at, 0), PasteBlock { start: at as usize, end: (at + n) as usize })
                } else {
                    shifted
                }
                &&& final(self).suggest is None
                &&& final(self).search == old(self).search
            },
    {
        let count = chars_of(text).len();
        if count == 0 {
            return ;
        }
        let start = self.cursor;
        let ghost len = self.buf@.len() as int;
        proof {
            lemma_shift_keeps_order(self.paste_blocks@, self.image_blocks@, len, start as int, count as int);
        }
        self.shift_blocks_for_insert(start, count);
        self.buf = insert_text(&self.buf, start, text);
        self.cursor = start + count;
        if count > self.paste_placeholder_chars {
            let ghost shifted = self.paste_blocks@;
            let mut slot: usize = 0;
            while slot < self.paste_blocks.len() && self.paste_blocks[slot].start < start
                invariant
                    slot <= self.paste_blocks@.len(),
                    self.paste_blocks@ == shifted,
                    paste_slot(shifted, start as int, 0) == paste_slot(shifted, start as int, slot as int),
                decreases self.paste_blocks@.len() - slot,
            {
                slot = slot + 1;
            }
            self.paste_blocks.insert(slot, PasteBlock { start, end: start + count });
            proof {
                let nb = PasteBlock { start: start, end: (start + count) as usize };
                let ps = self.paste_blocks@;
                assert(ps == shifted.insert(slot as int, nb));
                assert forall|i: int| 0 <= i < slot implies (#[trigger] shifted[i]).start < start by {
                    lemma_slot_before(shifted, start as int, i);
                }
                assert forall|i: int, j: int| 0 <= i < j < ps.len() implies (#[trigger] ps[i]).end <= (#[trigger] ps[j]).start by {
                    if j < slot {
                        assert(ps[i] == shifted[i] && ps[j] == shifted[j]);
                    } else if j == slot {
                        assert(ps[i] == shifted[i]);
                        assert(shifted[i].start < start);
                    } else if i == slot {
                        assert(ps[j] == shifted[j - 1]);
                        assert(shifted[j - 1].start >= start);
                    } else if i < slot {
                        assert(ps[i] == shifted[i] && ps[j] == shifted[j - 1]);
                    } else {
                        assert(ps[i] == shifted[i - 1] && ps[j] == shifted[j - 1]);
                    }
                }
                assert forall|i: int, j: int| 0 <= i < ps.len() && 0 <= j < self.image_blocks@.len() implies (#[trigger] ps[i]).end
                    <= (#[trigger] self.image_blocks@[j]).start || self.image_blocks@[j].end <= ps[i].start by {
                    if i < slot {
                        assert(ps[i] == shifted[i]);
                    } else if i > slot {
                        assert(ps[i] == shifted[i - 1]);
                    }
                }
                assert forall|i: int| 0 <= i < ps.len() implies (#[trigger] ps[i]).start < ps[i].end <= self.buf@.len() by {
                    if i < slot {
                        assert(ps[i] == shifted[i]);
                    } else if i > slot {
                        assert(ps[i] == shifted[i - 1]);
                    }
                }
                assert forall|i: int| 0 <= i < ps.len() implies !((#[trigger] ps[i]).start < self.cursor < ps[i].end) by {
                    if i < slot {
                        assert(ps[i] == shifted[i]);
                    } else if i > slot {
                        assert(ps[i] == shifted[i - 1]);
                    }
                }
            }
        }
        self.suggest = None;
    }
}

proof fn lemma_slot_before(bs: Seq<PasteBlock>, at: int, i: int)
    requires
        0 <= i < paste_slot(bs, at, 0),
    ensures
        bs[i].start < at,
{
    lemma_slot_from(bs, at, 0, i);
}

proof fn lemma_slot_from(bs: Seq<PasteBlock>, at: int, from: int, i: int)
    requires
        0 <= from <= i < paste_slot(bs, at, from),
    ensures
        bs[i].start < at,
    decreases i - from,
{
    if from < i {
        lemma_slot_from(bs, at, from + 1, i);
    }
}

/// Display projection of the input buffer: blocks shown as placeholders,
/// with the cursor mapped into display characters.
pub struct InputDisplay {
    pub text: String,
    pub cursor: usize,
    pub paste_ranges: Vec<core::ops::Range<usize>>,
}

impl InputDisplay {
    /// The display character at `index` belongs to a placeholder.
    pub fn is_paste_char(&self, index: usize) -> (r: bool)
        ensures
            r == exists|i: int| 0 <= i < self.paste_ranges@.len() && (#[trigger] self.paste_ranges@[i]).start <= index
                < self.paste_ranges@[i].end,
    {
        let mut i: usize = 0;
        while i < self.paste_ranges.len()
            invariant
                i <= self.paste_ranges@.len(),
                forall|k: int| 0 <= k < i ==> !((#[trigger] self.paste_ranges@[k]).start <= index < self.paste_ranges@[k].end),
            decreases self.paste_ranges.len() - i,
        {
            if self.paste_ranges[i].start <= index && index < self.paste_ranges[i].end {
                return true;
            }
            i = i + 1;
        }
        false
    }
}

/// Total display width of grapheme clusters.
pub open spec fn widths(gs: Seq<Seq<char>>) -> int
    decreases gs.len(),
{
    if gs.len() == 0 {
        0
    } else {
        widths(gs.drop_last()) + text_width(gs.last())
    }
}

/// How many trailing clusters fit, greedily from the end, in `budget` columns.
pub open spec fn suffix_fit(gs: Seq<Seq<char>>, budget: int) -> nat
    decreases gs.len(),
{
    if gs.len() == 0 || text_width(gs.last()) > budget {
        0
    } else {
        1 + suffix_fit(gs.drop_last(), budget - text_width(gs.last()))
    }
}

/// How many leading clusters fit, greedily from the start, in `budget` columns.
pub open spec fn prefix_fit(gs: Seq<Seq<char>>, budget: int) -> nat
    decreases gs.len(),
{
    if gs.len() == 0 || text_width(gs[0]) > budget {
        0
    } else {
        1 + prefix_fit(gs.drop_first(), budget - text_width(gs[0]))
    }
}

/// An image name cut to the display budget: a name that fits is kept;
/// otherwise the head that fits, an ellipsis, and a tail of at most a third
/// of the budget (six columns at least).
pub open spec fn truncated_name(name: Seq<char>) -> Seq<char> {
    if text_width(name) <= IMAGE_NAME_DISPLAY_WIDTH {
        name
    } else {
        let gs = grapheme_clusters(name);
        let k = suffix_fit(gs, 9);
        let suffix = gs.subrange(gs.len() - k, gs.len() as int);
        let head_budget = if 1 + widths(suffix) <= IMAGE_NAME_DISPLAY_WIDTH {
            IMAGE_NAME_DISPLAY_WIDTH - 1 - widths(suffix)
        } else {
            0
        };
        flatten_chars(gs.take(prefix_fit(gs, head_budget) as int)) + seq!['\u{2026}'] + flatten_chars(suffix)
    }
}

/// The placeholder of a paste of `count` characters.
pub open spec fn paste_label(count: nat) -> Seq<char> {
    "["@ + decimal(count) + " text pasted]"@
}

/// The placeholder of a pending image.
pub open spec fn image_placeholder_spec(image: PromptImage) -> Seq<char> {
    "[Image "@ + truncated_name(
        match image.name {
            Some(n) => n@,
            None => "clipboard.png"@,
        },
    ) + "]"@
}

/// A block as the display sees it: its raw range and its placeholder.
pub struct DisplayBlock {
    pub start: int,
    pub end: int,
    pub label: Seq<char>,
}

pub open spec fn paste_display(b: PasteBlock) -> DisplayBlock {
    DisplayBlock { start: b.start as int, end: b.end as int, label: paste_label((b.end - b.start) as nat) }
}

pub open spec fn image_display(b: ImageBlock) -> DisplayBlock {
    DisplayBlock { start: b.start as int, end: b.end as int, label: image_placeholder_spec(b.image) }
}

/// Paste and image blocks together in order of start (a paste first on a tie).
pub open spec fn merged(ps: Seq<PasteBlock>, is: Seq<ImageBlock>) -> Seq<DisplayBlock>
    decreases ps.len() + is.len(),
{
    if ps.len() == 0 && is.len() == 0 {
        Seq::empty()
    } else if is.len() == 0 || (ps.len() > 0 && ps[0].start <= is[0].start) {
        seq![paste_display(ps[0])] + merged(ps.drop_first(), is)
    } else {
        seq![image_display(is[0])] + merged(ps, is.drop_first())
    }
}

/// Blocks follow one another from raw position `raw` within `len` characters.
pub open spec fn chained(bs: Seq<DisplayBlock>, raw: int, len: int) -> bool
    decreases bs.len(),
{
    if bs.len() == 0 {
        raw <= len
    } else {
        raw <= bs[0].start < bs[0].end <= len && chained(bs.drop_first(), bs[0].end, len)
    }
}

proof fn lemma_merged_chained(ps: Seq<PasteBlock>, is: Seq<ImageBlock>, raw: int, len: int)
    requires
        blocks_ok(ps, is, len),
        0 <= raw <= len,
        forall|i: int| 0 <= i < ps.len() ==> raw <= (#[trigger] ps[i]).start,
        forall|i: int| 0 <= i < is.len() ==> raw <= (#[trigger] is[i]).start,
    ensures
        chained(merged(ps, is), raw, len),
    decreases ps.len() + is.len(),
{
    if ps.len() == 0 && is.len() == 0 {
    } else if is.len() == 0 || (ps.len() > 0 && ps[0].start <= is[0].start) {
        let rest = ps.drop_first();
        assert(blocks_ok(rest, is, len)) by {
            assert forall|i: int, j: int| 0 <= i < j < rest.len() implies (#[trigger] rest[i]).end <= (#[trigger] rest[j]).start by {
                assert(rest[i] == ps[i + 1] && rest[j] == ps[j + 1]);
            }
            assert forall|i: int, j: int| 0 <= i < rest.len() && 0 <= j < is.len() implies (#[trigger] rest[i]).end
                <= (#[trigger] is[j]).start || is[j].end <= rest[i].start by {
                assert(rest[i] == ps[i + 1]);
            }
            assert forall|i: int| 0 <= i < rest.len() implies (#[trigger] rest[i]).start < rest[i].end <= len by {
                assert(rest[i] == ps[i + 1]);
            }
        }
        assert forall|i: int| 0 <= i < rest.len() implies ps[0].end <= (#[trigger] rest[i]).start by {
            assert(rest[i] == ps[i + 1]);
            assert(ps[0].end <= ps[i + 1].start);
        }
        assert forall|i: int| 0 <= i < is.len() implies ps[0].end <= (#[trigger] is[i]).start by {
            assert(ps[0].end <= is[i].start || is[i].end <= ps[0].start);
            if i > 0 {
                assert(is[0].end <= is[i].start);
            }
        }
        lemma_merged_chained(rest, is, ps[0].end as int, len);
        let m = merged(ps, is);
        assert(m[0] == paste_display(ps[0]));
        assert(m.drop_first() =~= merged(rest, is));
    } else {
        let rest = is.drop_first();
        assert(blocks_ok(ps, rest, len)) by {
            assert forall|i: int, j: int| 0 <= i < j < rest.len() implies (#[trigger] rest[i]).end <= (#[trigger] rest[j]).start by {
                assert(rest[i] == is[i + 1] && rest[j] == is[j + 1]);
            }
            assert forall|i: int, j: int| 0 <= i < ps.len() && 0 <= j < rest.len() implies (#[trigger] ps[i]).end
                <= (#[trigger] rest[j]).start || rest[j].end <= ps[i].start by {
                assert(rest[j] == is[j + 1]);
            }
            assert forall|i: int| 0 <= i < rest.len() implies (#[trigger] rest[i]).start < rest[i].end <= len by {
                assert(rest[i] == is[i + 1]);
            }
        }
        assert forall|i: int| 0 <= i < rest.len() implies is[0].end <= (#[trigger] rest[i]).start by {
            assert(rest[i] == is[i + 1]);
            assert(is[0].end <= is[i + 1].start);
        }
        assert forall|i: int| 0 <= i < ps.len() implies is[0].end <= (#[trigger] ps[i]).start by {
            assert(ps[i].end <= is[0].start || is[0].end <= ps[i].start);
            if i > 0 {
                assert(ps[0].end <= ps[i].start);
            }
        }
        lemma_merged_chained(ps, rest, is[0].end as int, len);
        let m = merged(ps, is);
        assert(m[0] == image_display(is[0]));
        assert(m.drop_first() =~= merged(ps, rest));
    }
}

/// The displayed text from raw position `raw` on: the characters between
/// blocks, each block replaced by its placeholder.
pub open spec fn rendered(buf: Seq<char>, blocks: Seq<DisplayBlock>, raw: int) -> Seq<char>
    decreases blocks.len(),
{
    if blocks.len() == 0 {
        buf.subrange(raw, buf.len() as int)
    } else {
        buf.subrange(raw, blocks[0].start) + blocks[0].label + rendered(buf, blocks.drop_first(), blocks[0].end)
    }
}

/// The display position of raw cursor `c`, counting from raw position `raw`
/// at display position `pos`: a cursor within or at the end of a block sits
/// after its placeholder.
pub open spec fn mapped_cursor(blocks: Seq<DisplayBlock>, raw: int, pos: int, c: int) -> int
    decreases blocks.len(),
{
    if blocks.len() == 0 || c <= blocks[0].start {
        pos + (c - raw)
    } else if c <= blocks[0].end {
        pos + (blocks[0].start - raw) + blocks[0].label.len()
    } else {
        mapped_cursor(blocks.drop_first(), blocks[0].end, pos + (blocks[0].start - raw) + blocks[0].label.len(), c)
    }
}

/// The display ranges of the placeholders.
pub open spec fn placeholder_ranges(blocks: Seq<DisplayBlock>, raw: int, pos: int) -> Seq<(int, int)>
    decreases blocks.len(),
{
    if blocks.len() == 0 {
        Seq::empty()
    } else {
        let at = pos + (blocks[0].start - raw);
        seq![(at, at + blocks[0].label.len())] + placeholder_ranges(
            blocks.drop_first(),
            blocks[0].end,
            at + blocks[0].label.len(),
        )
    }
}

/// Cut an image name to the display budget.
fn truncate_image_name(name: &str) -> (r: String)
    ensures
        r@ == truncated_name(name@),
{
    if str_width(name) <= IMAGE_NAME_DISPLAY_WIDTH {
        return owned(name);
    }
    let gs = graphemes(name);
    let ghost g = crate::text::strs_view(gs@);
    proof {
        assert(g.len() == gs@.len());
        assert(g.take(g.len() as int) =~= g);
        assert(g.subrange(g.len() as int, g.len() as int) =~= Seq::<Seq<char>>::empty());
    }
    let mut k: usize = 0;
    let mut used: usize = 0;
    let budget: usize = 9;
    let mut done = false;
    while !done && k < gs.len()
        invariant
            g == crate::text::strs_view(gs@),
            g == grapheme_clusters(name@),
            g.len() == gs@.len(),
            k <= gs@.len(),
            used <= budget,
            budget == 9,
            suffix_fit(g, 9) == k + suffix_fit(g.take(g.len() - k), 9 - used),
            widths(g.subrange(g.len() - k, g.len() as int)) == used,
            done ==> suffix_fit(g.take(g.len() - k), 9 - used) == 0,
        decreases gs.len() - k + (if done { 0int } else { 1int }),
    {
        let w = str_width(gs[gs.len() - 1 - k].as_str());
        proof {
            let rest = g.take(g.len() - k);
            assert(g[g.len() - 1 - k] == gs@[gs.len() - 1 - k]@);
            assert(rest.last() == g[g.len() - 1 - k]);
            assert(rest.drop_last() =~= g.take(g.len() - k - 1));
        }
        if w > budget - used {
            done = true;
        } else {
            proof {
                lemma_widths_front(g, g.len() - k - 1);
            }
            used = used + w;
            k = k + 1;
        }
    }
    proof {
        if !done {
            assert(g.take(0) =~= Seq::<Seq<char>>::empty());
        }
    }
    let head_budget: usize = if 1 + used <= IMAGE_NAME_DISPLAY_WIDTH {
        IMAGE_NAME_DISPLAY_WIDTH - 1 - used
    } else {
        0
    };
    let mut head = String::new();
    let mut h: usize = 0;
    let mut head_used: usize = 0;
    let mut full = false;
    proof {
        assert(g.skip(0) =~= g);
        assert(g.take(0) =~= Seq::<Seq<char>>::empty());
    }
    while !full && h < gs.len()
        invariant
            g == crate::text::strs_view(gs@),
            g.len() == gs@.len(),
            h <= gs@.len(),
            head_used <= head_budget,
            prefix_fit(g, head_budget as int) == h + prefix_fit(g.skip(h as int), head_budget - head_used),
            head@ == flatten_chars(g.take(h as int)),
            full ==> prefix_fit(g.skip(h as int), head_budget - head_used) == 0,
        decreases gs.len() - h + (if full { 0int } else { 1int }),
    {
        let w = str_width(gs[h].as_str());
        proof {
            assert(g[h as int] == gs@[h as int]@);
            assert(g.skip(h as int)[0] == g[h as int]);
            assert(g.skip(h as int).drop_first() =~= g.skip(h + 1));
        }
        if w > head_budget - head_used {
            full = true;
        } else {
            push_str(&mut head, gs[h].as_str());
            proof {
                assert(g.take(h + 1).drop_last() =~= g.take(h as int));
            }
            head_used = head_used + w;
            h = h + 1;
        }
    }
    proof {
        if !full {
            assert(g.skip(h as int) =~= Seq::<Seq<char>>::empty());
        }
    }
    push_char(&mut head, '\u{2026}');
    let mut i: usize = gs.len() - k;
    let ghost mark = head@;
    proof {
        assert(g.subrange(g.len() - k, i as int) =~= Seq::<Seq<char>>::empty());
    }
    while i < gs.len()
        invariant
            g == crate::text::strs_view(gs@),
            g.len() == gs@.len(),
            k <= gs@.len(),
            gs.len() - k <= i <= gs.len(),
            head@ == mark + flatten_chars(g.subrange(g.len() - k, i as int)),
        decreases gs.len() - i,
    {
        push_str(&mut head, gs[i].as_str());
        proof {
            assert(g[i as int] == gs@[i as int]@);
            assert(g.subrange(g.len() - k, i + 1).drop_last() =~= g.subrange(g.len() - k, i as int));
        }
        i = i + 1;
    }
    proof {
        assert(g.subrange(g.len() - k, i as int) =~= g.subrange(g.len() - k, g.len() as int));
    }
    head
}

proof fn lemma_widths_front(g: Seq<Seq<char>>, from: int)
    requires
        0 <= from < g.len(),
    ensures
        widths(g.subrange(from, g.len() as int)) == text_width(g[from]) + widths(g.subrange(from + 1, g.len() as int)),
    decreases g.len() - from,
{
    let s = g.subrange(from, g.len() as int);
    if from + 1 < g.len() {
        lemma_widths_front(g.drop_last(), from);
        assert(g.drop_last().subrange(from, g.len() - 1) =~= s.drop_last());
        assert(g.drop_last().subrange(from + 1, g.len() - 1) =~= g.subrange(from + 1, g.len() as int).drop_last());
    } else {
        assert(s.drop_last() =~= Seq::<Seq<char>>::empty());
        assert(g.subrange(from + 1, g.len() as int) =~= Seq::<Seq<char>>::empty());
    }
}

/// The display view of blocks as (start, end, placeholder).
pub open spec fn blocks_view(v: Seq<(usize, usize, String)>) -> Seq<DisplayBlock> {
    v.map_values(|b: (usize, usize, String)| DisplayBlock { start: b.0 as int, end: b.1 as int, label: b.2@ })
}

fn paste_placeholder(count: usize) -> (r: String)
    ensures
        r@ == paste_label(count as nat),
{
    let mut label = owned("[");
    let digits = decimal_string(count as u64);
    push_str(&mut label, digits.as_str());
    push_str(&mut label, " text pasted]");
    label
}

fn image_placeholder(image: &PromptImage) -> (r: String)
    ensures
        r@ == image_placeholder_spec(*image),
{
    let name = match &image.name {
        Some(n) => truncate_image_name(n.as_str()),
        None => truncate_image_name("clipboard.png"),
    };
    let mut label = owned("[Image ");
    push_str(&mut label, name.as_str());
    push_str(&mut label, "]");
    label
}

impl InputState {
    /// The blocks with their placeholders, in order of start.
    fn display_blocks(&self) -> (r: Vec<(usize, usize, String)>)
        requires
            self.wf(),
        ensures
            blocks_view(r@) == merged(self.paste_blocks@, self.image_blocks@),
    {
        let mut out: Vec<(usize, usize, String)> = Vec::new();
        let mut i: usize = 0;
        let mut j: usize = 0;
        let ghost ps = self.paste_blocks@;
        let ghost is = self.image_blocks@;
        proof {
            assert(ps.skip(0) =~= ps);
            assert(is.skip(0) =~= is);
            assert(blocks_view(out@) + merged(ps, is) =~= merged(ps, is));
        }
        while i < self.paste_blocks.len() || j < self.image_blocks.len()
            invariant
                ps == self.paste_blocks@,
                is == self.image_blocks@,
                self.wf(),
                i <= ps.len(),
                j <= is.len(),
                blocks_view(out@) + merged(ps.skip(i as int), is.skip(j as int)) == merged(ps, is),
            decreases ps.len() + is.len() - i - j,
        {
            let ghost before = out@;
            let take_paste = j >= self.image_blocks.len() || (i < self.paste_blocks.len()
                && self.paste_blocks[i].start <= self.image_blocks[j].start);
            if take_paste {
                let b = self.paste_blocks[i];
                proof {
                    assert(ps.skip(i as int)[0] == b);
                    assert(ps.skip(i as int).drop_first() =~= ps.skip(i + 1));
                }
                out.push((b.start, b.end, paste_placeholder(b.end - b.start)));
                i = i + 1;
            } else {
                let b = &self.image_blocks[j];
                proof {
                    assert(is.skip(j as int)[0] == *b);
                    assert(is.skip(j as int).drop_first() =~= is.skip(j + 1));
                }
                out.push((b.start, b.end, image_placeholder(&b.image)));
                j = j + 1;
            }
            proof {
                assert(blocks_view(out@) =~= blocks_view(before).push(blocks_view(out@).last()));
            }
        }
        proof {
            assert(ps.skip(i as int) =~= Seq::<PasteBlock>::empty());
            assert(is.skip(j as int) =~= Seq::<ImageBlock>::empty());
            assert(blocks_view(out@) + Seq::<DisplayBlock>::empty() =~= blocks_view(out@));
        }
        out
    }

    /// Whether the display text fits in memory (`usize` characters).
    pub fn display_fits_now(&self) -> (r: bool)
        requires
            self.wf(),
        ensures
            r == crate::input::lines::display_fits(*self),
    {
        let blocks = self.display_blocks();
        let ghost all = merged(self.paste_blocks@, self.image_blocks@);
        let ghost buf = self.buf@;
        proof {
            lemma_merged_chained(self.paste_blocks@, self.image_blocks@, 0, buf.len() as int);
            assert(all.skip(0) =~= all);
        }
        let n = chars_of(self.buf.as_str()).len();
        let mut acc: u128 = 0;
        let mut raw: usize = 0;
        let mut k: usize = 0;
        while k < blocks.len()
            invariant
                blocks_view(blocks@) == all,
                all == merged(self.paste_blocks@, self.image_blocks@),
                buf == self.buf@,
                n == buf.len(),
                k <= blocks@.len(),
                chained(all.skip(k as int), raw as int, n as int),
                acc + rendered(buf, all.skip(k as int), raw as int).len() == rendered(buf, all, 0).len(),
                acc <= usize::MAX,
            decreases blocks.len() - k,
        {
            let b = &blocks[k];
            let ll = chars_of(b.2.as_str()).len();
            proof {
                let bs = all.skip(k as int);
                assert(bs[0] == all[k as int]);
                assert(all[k as int] == DisplayBlock { start: b.0 as int, end: b.1 as int, label: b.2@ });
                assert(bs.drop_first() =~= all.skip(k + 1));
                assert(rendered(buf, bs, raw as int).len() == (b.0 - raw) + ll + rendered(buf, all.skip(k + 1), b.1 as int).len());
            }
            let ghost acc0 = acc;
            acc = acc + (b.0 - raw) as u128 + ll as u128;
            if acc > usize::MAX as u128 {
                proof {
                    assert(acc0 + rendered(buf, all.skip(k as int), raw as int).len() == rendered(buf, all, 0).len());
                    assert(rendered(buf, all, 0).len() >= acc);
                }
                return false;
            }
            raw = b.1;
            k = k + 1;
        }
        proof {
            assert(all.skip(k as int) =~= Seq::<DisplayBlock>::empty());
        }
        acc = acc + (n - raw) as u128;
        acc <= usize::MAX as u128
    }

    /// The display projection: blocks become placeholders and the cursor
    /// maps to the same logical boundary in display characters.
    pub fn display_text(&self) -> (r: InputDisplay)
        requires
            self.wf(),
            rendered(self.buf@, merged(self.paste_blocks@, self.image_blocks@), 0).len() <= usize::MAX,
        ensures
            r.text@ == rendered(self.buf@, merged(self.paste_blocks@, self.image_blocks@), 0),
            r.cursor == mapped_cursor(merged(self.paste_blocks@, self.image_blocks@), 0, 0, self.cursor as int),
            r.paste_ranges@.len() == placeholder_ranges(merged(self.paste_blocks@, self.image_blocks@), 0, 0).len(),
            forall|k: int| 0 <= k < r.paste_ranges@.len() ==> (#[trigger] r.paste_ranges@[k]).start == placeholder_ranges(
                merged(self.paste_blocks@, self.image_blocks@),
                0,
                0,
            )[k].0 && r.paste_ranges@[k].end == placeholder_ranges(merged(self.paste_blocks@, self.image_blocks@), 0, 0)[k].1,
    {
        let blocks = self.display_blocks();
        let ghost all = merged(self.paste_blocks@, self.image_blocks@);
        let ghost buf = self.buf@;
        proof {
            lemma_merged_chained(self.paste_blocks@, self.image_blocks@, 0, buf.len() as int);
        }
        let chars = chars_of(self.buf.as_str());
        let raw_cursor = self.cursor;
        let mut text = String::new();
        let mut ranges: Vec<core::ops::Range<usize>> = Vec::new();
        let mut cursor: usize = raw_cursor;
        let mut raw: usize = 0;
        let mut pos: usize = 0;
        let mut mapped = false;
        let mut k: usize = 0;
        proof {
            assert(all.skip(0) =~= all);
        }
        while k < blocks.len()
            invariant
                blocks_view(blocks@) == all,
                chars@ == buf,
                raw_cursor <= buf.len(),
                k <= blocks@.len(),
                chained(all.skip(k as int), raw as int, buf.len() as int),
                text@ + rendered(buf, all.skip(k as int), raw as int) == rendered(buf, all, 0),
                pos == text@.len(),
                rendered(buf, all, 0).len() <= usize::MAX,
                mapped ==> cursor == mapped_cursor(all, 0, 0, raw_cursor as int),
                !mapped ==> raw <= raw_cursor && mapped_cursor(all, 0, 0, raw_cursor as int) == mapped_cursor(
                    all.skip(k as int),
                    raw as int,
                    pos as int,
                    raw_cursor as int,
                ),
                placeholder_ranges(all, 0, 0) == ranges@.map_values(|r: core::ops::Range<usize>| (r.start as int, r.end as int))
                    + placeholder_ranges(all.skip(k as int), raw as int, pos as int),
            decreases blocks@.len() - k,
        {
            let start = blocks[k].0;
            let end = blocks[k].1;
            let ghost rest = all.skip(k as int);
            proof {
                assert(rest[0] == all[k as int]);
                assert(rest.drop_first() =~= all.skip(k + 1));
                assert(blocks_view(blocks@)[k as int] == all[k as int]);
                assert(rendered(buf, rest, raw as int) == buf.subrange(raw as int, start as int) + rest[0].label + rendered(
                    buf,
                    rest.drop_first(),
                    end as int,
                ));
            }
            let before = string_of_range(chars.as_slice(), raw, start);
            push_str(&mut text, before.as_str());
            if !mapped && raw_cursor <= start {
                cursor = pos + (raw_cursor - raw);
                mapped = true;
            }
            pos = pos + (start - raw);
            let label_len = chars_of(blocks[k].2.as_str()).len();
            if !mapped && raw_cursor <= end {
                cursor = pos + label_len;
                mapped = true;
            }
            push_str(&mut text, blocks[k].2.as_str());
            let ghost old_ranges = ranges@;
            ranges.push(pos..pos + label_len);
            pos = pos + label_len;
            raw = end;
            proof {
                assert(ranges@.map_values(|r: core::ops::Range<usize>| (r.start as int, r.end as int)) =~= old_ranges.map_values(
                    |r: core::ops::Range<usize>| (r.start as int, r.end as int),
                ).push((ranges@.last().start as int, ranges@.last().end as int)));
            }
            k = k + 1;
        }
        proof {
            assert(all.skip(k as int) =~= Seq::<DisplayBlock>::empty());
        }
        let tail = string_of_range(chars.as_slice(), raw, chars.len());
        push_str(&mut text, tail.as_str());
        if !mapped {
            cursor = pos + (raw_cursor - raw);
        }
        InputDisplay { text, cursor, paste_ranges: ranges }
    }
}

/// Index of the first image block, from `i` on, starting at or after `at`.
pub open spec fn image_slot(bs: Seq<ImageBlock>, at: int, i: int) -> int
    decreases bs.len() - i,
{
    if i < 0 || i >= bs.len() {
        bs.len() as int
    } else if bs[i].start >= at {
        i
    } else {
        image_slot(bs, at, i + 1)
    }
}

proof fn lemma_image_slot_before(bs: Seq<ImageBlock>, at: int, from: int, i: int)
    requires
        0 <= from <= i < image_slot(bs, at, from),
    ensures
        bs[i].start < at,
    decreases i - from,
{
    if from < i {
        lemma_image_slot_before(bs, at, from + 1, i);
    }
}

/// History entries newest first, keeping those whose lower-cased text
/// contains the lower-cased query (all of them for an empty query).
pub open spec fn history_matches(hs: Seq<String>, query: Seq<char>) -> Seq<Seq<char>>
    decreases hs.len(),
{
    if hs.len() == 0 {
        Seq::empty()
    } else {
        let keep = query.len() == 0 || contains_seq(lowercase(hs.last()@), lowercase(query));
        (if keep {
            seq![hs.last()@]
        } else {
            Seq::empty()
        }) + history_matches(hs.drop_last(), query)
    }
}

/// Length of the buffer without its trailing newlines.
pub open spec fn trimmed_len(buf: Seq<char>) -> int
    decreases buf.len(),
{
    if buf.len() > 0 && buf.last() == '\n' {
        trimmed_len(buf.drop_last())
    } else {
        buf.len() as int
    }
}

/// A text part, when the text is not empty.
pub open spec fn text_part(t: Seq<char>) -> Seq<PartView> {
    if t.len() > 0 {
        seq![PartView::Text(t)]
    } else {
        Seq::empty()
    }
}

/// The prompt parts from raw position `raw`: the text before each image
/// block that starts by `raw_end` and the image, then the rest of the text
/// up to `raw_end`.
pub open spec fn prompt_parts(buf: Seq<char>, is: Seq<ImageBlock>, raw: int, raw_end: int) -> Seq<PartView>
    decreases is.len(),
{
    if is.len() == 0 || is[0].start > raw_end {
        text_part(if raw < raw_end {
            buf.subrange(raw, raw_end)
        } else {
            Seq::empty()
        })
    } else {
        text_part(buf.subrange(raw, is[0].start as int)) + seq![part_view(PromptPart::Image(is[0].image))]
            + prompt_parts(buf, is.drop_first(), is[0].end as int, raw_end)
    }
}

/// The text of the parts, concatenated.
pub open spec fn parts_text(ps: Seq<PartView>) -> Seq<char>
    decreases ps.len(),
{
    if ps.len() == 0 {
        Seq::empty()
    } else {
        parts_text(ps.drop_last()) + match ps.last() {
            PartView::Text(t) => t,
            PartView::Image { .. } => Seq::empty(),
        }
    }
}

/// The images of the parts, in order.
pub open spec fn parts_images(ps: Seq<PartView>) -> Seq<PartView>
    decreases ps.len(),
{
    if ps.len() == 0 {
        Seq::empty()
    } else {
        parts_images(ps.drop_last()) + match ps.last() {
            PartView::Text(_) => Seq::empty(),
            PartView::Image { .. } => seq![ps.last()],
        }
    }
}

/// The history after committing `line`: appended, the oldest dropped past
/// the cap.
pub open spec fn history_after(hs: Seq<Seq<char>>, line: Seq<char>, limit: int) -> Seq<Seq<char>> {
    if hs.len() + 1 > limit {
        hs.push(line).drop_first()
    } else {
        hs.push(line)
    }
}

impl InputState {
    /// Insert one pending image as an atomic object at the cursor.
    #[verifier::rlimit(60)]
    pub fn paste_image(&mut self, image: PromptImage)
        requires
            old(self).wf(),
            old(self).buf@.len() + 1 <= usize::MAX,
        ensures
            final(self).wf(),
            ({
                let at = old(self).cursor as int;
                let shifted = shift_image(old(self).image_blocks@, at, 1);
                &&& final(self).buf@ == old(self).buf@.subrange(0, at) + seq![IMAGE_MARKER] + old(self).buf@.subrange(
                    at,
                    old(self).buf@.len() as int,
                )
                &&& final(self).cursor == at + 1
                &&& final(self).paste_blocks@ == shift_paste(old(self).paste_blocks@, at, 1)
                &&& final(self).image_blocks@ == shifted.insert(
                    image_slot(shifted, at, 0),
                    ImageBlock { start: at as usize, end: (at + 1) as usize, image },
                )
                &&& final(self).suggest is None
                &&& final(self).history == old(self).history && final(self).hist_idx == old(self).hist_idx
                &&& final(self).draft == old(self).draft
            }),
    {
        let start = self.cursor;
        let ghost len = self.buf@.len() as int;
        proof {
            lemma_shift_keeps_order(self.paste_blocks@, self.image_blocks@, len, start as int, 1);
        }
        self.shift_blocks_for_insert(start, 1);
        let mut marker = String::new();
        push_char(&mut marker, IMAGE_MARKER);
        self.buf = insert_text(&self.buf, start, marker.as_str());
        self.cursor = start + 1;
        let ghost shifted = self.image_blocks@;
        let mut slot: usize = 0;
        while slot < self.image_blocks.len() && self.image_blocks[slot].start < start
            invariant
                slot <= self.image_blocks@.len(),
                self.image_blocks@ == shifted,
                image_slot(shifted, start as int, 0) == image_slot(shifted, start as int, slot as int),
            decreases self.image_blocks@.len() - slot,
        {
            slot = slot + 1;
        }
        self.image_blocks.insert(slot, ImageBlock { start, end: start + 1, image });
        proof {
            let is = self.image_blocks@;
            let ps = self.paste_blocks@;
            assert forall|i: int| 0 <= i < slot implies (#[trigger] shifted[i]).start < start by {
                lemma_image_slot_before(shifted, start as int, 0, i);
            }
            assert forall|i: int, j: int| 0 <= i < j < is.len() implies (#[trigger] is[i]).end <= (#[trigger] is[j]).start by {
                if j < slot {
                    assert(is[i] == shifted[i] && is[j] == shifted[j]);
                } else if j == slot {
                    assert(is[i] == shifted[i]);
                } else if i == slot {
                    assert(is[j] == shifted[j - 1]);
                } else if i < slot {
                    assert(is[i] == shifted[i] && is[j] == shifted[j - 1]);
                } else {
                    assert(is[i] == shifted[i - 1] && is[j] == shifted[j - 1]);
                }
            }
            assert forall|i: int, j: int| 0 <= i < ps.len() && 0 <= j < is.len() implies (#[trigger] ps[i]).end <= (#[trigger] is[j]).start
                || is[j].end <= ps[i].start by {
                if j < slot {
                    assert(is[j] == shifted[j]);
                } else if j > slot {
                    assert(is[j] == shifted[j - 1]);
                }
            }
            assert forall|i: int| 0 <= i < is.len() implies (#[trigger] is[i]).start < is[i].end <= self.buf@.len() by {
                if i < slot {
                    assert(is[i] == shifted[i]);
                } else if i > slot {
                    assert(is[i] == shifted[i - 1]);
                }
            }
            assert forall|i: int| 0 <= i < is.len() implies !((#[trigger] is[i]).start < self.cursor < is[i].end) by {
                if i < slot {
                    assert(is[i] == shifted[i]);
                } else if i > slot {
                    assert(is[i] == shifted[i - 1]);
                }
            }
        }
        self.suggest = None;
    }

    /// Replace the whole composer with ordinary text; paste identity cannot
    /// be inferred from expanded text, so no block remains.
    pub fn restore_text(&mut self, text: String)
        requires
            old(self).wf(),
        ensures
            final(self).wf(),
            final(self).buf == text,
            final(self).cursor == text@.len(),
            final(self).paste_blocks@.len() == 0 && final(self).image_blocks@.len() == 0,
            final(self).suggest is None,
            final(self).history == old(self).history && final(self).hist_idx == old(self).hist_idx,
            final(self).draft == old(self).draft && final(self).multiline == old(self).multiline,
            final(self).search == old(self).search,
            final(self).draft_paste_blocks == old(self).draft_paste_blocks,
            final(self).draft_image_blocks == old(self).draft_image_blocks,
            final(self).language == old(self).language,
            final(self).paste_placeholder_chars == old(self).paste_placeholder_chars,
            final(self).history_limit == old(self).history_limit,
    {
        self.cursor = chars_of(text.as_str()).len();
        self.buf = text;
        self.paste_blocks.clear();
        self.image_blocks.clear();
        self.suggest = None;
    }

    /// History entries newest first that contain the query, ignoring case.
    pub fn matching_history(&self, query: &str) -> (r: Vec<String>)
        ensures
            crate::text::strs_view(r@) == history_matches(self.history@, query@),
    {
        let q = to_lowercase(query);
        let qv = chars_of(q.as_str());
        let empty = chars_of(query).len() == 0;
        let mut out: Vec<String> = Vec::new();
        let mut n = self.history.len();
        proof {
            assert(self.history@.take(n as int) =~= self.history@);
            assert(crate::text::strs_view(out@) + history_matches(self.history@, query@) =~= history_matches(
                self.history@,
                query@,
            ));
        }
        while n > 0
            invariant
                n <= self.history@.len(),
                qv@ == lowercase(query@),
                empty == (query@.len() == 0),
                crate::text::strs_view(out@) + history_matches(self.history@.take(n as int), query@) == history_matches(
                    self.history@,
                    query@,
                ),
            decreases n,
        {
            let entry = &self.history[n - 1];
            proof {
                assert(self.history@.take(n as int).drop_last() =~= self.history@.take(n - 1));
                assert(self.history@.take(n as int).last() == *entry);
            }
            let keep = empty || {
                let lower = to_lowercase(entry.as_str());
                let lv = chars_of(lower.as_str());
                contains(lv.as_slice(), qv.as_slice())
            };
            let ghost before = out@;
            if keep {
                out.push(entry.clone());
                proof {
                    assert(crate::text::strs_view(out@) =~= crate::text::strs_view(before) + seq![entry@]);
                }
            }
            n = n - 1;
        }
        proof {
            assert(self.history@.take(0) =~= Seq::<String>::empty());
            assert(crate::text::strs_view(out@) + Seq::<Seq<char>>::empty() =~= crate::text::strs_view(out@));
        }
        out
    }
}

impl InputState {
    /// The prompt the buffer holds: its text without trailing newlines,
    /// split around the pending images in order.
    pub fn prompt(&self) -> (r: PromptInput)
        requires
            self.wf(),
        ensures
            prompt_view(r) == prompt_parts(self.buf@, self.image_blocks@, 0, trimmed_len(self.buf@)),
    {
        let chars = chars_of(self.buf.as_str());
        let mut raw_end = chars.len();
        proof {
            assert(chars@.take(raw_end as int) =~= chars@);
        }
        while raw_end > 0 && chars[raw_end - 1] == '\n'
            invariant
                raw_end <= chars@.len(),
                chars@ == self.buf@,
                trimmed_len(self.buf@) == trimmed_len(chars@.take(raw_end as int)),
            decreases raw_end,
        {
            proof {
                assert(chars@.take(raw_end as int).drop_last() =~= chars@.take(raw_end - 1));
            }
            raw_end = raw_end - 1;
        }
        proof {
            let t = chars@.take(raw_end as int);
            assert(t.len() == raw_end);
            if raw_end > 0 {
                assert(t.last() == chars@[raw_end - 1]);
            }
            assert(trimmed_len(self.buf@) == raw_end);
        }
        let ghost all = self.image_blocks@;
        let ghost buf = self.buf@;
        let mut parts: Vec<PromptPart> = Vec::new();
        let mut raw: usize = 0;
        let mut k: usize = 0;
        let mut stop = false;
        proof {
            assert(all.skip(0) =~= all);
            assert(parts@.map_values(|p: PromptPart| part_view(p)) + prompt_parts(buf, all, 0, raw_end as int) =~= prompt_parts(
                buf,
                all,
                0,
                raw_end as int,
            ));
        }
        while !stop && k < self.image_blocks.len()
            invariant
                all == self.image_blocks@,
                buf == self.buf@,
                chars@ == buf,
                self.wf(),
                raw_end <= buf.len(),
                k <= all.len(),
                raw <= buf.len(),
                forall|i: int| k <= i < all.len() ==> raw <= (#[trigger] all[i]).start,
                parts@.map_values(|p: PromptPart| part_view(p)) + prompt_parts(buf, all.skip(k as int), raw as int, raw_end as int)
                    == prompt_parts(buf, all, 0, raw_end as int),
                stop ==> prompt_parts(buf, all.skip(k as int), raw as int, raw_end as int) == text_part(
                    if raw < raw_end {
                        buf.subrange(raw as int, raw_end as int)
                    } else {
                        Seq::empty()
                    },
                ),
            decreases all.len() - k + (if stop { 0int } else { 1int }),
        {
            let block = &self.image_blocks[k];
            let ghost rest = all.skip(k as int);
            proof {
                assert(rest[0] == all[k as int]);
                assert(rest.drop_first() =~= all.skip(k + 1));
            }
            if block.start > raw_end {
                stop = true;
            } else {
                let ghost before = parts@.map_values(|p: PromptPart| part_view(p));
                let text = string_of_range(chars.as_slice(), raw, block.start);
                if block.start > raw {
                    parts.push(PromptPart::Text(text));
                }
                parts.push(PromptPart::Image(duplicate_image(&block.image)));
                proof {
                    let view = parts@.map_values(|p: PromptPart| part_view(p));
                    assert(view =~= before + text_part(buf.subrange(raw as int, block.start as int)) + seq![
                        part_view(PromptPart::Image(block.image)),
                    ]);
                    assert forall|i: int| k + 1 <= i < all.len() implies block.end <= (#[trigger] all[i]).start by {
                        assert(all[k as int].end <= all[i].start);
                    }
                }
                raw = block.end;
                k = k + 1;
            }
        }
        proof {
            if !stop {
                assert(all.skip(k as int) =~= Seq::<ImageBlock>::empty());
            }
        }
        let ghost before = parts@.map_values(|p: PromptPart| part_view(p));
        if raw < raw_end {
            let text = string_of_range(chars.as_slice(), raw, raw_end);
            parts.push(PromptPart::Text(text));
            proof {
                let view = parts@.map_values(|p: PromptPart| part_view(p));
                assert(view =~= before + text_part(buf.subrange(raw as int, raw_end as int)));
            }
        } else {
            proof {
                assert(parts@.map_values(|p: PromptPart| part_view(p)) =~= before + text_part(Seq::empty()));
            }
        }
        PromptInput { parts }
    }
}

/// The parts views of some images.
pub open spec fn images_view(images: Seq<PromptImage>) -> Seq<PartView> {
    images.map_values(|i: PromptImage| part_view(PromptPart::Image(i)))
}

/// The composer after a commit: empty, with no blocks, draft or history
/// position, out of multiline mode and without a popup.
pub open spec fn committed_clear(t: InputState) -> bool {
    &&& t.buf@.len() == 0 && t.cursor == 0
    &&& t.paste_blocks@.len() == 0 && t.image_blocks@.len() == 0
    &&& t.draft is None && t.draft_paste_blocks@.len() == 0 && t.draft_image_blocks@.len() == 0
    &&& !t.multiline && t.hist_idx is None && t.suggest is None
}

/// The state and answer after a commit: an empty prompt does nothing; a
/// prompt without images joins the history, the composer clears, and text
/// starting with `/` is a command line.
pub open spec fn committed(s: InputState, t: InputState, r: InputAction) -> bool {
    let p = prompt_parts(s.buf@, s.image_blocks@, 0, trimmed_len(s.buf@));
    &&& t.search == s.search && t.language == s.language
    &&& t.paste_placeholder_chars == s.paste_placeholder_chars && t.history_limit == s.history_limit
    &&& if p.len() == 0 {
        &&& r is Nothing && t.suggest is None && t.buf == s.buf && t.cursor == s.cursor
        &&& t.history == s.history && t.paste_blocks == s.paste_blocks && t.image_blocks == s.image_blocks
        &&& t.draft == s.draft && t.hist_idx == s.hist_idx && t.multiline == s.multiline
        &&& t.draft_paste_blocks == s.draft_paste_blocks && t.draft_image_blocks == s.draft_image_blocks
    } else {
        &&& committed_clear(t)
        &&& crate::text::strs_view(t.history@) == if parts_images(p).len() == 0 {
            history_after(crate::text::strs_view(s.history@), parts_text(p), s.history_limit as int)
        } else {
            crate::text::strs_view(s.history@)
        }
        &&& if parts_text(p).len() > 0 && parts_text(p)[0] == '/' {
            r matches InputAction::Command { line, images, original } && line@ == parts_text(p)
                && images_view(images@) == parts_images(p) && prompt_view(original) == p
        } else {
            r matches InputAction::Send(prompt) && prompt_view(prompt) == p
        }
    }
}

impl InputState {
    /// Commit the buffer: an empty prompt does nothing; otherwise a prompt
    /// without images joins the history (up to its cap), the composer is
    /// cleared, and a text starting with `/` is a command line.
    pub fn commit(&mut self) -> (r: InputAction)
        requires
            old(self).wf(),
        ensures
            final(self).wf(),
            committed(*old(self), *final(self), r),
    {
        let prompt = self.prompt();
        let ghost p = prompt_view(prompt);
        if prompt.parts.len() == 0 {
            self.suggest = None;
            return InputAction::Nothing;
        }
        let mut line = String::new();
        let mut images: Vec<PromptImage> = Vec::new();
        let mut i: usize = 0;
        while i < prompt.parts.len()
            invariant
                i <= prompt.parts@.len(),
                p == prompt_view(prompt),
                line@ == parts_text(p.take(i as int)),
                images_view(images@) == parts_images(p.take(i as int)),
            decreases prompt.parts.len() - i,
        {
            proof {
                assert(p.take(i + 1).drop_last() =~= p.take(i as int));
                assert(p.take(i + 1).last() == part_view(prompt.parts@[i as int]));
            }
            let ghost before = images@;
            match &prompt.parts[i] {
                PromptPart::Text(text) => {
                    push_str(&mut line, text.as_str());
                    proof {
                        assert(parts_images(p.take(i + 1)) =~= parts_images(p.take(i as int)));
                    }
                },
                PromptPart::Image(image) => {
                    images.push(duplicate_image(image));
                    proof {
                        assert(images_view(images@) =~= images_view(before).push(part_view(PromptPart::Image(*image))));
                        assert(line@ =~= parts_text(p.take(i + 1)));
                    }
                },
            }
            i = i + 1;
        }
        proof {
            assert(p.take(i as int) =~= p);
        }
        self.suggest = None;
        if images.len() == 0 {
            let ghost hs = self.history@;
            self.history.push(line.clone());
            if self.history.len() > self.history_limit {
                self.history.remove(0);
                proof {
                    assert(crate::text::strs_view(self.history@) =~= crate::text::strs_view(hs).push(line@).drop_first());
                }
            } else {
                proof {
                    assert(crate::text::strs_view(self.history@) =~= crate::text::strs_view(hs).push(line@));
                }
            }
        }
        self.hist_idx = None;
        self.buf = String::new();
        self.cursor = 0;
        self.paste_blocks.clear();
        self.image_blocks.clear();
        self.draft = None;
        self.draft_paste_blocks.clear();
        self.draft_image_blocks.clear();
        self.multiline = false;
        let chars = chars_of(line.as_str());
        if chars.len() > 0 && chars[0] == '/' {
            InputAction::Command { line, images, original: prompt }
        } else {
            InputAction::Send(prompt)
        }
    }
}

/// The raw text a prompt restores to: each text as is, each image as its
/// object marker.
pub open spec fn restored_text(parts: Seq<PromptPart>) -> Seq<char>
    decreases parts.len(),
{
    if parts.len() == 0 {
        Seq::empty()
    } else {
        restored_text(parts.drop_last()) + match parts.last() {
            PromptPart::Text(t) => t@,
            PromptPart::Image(_) => seq![IMAGE_MARKER],
        }
    }
}

/// The image blocks a prompt restores to, one per image at its marker.
pub open spec fn restored_images(parts: Seq<PromptPart>) -> Seq<ImageBlock>
    decreases parts.len(),
{
    if parts.len() == 0 {
        Seq::empty()
    } else {
        let at = restored_text(parts.drop_last()).len();
        restored_images(parts.drop_last()) + match parts.last() {
            PromptPart::Text(_) => Seq::empty(),
            PromptPart::Image(image) => seq![ImageBlock { start: at as usize, end: (at + 1) as usize, image }],
        }
    }
}

proof fn lemma_restored_images_ok(parts: Seq<PromptPart>)
    requires
        restored_text(parts).len() <= usize::MAX,
    ensures
        blocks_ok(Seq::empty(), restored_images(parts), restored_text(parts).len() as int),
        forall|i: int| 0 <= i < restored_images(parts).len() ==> (#[trigger] restored_images(parts)[i]).end <= restored_text(parts).len(),
    decreases parts.len(),
{
    if parts.len() > 0 {
        let init = parts.drop_last();
        assert(restored_text(init).len() <= restored_text(parts).len());
        lemma_restored_images_ok(init);
        let is = restored_images(parts);
        let prev = restored_images(init);
        assert forall|i: int| 0 <= i < is.len() implies (#[trigger] is[i]).start < is[i].end <= restored_text(parts).len() by {
            if i < prev.len() {
                assert(is[i] == prev[i]);
            }
        }
        assert forall|i: int, j: int| 0 <= i < j < is.len() implies (#[trigger] is[i]).end <= (#[trigger] is[j]).start by {
            if j < prev.len() {
                assert(is[i] == prev[i] && is[j] == prev[j]);
            } else {
                assert(is[i] == prev[i]);
            }
        }
    }
}

impl InputState {
    /// Restore a complete prompt after a deferred submission failed: texts
    /// as typed, each image as a pending image; the cursor goes to the end.
    pub fn restore_prompt(&mut self, prompt: PromptInput)
        requires
            old(self).wf(),
            restored_text(prompt.parts@).len() <= usize::MAX,
        ensures
            final(self).wf(),
            final(self).buf@ == restored_text(prompt.parts@),
            final(self).cursor == restored_text(prompt.parts@).len(),
            final(self).image_blocks@ == restored_images(prompt.parts@),
            final(self).paste_blocks@.len() == 0,
            final(self).suggest is None,
            final(self).history == old(self).history && final(self).hist_idx == old(self).hist_idx,
            final(self).draft == old(self).draft,
    {
        let ghost all = prompt.parts@;
        let mut rest = prompt.parts;
        let mut reversed: Vec<PromptPart> = Vec::new();
        while rest.len() > 0
            invariant
                rest@ == all.take(rest@.len() as int),
                reversed@.len() + rest@.len() == all.len(),
                forall|k: int| 0 <= k < reversed@.len() ==> #[trigger] reversed@[k] == all[all.len() - 1 - k],
            decreases rest.len(),
        {
            let ghost n = rest@.len() as int;
            let part = rest.pop().unwrap();
            proof {
                assert(all.take(n - 1) =~= all.take(n).drop_last());
            }
            reversed.push(part);
        }
        let mut buf = String::new();
        let mut images: Vec<ImageBlock> = Vec::new();
        let mut count: usize = 0;
        let mut j: usize = 0;
        let total = reversed.len();
        proof {
            lemma_restored_prefix_fits(all, 0);
        }
        while reversed.len() > 0
            invariant
                reversed@.len() + j == all.len(),
                all.len() == total,
                forall|k: int| 0 <= k < reversed@.len() ==> #[trigger] reversed@[k] == all[all.len() - 1 - k],
                restored_text(all).len() <= usize::MAX,
                buf@ == restored_text(all.take(j as int)),
                count == buf@.len(),
                images@ == restored_images(all.take(j as int)),
            decreases reversed.len(),
        {
            let part = reversed.pop().unwrap();
            proof {
                assert(part == all[j as int]);
                assert(all.take(j + 1).drop_last() =~= all.take(j as int));
                assert(all.take(j + 1).last() == part);
                lemma_restored_prefix_fits(all, j + 1);
            }
            match part {
                PromptPart::Text(text) => {
                    count = count + chars_of(text.as_str()).len();
                    push_str(&mut buf, text.as_str());
                },
                PromptPart::Image(image) => {
                    images.push(ImageBlock { start: count, end: count + 1, image });
                    push_char(&mut buf, IMAGE_MARKER);
                    count = count + 1;
                },
            }
            j = j + 1;
        }
        proof {
            assert(all.take(j as int) =~= all);
            lemma_restored_images_ok(all);
        }
        self.buf = buf;
        self.paste_blocks.clear();
        self.image_blocks = images;
        self.cursor = count;
        self.suggest = None;
    }
}

proof fn lemma_restored_prefix_fits(parts: Seq<PromptPart>, j: int)
    requires
        0 <= j <= parts.len(),
    ensures
        restored_text(parts.take(j)).len() <= restored_text(parts).len(),
    decreases parts.len() - j,
{
    if j < parts.len() {
        lemma_restored_prefix_fits(parts, j + 1);
        assert(parts.take(j + 1).drop_last() =~= parts.take(j));
    } else {
        assert(parts.take(j) =~= parts);
    }
}

} // verus!
