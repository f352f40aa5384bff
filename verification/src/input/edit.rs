//! Buffer edits of the input bar: inserting and removing characters,
//! clearing, filling, history recall and atomic block lookup.
use vstd::prelude::*;

use super::{
    blocks_ok, cursor_outside, draft_len, insert_text, lemma_shift_keeps_order, shift_image, shift_paste,
    ImageBlock, InputAction, InputState, PasteBlock,
};
use crate::text::{chars_of, string_of_range};

verus! {

/// Everything but the buffer, cursor, blocks and popup is as it was.
pub open spec fn same_settings(s: InputState, t: InputState) -> bool {
    &&& t.history == s.history
    &&& t.hist_idx == s.hist_idx
    &&& t.multiline == s.multiline
    &&& t.draft == s.draft
    &&& t.draft_paste_blocks == s.draft_paste_blocks
    &&& t.draft_image_blocks == s.draft_image_blocks
    &&& t.search == s.search
    &&& t.language == s.language
    &&& t.paste_placeholder_chars == s.paste_placeholder_chars
    &&& t.history_limit == s.history_limit
}

/// The ranges of some paste blocks.
pub open spec fn paste_spans(ps: Seq<PasteBlock>) -> Seq<(int, int)> {
    ps.map_values(|b: PasteBlock| (b.start as int, b.end as int))
}

/// The ranges of some image blocks.
pub open spec fn image_spans(is: Seq<ImageBlock>) -> Seq<(int, int)> {
    is.map_values(|b: ImageBlock| (b.start as int, b.end as int))
}

/// Whether `start..end` is one of the state's blocks.
pub open spec fn is_block(s: InputState, start: int, end: int) -> bool {
    paste_spans(s.paste_blocks@).contains((start, end)) || image_spans(s.image_blocks@).contains((start, end))
}

/// How many leading ranges end at or before `at`.
pub open spec fn lead_end(rs: Seq<(int, int)>, at: int) -> nat
    decreases rs.len(),
{
    if rs.len() == 0 || rs[0].1 > at {
        0
    } else {
        1 + lead_end(rs.drop_first(), at)
    }
}

/// How many leading ranges start before `at`.
pub open spec fn lead_start(rs: Seq<(int, int)>, at: int) -> nat
    decreases rs.len(),
{
    if rs.len() == 0 || rs[0].0 >= at {
        0
    } else {
        1 + lead_start(rs.drop_first(), at)
    }
}

proof fn lemma_lead_end(rs: Seq<(int, int)>, at: int, n: int)
    requires
        0 <= n <= rs.len(),
        forall|k: int| 0 <= k < n ==> (#[trigger] rs[k]).1 <= at,
        n == rs.len() || rs[n].1 > at,
    ensures
        lead_end(rs, at) == n,
    decreases rs.len(),
{
    if n > 0 {
        assert(rs[0].1 <= at);
        assert forall|k: int| 0 <= k < n - 1 implies (#[trigger] rs.drop_first()[k]).1 <= at by {
            assert(rs.drop_first()[k] == rs[k + 1]);
        }
        if n < rs.len() {
            assert(rs.drop_first()[n - 1] == rs[n]);
        }
        lemma_lead_end(rs.drop_first(), at, n - 1);
    }
}

proof fn lemma_lead_start(rs: Seq<(int, int)>, at: int, n: int)
    requires
        0 <= n <= rs.len(),
        forall|k: int| 0 <= k < n ==> (#[trigger] rs[k]).0 < at,
        n == rs.len() || rs[n].0 >= at,
    ensures
        lead_start(rs, at) == n,
    decreases rs.len(),
{
    if n > 0 {
        assert(rs[0].0 < at);
        assert forall|k: int| 0 <= k < n - 1 implies (#[trigger] rs.drop_first()[k]).0 < at by {
            assert(rs.drop_first()[k] == rs[k + 1]);
        }
        if n < rs.len() {
            assert(rs.drop_first()[n - 1] == rs[n]);
        }
        lemma_lead_start(rs.drop_first(), at, n - 1);
    }
}

/// Paste blocks moved left by `n`.
pub open spec fn unshift_paste(bs: Seq<PasteBlock>, n: int) -> Seq<PasteBlock> {
    bs.map_values(|b: PasteBlock| PasteBlock { start: (b.start - n) as usize, end: (b.end - n) as usize })
}

/// Image blocks moved left by `n`.
pub open spec fn unshift_image(bs: Seq<ImageBlock>, n: int) -> Seq<ImageBlock> {
    bs.map_values(|b: ImageBlock| ImageBlock { start: (b.start - n) as usize, end: (b.end - n) as usize, image: b.image })
}

/// The paste blocks after removing `start..end`: those ending at or before
/// the cut stay, those starting at or after it move left, the rest go.
pub open spec fn cut_paste(ps: Seq<PasteBlock>, start: int, end: int) -> Seq<PasteBlock> {
    ps.take(lead_end(paste_spans(ps), start) as int) + unshift_paste(
        ps.skip(lead_start(paste_spans(ps), end) as int),
        end - start,
    )
}

/// The image blocks after removing `start..end`.
pub open spec fn cut_image(is: Seq<ImageBlock>, start: int, end: int) -> Seq<ImageBlock> {
    is.take(lead_end(image_spans(is), start) as int) + unshift_image(
        is.skip(lead_start(image_spans(is), end) as int),
        end - start,
    )
}

/// The state after removing the characters `start..end`: blocks the cut
/// touches go, later blocks move left, the cursor lands at `start`.
pub open spec fn removed_range(s: InputState, t: InputState, start: int, end: int) -> bool {
    &&& t.buf@ == s.buf@.subrange(0, start) + s.buf@.subrange(end, s.buf@.len() as int)
    &&& t.cursor == start
    &&& t.paste_blocks@ == cut_paste(s.paste_blocks@, start, end)
    &&& t.image_blocks@ == cut_image(s.image_blocks@, start, end)
    &&& t.suggest == s.suggest
    &&& same_settings(s, t)
}

/// The state after clearing the bar.
pub open spec fn cleared(s: InputState, t: InputState) -> bool {
    &&& t.buf@.len() == 0
    &&& t.cursor == 0
    &&& t.paste_blocks@.len() == 0
    &&& t.image_blocks@.len() == 0
    &&& t.suggest is None
    &&& same_settings(s, t)
}

/// The state after filling the bar with `text`, cursor at its end.
pub open spec fn filled(s: InputState, t: InputState, text: Seq<char>) -> bool {
    &&& t.buf@ == text
    &&& t.cursor == text.len()
    &&& t.paste_blocks@.len() == 0
    &&& t.image_blocks@.len() == 0
    &&& t.suggest == s.suggest
    &&& same_settings(s, t)
}

/// The state after inserting one character at the cursor.
pub open spec fn inserted_char(s: InputState, t: InputState, c: char) -> bool {
    let at = s.cursor as int;
    &&& t.buf@ == s.buf@.subrange(0, at) + seq![c] + s.buf@.subrange(at, s.buf@.len() as int)
    &&& t.cursor == at + 1
    &&& t.paste_blocks@ == shift_paste(s.paste_blocks@, at, 1)
    &&& t.image_blocks@ == shift_image(s.image_blocks@, at, 1)
    &&& t.suggest == s.suggest
    &&& same_settings(s, t)
}

/// The history entry that Up recalls, if any.
pub open spec fn prev_index(s: InputState) -> Option<int> {
    if s.history@.len() == 0 {
        None
    } else {
        match s.hist_idx {
            None => Some(s.history@.len() - 1),
            Some(i) => Some(if i == 0 {
                0
            } else {
                i - 1
            }),
        }
    }
}

/// The state after Up recalls history: the first step saves the draft.
pub open spec fn recalled_prev(s: InputState, t: InputState) -> bool {
    match prev_index(s) {
        None => t == s,
        Some(i) => {
            &&& t.hist_idx == Some(i as usize)
            &&& t.buf@ == s.history@[i]@
            &&& t.cursor == t.buf@.len()
            &&& t.paste_blocks@.len() == 0
            &&& t.image_blocks@.len() == 0
            &&& if s.hist_idx is None {
                &&& t.draft matches Some(d) && d@ == s.buf@
                &&& t.draft_paste_blocks@ == s.paste_blocks@
                &&& t.draft_image_blocks@ == s.image_blocks@
            } else {
                t.draft == s.draft && t.draft_paste_blocks == s.draft_paste_blocks && t.draft_image_blocks
                    == s.draft_image_blocks
            }
            &&& t.history == s.history && t.multiline == s.multiline && t.search == s.search
            &&& t.language == s.language && t.paste_placeholder_chars == s.paste_placeholder_chars
            &&& t.history_limit == s.history_limit && t.suggest == s.suggest
        },
    }
}

/// The state after Down moves through history: past the newest entry the
/// draft comes back.
pub open spec fn recalled_next(s: InputState, t: InputState) -> bool {
    match s.hist_idx {
        None => t == s,
        Some(i) => {
            &&& if i + 1 < s.history@.len() {
                &&& t.hist_idx == Some((i + 1) as usize)
                &&& t.buf@ == s.history@[i + 1]@
                &&& t.paste_blocks@.len() == 0
                &&& t.image_blocks@.len() == 0
                &&& t.draft == s.draft && t.draft_paste_blocks == s.draft_paste_blocks
                &&& t.draft_image_blocks == s.draft_image_blocks
            } else {
                &&& t.hist_idx is None
                &&& t.buf@ == match s.draft {
                    Some(d) => d@,
                    None => Seq::<char>::empty(),
                }
                &&& t.paste_blocks@ == s.draft_paste_blocks@
                &&& t.image_blocks@ == s.draft_image_blocks@
                &&& t.draft is None
                &&& t.draft_paste_blocks@.len() == 0
                &&& t.draft_image_blocks@.len() == 0
            }
            &&& t.cursor == t.buf@.len()
            &&& t.history == s.history && t.multiline == s.multiline && t.search == s.search
            &&& t.language == s.language && t.paste_placeholder_chars == s.paste_placeholder_chars
            &&& t.history_limit == s.history_limit && t.suggest == s.suggest
        },
    }
}

/// The state after toggling multiline mode: leaving it drops the draft.
pub open spec fn toggled_multiline(s: InputState, t: InputState) -> bool {
    &&& t.multiline == !s.multiline
    &&& if s.multiline {
        t.draft is None && t.draft_paste_blocks@.len() == 0 && t.draft_image_blocks@.len() == 0
    } else {
        t.draft == s.draft && t.draft_paste_blocks == s.draft_paste_blocks && t.draft_image_blocks
            == s.draft_image_blocks
    }
    &&& t.buf == s.buf && t.cursor == s.cursor && t.paste_blocks == s.paste_blocks
    &&& t.image_blocks == s.image_blocks && t.history == s.history && t.hist_idx == s.hist_idx
    &&& t.search == s.search && t.language == s.language && t.suggest == s.suggest
    &&& t.paste_placeholder_chars == s.paste_placeholder_chars && t.history_limit == s.history_limit
}

impl InputState {
    /// Empty the bar and close the popup.
    pub fn clear(&mut self)
        requires
            old(self).wf(),
        ensures
            final(self).wf(),
            cleared(*old(self), *final(self)),
    {
        self.buf = String::new();
        self.cursor = 0;
        self.suggest = None;
        self.paste_blocks.clear();
        self.image_blocks.clear();
    }

    /// Fill the bar with a plain command line while the popup stays open.
    pub fn fill_text(&mut self, text: String)
        requires
            old(self).wf(),
        ensures
            final(self).wf(),
            filled(*old(self), *final(self), text@),
    {
        let n = chars_of(text.as_str()).len();
        self.buf = text;
        self.cursor = n;
        self.paste_blocks.clear();
        self.image_blocks.clear();
    }

    /// Enter multiline mode, or leave it dropping the saved draft.
    pub fn toggle_multiline(&mut self) -> (r: InputAction)
        requires
            old(self).wf(),
        ensures
            final(self).wf(),
            toggled_multiline(*old(self), *final(self)),
            r is ToggleMultiline,
    {
        if !self.multiline {
            self.multiline = true;
        } else {
            self.multiline = false;
            self.draft = None;
            self.draft_paste_blocks.clear();
            self.draft_image_blocks.clear();
        }
        InputAction::ToggleMultiline
    }

    /// Recall the previous history entry, saving the draft on the first step.
    pub fn history_prev(&mut self)
        requires
            old(self).wf(),
        ensures
            final(self).wf(),
            recalled_prev(*old(self), *final(self)),
    {
        if self.history.len() == 0 {
            return;
        }
        let idx = match self.hist_idx {
            None => self.history.len() - 1,
            Some(i) => if i == 0 {
                0
            } else {
                i - 1
            },
        };
        if self.hist_idx.is_none() {
            self.draft = Some(self.buf.clone());
            let mut saved: Vec<PasteBlock> = Vec::new();
            std::mem::swap(&mut saved, &mut self.paste_blocks);
            self.draft_paste_blocks = saved;
            let mut saved_images: Vec<ImageBlock> = Vec::new();
            std::mem::swap(&mut saved_images, &mut self.image_blocks);
            self.draft_image_blocks = saved_images;
        }
        self.hist_idx = Some(idx);
        self.buf = self.history[idx].clone();
        self.cursor = chars_of(self.buf.as_str()).len();
        self.paste_blocks.clear();
        self.image_blocks.clear();
    }

    /// Move to the next history entry; past the newest the draft returns.
    pub fn history_next(&mut self)
        requires
            old(self).wf(),
        ensures
            final(self).wf(),
            recalled_next(*old(self), *final(self)),
    {
        let idx = match self.hist_idx {
            None => {
                return;
            },
            Some(i) => i,
        };
        let n = self.history.len();
        if n > 0 && idx < n - 1 {
            self.hist_idx = Some(idx + 1);
            self.buf = self.history[idx + 1].clone();
            self.paste_blocks.clear();
            self.image_blocks.clear();
        } else {
            self.hist_idx = None;
            let draft = self.draft.take();
            self.buf = match draft {
                Some(d) => d,
                None => String::new(),
            };
            let mut ps: Vec<PasteBlock> = Vec::new();
            std::mem::swap(&mut ps, &mut self.draft_paste_blocks);
            self.paste_blocks = ps;
            let mut is: Vec<ImageBlock> = Vec::new();
            std::mem::swap(&mut is, &mut self.draft_image_blocks);
            self.image_blocks = is;
        }
        self.cursor = chars_of(self.buf.as_str()).len();
    }
}

proof fn lemma_lead_end_facts(rs: Seq<(int, int)>, at: int)
    ensures
        lead_end(rs, at) <= rs.len(),
        forall|k: int| 0 <= k < lead_end(rs, at) ==> (#[trigger] rs[k]).1 <= at,
        lead_end(rs, at) < rs.len() ==> rs[lead_end(rs, at) as int].1 > at,
    decreases rs.len(),
{
    if rs.len() > 0 && rs[0].1 <= at {
        lemma_lead_end_facts(rs.drop_first(), at);
        assert forall|k: int| 0 <= k < lead_end(rs, at) implies (#[trigger] rs[k]).1 <= at by {
            if k > 0 {
                assert(rs[k] == rs.drop_first()[k - 1]);
            }
        }
        if lead_end(rs, at) < rs.len() {
            assert(rs[lead_end(rs, at) as int] == rs.drop_first()[lead_end(rs.drop_first(), at) as int]);
        }
    }
}

proof fn lemma_lead_start_facts(rs: Seq<(int, int)>, at: int)
    ensures
        lead_start(rs, at) <= rs.len(),
        forall|k: int| 0 <= k < lead_start(rs, at) ==> (#[trigger] rs[k]).0 < at,
        lead_start(rs, at) < rs.len() ==> rs[lead_start(rs, at) as int].0 >= at,
    decreases rs.len(),
{
    if rs.len() > 0 && rs[0].0 < at {
        lemma_lead_start_facts(rs.drop_first(), at);
        assert forall|k: int| 0 <= k < lead_start(rs, at) implies (#[trigger] rs[k]).0 < at by {
            if k > 0 {
                assert(rs[k] == rs.drop_first()[k - 1]);
            }
        }
        if lead_start(rs, at) < rs.len() {
            assert(rs[lead_start(rs, at) as int] == rs.drop_first()[lead_start(rs.drop_first(), at) as int]);
        }
    }
}

/// Facts about the blocks a cut keeps on each side.
proof fn lemma_cut_sides(ps: Seq<PasteBlock>, is: Seq<ImageBlock>, len: int, start: int, end: int)
    requires
        blocks_ok(ps, is, len),
        0 <= start < end <= len,
    ensures
        ({
            let a = lead_end(paste_spans(ps), start) as int;
            let b = lead_start(paste_spans(ps), end) as int;
            &&& a <= b <= ps.len()
            &&& forall|i: int| 0 <= i < a ==> (#[trigger] ps[i]).end <= start
            &&& forall|i: int| b <= i < ps.len() ==> (#[trigger] ps[i]).start >= end
        }),
        ({
            let a = lead_end(image_spans(is), start) as int;
            let b = lead_start(image_spans(is), end) as int;
            &&& a <= b <= is.len()
            &&& forall|i: int| 0 <= i < a ==> (#[trigger] is[i]).end <= start
            &&& forall|i: int| b <= i < is.len() ==> (#[trigger] is[i]).start >= end
        }),
{
    let prs = paste_spans(ps);
    let irs = image_spans(is);
    lemma_lead_end_facts(prs, start);
    lemma_lead_start_facts(prs, end);
    lemma_lead_end_facts(irs, start);
    lemma_lead_start_facts(irs, end);
    let pa = lead_end(prs, start) as int;
    let pb = lead_start(prs, end) as int;
    let ia = lead_end(irs, start) as int;
    let ib = lead_start(irs, end) as int;
    assert forall|i: int| 0 <= i < pa implies (#[trigger] ps[i]).end <= start by {
        assert(prs[i].1 == ps[i].end);
    }
    assert forall|i: int| 0 <= i < ia implies (#[trigger] is[i]).end <= start by {
        assert(irs[i].1 == is[i].end);
    }
    if pa > pb {
        assert(prs[pb].0 >= end);
        assert(ps[pb].end <= start);
        assert(ps[pb].start < ps[pb].end);
    }
    if ia > ib {
        assert(irs[ib].0 >= end);
        assert(is[ib].end <= start);
        assert(is[ib].start < is[ib].end);
    }
    assert forall|i: int| pb <= i < ps.len() implies (#[trigger] ps[i]).start >= end by {
        assert(prs[pb].0 >= end);
        if i > pb {
            assert(ps[pb].end <= ps[i].start);
            assert(ps[pb].start < ps[pb].end);
        }
    }
    assert forall|i: int| ib <= i < is.len() implies (#[trigger] is[i]).start >= end by {
        assert(irs[ib].0 >= end);
        if i > ib {
            assert(is[ib].end <= is[i].start);
            assert(is[ib].start < is[ib].end);
        }
    }
}

proof fn lemma_cut_ok(ps: Seq<PasteBlock>, is: Seq<ImageBlock>, len: int, start: int, end: int)
    requires
        blocks_ok(ps, is, len),
        0 <= start < end <= len,
    ensures
        blocks_ok(cut_paste(ps, start, end), cut_image(is, start, end), len - (end - start)),
        cursor_outside(cut_paste(ps, start, end), cut_image(is, start, end), start),
{
    lemma_cut_sides(ps, is, len, start, end);
    let n = end - start;
    let pa = lead_end(paste_spans(ps), start) as int;
    let pb = lead_start(paste_spans(ps), end) as int;
    let ia = lead_end(image_spans(is), start) as int;
    let ib = lead_start(image_spans(is), end) as int;
    let cp = cut_paste(ps, start, end);
    let ci = cut_image(is, start, end);
    // Each kept block, as an index into the original list.
    assert forall|k: int| 0 <= k < cp.len() implies ((k < pa ==> #[trigger] cp[k] == ps[k]) && (k >= pa ==> cp[k]
        == PasteBlock { start: (ps[pb + k - pa].start - n) as usize, end: (ps[pb + k - pa].end - n) as usize })) by {}
    assert forall|k: int| 0 <= k < ci.len() implies ((k < ia ==> #[trigger] ci[k] == is[k]) && (k >= ia ==> ci[k]
        == ImageBlock {
            start: (is[ib + k - ia].start - n) as usize,
            end: (is[ib + k - ia].end - n) as usize,
            image: is[ib + k - ia].image,
        })) by {}
    assert forall|i: int| 0 <= i < cp.len() implies (#[trigger] cp[i]).start < cp[i].end <= len - n by {
        if i >= pa {
            assert(ps[pb + i - pa].start < ps[pb + i - pa].end <= len);
        } else {
            assert(ps[i].start < ps[i].end);
        }
    }
    assert forall|i: int| 0 <= i < ci.len() implies (#[trigger] ci[i]).start < ci[i].end <= len - n by {
        if i >= ia {
            assert(is[ib + i - ia].start < is[ib + i - ia].end <= len);
        } else {
            assert(is[i].start < is[i].end);
        }
    }
    assert forall|i: int, j: int| 0 <= i < j < cp.len() implies (#[trigger] cp[i]).end <= (#[trigger] cp[j]).start by {
        if j < pa {
            assert(ps[i].end <= ps[j].start);
        } else if i < pa {
            assert(ps[i].end <= start);
        } else {
            assert(ps[pb + i - pa].end <= ps[pb + j - pa].start);
        }
    }
    assert forall|i: int, j: int| 0 <= i < j < ci.len() implies (#[trigger] ci[i]).end <= (#[trigger] ci[j]).start by {
        if j < ia {
            assert(is[i].end <= is[j].start);
        } else if i < ia {
            assert(is[i].end <= start);
        } else {
            assert(is[ib + i - ia].end <= is[ib + j - ia].start);
        }
    }
    assert forall|i: int, j: int| 0 <= i < cp.len() && 0 <= j < ci.len() implies (#[trigger] cp[i]).end <= (
    #[trigger] ci[j]).start || ci[j].end <= cp[i].start by {
        if i < pa && j < ia {
            assert(ps[i].end <= is[j].start || is[j].end <= ps[i].start);
        } else if i < pa {
            assert(ps[i].end <= start);
        } else if j < ia {
            assert(is[j].end <= start);
        } else {
            let pi = pb + i - pa;
            let ij = ib + j - ia;
            assert(ps[pi].end <= is[ij].start || is[ij].end <= ps[pi].start);
        }
    }
    assert forall|i: int| 0 <= i < cp.len() implies !((#[trigger] cp[i]).start < start < cp[i].end) by {
        if i < pa {
            assert(ps[i].end <= start);
        }
    }
    assert forall|i: int| 0 <= i < ci.len() implies !((#[trigger] ci[i]).start < start < ci[i].end) by {
        if i < ia {
            assert(is[i].end <= start);
        }
    }
}

impl InputState {
    /// The block that starts at `cursor`, if any.
    pub fn block_starting_at(&self, cursor: usize) -> (r: Option<(usize, usize)>)
        ensures
            match r {
                Some((a, b)) => a == cursor && is_block(*self, a as int, b as int),
                None => forall|e: int| !is_block(*self, cursor as int, e),
            },
    {
        let mut i: usize = 0;
        while i < self.paste_blocks.len()
            invariant
                i <= self.paste_blocks@.len(),
                forall|k: int| 0 <= k < i ==> (#[trigger] self.paste_blocks@[k]).start != cursor,
            decreases self.paste_blocks.len() - i,
        {
            let b = self.paste_blocks[i];
            if b.start == cursor {
                proof {
                    assert(paste_spans(self.paste_blocks@)[i as int] == (b.start as int, b.end as int));
                }
                return Some((b.start, b.end));
            }
            i = i + 1;
        }
        let mut j: usize = 0;
        while j < self.image_blocks.len()
            invariant
                j <= self.image_blocks@.len(),
                forall|k: int| 0 <= k < self.paste_blocks@.len() ==> (#[trigger] self.paste_blocks@[k]).start != cursor,
                forall|k: int| 0 <= k < j ==> (#[trigger] self.image_blocks@[k]).start != cursor,
            decreases self.image_blocks.len() - j,
        {
            if self.image_blocks[j].start == cursor {
                proof {
                    assert(image_spans(self.image_blocks@)[j as int] == (self.image_blocks@[j as int].start as int, self.image_blocks@[j as int].end as int));
                }
                return Some((self.image_blocks[j].start, self.image_blocks[j].end));
            }
            j = j + 1;
        }
        proof {
            assert forall|e: int| !is_block(*self, cursor as int, e) by {
                if paste_spans(self.paste_blocks@).contains((cursor as int, e)) {
                    let k = choose|k: int| 0 <= k < paste_spans(self.paste_blocks@).len() && paste_spans(self.paste_blocks@)[k] == (cursor as int, e);
                    assert(self.paste_blocks@[k].start == cursor);
                }
                if image_spans(self.image_blocks@).contains((cursor as int, e)) {
                    let k = choose|k: int| 0 <= k < image_spans(self.image_blocks@).len() && image_spans(self.image_blocks@)[k] == (cursor as int, e);
                    assert(self.image_blocks@[k].start == cursor);
                }
            }
        }
        None
    }

    /// The block that ends at `cursor`, if any.
    pub fn block_ending_at(&self, cursor: usize) -> (r: Option<(usize, usize)>)
        ensures
            match r {
                Some((a, b)) => b == cursor && is_block(*self, a as int, b as int),
                None => forall|a: int| !is_block(*self, a, cursor as int),
            },
    {
        let mut i: usize = 0;
        while i < self.paste_blocks.len()
            invariant
                i <= self.paste_blocks@.len(),
                forall|k: int| 0 <= k < i ==> (#[trigger] self.paste_blocks@[k]).end != cursor,
            decreases self.paste_blocks.len() - i,
        {
            let b = self.paste_blocks[i];
            if b.end == cursor {
                proof {
                    assert(paste_spans(self.paste_blocks@)[i as int] == (b.start as int, b.end as int));
                }
                return Some((b.start, b.end));
            }
            i = i + 1;
        }
        let mut j: usize = 0;
        while j < self.image_blocks.len()
            invariant
                j <= self.image_blocks@.len(),
                forall|k: int| 0 <= k < self.paste_blocks@.len() ==> (#[trigger] self.paste_blocks@[k]).end != cursor,
                forall|k: int| 0 <= k < j ==> (#[trigger] self.image_blocks@[k]).end != cursor,
            decreases self.image_blocks.len() - j,
        {
            if self.image_blocks[j].end == cursor {
                proof {
                    assert(image_spans(self.image_blocks@)[j as int] == (self.image_blocks@[j as int].start as int, self.image_blocks@[j as int].end as int));
                }
                return Some((self.image_blocks[j].start, self.image_blocks[j].end));
            }
            j = j + 1;
        }
        proof {
            assert forall|a: int| !is_block(*self, a, cursor as int) by {
                if paste_spans(self.paste_blocks@).contains((a, cursor as int)) {
                    let k = choose|k: int| 0 <= k < paste_spans(self.paste_blocks@).len() && paste_spans(self.paste_blocks@)[k] == (a, cursor as int);
                    assert(self.paste_blocks@[k].end == cursor);
                }
                if image_spans(self.image_blocks@).contains((a, cursor as int)) {
                    let k = choose|k: int| 0 <= k < image_spans(self.image_blocks@).len() && image_spans(self.image_blocks@)[k] == (a, cursor as int);
                    assert(self.image_blocks@[k].end == cursor);
                }
            }
        }
        None
    }

    /// The latest block end at or before `cursor`, or 0.
    pub fn preceding_block_end(&self, cursor: usize) -> (r: usize)
        ensures
            r <= cursor,
            r == 0 || exists|a: int| is_block(*self, a, r as int),
            forall|a: int, e: int| is_block(*self, a, e) && e <= cursor ==> e <= r,
    {
        let mut best: usize = 0;
        let mut i: usize = 0;
        while i < self.paste_blocks.len()
            invariant
                i <= self.paste_blocks@.len(),
                best <= cursor,
                best == 0 || exists|a: int| is_block(*self, a, best as int),
                forall|k: int| 0 <= k < i && (#[trigger] self.paste_blocks@[k]).end <= cursor ==> self.paste_blocks@[k].end <= best,
            decreases self.paste_blocks.len() - i,
        {
            let b = self.paste_blocks[i];
            if b.end <= cursor && b.end > best {
                best = b.end;
                proof {
                    assert(paste_spans(self.paste_blocks@)[i as int] == (b.start as int, b.end as int));
                    assert(is_block(*self, b.start as int, best as int));
                }
            }
            i = i + 1;
        }
        let mut j: usize = 0;
        while j < self.image_blocks.len()
            invariant
                j <= self.image_blocks@.len(),
                best <= cursor,
                best == 0 || exists|a: int| is_block(*self, a, best as int),
                forall|k: int| 0 <= k < self.paste_blocks@.len() && (#[trigger] self.paste_blocks@[k]).end <= cursor ==> self.paste_blocks@[k].end <= best,
                forall|k: int| 0 <= k < j && (#[trigger] self.image_blocks@[k]).end <= cursor ==> self.image_blocks@[k].end <= best,
            decreases self.image_blocks.len() - j,
        {
            let e = self.image_blocks[j].end;
            if e <= cursor && e > best {
                best = e;
                proof {
                    let b = self.image_blocks@[j as int];
                    assert(image_spans(self.image_blocks@)[j as int] == (b.start as int, b.end as int));
                    assert(is_block(*self, b.start as int, best as int));
                }
            }
            j = j + 1;
        }
        proof {
            assert forall|a: int, e: int| is_block(*self, a, e) && e <= cursor implies e <= best by {
                if paste_spans(self.paste_blocks@).contains((a, e)) {
                    let k = choose|k: int| 0 <= k < paste_spans(self.paste_blocks@).len() && paste_spans(self.paste_blocks@)[k] == (a, e);
                    assert(self.paste_blocks@[k].end == e);
                } else {
                    let k = choose|k: int| 0 <= k < image_spans(self.image_blocks@).len() && image_spans(self.image_blocks@)[k] == (a, e);
                    assert(self.image_blocks@[k].end == e);
                }
            }
        }
        best
    }

    /// Type one character at the cursor.
    pub fn insert_char(&mut self, c: char)
        requires
            old(self).wf(),
            old(self).buf@.len() < usize::MAX,
        ensures
            final(self).wf(),
            inserted_char(*old(self), *final(self), c),
    {
        let at = self.cursor;
        proof {
            lemma_shift_keeps_order(self.paste_blocks@, self.image_blocks@, self.buf@.len() as int, at as int, 1);
        }
        self.shift_blocks_for_insert(at, 1);
        let mut one = String::new();
        crate::text::push_char(&mut one, c);
        self.buf = insert_text(&self.buf, at, one.as_str());
        self.cursor = at + 1;
        proof {
            assert(one@ =~= seq![c]);
        }
    }
}

fn cut_paste_vec(v: &mut Vec<PasteBlock>, start: usize, end: usize)
    requires
        start < end,
        forall|i: int|
            lead_start(paste_spans(old(v)@), end as int) <= i < old(v)@.len() ==> (#[trigger] old(v)@[i]).start >= end
                && old(v)@[i].start <= old(v)@[i].end,
        lead_end(paste_spans(old(v)@), start as int) <= lead_start(paste_spans(old(v)@), end as int),
    ensures
        final(v)@ == cut_paste(old(v)@, start as int, end as int),
{
    let ghost orig = v@;
    let n = end - start;
    let mut a: usize = 0;
    while a < v.len() && v[a].end <= start
        invariant
            a <= v@.len(),
            v@ == orig,
            forall|k: int| 0 <= k < a ==> (#[trigger] v@[k]).end <= start,
        decreases v.len() - a,
    {
        a = a + 1;
    }
    proof {
        assert forall|k: int| 0 <= k < a implies (#[trigger] paste_spans(orig)[k]).1 <= start by {
            assert(paste_spans(orig)[k].1 == orig[k].end);
        }
        if a < orig.len() {
            assert(paste_spans(orig)[a as int].1 == orig[a as int].end);
        }
        lemma_lead_end(paste_spans(orig), start as int, a as int);
    }
    let mut b: usize = 0;
    while b < v.len() && v[b].start < end
        invariant
            b <= v@.len(),
            v@ == orig,
            forall|k: int| 0 <= k < b ==> (#[trigger] v@[k]).start < end,
        decreases v.len() - b,
    {
        b = b + 1;
    }
    proof {
        assert forall|k: int| 0 <= k < b implies (#[trigger] paste_spans(orig)[k]).0 < end by {
            assert(paste_spans(orig)[k].0 == orig[k].start);
        }
        if b < orig.len() {
            assert(paste_spans(orig)[b as int].0 == orig[b as int].start);
        }
        lemma_lead_start(paste_spans(orig), end as int, b as int);
    }
    let mut rest = v.split_off(b);
    v.truncate(a);
    let ghost tail = rest@;
    let mut i: usize = 0;
    while i < rest.len()
        invariant
            i <= rest@.len(),
            rest@.len() == tail.len(),
            tail == orig.skip(b as int),
            n == end - start,
            forall|k: int| 0 <= k < tail.len() ==> (#[trigger] tail[k]).start >= end && tail[k].start <= tail[k].end,
            forall|k: int| 0 <= k < i ==> #[trigger] rest@[k] == unshift_paste(tail, n as int)[k],
            forall|k: int| i <= k < tail.len() ==> #[trigger] rest@[k] == tail[k],
        decreases rest.len() - i,
    {
        let x = rest[i];
        rest.set(i, PasteBlock { start: x.start - n, end: x.end - n });
        i = i + 1;
    }
    proof {
        assert(rest@ =~= unshift_paste(tail, n as int));
    }
    v.append(&mut rest);
    proof {
        assert(v@ =~= cut_paste(orig, start as int, end as int));
    }
}

fn cut_image_vec(v: &mut Vec<ImageBlock>, start: usize, end: usize)
    requires
        start < end,
        forall|i: int|
            lead_start(image_spans(old(v)@), end as int) <= i < old(v)@.len() ==> (#[trigger] old(v)@[i]).start >= end
                && old(v)@[i].start <= old(v)@[i].end,
        lead_end(image_spans(old(v)@), start as int) <= lead_start(image_spans(old(v)@), end as int),
    ensures
        final(v)@ == cut_image(old(v)@, start as int, end as int),
{
    let ghost orig = v@;
    let n = end - start;
    let mut a: usize = 0;
    while a < v.len() && v[a].end <= start
        invariant
            a <= v@.len(),
            v@ == orig,
            forall|k: int| 0 <= k < a ==> (#[trigger] v@[k]).end <= start,
        decreases v.len() - a,
    {
        a = a + 1;
    }
    proof {
        assert forall|k: int| 0 <= k < a implies (#[trigger] image_spans(orig)[k]).1 <= start by {
            assert(image_spans(orig)[k].1 == orig[k].end);
        }
        if a < orig.len() {
            assert(image_spans(orig)[a as int].1 == orig[a as int].end);
        }
        lemma_lead_end(image_spans(orig), start as int, a as int);
    }
    let mut b: usize = 0;
    while b < v.len() && v[b].start < end
        invariant
            b <= v@.len(),
            v@ == orig,
            forall|k: int| 0 <= k < b ==> (#[trigger] v@[k]).start < end,
        decreases v.len() - b,
    {
        b = b + 1;
    }
    proof {
        assert forall|k: int| 0 <= k < b implies (#[trigger] image_spans(orig)[k]).0 < end by {
            assert(image_spans(orig)[k].0 == orig[k].start);
        }
        if b < orig.len() {
            assert(image_spans(orig)[b as int].0 == orig[b as int].start);
        }
        lemma_lead_start(image_spans(orig), end as int, b as int);
    }
    let mut rest = v.split_off(b);
    v.truncate(a);
    let ghost tail = rest@;
    let mut shifted: Vec<ImageBlock> = Vec::new();
    while rest.len() > 0
        invariant
            tail == orig.skip(b as int),
            n == end - start,
            forall|k: int| 0 <= k < tail.len() ==> (#[trigger] tail[k]).start >= end && tail[k].start <= tail[k].end,
            shifted@.len() + rest@.len() == tail.len(),
            rest@ == tail.skip(shifted@.len() as int),
            shifted@ == unshift_image(tail, n as int).take(shifted@.len() as int),
        decreases rest.len(),
    {
        let ghost k = shifted@.len() as int;
        let mut x = rest.remove(0);
        proof {
            assert(x == tail[k]);
        }
        x.start = x.start - n;
        x.end = x.end - n;
        shifted.push(x);
        proof {
            assert(rest@ =~= tail.skip(shifted@.len() as int));
            assert(shifted@ =~= unshift_image(tail, n as int).take(shifted@.len() as int));
        }
    }
    proof {
        assert(shifted@ =~= unshift_image(tail, n as int));
    }
    v.append(&mut shifted);
    proof {
        assert(v@ =~= cut_image(orig, start as int, end as int));
    }
}

impl InputState {
    /// Remove the characters `start..end`: blocks the cut touches go, later
    /// blocks move left, and the cursor lands at `start`.
    pub fn remove_range(&mut self, start: usize, end: usize)
        requires
            old(self).wf(),
            start < end <= old(self).buf@.len(),
        ensures
            final(self).wf(),
            removed_range(*old(self), *final(self), start as int, end as int),
    {
        proof {
            lemma_cut_sides(self.paste_blocks@, self.image_blocks@, self.buf@.len() as int, start as int, end as int);
            lemma_cut_ok(self.paste_blocks@, self.image_blocks@, self.buf@.len() as int, start as int, end as int);
        }
        let chars = chars_of(self.buf.as_str());
        let mut text = string_of_range(chars.as_slice(), 0, start);
        let tail = string_of_range(chars.as_slice(), end, chars.len());
        crate::text::push_str(&mut text, tail.as_str());
        self.buf = text;
        cut_paste_vec(&mut self.paste_blocks, start, end);
        cut_image_vec(&mut self.image_blocks, start, end);
        self.cursor = start;
    }
}


/// Up then Down from the draft gives the draft back: its text, its blocks,
/// and the cursor at its end, with history browsing over.
pub proof fn history_round_trip_restores_the_draft(s: InputState, t: InputState, u: InputState)
    requires
        s.hist_idx is None,
        s.history@.len() > 0,
        recalled_prev(s, t),
        recalled_next(t, u),
    ensures
        u.buf@ == s.buf@,
        u.paste_blocks@ == s.paste_blocks@,
        u.image_blocks@ == s.image_blocks@,
        u.cursor == s.buf@.len(),
        u.hist_idx is None,
        u.history == s.history,
{
    let i = s.history@.len() - 1;
    assert(s.history@.len() == s.history.len());
    assert(prev_index(s) == Some(i));
    assert(t.hist_idx == Some(i as usize));
    assert(t.draft is Some && t.draft.unwrap()@ == s.buf@);
    assert(t.draft_paste_blocks@ == s.paste_blocks@);
    assert(!((i as usize) + 1 < t.history@.len()));
}

/// Typing a character and deleting the one before the cursor gives the
/// text back, with the cursor where it was.
pub proof fn insert_then_delete_restores_the_text(s: InputState, t: InputState, u: InputState, c: char)
    requires
        s.cursor <= s.buf@.len(),
        inserted_char(s, t, c),
        removed_range(t, u, s.cursor as int, s.cursor + 1),
    ensures
        u.buf@ == s.buf@,
        u.cursor == s.cursor,
{
    let at = s.cursor as int;
    assert(u.buf@ =~= s.buf@);
}

} // verus!
