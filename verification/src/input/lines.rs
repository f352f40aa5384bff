//! Moving the cursor between the displayed lines of a multiline buffer.
use vstd::prelude::*;

use super::{
    blocks_ok, blocks_view, chained, cursor_outside, image_display, lemma_merged_chained, mapped_cursor, merged,
    paste_display, rendered, DisplayBlock, ImageBlock, InputState, PasteBlock,
};
use crate::text::chars_of;

verus! {

/// The raw position of display position `dc`, counting from raw position
/// `raw` at display position `pos`: a position inside a placeholder goes to
/// the block's start; past the end it clamps to the buffer.
pub open spec fn raw_position(blocks: Seq<DisplayBlock>, raw: int, pos: int, dc: int, len: int) -> int
    decreases blocks.len(),
{
    if blocks.len() == 0 {
        raw + if dc - pos <= len - raw {
            dc - pos
        } else {
            len - raw
        }
    } else {
        let before = blocks[0].start - raw;
        if dc <= pos + before {
            raw + (dc - pos)
        } else if dc < pos + before + blocks[0].label.len() {
            blocks[0].start
        } else {
            raw_position(blocks.drop_first(), blocks[0].end, pos + before + blocks[0].label.len(), dc, len)
        }
    }
}

/// The raw cursor for a display cursor: without blocks the positions agree.
pub open spec fn display_to_raw(s: InputState, dc: int) -> int {
    let bs = merged(s.paste_blocks@, s.image_blocks@);
    if bs.len() == 0 {
        dc
    } else {
        raw_position(bs, 0, 0, dc, s.buf@.len() as int)
    }
}

/// Start of the line holding position `c`: just after the last newline
/// before it, or 0.
pub open spec fn line_start(t: Seq<char>, c: int) -> int
    decreases c,
{
    if c <= 0 {
        0
    } else if c <= t.len() && t[c - 1] == '\n' {
        c
    } else {
        line_start(t, c - 1)
    }
}

/// The first newline at or after `c`, or the length when none is.
pub open spec fn next_newline(t: Seq<char>, c: int) -> int
    decreases t.len() - c,
{
    if c >= t.len() {
        t.len() as int
    } else if c >= 0 && t[c] == '\n' {
        c
    } else {
        next_newline(t, c + 1)
    }
}

pub open spec fn min_int(a: int, b: int) -> int {
    if a <= b {
        a
    } else {
        b
    }
}

/// The display target of Up: the same column on the previous line, clamped
/// to its length; none on the first line.
pub open spec fn up_target(t: Seq<char>, c: int) -> Option<int> {
    let start = line_start(t, c);
    if start == 0 {
        None
    } else {
        let prev_start = line_start(t, start - 1);
        Some(prev_start + min_int(c - start, start - 1 - prev_start))
    }
}

/// The display target of Down: the same column on the next line, clamped
/// to its length; none on the last line.
pub open spec fn down_target(t: Seq<char>, c: int) -> Option<int> {
    let nl = next_newline(t, c);
    if nl >= t.len() {
        None
    } else {
        let next_start = nl + 1;
        let next_end = next_newline(t, next_start);
        Some(next_start + min_int(c - line_start(t, c), next_end - next_start))
    }
}

/// The state after a vertical move to a display target: only the cursor
/// changes.
pub open spec fn moved_to(s: InputState, t: InputState, target: int) -> bool {
    &&& t.cursor == display_to_raw(s, target)
    &&& t.buf == s.buf && t.paste_blocks == s.paste_blocks && t.image_blocks == s.image_blocks
    &&& t.history == s.history && t.hist_idx == s.hist_idx && t.multiline == s.multiline
    &&& t.draft == s.draft && t.draft_paste_blocks == s.draft_paste_blocks
    &&& t.draft_image_blocks == s.draft_image_blocks && t.search == s.search && t.language == s.language
    &&& t.paste_placeholder_chars == s.paste_placeholder_chars && t.history_limit == s.history_limit
    &&& t.suggest == s.suggest
}

/// The display text and cursor of a state.
pub open spec fn display_of(s: InputState) -> (Seq<char>, int) {
    let bs = merged(s.paste_blocks@, s.image_blocks@);
    (rendered(s.buf@, bs, 0), mapped_cursor(bs, 0, 0, s.cursor as int))
}

/// The display text fits in memory.
pub open spec fn display_fits(s: InputState) -> bool {
    rendered(s.buf@, merged(s.paste_blocks@, s.image_blocks@), 0).len() <= usize::MAX
}

proof fn lemma_chained_bounds(bs: Seq<DisplayBlock>, raw: int, len: int)
    requires
        chained(bs, raw, len),
    ensures
        raw <= len,
        forall|k: int| 0 <= k < bs.len() ==> raw <= (#[trigger] bs[k]).start < bs[k].end <= len,
    decreases bs.len(),
{
    if bs.len() > 0 {
        lemma_chained_bounds(bs.drop_first(), bs[0].end, len);
        assert forall|k: int| 0 <= k < bs.len() implies raw <= (#[trigger] bs[k]).start < bs[k].end <= len by {
            if k > 0 {
                assert(bs[k] == bs.drop_first()[k - 1]);
            }
        }
    }
}

/// A raw position found by `raw_position` lies in the buffer and outside
/// every block.
proof fn lemma_raw_position_outside(bs: Seq<DisplayBlock>, raw: int, pos: int, dc: int, len: int)
    requires
        chained(bs, raw, len),
        0 <= raw,
        pos <= dc,
    ensures
        raw <= raw_position(bs, raw, pos, dc, len) <= len,
        forall|k: int|
            0 <= k < bs.len() ==> !((#[trigger] bs[k]).start < raw_position(bs, raw, pos, dc, len) < bs[k].end),
    decreases bs.len(),
{
    lemma_chained_bounds(bs, raw, len);
    if bs.len() > 0 {
        let r = raw_position(bs, raw, pos, dc, len);
        let before = bs[0].start - raw;
        let rest = bs.drop_first();
        lemma_chained_bounds(rest, bs[0].end, len);
        if dc <= pos + before {
            assert forall|k: int| 0 <= k < bs.len() implies !((#[trigger] bs[k]).start < r < bs[k].end) by {
                if k > 0 {
                    assert(bs[k] == rest[k - 1]);
                }
            }
        } else if dc < pos + before + bs[0].label.len() {
            assert forall|k: int| 0 <= k < bs.len() implies !((#[trigger] bs[k]).start < r < bs[k].end) by {
                if k > 0 {
                    assert(bs[k] == rest[k - 1]);
                }
            }
        } else {
            lemma_raw_position_outside(rest, bs[0].end, pos + before + bs[0].label.len(), dc, len);
            assert forall|k: int| 0 <= k < bs.len() implies !((#[trigger] bs[k]).start < r < bs[k].end) by {
                if k > 0 {
                    assert(bs[k] == rest[k - 1]);
                }
            }
        }
    }
}

/// Every paste and image block has its range among the merged blocks.
proof fn lemma_merged_covers(ps: Seq<PasteBlock>, is: Seq<ImageBlock>)
    ensures
        forall|i: int|
            0 <= i < ps.len() ==> exists|k: int|
                0 <= k < merged(ps, is).len() && (#[trigger] merged(ps, is)[k]).start == (#[trigger] ps[i]).start
                    && merged(ps, is)[k].end == ps[i].end,
        forall|j: int|
            0 <= j < is.len() ==> exists|k: int|
                0 <= k < merged(ps, is).len() && (#[trigger] merged(ps, is)[k]).start == (#[trigger] is[j]).start
                    && merged(ps, is)[k].end == is[j].end,
    decreases ps.len() + is.len(),
{
    let m = merged(ps, is);
    if ps.len() == 0 && is.len() == 0 {
    } else if is.len() == 0 || (ps.len() > 0 && ps[0].start <= is[0].start) {
        let rest = ps.drop_first();
        lemma_merged_covers(rest, is);
        let mr = merged(rest, is);
        assert(m =~= seq![paste_display(ps[0])] + mr);
        assert forall|i: int| 0 <= i < ps.len() implies exists|k: int|
            0 <= k < m.len() && (#[trigger] m[k]).start == (#[trigger] ps[i]).start && m[k].end == ps[i].end by {
            if i == 0 {
                assert(m[0].start == ps[0].start && m[0].end == ps[0].end);
            } else {
                assert(rest[i - 1] == ps[i]);
                let k = choose|k: int| 0 <= k < mr.len() && (#[trigger] mr[k]).start == rest[i - 1].start && mr[k].end
                    == rest[i - 1].end;
                assert(m[k + 1] == mr[k]);
            }
        }
        assert forall|j: int| 0 <= j < is.len() implies exists|k: int|
            0 <= k < m.len() && (#[trigger] m[k]).start == (#[trigger] is[j]).start && m[k].end == is[j].end by {
            let k = choose|k: int| 0 <= k < mr.len() && (#[trigger] mr[k]).start == is[j].start && mr[k].end == is[j].end;
            assert(m[k + 1] == mr[k]);
        }
    } else {
        let rest = is.drop_first();
        lemma_merged_covers(ps, rest);
        let mr = merged(ps, rest);
        assert(m =~= seq![image_display(is[0])] + mr);
        assert forall|j: int| 0 <= j < is.len() implies exists|k: int|
            0 <= k < m.len() && (#[trigger] m[k]).start == (#[trigger] is[j]).start && m[k].end == is[j].end by {
            if j == 0 {
                assert(m[0].start == is[0].start && m[0].end == is[0].end);
            } else {
                assert(rest[j - 1] == is[j]);
                let k = choose|k: int| 0 <= k < mr.len() && (#[trigger] mr[k]).start == rest[j - 1].start && mr[k].end
                    == rest[j - 1].end;
                assert(m[k + 1] == mr[k]);
            }
        }
        assert forall|i: int| 0 <= i < ps.len() implies exists|k: int|
            0 <= k < m.len() && (#[trigger] m[k]).start == (#[trigger] ps[i]).start && m[k].end == ps[i].end by {
            let k = choose|k: int| 0 <= k < mr.len() && (#[trigger] mr[k]).start == ps[i].start && mr[k].end == ps[i].end;
            assert(m[k + 1] == mr[k]);
        }
    }
}

/// A display-to-raw cursor keeps the state consistent.
proof fn lemma_display_to_raw_ok(s: InputState, dc: int)
    requires
        s.wf(),
        0 <= dc,
        merged(s.paste_blocks@, s.image_blocks@).len() > 0,
    ensures
        0 <= display_to_raw(s, dc) <= s.buf@.len(),
        cursor_outside(s.paste_blocks@, s.image_blocks@, display_to_raw(s, dc)),
{
    let ps = s.paste_blocks@;
    let is = s.image_blocks@;
    let len = s.buf@.len() as int;
    let bs = merged(ps, is);
    lemma_merged_chained(ps, is, 0, len);
    lemma_raw_position_outside(bs, 0, 0, dc, len);
    lemma_merged_covers(ps, is);
    let r = display_to_raw(s, dc);
    assert forall|i: int| 0 <= i < ps.len() implies !((#[trigger] ps[i]).start < r < ps[i].end) by {
        let k = choose|k: int| 0 <= k < bs.len() && (#[trigger] bs[k]).start == ps[i].start && bs[k].end == ps[i].end;
    }
    assert forall|j: int| 0 <= j < is.len() implies !((#[trigger] is[j]).start < r < is[j].end) by {
        let k = choose|k: int| 0 <= k < bs.len() && (#[trigger] bs[k]).start == is[j].start && bs[k].end == is[j].end;
    }
}

fn line_start_of(t: &[char], c: usize) -> (r: usize)
    ensures
        r == line_start(t@, c as int),
        r <= c,
{
    let mut k = c;
    while k > 0 && !(k <= t.len() && t[k - 1] == '\n')
        invariant
            k <= c,
            line_start(t@, c as int) == line_start(t@, k as int),
        decreases k,
    {
        k = k - 1;
    }
    k
}

fn next_newline_of(t: &[char], c: usize) -> (r: usize)
    ensures
        r == next_newline(t@, c as int),
        c <= t@.len() ==> c <= r,
        r <= t@.len(),
{
    if c >= t.len() {
        return t.len();
    }
    let mut k = c;
    while k < t.len() && t[k] != '\n'
        invariant
            c <= k <= t@.len(),
            next_newline(t@, c as int) == next_newline(t@, k as int),
        decreases t.len() - k,
    {
        k = k + 1;
    }
    k
}

impl InputState {
    /// The raw cursor of a display position: inside a placeholder it goes to
    /// the block's start.
    fn display_to_raw_cursor(&self, display_cursor: usize) -> (r: usize)
        requires
            self.wf(),
        ensures
            r == display_to_raw(*self, display_cursor as int),
    {
        let blocks = self.display_blocks();
        let ghost bs = merged(self.paste_blocks@, self.image_blocks@);
        if blocks.len() == 0 {
            return display_cursor;
        }
        proof {
            lemma_merged_chained(self.paste_blocks@, self.image_blocks@, 0, self.buf@.len() as int);
        }
        let len = chars_of(self.buf.as_str()).len();
        let mut raw: usize = 0;
        let mut pos: usize = 0;
        let mut k: usize = 0;
        proof {
            assert(bs.skip(0) =~= bs);
        }
        while k < blocks.len()
            invariant
                blocks_view(blocks@) == bs,
                bs == merged(self.paste_blocks@, self.image_blocks@),
                bs.len() > 0,
                k <= blocks@.len(),
                len == self.buf@.len(),
                chained(bs.skip(k as int), raw as int, len as int),
                pos <= display_cursor,
                raw_position(bs, 0, 0, display_cursor as int, len as int) == raw_position(
                    bs.skip(k as int),
                    raw as int,
                    pos as int,
                    display_cursor as int,
                    len as int,
                ),
            decreases blocks@.len() - k,
        {
            let ghost rest = bs.skip(k as int);
            proof {
                assert(rest[0] == bs[k as int]);
                assert(blocks_view(blocks@)[k as int] == bs[k as int]);
                assert(rest.drop_first() =~= bs.skip(k + 1));
                assert(bs[k as int].start == blocks@[k as int].0 as int);
                assert(bs[k as int].end == blocks@[k as int].1 as int);
                assert(bs[k as int].label == blocks@[k as int].2@);
            }
            let start = blocks[k].0;
            let end = blocks[k].1;
            let before = start - raw;
            if display_cursor - pos <= before {
                return raw + (display_cursor - pos);
            }
            let label_len = chars_of(blocks[k].2.as_str()).len();
            if display_cursor - pos - before < label_len {
                return start;
            }
            pos = pos + before + label_len;
            raw = end;
            k = k + 1;
        }
        proof {
            assert(bs.skip(k as int) =~= Seq::<DisplayBlock>::empty());
        }
        let rest_len = len - raw;
        if display_cursor - pos <= rest_len {
            raw + (display_cursor - pos)
        } else {
            len
        }
    }

    /// Move to the previous displayed line, keeping the column where it
    /// fits; false on the first line.
    pub fn cursor_up(&mut self) -> (r: bool)
        requires
            old(self).wf(),
            display_fits(*old(self)),
        ensures
            final(self).wf(),
            match up_target(display_of(*old(self)).0, display_of(*old(self)).1) {
                Some(target) => r && moved_to(*old(self), *final(self), target),
                None => !r && *final(self) == *old(self),
            },
    {
        let display = self.display_text();
        let text = chars_of(display.text.as_str());
        let cursor = display.cursor;
        let current_start = line_start_of(text.as_slice(), cursor);
        if current_start == 0 {
            return false;
        }
        let column = cursor - current_start;
        let previous_end = current_start - 1;
        let previous_start = line_start_of(text.as_slice(), previous_end);
        let previous_len = previous_end - previous_start;
        let target_column = if column <= previous_len {
            column
        } else {
            previous_len
        };
        let target = previous_start + target_column;
        let raw = self.display_to_raw_cursor(target);
        proof {
            if merged(self.paste_blocks@, self.image_blocks@).len() > 0 {
                lemma_display_to_raw_ok(*self, target as int);
            } else {
                assert(target <= text@.len()) by {
                    lemma_line_start_le(text@, previous_end as int);
                }
                assert(rendered(self.buf@, merged(self.paste_blocks@, self.image_blocks@), 0) =~= self.buf@);
            }
        }
        self.cursor = raw;
        true
    }

    /// Move to the next displayed line, keeping the column where it fits;
    /// false on the last line.
    pub fn cursor_down(&mut self) -> (r: bool)
        requires
            old(self).wf(),
            display_fits(*old(self)),
        ensures
            final(self).wf(),
            match down_target(display_of(*old(self)).0, display_of(*old(self)).1) {
                Some(target) => r && moved_to(*old(self), *final(self), target),
                None => !r && *final(self) == *old(self),
            },
    {
        let display = self.display_text();
        let text = chars_of(display.text.as_str());
        let cursor = display.cursor;
        let nl = next_newline_of(text.as_slice(), cursor);
        if nl >= text.len() {
            return false;
        }
        let current_start = line_start_of(text.as_slice(), cursor);
        let column = cursor - current_start;
        let next_start = nl + 1;
        let next_end = next_newline_of(text.as_slice(), next_start);
        let next_len = next_end - next_start;
        let target_column = if column <= next_len {
            column
        } else {
            next_len
        };
        let target = next_start + target_column;
        let raw = self.display_to_raw_cursor(target);
        proof {
            if merged(self.paste_blocks@, self.image_blocks@).len() > 0 {
                lemma_display_to_raw_ok(*self, target as int);
            } else {
                assert(rendered(self.buf@, merged(self.paste_blocks@, self.image_blocks@), 0) =~= self.buf@);
            }
        }
        self.cursor = raw;
        true
    }
}

proof fn lemma_line_start_le(t: Seq<char>, c: int)
    ensures
        line_start(t, c) <= c || c < 0,
        0 <= line_start(t, c),
    decreases c,
{
    if c > 0 && !(c <= t.len() && t[c - 1] == '\n') {
        lemma_line_start_le(t, c - 1);
    }
}

} // verus!
