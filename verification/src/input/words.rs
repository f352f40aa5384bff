//! Word deletion: the unit before the cursor and the whitespace around it.
use vstd::prelude::*;

use super::edit::{image_spans, is_block, paste_spans, removed_range};
use super::{blocks_ok, InputState};
use crate::text::{alphanumeric, chars_of, is_alphanumeric, is_white_space, is_whitespace, string_of_range};
use crate::unicode::{
    cjk_code, flatten_chars, grapheme_clusters, graphemes, script_code, script_codes, script_extension_codes, CjkScript,
};

verus! {

/// Whether a script code is Han, Hiragana or Katakana.
pub open spec fn is_cjk_code(x: u8) -> bool {
    x == cjk_code(CjkScript::Han) || x == cjk_code(CjkScript::Hiragana) || x == cjk_code(CjkScript::Katakana)
}

/// Whether a grapheme has a character whose scripts include Han, Hiragana
/// or Katakana: such graphemes delete one at a time.
pub open spec fn cjk_grapheme(g: Seq<char>) -> bool {
    exists|i: int, j: int|
        0 <= i < g.len() && 0 <= j < script_codes(g[i]).len() && #[trigger] is_cjk_code(script_codes(g[i])[j])
}

/// ASCII letters and digits, which `char::is_alphanumeric` accepts, and `_`.
pub open spec fn ascii_word_char(c: char) -> bool {
    ('a' <= c && c <= 'z') || ('A' <= c && c <= 'Z') || ('0' <= c && c <= '9') || c == '_'
}

/// Word-deletion class: 0 for word graphemes (starting with a letter, digit
/// or `_`), 1 for symbols, 2 for whitespace.
pub open spec fn word_class_of(g: Seq<char>) -> u8 {
    if forall|i: int| 0 <= i < g.len() ==> is_white_space(#[trigger] g[i]) {
        2
    } else if g.len() > 0 && (alphanumeric(g[0]) || ascii_word_char(g[0])) {
        0
    } else {
        1
    }
}

/// Index of the first grapheme of the run of same-class, non-CJK graphemes
/// ending just before `k`.
pub open spec fn run_back(gs: Seq<Seq<char>>, class: u8, k: int) -> int
    decreases k,
{
    if k <= 0 {
        0
    } else if cjk_grapheme(gs[k - 1]) || word_class_of(gs[k - 1]) != class {
        k
    } else {
        run_back(gs, class, k - 1)
    }
}

/// Index of the first grapheme of the deletion unit ending with the last
/// grapheme: a CJK grapheme alone, else its run of the same class.
pub open spec fn unit_index(gs: Seq<Seq<char>>) -> int {
    let last = gs.len() - 1;
    if cjk_grapheme(gs[last]) {
        last
    } else {
        run_back(gs, word_class_of(gs[last]), last)
    }
}

/// Character index where the deletion unit ending at `end` starts.
pub open spec fn word_unit_start_of(text: Seq<char>, end: int) -> int {
    let gs = grapheme_clusters(text.take(end));
    flatten_chars(gs.take(unit_index(gs))).len() as int
}

/// Back up over whitespace before `idx` without going below `barrier`.
pub open spec fn back_ws(chars: Seq<char>, idx: int, barrier: int) -> int
    decreases idx,
{
    if idx > barrier && idx > 0 && is_white_space(chars[idx - 1]) {
        back_ws(chars, idx - 1, barrier)
    } else {
        idx
    }
}

/// The start of the block ending at `c`, if one does.
pub open spec fn ending_block(s: InputState, c: int) -> Option<int> {
    if exists|a: int| is_block(s, a, c) {
        Some(choose|a: int| is_block(s, a, c))
    } else {
        None
    }
}

/// `r` is the latest block end at or before `c`, or 0 when none is.
pub open spec fn is_prev_end(s: InputState, c: int, r: int) -> bool {
    &&& 0 <= r <= c
    &&& r == 0 || exists|a: int| is_block(s, a, r)
    &&& forall|a: int, e: int| is_block(s, a, e) && e <= c ==> e <= r
}

/// The latest block end at or before `c`, or 0.
pub open spec fn prev_end(s: InputState, c: int) -> int {
    choose|r: int| is_prev_end(s, c, r)
}

/// Where a word deletion before the cursor starts.
pub open spec fn word_delete_start(s: InputState) -> int {
    let end = s.cursor as int;
    let b = s.buf@;
    let unit = match ending_block(s, end) {
        Some(a) => a,
        None => {
            let barrier = prev_end(s, end);
            let st = back_ws(b, end, barrier);
            match ending_block(s, st) {
                Some(a) => a,
                None => if st == 0 {
                    0
                } else {
                    let w = word_unit_start_of(b, st);
                    if w >= barrier {
                        w
                    } else {
                        barrier
                    }
                },
            }
        },
    };
    back_ws(b, unit, prev_end(s, unit))
}

/// The state after a word deletion: the unit before the cursor goes with the
/// whitespace around it; nothing happens at the start of the bar.
pub open spec fn word_deleted(s: InputState, t: InputState) -> bool {
    if s.cursor == 0 {
        t == s
    } else {
        removed_range(s, t, word_delete_start(s), s.cursor as int)
    }
}

pub(crate) proof fn lemma_block_at_end_unique(s: InputState, a1: int, a2: int, e: int)
    requires
        blocks_ok(s.paste_blocks@, s.image_blocks@, s.buf@.len() as int),
        is_block(s, a1, e),
        is_block(s, a2, e),
    ensures
        a1 == a2,
{
    let ps = s.paste_blocks@;
    let is = s.image_blocks@;
    let pr = paste_spans(ps);
    let ir = image_spans(is);
    if pr.contains((a1, e)) && pr.contains((a2, e)) {
        let i = choose|i: int| 0 <= i < pr.len() && pr[i] == (a1, e);
        let j = choose|j: int| 0 <= j < pr.len() && pr[j] == (a2, e);
        if i < j {
            assert(ps[i].end <= ps[j].start);
        } else if j < i {
            assert(ps[j].end <= ps[i].start);
        }
    } else if ir.contains((a1, e)) && ir.contains((a2, e)) {
        let i = choose|i: int| 0 <= i < ir.len() && ir[i] == (a1, e);
        let j = choose|j: int| 0 <= j < ir.len() && ir[j] == (a2, e);
        if i < j {
            assert(is[i].end <= is[j].start);
        } else if j < i {
            assert(is[j].end <= is[i].start);
        }
    } else if pr.contains((a1, e)) {
        let i = choose|i: int| 0 <= i < pr.len() && pr[i] == (a1, e);
        let j = choose|j: int| 0 <= j < ir.len() && ir[j] == (a2, e);
        assert(ps[i].end <= is[j].start || is[j].end <= ps[i].start);
    } else {
        let i = choose|i: int| 0 <= i < ir.len() && ir[i] == (a1, e);
        let j = choose|j: int| 0 <= j < pr.len() && pr[j] == (a2, e);
        assert(ps[j].end <= is[i].start || is[i].end <= ps[j].start);
    }
}

pub(crate) proof fn lemma_block_nonempty(s: InputState, a: int, e: int)
    requires
        blocks_ok(s.paste_blocks@, s.image_blocks@, s.buf@.len() as int),
        is_block(s, a, e),
    ensures
        0 <= a < e <= s.buf@.len(),
{
    let pr = paste_spans(s.paste_blocks@);
    let ir = image_spans(s.image_blocks@);
    if pr.contains((a, e)) {
        let i = choose|i: int| 0 <= i < pr.len() && pr[i] == (a, e);
        assert(s.paste_blocks@[i].start < s.paste_blocks@[i].end);
    } else {
        let i = choose|i: int| 0 <= i < ir.len() && ir[i] == (a, e);
        assert(s.image_blocks@[i].start < s.image_blocks@[i].end);
    }
}

proof fn lemma_prev_end_unique(s: InputState, c: int, r: int)
    requires
        blocks_ok(s.paste_blocks@, s.image_blocks@, s.buf@.len() as int),
        is_prev_end(s, c, r),
    ensures
        prev_end(s, c) == r,
{
    let q = prev_end(s, c);
    assert(is_prev_end(s, c, q));
    if q != r {
        if r != 0 {
            let a = choose|a: int| is_block(s, a, r);
            lemma_block_nonempty(s, a, r);
        }
        if q != 0 {
            let a = choose|a: int| is_block(s, a, q);
            lemma_block_nonempty(s, a, q);
        }
    }
}

/// Back up over whitespace before `idx` without going below `barrier`.
pub fn back_over_whitespace(chars: &[char], idx: usize, barrier: usize) -> (r: usize)
    requires
        idx <= chars@.len(),
    ensures
        r == back_ws(chars@, idx as int, barrier as int),
{
    let mut i = idx;
    while i > barrier && is_whitespace(chars[i - 1])
        invariant
            i <= idx <= chars@.len(),
            back_ws(chars@, idx as int, barrier as int) == back_ws(chars@, i as int, barrier as int),
        decreases i,
    {
        i = i - 1;
    }
    i
}

/// Whether a grapheme is Han, Hiragana or Katakana script.
pub fn is_cjk_ish(grapheme: &str) -> (r: bool)
    ensures
        r == cjk_grapheme(grapheme@),
{
    let han = script_code(CjkScript::Han);
    let hiragana = script_code(CjkScript::Hiragana);
    let katakana = script_code(CjkScript::Katakana);
    let chars = chars_of(grapheme);
    let mut i: usize = 0;
    while i < chars.len()
        invariant
            i <= chars@.len(),
            chars@ == grapheme@,
            han == cjk_code(CjkScript::Han),
            hiragana == cjk_code(CjkScript::Hiragana),
            katakana == cjk_code(CjkScript::Katakana),
            forall|k: int, j: int|
                0 <= k < i && 0 <= j < script_codes(chars@[k]).len() ==> !#[trigger] is_cjk_code(script_codes(chars@[k])[j]),
        decreases chars.len() - i,
    {
        let codes = script_extension_codes(chars[i]);
        let mut j: usize = 0;
        while j < codes.len()
            invariant
                j <= codes@.len(),
                i < chars@.len(),
                chars@ == grapheme@,
                codes@ == script_codes(chars@[i as int]),
                han == cjk_code(CjkScript::Han),
                hiragana == cjk_code(CjkScript::Hiragana),
                katakana == cjk_code(CjkScript::Katakana),
                forall|m: int| 0 <= m < j ==> !#[trigger] is_cjk_code(codes@[m]),
            decreases codes.len() - j,
        {
            let x = codes[j];
            if x == han || x == hiragana || x == katakana {
                proof {
                    assert(is_cjk_code(script_codes(grapheme@[i as int])[j as int]));
                }
                return true;
            }
            j = j + 1;
        }
        i = i + 1;
    }
    false
}

/// Word-deletion class of a grapheme: 0 word, 1 symbol, 2 whitespace.
pub fn word_class(grapheme: &str) -> (r: u8)
    ensures
        r == word_class_of(grapheme@),
{
    let chars = chars_of(grapheme);
    let mut i: usize = 0;
    while i < chars.len()
        invariant
            i <= chars@.len(),
            chars@ == grapheme@,
            forall|k: int| 0 <= k < i ==> is_white_space(#[trigger] chars@[k]),
        decreases chars.len() - i,
    {
        if !is_whitespace(chars[i]) {
            let c = chars[0];
            if is_alphanumeric(c) || ('a' <= c && c <= 'z') || ('A' <= c && c <= 'Z') || ('0' <= c && c <= '9') || c
                == '_' {
                return 0;
            } else {
                return 1;
            }
        }
        i = i + 1;
    }
    2
}

/// Start (character index) of the deletion unit ending at `end`: a CJK
/// grapheme alone, else the run of graphemes of the last one's class.
pub fn word_unit_start(text: &str, end: usize) -> (r: usize)
    requires
        0 < end <= text@.len(),
    ensures
        r == word_unit_start_of(text@, end as int),
        r < end,
{
    let chars = chars_of(text);
    let prefix = string_of_range(chars.as_slice(), 0, end);
    let gs = graphemes(prefix.as_str());
    let ghost g = grapheme_clusters(prefix@);
    proof {
        assert(prefix@ =~= text@.take(end as int));
        if gs@.len() == 0 {
            assert(crate::text::strs_view(gs@) =~= Seq::<Seq<char>>::empty());
        }
    }
    let n = gs.len();
    let mut starts: Vec<usize> = Vec::new();
    let mut total: usize = 0;
    let mut k: usize = 0;
    while k < n
        invariant
            k <= n,
            n == gs@.len(),
            g == crate::text::strs_view(gs@),
            flatten_chars(g) == prefix@,
            prefix@.len() == end,
            starts@.len() == k,
            total == flatten_chars(g.take(k as int)).len(),
            forall|m: int| 0 <= m < k ==> #[trigger] starts@[m] == flatten_chars(g.take(m)).len(),
        decreases n - k,
    {
        proof {
            lemma_flatten_prefix_len(g, k as int + 1);
            assert(g.take(k + 1).drop_last() =~= g.take(k as int));
        }
        starts.push(total);
        let len = chars_of(gs[k].as_str()).len();
        total = total + len;
        k = k + 1;
    }
    let last = n - 1;
    proof {
        assert(g[last as int] == gs@[last as int]@);
        assert(g[last as int].len() > 0);
    }
    if is_cjk_ish(gs[last].as_str()) {
        proof {
            lemma_flatten_prefix_len(g, last as int + 1);
            assert(g.take(last + 1).drop_last() =~= g.take(last as int));
        }
        return starts[last];
    }
    let class = word_class(gs[last].as_str());
    let mut i = last;
    while i > 0 && !is_cjk_ish(gs[i - 1].as_str()) && word_class(gs[i - 1].as_str()) == class
        invariant
            i <= last < n,
            n == gs@.len(),
            g == crate::text::strs_view(gs@),
            class == word_class_of(g[last as int]),
            run_back(g, class, last as int) == run_back(g, class, i as int),
        decreases i,
    {
        proof {
            assert(g[i - 1] == gs@[i - 1]@);
        }
        i = i - 1;
    }
    proof {
        if i > 0 {
            assert(g[i - 1] == gs@[i - 1]@);
        }
        lemma_flatten_prefix_len(g, last as int + 1);
        assert(g.take(last + 1).drop_last() =~= g.take(last as int));
        lemma_flatten_take_mono(g, i as int, last as int);
    }
    starts[i]
}

proof fn lemma_flatten_prefix_len(g: Seq<Seq<char>>, k: int)
    requires
        0 < k <= g.len(),
    ensures
        flatten_chars(g.take(k)).len() == flatten_chars(g.take(k - 1)).len() + g[k - 1].len(),
        flatten_chars(g.take(k)).len() <= flatten_chars(g).len(),
    decreases g.len() - k,
{
    assert(g.take(k).drop_last() =~= g.take(k - 1));
    assert(g.take(k).last() == g[k - 1]);
    if k < g.len() {
        lemma_flatten_prefix_len(g, k + 1);
    } else {
        assert(g.take(k) =~= g);
    }
}

proof fn lemma_flatten_take_mono(g: Seq<Seq<char>>, i: int, j: int)
    requires
        0 <= i <= j <= g.len(),
    ensures
        flatten_chars(g.take(i)).len() <= flatten_chars(g.take(j)).len(),
    decreases j - i,
{
    if i < j {
        lemma_flatten_take_mono(g, i, j - 1);
        assert(g.take(j).drop_last() =~= g.take(j - 1));
    }
}

proof fn lemma_back_ws_le(chars: Seq<char>, idx: int, barrier: int)
    ensures
        back_ws(chars, idx, barrier) <= idx,
        idx >= 0 ==> back_ws(chars, idx, barrier) >= 0,
    decreases idx,
{
    if idx > barrier && idx > 0 && is_white_space(chars[idx - 1]) {
        lemma_back_ws_le(chars, idx - 1, barrier);
    }
}

impl InputState {
    /// Ctrl+Backspace, Ctrl+W, Alt+Backspace: delete the word before the
    /// cursor together with the whitespace around it. A block is one unit;
    /// CJK graphemes delete one at a time; the scan never enters a block.
    pub fn delete_word_back(&mut self)
        requires
            old(self).wf(),
        ensures
            final(self).wf(),
            word_deleted(*old(self), *final(self)),
    {
        let end = self.cursor;
        if end == 0 {
            return;
        }
        let ghost s = *self;
        let chars = chars_of(self.buf.as_str());
        let unit_start = match self.block_ending_at(end) {
            Some((start, _)) => {
                proof {
                    lemma_block_at_end_unique(s, start as int, choose|a: int| is_block(s, a, end as int), end as int);
                    lemma_block_nonempty(s, start as int, end as int);
                }
                start
            },
            None => {
                let barrier = self.preceding_block_end(end);
                proof {
                    lemma_prev_end_unique(s, end as int, barrier as int);
                    if barrier != 0 {
                        let a = choose|a: int| is_block(s, a, barrier as int);
                        assert(barrier != end);
                    }
                }
                let start = back_over_whitespace(chars.as_slice(), end, barrier);
                proof {
                    lemma_back_ws_le(chars@, end as int, barrier as int);
                }
                match self.block_ending_at(start) {
                    Some((bs, _)) => {
                        proof {
                            lemma_block_at_end_unique(s, bs as int, choose|a: int| is_block(s, a, start as int), start as int);
                            lemma_block_nonempty(s, bs as int, start as int);
                        }
                        bs
                    },
                    None => {
                        if start == 0 {
                            0
                        } else {
                            let w = word_unit_start(self.buf.as_str(), start);
                            if w >= barrier {
                                w
                            } else {
                                barrier
                            }
                        }
                    },
                }
            },
        };
        let leading = self.preceding_block_end(unit_start);
        proof {
            lemma_prev_end_unique(s, unit_start as int, leading as int);
        }
        let final_start = back_over_whitespace(chars.as_slice(), unit_start, leading);
        proof {
            lemma_back_ws_le(chars@, unit_start as int, leading as int);
            assert(final_start == word_delete_start(s));
        }
        self.remove_range(final_start, end);
    }
}


/// Letters, digits and `_` form one word unit: a grapheme starting with an
/// ASCII letter or digit, with `_`, or with any alphanumeric character that
/// is not whitespace has the word class, the same for letters and digits;
/// graphemes of whitespace alone have the whitespace class.
pub proof fn letters_and_digits_are_one_word_class(g: Seq<char>, h: Seq<char>)
    ensures
        g.len() > 0 && ascii_word_char(g[0]) ==> word_class_of(g) == 0,
        g.len() > 0 && alphanumeric(g[0]) && !is_white_space(g[0]) ==> word_class_of(g) == 0,
        g.len() > 0 && h.len() > 0 && ascii_word_char(g[0]) && ascii_word_char(h[0]) ==> word_class_of(g)
            == word_class_of(h),
        g.len() > 0 && (forall|i: int| 0 <= i < g.len() ==> is_white_space(#[trigger] g[i])) ==> word_class_of(g) == 2,
{
    if g.len() > 0 && ascii_word_char(g[0]) {
        assert(!is_white_space(g[0]));
    }
    if h.len() > 0 && ascii_word_char(h[0]) {
        assert(!is_white_space(h[0]));
    }
}


proof fn lemma_run_back(gs: Seq<Seq<char>>, class: u8, k: int)
    requires
        0 <= k <= gs.len(),
    ensures
        0 <= run_back(gs, class, k) <= k,
        forall|j: int| run_back(gs, class, k) <= j < k ==> !cjk_grapheme(#[trigger] gs[j]) && word_class_of(gs[j]) == class,
        run_back(gs, class, k) == 0 || cjk_grapheme(gs[run_back(gs, class, k) - 1]) || word_class_of(
            gs[run_back(gs, class, k) - 1],
        ) != class,
    decreases k,
{
    if k > 0 && !(cjk_grapheme(gs[k - 1]) || word_class_of(gs[k - 1]) != class) {
        lemma_run_back(gs, class, k - 1);
    }
}

/// Word deletion takes one unit ending with the last grapheme: a CJK
/// grapheme alone, or else the longest run before it of non-CJK graphemes
/// of the last one's class (word, symbol or whitespace), so a run of
/// letters and digits goes as a whole.
pub proof fn deletion_unit_is_a_maximal_run(gs: Seq<Seq<char>>)
    requires
        gs.len() > 0,
    ensures
        0 <= unit_index(gs) < gs.len(),
        cjk_grapheme(gs.last()) ==> unit_index(gs) == gs.len() - 1,
        !cjk_grapheme(gs.last()) ==> forall|j: int|
            unit_index(gs) <= j < gs.len() ==> !cjk_grapheme(#[trigger] gs[j]) && word_class_of(gs[j]) == word_class_of(
                gs.last(),
            ),
        !cjk_grapheme(gs.last()) && unit_index(gs) > 0 ==> cjk_grapheme(gs[unit_index(gs) - 1]) || word_class_of(
            gs[unit_index(gs) - 1],
        ) != word_class_of(gs.last()),
{
    let last = gs.len() - 1;
    if !cjk_grapheme(gs[last]) {
        lemma_run_back(gs, word_class_of(gs[last]), last);
    }
}

} // verus!
