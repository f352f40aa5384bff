//! Link discovery over a message: the Markdown parser's events supply link
//! destinations, code spans and text; quoted spans and `/command <arg>`
//! syntax are found in the raw source.
use vstd::prelude::*;

use pulldown_cmark::{CowStr, Event, Parser, Tag, TagEnd};

use super::{
    bound_groups, candidate_group, gview, gviews, group_reading, lemma_utf8_len_split, scan_from, scan_text,
    shifted, found_views, bounded_from, trim_token, trimmed_token, utf8_len, utf8_width, LinkCandidateGroup,
    PathConfidence,
};
use crate::agent::tool::parts_view;
use crate::text::{chars_of, has_char, is_white_space, is_whitespace, matches_at, occurs_at, string_of, string_of_range};

verus! {

/// A candidate as plain values (see `cand_view`).
pub type CandView = (Seq<char>, int, Seq<char>, PathConfidence, bool);

/// A group as plain values: its alternatives and whether they must exist.
pub type GroupView = (Seq<CandView>, bool);

/// What a Markdown event means for link discovery.
#[derive(Debug, Clone, Copy, PartialEq, Eq, Structural)]
pub enum MdKind {
    /// A link or image starts; the text is its destination.
    LinkStart,
    /// A link or image ends.
    LinkEnd,
    /// An inline code span; the text is its content.
    Code,
    /// Text, block HTML or inline HTML.
    Text,
    /// Anything else.
    Other,
}

/// One Markdown event with the byte range of the source it came from.
#[derive(Debug, Clone, PartialEq, Eq)]
pub struct MdEvent {
    pub kind: MdKind,
    pub text: String,
    pub start: usize,
    pub end: usize,
}

pub open spec fn md_event_view(e: MdEvent) -> (MdKind, Seq<char>, int, int) {
    (e.kind, e.text@, e.start as int, e.end as int)
}

pub open spec fn md_event_views(es: Seq<MdEvent>) -> Seq<(MdKind, Seq<char>, int, int)> {
    es.map_values(|e: MdEvent| md_event_view(e))
}

/// The events `pulldown-cmark` parses from a source, in order.
pub uninterp spec fn markdown_events(source: Seq<char>) -> Seq<(MdKind, Seq<char>, int, int)>;

/// Runs `pulldown_cmark::Parser::new(source).into_offset_iter()` and keeps,
/// for each event, its kind, its text (a link's destination, a code span's
/// or a text's content; empty otherwise) and its byte range. The events are
/// named `markdown_events` of the source; CommonMark parsing is not stated.
#[verifier::external_body]
pub fn markdown_offset_events(source: &str) -> (r: Vec<MdEvent>)
    ensures
        md_event_views(r@) == markdown_events(source@),
{
    let mut out = Vec::new();
    for (event, range) in Parser::new(source).into_offset_iter() {
        let (kind, text) = match event {
            Event::Start(Tag::Link { dest_url, .. } | Tag::Image { dest_url, .. }) => (MdKind::LinkStart, dest_url),
            Event::End(TagEnd::Link | TagEnd::Image) => (MdKind::LinkEnd, CowStr::Borrowed("")),
            Event::Code(text) => (MdKind::Code, text),
            Event::Text(text) | Event::Html(text) | Event::InlineHtml(text) => (MdKind::Text, text),
            _ => (MdKind::Other, CowStr::Borrowed("")),
        };
        out.push(MdEvent { kind, text: text.to_string(), start: range.start, end: range.end });
    }
    out
}

// ---------------------------------------------------------------- words

/// Whitespace-separated words of `t`, and the word still open.
pub open spec fn words_acc(t: Seq<char>) -> (Seq<Seq<char>>, Seq<char>)
    decreases t.len(),
{
    if t.len() == 0 {
        (Seq::empty(), Seq::empty())
    } else {
        let (done, cur) = words_acc(t.drop_last());
        if is_white_space(t.last()) {
            if cur.len() > 0 {
                (done.push(cur), Seq::empty())
            } else {
                (done, Seq::empty())
            }
        } else {
            (done, cur.push(t.last()))
        }
    }
}

/// The non-empty whitespace-separated words of `t`.
pub open spec fn words(t: Seq<char>) -> Seq<Seq<char>> {
    if words_acc(t).1.len() > 0 {
        words_acc(t).0.push(words_acc(t).1)
    } else {
        words_acc(t).0
    }
}

/// A slash command followed by a `<placeholder>` word.
pub open spec fn placeholder_pair(a: Seq<char>, b: Seq<char>) -> bool {
    a.len() > 0 && a[0] == '/' && b.len() > 0 && b[0] == '<' && b.last() == '>'
}

/// The trimmed slash commands that a `<placeholder>` word follows.
pub open spec fn word_commands(ws: Seq<Seq<char>>) -> Seq<Seq<char>>
    decreases ws.len(),
{
    if ws.len() < 2 {
        Seq::empty()
    } else if placeholder_pair(ws[ws.len() - 2], ws.last()) {
        word_commands(ws.drop_last()).push(trimmed_token(ws[ws.len() - 2]))
    } else {
        word_commands(ws.drop_last())
    }
}

// ---------------------------------------------------------------- quotes

/// Indices of the `"` characters of `t`.
pub open spec fn quote_indices(t: Seq<char>) -> Seq<int>
    decreases t.len(),
{
    if t.len() == 0 {
        Seq::empty()
    } else if t.last() == '"' {
        quote_indices(t.drop_last()).push(t.len() - 1)
    } else {
        quote_indices(t.drop_last())
    }
}

/// The quoted spans of `t`, pairing quotes in order: the byte range from
/// the opening quote to after the closing one, and the text between.
pub open spec fn quoted_spans(t: Seq<char>) -> Seq<(int, int, Seq<char>)> {
    let qs = quote_indices(t);
    Seq::new(
        (qs.len() / 2) as nat,
        |k: int|
            (
                utf8_len(t.take(qs[2 * k])) as int,
                utf8_len(t.take(qs[2 * k + 1])) + 1int,
                t.subrange(qs[2 * k] + 1, qs[2 * k + 1]),
            ),
    )
}

/// The first word of each quoted slash command with a `<placeholder>`.
pub open spec fn quoted_commands(qs: Seq<(int, int, Seq<char>)>) -> Seq<Seq<char>>
    decreases qs.len(),
{
    if qs.len() == 0 {
        Seq::empty()
    } else {
        let q = qs.last().2;
        if q.len() > 0 && q[0] == '/' && has_char(q, '<') && has_char(q, '>') {
            quoted_commands(qs.drop_last()).push(
                if words(q).len() > 0 {
                    words(q)[0]
                } else {
                    Seq::empty()
                },
            )
        } else {
            quoted_commands(qs.drop_last())
        }
    }
}

/// Texts that are commands, never links.
pub open spec fn command_tokens(t: Seq<char>) -> Seq<Seq<char>> {
    word_commands(words(t)) + quoted_commands(quoted_spans(t))
}

// ---------------------------------------------------------------- positions

/// The character index at byte offset `b` of `t`, searching from `i`.
pub open spec fn char_at_byte(t: Seq<char>, b: int, i: int) -> Option<int>
    decreases t.len() - i,
{
    if i < 0 || i > t.len() || utf8_len(t.take(i)) > b {
        None
    } else if utf8_len(t.take(i)) == b {
        Some(i)
    } else if i == t.len() {
        None
    } else {
        char_at_byte(t, b, i + 1)
    }
}

/// The first index from `j` at which `d` occurs in `t` and ends by `hi`.
pub open spec fn first_match(t: Seq<char>, d: Seq<char>, j: int, hi: int) -> Option<int>
    decreases hi + 1 - j,
{
    if j < 0 || j + d.len() > hi || hi > t.len() {
        None
    } else if t.subrange(j, j + d.len()) == d {
        Some(j)
    } else {
        first_match(t, d, j + 1, hi)
    }
}

/// Where in the source `d` stands within the byte range `start..end`: the
/// byte offset of its first occurrence there, else `start`.
pub open spec fn found_at(t: Seq<char>, d: Seq<char>, start: int, end: int) -> int {
    match (char_at_byte(t, start, 0), char_at_byte(t, end, 0)) {
        (Some(a), Some(b)) => match first_match(t, d, a, b) {
            Some(j) => utf8_len(t.take(j)) as int,
            None => start,
        },
        _ => start,
    }
}

// ---------------------------------------------------------------- groups

/// The targets of a group and whether they must exist: groups with the
/// same signature are one.
pub open spec fn signature(g: GroupView) -> (Seq<Seq<char>>, bool) {
    (g.0.map_values(|c: CandView| c.0), g.1)
}

/// Adds a group found at `pos`, unless one of its targets is a command or
/// a group with the same signature came before.
pub open spec fn add_group_to(acc: Seq<(int, GroupView)>, cmds: Seq<Seq<char>>, g: GroupView, pos: int) -> Seq<(int, GroupView)> {
    if (exists|k: int| 0 <= k < g.0.len() && cmds.contains(#[trigger] g.0[k].0)) || (exists|k: int|
        0 <= k < acc.len() && signature(#[trigger] acc[k].1) == signature(g)) {
        acc
    } else {
        acc.push((pos, g))
    }
}

/// Whether `n` occurs in `h`.
pub open spec fn contains_seq(h: Seq<char>, n: Seq<char>) -> bool {
    exists|i: int| occurs_at(h, n, i)
}

/// Whether text at `pos` lies inside a longer quoted span holding it.
pub open spec fn inside_quote(qs: Seq<(int, int, Seq<char>)>, text: Seq<char>, pos: int) -> bool {
    exists|k: int|
        0 <= k < qs.len() && qs[k].0 <= pos < qs[k].1 && #[trigger] qs[k].2 != text && contains_seq(qs[k].2, text)
}

/// Adds the group of a text found at `pos`, unless it lies inside a
/// quoted span that holds more.
pub open spec fn add_text_to(
    acc: Seq<(int, GroupView)>,
    cmds: Seq<Seq<char>>,
    qs: Seq<(int, int, Seq<char>)>,
    text: Seq<char>,
    delimited: bool,
    pos: int,
) -> Seq<(int, GroupView)> {
    if inside_quote(qs, text, pos) {
        acc
    } else {
        match group_reading(text, delimited) {
            Some(g) => add_group_to(acc, cmds, g, pos),
            None => acc,
        }
    }
}

/// Adds the groups of scanned tokens, in order.
pub open spec fn add_tokens_to(
    acc: Seq<(int, GroupView)>,
    cmds: Seq<Seq<char>>,
    qs: Seq<(int, int, Seq<char>)>,
    toks: Seq<(Seq<char>, bool, int)>,
) -> Seq<(int, GroupView)>
    decreases toks.len(),
{
    if toks.len() == 0 {
        acc
    } else {
        let x = toks.last();
        add_text_to(add_tokens_to(acc, cmds, qs, toks.drop_last()), cmds, qs, x.0, x.1, x.2)
    }
}

/// Adds the groups of the quoted spans, each at its first character.
pub open spec fn add_quoted_to(acc: Seq<(int, GroupView)>, cmds: Seq<Seq<char>>, qs: Seq<(int, int, Seq<char>)>) -> Seq<(int, GroupView)>
    decreases qs.len(),
{
    if qs.len() == 0 {
        acc
    } else {
        let prev = add_quoted_to(acc, cmds, qs.drop_last());
        match group_reading(qs.last().2, true) {
            Some(g) => add_group_to(prev, cmds, g, qs.last().0 + 1),
            None => prev,
        }
    }
}

/// The tokens of text found at byte `base`, when their offsets fit.
pub open spec fn tokens_at(text: Seq<char>, base: int) -> Seq<(Seq<char>, bool, int)> {
    if 0 <= base && base + utf8_len(text) <= usize::MAX {
        shifted(scan_from(text, 0), base)
    } else {
        Seq::empty()
    }
}

/// One event: a link's destination waits for the link's end; a code span
/// that reads as a link whole is one, else it is scanned like text.
pub open spec fn event_step(
    t: Seq<char>,
    cmds: Seq<Seq<char>>,
    qs: Seq<(int, int, Seq<char>)>,
    st: (Seq<(int, GroupView)>, Seq<(Seq<char>, int)>),
    e: (MdKind, Seq<char>, int, int),
) -> (Seq<(int, GroupView)>, Seq<(Seq<char>, int)>) {
    match e.0 {
        MdKind::LinkStart => (st.0, st.1.push((e.1, found_at(t, e.1, e.2, e.3)))),
        MdKind::LinkEnd => if st.1.len() > 0 {
            (add_text_to(st.0, cmds, qs, st.1.last().0, true, st.1.last().1), st.1.drop_last())
        } else {
            st
        },
        MdKind::Code => {
            let p = found_at(t, e.1, e.2, e.3);
            if group_reading(e.1, true) is Some {
                (add_text_to(st.0, cmds, qs, e.1, true, p), st.1)
            } else {
                (add_tokens_to(st.0, cmds, qs, tokens_at(e.1, p)), st.1)
            }
        },
        MdKind::Text => (add_tokens_to(st.0, cmds, qs, tokens_at(e.1, e.2)), st.1),
        MdKind::Other => st,
    }
}

pub open spec fn events_fold(
    t: Seq<char>,
    cmds: Seq<Seq<char>>,
    qs: Seq<(int, int, Seq<char>)>,
    st: (Seq<(int, GroupView)>, Seq<(Seq<char>, int)>),
    es: Seq<(MdKind, Seq<char>, int, int)>,
) -> (Seq<(int, GroupView)>, Seq<(Seq<char>, int)>)
    decreases es.len(),
{
    if es.len() == 0 {
        st
    } else {
        event_step(t, cmds, qs, events_fold(t, cmds, qs, st, es.drop_last()), es.last())
    }
}

/// Where a stable sort by position puts an entry at `pos`.
pub open spec fn pos_slot(s: Seq<(int, GroupView)>, pos: int) -> int
    decreases s.len(),
{
    if s.len() == 0 {
        0
    } else if s.last().0 <= pos {
        s.len() as int
    } else {
        pos_slot(s.drop_last(), pos)
    }
}

/// Groups ordered by position, then by arrival.
pub open spec fn by_position(s: Seq<(int, GroupView)>) -> Seq<(int, GroupView)>
    decreases s.len(),
{
    if s.len() == 0 {
        s
    } else {
        let done = by_position(s.drop_last());
        done.insert(pos_slot(done, s.last().0), s.last())
    }
}

/// The groups discovered in a source with the given Markdown events:
/// quoted spans first, then the events' links, code spans and text, each
/// group kept once and never for a command; ordered by position and
/// arrival, then held to the probe budget. A source whose UTF-8 length
/// does not fit in `usize`, which no `str` has, gives none.
pub open spec fn discovered(t: Seq<char>, es: Seq<(MdKind, Seq<char>, int, int)>) -> Seq<GroupView> {
    if utf8_len(t) > usize::MAX {
        Seq::empty()
    } else {
        let cmds = command_tokens(t);
        let qs = quoted_spans(t);
        let st = events_fold(t, cmds, qs, (add_quoted_to(Seq::empty(), cmds, qs), Seq::empty()), es);
        bounded_from(by_position(st.0).map_values(|x: (int, GroupView)| x.1), 0, 0, 0)
    }
}


pub(crate) fn split_words(v: &Vec<char>) -> (r: Vec<Vec<char>>)
    ensures
        parts_view(r@) == words(v@),
{
    let mut done: Vec<Vec<char>> = Vec::new();
    let mut cur: Vec<char> = Vec::new();
    let mut i: usize = 0;
    while i < v.len()
        invariant
            i <= v@.len(),
            parts_view(done@) == words_acc(v@.take(i as int)).0,
            cur@ == words_acc(v@.take(i as int)).1,
        decreases v.len() - i,
    {
        proof {
            assert(v@.take(i + 1).drop_last() =~= v@.take(i as int));
        }
        if is_whitespace(v[i]) {
            if cur.len() > 0 {
                let finished = cur;
                cur = Vec::new();
                done.push(finished);
                proof {
                    assert(parts_view(done@) =~= words_acc(v@.take(i + 1)).0);
                }
            }
        } else {
            cur.push(v[i]);
        }
        i = i + 1;
    }
    proof {
        assert(v@.take(i as int) =~= v@);
    }
    if cur.len() > 0 {
        done.push(cur);
        proof {
            assert(parts_view(done@) =~= words(v@));
        }
    }
    done
}

fn trimmed_chars(w: &Vec<char>) -> (r: Vec<char>)
    ensures
        r@ == trimmed_token(w@),
{
    let s = string_of(w.as_slice());
    let t = trim_token(s.as_str());
    chars_of(t.as_str())
}

fn commands_of_words(ws: &Vec<Vec<char>>) -> (r: Vec<Vec<char>>)
    ensures
        parts_view(r@) == word_commands(parts_view(ws@)),
{
    let mut out: Vec<Vec<char>> = Vec::new();
    let ghost wv = parts_view(ws@);
    if ws.len() < 2 {
        proof {
            assert(parts_view(out@) =~= Seq::<Seq<char>>::empty());
        }
        return out;
    }
    let mut i: usize = 2;
    proof {
        assert(wv.take(2).drop_last().len() < 2);
        assert(word_commands(wv.take(1)) == Seq::<Seq<char>>::empty());
        assert(wv.take(2).drop_last() =~= wv.take(1));
    }
    let a0 = &ws[0];
    let b0 = &ws[1];
    if a0.len() > 0 && a0[0] == '/' && b0.len() > 0 && b0[0] == '<' && b0[b0.len() - 1] == '>' {
        out.push(trimmed_chars(a0));
    }
    proof {
        assert(wv.take(2)[0] == ws@[0]@);
        assert(wv.take(2).last() == ws@[1]@);
        assert(parts_view(out@) =~= word_commands(wv.take(2)));
    }
    while i < ws.len()
        invariant
            2 <= i <= ws@.len(),
            wv == parts_view(ws@),
            parts_view(out@) == word_commands(wv.take(i as int)),
        decreases ws.len() - i,
    {
        let a = &ws[i - 1];
        let b = &ws[i];
        proof {
            assert(wv.take(i + 1).drop_last() =~= wv.take(i as int));
            assert(wv.take(i + 1)[i - 1] == a@);
            assert(wv.take(i + 1).last() == b@);
        }
        if a.len() > 0 && a[0] == '/' && b.len() > 0 && b[0] == '<' && b[b.len() - 1] == '>' {
            let ghost before = out@;
            out.push(trimmed_chars(a));
            proof {
                assert(parts_view(out@) =~= parts_view(before).push(trimmed_token(a@)));
            }
        }
        i = i + 1;
    }
    proof {
        assert(wv.take(i as int) =~= wv);
    }
    out
}

proof fn lemma_utf8_len_bound(t: Seq<char>)
    ensures
        utf8_len(t) <= 4 * t.len(),
    decreases t.len(),
{
    if t.len() > 0 {
        lemma_utf8_len_bound(t.drop_last());
    }
}

/// UTF-8 length of `v[..i]`.
fn utf8_prefix(v: &Vec<char>, i: usize) -> (r: u128)
    requires
        i <= v@.len(),
    ensures
        r == utf8_len(v@.take(i as int)),
{
    let mut k: usize = 0;
    let mut r: u128 = 0;
    while k < i
        invariant
            k <= i <= v@.len(),
            r == utf8_len(v@.take(k as int)),
        decreases i - k,
    {
        proof {
            assert(v@.take(k + 1).drop_last() =~= v@.take(k as int));
            lemma_utf8_len_bound(v@.take(k as int));
        }
        r = r + char_width(v[k]) as u128;
        k = k + 1;
    }
    r
}

fn char_width(c: char) -> (r: u8)
    ensures
        r == utf8_width(c),
{
    let n = c as u32;
    if n < 0x80 {
        1
    } else if n < 0x800 {
        2
    } else if n < 0x10000 {
        3
    } else {
        4
    }
}

fn quote_indices_of(v: &Vec<char>) -> (r: Vec<usize>)
    ensures
        r@.map_values(|x: usize| x as int) == quote_indices(v@),
        forall|k: int| 0 <= k < r@.len() ==> r@[k] < v@.len(),
{
    let mut r: Vec<usize> = Vec::new();
    let mut i: usize = 0;
    while i < v.len()
        invariant
            i <= v@.len(),
            r@.map_values(|x: usize| x as int) == quote_indices(v@.take(i as int)),
            forall|k: int| 0 <= k < r@.len() ==> r@[k] < i,
        decreases v.len() - i,
    {
        proof {
            assert(v@.take(i + 1).drop_last() =~= v@.take(i as int));
        }
        if v[i] == '"' {
            let ghost before = r@;
            r.push(i);
            proof {
                assert(r@.map_values(|x: usize| x as int) =~= before.map_values(|x: usize| x as int).push(i as int));
            }
        }
        i = i + 1;
    }
    proof {
        assert(v@.take(i as int) =~= v@);
    }
    r
}

pub open spec fn quoted_views(qs: Seq<(usize, usize, Vec<char>)>) -> Seq<(int, int, Seq<char>)> {
    qs.map_values(|q: (usize, usize, Vec<char>)| (q.0 as int, q.1 as int, q.2@))
}

proof fn lemma_quote_indices_facts(t: Seq<char>)
    ensures
        forall|k: int| 0 <= k < quote_indices(t).len() ==> 0 <= #[trigger] quote_indices(t)[k] < t.len() && t[quote_indices(t)[k]] == '"',
        forall|a: int, b: int| 0 <= a < b < quote_indices(t).len() ==> quote_indices(t)[a] < quote_indices(t)[b],
    decreases t.len(),
{
    if t.len() > 0 {
        let p = t.drop_last();
        lemma_quote_indices_facts(p);
        let qp = quote_indices(p);
        assert forall|k: int| 0 <= k < qp.len() implies 0 <= #[trigger] qp[k] < t.len() - 1 && t[qp[k]] == '"' by {
            assert(p[qp[k]] == t[qp[k]]);
        }
    }
}

fn quoted_spans_of(v: &Vec<char>) -> (r: Vec<(usize, usize, Vec<char>)>)
    requires
        utf8_len(v@) <= usize::MAX,
    ensures
        quoted_views(r@) == quoted_spans(v@),
        forall|k: int| 0 <= k < r@.len() ==> (#[trigger] r@[k]).0 < r@[k].1,
{
    let qi = quote_indices_of(v);
    let ghost qs = quote_indices(v@);
    proof {
        lemma_quote_indices_facts(v@);
        assert forall|k: int| 0 <= k < qi@.len() implies qi@[k] as int == qs[k] by {
            assert(qi@.map_values(|x: usize| x as int)[k] == qi@[k] as int);
        }
    }
    let mut out: Vec<(usize, usize, Vec<char>)> = Vec::new();
    let mut k: usize = 0;
    let pairs = qi.len() / 2;
    while k < pairs
        invariant
            pairs == qi@.len() / 2,
            qs == quote_indices(v@),
            qi@.len() == qs.len(),
            k <= pairs,
            utf8_len(v@) <= usize::MAX,
            forall|m: int| 0 <= m < qi@.len() ==> qi@[m] as int == qs[m],
            forall|m: int| 0 <= m < qs.len() ==> 0 <= #[trigger] qs[m] < v@.len() && v@[qs[m]] == '"',
            forall|a: int, b: int| 0 <= a < b < qs.len() ==> qs[a] < qs[b],
            quoted_views(out@) == quoted_spans(v@).take(k as int),
            forall|m: int| 0 <= m < out@.len() ==> (#[trigger] out@[m]).0 < out@[m].1,
        decreases pairs - k,
    {
        proof {
            assert(2 * k + 1 < qi@.len()) by (nonlinear_arith)
                requires
                    k < pairs,
                    pairs == qi@.len() / 2,
            ;
            assert(k + k + 1 < qi@.len());
            assert(qi@[2 * k] as int == qs[2 * k]);
            assert(qi@[2 * k + 1] as int == qs[2 * k + 1]);
            assert(0 <= qs[2 * k] < v@.len());
            assert(0 <= qs[2 * k + 1] < v@.len());
        }
        let n = qi.len();
        assert(k + k + 1 < n);
        let i0: usize = k + k;
        let p0 = qi[i0];
        let p1 = qi[i0 + 1];
        let b0 = utf8_prefix(v, p0);
        let b1 = utf8_prefix(v, p1);
        proof {
            assert(qs[2 * k] < qs[2 * k + 1]);
            lemma_utf8_len_split(v@, p0 as int, p1 as int);
            lemma_utf8_len_split(v@, p1 as int, p1 + 1);
            lemma_utf8_len_split(v@, p1 + 1, v@.len() as int);
            assert(v@.subrange(p1 as int, p1 + 1) =~= seq!['"']);
            assert(utf8_len(seq!['"']) == 1) by {
                let e = Seq::<char>::empty();
                assert(seq!['"'].drop_last() =~= e);
                assert(utf8_len(e) == 0);
            }
        }
        let inner = string_of_range(v.as_slice(), p0 + 1, p1);
        let ic = chars_of(inner.as_str());
        let ghost before = out@;
        out.push((b0 as usize, (b1 + 1) as usize, ic));
        proof {
            assert(quoted_views(out@) =~= quoted_views(before).push((b0 as int, b1 + 1, v@.subrange(p0 + 1, p1 as int))));
            assert(quoted_spans(v@).len() == pairs);
            assert(quoted_spans(v@)[k as int] == (b0 as int, b1 + 1, v@.subrange(p0 + 1, p1 as int)));
            assert(quoted_spans(v@).take(k + 1) =~= quoted_spans(v@).take(k as int).push(quoted_spans(v@)[k as int]));
        }
        k = k + 1;
    }
    proof {
        assert(quoted_spans(v@).take(k as int) =~= quoted_spans(v@));
    }
    out
}

fn first_word(q: &Vec<char>) -> (r: Vec<char>)
    ensures
        r@ == (if words(q@).len() > 0 { words(q@)[0] } else { Seq::empty() }),
{
    let ws = split_words(q);
    if ws.len() > 0 {
        let mut w: Vec<char> = Vec::new();
        let mut i: usize = 0;
        while i < ws[0].len()
            invariant
                ws@.len() > 0,
                i <= ws@[0]@.len(),
                w@ == ws@[0]@.take(i as int),
            decreases ws@[0]@.len() - i,
        {
            proof {
                assert(ws@[0]@.take(i + 1) =~= ws@[0]@.take(i as int).push(ws@[0]@[i as int]));
            }
            w.push(ws[0][i]);
            i = i + 1;
        }
        proof {
            assert(ws@[0]@.take(i as int) =~= ws@[0]@);
            assert(parts_view(ws@)[0] == ws@[0]@);
        }
        w
    } else {
        Vec::new()
    }
}

fn quoted_commands_of(qs: &Vec<(usize, usize, Vec<char>)>) -> (r: Vec<Vec<char>>)
    ensures
        parts_view(r@) == quoted_commands(quoted_views(qs@)),
{
    let ghost qv = quoted_views(qs@);
    let mut out: Vec<Vec<char>> = Vec::new();
    let mut i: usize = 0;
    while i < qs.len()
        invariant
            i <= qs@.len(),
            qv == quoted_views(qs@),
            parts_view(out@) == quoted_commands(qv.take(i as int)),
        decreases qs.len() - i,
    {
        let q = &qs[i].2;
        proof {
            assert(qv.take(i + 1).drop_last() =~= qv.take(i as int));
            assert(qv.take(i + 1).last().2 == q@);
        }
        if q.len() > 0 && q[0] == '/' && crate::text::contains_char(q.as_slice(), '<') && crate::text::contains_char(
            q.as_slice(),
            '>',
        ) {
            let ghost before = out@;
            out.push(first_word(q));
            proof {
                assert(parts_view(out@) =~= parts_view(before).push(
                    if words(q@).len() > 0 {
                        words(q@)[0]
                    } else {
                        Seq::empty()
                    },
                ));
            }
        }
        i = i + 1;
    }
    proof {
        assert(qv.take(i as int) =~= qv);
    }
    out
}


fn char_at_byte_of(v: &Vec<char>, b: usize) -> (r: Option<usize>)
    ensures
        match r {
            Some(i) => char_at_byte(v@, b as int, 0) == Some(i as int) && i <= v@.len(),
            None => char_at_byte(v@, b as int, 0) is None,
        },
{
    let n = v.len();
    let mut i: usize = 0;
    let mut acc: u128 = 0;
    proof {
        assert(v@.take(0) =~= Seq::<char>::empty());
    }
    while i < n
        invariant
            n == v@.len(),
            i <= n,
            acc == utf8_len(v@.take(i as int)),
            char_at_byte(v@, b as int, 0) == char_at_byte(v@, b as int, i as int),
        decreases n - i,
    {
        if acc > b as u128 {
            return None;
        }
        if acc == b as u128 {
            return Some(i);
        }
        proof {
            assert(v@.take(i + 1).drop_last() =~= v@.take(i as int));
            lemma_utf8_len_bound(v@.take(i as int));
        }
        acc = acc + char_width(v[i]) as u128;
        i = i + 1;
    }
    if acc == b as u128 {
        Some(i)
    } else {
        None
    }
}

fn first_match_of(v: &Vec<char>, d: &Vec<char>, a: usize, hi: usize) -> (r: Option<usize>)
    ensures
        match r {
            Some(j) => first_match(v@, d@, a as int, hi as int) == Some(j as int) && j <= hi,
            None => first_match(v@, d@, a as int, hi as int) is None,
        },
{
    if hi > v.len() {
        return None;
    }
    let mut j: usize = a;
    while j <= hi && d.len() <= hi - j
        invariant
            hi <= v@.len(),
            a <= j,
            first_match(v@, d@, a as int, hi as int) == first_match(v@, d@, j as int, hi as int),
        decreases hi + 1 - j,
    {
        if matches_at(v.as_slice(), d.as_slice(), j) {
            return Some(j);
        }
        if j == hi {
            proof {
                assert(first_match(v@, d@, j + 1, hi as int) is None);
            }
            return None;
        }
        j = j + 1;
    }
    None
}

fn found_at_of(v: &Vec<char>, d: &Vec<char>, start: usize, end: usize) -> (r: usize)
    requires
        utf8_len(v@) <= usize::MAX,
    ensures
        r as int == found_at(v@, d@, start as int, end as int),
{
    match (char_at_byte_of(v, start), char_at_byte_of(v, end)) {
        (Some(a), Some(b)) => match first_match_of(v, d, a, b) {
            Some(j) => {
                proof {
                    lemma_utf8_len_split(v@, j as int, v@.len() as int);
                }
                utf8_prefix(v, j) as usize
            },
            None => start,
        },
        _ => start,
    }
}

/// Whether `n` occurs in `h`.
fn contains_chars(h: &Vec<char>, n: &Vec<char>) -> (r: bool)
    ensures
        r == contains_seq(h@, n@),
{
    let mut i: usize = 0;
    while i < h.len()
        invariant
            i <= h@.len(),
            forall|k: int| 0 <= k < i ==> !occurs_at(h@, n@, k),
        decreases h.len() - i,
    {
        if matches_at(h.as_slice(), n.as_slice(), i) {
            return true;
        }
        i = i + 1;
    }
    if matches_at(h.as_slice(), n.as_slice(), i) {
        return true;
    }
    proof {
        assert forall|k: int| !occurs_at(h@, n@, k) by {
            if 0 <= k < i {
            }
        }
    }
    false
}


pub open spec fn acc_view(s: Seq<(usize, LinkCandidateGroup)>) -> Seq<(int, GroupView)> {
    s.map_values(|x: (usize, LinkCandidateGroup)| (x.0 as int, gview(x.1)))
}

fn same_chars(a: &Vec<char>, b: &Vec<char>) -> (r: bool)
    ensures
        r == (a@ == b@),
{
    if a.len() != b.len() {
        return false;
    }
    let mut i: usize = 0;
    while i < a.len()
        invariant
            a@.len() == b@.len(),
            i <= a@.len(),
            forall|k: int| 0 <= k < i ==> a@[k] == b@[k],
        decreases a.len() - i,
    {
        if a[i] != b[i] {
            return false;
        }
        i = i + 1;
    }
    proof {
        assert(a@ =~= b@);
    }
    true
}

proof fn lemma_signature_targets(g: LinkCandidateGroup)
    ensures
        signature(gview(g)).0 == super::targets_of(g.alternatives@),
        signature(gview(g)).1 == g.require_existing,
{
    assert(signature(gview(g)).0 =~= super::targets_of(g.alternatives@));
}

fn in_list(cmds: &Vec<Vec<char>>, t: &Vec<char>) -> (r: bool)
    ensures
        r == parts_view(cmds@).contains(t@),
{
    let mut i: usize = 0;
    while i < cmds.len()
        invariant
            i <= cmds@.len(),
            forall|k: int| 0 <= k < i ==> cmds@[k]@ != t@,
        decreases cmds.len() - i,
    {
        if same_chars(&cmds[i], t) {
            proof {
                assert(parts_view(cmds@)[i as int] == t@);
            }
            return true;
        }
        i = i + 1;
    }
    proof {
        if parts_view(cmds@).contains(t@) {
            let k = choose|k: int| 0 <= k < parts_view(cmds@).len() && parts_view(cmds@)[k] == t@;
            assert(cmds@[k]@ == t@);
        }
    }
    false
}

fn names_command(g: &LinkCandidateGroup, cmds: &Vec<Vec<char>>) -> (r: bool)
    ensures
        r == exists|k: int| 0 <= k < gview(*g).0.len() && parts_view(cmds@).contains(#[trigger] gview(*g).0[k].0),
{
    let mut i: usize = 0;
    while i < g.alternatives.len()
        invariant
            i <= g.alternatives@.len(),
            forall|k: int| 0 <= k < i ==> !parts_view(cmds@).contains(#[trigger] gview(*g).0[k].0),
        decreases g.alternatives.len() - i,
    {
        let t = chars_of(g.alternatives[i].target.as_str());
        proof {
            assert(gview(*g).0[i as int].0 == g.alternatives@[i as int].target@);
        }
        if in_list(cmds, &t) {
            return true;
        }
        i = i + 1;
    }
    false
}

fn same_signature(a: &LinkCandidateGroup, b: &LinkCandidateGroup) -> (r: bool)
    ensures
        r == (signature(gview(*a)) == signature(gview(*b))),
{
    proof {
        lemma_signature_targets(*a);
        lemma_signature_targets(*b);
    }
    if a.require_existing != b.require_existing || a.alternatives.len() != b.alternatives.len() {
        proof {
            if a.alternatives.len() != b.alternatives.len() {
                assert(super::targets_of(a.alternatives@).len() != super::targets_of(b.alternatives@).len());
                assert(signature(gview(*a)).0 != signature(gview(*b)).0);
            } else {
                assert(signature(gview(*a)).1 != signature(gview(*b)).1);
            }
        }
        return false;
    }
    let mut i: usize = 0;
    while i < a.alternatives.len()
        invariant
            a.alternatives@.len() == b.alternatives@.len(),
            a.require_existing == b.require_existing,
            signature(gview(*a)) == (super::targets_of(a.alternatives@), a.require_existing),
            signature(gview(*b)) == (super::targets_of(b.alternatives@), b.require_existing),
            i <= a.alternatives@.len(),
            forall|k: int| 0 <= k < i ==> a.alternatives@[k].target@ == b.alternatives@[k].target@,
        decreases a.alternatives.len() - i,
    {
        if !crate::text::str_eq(a.alternatives[i].target.as_str(), b.alternatives[i].target.as_str()) {
            proof {
                assert(super::targets_of(a.alternatives@)[i as int] != super::targets_of(b.alternatives@)[i as int]);
                assert(super::targets_of(a.alternatives@) != super::targets_of(b.alternatives@));
            }
            return false;
        }
        i = i + 1;
    }
    proof {
        assert(super::targets_of(a.alternatives@) =~= super::targets_of(b.alternatives@));
    }
    true
}

fn add_group(acc: &mut Vec<(usize, LinkCandidateGroup)>, cmds: &Vec<Vec<char>>, g: LinkCandidateGroup, pos: usize)
    ensures
        acc_view(final(acc)@) == add_group_to(acc_view(old(acc)@), parts_view(cmds@), gview(g), pos as int),
{
    if names_command(&g, cmds) {
        return;
    }
    let mut i: usize = 0;
    while i < acc.len()
        invariant
            i <= acc@.len(),
            forall|k: int| 0 <= k < i ==> signature(#[trigger] acc_view(acc@)[k].1) != signature(gview(g)),
        decreases acc.len() - i,
    {
        proof {
            assert(acc_view(acc@)[i as int].1 == gview(acc@[i as int].1));
        }
        if same_signature(&acc[i].1, &g) {
            return;
        }
        i = i + 1;
    }
    let ghost before = acc@;
    acc.push((pos, g));
    proof {
        assert(acc_view(acc@) =~= acc_view(before).push((pos as int, gview(g))));
    }
}

fn inside_quoted(qs: &Vec<(usize, usize, Vec<char>)>, text: &Vec<char>, pos: usize) -> (r: bool)
    ensures
        r == inside_quote(quoted_views(qs@), text@, pos as int),
{
    let mut i: usize = 0;
    while i < qs.len()
        invariant
            i <= qs@.len(),
            forall|k: int|
                0 <= k < i ==> !(quoted_views(qs@)[k].0 <= pos < quoted_views(qs@)[k].1 && #[trigger] quoted_views(
                    qs@,
                )[k].2 != text@ && contains_seq(quoted_views(qs@)[k].2, text@)),
        decreases qs.len() - i,
    {
        let q = &qs[i];
        proof {
            assert(quoted_views(qs@)[i as int] == (q.0 as int, q.1 as int, q.2@));
        }
        if q.0 <= pos && pos < q.1 && !same_chars(&q.2, text) && contains_chars(&q.2, text) {
            proof {
                let qv = quoted_views(qs@);
                assert(qv[i as int].0 <= pos < qv[i as int].1 && qv[i as int].2 != text@ && contains_seq(qv[i as int].2, text@));
            }
            return true;
        }
        i = i + 1;
    }
    false
}

fn add_text(
    acc: &mut Vec<(usize, LinkCandidateGroup)>,
    cmds: &Vec<Vec<char>>,
    qs: &Vec<(usize, usize, Vec<char>)>,
    text: &str,
    delimited: bool,
    pos: usize,
)
    ensures
        acc_view(final(acc)@) == add_text_to(acc_view(old(acc)@), parts_view(cmds@), quoted_views(qs@), text@, delimited, pos as int),
{
    let tv = chars_of(text);
    if inside_quoted(qs, &tv, pos) {
        return;
    }
    match candidate_group(text, delimited) {
        Some(g) => add_group(acc, cmds, g, pos),
        None => {},
    }
}

fn add_tokens(
    acc: &mut Vec<(usize, LinkCandidateGroup)>,
    cmds: &Vec<Vec<char>>,
    qs: &Vec<(usize, usize, Vec<char>)>,
    toks: &Vec<(String, bool, usize)>,
)
    ensures
        acc_view(final(acc)@) == add_tokens_to(acc_view(old(acc)@), parts_view(cmds@), quoted_views(qs@), found_views(toks@)),
{
    let ghost tv = found_views(toks@);
    let ghost start = acc_view(acc@);
    let mut i: usize = 0;
    proof {
        assert(tv.take(0) =~= Seq::<(Seq<char>, bool, int)>::empty());
    }
    while i < toks.len()
        invariant
            i <= toks@.len(),
            tv == found_views(toks@),
            acc_view(acc@) == add_tokens_to(start, parts_view(cmds@), quoted_views(qs@), tv.take(i as int)),
        decreases toks.len() - i,
    {
        proof {
            assert(tv.take(i + 1).drop_last() =~= tv.take(i as int));
            assert(tv.take(i + 1).last() == (toks@[i as int].0@, toks@[i as int].1, toks@[i as int].2 as int));
        }
        add_text(acc, cmds, qs, toks[i].0.as_str(), toks[i].1, toks[i].2);
        i = i + 1;
    }
    proof {
        assert(tv.take(i as int) =~= tv);
    }
}


fn add_quoted(acc: &mut Vec<(usize, LinkCandidateGroup)>, cmds: &Vec<Vec<char>>, qs: &Vec<(usize, usize, Vec<char>)>)
    requires
        forall|k: int| 0 <= k < qs@.len() ==> (#[trigger] qs@[k]).0 < qs@[k].1,
    ensures
        acc_view(final(acc)@) == add_quoted_to(acc_view(old(acc)@), parts_view(cmds@), quoted_views(qs@)),
{
    let ghost qv = quoted_views(qs@);
    let ghost start = acc_view(acc@);
    let mut i: usize = 0;
    proof {
        assert(qv.take(0) =~= Seq::<(int, int, Seq<char>)>::empty());
    }
    while i < qs.len()
        invariant
            i <= qs@.len(),
            qv == quoted_views(qs@),
            forall|k: int| 0 <= k < qs@.len() ==> (#[trigger] qs@[k]).0 < qs@[k].1,
            acc_view(acc@) == add_quoted_to(start, parts_view(cmds@), qv.take(i as int)),
        decreases qs.len() - i,
    {
        proof {
            assert(qv.take(i + 1).drop_last() =~= qv.take(i as int));
            assert(qv.take(i + 1).last() == (qs@[i as int].0 as int, qs@[i as int].1 as int, qs@[i as int].2@));
            assert(qs@[i as int].0 < qs@[i as int].1);
        }
        let text = string_of(qs[i].2.as_slice());
        match candidate_group(text.as_str(), true) {
            Some(g) => add_group(acc, cmds, g, qs[i].0 + 1),
            None => {},
        }
        i = i + 1;
    }
    proof {
        assert(qv.take(i as int) =~= qv);
    }
}

pub open spec fn stack_view(s: Seq<(String, usize)>) -> Seq<(Seq<char>, int)> {
    s.map_values(|x: (String, usize)| (x.0@, x.1 as int))
}

/// Scans text found at byte `base` and adds the groups of its tokens.
fn add_scanned(
    acc: &mut Vec<(usize, LinkCandidateGroup)>,
    cmds: &Vec<Vec<char>>,
    qs: &Vec<(usize, usize, Vec<char>)>,
    text: &str,
    base: usize,
)
    ensures
        acc_view(final(acc)@) == add_tokens_to(acc_view(old(acc)@), parts_view(cmds@), quoted_views(qs@), tokens_at(text@, base as int)),
{
    let tv = chars_of(text);
    let tl = utf8_prefix(&tv, tv.len());
    proof {
        assert(tv@.take(tv@.len() as int) =~= tv@);
        lemma_utf8_len_bound(tv@);
    }
    if base as u128 + tl <= usize::MAX as u128 {
        let toks = scan_text(text, base);
        add_tokens(acc, cmds, qs, &toks);
    } else {
        proof {
            assert(add_tokens_to(acc_view(acc@), parts_view(cmds@), quoted_views(qs@), Seq::empty()) == acc_view(acc@));
        }
    }
}

fn sort_by_position(v: Vec<(usize, LinkCandidateGroup)>) -> (r: Vec<(usize, LinkCandidateGroup)>)
    ensures
        acc_view(r@) == by_position(acc_view(v@)),
{
    let ghost orig = v@;
    let n = v.len();
    let mut rest = v;
    let mut out: Vec<(usize, LinkCandidateGroup)> = Vec::new();
    let mut i: usize = 0;
    while rest.len() > 0
        invariant
            orig.len() == n,
            i <= n,
            rest@ == orig.skip(i as int),
            acc_view(out@) == by_position(acc_view(orig.take(i as int))),
        decreases rest@.len(),
    {
        let ghost tv = acc_view(orig.take(i + 1));
        proof {
            assert(tv.drop_last() =~= acc_view(orig.take(i as int)));
            assert(tv.last() == (orig[i as int].0 as int, gview(orig[i as int].1)));
        }
        let x = rest.remove(0);
        proof {
            assert(rest@ =~= orig.skip(i + 1));
        }
        let xp = x.0;
        let mut j: usize = out.len();
        proof {
            assert(acc_view(out@).take(j as int) =~= acc_view(out@));
        }
        while j > 0 && out[j - 1].0 > xp
            invariant
                j <= out@.len(),
                pos_slot(acc_view(out@), xp as int) == pos_slot(acc_view(out@).take(j as int), xp as int),
            decreases j,
        {
            proof {
                assert(acc_view(out@).take(j as int).drop_last() =~= acc_view(out@).take(j - 1));
            }
            j = j - 1;
        }
        proof {
            if j > 0 {
                assert(acc_view(out@).take(j as int).last() == (out@[j - 1].0 as int, gview(out@[j - 1].1)));
            }
        }
        let ghost before = out@;
        let ghost xv = (x.0 as int, gview(x.1));
        out.insert(j, x);
        proof {
            assert(acc_view(out@) =~= acc_view(before).insert(j as int, xv));
        }
        i = i + 1;
    }
    proof {
        assert(orig.take(i as int) =~= orig);
    }
    out
}

fn strip_positions(v: Vec<(usize, LinkCandidateGroup)>) -> (r: Vec<LinkCandidateGroup>)
    ensures
        gviews(r@) == acc_view(v@).map_values(|x: (int, GroupView)| x.1),
{
    let ghost orig = v@;
    let n = v.len();
    let mut rest = v;
    let mut out: Vec<LinkCandidateGroup> = Vec::new();
    let mut i: usize = 0;
    while rest.len() > 0
        invariant
            orig.len() == n,
            i <= n,
            rest@ == orig.skip(i as int),
            gviews(out@) == acc_view(orig.take(i as int)).map_values(|x: (int, GroupView)| x.1),
        decreases rest@.len(),
    {
        let x = rest.remove(0);
        proof {
            assert(rest@ =~= orig.skip(i + 1));
            assert(x == orig[i as int]);
        }
        let ghost before = out@;
        out.push(x.1);
        proof {
            assert(gviews(out@) =~= gviews(before).push(gview(x.1)));
            assert(acc_view(orig.take(i + 1)).map_values(|x: (int, GroupView)| x.1) =~= acc_view(orig.take(i as int)).map_values(
                |x: (int, GroupView)| x.1,
            ).push(gview(x.1)));
        }
        i = i + 1;
    }
    proof {
        assert(orig.take(i as int) =~= orig);
    }
    out
}

/// The link groups of a message, given the Markdown events of its source.
pub fn discover_from_events(source: &str, events: &[MdEvent]) -> (r: Vec<LinkCandidateGroup>)
    ensures
        gviews(r@) == discovered(source@, md_event_views(events@)),
{
    let v = chars_of(source);
    let total = utf8_prefix(&v, v.len());
    proof {
        assert(v@.take(v@.len() as int) =~= v@);
    }
    if total > usize::MAX as u128 {
        return Vec::new();
    }
    let ws = split_words(&v);
    let mut cmds = commands_of_words(&ws);
    let qs = quoted_spans_of(&v);
    let qc = quoted_commands_of(&qs);
    let mut k: usize = 0;
    let ghost c0 = parts_view(cmds@);
    while k < qc.len()
        invariant
            k <= qc@.len(),
            parts_view(cmds@) == c0 + parts_view(qc@).take(k as int),
        decreases qc.len() - k,
    {
        let ghost before = cmds@;
        let mut w: Vec<char> = Vec::new();
        let mut m: usize = 0;
        while m < qc[k].len()
            invariant
                k < qc@.len(),
                m <= qc@[k as int]@.len(),
                w@ == qc@[k as int]@.take(m as int),
            decreases qc@[k as int]@.len() - m,
        {
            proof {
                assert(qc@[k as int]@.take(m + 1) =~= qc@[k as int]@.take(m as int).push(qc@[k as int]@[m as int]));
            }
            w.push(qc[k][m]);
            m = m + 1;
        }
        proof {
            assert(qc@[k as int]@.take(m as int) =~= qc@[k as int]@);
        }
        cmds.push(w);
        proof {
            assert(parts_view(cmds@) =~= parts_view(before).push(parts_view(qc@)[k as int]));
            assert(parts_view(qc@).take(k + 1) =~= parts_view(qc@).take(k as int).push(parts_view(qc@)[k as int]));
        }
        k = k + 1;
    }
    proof {
        assert(parts_view(qc@).take(k as int) =~= parts_view(qc@));
    }
    let ghost cv = parts_view(cmds@);
    let ghost qv = quoted_views(qs@);
    let mut acc: Vec<(usize, LinkCandidateGroup)> = Vec::new();
    proof {
        assert(acc_view(acc@) =~= Seq::<(int, GroupView)>::empty());
    }
    add_quoted(&mut acc, &cmds, &qs);
    let mut stack: Vec<(String, usize)> = Vec::new();
    let ghost ev = md_event_views(events@);
    let ghost st0 = (acc_view(acc@), stack_view(stack@));
    let mut i: usize = 0;
    proof {
        assert(ev.take(0) =~= Seq::<(MdKind, Seq<char>, int, int)>::empty());
        assert(stack_view(stack@) =~= Seq::<(Seq<char>, int)>::empty());
        assert(cv == command_tokens(v@));
        assert(st0 == (add_quoted_to(Seq::empty(), command_tokens(v@), quoted_spans(v@)), Seq::<(Seq<char>, int)>::empty()));
    }
    while i < events.len()
        invariant
            i <= events@.len(),
            ev == md_event_views(events@),
            v@ == source@,
            utf8_len(v@) <= usize::MAX,
            cv == parts_view(cmds@),
            qv == quoted_views(qs@),
            (acc_view(acc@), stack_view(stack@)) == events_fold(v@, cv, qv, st0, ev.take(i as int)),
        decreases events.len() - i,
    {
        let e = &events[i];
        proof {
            assert(ev.take(i + 1).drop_last() =~= ev.take(i as int));
            assert(ev.take(i + 1).last() == md_event_view(*e));
        }
        let ghost sv = stack_view(stack@);
        match e.kind {
            MdKind::LinkStart => {
                let p = found_at_of(&v, &chars_of(e.text.as_str()), e.start, e.end);
                stack.push((e.text.clone(), p));
                proof {
                    assert(stack_view(stack@) =~= sv.push((e.text@, p as int)));
                }
            },
            MdKind::LinkEnd => {
                if stack.len() > 0 {
                    let top = stack.pop().unwrap();
                    proof {
                        assert(stack_view(stack@) =~= sv.drop_last());
                        assert(sv.last() == (top.0@, top.1 as int));
                    }
                    add_text(&mut acc, &cmds, &qs, top.0.as_str(), true, top.1);
                }
            },
            MdKind::Code => {
                let p = found_at_of(&v, &chars_of(e.text.as_str()), e.start, e.end);
                if candidate_group(e.text.as_str(), true).is_some() {
                    add_text(&mut acc, &cmds, &qs, e.text.as_str(), true, p);
                } else {
                    add_scanned(&mut acc, &cmds, &qs, e.text.as_str(), p);
                }
            },
            MdKind::Text => {
                add_scanned(&mut acc, &cmds, &qs, e.text.as_str(), e.start);
            },
            MdKind::Other => {},
        }
        i = i + 1;
    }
    proof {
        assert(ev.take(i as int) =~= ev);
        assert(cv == command_tokens(v@));
    }
    let ghost fin = acc_view(acc@);
    let sorted = sort_by_position(acc);
    let groups = strip_positions(sorted);
    let r = bound_groups(groups);
    proof {
        assert(utf8_len(v@) <= usize::MAX);
        assert(gviews(groups@) == by_position(fin).map_values(|x: (int, GroupView)| x.1));
    }
    r
}

/// The link groups of a message: its Markdown is parsed, then links, code
/// spans, quoted spans and text are read for targets.
pub fn discover(source: &str) -> (r: Vec<LinkCandidateGroup>)
    ensures
        gviews(r@) == discovered(source@, markdown_events(source@)),
{
    let events = markdown_offset_events(source);
    discover_from_events(source, events.as_slice())
}


/// No alternative of any group in `acc` targets a command.
pub open spec fn free_of_commands(acc: Seq<(int, GroupView)>, cmds: Seq<Seq<char>>) -> bool {
    forall|k: int, j: int| 0 <= k < acc.len() && 0 <= j < acc[k].1.0.len() ==> !cmds.contains(#[trigger] acc[k].1.0[j].0)
}

proof fn lemma_add_group_free(acc: Seq<(int, GroupView)>, cmds: Seq<Seq<char>>, g: GroupView, pos: int)
    requires
        free_of_commands(acc, cmds),
    ensures
        free_of_commands(add_group_to(acc, cmds, g, pos), cmds),
{
    let r = add_group_to(acc, cmds, g, pos);
    if r != acc {
        assert forall|k: int, j: int| 0 <= k < r.len() && 0 <= j < r[k].1.0.len() implies !cmds.contains(
            #[trigger] r[k].1.0[j].0,
        ) by {
            if k < acc.len() {
                assert(r[k] == acc[k]);
            } else {
                assert(r[k] == (pos, g));
                if cmds.contains(g.0[j].0) {
                    assert(exists|q: int| 0 <= q < g.0.len() && cmds.contains(#[trigger] g.0[q].0));
                }
            }
        }
    }
}

proof fn lemma_add_text_free(
    acc: Seq<(int, GroupView)>,
    cmds: Seq<Seq<char>>,
    qs: Seq<(int, int, Seq<char>)>,
    text: Seq<char>,
    d: bool,
    pos: int,
)
    requires
        free_of_commands(acc, cmds),
    ensures
        free_of_commands(add_text_to(acc, cmds, qs, text, d, pos), cmds),
{
    if !inside_quote(qs, text, pos) {
        match group_reading(text, d) {
            Some(g) => lemma_add_group_free(acc, cmds, g, pos),
            None => {},
        }
    }
}

proof fn lemma_add_tokens_free(acc: Seq<(int, GroupView)>, cmds: Seq<Seq<char>>, qs: Seq<(int, int, Seq<char>)>, toks: Seq<(Seq<char>, bool, int)>)
    requires
        free_of_commands(acc, cmds),
    ensures
        free_of_commands(add_tokens_to(acc, cmds, qs, toks), cmds),
    decreases toks.len(),
{
    if toks.len() > 0 {
        lemma_add_tokens_free(acc, cmds, qs, toks.drop_last());
        let x = toks.last();
        lemma_add_text_free(add_tokens_to(acc, cmds, qs, toks.drop_last()), cmds, qs, x.0, x.1, x.2);
    }
}

proof fn lemma_add_quoted_free(acc: Seq<(int, GroupView)>, cmds: Seq<Seq<char>>, qs: Seq<(int, int, Seq<char>)>)
    requires
        free_of_commands(acc, cmds),
    ensures
        free_of_commands(add_quoted_to(acc, cmds, qs), cmds),
    decreases qs.len(),
{
    if qs.len() > 0 {
        lemma_add_quoted_free(acc, cmds, qs.drop_last());
        match group_reading(qs.last().2, true) {
            Some(g) => lemma_add_group_free(add_quoted_to(acc, cmds, qs.drop_last()), cmds, g, qs.last().0 + 1),
            None => {},
        }
    }
}

proof fn lemma_events_free(
    t: Seq<char>,
    cmds: Seq<Seq<char>>,
    qs: Seq<(int, int, Seq<char>)>,
    st: (Seq<(int, GroupView)>, Seq<(Seq<char>, int)>),
    es: Seq<(MdKind, Seq<char>, int, int)>,
)
    requires
        free_of_commands(st.0, cmds),
    ensures
        free_of_commands(events_fold(t, cmds, qs, st, es).0, cmds),
    decreases es.len(),
{
    if es.len() > 0 {
        lemma_events_free(t, cmds, qs, st, es.drop_last());
        let s1 = events_fold(t, cmds, qs, st, es.drop_last());
        let e = es.last();
        match e.0 {
            MdKind::LinkStart => {},
            MdKind::LinkEnd => if s1.1.len() > 0 {
                lemma_add_text_free(s1.0, cmds, qs, s1.1.last().0, true, s1.1.last().1);
            },
            MdKind::Code => {
                let p = found_at(t, e.1, e.2, e.3);
                if group_reading(e.1, true) is Some {
                    lemma_add_text_free(s1.0, cmds, qs, e.1, true, p);
                } else {
                    lemma_add_tokens_free(s1.0, cmds, qs, tokens_at(e.1, p));
                }
            },
            MdKind::Text => lemma_add_tokens_free(s1.0, cmds, qs, tokens_at(e.1, e.2)),
            MdKind::Other => {},
        }
    }
}

proof fn lemma_by_position_members(s: Seq<(int, GroupView)>)
    ensures
        by_position(s).len() == s.len(),
        forall|k: int| 0 <= k < by_position(s).len() ==> s.contains(#[trigger] by_position(s)[k]),
    decreases s.len(),
{
    if s.len() > 0 {
        lemma_by_position_members(s.drop_last());
        let done = by_position(s.drop_last());
        let slot = pos_slot(done, s.last().0);
        lemma_pos_slot_bound(done, s.last().0);
        assert forall|k: int| 0 <= k < by_position(s).len() implies s.contains(#[trigger] by_position(s)[k]) by {
            if k < slot {
                assert(by_position(s)[k] == done[k]);
                assert(s.drop_last().contains(done[k]));
                let q = choose|q: int| 0 <= q < s.drop_last().len() && s.drop_last()[q] == done[k];
                assert(s[q] == done[k]);
            } else if k == slot {
                assert(by_position(s)[k] == s.last());
                assert(s[s.len() - 1] == s.last());
            } else {
                assert(by_position(s)[k] == done[k - 1]);
                assert(s.drop_last().contains(done[k - 1]));
                let q = choose|q: int| 0 <= q < s.drop_last().len() && s.drop_last()[q] == done[k - 1];
                assert(s[q] == done[k - 1]);
            }
        }
    }
}

proof fn lemma_pos_slot_bound(s: Seq<(int, GroupView)>, pos: int)
    ensures
        0 <= pos_slot(s, pos) <= s.len(),
    decreases s.len(),
{
    if s.len() > 0 {
        lemma_pos_slot_bound(s.drop_last(), pos);
    }
}

proof fn lemma_bounded_from_members(gs: Seq<GroupView>, i: int, used: nat, kept: nat)
    ensures
        forall|k: int| 0 <= k < bounded_from(gs, i, used, kept).len() ==> exists|q: int|
            0 <= q < gs.len() && #[trigger] bounded_from(gs, i, used, kept)[k].0 == gs[q].0.take(
                bounded_from(gs, i, used, kept)[k].0.len() as int,
            ) && bounded_from(gs, i, used, kept)[k].0.len() <= gs[q].0.len(),
    decreases gs.len() - i,
{
    if !(i < 0 || i >= gs.len() || kept >= super::MAX_CANDIDATES) {
        let cs = gs[i].0;
        let remaining = if used <= super::MAX_CANDIDATES { super::MAX_CANDIDATES - used } else { 0 };
        let keep = if super::view_probes(cs) > remaining { remaining } else { cs.len() as int };
        if keep <= 0 {
            lemma_bounded_from_members(gs, i + 1, used, kept);
            assert(bounded_from(gs, i, used, kept) == bounded_from(gs, i + 1, used, kept));
        } else {
            let rest = bounded_from(gs, i + 1, used + super::view_probes(cs.take(keep)), kept + 1);
            lemma_bounded_from_members(gs, i + 1, used + super::view_probes(cs.take(keep)), kept + 1);
            lemma_view_probes_le(cs);
            let r = bounded_from(gs, i, used, kept);
            assert(r == seq![(cs.take(keep), gs[i].1)] + rest);
            assert forall|k: int| 0 <= k < r.len() implies exists|q: int|
                0 <= q < gs.len() && #[trigger] r[k].0 == gs[q].0.take(r[k].0.len() as int) && r[k].0.len() <= gs[q].0.len() by {
                if k == 0 {
                    assert(cs.take(keep).len() == keep);
                    assert(cs.take(keep) =~= gs[i].0.take(keep));
                } else {
                    assert(r[k] == rest[k - 1]);
                    let q = choose|q: int|
                        0 <= q < gs.len() && #[trigger] rest[k - 1].0 == gs[q].0.take(rest[k - 1].0.len() as int)
                            && rest[k - 1].0.len() <= gs[q].0.len();
                    assert(r[k].0 == gs[q].0.take(r[k].0.len() as int));
                }
            }
        }
    }
}

proof fn lemma_view_probes_le(cs: Seq<CandView>)
    ensures
        super::view_probes(cs) <= cs.len(),
    decreases cs.len(),
{
    if cs.len() > 0 {
        lemma_view_probes_le(cs.drop_last());
    }
}

/// Command syntax is never offered as a link: no alternative of any
/// discovered group targets a slash command written with a `<placeholder>`
/// (bare or quoted).
pub proof fn discovered_groups_never_target_commands(t: Seq<char>, es: Seq<(MdKind, Seq<char>, int, int)>)
    ensures
        forall|k: int, j: int|
            0 <= k < discovered(t, es).len() && 0 <= j < discovered(t, es)[k].0.len() ==> !command_tokens(t).contains(
                #[trigger] discovered(t, es)[k].0[j].0,
            ),
{
    if utf8_len(t) <= usize::MAX {
        let cmds = command_tokens(t);
        let qs = quoted_spans(t);
        let a0 = add_quoted_to(Seq::empty(), cmds, qs);
        lemma_add_quoted_free(Seq::empty(), cmds, qs);
        let st = events_fold(t, cmds, qs, (a0, Seq::empty()), es);
        lemma_events_free(t, cmds, qs, (a0, Seq::empty()), es);
        let sorted = by_position(st.0);
        lemma_by_position_members(st.0);
        let gs = sorted.map_values(|x: (int, GroupView)| x.1);
        lemma_bounded_from_members(gs, 0, 0, 0);
        let r = bounded_from(gs, 0, 0, 0);
        assert(r == discovered(t, es));
        assert forall|k: int, j: int| 0 <= k < r.len() && 0 <= j < r[k].0.len() implies !cmds.contains(#[trigger] r[k].0[j].0) by {
            let q = choose|q: int| 0 <= q < gs.len() && #[trigger] r[k].0 == gs[q].0.take(r[k].0.len() as int) && r[k].0.len()
                <= gs[q].0.len();
            assert(gs[q] == sorted[q].1);
            assert(st.0.contains(sorted[q]));
            let m = choose|m: int| 0 <= m < st.0.len() && st.0[m] == sorted[q];
            assert(r[k].0[j] == gs[q].0[j]);
            assert(st.0[m].1.0[j] == gs[q].0[j]);
        }
    }
}

} // verus!
