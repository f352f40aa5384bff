//! Tag suffixes for quick-copy links: each tagged target found in a line's
//! text, at target boundaries, gets `~tag` after it; where matches overlap
//! the earliest, then longest, then first-listed wins. The spans' text and
//! styles are kept around the inserted suffixes.
use vstd::prelude::*;

use super::{class_has, in_class, CharClass, TaggedLink};
use crate::text::{chars_of, matches_at, occurs_at, push_char, string_of_range};

verus! {

/// A run of line text with one style; suffix spans are not copyable.
#[derive(Debug, Clone, PartialEq, Eq)]
pub struct StyledSpan {
    pub content: String,
    pub style: u32,
    pub copyable: bool,
}

pub open spec fn span_view(s: StyledSpan) -> (Seq<char>, u32, bool) {
    (s.content@, s.style, s.copyable)
}

pub open spec fn span_views(ss: Seq<StyledSpan>) -> Seq<(Seq<char>, u32, bool)> {
    ss.map_values(|s: StyledSpan| span_view(s))
}

/// The text of the spans, in order.
pub open spec fn joined(ss: Seq<(Seq<char>, u32, bool)>) -> Seq<char>
    decreases ss.len(),
{
    if ss.len() == 0 {
        Seq::empty()
    } else {
        joined(ss.drop_last()) + ss.last().0
    }
}

/// Whether `t[s..e]` stands alone: a target boundary (or nothing) before
/// it, and after it a boundary, nothing, or sentence punctuation followed
/// by a boundary or nothing.
pub open spec fn stands_alone(t: Seq<char>, s: int, e: int) -> bool {
    &&& (s <= 0 || in_class(t[s - 1], CharClass::TargetBoundary))
    &&& (e >= t.len() || if in_class(t[e], CharClass::SentencePunctuation) {
        e + 1 >= t.len() || in_class(t[e + 1], CharClass::TargetBoundary)
    } else {
        in_class(t[e], CharClass::TargetBoundary)
    })
}

/// The standing-alone matches of `n` in `t` from `from` on, left to right
/// and not overlapping, as (start, end, link order, tag).
pub open spec fn link_matches_from(t: Seq<char>, n: Seq<char>, order: int, tag: char, from: int) -> Seq<
    (int, int, int, char),
>
    decreases t.len() + 1 - from,
{
    if from < 0 || from + n.len() > t.len() {
        Seq::empty()
    } else if occurs_at(t, n, from) {
        let next = from + if n.len() == 0 { 1 } else { n.len() as int };
        if stands_alone(t, from, from + n.len()) {
            seq![(from, from + n.len(), order, tag)] + link_matches_from(t, n, order, tag, next)
        } else {
            link_matches_from(t, n, order, tag, next)
        }
    } else {
        link_matches_from(t, n, order, tag, from + 1)
    }
}

/// The matches of every link, link by link.
pub open spec fn all_matches(t: Seq<char>, links: Seq<(Seq<char>, char)>) -> Seq<(int, int, int, char)>
    decreases links.len(),
{
    if links.len() == 0 {
        Seq::empty()
    } else {
        all_matches(t, links.drop_last()) + link_matches_from(
            t,
            links.last().0,
            links.len() - 1,
            links.last().1,
            0,
        )
    }
}

/// Match order: earlier start, then longer, then earlier link.
pub open spec fn match_before(a: (int, int, int, char), b: (int, int, int, char)) -> bool {
    a.0 < b.0 || (a.0 == b.0 && (a.1 - a.0 > b.1 - b.0 || (a.1 - a.0 == b.1 - b.0 && a.2 <= b.2)))
}

pub open spec fn match_slot(s: Seq<(int, int, int, char)>, x: (int, int, int, char)) -> int
    decreases s.len(),
{
    if s.len() == 0 {
        0
    } else if match_before(s.last(), x) {
        s.len() as int
    } else {
        match_slot(s.drop_last(), x)
    }
}

/// The matches in match order.
pub open spec fn ordered_matches(s: Seq<(int, int, int, char)>) -> Seq<(int, int, int, char)>
    decreases s.len(),
{
    if s.len() == 0 {
        s
    } else {
        let done = ordered_matches(s.drop_last());
        done.insert(match_slot(done, s.last()), s.last())
    }
}

pub open spec fn disjoint_from(sel: Seq<(int, int, int, char)>, m: (int, int, int, char)) -> bool {
    forall|k: int| 0 <= k < sel.len() ==> m.1 <= (#[trigger] sel[k]).0 || m.0 >= sel[k].1
}

/// The matches kept in turn, each only when it overlaps none kept before.
pub open spec fn chosen(s: Seq<(int, int, int, char)>) -> Seq<(int, int, int, char)>
    decreases s.len(),
{
    if s.len() == 0 {
        s
    } else {
        let sel = chosen(s.drop_last());
        if disjoint_from(sel, s.last()) {
            sel.push(s.last())
        } else {
            sel
        }
    }
}

pub open spec fn suffix_before(a: (int, char), b: (int, char)) -> bool {
    a.0 < b.0 || (a.0 == b.0 && (a.1 as u32) <= (b.1 as u32))
}

pub open spec fn suffix_slot(s: Seq<(int, char)>, x: (int, char)) -> int
    decreases s.len(),
{
    if s.len() == 0 {
        0
    } else if suffix_before(s.last(), x) {
        s.len() as int
    } else {
        suffix_slot(s.drop_last(), x)
    }
}

/// The (end, tag) suffixes in position order.
pub open spec fn ordered_suffixes(s: Seq<(int, char)>) -> Seq<(int, char)>
    decreases s.len(),
{
    if s.len() == 0 {
        s
    } else {
        let done = ordered_suffixes(s.drop_last());
        done.insert(suffix_slot(done, s.last()), s.last())
    }
}

/// Where the suffixes of a text go, in order.
pub open spec fn suffixes_for(t: Seq<char>, links: Seq<(Seq<char>, char)>) -> Seq<(int, char)> {
    ordered_suffixes(
        chosen(ordered_matches(all_matches(t, links))).map_values(|m: (int, int, int, char)| (m.1, m.3)),
    )
}

/// One span at text offset `offset`, from `local` on, with the suffixes
/// that fall within or at its end placed; also the suffixes left over.
pub open spec fn place(
    content: Seq<char>,
    style: u32,
    copyable: bool,
    sfx: Seq<(int, char)>,
    offset: int,
    local: int,
    suffix_style: u32,
) -> (Seq<(Seq<char>, u32, bool)>, Seq<(int, char)>)
    decreases sfx.len(),
{
    if sfx.len() > 0 && sfx[0].0 <= offset + content.len() {
        let cut = sfx[0].0 - offset;
        let piece = if cut > local {
            seq![(content.subrange(local, cut), style, copyable)]
        } else {
            Seq::empty()
        };
        let rest = place(content, style, copyable, sfx.drop_first(), offset, if cut > local { cut } else { local }, suffix_style);
        (piece + seq![(seq!['~', sfx[0].1], suffix_style, false)] + rest.0, rest.1)
    } else {
        (
            if local < content.len() {
                seq![(content.subrange(local, content.len() as int), style, copyable)]
            } else {
                Seq::empty()
            },
            sfx,
        )
    }
}

/// The spans from `ss` on, at text offset `offset`, with suffixes placed.
pub open spec fn placed(ss: Seq<(Seq<char>, u32, bool)>, sfx: Seq<(int, char)>, offset: int, suffix_style: u32) -> Seq<
    (Seq<char>, u32, bool),
>
    decreases ss.len(),
{
    if ss.len() == 0 {
        Seq::empty()
    } else {
        let r = place(ss[0].0, ss[0].1, ss[0].2, sfx, offset, 0, suffix_style);
        r.0 + placed(ss.drop_first(), r.1, offset + ss[0].0.len(), suffix_style)
    }
}

/// The spans of a line with the tags of its quick-copy links inserted.
pub open spec fn annotated(ss: Seq<(Seq<char>, u32, bool)>, links: Seq<(Seq<char>, char)>, suffix_style: u32) -> Seq<
    (Seq<char>, u32, bool),
> {
    if links.len() == 0 {
        ss
    } else {
        placed(ss, suffixes_for(joined(ss), links), 0, suffix_style)
    }
}

pub open spec fn link_views(ls: Seq<TaggedLink>) -> Seq<(Seq<char>, char)> {
    ls.map_values(|l: TaggedLink| (l.target@, l.tag))
}


pub open spec fn match_views(ms: Seq<(usize, usize, usize, char)>) -> Seq<(int, int, int, char)> {
    ms.map_values(|m: (usize, usize, usize, char)| (m.0 as int, m.1 as int, m.2 as int, m.3))
}

pub open spec fn suffix_views(ms: Seq<(usize, char)>) -> Seq<(int, char)> {
    ms.map_values(|m: (usize, char)| (m.0 as int, m.1))
}

fn line_text(spans: &Vec<StyledSpan>) -> (r: Vec<char>)
    ensures
        r@ == joined(span_views(spans@)),
{
    let ghost sv = span_views(spans@);
    let mut r: Vec<char> = Vec::new();
    let mut i: usize = 0;
    while i < spans.len()
        invariant
            i <= spans@.len(),
            sv == span_views(spans@),
            r@ == joined(sv.take(i as int)),
        decreases spans.len() - i,
    {
        let c = chars_of(spans[i].content.as_str());
        let ghost before = r@;
        let mut k: usize = 0;
        while k < c.len()
            invariant
                k <= c@.len(),
                r@ == before + c@.take(k as int),
            decreases c.len() - k,
        {
            proof {
                assert(c@.take(k + 1) =~= c@.take(k as int).push(c@[k as int]));
            }
            r.push(c[k]);
            k = k + 1;
        }
        proof {
            assert(c@.take(k as int) =~= c@);
            assert(sv.take(i + 1).drop_last() =~= sv.take(i as int));
            assert(sv.take(i + 1).last().0 == spans@[i as int].content@);
        }
        i = i + 1;
    }
    proof {
        assert(sv.take(i as int) =~= sv);
    }
    r
}

fn stands_alone_at(v: &Vec<char>, s: usize, e: usize) -> (r: bool)
    requires
        s <= e <= v@.len(),
    ensures
        r == stands_alone(v@, s as int, e as int),
{
    let before = s == 0 || class_has(v[s - 1], CharClass::TargetBoundary);
    let after = if e >= v.len() {
        true
    } else if class_has(v[e], CharClass::SentencePunctuation) {
        e + 1 >= v.len() || class_has(v[e + 1], CharClass::TargetBoundary)
    } else {
        class_has(v[e], CharClass::TargetBoundary)
    };
    before && after
}

fn collect_matches(v: &Vec<char>, links: &[TaggedLink]) -> (r: Vec<(usize, usize, usize, char)>)
    ensures
        match_views(r@) == all_matches(v@, link_views(links@)),
        forall|k: int| 0 <= k < r@.len() ==> (#[trigger] r@[k]).0 <= r@[k].1,
{
    let ghost lv = link_views(links@);
    let mut out: Vec<(usize, usize, usize, char)> = Vec::new();
    let mut k: usize = 0;
    proof {
        assert(lv.take(0) =~= Seq::<(Seq<char>, char)>::empty());
        assert(match_views(out@) =~= Seq::<(int, int, int, char)>::empty());
    }
    while k < links.len()
        invariant
            k <= links@.len(),
            lv == link_views(links@),
            match_views(out@) == all_matches(v@, lv.take(k as int)),
            forall|q: int| 0 <= q < out@.len() ==> (#[trigger] out@[q]).0 <= out@[q].1,
        decreases links.len() - k,
    {
        let n = chars_of(links[k].target.as_str());
        let tag = links[k].tag;
        let ghost base = match_views(out@);
        proof {
            assert(lv.take(k + 1).drop_last() =~= lv.take(k as int));
            assert(lv.take(k + 1).last() == (n@, tag));
            assert(base + link_matches_from(v@, n@, k as int, tag, 0) == all_matches(v@, lv.take(k + 1)));
        }
        let mut j: usize = 0;
        let mut done = false;
        while !done && j <= v.len() && n.len() <= v.len() - j
            invariant
                !done ==> base + link_matches_from(v@, n@, k as int, tag, 0) == match_views(out@) + link_matches_from(
                    v@,
                    n@,
                    k as int,
                    tag,
                    j as int,
                ),
                done ==> base + link_matches_from(v@, n@, k as int, tag, 0) == match_views(out@),
                forall|q: int| 0 <= q < out@.len() ==> (#[trigger] out@[q]).0 <= out@[q].1,
            decreases v.len() + 1 - j + if done { 0int } else { 1int },
        {
            let ghost mid = match_views(out@);
            if matches_at(v.as_slice(), n.as_slice(), j) {
                let e = j + n.len();
                let step = if n.len() == 0 { 1 } else { n.len() };
                if stands_alone_at(v, j, e) {
                    let ghost ob = out@;
                    out.push((j, e, k, tag));
                    proof {
                        assert forall|q: int| 0 <= q < out@.len() implies (#[trigger] out@[q]).0 <= out@[q].1 by {
                            if q < ob.len() {
                                assert(out@[q] == ob[q]);
                            }
                        }
                        assert(match_views(out@) =~= mid.push((j as int, e as int, k as int, tag)));
                        assert(mid + link_matches_from(v@, n@, k as int, tag, j as int) =~= match_views(out@)
                            + link_matches_from(v@, n@, k as int, tag, j + step));
                    }
                }
                if v.len() - j < step {
                    proof {
                        assert(link_matches_from(v@, n@, k as int, tag, j + step) == Seq::<(int, int, int, char)>::empty());
                        assert(match_views(out@) + Seq::<(int, int, int, char)>::empty() =~= match_views(out@));
                    }
                    done = true;
                } else {
                    j = j + step;
                }
            } else {
                if j == v.len() {
                    proof {
                        assert(link_matches_from(v@, n@, k as int, tag, j + 1) == Seq::<(int, int, int, char)>::empty());
                        assert(match_views(out@) + Seq::<(int, int, int, char)>::empty() =~= match_views(out@));
                    }
                    done = true;
                } else {
                    j = j + 1;
                }
            }
        }
        proof {
            if !done {
                assert(link_matches_from(v@, n@, k as int, tag, j as int) == Seq::<(int, int, int, char)>::empty());
                assert(match_views(out@) + Seq::<(int, int, int, char)>::empty() =~= match_views(out@));
            }
        }
        k = k + 1;
    }
    proof {
        assert(lv.take(k as int) =~= lv);
    }
    out
}

fn before_exec(a: (usize, usize, usize, char), b: (usize, usize, usize, char)) -> (r: bool)
    requires
        a.0 <= a.1,
        b.0 <= b.1,
    ensures
        r == match_before((a.0 as int, a.1 as int, a.2 as int, a.3), (b.0 as int, b.1 as int, b.2 as int, b.3)),
{
    a.0 < b.0 || (a.0 == b.0 && (a.1 - a.0 > b.1 - b.0 || (a.1 - a.0 == b.1 - b.0 && a.2 <= b.2)))
}

fn order_matches(v: &Vec<(usize, usize, usize, char)>) -> (r: Vec<(usize, usize, usize, char)>)
    requires
        forall|k: int| 0 <= k < v@.len() ==> (#[trigger] v@[k]).0 <= v@[k].1,
    ensures
        match_views(r@) == ordered_matches(match_views(v@)),
        forall|k: int| 0 <= k < r@.len() ==> (#[trigger] r@[k]).0 <= r@[k].1,
{
    let ghost mv = match_views(v@);
    let mut out: Vec<(usize, usize, usize, char)> = Vec::new();
    let mut i: usize = 0;
    proof {
        assert(mv.take(0) =~= Seq::<(int, int, int, char)>::empty());
        assert(match_views(out@) =~= Seq::<(int, int, int, char)>::empty());
    }
    while i < v.len()
        invariant
            i <= v@.len(),
            mv == match_views(v@),
            forall|k: int| 0 <= k < v@.len() ==> (#[trigger] v@[k]).0 <= v@[k].1,
            forall|k: int| 0 <= k < out@.len() ==> (#[trigger] out@[k]).0 <= out@[k].1,
            match_views(out@) == ordered_matches(mv.take(i as int)),
        decreases v.len() - i,
    {
        let x = v[i];
        let ghost xv = (x.0 as int, x.1 as int, x.2 as int, x.3);
        proof {
            assert(mv.take(i + 1).drop_last() =~= mv.take(i as int));
            assert(mv.take(i + 1).last() == xv);
        }
        let mut j: usize = out.len();
        proof {
            assert(match_views(out@).take(j as int) =~= match_views(out@));
        }
        while j > 0 && !before_exec(out[j - 1], x)
            invariant
                j <= out@.len(),
                x.0 <= x.1,
                xv == (x.0 as int, x.1 as int, x.2 as int, x.3),
                forall|k: int| 0 <= k < out@.len() ==> (#[trigger] out@[k]).0 <= out@[k].1,
                match_slot(match_views(out@), xv) == match_slot(match_views(out@).take(j as int), xv),
            decreases j,
        {
            proof {
                assert(match_views(out@).take(j as int).drop_last() =~= match_views(out@).take(j - 1));
                assert(match_views(out@).take(j as int).last() == match_views(out@)[j - 1]);
                assert(match_views(out@)[j - 1] == (out@[j - 1].0 as int, out@[j - 1].1 as int, out@[j - 1].2 as int, out@[j - 1].3));
            }
            j = j - 1;
        }
        proof {
            if j > 0 {
                assert(match_views(out@).take(j as int).last() == match_views(out@)[j - 1]);
                assert(match_views(out@)[j - 1] == (out@[j - 1].0 as int, out@[j - 1].1 as int, out@[j - 1].2 as int, out@[j - 1].3));
            }
        }
        let ghost before = out@;
        out.insert(j, x);
        proof {
            assert(match_views(out@) =~= match_views(before).insert(j as int, xv));
            assert forall|k: int| 0 <= k < out@.len() implies (#[trigger] out@[k]).0 <= out@[k].1 by {
                if k < j {
                    assert(out@[k] == before[k]);
                } else if k > j {
                    assert(out@[k] == before[k - 1]);
                }
            }
        }
        i = i + 1;
    }
    proof {
        assert(mv.take(i as int) =~= mv);
    }
    out
}

fn choose_matches(v: &Vec<(usize, usize, usize, char)>) -> (r: Vec<(usize, usize, usize, char)>)
    ensures
        match_views(r@) == chosen(match_views(v@)),
{
    let ghost mv = match_views(v@);
    let mut out: Vec<(usize, usize, usize, char)> = Vec::new();
    let mut i: usize = 0;
    proof {
        assert(mv.take(0) =~= Seq::<(int, int, int, char)>::empty());
        assert(match_views(out@) =~= Seq::<(int, int, int, char)>::empty());
    }
    while i < v.len()
        invariant
            i <= v@.len(),
            mv == match_views(v@),
            match_views(out@) == chosen(mv.take(i as int)),
        decreases v.len() - i,
    {
        let m = v[i];
        let ghost m_v = (m.0 as int, m.1 as int, m.2 as int, m.3);
        proof {
            assert(mv.take(i + 1).drop_last() =~= mv.take(i as int));
            assert(mv.take(i + 1).last() == m_v);
        }
        let mut free = true;
        let mut k: usize = 0;
        while k < out.len()
            invariant
                k <= out@.len(),
                m_v == (m.0 as int, m.1 as int, m.2 as int, m.3),
                free == (forall|q: int| 0 <= q < k ==> m_v.1 <= (#[trigger] match_views(out@)[q]).0 || m_v.0 >= match_views(out@)[q].1),
            decreases out.len() - k,
        {
            let s = out[k];
            proof {
                assert(match_views(out@)[k as int] == (s.0 as int, s.1 as int, s.2 as int, s.3));
            }
            if !(m.1 <= s.0 || m.0 >= s.1) {
                free = false;
            }
            k = k + 1;
        }
        if free {
            let ghost before = out@;
            out.push(m);
            proof {
                assert(match_views(out@) =~= match_views(before).push(m_v));
            }
        }
        i = i + 1;
    }
    proof {
        assert(mv.take(i as int) =~= mv);
    }
    out
}

fn order_suffixes(v: &Vec<(usize, char)>) -> (r: Vec<(usize, char)>)
    ensures
        suffix_views(r@) == ordered_suffixes(suffix_views(v@)),
{
    let ghost sv = suffix_views(v@);
    let mut out: Vec<(usize, char)> = Vec::new();
    let mut i: usize = 0;
    proof {
        assert(sv.take(0) =~= Seq::<(int, char)>::empty());
        assert(suffix_views(out@) =~= Seq::<(int, char)>::empty());
    }
    while i < v.len()
        invariant
            i <= v@.len(),
            sv == suffix_views(v@),
            suffix_views(out@) == ordered_suffixes(sv.take(i as int)),
        decreases v.len() - i,
    {
        let x = v[i];
        let ghost xv = (x.0 as int, x.1);
        proof {
            assert(sv.take(i + 1).drop_last() =~= sv.take(i as int));
            assert(sv.take(i + 1).last() == xv);
        }
        let mut j: usize = out.len();
        proof {
            assert(suffix_views(out@).take(j as int) =~= suffix_views(out@));
        }
        while j > 0 && !(out[j - 1].0 < x.0 || (out[j - 1].0 == x.0 && (out[j - 1].1 as u32) <= (x.1 as u32)))
            invariant
                j <= out@.len(),
                xv == (x.0 as int, x.1),
                suffix_slot(suffix_views(out@), xv) == suffix_slot(suffix_views(out@).take(j as int), xv),
            decreases j,
        {
            proof {
                assert(suffix_views(out@).take(j as int).drop_last() =~= suffix_views(out@).take(j - 1));
                assert(suffix_views(out@).take(j as int).last() == suffix_views(out@)[j - 1]);
                assert(suffix_views(out@)[j - 1] == (out@[j - 1].0 as int, out@[j - 1].1));
            }
            j = j - 1;
        }
        proof {
            if j > 0 {
                assert(suffix_views(out@).take(j as int).last() == suffix_views(out@)[j - 1]);
                assert(suffix_views(out@)[j - 1] == (out@[j - 1].0 as int, out@[j - 1].1));
            }
        }
        let ghost before = out@;
        out.insert(j, x);
        proof {
            assert(suffix_views(out@) =~= suffix_views(before).insert(j as int, xv));
        }
        i = i + 1;
    }
    proof {
        assert(sv.take(i as int) =~= sv);
    }
    out
}


proof fn lemma_joined_prefix(s: Seq<(Seq<char>, u32, bool)>, i: int)
    requires
        0 <= i <= s.len(),
    ensures
        joined(s.take(i)).len() <= joined(s).len(),
    decreases s.len() - i,
{
    if i < s.len() {
        assert(s.take(i + 1).drop_last() =~= s.take(i));
        lemma_joined_prefix(s, i + 1);
    } else {
        assert(s.take(i) =~= s);
    }
}

fn tag_span(tag: char, suffix_style: u32) -> (r: StyledSpan)
    ensures
        span_view(r) == (seq!['~', tag], suffix_style, false),
{
    let mut s = String::new();
    push_char(&mut s, '~');
    push_char(&mut s, tag);
    proof {
        assert(s@ =~= seq!['~', tag]);
    }
    StyledSpan { content: s, style: suffix_style, copyable: false }
}

fn rebuild(spans: &Vec<StyledSpan>, sfx: &Vec<(usize, char)>, suffix_style: u32) -> (r: Vec<StyledSpan>)
    requires
        joined(span_views(spans@)).len() <= usize::MAX,
    ensures
        span_views(r@) == placed(span_views(spans@), suffix_views(sfx@), 0, suffix_style),
{
    let ghost sv = span_views(spans@);
    let ghost xv = suffix_views(sfx@);
    let mut out: Vec<StyledSpan> = Vec::new();
    let mut offset: usize = 0;
    let mut p: usize = 0;
    let mut i: usize = 0;
    proof {
        assert(sv.skip(0) =~= sv);
        assert(xv.skip(0) =~= xv);
        assert(sv.take(0) =~= Seq::<(Seq<char>, u32, bool)>::empty());
        assert(span_views(out@) + placed(sv, xv, 0, suffix_style) =~= placed(sv, xv, 0, suffix_style));
    }
    while i < spans.len()
        invariant
            i <= spans@.len(),
            p <= sfx@.len(),
            sv == span_views(spans@),
            xv == suffix_views(sfx@),
            joined(sv).len() <= usize::MAX,
            offset == joined(sv.take(i as int)).len(),
            span_views(out@) + placed(sv.skip(i as int), xv.skip(p as int), offset as int, suffix_style) == placed(
                sv,
                xv,
                0,
                suffix_style,
            ),
        decreases spans.len() - i,
    {
        let c = chars_of(spans[i].content.as_str());
        let style = spans[i].style;
        let copyable = spans[i].copyable;
        let len = c.len();
        proof {
            assert(sv.take(i + 1).drop_last() =~= sv.take(i as int));
            assert(sv[i as int] == (c@, style, copyable));
            lemma_joined_prefix(sv, i + 1);
            assert(sv.skip(i as int)[0] == sv[i as int]);
            assert(sv.skip(i as int).drop_first() =~= sv.skip(i + 1));
        }
        let ghost p0 = p;
        let ghost o0 = span_views(out@);
        let ghost whole = place(c@, style, copyable, xv.skip(p as int), offset as int, 0, suffix_style);
        let mut local: usize = 0;
        while p < sfx.len() && sfx[p].0 <= offset + len
            invariant
                p0 <= p <= sfx@.len(),
                xv == suffix_views(sfx@),
                local <= len == c@.len(),
                offset + len <= usize::MAX,
                o0 + whole.0 == span_views(out@) + place(c@, style, copyable, xv.skip(p as int), offset as int, local as int, suffix_style).0,
                whole.1 == place(c@, style, copyable, xv.skip(p as int), offset as int, local as int, suffix_style).1,
            decreases sfx.len() - p,
        {
            let pos = sfx[p].0;
            let tag = sfx[p].1;
            proof {
                assert(xv.skip(p as int)[0] == (pos as int, tag));
                assert(xv.skip(p as int).drop_first() =~= xv.skip(p + 1));
            }
            let ghost mid = span_views(out@);
            let ghost old_local = local as int;
            if pos > offset + local {
                let cut = pos - offset;
                let piece = string_of_range(c.as_slice(), local, cut);
                out.push(StyledSpan { content: piece, style, copyable });
                local = cut;
            }
            let ghost mid2 = span_views(out@);
            out.push(tag_span(tag, suffix_style));
            proof {
                let cutv = pos - offset;
                let piece_v = if cutv > old_local {
                    seq![(c@.subrange(old_local, cutv), style, copyable)]
                } else {
                    Seq::<(Seq<char>, u32, bool)>::empty()
                };
                let tail = place(c@, style, copyable, xv.skip(p + 1), offset as int, local as int, suffix_style);
                assert(place(c@, style, copyable, xv.skip(p as int), offset as int, old_local, suffix_style) == (
                    piece_v + seq![(seq!['~', tag], suffix_style, false)] + tail.0,
                    tail.1,
                ));
                assert(mid2 =~= mid + piece_v);
                assert(span_views(out@) =~= mid2.push((seq!['~', tag], suffix_style, false)));
                assert(o0 + whole.0 =~= span_views(out@) + tail.0);
            }
            p = p + 1;
        }
        let ghost before_tail = span_views(out@);
        if local < len {
            let piece = string_of_range(c.as_slice(), local, len);
            out.push(StyledSpan { content: piece, style, copyable });
        }
        proof {
            let rest_v = place(c@, style, copyable, xv.skip(p as int), offset as int, local as int, suffix_style);
            assert(rest_v.1 == xv.skip(p as int));
            assert(span_views(out@) =~= before_tail + rest_v.0);
            assert(span_views(out@) =~= o0 + whole.0);
            assert(whole.1 == xv.skip(p as int));
            assert(placed(sv.skip(i as int), xv.skip(p0 as int), offset as int, suffix_style) == whole.0 + placed(
                sv.skip(i + 1),
                whole.1,
                offset + len,
                suffix_style,
            ));
            assert(joined(sv.take(i + 1)).len() == offset + len);
        }
        offset = offset + len;
        i = i + 1;
    }
    proof {
        assert(sv.skip(i as int) =~= Seq::<(Seq<char>, u32, bool)>::empty());
        assert(sv.take(i as int) =~= sv);
        assert(span_views(out@) + Seq::<(Seq<char>, u32, bool)>::empty() =~= span_views(out@));
    }
    out
}

/// Insert the tag suffixes of quick-copy links into a line's spans. The
/// line's text is the spans' contents in order; each chosen match gets a
/// non-copyable `~tag` span, in `suffix_style`, after it. With no links the
/// spans are returned as they are.
pub fn annotate(spans: Vec<StyledSpan>, links: &[TaggedLink], suffix_style: u32) -> (r: Vec<StyledSpan>)
    ensures
        span_views(r@) == annotated(span_views(spans@), link_views(links@), suffix_style),
{
    if links.len() == 0 {
        return spans;
    }
    let v = line_text(&spans);
    let ms = collect_matches(&v, links);
    let om = order_matches(&ms);
    let ch = choose_matches(&om);
    let ghost chv = match_views(ch@);
    let mut sx: Vec<(usize, char)> = Vec::new();
    let mut i: usize = 0;
    while i < ch.len()
        invariant
            i <= ch@.len(),
            chv == match_views(ch@),
            suffix_views(sx@) == chv.take(i as int).map_values(|m: (int, int, int, char)| (m.1, m.3)),
        decreases ch.len() - i,
    {
        let ghost before = sx@;
        sx.push((ch[i].1, ch[i].3));
        proof {
            assert(suffix_views(sx@) =~= suffix_views(before).push((chv[i as int].1, chv[i as int].3)));
            assert(chv.take(i + 1).map_values(|m: (int, int, int, char)| (m.1, m.3)) =~= chv.take(i as int).map_values(
                |m: (int, int, int, char)| (m.1, m.3),
            ).push((chv[i as int].1, chv[i as int].3)));
        }
        i = i + 1;
    }
    proof {
        assert(chv.take(i as int) =~= chv);
    }
    let so = order_suffixes(&sx);
    let vl = v.len();
    assert(joined(span_views(spans@)).len() == vl);
    rebuild(&spans, &so, suffix_style)
}

} // verus!
