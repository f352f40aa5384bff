//! Persisted letter associations use exact provider/model identities.
use vstd::prelude::*;

use crate::text::{chars_of, is_white_space, is_whitespace, owned, str_eq};
use vstd::string::{StrSliceExecFns, StringSliceAdditionalSpecFns};
use vstd::utf8::encode_utf8;

verus! {

#[derive(Clone, Debug, PartialEq, Eq)]
pub struct ModelMark {
    pub letter: char,
    pub provider: String,
    pub model: String,
}

/// Letter marks; letters are lower-case ASCII and neither a letter nor a
/// route repeats.
#[derive(Clone, Debug, PartialEq, Eq)]
pub struct ModelMarks {
    marks: Vec<ModelMark>,
}

pub open spec fn is_ascii_lower(c: char) -> bool {
    'a' <= c && c <= 'z'
}

pub open spec fn same_route(m: ModelMark, provider: Seq<char>, model: Seq<char>) -> bool {
    m.provider@ == provider && m.model@ == model
}

pub open spec fn valid_marks(marks: Seq<ModelMark>) -> bool {
    &&& forall|i: int| 0 <= i < marks.len() ==> is_ascii_lower(#[trigger] marks[i].letter)
    &&& forall|i: int, j: int|
        0 <= j < i < marks.len() ==> #[trigger] marks[j].letter != #[trigger] marks[i].letter
            && !same_route(marks[j], marks[i].provider@, marks[i].model@)
}

/// The first mark with this letter.
pub open spec fn mark_for(marks: Seq<ModelMark>, letter: char) -> Option<ModelMark>
    decreases marks.len(),
{
    if marks.len() == 0 {
        None
    } else if marks[0].letter == letter {
        Some(marks[0])
    } else {
        mark_for(marks.drop_first(), letter)
    }
}

/// The letter of the first mark on this route.
pub open spec fn letter_for(marks: Seq<ModelMark>, provider: Seq<char>, model: Seq<char>) -> Option<char>
    decreases marks.len(),
{
    if marks.len() == 0 {
        None
    } else if same_route(marks[0], provider, model) {
        Some(marks[0].letter)
    } else {
        letter_for(marks.drop_first(), provider, model)
    }
}

/// A mark by value.
pub open spec fn mark_view(m: ModelMark) -> (char, Seq<char>, Seq<char>) {
    (m.letter, m.provider@, m.model@)
}

pub open spec fn marks_view(marks: Seq<ModelMark>) -> Seq<(char, Seq<char>, Seq<char>)> {
    marks.map_values(|m: ModelMark| mark_view(m))
}

/// The marks that neither use `letter` nor mark the route.
pub open spec fn others(marks: Seq<ModelMark>, letter: char, provider: Seq<char>, model: Seq<char>) -> Seq<(char, Seq<char>, Seq<char>)>
    decreases marks.len(),
{
    if marks.len() == 0 {
        Seq::empty()
    } else {
        let rest = others(marks.drop_last(), letter, provider, model);
        let m = marks.last();
        if m.letter != letter && !same_route(m, provider, model) {
            rest.push(mark_view(m))
        } else {
            rest
        }
    }
}

/// UTF-8 encoding distributes over concatenation.
pub proof fn lemma_encode_concat(a: Seq<char>, b: Seq<char>)
    ensures
        encode_utf8(a + b) == encode_utf8(a) + encode_utf8(b),
    decreases a.len(),
{
    if a.len() == 0 {
        assert(a + b =~= b);
        assert(encode_utf8(a) =~= Seq::<u8>::empty());
        assert(encode_utf8(a) + encode_utf8(b) =~= encode_utf8(b));
    } else {
        lemma_encode_concat(a.drop_first(), b);
        assert((a + b).drop_first() =~= a.drop_first() + b);
        assert((a + b)[0] == a[0]);
        assert(encode_utf8(a + b) =~= encode_utf8(a) + encode_utf8(b));
    }
}

/// Whitespace characters that start `s`.
pub open spec fn leading_ws(s: Seq<char>) -> nat
    decreases s.len(),
{
    if s.len() > 0 && is_white_space(s[0]) {
        1 + leading_ws(s.drop_first())
    } else {
        0
    }
}

/// `//x` at the start of a prompt, followed by nothing or whitespace: the
/// letter and the byte offset at which the prompt body starts.
pub open spec fn mark_prefix(text: Seq<char>) -> Option<(char, nat)> {
    if text.len() >= 3 && text[0] == '/' && text[1] == '/' && is_ascii_lower(text[2]) && (
    text.len() == 3 || is_white_space(text[3])) {
        Some((text[2], encode_utf8(text.take(3 + leading_ws(text.skip(3)) as int)).len()))
    } else {
        None
    }
}

/// The mark letter and the byte offset of the prompt body.
pub fn prefix(text: &str) -> (r: Option<(char, usize)>)
    ensures
        match mark_prefix(text@) {
            Some((c, n)) => r == Some((c, n as usize)) && n <= usize::MAX,
            None => r is None,
        },
{
    let v = chars_of(text);
    if v.len() < 3 || v[0] != '/' || v[1] != '/' || !('a' <= v[2] && v[2] <= 'z') {
        return None;
    }
    if v.len() > 3 && !is_whitespace(v[3]) {
        return None;
    }
    let mut k: usize = 3;
    proof {
        assert(v@.skip(3).skip(0) =~= v@.skip(3));
    }
    while k < v.len() && is_whitespace(v[k])
        invariant
            3 <= k <= v@.len(),
            leading_ws(v@.skip(3)) == (k - 3) + leading_ws(v@.skip(k as int)),
        decreases v.len() - k,
    {
        proof {
            assert(v@.skip(k as int).drop_first() =~= v@.skip(k + 1));
        }
        k = k + 1;
    }
    proof {
        if k < v@.len() {
            assert(v@.skip(k as int)[0] == v@[k as int]);
        }
    }
    let n = v.len();
    let rest = text.substring_char(k, n);
    let total = text.as_bytes().len();
    let rest_len = rest.as_bytes().len();
    proof {
        assert(v@ =~= v@.take(k as int) + v@.skip(k as int));
        lemma_encode_concat(v@.take(k as int), v@.skip(k as int));
        assert(rest@ =~= v@.skip(k as int));
    }
    let bytes = total - rest_len;
    Some((v[2], bytes))
}

/// `after` is `before` once `letter` was toggled on the route: a route's
/// own letter is removed, any other lower-case letter moves onto the route,
/// and other letters change nothing.
pub open spec fn toggled(before: Seq<ModelMark>, after: Seq<ModelMark>, letter: char, provider: Seq<char>, model: Seq<char>) -> bool {
    &&& !is_ascii_lower(letter) ==> after == before
    &&& is_ascii_lower(letter) ==> marks_view(after) == if letter_for(before, provider, model) == Some(letter) {
        others(before, letter, provider, model)
    } else {
        others(before, letter, provider, model).push((letter, provider, model))
    }
}

impl ModelMarks {
    pub closed spec fn marks_spec(&self) -> Seq<ModelMark> {
        self.marks@
    }

    pub fn new() -> (r: ModelMarks)
        ensures
            r.marks_spec().len() == 0,
    {
        ModelMarks { marks: Vec::new() }
    }

    /// Accept persisted marks whose letters are lower-case ASCII and where
    /// neither a letter nor a route repeats.
    pub fn from_marks(marks: Vec<ModelMark>) -> (r: Result<ModelMarks, String>)
        ensures
            r is Ok <==> valid_marks(marks@),
            r matches Ok(m) ==> m.marks_spec() == marks@,
    {
        let mut i: usize = 0;
        while i < marks.len()
            invariant
                i <= marks@.len(),
                valid_marks(marks@.take(i as int)),
            decreases marks.len() - i,
        {
            let letter = marks[i].letter;
            if !('a' <= letter && letter <= 'z') {
                return Err(owned("model mark must be a lowercase ASCII letter"));
            }
            let mut j: usize = 0;
            while j < i
                invariant
                    j <= i < marks@.len(),
                    forall|k: int|
                        0 <= k < j ==> marks@[k].letter != marks@[i as int].letter && !same_route(
                            marks@[k],
                            marks@[i as int].provider@,
                            marks@[i as int].model@,
                        ),
                decreases i - j,
            {
                if marks[j].letter == marks[i].letter || (str_eq(
                    marks[j].provider.as_str(),
                    marks[i].provider.as_str(),
                ) && str_eq(marks[j].model.as_str(), marks[i].model.as_str())) {
                    return Err(owned("duplicate model mark letter or route"));
                }
                j = j + 1;
            }
            proof {
                let t = marks@.take(i + 1);
                assert forall|a: int, b: int| 0 <= b < a < t.len() implies #[trigger] t[b].letter
                    != #[trigger] t[a].letter && !same_route(t[b], t[a].provider@, t[a].model@) by {
                    if a < i {
                        assert(marks@.take(i as int)[a] == t[a]);
                        assert(marks@.take(i as int)[b] == t[b]);
                    }
                }
                assert forall|a: int| 0 <= a < t.len() implies is_ascii_lower(#[trigger] t[a].letter) by {
                    if a < i {
                        assert(marks@.take(i as int)[a] == t[a]);
                    }
                }
            }
            i = i + 1;
        }
        proof {
            assert(marks@.take(i as int) =~= marks@);
        }
        Ok(ModelMarks { marks })
    }

    /// The persisted marks.
    pub fn into_marks(self) -> (r: Vec<ModelMark>)
        ensures
            r@ == self.marks_spec(),
    {
        self.marks
    }

    pub fn get(&self, letter: char) -> (r: Option<&ModelMark>)
        ensures
            match mark_for(self.marks_spec(), letter) {
                Some(m) => r == Some(&m),
                None => r is None,
            },
    {
        let mut i: usize = 0;
        proof {
            assert(self.marks@.skip(0) =~= self.marks@);
        }
        while i < self.marks.len()
            invariant
                i <= self.marks@.len(),
                mark_for(self.marks@, letter) == mark_for(self.marks@.skip(i as int), letter),
            decreases self.marks.len() - i,
        {
            proof {
                assert(self.marks@.skip(i as int).drop_first() =~= self.marks@.skip(i + 1));
            }
            if self.marks[i].letter == letter {
                return Some(&self.marks[i]);
            }
            i = i + 1;
        }
        None
    }

    pub fn letter(&self, provider: &str, model: &str) -> (r: Option<char>)
        ensures
            r == letter_for(self.marks_spec(), provider@, model@),
    {
        let mut i: usize = 0;
        proof {
            assert(self.marks@.skip(0) =~= self.marks@);
        }
        while i < self.marks.len()
            invariant
                i <= self.marks@.len(),
                letter_for(self.marks@, provider@, model@) == letter_for(
                    self.marks@.skip(i as int),
                    provider@,
                    model@,
                ),
            decreases self.marks.len() - i,
        {
            proof {
                assert(self.marks@.skip(i as int).drop_first() =~= self.marks@.skip(i + 1));
            }
            if str_eq(self.marks[i].provider.as_str(), provider) && str_eq(
                self.marks[i].model.as_str(),
                model,
            ) {
                return Some(self.marks[i].letter);
            }
            i = i + 1;
        }
        None
    }

    /// Mark a route with a letter, moving the letter and the route off any
    /// other mark; toggling a route's own letter removes it. Letters other
    /// than lower-case ASCII are ignored.
    pub fn toggle(&mut self, letter: char, provider: &str, model: &str)
        ensures
            toggled(old(self).marks_spec(), final(self).marks_spec(), letter, provider@, model@),
            !is_ascii_lower(letter) ==> final(self).marks_spec() == old(self).marks_spec(),
            is_ascii_lower(letter) ==> marks_view(final(self).marks_spec()) == if letter_for(
                old(self).marks_spec(),
                provider@,
                model@,
            ) == Some(letter) {
                others(old(self).marks_spec(), letter, provider@, model@)
            } else {
                others(old(self).marks_spec(), letter, provider@, model@).push(
                    (letter, provider@, model@),
                )
            },
    {
        if !('a' <= letter && letter <= 'z') {
            return ;
        }
        let remove = match self.letter(provider, model) {
            Some(l) => l == letter,
            None => false,
        };
        let ghost all = self.marks@;
        let mut kept: Vec<ModelMark> = Vec::new();
        let mut i: usize = 0;
        while i < self.marks.len()
            invariant
                i <= all.len(),
                self.marks@ == all,
                marks_view(kept@) == others(all.take(i as int), letter, provider@, model@),
            decreases self.marks.len() - i,
        {
            proof {
                assert(all.take(i + 1).drop_last() =~= all.take(i as int));
            }
            let m = &self.marks[i];
            if m.letter != letter && !(str_eq(m.provider.as_str(), provider) && str_eq(
                m.model.as_str(),
                model,
            )) {
                let ghost before = kept@;
                kept.push(ModelMark { letter: m.letter, provider: m.provider.clone(), model: m.model.clone() });
                proof {
                    assert(marks_view(kept@) =~= marks_view(before).push(mark_view(all[i as int])));
                }
            }
            i = i + 1;
        }
        proof {
            assert(all.take(i as int) =~= all);
        }
        if !remove {
            let ghost before = kept@;
            kept.push(ModelMark { letter, provider: owned(provider), model: owned(model) });
            proof {
                assert(marks_view(kept@) =~= marks_view(before).push((letter, provider@, model@)));
            }
        }
        self.marks = kept;
    }
}

} // verus!
