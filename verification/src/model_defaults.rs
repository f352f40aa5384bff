//! Frontend-only effort preferences keyed by exact provider/model identities.
use vstd::prelude::*;

use crate::text::{all_white_space, any_whitespace, chars_of, owned, str_eq};

verus! {

#[derive(Clone, Debug, PartialEq, Eq)]
pub struct ModelDefaultEffort {
    pub provider: String,
    pub model: String,
    pub effort: String,
}

/// Saved default efforts; no two entries share a route.
#[derive(Clone, Debug, PartialEq, Eq)]
pub struct ModelDefaultEfforts {
    entries: Vec<ModelDefaultEffort>,
}

/// The effort saved for a route, first match.
pub open spec fn saved_effort(entries: Seq<ModelDefaultEffort>, provider: Seq<char>, model: Seq<char>) -> Option<Seq<char>>
    decreases entries.len(),
{
    if entries.len() == 0 {
        None
    } else if entries[0].provider@ == provider && entries[0].model@ == model {
        Some(entries[0].effort@)
    } else {
        saved_effort(entries.drop_first(), provider, model)
    }
}

/// A value that is empty once whitespace is trimmed.
pub open spec fn blank(s: Seq<char>) -> bool {
    all_white_space(s)
}

/// Every entry names a route and an effort, and no route repeats.
pub open spec fn valid_defaults(entries: Seq<ModelDefaultEffort>) -> bool {
    &&& forall|i: int|
        0 <= i < entries.len() ==> !blank((#[trigger] entries[i]).provider@) && !blank(
            entries[i].model@,
        ) && !blank(entries[i].effort@)
    &&& forall|i: int, j: int|
        0 <= j < i < entries.len() ==> !(#[trigger] entries[j].provider@ == #[trigger] entries[i].provider@
            && entries[j].model@ == entries[i].model@)
}

fn is_blank(s: &str) -> (r: bool)
    ensures
        r == blank(s@),
{
    let v = chars_of(s);
    let mut i: usize = 0;
    while i < v.len()
        invariant
            i <= v@.len(),
            v@ == s@,
            forall|k: int| 0 <= k < i ==> crate::text::is_white_space(#[trigger] v@[k]),
        decreases v.len() - i,
    {
        if !crate::text::is_whitespace(v[i]) {
            return false;
        }
        i = i + 1;
    }
    true
}

impl ModelDefaultEfforts {
    pub closed spec fn entries_spec(&self) -> Seq<ModelDefaultEffort> {
        self.entries@
    }

    pub fn new() -> (r: ModelDefaultEfforts)
        ensures
            r.entries_spec().len() == 0,
    {
        ModelDefaultEfforts { entries: Vec::new() }
    }

    /// Accept persisted entries that each name a route and an effort, with no
    /// route twice.
    pub fn from_entries(entries: Vec<ModelDefaultEffort>) -> (r: Result<ModelDefaultEfforts, String>)
        ensures
            r is Ok <==> valid_defaults(entries@),
            r matches Ok(d) ==> d.entries_spec() == entries@,
    {
        let mut i: usize = 0;
        while i < entries.len()
            invariant
                i <= entries@.len(),
                valid_defaults(entries@.take(i as int)),
            decreases entries.len() - i,
        {
            let entry = &entries[i];
            if is_blank(entry.provider.as_str()) || is_blank(entry.model.as_str()) || is_blank(
                entry.effort.as_str(),
            ) {
                proof {
                    assert(entries@[i as int] == *entry);
                }
                return Err(owned("model default effort requires nonempty provider, model and effort"));
            }
            let mut j: usize = 0;
            while j < i
                invariant
                    j <= i < entries@.len(),
                    forall|k: int|
                        0 <= k < j ==> !(entries@[k].provider@ == entries@[i as int].provider@
                            && entries@[k].model@ == entries@[i as int].model@),
                decreases i - j,
            {
                if str_eq(entries[j].provider.as_str(), entries[i].provider.as_str()) && str_eq(
                    entries[j].model.as_str(),
                    entries[i].model.as_str(),
                ) {
                    return Err(owned("duplicate model default effort route"));
                }
                j = j + 1;
            }
            proof {
                let t = entries@.take(i + 1);
                assert forall|a: int, b: int| 0 <= b < a < t.len() implies !(#[trigger] t[b].provider@
                    == #[trigger] t[a].provider@ && t[b].model@ == t[a].model@) by {
                    if a < i {
                        assert(entries@.take(i as int)[a] == t[a]);
                        assert(entries@.take(i as int)[b] == t[b]);
                    }
                }
            }
            i = i + 1;
        }
        proof {
            assert(entries@.take(i as int) =~= entries@);
        }
        Ok(ModelDefaultEfforts { entries })
    }

    /// The persisted entries.
    pub fn into_entries(self) -> (r: Vec<ModelDefaultEffort>)
        ensures
            r@ == self.entries_spec(),
    {
        self.entries
    }

    /// The effort saved for exactly this route.
    pub fn get(&self, provider: &str, model: &str) -> (r: Option<&str>)
        ensures
            match saved_effort(self.entries_spec(), provider@, model@) {
                Some(e) => r matches Some(s) && s@ == e,
                None => r is None,
            },
    {
        let mut i: usize = 0;
        proof {
            assert(self.entries@.skip(0) =~= self.entries@);
        }
        while i < self.entries.len()
            invariant
                i <= self.entries@.len(),
                saved_effort(self.entries@, provider@, model@) == saved_effort(
                    self.entries@.skip(i as int),
                    provider@,
                    model@,
                ),
            decreases self.entries.len() - i,
        {
            proof {
                assert(self.entries@.skip(i as int).drop_first() =~= self.entries@.skip(i + 1));
            }
            if str_eq(self.entries[i].provider.as_str(), provider) && str_eq(
                self.entries[i].model.as_str(),
                model,
            ) {
                return Some(self.entries[i].effort.as_str());
            }
            i = i + 1;
        }
        None
    }

    /// Save an effort for a route, replacing what that route had.
    pub fn set(&mut self, provider: &str, model: &str, effort: &str)
        ensures
            saved_effort(final(self).entries_spec(), provider@, model@) == Some(effort@),
            forall|p: Seq<char>, m: Seq<char>|
                !(p == provider@ && m == model@) ==> saved_effort(final(self).entries_spec(), p, m)
                    == saved_effort(old(self).entries_spec(), p, m),
    {
        let ghost old_entries = self.entries@;
        let mut i: usize = 0;
        while i < self.entries.len()
            invariant
                i <= self.entries@.len(),
                self.entries@ == old_entries,
                old(self).entries@ == old_entries,
                forall|k: int|
                    0 <= k < i ==> !(self.entries@[k].provider@ == provider@ && self.entries@[k].model@
                        == model@),
            decreases self.entries.len() - i,
        {
            if str_eq(self.entries[i].provider.as_str(), provider) && str_eq(
                self.entries[i].model.as_str(),
                model,
            ) {
                let entry = ModelDefaultEffort {
                    provider: owned(provider),
                    model: owned(model),
                    effort: owned(effort),
                };
                self.entries.set(i, entry);
                proof {
                    assert forall|p: Seq<char>, m: Seq<char>|
                        !(p == provider@ && m == model@) implies saved_effort(self.entries_spec(), p, m)
                        == saved_effort(old(self).entries_spec(), p, m) by {
                        lemma_saved_effort_update(old_entries, i as int, entry, p, m);
                    }
                    lemma_saved_effort_update(old_entries, i as int, entry, provider@, model@);
                    assert(self.entries@ == old_entries.update(i as int, entry));
                }
                return ;
            }
            i = i + 1;
        }
        let entry = ModelDefaultEffort {
            provider: owned(provider),
            model: owned(model),
            effort: owned(effort),
        };
        self.entries.push(entry);
        proof {
            assert forall|p: Seq<char>, m: Seq<char>|
                !(p == provider@ && m == model@) implies saved_effort(self.entries_spec(), p, m)
                == saved_effort(old(self).entries_spec(), p, m) by {
                lemma_saved_effort_push(old_entries, entry, p, m);
            }
            lemma_saved_effort_push(old_entries, entry, provider@, model@);
        }
    }
}

proof fn lemma_saved_effort_update(s: Seq<ModelDefaultEffort>, i: int, e: ModelDefaultEffort, p: Seq<char>, m: Seq<char>)
    requires
        0 <= i < s.len(),
        s[i].provider@ == e.provider@,
        s[i].model@ == e.model@,
        forall|k: int| 0 <= k < i ==> !(s[k].provider@ == e.provider@ && s[k].model@ == e.model@),
    ensures
        (p == e.provider@ && m == e.model@) ==> saved_effort(s.update(i, e), p, m) == Some(e.effort@),
        !(p == e.provider@ && m == e.model@) ==> saved_effort(s.update(i, e), p, m)
            == saved_effort(s, p, m),
    decreases s.len(),
{
    if i > 0 {
        lemma_saved_effort_update(s.drop_first(), i - 1, e, p, m);
        assert(s.update(i, e).drop_first() =~= s.drop_first().update(i - 1, e));
    } else {
        assert(s.update(i, e).drop_first() =~= s.drop_first());
    }
}

proof fn lemma_saved_effort_push(s: Seq<ModelDefaultEffort>, e: ModelDefaultEffort, p: Seq<char>, m: Seq<char>)
    requires
        forall|k: int| 0 <= k < s.len() ==> !(s[k].provider@ == e.provider@ && s[k].model@ == e.model@),
    ensures
        (p == e.provider@ && m == e.model@) ==> saved_effort(s.push(e), p, m) == Some(e.effort@),
        !(p == e.provider@ && m == e.model@) ==> saved_effort(s.push(e), p, m) == saved_effort(s, p, m),
    decreases s.len(),
{
    if s.len() > 0 {
        lemma_saved_effort_push(s.drop_first(), e, p, m);
        assert(s.push(e).drop_first() =~= s.drop_first().push(e));
        assert(s.push(e)[0] == s[0]);
    } else {
        assert(s.push(e).drop_first() =~= Seq::<ModelDefaultEffort>::empty());
        assert(s.push(e)[0] == e);
        assert(saved_effort(s.push(e).drop_first(), p, m) is None);
        assert(saved_effort(s, p, m) is None);
    }
}

} // verus!
