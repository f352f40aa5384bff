//! Shared normal/Reading Preview target, cache, and race reconciliation.
use vstd::prelude::*;

use crate::text::{copy_opt_string, copy_string, copy_strings, opt_string_eq, opt_view, strings_eq, strs_view};

verus! {

#[derive(Debug, Clone, Copy, PartialEq, Eq, Structural)]
pub enum PreviewPolicy {
    FollowLatestBlock,
    FollowReadingCursor,
}

impl Default for PreviewPolicy {
    fn default() -> (r: Self)
        ensures
            r == PreviewPolicy::FollowLatestBlock,
    {
        PreviewPolicy::FollowLatestBlock
    }
}

#[derive(Debug, Clone, Copy, PartialEq, Eq, Hash, PartialOrd, Ord)]
pub struct PreviewRequestId(pub u64);

#[derive(Debug, Clone, PartialEq, Eq, Hash, PartialOrd, Ord)]
pub struct PreviewKey(pub String);

#[derive(Debug, Clone, Copy, PartialEq, Eq, Hash, PartialOrd, Ord)]
pub struct PreviewRevision(pub u64);

#[derive(Debug, Clone, PartialEq, Eq)]
pub struct PreviewRequest {
    pub request_id: PreviewRequestId,
    pub key: PreviewKey,
    pub revision: PreviewRevision,
}

/// One event-supplied mutation fragment.
#[derive(Debug, Clone, PartialEq, Eq)]
pub struct MutationHunk {
    pub path: Option<String>,
    pub old: Option<String>,
    pub new: Option<String>,
    pub anchor_line: Option<usize>,
}

/// Event-supplied unified mutation text.
#[derive(Debug, Clone, PartialEq, Eq)]
pub struct MutationDiff {
    pub patch: String,
}

/// The leading part of an adapter-provided structured preview seed.
#[derive(Debug, Clone, PartialEq, Eq)]
pub enum ToolPreviewPrimary {
    Search { query: String, path: Option<String> },
    Command { command: String },
    Text { text: String },
}

/// The optional trailing part of a structured preview seed.
#[derive(Debug, Clone, PartialEq, Eq)]
pub enum ToolPreviewSecondary {
    Output { text: String },
}

/// Adapter-provided structured preview seed for common-format tools.
#[derive(Debug, Clone, PartialEq, Eq)]
pub struct ToolPreview {
    pub primary: ToolPreviewPrimary,
    pub secondary: Option<ToolPreviewSecondary>,
}

#[derive(Debug, Clone, PartialEq, Eq)]
pub enum PreviewContent {
    Link { label: Option<String>, url: String },
    Diff(String),
    Hunks(Vec<MutationHunk>),
    Lines { path: String, start: usize, lines: Vec<String> },
    SearchResult { query: String, matches: Vec<String> },
    Command(String),
    Path(String),
    Markdown(String),
    /// Live model-reasoning text, rendered with the muted tone.
    Reasoning(String),
    PlainText(String),
}

/// The values of a hunk, strings taken by their characters.
pub open spec fn hunk_view(h: MutationHunk) -> (Option<Seq<char>>, Option<Seq<char>>, Option<Seq<char>>, Option<usize>) {
    (opt_view(h.path), opt_view(h.old), opt_view(h.new), h.anchor_line)
}

pub open spec fn hunks_view(v: Seq<MutationHunk>) -> Seq<(Option<Seq<char>>, Option<Seq<char>>, Option<Seq<char>>, Option<usize>)> {
    v.map_values(|h: MutationHunk| hunk_view(h))
}

/// Two contents present the same values.
pub open spec fn same_content(a: PreviewContent, b: PreviewContent) -> bool {
    match (a, b) {
        (PreviewContent::Link { label: l1, url: u1 }, PreviewContent::Link { label: l2, url: u2 }) =>
            opt_view(l1) == opt_view(l2) && u1@ == u2@,
        (PreviewContent::Diff(x), PreviewContent::Diff(y)) => x@ == y@,
        (PreviewContent::Hunks(x), PreviewContent::Hunks(y)) => hunks_view(x@) == hunks_view(y@),
        (
            PreviewContent::Lines { path: p1, start: s1, lines: l1 },
            PreviewContent::Lines { path: p2, start: s2, lines: l2 },
        ) => p1@ == p2@ && s1 == s2 && strs_view(l1@) == strs_view(l2@),
        (
            PreviewContent::SearchResult { query: q1, matches: m1 },
            PreviewContent::SearchResult { query: q2, matches: m2 },
        ) => q1@ == q2@ && strs_view(m1@) == strs_view(m2@),
        (PreviewContent::Command(x), PreviewContent::Command(y)) => x@ == y@,
        (PreviewContent::Path(x), PreviewContent::Path(y)) => x@ == y@,
        (PreviewContent::Markdown(x), PreviewContent::Markdown(y)) => x@ == y@,
        (PreviewContent::Reasoning(x), PreviewContent::Reasoning(y)) => x@ == y@,
        (PreviewContent::PlainText(x), PreviewContent::PlainText(y)) => x@ == y@,
        _ => false,
    }
}

/// Two cached results present the same values.
pub open spec fn same_result(a: Result<PreviewContent, String>, b: Result<PreviewContent, String>) -> bool {
    match (a, b) {
        (Ok(x), Ok(y)) => same_content(x, y),
        (Err(x), Err(y)) => x@ == y@,
        _ => false,
    }
}

pub fn copy_hunk(h: &MutationHunk) -> (r: MutationHunk)
    ensures
        hunk_view(r) == hunk_view(*h),
{
    MutationHunk {
        path: copy_opt_string(&h.path),
        old: copy_opt_string(&h.old),
        new: copy_opt_string(&h.new),
        anchor_line: h.anchor_line,
    }
}

pub fn copy_hunks(v: &Vec<MutationHunk>) -> (r: Vec<MutationHunk>)
    ensures
        hunks_view(r@) == hunks_view(v@),
{
    let mut r: Vec<MutationHunk> = Vec::new();
    let mut i: usize = 0;
    while i < v.len()
        invariant
            i <= v.len(),
            r@.len() == i,
            forall|k: int| 0 <= k < i ==> hunk_view(#[trigger] r@[k]) == hunk_view(v@[k]),
        decreases v.len() - i,
    {
        r.push(copy_hunk(&v[i]));
        i = i + 1;
    }
    proof {
        assert(hunks_view(r@) =~= hunks_view(v@));
    }
    r
}

fn same_hunk(a: &MutationHunk, b: &MutationHunk) -> (r: bool)
    ensures
        r == (hunk_view(*a) == hunk_view(*b)),
{
    opt_string_eq(&a.path, &b.path) && opt_string_eq(&a.old, &b.old) && opt_string_eq(
        &a.new,
        &b.new,
    ) && a.anchor_line == b.anchor_line
}

fn same_hunks(a: &Vec<MutationHunk>, b: &Vec<MutationHunk>) -> (r: bool)
    ensures
        r == (hunks_view(a@) == hunks_view(b@)),
{
    if a.len() != b.len() {
        proof {
            assert(hunks_view(a@).len() != hunks_view(b@).len());
        }
        return false;
    }
    let mut i: usize = 0;
    while i < a.len()
        invariant
            a@.len() == b@.len(),
            i <= a@.len(),
            forall|k: int| 0 <= k < i ==> hunk_view(a@[k]) == hunk_view(b@[k]),
        decreases a.len() - i,
    {
        if !same_hunk(&a[i], &b[i]) {
            proof {
                assert(hunks_view(a@)[i as int] != hunks_view(b@)[i as int]);
            }
            return false;
        }
        i = i + 1;
    }
    proof {
        assert(hunks_view(a@) =~= hunks_view(b@));
    }
    true
}

impl PreviewContent {
    /// A copy presenting the same values.
    pub fn duplicate(&self) -> (r: PreviewContent)
        ensures
            same_content(r, *self),
    {
        match self {
            PreviewContent::Link { label, url } => PreviewContent::Link {
                label: copy_opt_string(label),
                url: copy_string(url),
            },
            PreviewContent::Diff(s) => PreviewContent::Diff(s.clone()),
            PreviewContent::Hunks(h) => PreviewContent::Hunks(copy_hunks(h)),
            PreviewContent::Lines { path, start, lines } => PreviewContent::Lines {
                path: path.clone(),
                start: *start,
                lines: copy_strings(lines),
            },
            PreviewContent::SearchResult { query, matches } => PreviewContent::SearchResult {
                query: query.clone(),
                matches: copy_strings(matches),
            },
            PreviewContent::Command(s) => PreviewContent::Command(s.clone()),
            PreviewContent::Path(s) => PreviewContent::Path(s.clone()),
            PreviewContent::Markdown(s) => PreviewContent::Markdown(s.clone()),
            PreviewContent::Reasoning(s) => PreviewContent::Reasoning(s.clone()),
            PreviewContent::PlainText(s) => PreviewContent::PlainText(s.clone()),
        }
    }

    /// Whether two contents present the same values.
    pub fn same_as(&self, other: &PreviewContent) -> (r: bool)
        ensures
            r == same_content(*self, *other),
    {
        match (self, other) {
            (
                PreviewContent::Link { label: l1, url: u1 },
                PreviewContent::Link { label: l2, url: u2 },
            ) => opt_string_eq(l1, l2) && *u1 == *u2,
            (PreviewContent::Diff(x), PreviewContent::Diff(y)) => *x == *y,
            (PreviewContent::Hunks(x), PreviewContent::Hunks(y)) => same_hunks(x, y),
            (
                PreviewContent::Lines { path: p1, start: s1, lines: l1 },
                PreviewContent::Lines { path: p2, start: s2, lines: l2 },
            ) => *p1 == *p2 && *s1 == *s2 && strings_eq(l1, l2),
            (
                PreviewContent::SearchResult { query: q1, matches: m1 },
                PreviewContent::SearchResult { query: q2, matches: m2 },
            ) => *q1 == *q2 && strings_eq(m1, m2),
            (PreviewContent::Command(x), PreviewContent::Command(y)) => *x == *y,
            (PreviewContent::Path(x), PreviewContent::Path(y)) => *x == *y,
            (PreviewContent::Markdown(x), PreviewContent::Markdown(y)) => *x == *y,
            (PreviewContent::Reasoning(x), PreviewContent::Reasoning(y)) => *x == *y,
            (PreviewContent::PlainText(x), PreviewContent::PlainText(y)) => *x == *y,
            _ => false,
        }
    }
}

fn copy_result(r: &Result<PreviewContent, String>) -> (c: Result<PreviewContent, String>)
    ensures
        same_result(c, *r),
{
    match r {
        Ok(content) => Ok(content.duplicate()),
        Err(error) => Err(error.clone()),
    }
}

#[derive(Debug, Clone, PartialEq, Eq)]
pub enum PreviewRef {
    Inline { key: PreviewKey, revision: PreviewRevision, content: PreviewContent },
    Deferred { key: PreviewKey, revision: PreviewRevision },
}

impl PreviewRef {
    pub open spec fn key_spec(self) -> PreviewKey {
        match self {
            PreviewRef::Inline { key, .. } => key,
            PreviewRef::Deferred { key, .. } => key,
        }
    }

    pub open spec fn revision_spec(self) -> PreviewRevision {
        match self {
            PreviewRef::Inline { revision, .. } => revision,
            PreviewRef::Deferred { revision, .. } => revision,
        }
    }

    pub fn key(&self) -> (r: &PreviewKey)
        ensures
            *r == self.key_spec(),
    {
        match self {
            PreviewRef::Inline { key, .. } => key,
            PreviewRef::Deferred { key, .. } => key,
        }
    }

    pub fn revision(&self) -> (r: PreviewRevision)
        ensures
            r == self.revision_spec(),
    {
        match self {
            PreviewRef::Inline { revision, .. } => *revision,
            PreviewRef::Deferred { revision, .. } => *revision,
        }
    }
}

/// Two references name the same key and revision and present the same content.
pub open spec fn same_ref(a: PreviewRef, b: PreviewRef) -> bool {
    match (a, b) {
        (
            PreviewRef::Inline { key: k1, revision: r1, content: c1 },
            PreviewRef::Inline { key: k2, revision: r2, content: c2 },
        ) => k1.0@ == k2.0@ && r1 == r2 && same_content(c1, c2),
        (
            PreviewRef::Deferred { key: k1, revision: r1 },
            PreviewRef::Deferred { key: k2, revision: r2 },
        ) => k1.0@ == k2.0@ && r1 == r2,
        _ => false,
    }
}

#[derive(Debug, Clone, PartialEq, Eq)]
pub struct PreviewTarget {
    /// Width-independent semantic owner identity.
    pub id: String,
    pub reference: PreviewRef,
}

/// Two optional targets are the same target.
pub open spec fn same_target(a: Option<PreviewTarget>, b: Option<PreviewTarget>) -> bool {
    match (a, b) {
        (Some(x), Some(y)) => x.id@ == y.id@ && same_ref(x.reference, y.reference),
        (None, None) => true,
        _ => false,
    }
}

/// The identities of two optional targets differ.
pub open spec fn identity_differs(a: Option<PreviewTarget>, b: Option<PreviewTarget>) -> bool {
    match (a, b) {
        (Some(x), Some(y)) => x.id@ != y.id@,
        (None, None) => false,
        _ => true,
    }
}

fn same_ref_exec(a: &PreviewRef, b: &PreviewRef) -> (r: bool)
    ensures
        r == same_ref(*a, *b),
{
    match (a, b) {
        (
            PreviewRef::Inline { key: k1, revision: r1, content: c1 },
            PreviewRef::Inline { key: k2, revision: r2, content: c2 },
        ) => k1.0 == k2.0 && r1.0 == r2.0 && c1.same_as(c2),
        (
            PreviewRef::Deferred { key: k1, revision: r1 },
            PreviewRef::Deferred { key: k2, revision: r2 },
        ) => k1.0 == k2.0 && r1.0 == r2.0,
        _ => false,
    }
}

impl PreviewTarget {
    /// The fallback target that previews a node's complete source.
    pub fn complete_source(id: String, source: String, revision: u64) -> (r: Self)
        ensures
            r.id == id,
            r.reference == (PreviewRef::Inline {
                key: r.reference.key_spec(),
                revision: PreviewRevision(revision),
                content: PreviewContent::Markdown(source),
            }),
            r.reference.key_spec().0@ == "source:"@ + id@,
    {
        let mut key = String::new();
        key.append("source:");
        key.append(id.as_str());
        PreviewTarget {
            reference: PreviewRef::Inline {
                key: PreviewKey(key),
                revision: PreviewRevision(revision),
                content: PreviewContent::Markdown(source),
            },
            id,
        }
    }
}

#[derive(Debug, Clone, PartialEq, Eq)]
pub enum PreviewState {
    Empty,
    Loading { request_id: PreviewRequestId, key: PreviewKey, revision: PreviewRevision },
    Ready(PreviewContent),
    Error(String),
}

impl Default for PreviewState {
    fn default() -> (r: Self)
        ensures
            r == PreviewState::Empty,
    {
        PreviewState::Empty
    }
}

/// One cached resolution.
#[derive(Debug)]
pub struct CacheEntry {
    pub key: PreviewKey,
    pub revision: PreviewRevision,
    pub result: Result<PreviewContent, String>,
}

pub open spec fn entry_matches(e: CacheEntry, key: Seq<char>, revision: u64) -> bool {
    e.key.0@ == key && e.revision.0 == revision
}

/// Resolved preview results keyed by `(key, revision)`.
#[derive(Debug)]
pub struct PreviewCache {
    entries: Vec<CacheEntry>,
}

impl PreviewCache {
    /// Every `(key, revision)` has at most one entry.
    #[verifier::type_invariant]
    pub closed spec fn wf(&self) -> bool {
        forall|i: int, j: int|
            0 <= i < j < self.entries@.len() ==> !entry_matches(
                self.entries@[i],
                self.entries@[j].key.0@,
                self.entries@[j].revision.0,
            )
    }

    pub closed spec fn has(&self, key: Seq<char>, revision: u64) -> bool {
        exists|i: int| 0 <= i < self.entries@.len() && entry_matches(self.entries@[i], key, revision)
    }

    /// The result cached under `(key, revision)`; meaningful when `has` holds.
    pub closed spec fn at(&self, key: Seq<char>, revision: u64) -> Result<PreviewContent, String> {
        self.entries@[choose|i: int|
            0 <= i < self.entries@.len() && entry_matches(self.entries@[i], key, revision)].result
    }

    pub fn new() -> (r: Self)
        ensures
            forall|k: Seq<char>, v: u64| !r.has(k, v),
    {
        PreviewCache { entries: Vec::new() }
    }

    fn position(&self, key: &PreviewKey, revision: PreviewRevision) -> (r: Option<usize>)
        ensures
            r is Some ==> r->0 < self.entries@.len() && entry_matches(
                self.entries@[r->0 as int],
                key.0@,
                revision.0,
            ),
            r is None ==> !self.has(key.0@, revision.0),
    {
        let mut i: usize = 0;
        while i < self.entries.len()
            invariant
                i <= self.entries@.len(),
                forall|k: int| 0 <= k < i ==> !entry_matches(self.entries@[k], key.0@, revision.0),
            decreases self.entries.len() - i,
        {
            if self.entries[i].revision.0 == revision.0 && self.entries[i].key.0 == key.0 {
                return Some(i);
            }
            i = i + 1;
        }
        None
    }

    proof fn lemma_at(&self, i: int, key: Seq<char>, revision: u64)
        requires
            self.wf(),
            0 <= i < self.entries@.len(),
            entry_matches(self.entries@[i], key, revision),
        ensures
            self.has(key, revision),
            self.at(key, revision) == self.entries@[i].result,
    {
        let j = choose|j: int|
            0 <= j < self.entries@.len() && entry_matches(self.entries@[j], key, revision);
        if j < i {
            assert(!entry_matches(self.entries@[j], self.entries@[i].key.0@, self.entries@[i].revision.0));
        } else if i < j {
            assert(!entry_matches(self.entries@[i], self.entries@[j].key.0@, self.entries@[j].revision.0));
        }
    }

    pub fn get(&self, key: &PreviewKey, revision: PreviewRevision) -> (r: Option<
        &Result<PreviewContent, String>,
    >)
        ensures
            r is Some <==> self.has(key.0@, revision.0),
            r is Some ==> *r->0 == self.at(key.0@, revision.0),
    {
        proof {
            use_type_invariant(self);
        }
        match self.position(key, revision) {
            Some(i) => {
                proof {
                    self.lemma_at(i as int, key.0@, revision.0);
                }
                Some(&self.entries[i].result)
            },
            None => None,
        }
    }

    pub fn insert(
        &mut self,
        key: PreviewKey,
        revision: PreviewRevision,
        result: Result<PreviewContent, String>,
    )
        ensures
            final(self).has(key.0@, revision.0),
            final(self).at(key.0@, revision.0) == result,
            forall|k: Seq<char>, v: u64|
                !(k == key.0@ && v == revision.0) ==> (final(self).has(k, v) == old(self).has(k, v)
                    && (old(self).has(k, v) ==> final(self).at(k, v) == old(self).at(k, v))),
    {
        proof {
            use_type_invariant(&*self);
        }
        let ghost key_view = key.0@;
        let ghost old_entries = self.entries@;
        match self.position(&key, revision) {
            Some(i) => {
                let mut entries: Vec<CacheEntry> = Vec::new();
                std::mem::swap(&mut entries, &mut self.entries);
                entries.set(i, CacheEntry { key, revision, result });
                self.entries = entries;
                proof {
                    self.lemma_at(i as int, key_view, revision.0);
                    assert forall|k: Seq<char>, v: u64|
                        !(k == key_view && v == revision.0) implies (self.has(k, v) == old(
                            self,
                        ).has(k, v) && (old(self).has(k, v) ==> self.at(k, v) == old(self).at(
                            k,
                            v,
                        ))) by {
                        if old(self).has(k, v) {
                            let j = choose|j: int|
                                0 <= j < old_entries.len() && entry_matches(old_entries[j], k, v);
                            old(self).lemma_at(j, k, v);
                            self.lemma_at(j, k, v);
                        }
                        if self.has(k, v) {
                            let j = choose|j: int|
                                0 <= j < self.entries@.len() && entry_matches(self.entries@[j], k, v);
                            assert(j != i);
                            assert(entry_matches(old_entries[j], k, v));
                        }
                    }
                }
            },
            None => {
                let mut entries: Vec<CacheEntry> = Vec::new();
                std::mem::swap(&mut entries, &mut self.entries);
                entries.push(CacheEntry { key, revision, result });
                self.entries = entries;
                proof {
                    let n = old_entries.len() as int;
                    self.lemma_at(n, key_view, revision.0);
                    assert forall|k: Seq<char>, v: u64|
                        !(k == key_view && v == revision.0) implies (self.has(k, v) == old(
                            self,
                        ).has(k, v) && (old(self).has(k, v) ==> self.at(k, v) == old(self).at(
                            k,
                            v,
                        ))) by {
                        if old(self).has(k, v) {
                            let j = choose|j: int|
                                0 <= j < old_entries.len() && entry_matches(old_entries[j], k, v);
                            old(self).lemma_at(j, k, v);
                            self.lemma_at(j, k, v);
                        }
                        if self.has(k, v) {
                            let j = choose|j: int|
                                0 <= j < self.entries@.len() && entry_matches(self.entries@[j], k, v);
                            assert(j != n);
                            assert(entry_matches(old_entries[j], k, v));
                        }
                    }
                }
            },
        }
    }

    /// Drops every revision cached under `key`.
    pub fn invalidate(&mut self, key: &PreviewKey)
        ensures
            forall|k: Seq<char>, v: u64|
                #![trigger final(self).has(k, v)]
                final(self).has(k, v) == (old(self).has(k, v) && k != key.0@),
            forall|k: Seq<char>, v: u64|
                final(self).has(k, v) ==> #[trigger] final(self).at(k, v) == old(self).at(k, v),
    {
        proof {
            use_type_invariant(&*self);
        }
        let ghost old_self = *old(self);
        let mut rest: Vec<CacheEntry> = Vec::new();
        std::mem::swap(&mut rest, &mut self.entries);
        let ghost original = rest@;
        let mut kept: Vec<CacheEntry> = Vec::new();
        let ghost mut origin: Seq<int> = Seq::empty();
        // Entries are popped from the back; the cache is keyed, so order is immaterial.
        while rest.len() > 0
            invariant
                rest@ == original.take(rest@.len() as int),
                rest@.len() <= original.len(),
                origin.len() == kept@.len(),
                forall|i: int|
                    0 <= i < origin.len() ==> rest@.len() <= #[trigger] origin[i] < original.len()
                        && kept@[i] == original[origin[i]],
                forall|i: int, j: int| 0 <= i < j < origin.len() ==> origin[i] > origin[j],
                forall|i: int| 0 <= i < kept@.len() ==> (#[trigger] kept@[i]).key.0@ != key.0@,
                forall|j: int|
                    rest@.len() <= j < original.len() && (#[trigger] original[j]).key.0@ != key.0@
                        ==> exists|i: int| 0 <= i < origin.len() && origin[i] == j,
                old_self.entries@ == original,
                old_self.wf(),
            decreases rest.len(),
        {
            let ghost n = rest@.len() as int;
            let ghost old_origin = origin;
            let entry = rest.pop().unwrap();
            proof {
                assert(original.take(n - 1) == original.take(n).drop_last());
            }
            if entry.key.0 != key.0 {
                kept.push(entry);
                proof {
                    origin = origin.push(n - 1);
                    assert(origin[origin.len() - 1] == n - 1);
                }
            }
            proof {
                assert forall|j: int|
                    rest@.len() <= j < original.len() && (#[trigger] original[j]).key.0@ != key.0@
                        implies exists|i: int| 0 <= i < origin.len() && origin[i] == j by {
                    if j == n - 1 {
                        assert(origin[origin.len() - 1] == j);
                    } else {
                        let i = choose|i: int| 0 <= i < old_origin.len() && old_origin[i] == j;
                        assert(origin[i] == j);
                    }
                }
            }
        }
        proof {
            assert forall|i: int, j: int|
                0 <= i < j < kept@.len() implies !entry_matches(
                    kept@[i],
                    kept@[j].key.0@,
                    kept@[j].revision.0,
                ) by {
                let a = origin[i];
                let b = origin[j];
                assert(a > b);
                assert(!entry_matches(original[b], original[a].key.0@, original[a].revision.0));
            }
        }
        self.entries = kept;
        proof {
            assert forall|k: Seq<char>, v: u64|
                #![trigger self.has(k, v)]
                self.has(k, v) == (old_self.has(k, v) && k != key.0@) by {
                if self.has(k, v) {
                    let i = choose|i: int| 0 <= i < self.entries@.len() && entry_matches(self.entries@[i], k, v);
                    assert(entry_matches(original[origin[i]], k, v));
                }
                if old_self.has(k, v) && k != key.0@ {
                    let j = choose|j: int| 0 <= j < original.len() && entry_matches(original[j], k, v);
                    let i = choose|i: int| 0 <= i < origin.len() && origin[i] == j;
                    assert(entry_matches(self.entries@[i], k, v));
                }
            }
            assert forall|k: Seq<char>, v: u64|
                self.has(k, v) implies #[trigger] self.at(k, v) == old_self.at(k, v) by {
                let i = choose|i: int| 0 <= i < self.entries@.len() && entry_matches(self.entries@[i], k, v);
                self.lemma_at(i, k, v);
                old_self.lemma_at(origin[i], k, v);
            }
        }
    }
}

#[derive(Debug, Clone, Copy, Default, PartialEq, Eq)]
pub struct PreviewWorkStats {
    pub rebuilds: u64,
    pub patches: u64,
    pub materialized_rows: u64,
}


impl PreviewWorkStats {
    pub fn zero() -> (r: Self)
        ensures
            r.rebuilds == 0 && r.patches == 0 && r.materialized_rows == 0,
    {
        PreviewWorkStats { rebuilds: 0, patches: 0, materialized_rows: 0 }
    }
}

/// The visible state that a cached result produces.
pub open spec fn shows_result(state: PreviewState, result: Result<PreviewContent, String>) -> bool {
    match (state, result) {
        (PreviewState::Ready(c), Ok(r)) => same_content(c, r),
        (PreviewState::Error(e), Err(r)) => e@ == r@,
        _ => false,
    }
}

/// Whether the pane is waiting on exactly this request.
pub open spec fn waits_on(state: PreviewState, request_id: u64, key: Seq<char>, revision: u64) -> bool {
    match state {
        PreviewState::Loading { request_id: r, key: k, revision: v } =>
            r.0 == request_id && k.0@ == key && v.0 == revision,
        _ => false,
    }
}

pub open spec fn sat_add(n: u64, k: nat) -> u64 {
    if n + k > u64::MAX { u64::MAX } else { (n + k) as u64 }
}

pub open spec fn sat_inc(n: u64) -> u64 {
    if n == u64::MAX { n } else { (n + 1) as u64 }
}

/// What `select` does with the target, the cache and the request counter.
pub open spec fn select_outcome(
    pre: PreviewPaneState,
    post: PreviewPaneState,
    target: Option<PreviewTarget>,
    r: Option<PreviewRequest>,
) -> bool {
    match target {
                None => r is None && post.state == PreviewState::Empty && post.cache
                    == pre.cache && post.next_id() == pre.next_id(),
                Some(t) => {
                    let key = t.reference.key_spec().0@;
                    let rev = t.reference.revision_spec().0;
                    if pre.cache.has(key, rev) {
                        &&& r is None
                        &&& shows_result(post.state, pre.cache.at(key, rev))
                        &&& post.cache == pre.cache
                        &&& post.next_id() == pre.next_id()
                    } else if t.reference is Inline {
                        &&& r is None
                        &&& shows_result(post.state, Ok(t.reference->content))
                        &&& post.cache.has(key, rev)
                        &&& same_result(post.cache.at(key, rev), Ok(t.reference->content))
                        &&& forall|k: Seq<char>, v: u64|
                            !(k == key && v == rev) ==> (post.cache.has(k, v)
                                == pre.cache.has(k, v) && (pre.cache.has(k, v)
                                ==> post.cache.at(k, v) == pre.cache.at(k, v)))
                        &&& post.next_id() == pre.next_id()
                    } else {
                        &&& r is Some
                        &&& r->0.request_id.0 == pre.next_id()
                        &&& r->0.key.0@ == key
                        &&& r->0.revision.0 == rev
                        &&& waits_on(post.state, pre.next_id(), key, rev)
                        &&& post.cache == pre.cache
                        &&& post.next_id() == (if pre.next_id() == u64::MAX {
                            0
                        } else {
                            (pre.next_id() + 1) as u64
                        })
                    }
                },
            }
}

#[derive(Debug)]
pub struct PreviewPaneState {
    pub policy: PreviewPolicy,
    pub target: Option<PreviewTarget>,
    pub state: PreviewState,
    pub scroll: usize,
    pub fullscreen: bool,
    pub cache: PreviewCache,
    pub next_request_id: u64,
    pub work: PreviewWorkStats,
}

impl Default for PreviewPaneState {
    fn default() -> (r: Self)
        ensures
            r.policy == PreviewPolicy::FollowLatestBlock,
            r.target is None,
            r.state == PreviewState::Empty,
            r.scroll == 0,
            !r.fullscreen,
            forall|k: Seq<char>, v: u64| !r.cache.has(k, v),
            r.next_id() == 0,
            r.work_spec() == (PreviewWorkStats { rebuilds: 0, patches: 0, materialized_rows: 0 }),
    {
        PreviewPaneState {
            policy: PreviewPolicy::FollowLatestBlock,
            target: None,
            state: PreviewState::Empty,
            scroll: 0,
            fullscreen: false,
            cache: PreviewCache::new(),
            next_request_id: 0,
            work: PreviewWorkStats::zero(),
        }
    }
}

impl PreviewPaneState {
    /// The identifier the next deferred resolution will carry.
    pub open spec fn next_id(&self) -> u64 {
        self.next_request_id
    }

    /// Work counters accumulated since they were last taken.
    pub open spec fn work_spec(&self) -> PreviewWorkStats {
        self.work
    }

    /// Reconcile one semantic target. Identity changes reset Preview scroll;
    /// revision-only refreshes preserve it. Returns deferred work when cache
    /// reuse or inline presentation cannot satisfy the target.
    pub fn select(&mut self, target: Option<PreviewTarget>) -> (r: Option<PreviewRequest>)
        ensures
            final(self).target == target,
            final(self).policy == old(self).policy,
            final(self).fullscreen == old(self).fullscreen,
            final(self).work_spec().materialized_rows == old(self).work_spec().materialized_rows,
            identity_differs(old(self).target, target) ==> final(self).scroll == 0
                && final(self).work_spec().rebuilds == sat_inc(old(self).work_spec().rebuilds)
                && final(self).work_spec().patches == old(self).work_spec().patches,
            !identity_differs(old(self).target, target) ==> final(self).scroll == old(self).scroll
                && final(self).work_spec().rebuilds == old(self).work_spec().rebuilds
                && final(self).work_spec().patches == (if same_target(old(self).target, target) {
                    old(self).work_spec().patches
                } else {
                    sat_inc(old(self).work_spec().patches)
                }),
            select_outcome(*old(self), *final(self), target, r),
    {
        let identity_changed = match (&self.target, &target) {
            (Some(a), Some(b)) => a.id != b.id,
            (None, None) => false,
            _ => true,
        };
        if identity_changed {
            self.scroll = 0;
            self.work.rebuilds = self.work.rebuilds.saturating_add(1);
        } else {
            let same = match (&self.target, &target) {
                (Some(a), Some(b)) => a.id == b.id && same_ref_exec(&a.reference, &b.reference),
                (None, None) => true,
                _ => false,
            };
            if !same {
                self.work.patches = self.work.patches.saturating_add(1);
            }
        }
        self.target = target;
        match &self.target {
            None => {
                self.state = PreviewState::Empty;
                None
            },
            Some(t) => {
                let key = t.reference.key();
                let revision = t.reference.revision();
                match self.cache.get(key, revision) {
                    Some(cached) => {
                        self.state = match cached {
                            Ok(content) => PreviewState::Ready(content.duplicate()),
                            Err(error) => PreviewState::Error(error.clone()),
                        };
                        return None;
                    },
                    None => {},
                }
                match &t.reference {
                    PreviewRef::Inline { content, .. } => {
                        let key_copy = PreviewKey(key.0.clone());
                        self.cache.insert(key_copy, revision, Ok(content.duplicate()));
                        self.state = PreviewState::Ready(content.duplicate());
                        None
                    },
                    PreviewRef::Deferred { .. } => {
                        let request_id = PreviewRequestId(self.next_request_id);
                        self.next_request_id = self.next_request_id.wrapping_add(1);
                        self.state = PreviewState::Loading {
                            request_id,
                            key: PreviewKey(key.0.clone()),
                            revision,
                        };
                        Some(PreviewRequest { request_id, key: PreviewKey(key.0.clone()), revision })
                    },
                }
            },
        }
    }

    /// Cache every bounded completion, but update visible state only when all
    /// race tokens still match the current loading target.
    pub fn complete(
        &mut self,
        request_id: PreviewRequestId,
        key: PreviewKey,
        revision: PreviewRevision,
        result: Result<PreviewContent, String>,
    ) -> (visible: bool)
        ensures
            visible == waits_on(old(self).state, request_id.0, key.0@, revision.0),
            final(self).cache.has(key.0@, revision.0),
            same_result(final(self).cache.at(key.0@, revision.0), result),
            forall|k: Seq<char>, v: u64|
                !(k == key.0@ && v == revision.0) ==> (final(self).cache.has(k, v) == old(
                    self,
                ).cache.has(k, v) && (old(self).cache.has(k, v) ==> final(self).cache.at(k, v)
                    == old(self).cache.at(k, v))),
            visible ==> shows_result(final(self).state, result) && final(self).work_spec().patches
                == sat_inc(old(self).work_spec().patches),
            !visible ==> final(self).state == old(self).state && final(self).work_spec()
                == old(self).work_spec(),
            final(self).work_spec().rebuilds == old(self).work_spec().rebuilds,
            final(self).work_spec().materialized_rows == old(self).work_spec().materialized_rows,
            final(self).target == old(self).target,
            final(self).scroll == old(self).scroll,
            final(self).next_id() == old(self).next_id(),
    {
        let visible = match &self.state {
            PreviewState::Loading {
                request_id: current_request,
                key: current_key,
                revision: current_revision,
            } => current_request.0 == request_id.0 && current_key.0 == key.0
                && current_revision.0 == revision.0,
            _ => false,
        };
        let shown = copy_result(&result);
        self.cache.insert(key, revision, result);
        if visible {
            self.work.patches = self.work.patches.saturating_add(1);
            self.state = match shown {
                Ok(content) => PreviewState::Ready(content),
                Err(error) => PreviewState::Error(error),
            };
        }
        visible
    }

    pub fn record_materialized_rows(&mut self, rows: usize)
        ensures
            final(self).work_spec().materialized_rows == sat_add(old(self).work_spec().materialized_rows, rows as nat),
            final(self).work_spec().rebuilds == old(self).work_spec().rebuilds,
            final(self).work_spec().patches == old(self).work_spec().patches,
    {
        let rows = rows as u64;
        self.work.materialized_rows = self.work.materialized_rows.saturating_add(rows);
    }

    /// Hands out the accumulated work counters and resets them.
    pub fn take_work_stats(&mut self) -> (r: PreviewWorkStats)
        ensures
            r == old(self).work_spec(),
            final(self).work_spec() == (PreviewWorkStats { rebuilds: 0, patches: 0, materialized_rows: 0 }),
    {
        let taken = self.work;
        self.work = PreviewWorkStats::zero();
        taken
    }
}

} // verus!
