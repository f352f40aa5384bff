//! Kernel-neutral tool presentation facts.
use vstd::prelude::*;

use crate::preview::{
    copy_hunk, copy_hunks, hunk_view, hunks_view, same_content, MutationHunk, PreviewContent,
    PreviewKey, PreviewRef, PreviewRevision, ToolPreview,
};
use crate::text::{
    chars_of, copy_opt_string, copy_strings, eq_ignore_ascii_case_spec, opt_view, push_char,
    string_of, strs_view, to_ascii_lowercase, ascii_lower,
};

verus! {

/// `s` without trailing `/` or `\` separators.
pub open spec fn strip_trailing_separators(s: Seq<char>) -> Seq<char>
    decreases s.len(),
{
    if s.len() > 0 && (s.last() == '/' || s.last() == '\\') {
        strip_trailing_separators(s.drop_last())
    } else {
        s
    }
}

/// `s` with every `\` written as `/`.
pub open spec fn forward_slashes(s: Seq<char>) -> Seq<char> {
    s.map_values(|c: char| if c == '\\' { '/' } else { c })
}

/// The normalized form of a path used for comparisons and display.
pub open spec fn normalize_path(s: Seq<char>) -> Seq<char> {
    forward_slashes(strip_trailing_separators(s))
}

/// Completed `/`-separated parts of `s` and the part still being read.
pub open spec fn split_acc(s: Seq<char>) -> (Seq<Seq<char>>, Seq<char>)
    decreases s.len(),
{
    if s.len() == 0 {
        (Seq::empty(), Seq::empty())
    } else {
        let (done, cur) = split_acc(s.drop_last());
        if s.last() == '/' {
            (done.push(cur), Seq::empty())
        } else {
            (done, cur.push(s.last()))
        }
    }
}

/// `s` split at every `/`, as `str::split('/')` yields it.
pub open spec fn split_slash(s: Seq<char>) -> Seq<Seq<char>> {
    split_acc(s).0.push(split_acc(s).1)
}

/// Parts joined with `/` between them.
pub open spec fn join_slash(parts: Seq<Seq<char>>) -> Seq<char>
    decreases parts.len(),
{
    if parts.len() == 0 {
        Seq::empty()
    } else if parts.len() == 1 {
        parts[0]
    } else {
        join_slash(parts.drop_last()) + seq!['/'] + parts.last()
    }
}

/// Whether the first parts of `path` are `workspace`'s, ASCII case aside.
pub open spec fn inside_workspace(path: Seq<Seq<char>>, workspace: Seq<Seq<char>>) -> bool {
    &&& path.len() >= workspace.len()
    &&& forall|i: int| 0 <= i < workspace.len() ==> eq_ignore_ascii_case_spec(#[trigger] path[i], workspace[i])
}

/// Workspace-relative display form of a path.
pub open spec fn workspace_relative(path: Seq<char>, workspace: Option<Seq<char>>) -> Seq<char> {
    let p = normalize_path(path);
    match workspace {
        None => p,
        Some(w) => {
            let pp = split_slash(p);
            let wp = split_slash(normalize_path(w));
            if inside_workspace(pp, wp) {
                let rel = pp.skip(wp.len() as int);
                if rel.len() == 0 {
                    seq!['.']
                } else {
                    join_slash(rel)
                }
            } else {
                p
            }
        },
    }
}

fn normalize_chars(s: &str) -> (r: Vec<char>)
    ensures
        r@ == normalize_path(s@),
{
    let v = chars_of(s);
    let mut end: usize = v.len();
    proof {
        assert(v@.take(end as int) =~= v@);
    }
    while end > 0 && (v[end - 1] == '/' || v[end - 1] == '\\')
        invariant
            end <= v@.len(),
            strip_trailing_separators(v@) == strip_trailing_separators(v@.take(end as int)),
        decreases end,
    {
        proof {
            assert(v@.take(end as int).drop_last() =~= v@.take(end - 1));
        }
        end = end - 1;
    }
    let mut r: Vec<char> = Vec::new();
    let mut i: usize = 0;
    while i < end
        invariant
            end <= v@.len(),
            i <= end,
            r@ == forward_slashes(v@.take(end as int)).take(i as int),
        decreases end - i,
    {
        let c = v[i];
        r.push(if c == '\\' { '/' } else { c });
        proof {
            assert(forward_slashes(v@.take(end as int)).take(i + 1) =~= forward_slashes(
                v@.take(end as int),
            ).take(i as int).push(if c == '\\' { '/' } else { c }));
        }
        i = i + 1;
    }
    proof {
        assert(forward_slashes(v@.take(end as int)).take(end as int) =~= forward_slashes(
            v@.take(end as int),
        ));
    }
    r
}

/// The character sequences of a sequence of character vectors.
pub open spec fn parts_view(v: Seq<Vec<char>>) -> Seq<Seq<char>> {
    v.map_values(|p: Vec<char>| p@)
}

pub(crate) fn split_parts(v: &Vec<char>) -> (r: Vec<Vec<char>>)
    ensures
        parts_view(r@) == split_slash(v@),
{
    let mut done: Vec<Vec<char>> = Vec::new();
    let mut cur: Vec<char> = Vec::new();
    let mut i: usize = 0;
    while i < v.len()
        invariant
            i <= v@.len(),
            parts_view(done@) == split_acc(v@.take(i as int)).0,
            cur@ == split_acc(v@.take(i as int)).1,
        decreases v.len() - i,
    {
        proof {
            assert(v@.take(i + 1).drop_last() =~= v@.take(i as int));
        }
        if v[i] == '/' {
            let finished = cur;
            cur = Vec::new();
            done.push(finished);
            proof {
                assert(parts_view(done@) =~= split_acc(v@.take(i + 1)).0);
            }
        } else {
            cur.push(v[i]);
        }
        i = i + 1;
    }
    proof {
        assert(v@.take(v@.len() as int) =~= v@);
    }
    done.push(cur);
    proof {
        assert(parts_view(done@) =~= split_slash(v@));
    }
    done
}

fn parts_eq_ignore_case(a: &Vec<char>, b: &Vec<char>) -> (r: bool)
    ensures
        r == eq_ignore_ascii_case_spec(a@, b@),
{
    if a.len() != b.len() {
        return false;
    }
    let mut i: usize = 0;
    while i < a.len()
        invariant
            a@.len() == b@.len(),
            i <= a@.len(),
            forall|k: int| 0 <= k < i ==> ascii_lower(#[trigger] a@[k]) == ascii_lower(b@[k]),
        decreases a.len() - i,
    {
        if to_ascii_lowercase(a[i]) != to_ascii_lowercase(b[i]) {
            return false;
        }
        i = i + 1;
    }
    true
}

/// Workspace-relative display form of a file path: paths inside the workspace
/// lose the workspace prefix, paths outside keep their absolute form. Both
/// sides are normalized to forward slashes and compared ASCII
/// case-insensitively. Pure string work — the client never reads the file.
pub fn workspace_relative_path(path: &str, workspace: Option<&str>) -> (r: String)
    ensures
        r@ == workspace_relative(path@, match workspace {
            Some(w) => Some(w@),
            None => None,
        }),
{
    let normalized_path = normalize_chars(path);
    let workspace = match workspace {
        None => {
            return string_of(normalized_path.as_slice());
        },
        Some(w) => w,
    };
    let normalized_workspace = normalize_chars(workspace);
    let path_parts = split_parts(&normalized_path);
    let workspace_parts = split_parts(&normalized_workspace);
    let ghost pp = parts_view(path_parts@);
    let ghost wp = parts_view(workspace_parts@);
    let mut inside = path_parts.len() >= workspace_parts.len();
    if inside {
        let mut i: usize = 0;
        while inside && i < workspace_parts.len()
            invariant
                pp == parts_view(path_parts@),
                wp == parts_view(workspace_parts@),
                path_parts@.len() >= workspace_parts@.len(),
                i <= workspace_parts@.len(),
                forall|k: int| 0 <= k < i ==> eq_ignore_ascii_case_spec(#[trigger] pp[k], wp[k]),
                !inside ==> i < workspace_parts@.len() && !eq_ignore_ascii_case_spec(pp[i as int], wp[i as int]),
            decreases workspace_parts.len() - i + (if inside { 1int } else { 0int }),
        {
            if !parts_eq_ignore_case(&path_parts[i], &workspace_parts[i]) {
                inside = false;
            } else {
                i = i + 1;
            }
        }
    }
    if !inside {
        return string_of(normalized_path.as_slice());
    }
    let start = workspace_parts.len();
    if start == path_parts.len() {
        let mut dot = String::new();
        push_char(&mut dot, '.');
        proof {
            assert(dot@ =~= seq!['.']);
        }
        return dot;
    }
    let mut out = String::new();
    let mut i: usize = start;
    while i < path_parts.len()
        invariant
            pp == parts_view(path_parts@),
            start < path_parts@.len(),
            start < i <= path_parts@.len() || (i == start && out@ == Seq::<char>::empty()),
            i > start ==> out@ == join_slash(pp.subrange(start as int, i as int)),
        decreases path_parts.len() - i,
    {
        let ghost before = out@;
        if i > start {
            push_char(&mut out, '/');
        }
        let part = &path_parts[i];
        let mut k: usize = 0;
        let ghost mid = out@;
        while k < part.len()
            invariant
                k <= part@.len(),
                out@ == mid + part@.take(k as int),
            decreases part.len() - k,
        {
            push_char(&mut out, part[k]);
            proof {
                assert(part@.take(k + 1) =~= part@.take(k as int).push(part@[k as int]));
            }
            k = k + 1;
        }
        proof {
            assert(part@.take(part@.len() as int) =~= part@);
            let sub = pp.subrange(start as int, i + 1);
            assert(sub.drop_last() =~= pp.subrange(start as int, i as int));
            if i == start {
                assert(sub.len() == 1);
            }
        }
        i = i + 1;
    }
    proof {
        assert(pp.subrange(start as int, pp.len() as int) =~= pp.skip(start as int));
    }
    out
}

#[derive(Debug, Clone, PartialEq, Eq, Hash)]
pub enum ToolCapability {
    Read,
    SkillRead,
    View,
    Edit,
    Insert,
    Replace,
    Search,
    Command,
    Create,
    Generic,
    Custom { namespace: String, name: String },
}

#[derive(Debug, Clone, Copy, PartialEq, Eq, Structural)]
pub enum ActivityState {
    Waiting,
    Running,
    Success,
    Failure,
    Cancelled,
}

#[derive(Debug, Clone, PartialEq, Eq)]
pub enum ToolReference {
    Path { path: String },
    Link { label: Option<String>, url: String },
    Text { text: String },
    Diff { path: Option<String>, diff: String },
    Lines { path: String, start: usize, lines: Vec<String> },
    SearchResult { query: String, matches: Vec<String> },
    Command { command: String },
    Markdown { source: String },
    PlainText { text: String },
    Hunks(Vec<MutationHunk>),
    Custom { namespace: String, kind: String, value: String },
}

/// Two references present the same values.
pub open spec fn same_reference(a: ToolReference, b: ToolReference) -> bool {
    match (a, b) {
        (ToolReference::Path { path: x }, ToolReference::Path { path: y }) => x@ == y@,
        (ToolReference::Link { label: l1, url: u1 }, ToolReference::Link { label: l2, url: u2 }) =>
            opt_view(l1) == opt_view(l2) && u1@ == u2@,
        (ToolReference::Text { text: x }, ToolReference::Text { text: y }) => x@ == y@,
        (ToolReference::Diff { path: p1, diff: d1 }, ToolReference::Diff { path: p2, diff: d2 }) =>
            opt_view(p1) == opt_view(p2) && d1@ == d2@,
        (
            ToolReference::Lines { path: p1, start: s1, lines: l1 },
            ToolReference::Lines { path: p2, start: s2, lines: l2 },
        ) => p1@ == p2@ && s1 == s2 && strs_view(l1@) == strs_view(l2@),
        (
            ToolReference::SearchResult { query: q1, matches: m1 },
            ToolReference::SearchResult { query: q2, matches: m2 },
        ) => q1@ == q2@ && strs_view(m1@) == strs_view(m2@),
        (ToolReference::Command { command: x }, ToolReference::Command { command: y }) => x@ == y@,
        (ToolReference::Markdown { source: x }, ToolReference::Markdown { source: y }) => x@ == y@,
        (ToolReference::PlainText { text: x }, ToolReference::PlainText { text: y }) => x@ == y@,
        (ToolReference::Hunks(x), ToolReference::Hunks(y)) => hunks_view(x@) == hunks_view(y@),
        (
            ToolReference::Custom { namespace: n1, kind: k1, value: v1 },
            ToolReference::Custom { namespace: n2, kind: k2, value: v2 },
        ) => n1@ == n2@ && k1@ == k2@ && v1@ == v2@,
        _ => false,
    }
}

/// The optional workspace as characters.
pub open spec fn opt_str_view(w: Option<&str>) -> Option<Seq<char>> {
    match w {
        Some(s) => Some(s@),
        None => None,
    }
}

/// A hunk's path in its workspace-relative form.
pub open spec fn relative_hunk_path(h: MutationHunk, workspace: Option<Seq<char>>) -> Option<Seq<char>> {
    match h.path {
        Some(p) => Some(workspace_relative(p@, workspace)),
        None => None,
    }
}

/// The content a reference previews, if it previews any.
pub open spec fn reference_content_matches(r: ToolReference, c: Option<PreviewContent>) -> bool {
    match (r, c) {
        (ToolReference::Path { path }, Some(PreviewContent::Path(p))) => p@ == path@,
        (ToolReference::Link { label, url }, Some(PreviewContent::Link { label: l, url: u })) =>
            opt_view(l) == opt_view(label) && u@ == url@,
        (ToolReference::Text { text }, Some(PreviewContent::PlainText(t))) => t@ == text@,
        (ToolReference::PlainText { text }, Some(PreviewContent::PlainText(t))) => t@ == text@,
        (ToolReference::Diff { diff, .. }, Some(PreviewContent::Diff(d))) => d@ == diff@,
        (ToolReference::Hunks(hunks), Some(PreviewContent::Hunks(h))) => hunks_view(h@) == hunks_view(hunks@),
        (
            ToolReference::Lines { path, start, lines },
            Some(PreviewContent::Lines { path: p, start: s, lines: l }),
        ) => p@ == path@ && s == start && strs_view(l@) == strs_view(lines@),
        (
            ToolReference::SearchResult { query, matches },
            Some(PreviewContent::SearchResult { query: q, matches: m }),
        ) => q@ == query@ && strs_view(m@) == strs_view(matches@),
        (ToolReference::Command { command }, Some(PreviewContent::Command(c))) => c@ == command@,
        (ToolReference::Markdown { source }, Some(PreviewContent::Markdown(m))) => m@ == source@,
        (ToolReference::Custom { .. }, None) => true,
        _ => false,
    }
}

impl ToolReference {
    /// A copy presenting the same values.
    pub fn duplicate(&self) -> (r: ToolReference)
        ensures
            same_reference(r, *self),
    {
        match self {
            ToolReference::Path { path } => ToolReference::Path { path: path.clone() },
            ToolReference::Link { label, url } => ToolReference::Link {
                label: copy_opt_string(label),
                url: url.clone(),
            },
            ToolReference::Text { text } => ToolReference::Text { text: text.clone() },
            ToolReference::Diff { path, diff } => ToolReference::Diff {
                path: copy_opt_string(path),
                diff: diff.clone(),
            },
            ToolReference::Lines { path, start, lines } => ToolReference::Lines {
                path: path.clone(),
                start: *start,
                lines: copy_strings(lines),
            },
            ToolReference::SearchResult { query, matches } => ToolReference::SearchResult {
                query: query.clone(),
                matches: copy_strings(matches),
            },
            ToolReference::Command { command } => ToolReference::Command { command: command.clone() },
            ToolReference::Markdown { source } => ToolReference::Markdown { source: source.clone() },
            ToolReference::PlainText { text } => ToolReference::PlainText { text: text.clone() },
            ToolReference::Hunks(h) => ToolReference::Hunks(copy_hunks(h)),
            ToolReference::Custom { namespace, kind, value } => ToolReference::Custom {
                namespace: namespace.clone(),
                kind: kind.clone(),
                value: value.clone(),
            },
        }
    }

    /// Path-bearing references rewritten to their workspace-relative display
    /// form; every other reference is returned unchanged.
    pub fn relativized(&self, workspace: Option<&str>) -> (r: ToolReference)
        ensures
            match (*self, r) {
                (ToolReference::Path { path }, ToolReference::Path { path: p }) =>
                    p@ == workspace_relative(path@, opt_str_view(workspace)),
                (
                    ToolReference::Lines { path, start, lines },
                    ToolReference::Lines { path: p, start: s, lines: l },
                ) => p@ == workspace_relative(path@, opt_str_view(workspace)) && s == start
                    && strs_view(l@) == strs_view(lines@),
                (ToolReference::Hunks(hunks), ToolReference::Hunks(h)) => {
                    &&& h@.len() == hunks@.len()
                    &&& forall|i: int|
                        0 <= i < hunks@.len() ==> {
                            &&& opt_view(#[trigger] h@[i].path) == relative_hunk_path(
                                hunks@[i],
                                opt_str_view(workspace),
                            )
                            &&& opt_view(h@[i].old) == opt_view(hunks@[i].old)
                            &&& opt_view(h@[i].new) == opt_view(hunks@[i].new)
                            &&& h@[i].anchor_line == hunks@[i].anchor_line
                        }
                },
                (ToolReference::Path { .. }, _) => false,
                (ToolReference::Lines { .. }, _) => false,
                (ToolReference::Hunks(_), _) => false,
                (other, r) => same_reference(r, other),
            },
    {
        match self {
            ToolReference::Path { path } => ToolReference::Path {
                path: workspace_relative_path(path.as_str(), workspace),
            },
            ToolReference::Lines { path, start, lines } => ToolReference::Lines {
                path: workspace_relative_path(path.as_str(), workspace),
                start: *start,
                lines: copy_strings(lines),
            },
            ToolReference::Hunks(hunks) => {
                let mut out: Vec<MutationHunk> = Vec::new();
                let mut i: usize = 0;
                while i < hunks.len()
                    invariant
                        i <= hunks@.len(),
                        out@.len() == i,
                        forall|k: int|
                            0 <= k < i ==> {
                                &&& opt_view(#[trigger] out@[k].path) == relative_hunk_path(
                                    hunks@[k],
                                    opt_str_view(workspace),
                                )
                                &&& opt_view(out@[k].old) == opt_view(hunks@[k].old)
                                &&& opt_view(out@[k].new) == opt_view(hunks@[k].new)
                                &&& out@[k].anchor_line == hunks@[k].anchor_line
                            },
                    decreases hunks.len() - i,
                {
                    let hunk = &hunks[i];
                    let path = match &hunk.path {
                        Some(p) => Some(workspace_relative_path(p.as_str(), workspace)),
                        None => None,
                    };
                    out.push(MutationHunk {
                        path,
                        old: copy_opt_string(&hunk.old),
                        new: copy_opt_string(&hunk.new),
                        anchor_line: hunk.anchor_line,
                    });
                    i = i + 1;
                }
                ToolReference::Hunks(out)
            },
            _ => self.duplicate(),
        }
    }

    /// The preview reference a tool reference offers under `key_prefix`.
    /// File references preview the path itself rather than its contents: the
    /// client never reads the file for a Preview.
    pub fn preview_reference(&self, key_prefix: &str, revision: PreviewRevision) -> (r: Option<
        PreviewRef,
    >)
        ensures
            r is Some ==> r->0 is Inline && r->0->Inline_key.0@ == key_prefix@
                && r->0->Inline_revision == revision,
            match *self {
                ToolReference::Path { path } => r is Some && r->0->Inline_content
                    == r->0->Inline_content && same_content(
                    r->0->Inline_content,
                    PreviewContent::Path(path),
                ),
                ToolReference::Lines { path, lines, .. } => if lines@.len() == 0 {
                    r is Some && same_content(r->0->Inline_content, PreviewContent::Path(path))
                } else {
                    r is Some && reference_content_matches(*self, Some(r->0->Inline_content))
                },
                ToolReference::Custom { .. } => r is None,
                _ => r is Some && reference_content_matches(*self, Some(r->0->Inline_content)),
            },
    {
        match self {
            ToolReference::Path { path } => Some(PreviewRef::Inline {
                key: PreviewKey(key_prefix.to_owned()),
                revision,
                content: PreviewContent::Path(path.clone()),
            }),
            ToolReference::Lines { path, lines, .. } if lines.len() == 0 => Some(PreviewRef::Inline {
                key: PreviewKey(key_prefix.to_owned()),
                revision,
                content: PreviewContent::Path(path.clone()),
            }),
            _ => match self.preview_content() {
                Some(content) => Some(PreviewRef::Inline {
                    key: PreviewKey(key_prefix.to_owned()),
                    revision,
                    content,
                }),
                None => None,
            },
        }
    }

    /// The content a reference previews; custom references preview nothing.
    pub fn preview_content(&self) -> (r: Option<PreviewContent>)
        ensures
            reference_content_matches(*self, r),
    {
        match self {
            ToolReference::Path { path } => Some(PreviewContent::Path(path.clone())),
            ToolReference::Link { label, url } => Some(PreviewContent::Link {
                label: copy_opt_string(label),
                url: url.clone(),
            }),
            ToolReference::Text { text } => Some(PreviewContent::PlainText(text.clone())),
            ToolReference::PlainText { text } => Some(PreviewContent::PlainText(text.clone())),
            ToolReference::Diff { diff, .. } => Some(PreviewContent::Diff(diff.clone())),
            ToolReference::Hunks(hunks) => Some(PreviewContent::Hunks(copy_hunks(hunks))),
            ToolReference::Lines { path, start, lines } => Some(PreviewContent::Lines {
                path: path.clone(),
                start: *start,
                lines: copy_strings(lines),
            }),
            ToolReference::SearchResult { query, matches } => Some(PreviewContent::SearchResult {
                query: query.clone(),
                matches: copy_strings(matches),
            }),
            ToolReference::Command { command } => Some(PreviewContent::Command(command.clone())),
            ToolReference::Markdown { source } => Some(PreviewContent::Markdown(source.clone())),
            ToolReference::Custom { .. } => None,
        }
    }
}

#[derive(Debug, Clone, PartialEq, Eq)]
pub struct ToolItem {
    pub id: String,
    pub label: String,
    pub reference: ToolReference,
}

#[derive(Debug, Clone, PartialEq, Eq)]
pub struct ToolActivity {
    pub id: String,
    pub capability: ToolCapability,
    pub label: String,
    pub summary: String,
    pub state: ActivityState,
    pub reference: Option<ToolReference>,
    pub items: Vec<ToolItem>,
    /// Adapter-provided structured preview seed (common-format tools).
    pub preview: Option<ToolPreview>,
}

} // verus!
