//! Quick-copy links: validated link candidates of the selected transcript
//! item, each tagged with one key.
use vstd::prelude::*;

pub mod annotation;
pub mod discovery;

pub use self::annotation::{annotate, StyledSpan};
pub use self::discovery::{discover, discover_from_events};
use vstd::utf8::encode_utf8;

use crate::display::DisplayId;
use crate::agent::tool::{forward_slashes, join_slash, parts_view, split_parts, split_slash};
use crate::command_catalog::{find_char, first_index};
use crate::text::{
    alphabetic, chars_of, contains_char, has_char, has_prefix, is_alphabetic, is_control, is_control_char, is_white_space,
    is_whitespace, starts_with, str_eq, string_of, string_of_range,
};

verus! {

/// The tag keys, in order.
pub const TAGS: &'static str = "1234567890abcdefghijklmnopqrstuvwxyz";

/// At most this many candidates are validated per item.
pub const MAX_CANDIDATES: usize = 256;

#[derive(Debug, Clone, Copy, PartialEq, Eq, Structural)]
pub enum PathConfidence {
    High,
    Medium,
}

#[derive(Debug, Clone, PartialEq, Eq)]
pub enum LinkTargetKind {
    Uri,
    AbsolutePath,
    WorkspaceRelative { normalized: String },
}

#[derive(Debug, Clone, PartialEq, Eq)]
pub struct LinkCandidate {
    pub target: String,
    pub kind: LinkTargetKind,
    pub confidence: PathConfidence,
    pub retain_missing: bool,
}

/// Alternative readings of one piece of text; the first accepted wins.
#[derive(Debug, Clone, PartialEq, Eq)]
pub struct LinkCandidateGroup {
    pub alternatives: Vec<LinkCandidate>,
    pub require_existing: bool,
}

#[derive(Debug, Clone, Copy, PartialEq, Eq, Structural)]
pub enum PathValidation {
    NotRequired,
    Exists,
    Missing,
    Rejected,
}

/// The outcome of validating each alternative of a group.
#[derive(Debug, Clone, PartialEq, Eq)]
pub struct CandidateGroupValidation {
    pub alternatives: Vec<PathValidation>,
}

/// A copyable target and the key that copies it.
#[derive(Debug, Clone, PartialEq, Eq)]
pub struct TaggedLink {
    pub target: String,
    pub tag: char,
}

/// The groups of one item, to be validated against a working directory.
#[derive(Debug, Clone)]
pub struct LinkValidationRequest {
    pub generation: u64,
    pub cwd: String,
    pub groups: Vec<LinkCandidateGroup>,
}

/// Whether a validation accepts an alternative: a URI needs no check, a
/// path must exist.
pub open spec fn accepted(c: LinkCandidate, v: PathValidation) -> bool {
    match c.kind {
        LinkTargetKind::Uri => v == PathValidation::NotRequired,
        _ => v == PathValidation::Exists,
    }
}

/// Index of the first accepted alternative from `i` on, or the length.
pub open spec fn first_accepted(cs: Seq<LinkCandidate>, vs: Seq<PathValidation>, i: int) -> int
    decreases cs.len() - i,
{
    if i >= cs.len() {
        cs.len() as int
    } else if accepted(cs[i], vs[i]) {
        i
    } else {
        first_accepted(cs, vs, i + 1)
    }
}

/// The candidate a validated group resolves to: the first accepted
/// alternative; else a lone, optional, workspace-relative path that may be
/// kept while missing; else none. Mismatched lengths resolve to none.
pub open spec fn resolved(g: LinkCandidateGroup, v: CandidateGroupValidation) -> Option<LinkCandidate> {
    let cs = g.alternatives@;
    let vs = v.alternatives@;
    if cs.len() != vs.len() {
        None
    } else if first_accepted(cs, vs, 0) < cs.len() {
        Some(cs[first_accepted(cs, vs, 0)])
    } else if g.require_existing || cs.len() != 1 {
        None
    } else if cs[0].kind is WorkspaceRelative && cs[0].retain_missing && vs[0] == PathValidation::Missing {
        Some(cs[0])
    } else {
        None
    }
}

/// The resolved targets of the groups paired with validations, in order,
/// each kept at its first occurrence.
pub open spec fn resolved_targets(gs: Seq<LinkCandidateGroup>, vs: Seq<CandidateGroupValidation>) -> Seq<Seq<char>>
    decreases gs.len(),
{
    if gs.len() == 0 || vs.len() == 0 {
        Seq::empty()
    } else {
        let n = if gs.len() <= vs.len() { gs.len() } else { vs.len() };
        let prev = resolved_targets(gs.take(n - 1), vs.take(n - 1));
        match resolved(gs[n - 1], vs[n - 1]) {
            Some(c) => if prev.contains(c.target@) {
                prev
            } else {
                prev.push(c.target@)
            },
            None => prev,
        }
    }
}

fn accepts(c: &LinkCandidate, v: PathValidation) -> (r: bool)
    ensures
        r == accepted(*c, v),
{
    match c.kind {
        LinkTargetKind::Uri => matches!(v, PathValidation::NotRequired),
        _ => matches!(v, PathValidation::Exists),
    }
}

/// The candidate a validated group resolves to.
pub fn resolve_group<'a>(group: &'a LinkCandidateGroup, validation: &CandidateGroupValidation) -> (r: Option<&'a LinkCandidate>)
    ensures
        match r {
            Some(c) => resolved(*group, *validation) == Some(*c),
            None => resolved(*group, *validation) is None,
        },
{
    let cs = &group.alternatives;
    let vs = &validation.alternatives;
    if cs.len() != vs.len() {
        return None;
    }
    let mut i: usize = 0;
    while i < cs.len()
        invariant
            i <= cs@.len(),
            cs@.len() == vs@.len(),
            cs@ == group.alternatives@,
            vs@ == validation.alternatives@,
            first_accepted(cs@, vs@, 0) == first_accepted(cs@, vs@, i as int),
        decreases cs.len() - i,
    {
        if accepts(&cs[i], vs[i]) {
            return Some(&cs[i]);
        }
        i = i + 1;
    }
    if group.require_existing || cs.len() != 1 {
        return None;
    }
    let c = &cs[0];
    let keep = match c.kind {
        LinkTargetKind::WorkspaceRelative { .. } => c.retain_missing && matches!(vs[0], PathValidation::Missing),
        _ => false,
    };
    if keep {
        Some(c)
    } else {
        None
    }
}


/// The path parts after resolving `.` and `..`; none when `..` climbs
/// above the start or a part holds `:`.
pub open spec fn resolve_parts(segs: Seq<Seq<char>>) -> Option<Seq<Seq<char>>>
    decreases segs.len(),
{
    if segs.len() == 0 {
        Some(Seq::empty())
    } else {
        match resolve_parts(segs.drop_last()) {
            None => None,
            Some(acc) => {
                let p = segs.last();
                if p.len() == 0 || p == seq!['.'] {
                    Some(acc)
                } else if p == seq!['.', '.'] {
                    if acc.len() == 0 {
                        None
                    } else {
                        Some(acc.drop_last())
                    }
                } else if has_char(p, ':') {
                    None
                } else {
                    Some(acc.push(p))
                }
            },
        }
    }
}

/// Once a prefix of the parts fails to resolve, every longer prefix fails.
proof fn lemma_resolve_none_extends(segs: Seq<Seq<char>>, k: int)
    requires
        0 <= k <= segs.len(),
        resolve_parts(segs.take(k)) is None,
    ensures
        resolve_parts(segs) is None,
    decreases segs.len() - k,
{
    if k < segs.len() {
        assert(segs.take(k + 1).drop_last() =~= segs.take(k));
        lemma_resolve_none_extends(segs, k + 1);
    } else {
        assert(segs.take(k) =~= segs);
    }
}

/// The normalized workspace-relative form of a path, if it has one.
pub open spec fn relative_path_of(text: Seq<char>) -> Option<Seq<char>> {
    match resolve_parts(split_slash(forward_slashes(text))) {
        Some(ps) => if ps.len() > 0 {
            Some(join_slash(ps))
        } else {
            None
        },
        None => None,
    }
}

/// The normalized workspace-relative form of a path: `\` as `/`, `.` and
/// empty parts dropped, `..` resolved; none above the start, with a `:` in
/// a part, or when nothing is left.
pub fn relative_path(text: &str) -> (r: Option<String>)
    ensures
        match r {
            Some(p) => relative_path_of(text@) == Some(p@),
            None => relative_path_of(text@) is None,
        },
{
    let v = chars_of(text);
    let mut fwd: Vec<char> = Vec::new();
    let mut i: usize = 0;
    while i < v.len()
        invariant
            i <= v@.len(),
            v@ == text@,
            fwd@ == forward_slashes(v@.take(i as int)),
        decreases v.len() - i,
    {
        proof {
            assert(forward_slashes(v@.take(i + 1)) =~= forward_slashes(v@.take(i as int)).push(
                if v@[i as int] == '\\' { '/' } else { v@[i as int] },
            ));
        }
        fwd.push(if v[i] == '\\' { '/' } else { v[i] });
        i = i + 1;
    }
    proof {
        assert(v@.take(i as int) =~= v@);
    }
    let segs = split_parts(&fwd);
    let ghost sv = parts_view(segs@);
    let mut parts: Vec<Vec<char>> = Vec::new();
    let mut k: usize = 0;
    while k < segs.len()
        invariant
            k <= segs@.len(),
            sv == parts_view(segs@),
            sv == split_slash(forward_slashes(text@)),
            resolve_parts(sv.take(k as int)) == Some(parts_view(parts@)),
        decreases segs.len() - k,
    {
        proof {
            assert(sv.take(k + 1).drop_last() =~= sv.take(k as int));
            assert(sv.take(k + 1).last() == segs@[k as int]@);
        }
        let p = &segs[k];
        let dot = p.len() == 1 && p[0] == '.';
        let dotdot = p.len() == 2 && p[0] == '.' && p[1] == '.';
        proof {
            assert(dot == (p@ == seq!['.'])) by {
                if p@ == seq!['.'] {
                    assert(p@.len() == 1 && p@[0] == '.');
                }
                if dot {
                    assert(p@ =~= seq!['.']);
                }
            }
            assert(dotdot == (p@ == seq!['.', '.'])) by {
                if p@ == seq!['.', '.'] {
                    assert(p@.len() == 2 && p@[0] == '.' && p@[1] == '.');
                }
                if dotdot {
                    assert(p@ =~= seq!['.', '.']);
                }
            }
        }
        if p.len() == 0 || dot {
        } else if dotdot {
            if parts.len() == 0 {
                proof {
                    lemma_resolve_none_extends(sv, k + 1);
                }
                return None;
            }
            let ghost before = parts@;
            parts.pop();
            proof {
                assert(parts_view(parts@) =~= parts_view(before).drop_last());
            }
        } else if contains_char(p.as_slice(), ':') {
            proof {
                lemma_resolve_none_extends(sv, k + 1);
            }
            return None;
        } else {
            let ghost before = parts@;
            parts.push(p.clone());
            proof {
                assert(parts_view(parts@) =~= parts_view(before).push(p@));
            }
        }
        k = k + 1;
    }
    proof {
        assert(sv.take(k as int) =~= sv);
    }
    if parts.len() == 0 {
        return None;
    }
    let mut out: Vec<char> = Vec::new();
    let mut j: usize = 0;
    while j < parts.len()
        invariant
            0 < parts@.len(),
            j <= parts@.len(),
            out@ == join_slash(parts_view(parts@).take(j as int)),
        decreases parts.len() - j,
    {
        let ghost pv = parts_view(parts@);
        proof {
            assert(pv.take(j + 1).drop_last() =~= pv.take(j as int));
            assert(pv.take(j + 1).last() == parts@[j as int]@);
        }
        if j > 0 {
            out.push('/');
        }
        let mut m: usize = 0;
        let ghost base = out@;
        while m < parts[j].len()
            invariant
                j < parts@.len(),
                m <= parts@[j as int]@.len(),
                out@ == base + parts@[j as int]@.take(m as int),
            decreases parts@[j as int]@.len() - m,
        {
            proof {
                assert(parts@[j as int]@.take(m + 1) =~= parts@[j as int]@.take(m as int).push(parts@[j as int]@[m as int]));
            }
            out.push(parts[j][m]);
            m = m + 1;
        }
        proof {
            assert(parts@[j as int]@.take(m as int) =~= parts@[j as int]@);
            if j == 0 {
                assert(pv.take(1) =~= seq![pv[0]]);
                assert(out@ =~= join_slash(pv.take(1)));
            } else {
                assert(out@ =~= join_slash(pv.take(j as int)) + seq!['/'] + pv[j as int]);
            }
        }
        j = j + 1;
    }
    proof {
        assert(parts_view(parts@).take(j as int) =~= parts_view(parts@));
    }
    Some(string_of(out.as_slice()))
}

/// Character classes that decide how a piece of text reads as a link.
#[derive(Clone, Copy, PartialEq, Eq, Structural)]
pub enum CharClass {
    White,
    Separator,
    Control,
    Forbidden,
    UpperOrUnderscore,
    Scheme,
    Alphabetic,
    Dot,
    OpenBracket,
    TrailingPunctuation,
    SoftBoundary,
    Hard,
    TargetBoundary,
    SentencePunctuation,
}

pub open spec fn in_class(c: char, k: CharClass) -> bool {
    match k {
        CharClass::White => is_white_space(c),
        CharClass::Separator => c == '/' || c == '\\',
        CharClass::Control => is_control_char(c),
        CharClass::Forbidden => c == '=' || c == ';' || c == '{' || c == '}' || c == '"' || c == '\''
            || c == '`' || c == '|' || c == '*' || c == '<' || c == '>',
        CharClass::UpperOrUnderscore => ('A' <= c && c <= 'Z') || c == '_',
        CharClass::Scheme => ('a' <= c && c <= 'z') || ('A' <= c && c <= 'Z') || ('0' <= c && c <= '9')
            || c == '+' || c == '-' || c == '.',
        CharClass::Alphabetic => alphabetic(c),
        CharClass::Dot => c == '.',
        CharClass::OpenBracket => c == '(' || c == '[' || c == '{',
        CharClass::TrailingPunctuation => c == '.' || c == ',' || c == ';' || c == ':' || c == '!' || c == '?'
            || c == '，' || c == '。' || c == '；' || c == '：' || c == '！' || c == '？',
        CharClass::SoftBoundary => c == '（' || c == '【' || c == '〔' || c == '《' || c == '〈' || c == '［' || c == '｛',
        CharClass::Hard => is_white_space(c) || c == '"' || c == '\'' || c == '`' || c == '<' || c == '>' || c == '，'
            || c == '。' || c == '；' || c == '：',
        CharClass::TargetBoundary => is_white_space(c) || c == '"' || c == '\'' || c == '`' || c == '<' || c == '>' || c == '，'
            || c == '。' || c == '；' || c == '：'
            || c == '（' || c == '【' || c == '〔' || c == '《' || c == '〈' || c == '［' || c == '｛' || c == '(' || c == ')'
            || c == '[' || c == ']' || c == '{' || c == '}' || c == ',' || c == ';' || c == ':' || c == '！' || c == '？'
            || c == '）' || c == '】' || c == '〕' || c == '》' || c == '〉' || c == '］' || c == '｝',
        CharClass::SentencePunctuation => c == '.' || c == ',' || c == ';' || c == ':' || c == '!' || c == '?',
    }
}

fn class_has(c: char, k: CharClass) -> (r: bool)
    ensures
        r == in_class(c, k),
{
    match k {
        CharClass::White => is_whitespace(c),
        CharClass::Separator => c == '/' || c == '\\',
        CharClass::Control => is_control(c),
        CharClass::Forbidden => c == '=' || c == ';' || c == '{' || c == '}' || c == '"' || c == '\''
            || c == '`' || c == '|' || c == '*' || c == '<' || c == '>',
        CharClass::UpperOrUnderscore => ('A' <= c && c <= 'Z') || c == '_',
        CharClass::Scheme => ('a' <= c && c <= 'z') || ('A' <= c && c <= 'Z') || ('0' <= c && c <= '9')
            || c == '+' || c == '-' || c == '.',
        CharClass::Alphabetic => is_alphabetic(c),
        CharClass::Dot => c == '.',
        CharClass::OpenBracket => c == '(' || c == '[' || c == '{',
        CharClass::TrailingPunctuation => c == '.' || c == ',' || c == ';' || c == ':' || c == '!' || c == '?'
            || c == '，' || c == '。' || c == '；' || c == '：' || c == '！' || c == '？',
        CharClass::SoftBoundary => c == '（' || c == '【' || c == '〔' || c == '《' || c == '〈' || c == '［' || c == '｛',
        CharClass::Hard => is_whitespace(c) || c == '"' || c == '\'' || c == '`' || c == '<' || c == '>' || c == '，'
            || c == '。' || c == '；' || c == '：',
        CharClass::TargetBoundary => is_whitespace(c) || c == '"' || c == '\'' || c == '`' || c == '<' || c == '>' || c == '，'
            || c == '。' || c == '；' || c == '：'
            || c == '（' || c == '【' || c == '〔' || c == '《' || c == '〈' || c == '［' || c == '｛' || c == '(' || c == ')'
            || c == '[' || c == ']' || c == '{' || c == '}' || c == ',' || c == ';' || c == ':' || c == '！' || c == '？'
            || c == '）' || c == '】' || c == '〕' || c == '》' || c == '〉' || c == '］' || c == '｝',
        CharClass::SentencePunctuation => c == '.' || c == ',' || c == ';' || c == ':' || c == '!' || c == '?',
    }
}

/// Whether every character of `t` in `[lo, hi)` is in class `k`.
pub open spec fn all_in(t: Seq<char>, lo: int, hi: int, k: CharClass) -> bool {
    forall|i: int| lo <= i < hi ==> in_class(#[trigger] t[i], k)
}

/// Whether some character of `t` in `[lo, hi)` is in class `k`.
pub open spec fn any_in(t: Seq<char>, lo: int, hi: int, k: CharClass) -> bool {
    exists|i: int| lo <= i < hi && in_class(#[trigger] t[i], k)
}

fn all_of(v: &[char], lo: usize, hi: usize, k: CharClass) -> (r: bool)
    requires
        lo <= hi <= v@.len(),
    ensures
        r == all_in(v@, lo as int, hi as int, k),
{
    let mut i: usize = lo;
    while i < hi
        invariant
            lo <= i <= hi <= v@.len(),
            all_in(v@, lo as int, i as int, k),
        decreases hi - i,
    {
        if !class_has(v[i], k) {
            return false;
        }
        i = i + 1;
    }
    true
}

fn any_of(v: &[char], lo: usize, hi: usize, k: CharClass) -> (r: bool)
    requires
        lo <= hi <= v@.len(),
    ensures
        r == any_in(v@, lo as int, hi as int, k),
{
    let mut i: usize = lo;
    while i < hi
        invariant
            lo <= i <= hi <= v@.len(),
            !any_in(v@, lo as int, i as int, k),
        decreases hi - i,
    {
        if class_has(v[i], k) {
            return true;
        }
        i = i + 1;
    }
    false
}

/// Index of the last character of `t` in class `k`.
pub open spec fn last_in(t: Seq<char>, k: CharClass) -> Option<int>
    decreases t.len(),
{
    if t.len() == 0 {
        None
    } else if in_class(t.last(), k) {
        Some(t.len() - 1)
    } else {
        last_in(t.drop_last(), k)
    }
}

fn last_of(v: &[char], k: CharClass) -> (r: Option<usize>)
    ensures
        match r {
            Some(i) => i < v@.len() && last_in(v@, k) == Some(i as int),
            None => last_in(v@, k) is None,
        },
{
    let mut n: usize = v.len();
    assert(v@.take(n as int) =~= v@);
    while n > 0
        invariant
            n <= v@.len(),
            last_in(v@, k) == last_in(v@.take(n as int), k),
        decreases n,
    {
        assert(v@.take(n as int).drop_last() =~= v@.take(n - 1));
        if class_has(v[n - 1], k) {
            return Some(n - 1);
        }
        n = n - 1;
    }
    None
}

/// Whether a path text is absolute: `/`, `\\`, or a drive letter.
pub open spec fn absolute_text(t: Seq<char>) -> bool {
    ||| t.len() > 0 && t[0] == '/'
    ||| t.len() > 1 && t[0] == '\\' && t[1] == '\\'
    ||| t.len() > 2 && is_ascii_letter(t[0]) && t[1] == ':' && (t[2] == '/' || t[2] == '\\')
}

pub open spec fn is_ascii_letter(c: char) -> bool {
    ('a' <= c && c <= 'z') || ('A' <= c && c <= 'Z')
}

/// Whether text reads as a URI: a scheme of letters, digits, `+`, `-`
/// and `.` that starts with a letter, then `:` and a rest without
/// whitespace that is not empty and does not start with `:`.
pub open spec fn uri_text(t: Seq<char>) -> bool {
    match first_index(t, ':') {
        Some(j) => {
            &&& j + 1 < t.len()
            &&& !any_in(t, j + 1, t.len() as int, CharClass::White)
            &&& t[j + 1] != ':'
            &&& j > 0
            &&& is_ascii_letter(t[0])
            &&& all_in(t, 0, j, CharClass::Scheme)
        },
        None => false,
    }
}

/// Text that is never a link: empty, only whitespace, only slashes, or
/// holding a control character.
pub open spec fn unusable_text(t: Seq<char>) -> bool {
    ||| t.len() == 0
    ||| all_in(t, 0, t.len() as int, CharClass::White)
    ||| all_in(t, 0, t.len() as int, CharClass::Separator)
    ||| any_in(t, 0, t.len() as int, CharClass::Control)
}

/// The file name: what follows the last separator.
pub open spec fn file_name(t: Seq<char>) -> Seq<char> {
    match last_in(t, CharClass::Separator) {
        Some(i) => t.skip(i + 1),
        None => t,
    }
}

/// A file name with a non-empty stem and a last extension holding a letter.
pub open spec fn has_extension(f: Seq<char>) -> bool {
    match last_in(f, CharClass::Dot) {
        Some(d) => d > 0 && any_in(f, d + 1, f.len() as int, CharClass::Alphabetic),
        None => false,
    }
}

pub open spec fn explicit_text(t: Seq<char>) -> bool {
    has_prefix(t, "./"@) || has_prefix(t, ".\\"@) || has_prefix(t, "../"@) || has_prefix(t, "..\\"@)
}

pub open spec fn dotfile_text(t: Seq<char>) -> bool {
    t.len() > 1 && t[0] == '.'
}

pub open spec fn directory_text(t: Seq<char>) -> bool {
    t.len() > 0 && in_class(t.last(), CharClass::Separator)
}

pub open spec fn conventional_name(t: Seq<char>) -> bool {
    ||| t == "README"@
    ||| t == "Makefile"@
    ||| t == "Dockerfile"@
    ||| t == "LICENSE"@
    ||| t == "COPYING"@
    ||| t == "NOTICE"@
    ||| t == "Justfile"@
    ||| t == "Gemfile"@
    ||| t == "Procfile"@
}

fn is_conventional_name(text: &str) -> (r: bool)
    ensures
        r == conventional_name(text@),
{
    str_eq(text, "README") || str_eq(text, "Makefile") || str_eq(text, "Dockerfile") || str_eq(text, "LICENSE")
        || str_eq(text, "COPYING") || str_eq(text, "NOTICE") || str_eq(text, "Justfile") || str_eq(
        text,
        "Gemfile",
    ) || str_eq(text, "Procfile")
}

/// A conventional extensionless file name, or an all-caps name.
pub open spec fn conventional_text(t: Seq<char>) -> bool {
    conventional_name(t) || (t.len() > 1 && all_in(t, 0, t.len() as int, CharClass::UpperOrUnderscore))
}

/// Whether relative text looks enough like a path to offer.
pub open spec fn path_like(t: Seq<char>, delimited: bool) -> bool {
    any_in(t, 0, t.len() as int, CharClass::Separator) || has_extension(file_name(t)) || explicit_text(t)
        || dotfile_text(t) || directory_text(t) || conventional_text(t) || delimited
}

/// Whether classification offers no candidate for `t`.
pub open spec fn declined(t: Seq<char>, delimited: bool) -> bool {
    unusable_text(t) || (!absolute_text(t) && !uri_text(t) && (any_in(t, 0, t.len() as int, CharClass::Forbidden)
        || !path_like(t, delimited) || relative_path_of(t) is None))
}

/// How sure a relative candidate is.
pub open spec fn relative_confidence(t: Seq<char>) -> PathConfidence {
    if explicit_text(t) || has_extension(file_name(t)) || dotfile_text(t) || directory_text(t) {
        PathConfidence::High
    } else {
        PathConfidence::Medium
    }
}

/// Whether a relative candidate is kept while missing.
pub open spec fn relative_retained(t: Seq<char>) -> bool {
    explicit_text(t) || dotfile_text(t) || directory_text(t) || (any_in(t, 0, t.len() as int, CharClass::Separator)
        && has_extension(file_name(t)))
}

/// What classification makes of text `t` that it does not decline.
pub open spec fn candidate_for(c: LinkCandidate, t: Seq<char>) -> bool {
    &&& c.target@ == t
    &&& if absolute_text(t) {
        &&& c.kind is AbsolutePath
        &&& c.confidence == PathConfidence::High
        &&& !c.retain_missing
    } else if uri_text(t) {
        &&& c.kind is Uri
        &&& c.confidence == PathConfidence::High
        &&& !c.retain_missing
    } else {
        &&& c.kind matches LinkTargetKind::WorkspaceRelative { normalized } && relative_path_of(t) == Some(
            normalized@,
        )
        &&& c.confidence == relative_confidence(t)
        &&& c.retain_missing == relative_retained(t)
    }
}

/// Reads one piece of text as a link candidate: an absolute path, a URI,
/// or a workspace-relative path that looks like one (or is delimited).
pub fn classify(text: &str, delimited: bool) -> (r: Option<LinkCandidate>)
    ensures
        r is None <==> declined(text@, delimited),
        r matches Some(c) ==> candidate_for(c, text@),
{
    let v = chars_of(text);
    let n = v.len();
    if n == 0 || all_of(&v, 0, n, CharClass::White) || all_of(&v, 0, n, CharClass::Separator) || any_of(
        &v,
        0,
        n,
        CharClass::Control,
    ) {
        return None;
    }
    let absolute = v[0] == '/' || (n > 1 && v[0] == '\\' && v[1] == '\\') || (n > 2 && (('a' <= v[0] && v[0]
        <= 'z') || ('A' <= v[0] && v[0] <= 'Z')) && v[1] == ':' && (v[2] == '/' || v[2] == '\\'));
    let uri = match find_char(v.as_slice(), ':') {
        Some(j) => j + 1 < n && !any_of(&v, j + 1, n, CharClass::White) && v[j + 1] != ':' && j > 0 && (('a'
            <= v[0] && v[0] <= 'z') || ('A' <= v[0] && v[0] <= 'Z')) && all_of(&v, 0, j, CharClass::Scheme),
        None => false,
    };
    if absolute {
        return Some(
            LinkCandidate {
                target: text.to_owned(),
                kind: LinkTargetKind::AbsolutePath,
                confidence: PathConfidence::High,
                retain_missing: false,
            },
        );
    }
    if uri {
        return Some(
            LinkCandidate {
                target: text.to_owned(),
                kind: LinkTargetKind::Uri,
                confidence: PathConfidence::High,
                retain_missing: false,
            },
        );
    }
    if any_of(&v, 0, n, CharClass::Forbidden) {
        return None;
    }
    let separator = any_of(&v, 0, n, CharClass::Separator);
    let start: usize = match last_of(&v, CharClass::Separator) {
        Some(i) => i + 1,
        None => 0,
    };
    let f = chars_of(&string_of_range(&v, start, n));
    proof {
        assert(f@ == file_name(text@));
    }
    let extension = match last_of(&f, CharClass::Dot) {
        Some(d) => d > 0 && any_of(&f, d + 1, f.len(), CharClass::Alphabetic),
        None => false,
    };
    let explicit = starts_with(&v, &chars_of("./")) || starts_with(&v, &chars_of(".\\")) || starts_with(
        &v,
        &chars_of("../"),
    ) || starts_with(&v, &chars_of("..\\"));
    let dotfile = n > 1 && v[0] == '.';
    let directory = v[n - 1] == '/' || v[n - 1] == '\\';
    let conventional = is_conventional_name(text) || (n > 1 && all_of(&v, 0, n, CharClass::UpperOrUnderscore));
    if !(separator || extension || explicit || dotfile || directory || conventional || delimited) {
        return None;
    }
    let normalized = match relative_path(text) {
        Some(p) => p,
        None => {
            return None;
        },
    };
    Some(
        LinkCandidate {
            target: text.to_owned(),
            kind: LinkTargetKind::WorkspaceRelative { normalized },
            confidence: if explicit || extension || dotfile || directory {
                PathConfidence::High
            } else {
                PathConfidence::Medium
            },
            retain_missing: explicit || dotfile || directory || (separator && extension),
        },
    )
}

/// Index of the first character of `t` from `i` on that is not in class `k`.
pub open spec fn lead_end(t: Seq<char>, k: CharClass, i: int) -> int
    decreases t.len() - i,
{
    if 0 <= i < t.len() && in_class(t[i], k) {
        lead_end(t, k, i + 1)
    } else {
        i
    }
}

/// Index just past the last character of `t[..e]` that is not in class `k`.
pub open spec fn trail_start(t: Seq<char>, k: CharClass, e: int) -> int
    decreases e,
{
    if 0 < e <= t.len() && in_class(t[e - 1], k) {
        trail_start(t, k, e - 1)
    } else {
        e
    }
}

/// How often `c` occurs in `t`.
pub open spec fn occurrences(t: Seq<char>, c: char) -> nat
    decreases t.len(),
{
    if t.len() == 0 {
        0
    } else {
        occurrences(t.drop_last(), c) + if t.last() == c { 1nat } else { 0nat }
    }
}

/// `t` without the closing brackets at its end that have no opening match.
pub open spec fn balanced(t: Seq<char>, open: char, close: char) -> Seq<char>
    decreases t.len(),
{
    if t.len() > 0 && t.last() == close && occurrences(t, close) > occurrences(t, open) {
        balanced(t.drop_last(), open, close)
    } else {
        t
    }
}

/// A token without leading opening brackets, trailing punctuation, and
/// unmatched closing brackets at its end.
pub open spec fn trimmed_token(t: Seq<char>) -> Seq<char> {
    let s = t.skip(lead_end(t, CharClass::OpenBracket, 0));
    let m = s.take(trail_start(s, CharClass::TrailingPunctuation, s.len() as int));
    balanced(balanced(balanced(m, '(', ')'), '[', ']'), '{', '}')
}

fn count_char(v: &Vec<char>, c: char) -> (r: usize)
    ensures
        r == occurrences(v@, c),
{
    let mut i: usize = 0;
    let mut r: usize = 0;
    while i < v.len()
        invariant
            i <= v@.len(),
            r == occurrences(v@.take(i as int), c),
            r <= i,
        decreases v.len() - i,
    {
        assert(v@.take(i + 1).drop_last() =~= v@.take(i as int));
        if v[i] == c {
            r = r + 1;
        }
        i = i + 1;
    }
    assert(v@.take(i as int) =~= v@);
    r
}

fn drop_unmatched(v: Vec<char>, open: char, close: char) -> (r: Vec<char>)
    ensures
        r@ == balanced(v@, open, close),
{
    let mut w = v;
    let mut go = true;
    while go
        invariant
            balanced(w@, open, close) == balanced(v@, open, close),
            !go ==> balanced(w@, open, close) == w@,
        decreases w@.len() + if go { 1int } else { 0int },
    {
        if w.len() > 0 && w[w.len() - 1] == close && count_char(&w, close) > count_char(&w, open) {
            w.pop();
        } else {
            go = false;
        }
    }
    w
}

/// Trims the punctuation around a token found in running text.
pub fn trim_token(text: &str) -> (r: String)
    ensures
        r@ == trimmed_token(text@),
{
    let v = chars_of(text);
    let n = v.len();
    let mut i: usize = 0;
    while i < n && class_has(v[i], CharClass::OpenBracket)
        invariant
            i <= n == v@.len(),
            v@ == text@,
            lead_end(v@, CharClass::OpenBracket, 0) == lead_end(v@, CharClass::OpenBracket, i as int),
        decreases n - i,
    {
        i = i + 1;
    }
    let ghost s = v@.skip(i as int);
    let mut e: usize = n;
    while e > i && class_has(v[e - 1], CharClass::TrailingPunctuation)
        invariant
            i <= e <= n == v@.len(),
            s == v@.skip(i as int),
            trail_start(s, CharClass::TrailingPunctuation, s.len() as int) == trail_start(
                s,
                CharClass::TrailingPunctuation,
                e - i,
            ),
        decreases e,
    {
        e = e - 1;
    }
    let mut m: Vec<char> = Vec::new();
    let mut j: usize = i;
    while j < e
        invariant
            i <= j <= e <= n == v@.len(),
            m@ == v@.subrange(i as int, j as int),
        decreases e - j,
    {
        m.push(v[j]);
        j = j + 1;
    }
    proof {
        assert(m@ =~= s.take(e - i));
    }
    let m = drop_unmatched(m, '(', ')');
    let m = drop_unmatched(m, '[', ']');
    let m = drop_unmatched(m, '{', '}');
    string_of(m.as_slice())
}

/// At most this many readings are offered for one piece of text.
pub const MAX_ALTERNATIVES_PER_GROUP: usize = 4;

/// The targets of a list of candidates.
pub open spec fn targets_of(cs: Seq<LinkCandidate>) -> Seq<Seq<char>> {
    cs.map_values(|c: LinkCandidate| c.target@)
}

/// Whether classification reads `t` as a URI.
pub open spec fn reads_as_uri(t: Seq<char>, delimited: bool) -> bool {
    !declined(t, delimited) && !absolute_text(t) && uri_text(t)
}

/// Targets of the readings cut at the wrapper brackets before index `b`,
/// nearest the end first, added to `acc` until it holds the maximum.
pub open spec fn cut_targets(t: Seq<char>, delimited: bool, b: int, acc: Seq<Seq<char>>) -> Seq<Seq<char>>
    decreases b,
{
    if b <= 0 || b > t.len() || acc.len() >= MAX_ALTERNATIVES_PER_GROUP {
        acc
    } else if in_class(t[b - 1], CharClass::SoftBoundary) {
        let p = trimmed_token(t.take(b - 1));
        if declined(p, delimited) || reads_as_uri(p, delimited) || acc.contains(p) {
            cut_targets(t, delimited, b - 1, acc)
        } else {
            cut_targets(t, delimited, b - 1, acc.push(p))
        }
    } else {
        cut_targets(t, delimited, b - 1, acc)
    }
}

/// The reading of the whole text, if it has one.
pub open spec fn whole_targets(t: Seq<char>, delimited: bool) -> Seq<Seq<char>> {
    if declined(t, delimited) {
        Seq::empty()
    } else {
        seq![t]
    }
}

/// The targets of a group, before ordering: a URI stands alone; otherwise
/// the whole reading and the cut readings.
pub open spec fn group_targets(t: Seq<char>, delimited: bool) -> Seq<Seq<char>> {
    if reads_as_uri(t, delimited) {
        seq![t]
    } else {
        cut_targets(t, delimited, t.len() as int, whole_targets(t, delimited))
    }
}

/// Whether a group holds cut readings, which then must exist.
pub open spec fn group_derived(t: Seq<char>, delimited: bool) -> bool {
    group_targets(t, delimited).len() > whole_targets(t, delimited).len()
}

/// UTF-8 length of a text.
pub open spec fn byte_len(t: Seq<char>) -> usize {
    encode_utf8(t).len() as usize
}

/// Where a stable sort by decreasing UTF-8 length puts `x` into `s`.
pub open spec fn len_slot(s: Seq<Seq<char>>, x: Seq<char>) -> int
    decreases s.len(),
{
    if s.len() == 0 {
        0
    } else if byte_len(s.last()) >= byte_len(x) {
        s.len() as int
    } else {
        len_slot(s.drop_last(), x)
    }
}

/// `s` sorted stably by decreasing UTF-8 length.
pub open spec fn longest_first(s: Seq<Seq<char>>) -> Seq<Seq<char>>
    decreases s.len(),
{
    if s.len() == 0 {
        s
    } else {
        let done = longest_first(s.drop_last());
        done.insert(len_slot(done, s.last()), s.last())
    }
}

proof fn lemma_len_slot_bound(s: Seq<Seq<char>>, x: Seq<char>)
    ensures
        0 <= len_slot(s, x) <= s.len(),
    decreases s.len(),
{
    if s.len() > 0 {
        lemma_len_slot_bound(s.drop_last(), x);
    }
}

proof fn lemma_longest_first_len(s: Seq<Seq<char>>)
    ensures
        longest_first(s).len() == s.len(),
    decreases s.len(),
{
    if s.len() > 0 {
        lemma_longest_first_len(s.drop_last());
        lemma_len_slot_bound(longest_first(s.drop_last()), s.last());
    }
}

fn sort_longest_first(v: Vec<LinkCandidate>) -> (r: Vec<LinkCandidate>)
    ensures
        targets_of(r@) == longest_first(targets_of(v@)),
        forall|k: int| 0 <= k < r@.len() ==> v@.contains(#[trigger] r@[k]),
{
    let ghost orig = v@;
    let mut rest = v;
    let mut out: Vec<LinkCandidate> = Vec::new();
    let n = rest.len();
    let mut i: usize = 0;
    while rest.len() > 0
        invariant
            orig.len() == n,
            i <= orig.len(),
            rest@ == orig.skip(i as int),
            targets_of(out@) == longest_first(targets_of(orig.take(i as int))),
            forall|k: int| 0 <= k < out@.len() ==> orig.contains(#[trigger] out@[k]),
        decreases rest@.len(),
    {
        let ghost tv = targets_of(orig.take(i + 1));
        proof {
            assert(tv.drop_last() =~= targets_of(orig.take(i as int)));
            assert(tv.last() == orig[i as int].target@);
        }
        let x = rest.remove(0);
        proof {
            assert(rest@ =~= orig.skip(i + 1));
        }
        let xl = x.target.as_str().len();
        let mut j: usize = out.len();
        proof {
            assert(targets_of(out@).take(j as int) =~= targets_of(out@));
        }
        while j > 0 && out[j - 1].target.as_str().len() < xl
            invariant
                j <= out@.len(),
                xl == byte_len(x.target@),
                len_slot(targets_of(out@), x.target@) == len_slot(targets_of(out@).take(j as int), x.target@),
            decreases j,
        {
            proof {
                assert(targets_of(out@).take(j as int).drop_last() =~= targets_of(out@).take(j - 1));
            }
            j = j - 1;
        }
        proof {
            if j > 0 {
                assert(targets_of(out@).take(j as int).last() == out@[j - 1].target@);
            }
        }
        let ghost before = out@;
        let ghost xv = x;
        out.insert(j, x);
        proof {
            assert(targets_of(out@) =~= targets_of(before).insert(j as int, xv.target@));
            assert(orig.contains(orig[i as int]));
            assert forall|k: int| 0 <= k < out@.len() implies orig.contains(#[trigger] out@[k]) by {
                if k < j {
                    assert(out@[k] == before[k]);
                } else if k > j {
                    assert(out@[k] == before[k - 1]);
                }
            }
        }
        i = i + 1;
    }
    proof {
        assert(orig.take(i as int) =~= orig);
    }
    out
}

/// Whether some candidate in `cs` has target `t`.
fn has_target(cs: &Vec<LinkCandidate>, t: &str) -> (r: bool)
    ensures
        r == targets_of(cs@).contains(t@),
{
    let mut i: usize = 0;
    while i < cs.len()
        invariant
            i <= cs@.len(),
            forall|k: int| 0 <= k < i ==> cs@[k].target@ != t@,
        decreases cs.len() - i,
    {
        if str_eq(cs[i].target.as_str(), t) {
            proof {
                assert(targets_of(cs@)[i as int] == t@);
            }
            return true;
        }
        i = i + 1;
    }
    proof {
        if targets_of(cs@).contains(t@) {
            let k = choose|k: int| 0 <= k < targets_of(cs@).len() && targets_of(cs@)[k] == t@;
            assert(cs@[k].target@ == t@);
        }
    }
    false
}

proof fn lemma_group_view(g: LinkCandidateGroup, text: Seq<char>, delimited: bool)
    requires
        group_targets(text, delimited).len() > 0,
        targets_of(g.alternatives@) == longest_first(group_targets(text, delimited)),
        g.require_existing == group_derived(text, delimited),
        forall|k: int| 0 <= k < g.alternatives@.len() ==> candidate_for(#[trigger] g.alternatives@[k], g.alternatives@[k].target@),
    ensures
        group_reading(text, delimited) == Some(gview(g)),
{
    let ts = longest_first(group_targets(text, delimited));
    assert forall|k: int| 0 <= k < g.alternatives@.len() implies cand_view(#[trigger] g.alternatives@[k]) == reading_of(ts[k]) by {
        lemma_candidate_view(g.alternatives@[k], g.alternatives@[k].target@);
        assert(targets_of(g.alternatives@)[k] == g.alternatives@[k].target@);
    }
    assert(gview(g).0 =~= ts.map_values(|p: Seq<char>| reading_of(p)));
}

/// The readings of one piece of text: a URI alone, or the whole text and
/// the texts cut at wrapper brackets such as `（`, longest first. Cut
/// readings must exist to be offered.
pub fn candidate_group(text: &str, delimited: bool) -> (r: Option<LinkCandidateGroup>)
    ensures
        r is None <==> group_targets(text@, delimited).len() == 0,
        r matches Some(g) ==> {
            &&& targets_of(g.alternatives@) == longest_first(group_targets(text@, delimited))
            &&& g.require_existing == group_derived(text@, delimited)
            &&& forall|k: int| 0 <= k < g.alternatives@.len() ==> candidate_for(#[trigger] g.alternatives@[k], g.alternatives@[k].target@)
        },
        r matches Some(g) ==> group_reading(text@, delimited) == Some(gview(g)),
        r is None <==> group_reading(text@, delimited) is None,
{
    let complete = classify(text, delimited);
    let is_uri = match &complete {
        Some(c) => matches!(c.kind, LinkTargetKind::Uri),
        None => false,
    };
    let mut alternatives: Vec<LinkCandidate> = Vec::new();
    if let Some(c) = complete {
        alternatives.push(c);
    }
    if is_uri {
        proof {
            assert(targets_of(alternatives@) =~= seq![text@]);
            assert(longest_first(seq![text@]) =~= seq![text@]) by {
                let e = Seq::<Seq<char>>::empty();
                assert(seq![text@].drop_last() =~= e);
                assert(longest_first(e) == e);
                assert(len_slot(e, text@) == 0);
                assert(e.insert(0, text@) =~= seq![text@]);
            }
        }
        let g = LinkCandidateGroup { alternatives, require_existing: false };
        proof {
            assert(group_targets(text@, delimited) == seq![text@]);
            lemma_group_view(g, text@, delimited);
        }
        return Some(g);
    }
    proof {
        assert(targets_of(alternatives@) =~= whole_targets(text@, delimited));
    }
    let v = chars_of(text);
    let mut b: usize = v.len();
    let mut derived = false;
    while b > 0
        invariant
            b <= v@.len(),
            v@ == text@,
            cut_targets(text@, delimited, b as int, targets_of(alternatives@)) == group_targets(text@, delimited),
            derived == (targets_of(alternatives@).len() > whole_targets(text@, delimited).len()),
            targets_of(alternatives@).len() >= whole_targets(text@, delimited).len(),
            forall|k: int| 0 <= k < alternatives@.len() ==> candidate_for(#[trigger] alternatives@[k], alternatives@[k].target@),
            !reads_as_uri(text@, delimited),
        ensures
            b == 0 || alternatives@.len() >= MAX_ALTERNATIVES_PER_GROUP,
        decreases b,
    {
        if alternatives.len() >= MAX_ALTERNATIVES_PER_GROUP {
            break;
        }
        if class_has(v[b - 1], CharClass::SoftBoundary) {
            let prefix = trim_token(&string_of_range(&v, 0, b - 1));
            proof {
                assert(v@.subrange(0, b - 1) =~= text@.take(b - 1));
            }
            match classify(prefix.as_str(), delimited) {
                Some(c) => {
                    let uri = matches!(c.kind, LinkTargetKind::Uri);
                    if !uri && !has_target(&alternatives, prefix.as_str()) {
                        let ghost before = alternatives@;
                        alternatives.push(c);
                        derived = true;
                        proof {
                            assert(targets_of(alternatives@) =~= targets_of(before).push(prefix@));
                        }
                    }
                },
                None => {},
            }
        }
        b = b - 1;
    }
    proof {
        assert(targets_of(alternatives@).len() == alternatives@.len());
        assert(b == 0 || alternatives@.len() >= MAX_ALTERNATIVES_PER_GROUP);
        assert(cut_targets(text@, delimited, b as int, targets_of(alternatives@)) == targets_of(alternatives@));
    }
    let ghost unsorted = alternatives@;
    let alternatives = sort_longest_first(alternatives);
    proof {
        lemma_longest_first_len(group_targets(text@, delimited));
        assert(alternatives@.len() == targets_of(alternatives@).len());
        assert forall|k: int| 0 <= k < alternatives@.len() implies candidate_for(
            #[trigger] alternatives@[k],
            alternatives@[k].target@,
        ) by {
            assert(unsorted.contains(alternatives@[k]));
            let m = choose|m: int| 0 <= m < unsorted.len() && unsorted[m] == alternatives@[k];
        }
    }
    if alternatives.len() == 0 {
        return None;
    }
    let g = LinkCandidateGroup { alternatives, require_existing: derived };
    proof {
        lemma_group_view(g, text@, delimited);
    }
    Some(g)
}

/// How many candidates of `cs` are filesystem paths, which need a probe.
pub open spec fn probe_count(cs: Seq<LinkCandidate>) -> nat
    decreases cs.len(),
{
    if cs.len() == 0 {
        0
    } else {
        probe_count(cs.drop_last()) + if cs.last().kind is Uri { 0nat } else { 1nat }
    }
}

/// How many alternatives of a group with `cs` are kept when `used` probes
/// are already spent.
pub open spec fn kept_alternatives(cs: Seq<LinkCandidate>, used: nat) -> int {
    let remaining = if used <= MAX_CANDIDATES { MAX_CANDIDATES - used } else { 0 };
    if probe_count(cs) > remaining {
        remaining
    } else {
        cs.len() as int
    }
}

/// The groups kept from `gs[i..]`, as (index, alternatives kept) pairs:
/// at most `MAX_CANDIDATES` groups and `MAX_CANDIDATES` probes in all; a
/// group over the budget keeps a prefix, an emptied group is dropped.
pub open spec fn bound_plan(gs: Seq<LinkCandidateGroup>, i: int, used: nat, kept: nat) -> Seq<(int, int)>
    decreases gs.len() - i,
{
    if i < 0 || i >= gs.len() || kept >= MAX_CANDIDATES {
        Seq::empty()
    } else {
        let cs = gs[i].alternatives@;
        let keep = kept_alternatives(cs, used);
        if keep <= 0 {
            bound_plan(gs, i + 1, used, kept)
        } else {
            seq![(i, keep)] + bound_plan(gs, i + 1, used + probe_count(cs.take(keep)), kept + 1)
        }
    }
}

proof fn lemma_probe_count_le(cs: Seq<LinkCandidate>)
    ensures
        probe_count(cs) <= cs.len(),
    decreases cs.len(),
{
    if cs.len() > 0 {
        lemma_probe_count_le(cs.drop_last());
    }
}

fn count_probes(cs: &Vec<LinkCandidate>) -> (r: usize)
    ensures
        r == probe_count(cs@),
{
    let mut i: usize = 0;
    let mut r: usize = 0;
    while i < cs.len()
        invariant
            i <= cs@.len(),
            r == probe_count(cs@.take(i as int)),
            r <= i,
        decreases cs.len() - i,
    {
        assert(cs@.take(i + 1).drop_last() =~= cs@.take(i as int));
        if !matches!(cs[i].kind, LinkTargetKind::Uri) {
            r = r + 1;
        }
        i = i + 1;
    }
    assert(cs@.take(i as int) =~= cs@);
    r
}

/// How many probes the groups need in all.
pub open spec fn total_probes(gs: Seq<LinkCandidateGroup>) -> nat
    decreases gs.len(),
{
    if gs.len() == 0 {
        0
    } else {
        total_probes(gs.drop_last()) + probe_count(gs.last().alternatives@)
    }
}

/// Each group as its alternatives and whether they must exist.
pub open spec fn group_views(gs: Seq<LinkCandidateGroup>) -> Seq<(Seq<LinkCandidate>, bool)> {
    gs.map_values(|g: LinkCandidateGroup| (g.alternatives@, g.require_existing))
}

/// The groups that a plan keeps, each cut to its kept alternatives.
pub open spec fn planned_groups(gs: Seq<LinkCandidateGroup>, plan: Seq<(int, int)>) -> Seq<(Seq<LinkCandidate>, bool)> {
    plan.map_values(|p: (int, int)| (gs[p.0].alternatives@.take(p.1), gs[p.0].require_existing))
}

proof fn lemma_cut_targets_without_boundaries(t: Seq<char>, delimited: bool, b: int, acc: Seq<Seq<char>>)
    requires
        b <= t.len(),
        forall|i: int| 0 <= i < b ==> !in_class(#[trigger] t[i], CharClass::SoftBoundary),
    ensures
        cut_targets(t, delimited, b, acc) == acc,
    decreases b,
{
    if b > 0 && acc.len() < MAX_ALTERNATIVES_PER_GROUP {
        lemma_cut_targets_without_boundaries(t, delimited, b - 1, acc);
    }
}

/// Text made only of path separators (`/`, `\`) is never offered as a
/// link, whole or cut.
pub proof fn separator_only_text_is_never_a_link(t: Seq<char>, delimited: bool)
    requires
        all_in(t, 0, t.len() as int, CharClass::Separator),
    ensures
        declined(t, delimited),
        group_targets(t, delimited).len() == 0,
{
    assert forall|i: int| 0 <= i < t.len() implies !in_class(#[trigger] t[i], CharClass::SoftBoundary) by {
        assert(in_class(t[i], CharClass::Separator));
    }
    lemma_cut_targets_without_boundaries(t, delimited, t.len() as int, Seq::empty());
}

/// A candidate as plain values: target, kind (0 URI, 1 absolute path, 2
/// workspace-relative), normalized path (empty unless relative),
/// confidence, and whether it is kept while missing.
pub open spec fn cand_view(c: LinkCandidate) -> (Seq<char>, int, Seq<char>, PathConfidence, bool) {
    (
        c.target@,
        match c.kind {
            LinkTargetKind::Uri => 0int,
            LinkTargetKind::AbsolutePath => 1int,
            LinkTargetKind::WorkspaceRelative { .. } => 2int,
        },
        match c.kind {
            LinkTargetKind::WorkspaceRelative { normalized } => normalized@,
            _ => Seq::empty(),
        },
        c.confidence,
        c.retain_missing,
    )
}

/// The candidate classification makes of text it does not decline, as
/// plain values.
pub open spec fn reading_of(t: Seq<char>) -> (Seq<char>, int, Seq<char>, PathConfidence, bool) {
    if absolute_text(t) {
        (t, 1int, Seq::empty(), PathConfidence::High, false)
    } else if uri_text(t) {
        (t, 0int, Seq::empty(), PathConfidence::High, false)
    } else {
        (
            t,
            2int,
            match relative_path_of(t) {
                Some(p) => p,
                None => Seq::empty(),
            },
            relative_confidence(t),
            relative_retained(t),
        )
    }
}

proof fn lemma_candidate_view(c: LinkCandidate, t: Seq<char>)
    requires
        candidate_for(c, t),
    ensures
        cand_view(c) == reading_of(t),
{
}

/// A group as plain values: its alternatives and whether they must exist.
pub open spec fn gview(g: LinkCandidateGroup) -> (Seq<(Seq<char>, int, Seq<char>, PathConfidence, bool)>, bool) {
    (g.alternatives@.map_values(|c: LinkCandidate| cand_view(c)), g.require_existing)
}

pub open spec fn gviews(gs: Seq<LinkCandidateGroup>) -> Seq<(Seq<(Seq<char>, int, Seq<char>, PathConfidence, bool)>, bool)> {
    gs.map_values(|g: LinkCandidateGroup| gview(g))
}

/// The group of readings `candidate_group` makes of a text, as plain values.
pub open spec fn group_reading(t: Seq<char>, delimited: bool) -> Option<
    (Seq<(Seq<char>, int, Seq<char>, PathConfidence, bool)>, bool),
> {
    if group_targets(t, delimited).len() == 0 {
        None
    } else {
        Some((longest_first(group_targets(t, delimited)).map_values(|p: Seq<char>| reading_of(p)), group_derived(t, delimited)))
    }
}

/// How many alternatives of a viewed group need a probe: all but URIs.
pub open spec fn view_probes(cs: Seq<(Seq<char>, int, Seq<char>, PathConfidence, bool)>) -> nat
    decreases cs.len(),
{
    if cs.len() == 0 {
        0
    } else {
        view_probes(cs.drop_last()) + if cs.last().1 == 0 { 0nat } else { 1nat }
    }
}

/// The viewed groups kept from `gs[i..]` within the probe budget: at most
/// `MAX_CANDIDATES` groups and probes; a group over budget keeps a prefix,
/// an emptied one is dropped.
pub open spec fn bounded_from(
    gs: Seq<(Seq<(Seq<char>, int, Seq<char>, PathConfidence, bool)>, bool)>,
    i: int,
    used: nat,
    kept: nat,
) -> Seq<(Seq<(Seq<char>, int, Seq<char>, PathConfidence, bool)>, bool)>
    decreases gs.len() - i,
{
    if i < 0 || i >= gs.len() || kept >= MAX_CANDIDATES {
        Seq::empty()
    } else {
        let cs = gs[i].0;
        let remaining = if used <= MAX_CANDIDATES { MAX_CANDIDATES - used } else { 0 };
        let keep = if view_probes(cs) > remaining { remaining } else { cs.len() as int };
        if keep <= 0 {
            bounded_from(gs, i + 1, used, kept)
        } else {
            seq![(cs.take(keep), gs[i].1)] + bounded_from(gs, i + 1, used + view_probes(cs.take(keep)), kept + 1)
        }
    }
}

proof fn lemma_view_probes(cs: Seq<LinkCandidate>)
    ensures
        view_probes(cs.map_values(|c: LinkCandidate| cand_view(c))) == probe_count(cs),
    decreases cs.len(),
{
    if cs.len() > 0 {
        assert(cs.map_values(|c: LinkCandidate| cand_view(c)).drop_last() =~= cs.drop_last().map_values(
            |c: LinkCandidate| cand_view(c),
        ));
        lemma_view_probes(cs.drop_last());
    }
}

proof fn lemma_bounded_views(gs: Seq<LinkCandidateGroup>, i: int, used: nat, kept: nat)
    requires
        0 <= i <= gs.len(),
    ensures
        bounded_from(gviews(gs), i, used, kept) == planned_groups(gs, bound_plan(gs, i, used, kept)).map_values(
            |p: (Seq<LinkCandidate>, bool)| (p.0.map_values(|c: LinkCandidate| cand_view(c)), p.1),
        ),
    decreases gs.len() - i,
{
    let f = |p: (Seq<LinkCandidate>, bool)| (p.0.map_values(|c: LinkCandidate| cand_view(c)), p.1);
    if i >= gs.len() || kept >= MAX_CANDIDATES {
        assert(planned_groups(gs, bound_plan(gs, i, used, kept)).map_values(f) =~= Seq::empty());
    } else {
        let cs = gs[i].alternatives@;
        let vcs = cs.map_values(|c: LinkCandidate| cand_view(c));
        assert(gviews(gs)[i].0 == vcs);
        lemma_view_probes(cs);
        lemma_probe_count_le(cs);
        let keep = kept_alternatives(cs, used);
        if keep > 0 {
            assert(vcs.take(keep) =~= cs.take(keep).map_values(|c: LinkCandidate| cand_view(c)));
            lemma_view_probes(cs.take(keep));
            lemma_bounded_views(gs, i + 1, used + probe_count(cs.take(keep)), kept + 1);
            let rest = bound_plan(gs, i + 1, used + probe_count(cs.take(keep)), kept + 1);
            assert(planned_groups(gs, seq![(i, keep)] + rest) =~= seq![(cs.take(keep), gs[i].require_existing)]
                + planned_groups(gs, rest));
            assert(planned_groups(gs, bound_plan(gs, i, used, kept)).map_values(f) =~= seq![
                (vcs.take(keep), gs[i].require_existing),
            ] + planned_groups(gs, rest).map_values(f));
        } else {
            lemma_bounded_views(gs, i + 1, used, kept);
        }
    }
}

/// Keeps the groups within the probe budget, in order.
pub fn bound_groups(groups: Vec<LinkCandidateGroup>) -> (r: Vec<LinkCandidateGroup>)
    ensures
        group_views(r@) == planned_groups(groups@, bound_plan(groups@, 0, 0, 0)),
        gviews(r@) == bounded_from(gviews(groups@), 0, 0, 0),
        r@.len() <= MAX_CANDIDATES,
        total_probes(r@) <= MAX_CANDIDATES,
{
    let ghost orig = groups@;
    let n = groups.len();
    let mut rest = groups;
    let mut out: Vec<LinkCandidateGroup> = Vec::new();
    let ghost mut plan: Seq<(int, int)> = Seq::empty();
    let mut used: usize = 0;
    let mut i: usize = 0;
    let mut done = false;
    proof {
        assert(group_views(out@) =~= planned_groups(orig, plan));
    }
    while !done && rest.len() > 0
        invariant
            orig.len() == n,
            i <= n,
            rest@ == orig.skip(i as int),
            used <= MAX_CANDIDATES,
            out@.len() <= MAX_CANDIDATES,
            done ==> out@.len() >= MAX_CANDIDATES,
            out@.len() == plan.len(),
            total_probes(out@) == used,
            group_views(out@) == planned_groups(orig, plan),
            bound_plan(orig, 0, 0, 0) == plan + bound_plan(orig, i as int, used as nat, out@.len()),
        decreases rest@.len() + if done { 0int } else { 1int },
    {
        if out.len() >= MAX_CANDIDATES {
            done = true;
        } else {
            let mut group = rest.remove(0);
            proof {
                assert(rest@ =~= orig.skip(i + 1));
                assert(group == orig[i as int]);
                lemma_probe_count_le(group.alternatives@);
            }
            let ghost cs = group.alternatives@;
            let ghost keep = kept_alternatives(cs, used as nat);
            let fs = count_probes(&group.alternatives);
            let remaining = MAX_CANDIDATES - used;
            if fs > remaining {
                group.alternatives.truncate(remaining);
            }
            proof {
                assert(group.alternatives@ =~= cs.take(keep));
            }
            if group.alternatives.len() > 0 {
                let more = count_probes(&group.alternatives);
                let ghost before = out@;
                proof {
                    lemma_probe_count_le(group.alternatives@);
                    assert(bound_plan(orig, i as int, used as nat, out@.len()) == seq![(i as int, keep)] + bound_plan(
                        orig,
                        i + 1,
                        (used + more) as nat,
                        out@.len() + 1,
                    ));
                    assert(plan + (seq![(i as int, keep)] + bound_plan(orig, i + 1, (used + more) as nat, out@.len() + 1))
                        =~= plan.push((i as int, keep)) + bound_plan(orig, i + 1, (used + more) as nat, out@.len() + 1));
                    assert(planned_groups(orig, plan.push((i as int, keep))) =~= planned_groups(orig, plan).push(
                        (orig[i as int].alternatives@.take(keep), orig[i as int].require_existing),
                    ));
                    plan = plan.push((i as int, keep));
                }
                used = used + more;
                out.push(group);
                proof {
                    assert(out@.drop_last() =~= before);
                    assert(group_views(out@) =~= group_views(before).push(
                        (out@[out@.len() - 1].alternatives@, out@[out@.len() - 1].require_existing),
                    ));
                }
            }
            i = i + 1;
        }
    }
    proof {
        assert(bound_plan(orig, i as int, used as nat, out@.len()) =~= Seq::<(int, int)>::empty());
        assert(plan + Seq::<(int, int)>::empty() =~= plan);
        lemma_bounded_views(orig, 0, 0, 0);
        let f = |p: (Seq<LinkCandidate>, bool)| (p.0.map_values(|c: LinkCandidate| cand_view(c)), p.1);
        assert(gviews(out@) =~= group_views(out@).map_values(f));
    }
    out
}

/// UTF-8 width of a character.
pub open spec fn utf8_width(c: char) -> nat {
    let n = c as u32;
    if n < 0x80 {
        1
    } else if n < 0x800 {
        2
    } else if n < 0x10000 {
        3
    } else {
        4
    }
}

/// UTF-8 length of a text, character by character.
pub open spec fn utf8_len(t: Seq<char>) -> nat
    decreases t.len(),
{
    if t.len() == 0 {
        0
    } else {
        utf8_len(t.drop_last()) + utf8_width(t.last())
    }
}

proof fn lemma_utf8_len_concat(a: Seq<char>, b: Seq<char>)
    ensures
        utf8_len(a + b) == utf8_len(a) + utf8_len(b),
    decreases b.len(),
{
    if b.len() > 0 {
        assert((a + b).drop_last() =~= a + b.drop_last());
        lemma_utf8_len_concat(a, b.drop_last());
    } else {
        assert(a + b =~= a);
    }
}

proof fn lemma_utf8_len_split(t: Seq<char>, i: int, j: int)
    requires
        0 <= i <= j <= t.len(),
    ensures
        utf8_len(t.take(j)) == utf8_len(t.take(i)) + utf8_len(t.subrange(i, j)),
        utf8_len(t.take(j)) <= utf8_len(t),
{
    assert(t.take(j) =~= t.take(i) + t.subrange(i, j));
    lemma_utf8_len_concat(t.take(i), t.subrange(i, j));
    assert(t =~= t.take(j) + t.skip(j));
    lemma_utf8_len_concat(t.take(j), t.skip(j));
}

proof fn lemma_utf8_len_ge_len(t: Seq<char>)
    ensures
        utf8_len(t) >= t.len(),
    decreases t.len(),
{
    if t.len() > 0 {
        lemma_utf8_len_ge_len(t.drop_last());
    }
}

fn char_utf8_width(c: char) -> (r: usize)
    ensures
        r == utf8_width(c),
{
    let n = c as u32;
    if n < 0x80 {
        1
    } else if n < 0x800 {
        2
    } else if n < 0x10000 {
        3
    } else {
        4
    }
}

/// First index from `k` on whose character is in class `cls`, or the length.
pub open spec fn next_in(t: Seq<char>, k: int, cls: CharClass) -> int
    decreases t.len() - k,
{
    if k < 0 || k >= t.len() {
        t.len() as int
    } else if in_class(t[k], cls) {
        k
    } else {
        next_in(t, k + 1, cls)
    }
}

fn next_of(v: &Vec<char>, k: usize, cls: CharClass) -> (r: usize)
    requires
        k <= v@.len(),
    ensures
        r as int == next_in(v@, k as int, cls),
        k <= r <= v@.len(),
{
    let mut j: usize = k;
    while j < v.len() && !class_has(v[j], cls)
        invariant
            k <= j <= v@.len(),
            next_in(v@, k as int, cls) == next_in(v@, j as int, cls),
        decreases v.len() - j,
    {
        j = j + 1;
    }
    j
}

/// Index of the next `c` from `k` on, or the length.
pub open spec fn next_char(t: Seq<char>, k: int, c: char) -> int
    decreases t.len() - k,
{
    if k < 0 || k >= t.len() {
        t.len() as int
    } else if t[k] == c {
        k
    } else {
        next_char(t, k + 1, c)
    }
}

fn next_char_of(v: &Vec<char>, k: usize, c: char) -> (r: usize)
    requires
        k <= v@.len(),
    ensures
        r as int == next_char(v@, k as int, c),
        k <= r <= v@.len(),
{
    let mut j: usize = k;
    while j < v.len() && v[j] != c
        invariant
            k <= j <= v@.len(),
            next_char(v@, k as int, c) == next_char(v@, j as int, c),
        decreases v.len() - j,
    {
        j = j + 1;
    }
    j
}

/// A found token: its text, whether quotes delimited it, and its byte
/// offset from where the scan started.
pub open spec fn found(text: Seq<char>, delimited: bool, at: int) -> (Seq<char>, bool, int) {
    (text, delimited, at)
}

/// Whether the token at `i..end` is a slash command followed by a
/// `<placeholder>`, which is not a link.
pub open spec fn command_placeholder(t: Seq<char>, token: Seq<char>, end: int) -> bool {
    let ws = lead_end(t, CharClass::White, end);
    let close = next_char(t, ws, '>');
    &&& token.len() > 0
    &&& token[0] == '/'
    &&& 0 <= ws < t.len()
    &&& t[ws] == '<'
    &&& close < t.len()
    &&& (close + 1 == t.len() || in_class(t[close + 1], CharClass::Hard))
}

/// The tokens of `t` from index `i` on: quoted spans whole, otherwise
/// runs between hard boundaries with their punctuation trimmed.
pub open spec fn scan_from(t: Seq<char>, i: int) -> Seq<(Seq<char>, bool, int)>
    decreases t.len() - i,
{
    if i < 0 || i >= t.len() {
        Seq::empty()
    } else {
        let f = t[i];
        let q = next_char(t, i + 1, f);
        let at = utf8_len(t.take(i)) as int;
        if (f == '"' || f == '\'') && q < t.len() {
            seq![found(t.subrange(i + 1, q), true, at + 1)] + scan_from(t, if q > i { q + 1 } else { i + 1 })
        } else if in_class(f, CharClass::Hard) {
            scan_from(t, i + 1)
        } else {
            let end = next_in(t, i + 1, CharClass::Hard);
            let raw = t.subrange(i, end);
            let token = trimmed_token(raw);
            let off = if token.len() == 0 { 0 } else { lead_end(raw, CharClass::OpenBracket, 0) };
            let next = if i < end <= t.len() { end } else { i + 1 };
            if command_placeholder(t, token, end) {
                scan_from(t, next)
            } else {
                seq![found(token, false, at + off)] + scan_from(t, next)
            }
        }
    }
}

/// The found tokens as plain values.
pub open spec fn found_views(r: Seq<(String, bool, usize)>) -> Seq<(Seq<char>, bool, int)> {
    r.map_values(|x: (String, bool, usize)| (x.0@, x.1, x.2 as int))
}

/// The same tokens with `base` added to each offset.
pub open spec fn shifted(s: Seq<(Seq<char>, bool, int)>, base: int) -> Seq<(Seq<char>, bool, int)> {
    s.map_values(|x: (Seq<char>, bool, int)| (x.0, x.1, x.2 + base))
}

fn leading_brackets(raw: &Vec<char>) -> (r: usize)
    ensures
        r as int == lead_end(raw@, CharClass::OpenBracket, 0),
{
    let mut l: usize = 0;
    while l < raw.len() && class_has(raw[l], CharClass::OpenBracket)
        invariant
            l <= raw@.len(),
            lead_end(raw@, CharClass::OpenBracket, 0) == lead_end(raw@, CharClass::OpenBracket, l as int),
        decreases raw.len() - l,
    {
        l = l + 1;
    }
    l
}

/// Splits running text into link tokens, each with its byte position
/// (`base_position` plus its UTF-8 offset in `text`).
pub fn scan_text(text: &str, base_position: usize) -> (r: Vec<(String, bool, usize)>)
    requires
        base_position + utf8_len(text@) <= usize::MAX,
    ensures
        found_views(r@) == shifted(scan_from(text@, 0), base_position as int),
{
    let v = chars_of(text);
    let n = v.len();
    let mut out: Vec<(String, bool, usize)> = Vec::new();
    let mut i: usize = 0;
    let mut pos: usize = base_position;
    proof {
        assert(v@.take(0) =~= Seq::<char>::empty());
        assert(found_views(out@) + shifted(scan_from(v@, 0), base_position as int) =~= shifted(scan_from(v@, 0), base_position as int));
    }
    while i < n
        invariant
            n == v@.len(),
            v@ == text@,
            i <= n,
            base_position + utf8_len(v@) <= usize::MAX,
            pos == base_position + utf8_len(v@.take(i as int)),
            found_views(out@) + shifted(scan_from(v@, i as int), base_position as int) == shifted(
                scan_from(v@, 0),
                base_position as int,
            ),
        decreases n - i,
    {
        let ghost before = out@;
        let f = v[i];
        let q = next_char_of(&v, i + 1, f);
        proof {
            lemma_utf8_len_split(v@, i as int, n as int);
        }
        if (f == '"' || f == '\'') && q < n {
            let inner = string_of_range(&v, i + 1, q);
            proof {
                lemma_utf8_len_split(v@, i as int, i + 1);
                lemma_utf8_len_split(v@, i as int, q + 1);
                lemma_utf8_len_split(v@, q + 1, n as int);
                assert(v@.subrange(i as int, i + 1) =~= seq![f]);
                assert(utf8_len(seq![f]) == utf8_width(f)) by {
                    let e = Seq::<char>::empty();
                    assert(seq![f].drop_last() =~= e);
                    assert(utf8_len(e) == 0);
                    assert(seq![f].last() == f);
                }
            }
            let span = utf8_span(&v, i, q + 1);
            out.push((inner, true, pos + 1));
            proof {
                assert(found_views(out@) =~= found_views(before).push((v@.subrange(i + 1, q as int), true, pos + 1)));
                assert(shifted(scan_from(v@, i as int), base_position as int) =~= seq![(
                    v@.subrange(i + 1, q as int),
                    true,
                    pos + 1,
                )] + shifted(scan_from(v@, q + 1), base_position as int));
            }
            pos = pos + span;
            i = q + 1;
        } else if class_has(f, CharClass::Hard) {
            let w = char_utf8_width(f);
            proof {
                lemma_utf8_len_split(v@, i as int, i + 1);
                lemma_utf8_len_split(v@, i + 1, n as int);
                assert(v@.subrange(i as int, i + 1) =~= seq![f]);
                assert(utf8_len(seq![f]) == utf8_width(f)) by {
                    let e = Seq::<char>::empty();
                    assert(seq![f].drop_last() =~= e);
                    assert(utf8_len(e) == 0);
                    assert(seq![f].last() == f);
                }
            }
            pos = pos + w;
            i = i + 1;
        } else {
            let end = next_of(&v, i + 1, CharClass::Hard);
            let rv = chars_of(&string_of_range(&v, i, end));
            let token = trim_token(&string_of_range(&v, i, end));
            let tv = chars_of(token.as_str());
            let off: usize = if tv.len() == 0 { 0 } else { leading_brackets(&rv) };
            proof {
                assert(end > i);
                lemma_utf8_len_split(v@, i as int, end as int);
                lemma_utf8_len_split(v@, end as int, n as int);
                assert(off <= rv@.len()) by {
                    lemma_lead_end_bound(rv@, CharClass::OpenBracket, 0);
                }
                assert(rv@ == v@.subrange(i as int, end as int));
                lemma_utf8_len_ge_len(rv@);
            }
            let ws = skip_white(&v, end);
            let close = next_char_of(&v, ws, '>');
            let placeholder = tv.len() > 0 && tv[0] == '/' && ws < n && v[ws] == '<' && close < n && (close + 1 == n
                || class_has(v[close + 1], CharClass::Hard));
            if !placeholder {
                out.push((token, false, pos + off));
                proof {
                    assert(found_views(out@) =~= found_views(before).push((tv@, false, pos + off)));
                }
            }
            let span = utf8_span(&v, i, end);
            proof {
                let s = shifted(scan_from(v@, end as int), base_position as int);
                if placeholder {
                    assert(shifted(scan_from(v@, i as int), base_position as int) == s);
                } else {
                    assert(shifted(scan_from(v@, i as int), base_position as int) =~= seq![(tv@, false, pos + off)] + s);
                }
            }
            pos = pos + span;
            i = end;
        }
        proof {
            assert(found_views(out@) + shifted(scan_from(v@, i as int), base_position as int) =~= shifted(
                scan_from(v@, 0),
                base_position as int,
            ));
        }
    }
    proof {
        assert(found_views(out@) + Seq::<(Seq<char>, bool, int)>::empty() =~= found_views(out@));
        assert(shifted(Seq::<(Seq<char>, bool, int)>::empty(), base_position as int) =~= Seq::<(Seq<char>, bool, int)>::empty());
    }
    out
}

proof fn lemma_lead_end_bound(t: Seq<char>, k: CharClass, i: int)
    requires
        0 <= i <= t.len(),
    ensures
        i <= lead_end(t, k, i) <= t.len(),
    decreases t.len() - i,
{
    if i < t.len() && in_class(t[i], k) {
        lemma_lead_end_bound(t, k, i + 1);
    }
}

fn skip_white(v: &Vec<char>, k: usize) -> (r: usize)
    requires
        k <= v@.len(),
    ensures
        r as int == lead_end(v@, CharClass::White, k as int),
        k <= r <= v@.len(),
{
    let mut j: usize = k;
    while j < v.len() && class_has(v[j], CharClass::White)
        invariant
            k <= j <= v@.len(),
            lead_end(v@, CharClass::White, k as int) == lead_end(v@, CharClass::White, j as int),
        decreases v.len() - j,
    {
        j = j + 1;
    }
    j
}

fn utf8_span(v: &Vec<char>, i: usize, j: usize) -> (r: usize)
    requires
        i <= j <= v@.len(),
        utf8_len(v@) <= usize::MAX,
    ensures
        r == utf8_len(v@.subrange(i as int, j as int)),
{
    let mut k: usize = i;
    let mut r: usize = 0;
    proof {
        lemma_utf8_len_split(v@, i as int, j as int);
        lemma_utf8_len_split(v@, j as int, v@.len() as int);
        assert(v@.subrange(i as int, i as int) =~= Seq::<char>::empty());
    }
    while k < j
        invariant
            i <= k <= j <= v@.len(),
            utf8_len(v@) <= usize::MAX,
            utf8_len(v@.subrange(i as int, j as int)) <= utf8_len(v@),
            r == utf8_len(v@.subrange(i as int, k as int)),
        decreases j - k,
    {
        proof {
            assert(v@.subrange(i as int, k + 1).drop_last() =~= v@.subrange(i as int, k as int));
            let s = v@.subrange(i as int, j as int);
            lemma_utf8_len_split(s, k - i, k + 1 - i);
            lemma_utf8_len_split(s, k + 1 - i, s.len() as int);
            assert(s.take(k + 1 - i) =~= v@.subrange(i as int, k + 1));
        }
        r = r + char_utf8_width(v[k]);
        k = k + 1;
    }
    r
}


proof fn lemma_trail_start(t: Seq<char>, k: CharClass, e: int)
    requires
        0 <= e <= t.len(),
    ensures
        0 <= trail_start(t, k, e) <= e,
        forall|j: int| trail_start(t, k, e) <= j < e ==> in_class(#[trigger] t[j], k),
        trail_start(t, k, e) == 0 || !in_class(t[trail_start(t, k, e) - 1], k),
    decreases e,
{
    if 0 < e && in_class(t[e - 1], k) {
        lemma_trail_start(t, k, e - 1);
    }
}

proof fn lemma_lead_end_zero(t: Seq<char>)
    requires
        t.len() == 0 || !in_class(t[0], CharClass::OpenBracket),
    ensures
        lead_end(t, CharClass::OpenBracket, 0) == 0,
{
}

proof fn lemma_balanced_no_close(t: Seq<char>, open: char, close: char)
    requires
        forall|i: int| 0 <= i < t.len() ==> t[i] != close,
    ensures
        balanced(t, open, close) == t,
{
}

/// A bracket of any of the three kinds.
pub open spec fn is_bracket(c: char) -> bool {
    c == '(' || c == ')' || c == '[' || c == ']' || c == '{' || c == '}'
}

/// A token without brackets loses exactly its trailing run of sentence
/// punctuation (ASCII and full-width): what is left is a prefix of the
/// token, everything cut is punctuation, and what is left does not end in
/// punctuation.
pub proof fn trimming_drops_all_trailing_punctuation(t: Seq<char>)
    requires
        forall|i: int| 0 <= i < t.len() ==> !is_bracket(#[trigger] t[i]),
    ensures
        trimmed_token(t).len() <= t.len(),
        trimmed_token(t) == t.take(trimmed_token(t).len() as int),
        forall|j: int| trimmed_token(t).len() <= j < t.len() ==> in_class(#[trigger] t[j], CharClass::TrailingPunctuation),
        trimmed_token(t).len() == 0 || !in_class(trimmed_token(t).last(), CharClass::TrailingPunctuation),
{
    if t.len() > 0 {
        assert(!is_bracket(t[0]));
    }
    lemma_lead_end_zero(t);
    let s = t.skip(0);
    assert(s =~= t);
    let e = trail_start(s, CharClass::TrailingPunctuation, s.len() as int);
    lemma_trail_start(s, CharClass::TrailingPunctuation, s.len() as int);
    let m = s.take(e);
    assert forall|i: int| 0 <= i < m.len() implies m[i] != ')' && m[i] != ']' && m[i] != '}' by {
        assert(m[i] == t[i]);
        assert(!is_bracket(t[i]));
    }
    lemma_balanced_no_close(m, '(', ')');
    lemma_balanced_no_close(m, '[', ']');
    lemma_balanced_no_close(m, '{', '}');
    assert(trimmed_token(t) == m);
    if e > 0 {
        assert(m.last() == t[e - 1]);
    }
}


proof fn lemma_lead_end_bounds(t: Seq<char>, k: CharClass, i: int)
    requires
        0 <= i <= t.len(),
    ensures
        i <= lead_end(t, k, i) <= t.len(),
        forall|j: int| i <= j < lead_end(t, k, i) ==> in_class(#[trigger] t[j], k),
        lead_end(t, k, i) == t.len() || !in_class(t[lead_end(t, k, i)], k),
    decreases t.len() - i,
{
    if i < t.len() && in_class(t[i], k) {
        lemma_lead_end_bounds(t, k, i + 1);
    }
}

proof fn lemma_balanced_prefix(t: Seq<char>, open: char, close: char)
    ensures
        balanced(t, open, close).len() <= t.len(),
        balanced(t, open, close) == t.take(balanced(t, open, close).len() as int),
        forall|j: int| balanced(t, open, close).len() <= j < t.len() ==> #[trigger] t[j] == close,
    decreases t.len(),
{
    if t.len() > 0 && t.last() == close && occurrences(t, close) > occurrences(t, open) {
        lemma_balanced_prefix(t.drop_last(), open, close);
        let b = balanced(t.drop_last(), open, close);
        assert(t.drop_last().take(b.len() as int) =~= t.take(b.len() as int));
        assert forall|j: int| b.len() <= j < t.len() implies #[trigger] t[j] == close by {
            if j < t.len() - 1 {
                assert(t.drop_last()[j] == t[j]);
            }
        }
    } else {
        assert(t.take(t.len() as int) =~= t);
    }
}

/// Dropping unmatched closers cuts only closing brackets from the end, and
/// stops at a text that does not end with a closer outnumbering its
/// openers.
pub proof fn unmatched_closers_are_dropped(t: Seq<char>, open: char, close: char)
    ensures
        balanced(t, open, close) == t.take(balanced(t, open, close).len() as int),
        forall|j: int| balanced(t, open, close).len() <= j < t.len() ==> #[trigger] t[j] == close,
        balanced(t, open, close).len() == 0 || balanced(t, open, close).last() != close || occurrences(
            balanced(t, open, close),
            close,
        ) <= occurrences(balanced(t, open, close), open),
    decreases t.len(),
{
    lemma_balanced_prefix(t, open, close);
    if t.len() > 0 && t.last() == close && occurrences(t, close) > occurrences(t, open) {
        unmatched_closers_are_dropped(t.drop_last(), open, close);
        let b = balanced(t.drop_last(), open, close);
        assert(t.drop_last().take(b.len() as int) =~= t.take(b.len() as int));
    }
}

/// A trimmed token is a piece of the token, never starting with an opening
/// bracket: the leading `(`, `[` and `{` are all gone.
pub proof fn trimmed_tokens_lose_leading_brackets(t: Seq<char>)
    ensures
        exists|a: int| 0 <= a <= t.len() && trimmed_token(t) == #[trigger] t.subrange(a, a + trimmed_token(t).len()) && a
            + trimmed_token(t).len() <= t.len(),
        trimmed_token(t).len() > 0 ==> !in_class(trimmed_token(t)[0], CharClass::OpenBracket),
{
    let a = lead_end(t, CharClass::OpenBracket, 0);
    lemma_lead_end_bounds(t, CharClass::OpenBracket, 0);
    let s = t.skip(a);
    let e = trail_start(s, CharClass::TrailingPunctuation, s.len() as int);
    lemma_trail_start(s, CharClass::TrailingPunctuation, s.len() as int);
    let m = s.take(e);
    let b1 = balanced(m, '(', ')');
    let b2 = balanced(b1, '[', ']');
    let b3 = balanced(b2, '{', '}');
    lemma_balanced_prefix(m, '(', ')');
    lemma_balanced_prefix(b1, '[', ']');
    lemma_balanced_prefix(b2, '{', '}');
    assert(b3 == trimmed_token(t));
    let n = b3.len() as int;
    assert(b3 =~= t.subrange(a, a + n)) by {
        assert forall|j: int| 0 <= j < n implies b3[j] == t[a + j] by {
            assert(b3[j] == b2[j]);
            assert(b2[j] == b1[j]);
            assert(b1[j] == m[j]);
            assert(m[j] == s[j]);
        }
    }
    if n > 0 {
        assert(b3[0] == t[a]);
    }
}


/// A usable text starting with `/` (but not only slashes or backslashes) is
/// offered as an absolute path, kept only if it exists; a text holding a
/// control character, only whitespace, or only separators is never offered;
/// a relative text holding any of `= ; { } " ' ` | * < >` is never offered.
pub proof fn classification_of_paths(t: Seq<char>, delimited: bool)
    ensures
        t.len() > 0 && t[0] == '/' && !(forall|i: int| 0 <= i < t.len() ==> t[i] == '/' || t[i] == '\\') && (forall|i: int|
            0 <= i < t.len() ==> !is_control_char(#[trigger] t[i])) ==> !declined(t, delimited) && reading_of(t).1 == 1
            && reading_of(t).3 == PathConfidence::High && !reading_of(t).4,
        (exists|i: int| 0 <= i < t.len() && is_control_char(#[trigger] t[i])) ==> declined(t, delimited),
        t.len() > 0 && (forall|i: int| 0 <= i < t.len() ==> (#[trigger] t[i] == '/' || t[i] == '\\')) ==> declined(
            t,
            delimited,
        ),
        !absolute_text(t) && !uri_text(t) && (exists|i: int|
            0 <= i < t.len() && (#[trigger] t[i] == '=' || t[i] == ';' || t[i] == '{' || t[i] == '}' || t[i] == '"' || t[i]
                == '\'' || t[i] == '`' || t[i] == '|' || t[i] == '*' || t[i] == '<' || t[i] == '>')) ==> declined(t, delimited),
{
    if t.len() > 0 && t[0] == '/' && !(forall|i: int| 0 <= i < t.len() ==> t[i] == '/' || t[i] == '\\') && (forall|i: int|
        0 <= i < t.len() ==> !is_control_char(#[trigger] t[i])) {
        assert(!in_class(t[0], CharClass::White));
        let k = choose|i: int| 0 <= i < t.len() && !(t[i] == '/' || t[i] == '\\');
        assert(!in_class(t[k], CharClass::Separator));
        assert(!any_in(t, 0, t.len() as int, CharClass::Control));
    }
    if exists|i: int| 0 <= i < t.len() && is_control_char(#[trigger] t[i]) {
        let k = choose|i: int| 0 <= i < t.len() && is_control_char(#[trigger] t[i]);
        assert(in_class(t[k], CharClass::Control));
    }
    if t.len() > 0 && (forall|i: int| 0 <= i < t.len() ==> (#[trigger] t[i] == '/' || t[i] == '\\')) {
        assert forall|i: int| 0 <= i < t.len() implies in_class(#[trigger] t[i], CharClass::Separator) by {
            assert(t[i] == '/' || t[i] == '\\');
        }
    }
    if exists|i: int|
        0 <= i < t.len() && (#[trigger] t[i] == '=' || t[i] == ';' || t[i] == '{' || t[i] == '}' || t[i] == '"' || t[i]
            == '\'' || t[i] == '`' || t[i] == '|' || t[i] == '*' || t[i] == '<' || t[i] == '>') {
        let k = choose|i: int|
            0 <= i < t.len() && (#[trigger] t[i] == '=' || t[i] == ';' || t[i] == '{' || t[i] == '}' || t[i] == '"' || t[i]
                == '\'' || t[i] == '`' || t[i] == '|' || t[i] == '*' || t[i] == '<' || t[i] == '>');
        assert(in_class(t[k], CharClass::Forbidden));
    }
}

/// Quick-copy state of the selected item: its validated, tagged links.
pub struct LinkCopyState {
    pub owner: Option<DisplayId>,
    source: String,
    cwd: String,
    generation: u64,
    pub links: Vec<TaggedLink>,
    pub armed: bool,
}

pub open spec fn tags_spec() -> Seq<char> {
    "1234567890abcdefghijklmnopqrstuvwxyz"@
}


/// The tag key of the `k`th link.
fn tag_key(k: usize) -> (c: char)
    requires
        k < 36,
    ensures
        c == tags_spec()[k as int],
{
    proof {
        reveal_strlit("1234567890abcdefghijklmnopqrstuvwxyz");
    }
    if k == 0 {
        '1'
    } else 
    if k == 1 {
        '2'
    } else 
    if k == 2 {
        '3'
    } else 
    if k == 3 {
        '4'
    } else 
    if k == 4 {
        '5'
    } else 
    if k == 5 {
        '6'
    } else 
    if k == 6 {
        '7'
    } else 
    if k == 7 {
        '8'
    } else 
    if k == 8 {
        '9'
    } else 
    if k == 9 {
        '0'
    } else 
    if k == 10 {
        'a'
    } else 
    if k == 11 {
        'b'
    } else 
    if k == 12 {
        'c'
    } else 
    if k == 13 {
        'd'
    } else 
    if k == 14 {
        'e'
    } else 
    if k == 15 {
        'f'
    } else 
    if k == 16 {
        'g'
    } else 
    if k == 17 {
        'h'
    } else 
    if k == 18 {
        'i'
    } else 
    if k == 19 {
        'j'
    } else 
    if k == 20 {
        'k'
    } else 
    if k == 21 {
        'l'
    } else 
    if k == 22 {
        'm'
    } else 
    if k == 23 {
        'n'
    } else 
    if k == 24 {
        'o'
    } else 
    if k == 25 {
        'p'
    } else 
    if k == 26 {
        'q'
    } else 
    if k == 27 {
        'r'
    } else 
    if k == 28 {
        's'
    } else 
    if k == 29 {
        't'
    } else 
    if k == 30 {
        'u'
    } else 
    if k == 31 {
        'v'
    } else 
    if k == 32 {
        'w'
    } else 
    if k == 33 {
        'x'
    } else 
    if k == 34 {
        'y'
    } else {
        'z'
    }
}

impl LinkCopyState {
    pub closed spec fn owner_spec(&self) -> Option<DisplayId> {
        self.owner
    }

    pub closed spec fn links_spec(&self) -> Seq<TaggedLink> {
        self.links@
    }

    pub closed spec fn armed_spec(&self) -> bool {
        self.armed
    }

    pub closed spec fn generation_spec(&self) -> u64 {
        self.generation
    }

    pub closed spec fn cwd_spec(&self) -> Seq<char> {
        self.cwd@
    }

    pub closed spec fn source_spec(&self) -> Seq<char> {
        self.source@
    }

    pub fn new() -> (r: LinkCopyState)
        ensures
            r.owner_spec() is None,
            r.links_spec().len() == 0,
            !r.armed_spec(),
            r.generation_spec() == 0,
            r.cwd_spec().len() == 0,
            r.source_spec().len() == 0,
    {
        LinkCopyState {
            owner: None,
            source: String::new(),
            cwd: String::new(),
            generation: 0,
            links: Vec::new(),
            armed: false,
        }
    }

    /// Select an item's text for quick copy. Selecting the same item, text
    /// and directory again asks nothing; otherwise the old links go, a new
    /// generation starts, and the item's discovered groups are to be
    /// validated.
    pub fn select(&mut self, owner: DisplayId, source: &str, cwd: &str) -> (r: Option<LinkValidationRequest>)
        ensures
            r is None <==> (old(self).owner_spec() matches Some(o) && o.0@ == owner.0@ && old(self).source_spec()
                == source@ && old(self).cwd_spec() == cwd@),
            r is None ==> *final(self) == *old(self),
            r matches Some(q) ==> {
                &&& final(self).generation_spec() == (if old(self).generation_spec() == u64::MAX {
                    0
                } else {
                    (old(self).generation_spec() + 1) as u64
                })
                &&& final(self).owner_spec() == Some(owner)
                &&& final(self).source_spec() == source@
                &&& final(self).cwd_spec() == cwd@
                &&& final(self).links_spec().len() == 0
                &&& !final(self).armed_spec()
                &&& q.generation == final(self).generation_spec()
                &&& q.cwd@ == cwd@
                &&& gviews(q.groups@) == discovery::discovered(source@, discovery::markdown_events(source@))
            },
    {
        let same = match &self.owner {
            Some(o) => str_eq(o.0.as_str(), owner.0.as_str()) && str_eq(self.source.as_str(), source) && str_eq(
                self.cwd.as_str(),
                cwd,
            ),
            None => false,
        };
        if same {
            return None;
        }
        self.clear();
        self.owner = Some(owner);
        self.source = source.to_owned();
        self.cwd = cwd.to_owned();
        Some(LinkValidationRequest { generation: self.generation, cwd: cwd.to_owned(), groups: discovery::discover(source) })
    }

    /// Forget the selection; a pending validation becomes stale.
    pub fn clear(&mut self)
        ensures
            final(self).generation_spec() == (if old(self).generation_spec() == u64::MAX {
                0
            } else {
                (old(self).generation_spec() + 1) as u64
            }),
            final(self).owner_spec() is None,
            final(self).source_spec().len() == 0,
            final(self).cwd_spec() == old(self).cwd_spec(),
            final(self).links_spec().len() == 0,
            !final(self).armed_spec(),
    {
        self.generation = self.generation.wrapping_add(1);
        self.owner = None;
        self.source = String::new();
        self.links = Vec::new();
        self.armed = false;
    }

    /// Take a validation result. A stale one (no selection, another
    /// generation or directory) is refused; otherwise each group's resolved
    /// target, first occurrence only, gets the next tag key, as far as tags
    /// last.
    pub fn complete(&mut self, request: &LinkValidationRequest, validations: &[CandidateGroupValidation]) -> (r: bool)
        ensures
            r == (old(self).owner_spec() is Some && old(self).generation_spec() == request.generation && old(self).cwd_spec()
                == request.cwd@),
            !r ==> final(self).links_spec() == old(self).links_spec(),
            r ==> ({
                let ts = resolved_targets(request.groups@, validations@);
                let n = if ts.len() <= 36 { ts.len() } else { 36 };
                &&& final(self).links_spec().len() == n
                &&& forall|k: int|
                    0 <= k < n ==> (#[trigger] final(self).links_spec()[k]).target@ == ts[k] && final(self).links_spec()[k].tag
                        == tags_spec()[k]
            }),
            final(self).owner_spec() == old(self).owner_spec(),
            final(self).generation_spec() == old(self).generation_spec(),
            final(self).cwd_spec() == old(self).cwd_spec(),
            final(self).armed_spec() == old(self).armed_spec(),
    {
        if self.owner.is_none() || self.generation != request.generation || !str_eq(
            self.cwd.as_str(),
            request.cwd.as_str(),
        ) {
            return false;
        }
        let gs = &request.groups;
        let n = if gs.len() <= validations.len() {
            gs.len()
        } else {
            validations.len()
        };
        let mut targets: Vec<String> = Vec::new();
        let mut i: usize = 0;
        while i < n
            invariant
                i <= n,
                n <= gs@.len(),
                n <= validations@.len(),
                crate::text::strs_view(targets@) == resolved_targets(gs@.take(i as int), validations@.take(i as int)),
            decreases n - i,
        {
            proof {
                let g2 = gs@.take(i + 1);
                let v2 = validations@.take(i + 1);
                assert(g2.take(i as int) =~= gs@.take(i as int));
                assert(v2.take(i as int) =~= validations@.take(i as int));
                assert(g2[i as int] == gs@[i as int]);
                assert(v2[i as int] == validations@[i as int]);
            }
            match resolve_group(&gs[i], &validations[i]) {
                Some(c) => {
                    let mut seen = false;
                    let mut j: usize = 0;
                    while j < targets.len()
                        invariant
                            j <= targets@.len(),
                            seen == crate::text::strs_view(targets@).take(j as int).contains(c.target@),
                        decreases targets.len() - j,
                    {
                        proof {
                            let tv = crate::text::strs_view(targets@);
                            assert(tv.take(j + 1) =~= tv.take(j as int).push(tv[j as int]));
                        }
                        proof {
                            assert(crate::text::strs_view(targets@)[j as int] == targets@[j as int]@);
                        }
                        if str_eq(targets[j].as_str(), c.target.as_str()) {
                            seen = true;
                            proof {
                                let tv = crate::text::strs_view(targets@);
                                assert(tv.take(j + 1)[j as int] == c.target@);
                            }
                        }
                        j = j + 1;
                    }
                    proof {
                        let tv = crate::text::strs_view(targets@);
                        assert(tv.take(j as int) =~= tv);
                    }
                    if !seen {
                        let ghost before = crate::text::strs_view(targets@);
                        targets.push(c.target.clone());
                        proof {
                            assert(crate::text::strs_view(targets@) =~= before.push(c.target@));
                        }
                    }
                },
                None => {},
            }
            i = i + 1;
        }
        proof {
            if n == gs@.len() {
                assert(gs@.take(n as int) =~= gs@);
            }
            if n == validations@.len() {
                assert(validations@.take(n as int) =~= validations@);
            }
            lemma_targets_truncate(gs@, validations@);
        }
        let mut out: Vec<TaggedLink> = Vec::new();
        let limit = if targets.len() <= 36 {
            targets.len()
        } else {
            36
        };
        let mut t: usize = 0;
        while t < limit
            invariant
                limit <= targets@.len(),
                limit <= 36,
                t <= limit,
                out@.len() == t,
                forall|m: int|
                    0 <= m < t ==> (#[trigger] out@[m]).target@ == targets@[m]@ && out@[m].tag == tags_spec()[m],
            decreases limit - t,
        {
            out.push(TaggedLink { target: targets[t].clone(), tag: tag_key(t) });
            t = t + 1;
        }
        self.links = out;
        true
    }

    /// The target copied by a tag key.
    pub fn target(&self, tag: char) -> (r: Option<String>)
        ensures
            match r {
                Some(t) => exists|k: int|
                    0 <= k < self.links_spec().len() && (#[trigger] self.links_spec()[k]).tag == tag && t@ == self.links_spec()[k].target@
                        && forall|j: int| 0 <= j < k ==> self.links_spec()[j].tag != tag,
                None => forall|k: int| 0 <= k < self.links_spec().len() ==> (#[trigger] self.links_spec()[k]).tag != tag,
            },
    {
        let mut i: usize = 0;
        while i < self.links.len()
            invariant
                i <= self.links@.len(),
                forall|k: int| 0 <= k < i ==> (#[trigger] self.links@[k]).tag != tag,
            decreases self.links.len() - i,
        {
            if self.links[i].tag == tag {
                let t = self.links[i].target.clone();
                proof {
                    assert(0 <= i < self.links_spec().len() && self.links_spec()[i as int].tag == tag && t@ == self.links_spec()[i as int].target@);
                    assert(forall|j: int| 0 <= j < i ==> self.links_spec()[j].tag != tag);
                }
                return Some(t);
            }
            i = i + 1;
        }
        None
    }
}

/// Pairing stops at the shorter list.
proof fn lemma_targets_truncate(gs: Seq<LinkCandidateGroup>, vs: Seq<CandidateGroupValidation>)
    ensures
        ({
            let n = if gs.len() <= vs.len() { gs.len() } else { vs.len() };
            resolved_targets(gs, vs) == resolved_targets(gs.take(n as int), vs.take(n as int))
        }),
{
    let n = if gs.len() <= vs.len() { gs.len() } else { vs.len() };
    if n > 0 {
        let g2 = gs.take(n as int);
        let v2 = vs.take(n as int);
        assert(g2.take(n - 1) =~= gs.take(n - 1));
        assert(v2.take(n - 1) =~= vs.take(n - 1));
        assert(g2[n - 1] == gs[n - 1]);
        assert(v2[n - 1] == vs[n - 1]);
    }
}

impl Default for LinkCopyState {
    fn default() -> (r: LinkCopyState)
        ensures
            r.owner_spec() is None,
            r.links_spec().len() == 0,
            !r.armed_spec(),
            r.generation_spec() == 0,
    {
        LinkCopyState::new()
    }
}

} // verus!
