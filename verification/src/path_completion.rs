//! Owned path-completion values; directory I/O belongs to executable
//! adapters.
use vstd::prelude::*;

use crate::sorting::{insert_position, insert_sorted, insertion_sorted};
use vstd::string::StrSliceExecFns;
use crate::text::{
    chars_less, chars_of, contains, contains_seq, is_control, is_control_char, is_white_space,
    is_whitespace, lowercase, owned, push_char, push_str, seq_less, string_of_range, to_lowercase,
};

verus! {

#[derive(Debug, Clone, PartialEq, Eq)]
pub struct PathCompletionRequest {
    pub cwd: String,
    pub buffer: String,
    pub cursor: usize,
    pub query: String,
    /// Character range of the `@` token the completion replaces.
    pub token_start: usize,
    pub token_end: usize,
}

#[derive(Debug, Clone, PartialEq, Eq)]
pub struct PathCandidate {
    pub path: String,
    pub label: String,
}

/// Pure policy for matching one directory entry against a completion fragment.
#[derive(Debug, Clone, PartialEq, Eq)]
pub struct PathNameMatcher {
    needle: String,
}

/// Names that cannot be typed into a quoted token are never offered.
pub open spec fn typeable(name: Seq<char>) -> bool {
    forall|i: int| 0 <= i < name.len() ==> !is_control_char(#[trigger] name[i]) && name[i] != '"'
}

/// A name is offered for a lower-cased fragment when it is typeable and its
/// lower case contains the fragment.
pub open spec fn offered(needle: Seq<char>, name: Seq<char>) -> bool {
    typeable(name) && contains_seq(lowercase(name), needle)
}

/// Whitespace never keeps a name from being offered (such names are filled
/// in quotes): a name with no control character and no `"` is offered
/// exactly when its lower case holds the fragment, spaces or not; a name
/// with a control character or a `"` never is.
pub proof fn names_with_spaces_are_offered(needle: Seq<char>, name: Seq<char>)
    ensures
        (forall|i: int| 0 <= i < name.len() ==> !is_control_char(#[trigger] name[i]) && name[i] != '"') ==> (offered(
            needle,
            name,
        ) == contains_seq(lowercase(name), needle)),
        (exists|i: int| 0 <= i < name.len() && (is_control_char(#[trigger] name[i]) || name[i] == '"')) ==> !offered(
            needle,
            name,
        ),
{
}

impl PathNameMatcher {
    pub closed spec fn needle_spec(&self) -> Seq<char> {
        self.needle@
    }

    pub fn new(fragment: &str) -> (r: PathNameMatcher)
        ensures
            r.needle_spec() == lowercase(fragment@),
    {
        PathNameMatcher { needle: to_lowercase(fragment) }
    }

    /// A typeable name whose lower case contains the lower-cased fragment.
    pub fn matches(&self, name: &str) -> (r: bool)
        ensures
            r == offered(self.needle_spec(), name@),
    {
        let v = chars_of(name);
        let mut i: usize = 0;
        while i < v.len()
            invariant
                i <= v@.len(),
                v@ == name@,
                forall|k: int| 0 <= k < i ==> !is_control_char(#[trigger] v@[k]) && v@[k] != '"',
            decreases v.len() - i,
        {
            if is_control(v[i]) || v[i] == '"' {
                return false;
            }
            i = i + 1;
        }
        let lowered = to_lowercase(name);
        let hay = chars_of(lowered.as_str());
        let needle = chars_of(self.needle.as_str());
        contains(hay.as_slice(), needle.as_slice())
    }
}

/// Directories (labels ending in `/`) first, then byte order of labels.
pub open spec fn candidate_after(a: (Seq<char>, Seq<char>), b: (Seq<char>, Seq<char>)) -> bool {
    let a_dir = a.1.len() > 0 && a.1.last() == '/';
    let b_dir = b.1.len() > 0 && b.1.last() == '/';
    (b_dir && !a_dir) || (a_dir == b_dir && seq_less(b.1, a.1))
}

pub open spec fn by_kind_and_label() -> spec_fn((Seq<char>, Seq<char>), (Seq<char>, Seq<char>)) -> bool {
    |a: (Seq<char>, Seq<char>), b: (Seq<char>, Seq<char>)| candidate_after(a, b)
}

pub open spec fn candidate_view(c: PathCandidate) -> (Seq<char>, Seq<char>) {
    (c.path@, c.label@)
}

pub open spec fn candidates_view(s: Seq<PathCandidate>) -> Seq<(Seq<char>, Seq<char>)> {
    s.map_values(|c: PathCandidate| candidate_view(c))
}

/// The ordered, size-limited candidate list.
pub open spec fn finalized(s: Seq<(Seq<char>, Seq<char>)>) -> Seq<(Seq<char>, Seq<char>)> {
    let sorted = insertion_sorted(s, by_kind_and_label());
    if sorted.len() > 100 {
        sorted.take(100)
    } else {
        sorted
    }
}

fn ends_with_slash(s: &str) -> (r: bool)
    ensures
        r == (s@.len() > 0 && s@.last() == '/'),
{
    let v = chars_of(s);
    v.len() > 0 && v[v.len() - 1] == '/'
}

fn goes_after(c: &PathCandidate, x_dir: bool, xl: &[char]) -> (r: bool)
    ensures
        r == ((x_dir && !(c.label@.len() > 0 && c.label@.last() == '/')) || ((c.label@.len() > 0
            && c.label@.last() == '/') == x_dir && seq_less(xl@, c.label@))),
{
    let c_dir = ends_with_slash(c.label.as_str());
    (x_dir && !c_dir) || (c_dir == x_dir && chars_less(xl, chars_of(c.label.as_str()).as_slice()))
}

fn insert_candidate(v: &mut Vec<PathCandidate>, x: PathCandidate)
    ensures
        candidates_view(final(v)@) == insert_sorted(candidates_view(old(v)@), candidate_view(x), by_kind_and_label()),
{
    let ghost s = candidates_view(v@);
    let x_dir = ends_with_slash(x.label.as_str());
    let xl = chars_of(x.label.as_str());
    let mut p: usize = 0;
    proof {
        assert(s.skip(0) =~= s);
    }
    while p < v.len() && !goes_after(&v[p], x_dir, xl.as_slice())
        invariant
            p <= v@.len(),
            s == candidates_view(v@),
            xl@ == x.label@,
            x_dir == (x.label@.len() > 0 && x.label@.last() == '/'),
            insert_position(s, candidate_view(x), by_kind_and_label()) == p + insert_position(
                s.skip(p as int),
                candidate_view(x),
                by_kind_and_label(),
            ),
        decreases v.len() - p,
    {
        proof {
            assert(s.skip(p as int)[0] == candidate_view(v@[p as int]));
            assert(s.skip(p as int).drop_first() =~= s.skip(p + 1));
        }
        p = p + 1;
    }
    proof {
        if p < v@.len() {
            assert(s.skip(p as int)[0] == candidate_view(v@[p as int]));
        }
    }
    let ghost xv = candidate_view(x);
    v.insert(p, x);
    proof {
        assert(candidates_view(v@) =~= s.insert(p as int, xv));
    }
}

/// Apply the shared ordering and size policy to already-built candidates:
/// directories first, then labels in byte order, at most one hundred.
pub fn finalize_candidates(candidates: Vec<PathCandidate>) -> (r: Vec<PathCandidate>)
    ensures
        candidates_view(r@) == finalized(candidates_view(candidates@)),
{
    let ghost all = candidates_view(candidates@);
    let mut rest = candidates;
    let mut reversed: Vec<PathCandidate> = Vec::new();
    while rest.len() > 0
        invariant
            candidates_view(rest@) == all.take(rest@.len() as int),
            reversed@.len() + rest@.len() == all.len(),
            forall|k: int| 0 <= k < reversed@.len() ==> candidate_view(#[trigger] reversed@[k]) == all[all.len() - 1 - k],
        decreases rest.len(),
    {
        let ghost n = rest@.len() as int;
        let ghost before = rest@;
        let c = rest.pop().unwrap();
        proof {
            assert(candidates_view(rest@) =~= candidates_view(before).drop_last());
            assert(all.take(n - 1) =~= all.take(n).drop_last());
            assert(candidates_view(before).last() == candidate_view(c));
        }
        reversed.push(c);
    }
    let mut sorted: Vec<PathCandidate> = Vec::new();
    let mut i: usize = 0;
    let total = reversed.len();
    while reversed.len() > 0
        invariant
            reversed@.len() + i == all.len(),
            all.len() == total,
            forall|k: int| 0 <= k < reversed@.len() ==> candidate_view(#[trigger] reversed@[k]) == all[all.len() - 1 - k],
            candidates_view(sorted@) == insertion_sorted(all.take(i as int), by_kind_and_label()),
        decreases reversed.len(),
    {
        let c = reversed.pop().unwrap();
        proof {
            assert(candidate_view(c) == all[i as int]);
            assert(all.take(i + 1).drop_last() =~= all.take(i as int));
        }
        insert_candidate(&mut sorted, c);
        i = i + 1;
    }
    proof {
        assert(all.take(i as int) =~= all);
    }
    let ghost ss = sorted@;
    if sorted.len() > 100 {
        sorted.truncate(100);
        proof {
            assert(candidates_view(sorted@) =~= candidates_view(ss).take(100));
        }
    }
    sorted
}

/// The start of the `@` token before `cursor`: the last `@` that opens the
/// buffer or follows whitespace.
pub open spec fn token_start(chars: Seq<char>, cursor: int) -> Option<int>
    decreases cursor,
{
    if cursor <= 0 {
        None
    } else if chars[cursor - 1] == '@' && (cursor - 1 == 0 || is_white_space(chars[cursor - 2])) {
        Some(cursor - 1)
    } else {
        token_start(chars, cursor - 1)
    }
}

/// First index at or after `from` holding `c`.
pub open spec fn find_from(chars: Seq<char>, from: int, c: char) -> Option<int>
    decreases chars.len() - from,
{
    if from >= chars.len() {
        None
    } else if chars[from] == c {
        Some(from)
    } else {
        find_from(chars, from + 1, c)
    }
}

/// First whitespace at or after `from`.
pub open spec fn find_ws_from(chars: Seq<char>, from: int) -> Option<int>
    decreases chars.len() - from,
{
    if from >= chars.len() {
        None
    } else if is_white_space(chars[from]) {
        Some(from)
    } else {
        find_ws_from(chars, from + 1)
    }
}

/// `\` written as `/`.
pub open spec fn forward_slashes(s: Seq<char>) -> Seq<char> {
    s.map_values(|c: char| if c == '\\' { '/' } else { c })
}

/// `(token start, token end, query)` of the completion `cursor` is in.
pub open spec fn completion_token(chars: Seq<char>, cursor: int) -> Option<(int, int, Seq<char>)> {
    if cursor > chars.len() {
        None
    } else {
        match token_start(chars, cursor) {
            None => None,
            Some(start) => {
                let quoted = start + 1 < chars.len() && chars[start + 1] == '"';
                let query_start = start + 1 + if quoted {
                    1int
                } else {
                    0int
                };
                if cursor < query_start {
                    None
                } else {
                    let query_end = if quoted && chars[cursor - 1] == '"' && cursor > query_start {
                        cursor - 1
                    } else {
                        cursor
                    };
                    let query = chars.subrange(query_start, query_end);
                    if query.contains('"') || query.contains('\n') || query.contains('\r') || (!quoted
                        && crate::text::has_white_space(query)) {
                        None
                    } else {
                        let end = if quoted {
                            if query_end < cursor {
                                cursor
                            } else {
                                match find_from(chars, cursor, '"') {
                                    Some(i) => i + 1,
                                    None => cursor,
                                }
                            }
                        } else {
                            match find_ws_from(chars, cursor) {
                                Some(i) => i,
                                None => chars.len() as int,
                            }
                        };
                        Some((start, end, forward_slashes(query)))
                    }
                }
            },
        }
    }
}

/// How a path is written into the buffer: `@path`, quoted when it holds
/// whitespace.
pub open spec fn path_token(path: Seq<char>) -> Seq<char> {
    if crate::text::has_white_space(path) {
        "@\""@ + path + "\""@
    } else {
        "@"@ + path
    }
}

impl PathCompletionRequest {
    /// The completion request the cursor is in, if it is inside an `@` path
    /// token of a buffer with a working directory.
    pub fn new(cwd: &str, buffer: &str, cursor: usize) -> (r: Option<PathCompletionRequest>)
        ensures
            cwd@.len() == 0 ==> r is None,
            cwd@.len() > 0 ==> match completion_token(buffer@, cursor as int) {
                Some((start, end, query)) => r matches Some(req) && req.cwd@ == cwd@ && req.buffer@
                    == buffer@ && req.cursor == cursor && req.query@ == query && req.token_start
                    == start && req.token_end == end,
                None => r is None,
            },
    {
        if cwd.unicode_len() == 0 {
            return None;
        }
        let chars = chars_of(buffer);
        let n = chars.len();
        if cursor > n {
            return None;
        }
        let mut i = cursor;
        while i > 0 && !(chars[i - 1] == '@' && (i - 1 == 0 || is_whitespace(chars[i - 2])))
            invariant
                i <= cursor <= n == chars@.len(),
                token_start(chars@, cursor as int) == token_start(chars@, i as int),
            decreases i,
        {
            i = i - 1;
        }
        if i == 0 {
            return None;
        }
        let start = i - 1;
        let quoted = start + 1 < n && chars[start + 1] == '"';
        let query_start = start + 1 + if quoted {
            1
        } else {
            0
        };
        if cursor < query_start {
            return None;
        }
        let query_end = if quoted && chars[cursor - 1] == '"' && cursor > query_start {
            cursor - 1
        } else {
            cursor
        };
        let mut k = query_start;
        let mut bad = false;
        while k < query_end
            invariant
                query_start <= k <= query_end <= n == chars@.len(),
                bad == exists|j: int| query_start <= j < k && (chars@[j] == '"' || chars@[j] == '\n'
                    || chars@[j] == '\r' || (!quoted && is_white_space(chars@[j]))),
            decreases query_end - k,
        {
            let c = chars[k];
            if c == '"' || c == '\n' || c == '\r' || (!quoted && is_whitespace(c)) {
                bad = true;
            }
            k = k + 1;
        }
        let ghost query = chars@.subrange(query_start as int, query_end as int);
        proof {
            if bad {
                let j = choose|j: int| query_start <= j < query_end && (chars@[j] == '"' || chars@[j]
                    == '\n' || chars@[j] == '\r' || (!quoted && is_white_space(chars@[j])));
                assert(query[j - query_start] == chars@[j]);
            } else {
                assert forall|c: char| #![auto] (c == '"' || c == '\n' || c == '\r') implies !query.contains(c) by {
                    if query.contains(c) {
                        let j = choose|j: int| 0 <= j < query.len() && query[j] == c;
                        assert(chars@[query_start + j] == c);
                    }
                }
                if !quoted && crate::text::has_white_space(query) {
                    let j = choose|j: int| 0 <= j < query.len() && is_white_space(query[j]);
                    assert(chars@[query_start + j] == query[j]);
                }
            }
        }
        if bad {
            return None;
        }
        let end = if quoted {
            if query_end < cursor {
                cursor
            } else {
                let mut q = cursor;
                while q < n && chars[q] != '"'
                    invariant
                        cursor <= q <= n == chars@.len(),
                        find_from(chars@, cursor as int, '"') == find_from(chars@, q as int, '"'),
                    decreases n - q,
                {
                    q = q + 1;
                }
                if q < n {
                    q + 1
                } else {
                    cursor
                }
            }
        } else {
            let mut q = cursor;
            while q < n && !is_whitespace(chars[q])
                invariant
                    cursor <= q <= n == chars@.len(),
                    find_ws_from(chars@, cursor as int) == find_ws_from(chars@, q as int),
                decreases n - q,
            {
                q = q + 1;
            }
            q
        };
        let mut query_text = String::new();
        let mut m = query_start;
        while m < query_end
            invariant
                query_start <= m <= query_end <= n == chars@.len(),
                query_text@ == forward_slashes(chars@.subrange(query_start as int, m as int)),
            decreases query_end - m,
        {
            let c = chars[m];
            push_char(&mut query_text, if c == '\\' { '/' } else { c });
            proof {
                assert(forward_slashes(chars@.subrange(query_start as int, m + 1)) =~= forward_slashes(
                    chars@.subrange(query_start as int, m as int),
                ).push(if c == '\\' { '/' } else { c }));
            }
            m = m + 1;
        }
        Some(PathCompletionRequest {
            cwd: owned(cwd),
            buffer: owned(buffer),
            cursor,
            query: query_text,
            token_start: start,
            token_end: end,
        })
    }

    /// The buffer with the token replaced by `path`, and the cursor after it.
    pub fn fill(&self, path: &str) -> (r: (String, usize))
        requires
            self.token_start <= self.token_end <= self.buffer@.len(),
        ensures
            r.0@ == self.buffer@.take(self.token_start as int) + path_token(path@) + self.buffer@.skip(
                self.token_end as int,
            ),
            r.1 == self.token_start + path_token(path@).len(),
    {
        let pv = chars_of(path);
        let ws = crate::text::any_whitespace(pv.as_slice());
        let mut value = String::new();
        if ws {
            push_str(&mut value, "@\"");
            push_str(&mut value, path);
            push_str(&mut value, "\"");
        } else {
            push_str(&mut value, "@");
            push_str(&mut value, path);
        }
        proof {
            reveal_strlit("@\"");
            reveal_strlit("\"");
            reveal_strlit("@");
        }
        let b = chars_of(self.buffer.as_str());
        let mut out = string_of_range(b.as_slice(), 0, self.token_start);
        let count = value.unicode_len();
        push_str(&mut out, value.as_str());
        let after = string_of_range(b.as_slice(), self.token_end, b.len());
        push_str(&mut out, after.as_str());
        proof {
            assert(b@.subrange(0, self.token_start as int) =~= self.buffer@.take(self.token_start as int));
            assert(b@.subrange(self.token_end as int, b@.len() as int) =~= self.buffer@.skip(self.token_end as int));
        }
        let whole = crate::text::char_count_fits(out.as_str());
        (out, self.token_start + count)
    }
}


proof fn lemma_token_start_skips(chars: Seq<char>, start: int, c: int)
    requires
        0 <= start < c <= chars.len(),
        forall|j: int| start < j < c ==> chars[j] != '@',
    ensures
        token_start(chars, c) == token_start(chars, start + 1),
    decreases c - start,
{
    if c > start + 1 {
        assert(chars[c - 1] != '@');
        lemma_token_start_skips(chars, start, c - 1);
    }
}

/// Filling a completion and asking again at the new cursor gives the same
/// path back: a non-empty path with no `@`, `"`, `\`, line break, written after the
/// start of the buffer or after whitespace, is read back whole, quoted or
/// not, whatever follows it.
pub proof fn filled_paths_read_back(prefix: Seq<char>, path: Seq<char>, suffix: Seq<char>)
    requires
        prefix.len() == 0 || is_white_space(prefix.last()),
        path.len() > 0,
        forall|i: int|
            0 <= i < path.len() ==> #[trigger] path[i] != '@' && path[i] != '"' && path[i] != '\\' && path[i] != '\n' && path[i]
                != '\r',
    ensures
        ({
            let chars = prefix + path_token(path) + suffix;
            let cursor = (prefix.len() + path_token(path).len()) as int;
            let tok = completion_token(chars, cursor);
            &&& tok is Some
            &&& tok.unwrap().0 == prefix.len()
            &&& tok.unwrap().2 == path
        }),
{
    let tok = path_token(path);
    let chars = prefix + tok + suffix;
    let start = prefix.len() as int;
    let cursor = start + tok.len();
    reveal_strlit("@\"");
    reveal_strlit("\"");
    reveal_strlit("@");
    let quoted = crate::text::has_white_space(path);
    assert(chars[start] == '@');
    assert forall|j: int| start < j < cursor implies chars[j] != '@' by {
        if quoted {
            if j == start + 1 || j == cursor - 1 {
            } else {
                assert(chars[j] == path[j - start - 2]);
            }
        } else {
            assert(chars[j] == path[j - start - 1]);
        }
    }
    lemma_token_start_skips(chars, start, cursor);
    if start > 0 {
        assert(chars[start - 1] == prefix.last());
    }
    assert(token_start(chars, start + 1) == Some(start));
    assert(forward_slashes(path) =~= path);
    assert(!path.contains('"'));
    assert(!path.contains('\n'));
    assert(!path.contains('\r'));
    if quoted {
        assert(path.len() > 0);
        assert(chars[start + 1] == '"');
        assert(chars[cursor - 1] == '"');
        assert(chars.subrange(start + 2, cursor - 1) =~= path);
    } else {
        if path.len() > 0 {
            assert(chars[start + 1] == path[0]);
        }
        assert(chars.subrange(start + 1, cursor) =~= path);
    }
}

} // verus!
