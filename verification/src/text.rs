//! Character-level text helpers shared by the frontend models.
//!
//! Strings are specified by their character sequences (`s@`). The helpers
//! below implement the small pieces of `str` behaviour the frontend relies on
//! (trimming, prefixes, substring search, decimal rendering) against short
//! specifications over those sequences.
use vstd::prelude::*;
use vstd::string::{StrSliceExecFns, StringExecFns, StringSliceAdditionalSpecFns};

verus! {

/// Unicode `White_Space` property, as used by `char::is_whitespace`.
pub open spec fn is_white_space(c: char) -> bool {
    let n = c as u32;
    ||| 0x9 <= n <= 0xD
    ||| n == 0x20
    ||| n == 0x85
    ||| n == 0xA0
    ||| n == 0x1680
    ||| 0x2000 <= n <= 0x200A
    ||| n == 0x2028
    ||| n == 0x2029
    ||| n == 0x202F
    ||| n == 0x205F
    ||| n == 0x3000
}

/// Unicode general category `Cc`, as used by `char::is_control`.
pub open spec fn is_control_char(c: char) -> bool {
    let n = c as u32;
    n <= 0x1F || (0x7F <= n <= 0x9F)
}

pub fn is_whitespace(c: char) -> (r: bool)
    ensures
        r == is_white_space(c),
{
    let n = c as u32;
    (0x9 <= n && n <= 0xD) || n == 0x20 || n == 0x85 || n == 0xA0 || n == 0x1680 || (0x2000
        <= n && n <= 0x200A) || n == 0x2028 || n == 0x2029 || n == 0x202F || n == 0x205F || n
        == 0x3000
}

pub fn is_control(c: char) -> (r: bool)
    ensures
        r == is_control_char(c),
{
    let n = c as u32;
    n <= 0x1F || (0x7F <= n && n <= 0x9F)
}

pub open spec fn ascii_lower(c: char) -> char {
    if 'A' <= c && c <= 'Z' {
        ((c as u32) + 32) as char
    } else {
        c
    }
}

pub open spec fn is_ascii_upper(c: char) -> bool {
    'A' <= c && c <= 'Z'
}

pub fn to_ascii_lowercase(c: char) -> (r: char)
    ensures
        r == ascii_lower(c),
{
    if 'A' <= c && c <= 'Z' {
        let n = (c as u32) + 32;
        // Lower-case ASCII letters are valid scalar values.
        let mut r = 'a';
        if n == 97 { r = 'a' }
        else if n == 98 { r = 'b' }
        else if n == 99 { r = 'c' }
        else if n == 100 { r = 'd' }
        else if n == 101 { r = 'e' }
        else if n == 102 { r = 'f' }
        else if n == 103 { r = 'g' }
        else if n == 104 { r = 'h' }
        else if n == 105 { r = 'i' }
        else if n == 106 { r = 'j' }
        else if n == 107 { r = 'k' }
        else if n == 108 { r = 'l' }
        else if n == 109 { r = 'm' }
        else if n == 110 { r = 'n' }
        else if n == 111 { r = 'o' }
        else if n == 112 { r = 'p' }
        else if n == 113 { r = 'q' }
        else if n == 114 { r = 'r' }
        else if n == 115 { r = 's' }
        else if n == 116 { r = 't' }
        else if n == 117 { r = 'u' }
        else if n == 118 { r = 'v' }
        else if n == 119 { r = 'w' }
        else if n == 120 { r = 'x' }
        else if n == 121 { r = 'y' }
        else { r = 'z' }
        r
    } else {
        c
    }
}

/// Two sequences agree when ASCII letters are compared without case.
pub open spec fn eq_ignore_ascii_case_spec(a: Seq<char>, b: Seq<char>) -> bool {
    &&& a.len() == b.len()
    &&& forall|i: int| 0 <= i < a.len() ==> ascii_lower(#[trigger] a[i]) == ascii_lower(b[i])
}

/// The characters of a string slice, in order.
pub fn chars_of(s: &str) -> (v: Vec<char>)
    ensures
        v@ == s@,
{
    let mut v: Vec<char> = Vec::new();
    for c in it: s.chars()
        invariant
            v@ == it.seq().take(it.index() as int),
    {
        v.push(c);
    }
    v
}

/// Appends one character to a string.
#[verifier::external_body]
pub fn push_char(s: &mut String, c: char)
    ensures
        final(s)@ == old(s)@.push(c),
{
    s.push(c);
}

/// Appends a string slice to a string.
pub fn push_str(s: &mut String, t: &str)
    ensures
        final(s)@ == old(s)@ + t@,
{
    s.append(t);
}

/// A string holding exactly the given characters.
pub fn string_of(v: &[char]) -> (s: String)
    ensures
        s@ == v@,
{
    let mut s = String::new();
    let mut i: usize = 0;
    while i < v.len()
        invariant
            i <= v.len(),
            s@ == v@.take(i as int),
        decreases v.len() - i,
    {
        push_char(&mut s, v[i]);
        proof {
            assert(v@.take(i as int + 1) == v@.take(i as int).push(v@[i as int]));
        }
        i = i + 1;
    }
    proof {
        assert(v@.take(v.len() as int) == v@);
    }
    s
}

/// A string holding the characters `v[from..to]`.
pub fn string_of_range(v: &[char], from: usize, to: usize) -> (s: String)
    requires
        from <= to <= v@.len(),
    ensures
        s@ == v@.subrange(from as int, to as int),
{
    let mut s = String::new();
    let mut i: usize = from;
    while i < to
        invariant
            from <= i <= to <= v@.len(),
            s@ == v@.subrange(from as int, i as int),
        decreases to - i,
    {
        push_char(&mut s, v[i]);
        proof {
            assert(v@.subrange(from as int, i + 1) == v@.subrange(from as int, i as int).push(
                v@[i as int],
            ));
        }
        i = i + 1;
    }
    s
}

/// An owned copy of a string slice.
pub fn owned(s: &str) -> (r: String)
    ensures
        r@ == s@,
{
    s.to_owned()
}

/// A copy of a string with the same characters.
pub fn copy_string(s: &String) -> (r: String)
    ensures
        r@ == s@,
{
    s.clone()
}

/// The character sequence of an optional string.
pub open spec fn opt_view(o: Option<String>) -> Option<Seq<char>> {
    match o {
        Some(s) => Some(s@),
        None => None,
    }
}

/// The character sequences of a sequence of strings.
pub open spec fn strs_view(v: Seq<String>) -> Seq<Seq<char>> {
    v.map_values(|s: String| s@)
}

/// Copies of every string in a vector.
pub fn copy_strings(v: &Vec<String>) -> (r: Vec<String>)
    ensures
        r@.len() == v@.len(),
        forall|i: int| 0 <= i < v@.len() ==> #[trigger] r@[i]@ == v@[i]@,
        strs_view(r@) == strs_view(v@),
{
    let mut r: Vec<String> = Vec::new();
    let mut i: usize = 0;
    while i < v.len()
        invariant
            i <= v.len(),
            r@.len() == i,
            forall|k: int| 0 <= k < i ==> #[trigger] r@[k]@ == v@[k]@,
        decreases v.len() - i,
    {
        r.push(v[i].clone());
        i = i + 1;
    }
    proof {
        assert(strs_view(r@) =~= strs_view(v@));
    }
    r
}

/// A copy of an optional string.
pub fn copy_opt_string(s: &Option<String>) -> (r: Option<String>)
    ensures
        opt_view(r) == opt_view(*s),
{
    match s {
        Some(v) => Some(v.clone()),
        None => None,
    }
}

/// Equality of the character sequences of two optional strings.
pub fn opt_string_eq(a: &Option<String>, b: &Option<String>) -> (r: bool)
    ensures
        r == (opt_view(*a) == opt_view(*b)),
{
    match (a, b) {
        (Some(x), Some(y)) => *x == *y,
        (None, None) => true,
        _ => false,
    }
}

/// Equality of the character sequences of two vectors of strings.
pub fn strings_eq(a: &Vec<String>, b: &Vec<String>) -> (r: bool)
    ensures
        r == (strs_view(a@) == strs_view(b@)),
{
    if a.len() != b.len() {
        proof {
            assert(strs_view(a@).len() != strs_view(b@).len());
        }
        return false;
    }
    let mut i: usize = 0;
    while i < a.len()
        invariant
            a@.len() == b@.len(),
            i <= a@.len(),
            forall|k: int| 0 <= k < i ==> a@[k]@ == b@[k]@,
        decreases a.len() - i,
    {
        if a[i] != b[i] {
            proof {
                assert(strs_view(a@)[i as int] != strs_view(b@)[i as int]);
            }
            return false;
        }
        i = i + 1;
    }
    proof {
        assert(strs_view(a@) =~= strs_view(b@));
    }
    true
}

/// Equality of the character sequences of two string slices.
pub fn str_eq(a: &str, b: &str) -> (r: bool)
    ensures
        r == (a@ == b@),
{
    let x = a.to_owned();
    let y = b.to_owned();
    x == y
}

/// Equality of two character slices.
pub fn chars_eq(a: &[char], b: &[char]) -> (r: bool)
    ensures
        r == (a@ == b@),
{
    if a.len() != b.len() {
        return false;
    }
    let mut i: usize = 0;
    while i < a.len()
        invariant
            a@.len() == b@.len(),
            i <= a@.len(),
            forall|k: int| 0 <= k < i ==> a@[k] == b@[k],
        decreases a.len() - i,
    {
        if a[i] != b[i] {
            return false;
        }
        i = i + 1;
    }
    proof {
        assert(a@ =~= b@);
    }
    true
}

/// Case-insensitive comparison of ASCII letters; other characters must match exactly.
pub fn eq_ignore_ascii_case(a: &str, b: &str) -> (r: bool)
    ensures
        r == eq_ignore_ascii_case_spec(a@, b@),
{
    let x = chars_of(a);
    let y = chars_of(b);
    if x.len() != y.len() {
        return false;
    }
    let mut i: usize = 0;
    while i < x.len()
        invariant
            x@ == a@,
            y@ == b@,
            x@.len() == y@.len(),
            i <= x@.len(),
            forall|k: int| 0 <= k < i ==> ascii_lower(#[trigger] x@[k]) == ascii_lower(y@[k]),
        decreases x.len() - i,
    {
        if to_ascii_lowercase(x[i]) != to_ascii_lowercase(y[i]) {
            return false;
        }
        i = i + 1;
    }
    true
}

/// Whether `prefix` begins `s`.
pub open spec fn has_prefix(s: Seq<char>, prefix: Seq<char>) -> bool {
    prefix.len() <= s.len() && s.subrange(0, prefix.len() as int) == prefix
}

/// Whether `suffix` ends `s`.
pub open spec fn has_suffix(s: Seq<char>, suffix: Seq<char>) -> bool {
    suffix.len() <= s.len() && s.subrange(s.len() - suffix.len(), s.len() as int) == suffix
}

/// Whether `needle` occurs in `s` starting at `i`.
pub open spec fn occurs_at(s: Seq<char>, needle: Seq<char>, i: int) -> bool {
    0 <= i && i + needle.len() <= s.len() && s.subrange(i, i + needle.len()) == needle
}

/// Whether `needle` occurs anywhere in `s`.
pub open spec fn contains_seq(s: Seq<char>, needle: Seq<char>) -> bool {
    exists|i: int| occurs_at(s, needle, i)
}

/// Whether `v` holds `c`.
pub open spec fn has_char(v: Seq<char>, c: char) -> bool {
    exists|i: int| 0 <= i < v.len() && v[i] == c
}

/// Whether `needle` occurs in `s` at position `at`.
pub fn matches_at(s: &[char], needle: &[char], at: usize) -> (r: bool)
    ensures
        r == occurs_at(s@, needle@, at as int),
{
    if at > s.len() || needle.len() > s.len() - at {
        return false;
    }
    let mut i: usize = 0;
    while i < needle.len()
        invariant
            at + needle@.len() <= s@.len(),
            s@.len() <= usize::MAX,
            i <= needle@.len(),
            forall|k: int| 0 <= k < i ==> s@[at + k] == needle@[k],
        decreases needle.len() - i,
    {
        if s[at + i] != needle[i] {
            proof {
                assert(s@.subrange(at as int, at + needle@.len())[i as int] != needle@[i as int]);
            }
            return false;
        }
        i = i + 1;
    }
    proof {
        assert(s@.subrange(at as int, at + needle@.len()) =~= needle@);
    }
    true
}

/// Whether `prefix` begins `s`.
pub fn starts_with(s: &[char], prefix: &[char]) -> (r: bool)
    ensures
        r == has_prefix(s@, prefix@),
{
    matches_at(s, prefix, 0)
}

/// `s` without `prefix`, when it begins with it.
pub fn strip_prefix(s: &str, prefix: &str) -> (r: Option<String>)
    ensures
        match r {
            Some(rest) => has_prefix(s@, prefix@) && rest@ == s@.subrange(prefix@.len() as int, s@.len() as int),
            None => !has_prefix(s@, prefix@),
        },
{
    let v = chars_of(s);
    let p = chars_of(prefix);
    if starts_with(v.as_slice(), p.as_slice()) {
        Some(string_of_range(v.as_slice(), p.len(), v.len()))
    } else {
        None
    }
}

/// Whether `suffix` ends `s`.
pub fn ends_with(s: &[char], suffix: &[char]) -> (r: bool)
    ensures
        r == has_suffix(s@, suffix@),
{
    if suffix.len() > s.len() {
        return false;
    }
    matches_at(s, suffix, s.len() - suffix.len())
}

/// The first position at which `needle` occurs in `s`, if any.
pub fn find_seq(s: &[char], needle: &[char]) -> (r: Option<usize>)
    ensures
        r is Some ==> occurs_at(s@, needle@, r->0 as int) && forall|j: int|
            0 <= j < r->0 ==> !occurs_at(s@, needle@, j),
        r is None ==> !contains_seq(s@, needle@),
{
    if needle.len() > s.len() {
        return None;
    }
    let limit = s.len() - needle.len();
    let mut i: usize = 0;
    loop
        invariant
            needle@.len() <= s@.len(),
            limit == s@.len() - needle@.len(),
            i <= limit,
            forall|j: int| 0 <= j < i ==> !occurs_at(s@, needle@, j),
        decreases limit - i,
    {
        if matches_at(s, needle, i) {
            return Some(i);
        }
        if i == limit {
            return None;
        }
        i = i + 1;
    }
}

/// Whether `needle` occurs anywhere in `s`.
pub fn contains(s: &[char], needle: &[char]) -> (r: bool)
    ensures
        r == contains_seq(s@, needle@),
{
    find_seq(s, needle).is_some()
}

/// Whether `c` occurs in `v`.
pub fn contains_char(v: &[char], c: char) -> (r: bool)
    ensures
        r == has_char(v@, c),
{
    let mut i: usize = 0;
    while i < v.len()
        invariant
            i <= v@.len(),
            forall|k: int| 0 <= k < i ==> v@[k] != c,
        decreases v.len() - i,
    {
        if v[i] == c {
            return true;
        }
        i = i + 1;
    }
    false
}

/// Whether any character of `v` is whitespace.
pub open spec fn has_white_space(v: Seq<char>) -> bool {
    exists|i: int| 0 <= i < v.len() && is_white_space(v[i])
}

pub fn any_whitespace(v: &[char]) -> (r: bool)
    ensures
        r == has_white_space(v@),
{
    let mut i: usize = 0;
    while i < v.len()
        invariant
            i <= v@.len(),
            forall|k: int| 0 <= k < i ==> !is_white_space(v@[k]),
        decreases v.len() - i,
    {
        if is_whitespace(v[i]) {
            return true;
        }
        i = i + 1;
    }
    false
}

/// Whether every character of `v` is whitespace.
pub open spec fn all_white_space(v: Seq<char>) -> bool {
    forall|i: int| 0 <= i < v.len() ==> is_white_space(v[i])
}

/// `s` without leading whitespace.
pub open spec fn trim_start(s: Seq<char>) -> Seq<char>
    decreases s.len(),
{
    if s.len() > 0 && is_white_space(s[0]) {
        trim_start(s.drop_first())
    } else {
        s
    }
}

/// `s` without trailing whitespace.
pub open spec fn trim_end(s: Seq<char>) -> Seq<char>
    decreases s.len(),
{
    if s.len() > 0 && is_white_space(s.last()) {
        trim_end(s.drop_last())
    } else {
        s
    }
}

/// `s` without leading and trailing whitespace, as `str::trim` gives it.
pub open spec fn trim(s: Seq<char>) -> Seq<char> {
    trim_end(trim_start(s))
}

/// Bounds `(a, b)` such that `v[a..b]` is `v` trimmed.
pub fn trim_bounds(v: &[char]) -> (r: (usize, usize))
    ensures
        r.0 <= r.1 <= v@.len(),
        v@.subrange(r.0 as int, r.1 as int) == trim(v@),
{
    let n = v.len();
    let mut i: usize = 0;
    proof {
        assert(v@.subrange(0, n as int) =~= v@);
    }
    while i < n && is_whitespace(v[i])
        invariant
            i <= n == v@.len(),
            trim_start(v@) == trim_start(v@.subrange(i as int, n as int)),
        decreases n - i,
    {
        proof {
            assert(v@.subrange(i as int, n as int).drop_first() =~= v@.subrange(i + 1, n as int));
        }
        i = i + 1;
    }
    let mut j: usize = n;
    proof {
        assert(trim_start(v@) == v@.subrange(i as int, n as int));
    }
    while j > i && is_whitespace(v[j - 1])
        invariant
            i <= j <= n == v@.len(),
            trim_end(v@.subrange(i as int, n as int)) == trim_end(v@.subrange(i as int, j as int)),
        decreases j,
    {
        proof {
            assert(v@.subrange(i as int, j as int).drop_last() =~= v@.subrange(
                i as int,
                j - 1,
            ));
        }
        j = j - 1;
    }
    (i, j)
}

/// Length of the run of non-whitespace characters that starts `s`.
pub open spec fn leading_word_len(s: Seq<char>) -> nat
    decreases s.len(),
{
    if s.len() == 0 || is_white_space(s[0]) {
        0
    } else {
        1 + leading_word_len(s.drop_first())
    }
}

/// The first whitespace-separated word of `s`, as `split_whitespace` yields it.
pub open spec fn first_word(s: Seq<char>) -> Option<Seq<char>> {
    let t = trim_start(s);
    if t.len() == 0 {
        None
    } else {
        Some(t.take(leading_word_len(t) as int))
    }
}

/// Bounds of the first whitespace-separated word of `v`.
pub fn first_word_range(v: &[char]) -> (r: Option<(usize, usize)>)
    ensures
        match first_word(v@) {
            Some(w) => r matches Some(b) && b.0 <= b.1 <= v@.len() && v@.subrange(
                b.0 as int,
                b.1 as int,
            ) == w,
            None => r is None,
        },
{
    let n = v.len();
    let mut i: usize = 0;
    proof {
        assert(v@.subrange(0, n as int) =~= v@);
    }
    while i < n && is_whitespace(v[i])
        invariant
            i <= n == v@.len(),
            trim_start(v@) == trim_start(v@.subrange(i as int, n as int)),
        decreases n - i,
    {
        proof {
            assert(v@.subrange(i as int, n as int).drop_first() =~= v@.subrange(i + 1, n as int));
        }
        i = i + 1;
    }
    let ghost t = v@.subrange(i as int, n as int);
    if i == n {
        return None;
    }
    let mut j: usize = i;
    while j < n && !is_whitespace(v[j])
        invariant
            i <= j <= n == v@.len(),
            t == v@.subrange(i as int, n as int),
            leading_word_len(t) == (j - i) + leading_word_len(v@.subrange(j as int, n as int)),
        decreases n - j,
    {
        proof {
            assert(v@.subrange(j as int, n as int).drop_first() =~= v@.subrange(j + 1, n as int));
        }
        j = j + 1;
    }
    proof {
        assert(t.take((j - i) as int) =~= v@.subrange(i as int, j as int));
    }
    Some((i, j))
}

/// `s` trimmed, as an owned string.
pub fn trimmed(s: &str) -> (r: String)
    ensures
        r@ == trim(s@),
{
    let v = chars_of(s);
    let (a, b) = trim_bounds(v.as_slice());
    string_of_range(v.as_slice(), a, b)
}

/// The first `n` characters of `s` (all of it when shorter).
pub open spec fn take_chars(s: Seq<char>, n: nat) -> Seq<char> {
    if n < s.len() {
        s.take(n as int)
    } else {
        s
    }
}

/// The first `n` characters of a string.
pub fn first_chars(s: &str, n: usize) -> (r: String)
    ensures
        r@ == take_chars(s@, n as nat),
{
    let v = chars_of(s);
    if n < v.len() {
        string_of_range(v.as_slice(), 0, n)
    } else {
        proof {
            assert(v@.subrange(0, v@.len() as int) =~= v@);
        }
        string_of_range(v.as_slice(), 0, v.len())
    }
}

/// A string has at least as many UTF-8 bytes as characters.
pub proof fn lemma_chars_within_bytes(s: Seq<char>)
    ensures
        vstd::utf8::encode_utf8(s).len() >= s.len(),
    decreases s.len(),
{
    if s.len() > 0 {
        lemma_chars_within_bytes(s.drop_first());
    }
}

/// The character count of a string fits in `usize`.
pub fn char_count_fits(s: &str) -> (r: usize)
    ensures
        r == s@.len(),
{
    let bytes = s.as_bytes().len();
    proof {
        lemma_chars_within_bytes(s@);
    }
    s.unicode_len()
}

/// The decimal digit character for `d < 10`.
pub open spec fn digit_char(d: nat) -> char {
    seq!['0', '1', '2', '3', '4', '5', '6', '7', '8', '9'][d as int]
}

/// The decimal rendering of `n`, as `u64`'s `Display` writes it.
pub open spec fn decimal(n: nat) -> Seq<char>
    decreases n,
{
    if n < 10 {
        seq![digit_char(n)]
    } else {
        decimal(n / 10).push(digit_char(n % 10))
    }
}

pub fn digit(d: u64) -> (c: char)
    requires
        d < 10,
    ensures
        c == digit_char(d as nat),
{
    if d == 0 { '0' }
    else if d == 1 { '1' }
    else if d == 2 { '2' }
    else if d == 3 { '3' }
    else if d == 4 { '4' }
    else if d == 5 { '5' }
    else if d == 6 { '6' }
    else if d == 7 { '7' }
    else if d == 8 { '8' }
    else { '9' }
}

/// Appends the decimal rendering of `n`.
pub fn push_decimal(s: &mut String, n: u64)
    ensures
        final(s)@ == old(s)@ + decimal(n as nat),
    decreases n,
{
    if n < 10 {
        push_char(s, digit(n));
        proof {
            assert(old(s)@ + decimal(n as nat) =~= old(s)@.push(digit_char(n as nat)));
        }
    } else {
        push_decimal(s, n / 10);
        push_char(s, digit(n % 10));
        proof {
            assert(old(s)@ + decimal(n as nat) =~= old(s)@ + decimal((n / 10) as nat) + seq![
                digit_char((n % 10) as nat),
            ]);
        }
    }
}

/// The decimal rendering of `n` as a string.
pub fn decimal_string(n: u64) -> (s: String)
    ensures
        s@ == decimal(n as nat),
{
    let mut s = String::new();
    push_decimal(&mut s, n);
    proof {
        assert(Seq::<char>::empty() + decimal(n as nat) =~= decimal(n as nat));
    }
    s
}

/// Lexicographic order of character sequences by code point, which is also
/// the byte order of their UTF-8 encodings (the order `str` compares by).
pub open spec fn seq_less(a: Seq<char>, b: Seq<char>) -> bool
    decreases a.len(),
{
    if a.len() == 0 {
        b.len() > 0
    } else if b.len() == 0 {
        false
    } else if a[0] != b[0] {
        (a[0] as u32) < (b[0] as u32)
    } else {
        seq_less(a.drop_first(), b.drop_first())
    }
}

/// No sequence is below itself.
pub proof fn lemma_seq_less_irreflexive(a: Seq<char>)
    ensures
        !seq_less(a, a),
    decreases a.len(),
{
    if a.len() > 0 {
        lemma_seq_less_irreflexive(a.drop_first());
    }
}

/// The order is transitive.
pub proof fn lemma_seq_less_transitive(a: Seq<char>, b: Seq<char>, c: Seq<char>)
    requires
        seq_less(a, b),
        seq_less(b, c),
    ensures
        seq_less(a, c),
    decreases a.len(),
{
    if a.len() > 0 && b.len() > 0 && c.len() > 0 && a[0] == b[0] && b[0] == c[0] {
        lemma_seq_less_transitive(a.drop_first(), b.drop_first(), c.drop_first());
    }
}

pub fn chars_less(a: &[char], b: &[char]) -> (r: bool)
    ensures
        r == seq_less(a@, b@),
{
    let mut i: usize = 0;
    proof {
        assert(a@.skip(0) =~= a@);
        assert(b@.skip(0) =~= b@);
    }
    while i < a.len() && i < b.len() && a[i] == b[i]
        invariant
            i <= a@.len(),
            i <= b@.len(),
            seq_less(a@, b@) == seq_less(a@.skip(i as int), b@.skip(i as int)),
        decreases a.len() - i,
    {
        proof {
            assert(a@.skip(i as int).drop_first() =~= a@.skip(i + 1));
            assert(b@.skip(i as int).drop_first() =~= b@.skip(i + 1));
        }
        i = i + 1;
    }
    if i == a.len() {
        i < b.len()
    } else if i == b.len() {
        false
    } else {
        (a[i] as u32) < (b[i] as u32)
    }
}

/// Whether `q` can be read, in order, from characters of `n` (greedy matching).
pub open spec fn is_subsequence(q: Seq<char>, n: Seq<char>) -> bool
    decreases n.len(),
{
    if q.len() == 0 {
        true
    } else if n.len() == 0 {
        false
    } else if q[0] == n[0] {
        is_subsequence(q.drop_first(), n.drop_first())
    } else {
        is_subsequence(q, n.drop_first())
    }
}

pub fn subsequence(q: &[char], n: &[char]) -> (r: bool)
    ensures
        r == is_subsequence(q@, n@),
{
    let mut i: usize = 0;
    let mut j: usize = 0;
    proof {
        assert(q@.skip(0) =~= q@);
        assert(n@.skip(0) =~= n@);
    }
    while i < q.len() && j < n.len()
        invariant
            i <= q@.len(),
            j <= n@.len(),
            is_subsequence(q@, n@) == is_subsequence(q@.skip(i as int), n@.skip(j as int)),
        decreases n.len() - j,
    {
        proof {
            assert(q@.skip(i as int).drop_first() =~= q@.skip(i + 1));
            assert(n@.skip(j as int).drop_first() =~= n@.skip(j + 1));
        }
        if q[i] == n[j] {
            i = i + 1;
        }
        j = j + 1;
    }
    proof {
        if i == q.len() {
            assert(q@.skip(i as int).len() == 0);
        } else {
            assert(n@.skip(j as int).len() == 0);
        }
    }
    i == q.len()
}

/// Unicode lower case of a string, as `str::to_lowercase` computes it.
pub uninterp spec fn lowercase(s: Seq<char>) -> Seq<char>;

/// Calls `str::to_lowercase`; the result is named `lowercase` of the input's
/// characters. Nothing else about the Unicode case tables is claimed.
#[verifier::external_body]
pub fn to_lowercase(s: &str) -> (r: String)
    ensures
        r@ == lowercase(s@),
{
    s.to_lowercase()
}

/// Whether `char::is_alphanumeric` holds of a character.
pub uninterp spec fn alphanumeric(c: char) -> bool;

/// Calls `char::is_alphanumeric`: alphabetic or numeric in Unicode's
/// tables. The result is named `alphanumeric` of the character; the
/// tables are not stated.
#[verifier::external_body]
pub fn is_alphanumeric(c: char) -> (r: bool)
    ensures
        r == alphanumeric(c),
{
    c.is_alphanumeric()
}

/// Whether `char::is_alphabetic` holds of a character.
pub uninterp spec fn alphabetic(c: char) -> bool;

/// Calls `char::is_alphabetic`: Unicode's Alphabetic property. The result
/// is named `alphabetic` of the character; the tables are not stated.
#[verifier::external_body]
pub fn is_alphabetic(c: char) -> (r: bool)
    ensures
        r == alphabetic(c),
{
    c.is_alphabetic()
}

} // verus!
