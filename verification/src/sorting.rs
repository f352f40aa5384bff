//! Stable insertion order used by every ranked list of the frontend.
//!
//! `insertion_sorted(s, after)` places each element of `s`, in turn, after
//! every already-placed element that does not come `after` it. The lemmas
//! below show that the result is a permutation of `s` and, for a transitive
//! `after`, sorted.
use vstd::prelude::*;

verus! {

/// Index at which `x` is inserted: before the first element that comes after it.
pub open spec fn insert_position<T>(s: Seq<T>, x: T, after: spec_fn(T, T) -> bool) -> nat
    decreases s.len(),
{
    if s.len() == 0 {
        0
    } else if after(s[0], x) {
        0
    } else {
        1 + insert_position(s.drop_first(), x, after)
    }
}

/// `s` with `x` inserted at its stable position.
pub open spec fn insert_sorted<T>(s: Seq<T>, x: T, after: spec_fn(T, T) -> bool) -> Seq<T> {
    s.insert(insert_position(s, x, after) as int, x)
}

/// The stable insertion sort of `s` by `after`.
pub open spec fn insertion_sorted<T>(s: Seq<T>, after: spec_fn(T, T) -> bool) -> Seq<T>
    decreases s.len(),
{
    if s.len() == 0 {
        s
    } else {
        insert_sorted(insertion_sorted(s.drop_last(), after), s.last(), after)
    }
}

/// No element comes after a later one.
pub open spec fn sorted_by_after<T>(s: Seq<T>, after: spec_fn(T, T) -> bool) -> bool {
    forall|i: int, j: int| 0 <= i < j < s.len() ==> !after(#[trigger] s[i], #[trigger] s[j])
}

/// `after` is a strict order: irreflexive and transitive.
pub open spec fn strict_order<T>(after: spec_fn(T, T) -> bool) -> bool {
    &&& forall|a: T| !#[trigger] after(a, a)
    &&& forall|a: T, b: T, c: T| #[trigger] after(a, b) && #[trigger] after(b, c) ==> after(a, c)
}

pub proof fn lemma_insert_position_bounds<T>(s: Seq<T>, x: T, after: spec_fn(T, T) -> bool)
    ensures
        insert_position(s, x, after) <= s.len(),
        forall|k: int| 0 <= k < insert_position(s, x, after) ==> !after(#[trigger] s[k], x),
        insert_position(s, x, after) < s.len() ==> after(s[insert_position(s, x, after) as int], x),
    decreases s.len(),
{
    if s.len() > 0 && !after(s[0], x) {
        lemma_insert_position_bounds(s.drop_first(), x, after);
        assert forall|k: int| 0 <= k < insert_position(s, x, after) implies !after(#[trigger] s[k], x) by {
            if k > 0 {
                assert(s[k] == s.drop_first()[k - 1]);
            }
        }
    }
}

/// Sorting keeps exactly the elements it was given.
pub proof fn lemma_insertion_sorted_permutes<T>(s: Seq<T>, after: spec_fn(T, T) -> bool)
    ensures
        insertion_sorted(s, after).to_multiset() == s.to_multiset(),
        insertion_sorted(s, after).len() == s.len(),
    decreases s.len(),
{
    broadcast use vstd::seq_lib::to_multiset_insert, vstd::seq_lib::to_multiset_build;

    if s.len() > 0 {
        let prev = insertion_sorted(s.drop_last(), after);
        lemma_insertion_sorted_permutes(s.drop_last(), after);
        lemma_insert_position_bounds(prev, s.last(), after);
        assert(s.drop_last().push(s.last()) == s);
    }
}

/// Under a strict order, the result is sorted.
pub proof fn lemma_insertion_sorted_sorted<T>(s: Seq<T>, after: spec_fn(T, T) -> bool)
    requires
        strict_order(after),
    ensures
        sorted_by_after(insertion_sorted(s, after), after),
    decreases s.len(),
{
    if s.len() > 0 {
        let prev = insertion_sorted(s.drop_last(), after);
        let x = s.last();
        lemma_insertion_sorted_sorted(s.drop_last(), after);
        lemma_insert_position_bounds(prev, x, after);
        let p = insert_position(prev, x, after) as int;
        let r = prev.insert(p, x);
        assert forall|i: int, j: int| 0 <= i < j < r.len() implies !after(#[trigger] r[i], #[trigger] r[j]) by {
            if i < p && j < p {
                assert(r[i] == prev[i] && r[j] == prev[j]);
            } else if i < p && j == p {
                assert(r[i] == prev[i]);
            } else if i < p && j > p {
                assert(r[i] == prev[i] && r[j] == prev[j - 1]);
            } else if i == p {
                assert(r[j] == prev[j - 1]);
                assert(after(prev[p], x));
                if after(x, prev[j - 1]) {
                    assert(after(prev[p], prev[j - 1]));
                    if j - 1 > p {
                        assert(!after(prev[p], prev[j - 1]));
                    } else {
                        assert(!after(prev[p], prev[p]));
                    }
                }
            } else {
                assert(r[i] == prev[i - 1] && r[j] == prev[j - 1]);
            }
        }
    }
}

} // verus!
