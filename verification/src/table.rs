//! Small string-keyed tables kept as entry lists, each key at most once.
use vstd::prelude::*;

use crate::text::str_eq;

verus! {

/// A table as a map; a later entry wins.
pub open spec fn table_map<V>(list: Seq<(String, V)>) -> Map<Seq<char>, V>
    decreases list.len(),
{
    if list.len() == 0 {
        Map::empty()
    } else {
        table_map(list.drop_last()).insert(list.last().0@, list.last().1)
    }
}

/// No key occurs twice in a table.
pub open spec fn table_keys_unique<V>(list: Seq<(String, V)>) -> bool {
    forall|i: int, j: int|
        0 <= i < j < list.len() ==> (#[trigger] list[i]).0@ != (#[trigger] list[j]).0@
}

proof fn lemma_unique_prefix<V>(list: Seq<(String, V)>)
    requires
        table_keys_unique(list),
        list.len() > 0,
    ensures
        table_keys_unique(list.drop_last()),
{
    let init = list.drop_last();
    assert forall|a: int, b: int| 0 <= a < b < init.len() implies (#[trigger] init[a]).0@
        != (#[trigger] init[b]).0@ by {
        assert(init[a] == list[a] && init[b] == list[b]);
    }
}

proof fn lemma_table_has_key<V>(list: Seq<(String, V)>, k: Seq<char>)
    ensures
        table_map(list).dom().contains(k) <==> exists|i: int|
            0 <= i < list.len() && (#[trigger] list[i]).0@ == k,
    decreases list.len(),
{
    if list.len() > 0 {
        lemma_table_has_key(list.drop_last(), k);
        if table_map(list.drop_last()).dom().contains(k) {
            let i = choose|i: int|
                0 <= i < list.drop_last().len() && (#[trigger] list.drop_last()[i]).0@ == k;
            assert(list[i].0@ == k);
        }
        if exists|i: int| 0 <= i < list.len() && (#[trigger] list[i]).0@ == k {
            let i = choose|i: int| 0 <= i < list.len() && (#[trigger] list[i]).0@ == k;
            if i < list.len() - 1 {
                assert(list.drop_last()[i].0@ == k);
            }
        }
    }
}

proof fn lemma_table_value<V>(list: Seq<(String, V)>, i: int)
    requires
        table_keys_unique(list),
        0 <= i < list.len(),
    ensures
        table_map(list).dom().contains(list[i].0@),
        table_map(list)[list[i].0@] == list[i].1,
    decreases list.len(),
{
    if i < list.len() - 1 {
        let init = list.drop_last();
        lemma_unique_prefix(list);
        assert(init[i] == list[i]);
        lemma_table_value(init, i);
        assert(list[i].0@ != list[list.len() - 1].0@);
    }
}

proof fn lemma_table_update<V>(list: Seq<(String, V)>, i: int, v: V)
    requires
        table_keys_unique(list),
        0 <= i < list.len(),
    ensures
        table_keys_unique(list.update(i, (list[i].0, v))),
        table_map(list.update(i, (list[i].0, v))) == table_map(list).insert(list[i].0@, v),
    decreases list.len(),
{
    let k = list[i].0;
    let updated = list.update(i, (k, v));
    assert(table_keys_unique(updated)) by {
        assert forall|a: int, b: int| 0 <= a < b < updated.len() implies (#[trigger] updated[a]).0@
            != (#[trigger] updated[b]).0@ by {
            assert(updated[a].0 == list[a].0 && updated[b].0 == list[b].0);
        }
    }
    let init = list.drop_last();
    lemma_unique_prefix(list);
    if i == list.len() - 1 {
        assert(updated.drop_last() =~= init);
        assert(table_map(updated) =~= table_map(list).insert(k@, v));
    } else {
        lemma_table_update(init, i, v);
        assert(updated.drop_last() =~= init.update(i, (k, v)));
        assert(list.last().0@ != k@);
        assert(table_map(updated) =~= table_map(list).insert(k@, v));
    }
}

proof fn lemma_table_push<V>(list: Seq<(String, V)>, k: String, v: V)
    requires
        table_keys_unique(list),
        !table_map(list).dom().contains(k@),
    ensures
        table_keys_unique(list.push((k, v))),
        table_map(list.push((k, v))) == table_map(list).insert(k@, v),
{
    let pushed = list.push((k, v));
    assert(pushed.drop_last() =~= list);
    lemma_table_has_key(list, k@);
    assert(table_keys_unique(pushed)) by {
        assert forall|a: int, b: int| 0 <= a < b < pushed.len() implies (#[trigger] pushed[a]).0@
            != (#[trigger] pushed[b]).0@ by {
            if b == list.len() {
                assert(pushed[a] == list[a]);
            } else {
                assert(pushed[a] == list[a] && pushed[b] == list[b]);
            }
        }
    }
}

proof fn lemma_table_remove<V>(list: Seq<(String, V)>, i: int)
    requires
        table_keys_unique(list),
        0 <= i < list.len(),
    ensures
        table_keys_unique(list.remove(i)),
        table_map(list.remove(i)) == table_map(list).remove(list[i].0@),
    decreases list.len(),
{
    let k = list[i].0@;
    let removed = list.remove(i);
    assert(table_keys_unique(removed)) by {
        assert forall|a: int, b: int| 0 <= a < b < removed.len() implies (#[trigger] removed[a]).0@
            != (#[trigger] removed[b]).0@ by {
            let a0 = if a < i { a } else { a + 1 };
            let b0 = if b < i { b } else { b + 1 };
            assert(removed[a] == list[a0] && removed[b] == list[b0]);
        }
    }
    let init = list.drop_last();
    lemma_unique_prefix(list);
    if i == list.len() - 1 {
        assert(removed =~= init);
        lemma_table_has_key(init, k);
        assert forall|j: int| 0 <= j < init.len() implies (#[trigger] init[j]).0@ != k by {
            assert(init[j] == list[j]);
        }
        assert(!table_map(init).dom().contains(k));
        assert(table_map(removed) =~= table_map(list).remove(k));
    } else {
        lemma_table_remove(init, i);
        assert(removed.drop_last() =~= init.remove(i));
        assert(removed.last() == list.last());
        assert(list.last().0@ != k);
        assert(table_map(removed) =~= table_map(list).remove(k));
    }
}

/// Index of the entry with this key.
pub fn table_index<V>(list: &Vec<(String, V)>, key: &str) -> (r: Option<usize>)
    requires
        table_keys_unique(list@),
    ensures
        match r {
            Some(i) => i < list@.len() && list@[i as int].0@ == key@,
            None => !table_map(list@).dom().contains(key@),
        },
        r is Some <==> table_map(list@).dom().contains(key@),
{
    let mut i: usize = 0;
    while i < list.len()
        invariant
            i <= list@.len(),
            forall|k: int| 0 <= k < i ==> (#[trigger] list@[k]).0@ != key@,
        decreases list.len() - i,
    {
        if str_eq(list[i].0.as_str(), key) {
            proof {
                lemma_table_has_key(list@, key@);
            }
            return Some(i);
        }
        i = i + 1;
    }
    proof {
        lemma_table_has_key(list@, key@);
    }
    None
}

/// The value stored under `key`.
pub fn table_get<'a, V>(list: &'a Vec<(String, V)>, key: &str) -> (r: Option<&'a V>)
    requires
        table_keys_unique(list@),
    ensures
        match r {
            Some(v) => table_map(list@).dom().contains(key@) && *v == table_map(list@)[key@],
            None => !table_map(list@).dom().contains(key@),
        },
{
    match table_index(list, key) {
        Some(i) => {
            proof {
                lemma_table_value(list@, i as int);
            }
            Some(&list[i].1)
        },
        None => None,
    }
}

/// Store `value` under `key`, replacing what was there.
pub fn table_insert<V>(list: &mut Vec<(String, V)>, key: String, value: V)
    requires
        table_keys_unique(old(list)@),
    ensures
        table_keys_unique(final(list)@),
        table_map(final(list)@) == table_map(old(list)@).insert(key@, value),
{
    match table_index(list, key.as_str()) {
        Some(i) => {
            proof {
                lemma_table_update(list@, i as int, value);
            }
            let k = list[i].0.clone();
            proof {
                assert(k@ == list@[i as int].0@);
            }
            list.set(i, (k, value));
            proof {
                assert(list@ =~= old(list)@.update(i as int, (old(list)@[i as int].0, value)))
                    by {
                    assert(list@[i as int].0@ == old(list)@[i as int].0@);
                    lemma_same_view_update(old(list)@, i as int, k, value);
                }
            }
        },
        None => {
            proof {
                lemma_table_push(list@, key, value);
            }
            list.push((key, value));
        },
    }
}

proof fn lemma_same_view_update<V>(list: Seq<(String, V)>, i: int, k: String, v: V)
    requires
        0 <= i < list.len(),
        k@ == list[i].0@,
    ensures
        table_map(list.update(i, (k, v))) == table_map(list.update(i, (list[i].0, v))),
        table_keys_unique(list.update(i, (k, v))) == table_keys_unique(list.update(i, (list[i].0, v))),
    decreases list.len(),
{
    let a = list.update(i, (k, v));
    let b = list.update(i, (list[i].0, v));
    assert forall|j: int| 0 <= j < a.len() implies (#[trigger] a[j]).0@ == b[j].0@ && a[j].1 == b[j].1 by {}
    lemma_same_keys_same_map(a, b);
}

proof fn lemma_same_keys_same_map<V>(a: Seq<(String, V)>, b: Seq<(String, V)>)
    requires
        a.len() == b.len(),
        forall|j: int| 0 <= j < a.len() ==> (#[trigger] a[j]).0@ == b[j].0@ && a[j].1 == b[j].1,
    ensures
        table_map(a) == table_map(b),
        table_keys_unique(a) == table_keys_unique(b),
    decreases a.len(),
{
    if a.len() > 0 {
        assert forall|j: int| 0 <= j < a.drop_last().len() implies (#[trigger] a.drop_last()[j]).0@
            == b.drop_last()[j].0@ && a.drop_last()[j].1 == b.drop_last()[j].1 by {
            assert(a.drop_last()[j] == a[j] && b.drop_last()[j] == b[j]);
        }
        lemma_same_keys_same_map(a.drop_last(), b.drop_last());
        assert(a.last().0@ == b.last().0@);
    }
    if table_keys_unique(a) {
        assert forall|i: int, j: int| 0 <= i < j < b.len() implies (#[trigger] b[i]).0@
            != (#[trigger] b[j]).0@ by {
            assert(a[i].0@ == b[i].0@ && a[j].0@ == b[j].0@);
        }
    }
    if table_keys_unique(b) {
        assert forall|i: int, j: int| 0 <= i < j < a.len() implies (#[trigger] a[i]).0@
            != (#[trigger] a[j]).0@ by {
            assert(a[i].0@ == b[i].0@ && a[j].0@ == b[j].0@);
        }
    }
}

/// Take the value stored under `key` out of the table.
pub fn table_remove<V>(list: &mut Vec<(String, V)>, key: &str) -> (r: Option<V>)
    requires
        table_keys_unique(old(list)@),
    ensures
        table_keys_unique(final(list)@),
        table_map(final(list)@) == table_map(old(list)@).remove(key@),
        match r {
            Some(v) => table_map(old(list)@).dom().contains(key@) && v == table_map(old(list)@)[key@],
            None => !table_map(old(list)@).dom().contains(key@) && final(list)@ == old(list)@,
        },
{
    match table_index(list, key) {
        Some(i) => {
            proof {
                lemma_table_value(list@, i as int);
                lemma_table_remove(list@, i as int);
            }
            let (_, v) = list.remove(i);
            Some(v)
        },
        None => {
            proof {
                assert(table_map(list@).remove(key@) =~= table_map(list@));
            }
            None
        },
    }
}

/// Take every entry out of the table, in table order.
pub fn table_drain<V>(list: &mut Vec<(String, V)>) -> (r: Vec<(String, V)>)
    ensures
        r@ == old(list)@,
        final(list)@.len() == 0,
{
    let mut out: Vec<(String, V)> = Vec::new();
    std::mem::swap(&mut out, list);
    out
}

} // verus!
