//! Single-track transcript storage for public display surfaces.
use vstd::prelude::*;

use crate::display::{item_id, DisplayId, DisplayItem};
use crate::text::str_eq;

verus! {

/// The copy unit an item belongs to (activities have none).
pub open spec fn item_unit(item: DisplayItem) -> Option<u64> {
    match item {
        DisplayItem::Activity(_) => None,
        DisplayItem::Block(block) => block.unit,
        DisplayItem::Card(card) => card.unit,
        DisplayItem::Composite { detail, .. } => detail.unit,
        DisplayItem::Thinking(node) => node.unit,
    }
}

#[derive(Debug)]
pub struct TranscriptNode {
    pub item: DisplayItem,
    pub surface_seq: Option<u64>,
    revision: u64,
}

impl TranscriptNode {
    /// The displayed item.
    pub closed spec fn item_spec(&self) -> DisplayItem {
        self.item
    }

    /// The public surface sequence the node belongs to.
    pub closed spec fn seq_spec(&self) -> Option<u64> {
        self.surface_seq
    }

    /// The store generation at which the node last changed.
    pub closed spec fn revision_spec(&self) -> u64 {
        self.revision
    }

    /// The id of the node's item.
    pub open spec fn id_spec(&self) -> Seq<char> {
        item_id(self.item_spec()).0@
    }

    pub fn id(&self) -> (r: &DisplayId)
        ensures
            *r == item_id(self.item_spec()),
    {
        self.item.id()
    }

    pub fn unit(&self) -> (r: Option<u64>)
        ensures
            r == item_unit(self.item_spec()),
    {
        match &self.item {
            DisplayItem::Activity(_) => None,
            DisplayItem::Block(block) => block.unit,
            DisplayItem::Card(card) => card.unit,
            DisplayItem::Composite { detail, .. } => detail.unit,
            DisplayItem::Thinking(node) => node.unit,
        }
    }

    pub fn revision(&self) -> (r: u64)
        ensures
            r == self.revision_spec(),
    {
        self.revision
    }
}

/// The index of the last node with this id.
pub open spec fn last_position(nodes: Seq<TranscriptNode>, id: Seq<char>) -> Option<int>
    decreases nodes.len(),
{
    if nodes.len() == 0 {
        None
    } else if nodes.last().id_spec() == id {
        Some(nodes.len() - 1)
    } else {
        last_position(nodes.drop_last(), id)
    }
}

/// Unit owners as reindexing builds them: the last node of each unit.
pub open spec fn units_of(nodes: Seq<TranscriptNode>) -> Map<u64, Seq<char>>
    decreases nodes.len(),
{
    if nodes.len() == 0 {
        Map::empty()
    } else {
        let m = units_of(nodes.drop_last());
        match item_unit(nodes.last().item_spec()) {
            Some(u) => m.insert(u, nodes.last().id_spec()),
            None => m,
        }
    }
}

/// Surface owners as reindexing builds them: the last node of each surface.
pub open spec fn surfaces_of(nodes: Seq<TranscriptNode>) -> Map<u64, Seq<char>>
    decreases nodes.len(),
{
    if nodes.len() == 0 {
        Map::empty()
    } else {
        let m = surfaces_of(nodes.drop_last());
        match nodes.last().seq_spec() {
            Some(s) => m.insert(s, nodes.last().id_spec()),
            None => m,
        }
    }
}

/// An owner table as a map; a later entry wins.
pub open spec fn owners_map(list: Seq<(u64, DisplayId)>) -> Map<u64, Seq<char>>
    decreases list.len(),
{
    if list.len() == 0 {
        Map::empty()
    } else {
        owners_map(list.drop_last()).insert(list.last().0, list.last().1.0@)
    }
}

/// No key occurs twice in an owner table.
pub open spec fn keys_unique(list: Seq<(u64, DisplayId)>) -> bool {
    forall|i: int, j: int| 0 <= i < j < list.len() ==> (#[trigger] list[i]).0 != (#[trigger] list[j]).0
}

/// The map without the entries owned by `id`.
pub open spec fn without_owner(m: Map<u64, Seq<char>>, id: Seq<char>) -> Map<u64, Seq<char>> {
    Map::new(|k: u64| m.dom().contains(k) && m[k] != id, |k: u64| m[k])
}

/// The nodes without the last one with this id.
pub open spec fn without_id(nodes: Seq<TranscriptNode>, id: Seq<char>) -> Seq<TranscriptNode> {
    match last_position(nodes, id) {
        Some(e) => nodes.remove(e),
        None => nodes,
    }
}

/// `after` (at generation `g_after`, the item landing at `r`) is `before`
/// once `item` was inserted at `index` (clamped to the end) as a new
/// revision, after any earlier node with its id was removed.
pub open spec fn insert_post(
    before: Seq<TranscriptNode>,
    g_before: u64,
    index: int,
    item: DisplayItem,
    surface_seq: Option<u64>,
    after: Seq<TranscriptNode>,
    g_after: u64,
    r: int,
) -> bool {
    let rest = without_id(before, item_id(item).0@);
    let g = match last_position(before, item_id(item).0@) {
        Some(e) => next_generation(next_generation(g_before)),
        None => next_generation(g_before),
    };
    &&& r == if index < rest.len() {
        index
    } else {
        rest.len() as int
    }
    &&& g_after == g
    &&& after.len() == rest.len() + 1
    &&& after[r].item_spec() == item
    &&& after[r].seq_spec() == surface_seq
    &&& after[r].revision_spec() == g
    &&& forall|k: int| 0 <= k < r ==> #[trigger] after[k] == rest[k]
    &&& forall|k: int| r < k < after.len() ==> #[trigger] after[k] == rest[k - 1]
}

/// The generation after one more change (wrapping).
pub open spec fn next_generation(g: u64) -> u64 {
    if g == u64::MAX {
        0
    } else {
        (g + 1) as u64
    }
}

proof fn lemma_last_position_bounds(nodes: Seq<TranscriptNode>, id: Seq<char>)
    ensures
        match last_position(nodes, id) {
            Some(e) => 0 <= e < nodes.len() && nodes[e].id_spec() == id,
            None => true,
        },
    decreases nodes.len(),
{
    if nodes.len() > 0 {
        lemma_last_position_bounds(nodes.drop_last(), id);
    }
}

proof fn lemma_owners_has_key(list: Seq<(u64, DisplayId)>, k: u64)
    ensures
        owners_map(list).dom().contains(k) <==> exists|i: int| 0 <= i < list.len() && (#[trigger] list[i]).0 == k,
    decreases list.len(),
{
    if list.len() > 0 {
        lemma_owners_has_key(list.drop_last(), k);
        if owners_map(list.drop_last()).dom().contains(k) {
            let i = choose|i: int| 0 <= i < list.drop_last().len() && (#[trigger] list.drop_last()[i]).0 == k;
            assert(list[i].0 == k);
        }
        if exists|i: int| 0 <= i < list.len() && (#[trigger] list[i]).0 == k {
            let i = choose|i: int| 0 <= i < list.len() && (#[trigger] list[i]).0 == k;
            if i < list.len() - 1 {
                assert(list.drop_last()[i].0 == k);
            }
        }
    }
}

proof fn lemma_owners_value(list: Seq<(u64, DisplayId)>, i: int)
    requires
        keys_unique(list),
        0 <= i < list.len(),
    ensures
        owners_map(list).dom().contains(list[i].0),
        owners_map(list)[list[i].0] == list[i].1.0@,
    decreases list.len(),
{
    if i < list.len() - 1 {
        let init = list.drop_last();
        assert(keys_unique(init)) by {
            assert forall|a: int, b: int| 0 <= a < b < init.len() implies (#[trigger] init[a]).0 != (#[trigger] init[b]).0 by {
                assert(init[a] == list[a] && init[b] == list[b]);
            }
        }
        assert(init[i] == list[i]);
        lemma_owners_value(init, i);
        assert(list[i].0 != list[list.len() - 1].0);
    }
}

proof fn lemma_owners_update(list: Seq<(u64, DisplayId)>, i: int, v: DisplayId)
    requires
        keys_unique(list),
        0 <= i < list.len(),
    ensures
        keys_unique(list.update(i, (list[i].0, v))),
        owners_map(list.update(i, (list[i].0, v))) == owners_map(list).insert(list[i].0, v.0@),
    decreases list.len(),
{
    let k = list[i].0;
    let updated = list.update(i, (k, v));
    assert(keys_unique(updated)) by {
        assert forall|a: int, b: int| 0 <= a < b < updated.len() implies (#[trigger] updated[a]).0 != (#[trigger] updated[b]).0 by {
            assert(updated[a].0 == list[a].0 && updated[b].0 == list[b].0);
        }
    }
    let init = list.drop_last();
    assert(keys_unique(init)) by {
        assert forall|a: int, b: int| 0 <= a < b < init.len() implies (#[trigger] init[a]).0 != (#[trigger] init[b]).0 by {
            assert(init[a] == list[a] && init[b] == list[b]);
        }
    }
    if i == list.len() - 1 {
        assert(updated.drop_last() =~= init);
        assert(owners_map(updated) =~= owners_map(list).insert(k, v.0@));
    } else {
        lemma_owners_update(init, i, v);
        assert(updated.drop_last() =~= init.update(i, (k, v)));
        assert(list.last().0 != k);
        assert(owners_map(updated) =~= owners_map(list).insert(k, v.0@));
    }
}

proof fn lemma_owners_push(list: Seq<(u64, DisplayId)>, k: u64, v: DisplayId)
    requires
        keys_unique(list),
        !owners_map(list).dom().contains(k),
    ensures
        keys_unique(list.push((k, v))),
        owners_map(list.push((k, v))) == owners_map(list).insert(k, v.0@),
{
    let pushed = list.push((k, v));
    assert(pushed.drop_last() =~= list);
    lemma_owners_has_key(list, k);
    assert(keys_unique(pushed)) by {
        assert forall|a: int, b: int| 0 <= a < b < pushed.len() implies (#[trigger] pushed[a]).0 != (#[trigger] pushed[b]).0 by {
            if b == list.len() {
                assert(pushed[a] == list[a]);
            } else {
                assert(pushed[a] == list[a] && pushed[b] == list[b]);
            }
        }
    }
}

/// Index of the entry with this key.
fn owner_index(list: &Vec<(u64, DisplayId)>, key: u64) -> (r: Option<usize>)
    requires
        keys_unique(list@),
    ensures
        match r {
            Some(i) => i < list@.len() && list@[i as int].0 == key,
            None => !owners_map(list@).dom().contains(key),
        },
{
    let mut i: usize = 0;
    while i < list.len()
        invariant
            i <= list@.len(),
            forall|k: int| 0 <= k < i ==> (#[trigger] list@[k]).0 != key,
        decreases list.len() - i,
    {
        if list[i].0 == key {
            return Some(i);
        }
        i = i + 1;
    }
    proof {
        lemma_owners_has_key(list@, key);
    }
    None
}

/// Record `key` as owned by `owner`.
fn owners_insert(list: &mut Vec<(u64, DisplayId)>, key: u64, owner: DisplayId)
    requires
        keys_unique(old(list)@),
    ensures
        keys_unique(final(list)@),
        owners_map(final(list)@) == owners_map(old(list)@).insert(key, owner.0@),
{
    match owner_index(list, key) {
        Some(i) => {
            proof {
                lemma_owners_update(list@, i as int, owner);
            }
            list.set(i, (key, owner));
        },
        None => {
            proof {
                lemma_owners_push(list@, key, owner);
            }
            list.push((key, owner));
        },
    }
}

/// Drop the entries owned by `id`.
fn owners_retain(list: &mut Vec<(u64, DisplayId)>, id: &DisplayId)
    requires
        keys_unique(old(list)@),
    ensures
        keys_unique(final(list)@),
        owners_map(final(list)@) == without_owner(owners_map(old(list)@), id.0@),
{
    let ghost all = list@;
    let mut kept: Vec<(u64, DisplayId)> = Vec::new();
    let mut rest: Vec<(u64, DisplayId)> = Vec::new();
    std::mem::swap(&mut rest, list);
    let mut reversed: Vec<(u64, DisplayId)> = Vec::new();
    while rest.len() > 0
        invariant
            rest@ == all.take(rest@.len() as int),
            reversed@.len() + rest@.len() == all.len(),
            forall|k: int| 0 <= k < reversed@.len() ==> #[trigger] reversed@[k] == all[all.len() - 1 - k],
        decreases rest.len(),
    {
        let ghost n = rest@.len() as int;
        let e = rest.pop().unwrap();
        proof {
            assert(all.take(n - 1) =~= all.take(n).drop_last());
        }
        reversed.push(e);
    }
    let total = reversed.len();
    let mut j: usize = 0;
    while reversed.len() > 0
        invariant
            reversed@.len() + j == all.len(),
            all.len() == total,
            keys_unique(all),
            forall|k: int| 0 <= k < reversed@.len() ==> #[trigger] reversed@[k] == all[all.len() - 1 - k],
            keys_unique(kept@),
            owners_map(kept@) == without_owner(owners_map(all.take(j as int)), id.0@),
            forall|a: int| 0 <= a < kept@.len() ==> exists|b: int| 0 <= b < j && (#[trigger] kept@[a]).0 == (#[trigger] all[b]).0,
        decreases reversed.len(),
    {
        let e = reversed.pop().unwrap();
        let ghost prefix = all.take(j as int);
        proof {
            assert(e == all[j as int]);
            assert(all.take(j + 1).drop_last() =~= prefix);
            assert(all.take(j + 1).last() == e);
            assert(keys_unique(prefix)) by {
                assert forall|a: int, b: int| 0 <= a < b < prefix.len() implies (#[trigger] prefix[a]).0 != (#[trigger] prefix[b]).0 by {
                    assert(prefix[a] == all[a] && prefix[b] == all[b]);
                }
            }
            lemma_owners_has_key(prefix, e.0);
            if owners_map(prefix).dom().contains(e.0) {
                let b = choose|b: int| 0 <= b < prefix.len() && (#[trigger] prefix[b]).0 == e.0;
                assert(prefix[b] == all[b]);
                assert(false);
            }
        }
        if str_eq(e.1.0.as_str(), id.0.as_str()) {
            proof {
                assert(without_owner(owners_map(all.take(j + 1)), id.0@) =~= without_owner(owners_map(prefix), id.0@));
            }
        } else {
            proof {
                lemma_owners_has_key(kept@, e.0);
                if owners_map(kept@).dom().contains(e.0) {
                    let a = choose|a: int| 0 <= a < kept@.len() && (#[trigger] kept@[a]).0 == e.0;
                    let b = choose|b: int| 0 <= b < j && (#[trigger] kept@[a]).0 == (#[trigger] all[b]).0;
                    assert(all[b].0 == all[j as int].0);
                    assert(false);
                }
                lemma_owners_push(kept@, e.0, e.1);
                assert(without_owner(owners_map(all.take(j + 1)), id.0@) =~= without_owner(owners_map(prefix), id.0@).insert(e.0, e.1.0@));
            }
            let ghost before = kept@;
            kept.push(e);
            proof {
                assert forall|a: int| 0 <= a < kept@.len() implies exists|b: int| 0 <= b < j + 1 && (#[trigger] kept@[a]).0 == (#[trigger] all[b]).0 by {
                    if a == kept@.len() - 1 {
                        assert(kept@[a].0 == all[j as int].0);
                    } else {
                        assert(kept@[a] == before[a]);
                    }
                }
            }
        }
        j = j + 1;
    }
    proof {
        assert(all.take(j as int) =~= all);
    }
    *list = kept;
}

#[derive(Debug)]
pub struct TranscriptStore {
    nodes: Vec<TranscriptNode>,
    unit_owners: Vec<(u64, DisplayId)>,
    surface_owners: Vec<(u64, DisplayId)>,
    generation: u64,
}

impl TranscriptStore {
    pub closed spec fn nodes_spec(&self) -> Seq<TranscriptNode> {
        self.nodes@
    }

    /// Which node owns each copy unit.
    pub closed spec fn units_spec(&self) -> Map<u64, Seq<char>> {
        owners_map(self.unit_owners@)
    }

    /// Which node owns each public surface.
    pub closed spec fn surfaces_spec(&self) -> Map<u64, Seq<char>> {
        owners_map(self.surface_owners@)
    }

    pub closed spec fn generation_spec(&self) -> u64 {
        self.generation
    }

    pub closed spec fn wf(&self) -> bool {
        keys_unique(self.unit_owners@) && keys_unique(self.surface_owners@)
    }

    /// The owner tables are exactly what the nodes give.
    pub open spec fn indexed(&self) -> bool {
        self.units_spec() == units_of(self.nodes_spec()) && self.surfaces_spec() == surfaces_of(self.nodes_spec())
    }

    pub fn new() -> (r: TranscriptStore)
        ensures
            r.wf(),
            r.indexed(),
            r.nodes_spec().len() == 0,
            r.generation_spec() == 0,
    {
        let r = TranscriptStore { nodes: Vec::new(), unit_owners: Vec::new(), surface_owners: Vec::new(), generation: 0 };
        proof {
            assert(owners_map(r.unit_owners@) =~= units_of(r.nodes@));
            assert(owners_map(r.surface_owners@) =~= surfaces_of(r.nodes@));
        }
        r
    }

    pub fn nodes(&self) -> (r: &[TranscriptNode])
        ensures
            r@ == self.nodes_spec(),
    {
        self.nodes.as_slice()
    }

    pub fn len(&self) -> (r: usize)
        ensures
            r == self.nodes_spec().len(),
    {
        self.nodes.len()
    }

    pub fn is_empty(&self) -> (r: bool)
        ensures
            r == (self.nodes_spec().len() == 0),
    {
        self.nodes.len() == 0
    }

    pub fn generation(&self) -> (r: u64)
        ensures
            r == self.generation_spec(),
    {
        self.generation
    }

    fn bump(&mut self)
        ensures
            final(self).generation == next_generation(old(self).generation),
            final(self).nodes == old(self).nodes,
            final(self).unit_owners == old(self).unit_owners,
            final(self).surface_owners == old(self).surface_owners,
    {
        self.generation = if self.generation == u64::MAX {
            0
        } else {
            self.generation + 1
        };
    }

    /// Drop every node; an empty store is left as it is.
    pub fn clear(&mut self)
        requires
            old(self).wf(),
        ensures
            final(self).wf(),
            old(self).nodes_spec().len() > 0 ==> final(self).indexed(),
            final(self).nodes_spec().len() == 0,
            final(self).generation_spec() == if old(self).nodes_spec().len() == 0 {
                old(self).generation_spec()
            } else {
                next_generation(old(self).generation_spec())
            },
            old(self).nodes_spec().len() == 0 ==> *final(self) == *old(self),
    {
        if self.nodes.len() == 0 {
            return ;
        }
        self.nodes.clear();
        self.unit_owners.clear();
        self.surface_owners.clear();
        self.bump();
        proof {
            assert(owners_map(self.unit_owners@) =~= units_of(self.nodes@));
            assert(owners_map(self.surface_owners@) =~= surfaces_of(self.nodes@));
        }
    }

    fn find(&self, id: &str) -> (r: Option<usize>)
        ensures
            match r {
                Some(i) => last_position(self.nodes_spec(), id@) == Some(i as int) && i < self.nodes@.len(),
                None => last_position(self.nodes_spec(), id@) is None,
            },
    {
        let mut n = self.nodes.len();
        proof {
            assert(self.nodes@.take(n as int) =~= self.nodes@);
        }
        while n > 0
            invariant
                n <= self.nodes@.len(),
                last_position(self.nodes@, id@) == last_position(self.nodes@.take(n as int), id@),
            decreases n,
        {
            proof {
                assert(self.nodes@.take(n as int).drop_last() =~= self.nodes@.take(n - 1));
            }
            if str_eq(self.nodes[n - 1].item.id().0.as_str(), id) {
                return Some(n - 1);
            }
            n = n - 1;
        }
        None
    }

    /// The node with this id.
    pub fn get(&self, id: &DisplayId) -> (r: Option<&TranscriptNode>)
        ensures
            match last_position(self.nodes_spec(), id.0@) {
                Some(i) => r == Some(&self.nodes_spec()[i]),
                None => r is None,
            },
    {
        match self.find(id.0.as_str()) {
            Some(i) => Some(&self.nodes[i]),
            None => None,
        }
    }

    /// The position of the node with this id.
    pub fn position(&self, id: &DisplayId) -> (r: Option<usize>)
        ensures
            match r {
                Some(i) => last_position(self.nodes_spec(), id.0@) == Some(i as int),
                None => last_position(self.nodes_spec(), id.0@) is None,
            },
    {
        self.find(id.0.as_str())
    }

    /// The node that owns a copy unit.
    pub fn unit_owner(&self, unit: u64) -> (r: Option<&DisplayId>)
        requires
            self.wf(),
        ensures
            match r {
                Some(owner) => self.units_spec().dom().contains(unit) && self.units_spec()[unit] == owner.0@,
                None => !self.units_spec().dom().contains(unit),
            },
    {
        match owner_index(&self.unit_owners, unit) {
            Some(i) => {
                proof {
                    lemma_owners_value(self.unit_owners@, i as int);
                }
                Some(&self.unit_owners[i].1)
            },
            None => None,
        }
    }

    /// The node that owns a public surface.
    pub fn surface_owner(&self, seq: u64) -> (r: Option<&DisplayId>)
        requires
            self.wf(),
        ensures
            match r {
                Some(owner) => self.surfaces_spec().dom().contains(seq) && self.surfaces_spec()[seq] == owner.0@,
                None => !self.surfaces_spec().dom().contains(seq),
            },
    {
        match owner_index(&self.surface_owners, seq) {
            Some(i) => {
                proof {
                    lemma_owners_value(self.surface_owners@, i as int);
                }
                Some(&self.surface_owners[i].1)
            },
            None => None,
        }
    }

    /// Rebuild the owner tables from the nodes.
    fn reindex(&mut self)
        ensures
            final(self).wf(),
            final(self).indexed(),
            final(self).nodes == old(self).nodes,
            final(self).generation == old(self).generation,
    {
        let mut units: Vec<(u64, DisplayId)> = Vec::new();
        let mut surfaces: Vec<(u64, DisplayId)> = Vec::new();
        let mut i: usize = 0;
        while i < self.nodes.len()
            invariant
                i <= self.nodes@.len(),
                keys_unique(units@),
                keys_unique(surfaces@),
                owners_map(units@) == units_of(self.nodes@.take(i as int)),
                owners_map(surfaces@) == surfaces_of(self.nodes@.take(i as int)),
            decreases self.nodes.len() - i,
        {
            proof {
                assert(self.nodes@.take(i + 1).drop_last() =~= self.nodes@.take(i as int));
                assert(self.nodes@.take(i + 1).last() == self.nodes@[i as int]);
            }
            let id = self.nodes[i].item.id();
            match self.nodes[i].unit() {
                Some(u) => owners_insert(&mut units, u, DisplayId(id.0.clone())),
                None => {},
            }
            match self.nodes[i].surface_seq {
                Some(s) => owners_insert(&mut surfaces, s, DisplayId(id.0.clone())),
                None => {},
            }
            i = i + 1;
        }
        proof {
            assert(self.nodes@.take(i as int) =~= self.nodes@);
        }
        self.unit_owners = units;
        self.surface_owners = surfaces;
    }

    /// Remove the node at `index`; nothing past the end.
    pub fn remove(&mut self, index: usize) -> (r: Option<TranscriptNode>)
        requires
            old(self).wf(),
        ensures
            final(self).wf(),
            index < old(self).nodes_spec().len() ==> {
                &&& r == Some(old(self).nodes_spec()[index as int])
                &&& final(self).nodes_spec() == old(self).nodes_spec().remove(index as int)
                &&& final(self).indexed()
                &&& final(self).generation_spec() == next_generation(old(self).generation_spec())
            },
            index >= old(self).nodes_spec().len() ==> r is None && *final(self) == *old(self),
    {
        if index >= self.nodes.len() {
            return None;
        }
        let removed = self.nodes.remove(index);
        self.reindex();
        self.bump();
        Some(removed)
    }

    /// Insert an item at `index` (clamped to the end) as a new revision; an
    /// earlier node with the same id is removed first. Returns the index.
    pub fn insert(&mut self, index: usize, item: DisplayItem, surface_seq: Option<u64>) -> (r: usize)
        requires
            old(self).wf(),
        ensures
            final(self).wf(),
            final(self).indexed(),
            insert_post(
                old(self).nodes_spec(),
                old(self).generation_spec(),
                index as int,
                item,
                surface_seq,
                final(self).nodes_spec(),
                final(self).generation_spec(),
                r as int,
            ),
    {
        match self.find(item.id().0.as_str()) {
            Some(existing) => {
                self.remove(existing);
            },
            None => {},
        }
        let index = if index < self.nodes.len() {
            index
        } else {
            self.nodes.len()
        };
        self.bump();
        let node = TranscriptNode { item, surface_seq, revision: self.generation };
        self.nodes.insert(index, node);
        self.reindex();
        index
    }

    pub fn append(&mut self, item: DisplayItem, surface_seq: Option<u64>) -> (r: usize)
        requires
            old(self).wf(),
        ensures
            final(self).wf(),
            final(self).indexed(),
            r == final(self).nodes_spec().len() - 1,
            final(self).nodes_spec().last().item_spec() == item,
            final(self).nodes_spec().last().seq_spec() == surface_seq,
            final(self).nodes_spec().last().revision_spec() == final(self).generation_spec(),
            final(self).nodes_spec().drop_last() == without_id(old(self).nodes_spec(), item_id(item).0@),
    {
        let ghost before = without_id(old(self).nodes_spec(), item_id(item).0@);
        proof {
            match last_position(old(self).nodes_spec(), item_id(item).0@) {
                Some(e) => {
                    lemma_last_position_bounds(old(self).nodes_spec(), item_id(item).0@);
                },
                None => {},
            }
            assert(before.len() <= old(self).nodes_spec().len());
        }
        let r = self.insert(self.nodes.len(), item, surface_seq);
        proof {
            assert(self.nodes@.drop_last() =~= before);
        }
        r
    }

    pub fn prepend(&mut self, item: DisplayItem, surface_seq: Option<u64>) -> (r: usize)
        requires
            old(self).wf(),
        ensures
            final(self).wf(),
            final(self).indexed(),
            r == 0,
            final(self).nodes_spec()[0].item_spec() == item,
            final(self).nodes_spec()[0].seq_spec() == surface_seq,
            final(self).nodes_spec()[0].revision_spec() == final(self).generation_spec(),
            final(self).nodes_spec().drop_first() == without_id(old(self).nodes_spec(), item_id(item).0@),
    {
        let ghost before = without_id(old(self).nodes_spec(), item_id(item).0@);
        let r = self.insert(0, item, surface_seq);
        proof {
            assert(self.nodes@.drop_first() =~= before);
        }
        r
    }

    /// Replace the node with this id by `item` at its position.
    pub fn replace(&mut self, id: &DisplayId, item: DisplayItem, surface_seq: Option<u64>) -> (r: Option<usize>)
        requires
            old(self).wf(),
        ensures
            final(self).wf(),
            match last_position(old(self).nodes_spec(), id.0@) {
                Some(p) => r matches Some(i) && final(self).indexed() && insert_post(
                    old(self).nodes_spec().remove(p),
                    next_generation(old(self).generation_spec()),
                    p,
                    item,
                    surface_seq,
                    final(self).nodes_spec(),
                    final(self).generation_spec(),
                    i as int,
                ),
                None => r is None && *final(self) == *old(self),
            },
    {
        let index = match self.find(id.0.as_str()) {
            Some(i) => i,
            None => {
                return None;
            },
        };
        self.remove(index);
        Some(self.insert(index, item, surface_seq))
    }

    /// Remove the nodes at the given indices (repeats and indices past the
    /// end are ignored); returns them in order.
    pub fn remove_indices(&mut self, indices: &[usize]) -> (r: Vec<TranscriptNode>)
        requires
            old(self).wf(),
        ensures
            final(self).wf(),
            r@ == picked(old(self).nodes_spec(), indices@),
            final(self).nodes_spec() == unpicked(old(self).nodes_spec(), indices@),
            r@.len() > 0 ==> final(self).indexed() && final(self).generation_spec() == next_generation(
                old(self).generation_spec(),
            ),
            r@.len() == 0 ==> final(self).nodes_spec() == old(self).nodes_spec() && final(self).units_spec()
                == old(self).units_spec() && final(self).surfaces_spec() == old(self).surfaces_spec()
                && final(self).generation_spec() == old(self).generation_spec(),
    {
        let ghost all = self.nodes@;
        let mut rest: Vec<TranscriptNode> = Vec::new();
        std::mem::swap(&mut rest, &mut self.nodes);
        let mut reversed: Vec<TranscriptNode> = Vec::new();
        while rest.len() > 0
            invariant
                rest@ == all.take(rest@.len() as int),
                reversed@.len() + rest@.len() == all.len(),
                forall|k: int| 0 <= k < reversed@.len() ==> #[trigger] reversed@[k] == all[all.len() - 1 - k],
            decreases rest.len(),
        {
            let ghost n = rest@.len() as int;
            let node = rest.pop().unwrap();
            proof {
                assert(all.take(n - 1) =~= all.take(n).drop_last());
            }
            reversed.push(node);
        }
        let total = reversed.len();
        let mut removed: Vec<TranscriptNode> = Vec::new();
        let mut kept: Vec<TranscriptNode> = Vec::new();
        let mut j: usize = 0;
        while reversed.len() > 0
            invariant
                reversed@.len() + j == all.len(),
                all.len() == total,
                forall|k: int| 0 <= k < reversed@.len() ==> #[trigger] reversed@[k] == all[all.len() - 1 - k],
                removed@ == picked(all.take(j as int), indices@),
                kept@ == unpicked(all.take(j as int), indices@),
            decreases reversed.len(),
        {
            let node = reversed.pop().unwrap();
            proof {
                assert(node == all[j as int]);
                assert(all.take(j + 1).drop_last() =~= all.take(j as int));
                assert(all.take(j + 1).last() == node);
            }
            if index_listed(indices, j) {
                removed.push(node);
            } else {
                kept.push(node);
            }
            j = j + 1;
        }
        proof {
            assert(all.take(j as int) =~= all);
        }
        self.nodes = kept;
        if removed.len() > 0 {
            self.reindex();
            self.bump();
        } else {
            proof {
                lemma_nothing_picked(all, indices@);
            }
        }
        removed
    }

    /// Remove the nodes of the given surfaces (or, with none given, of the
    /// surfaces `start..=end`); returns how many went.
    pub fn remove_surfaces(&mut self, seqs: &[u64], start: u64, end: u64) -> (r: usize)
        requires
            old(self).wf(),
        ensures
            final(self).wf(),
            final(self).nodes_spec() == unpicked(old(self).nodes_spec(), surface_indices(old(self).nodes_spec(), seqs@, start, end)),
            r == picked(old(self).nodes_spec(), surface_indices(old(self).nodes_spec(), seqs@, start, end)).len(),
            r > 0 ==> final(self).indexed() && final(self).generation_spec() == next_generation(old(self).generation_spec()),
            r == 0 ==> final(self).nodes_spec() == old(self).nodes_spec() && final(self).units_spec()
                == old(self).units_spec() && final(self).surfaces_spec() == old(self).surfaces_spec()
                && final(self).generation_spec() == old(self).generation_spec(),
    {
        let mut indices: Vec<usize> = Vec::new();
        let mut i: usize = 0;
        while i < self.nodes.len()
            invariant
                i <= self.nodes@.len(),
                indices@ == surface_indices(self.nodes@.take(i as int), seqs@, start, end),
            decreases self.nodes.len() - i,
        {
            proof {
                assert(self.nodes@.take(i + 1).drop_last() =~= self.nodes@.take(i as int));
                assert(self.nodes@.take(i + 1).last() == self.nodes@[i as int]);
            }
            if surface_matches(self.nodes[i].surface_seq, seqs, start, end) {
                indices.push(i);
            }
            i = i + 1;
        }
        proof {
            assert(self.nodes@.take(i as int) =~= self.nodes@);
        }
        self.remove_indices(indices.as_slice()).len()
    }

    /// The first node of the given surfaces (or of `start..=end`).
    pub fn first_surface_position(&self, seqs: &[u64], start: u64, end: u64) -> (r: Option<usize>)
        ensures
            match r {
                Some(i) => i < self.nodes_spec().len() && surface_in(self.nodes_spec()[i as int].seq_spec(), seqs@, start, end)
                    && forall|k: int| 0 <= k < i ==> !surface_in(#[trigger] self.nodes_spec()[k].seq_spec(), seqs@, start, end),
                None => forall|k: int| 0 <= k < self.nodes_spec().len() ==> !surface_in(#[trigger] self.nodes_spec()[k].seq_spec(), seqs@, start, end),
            },
    {
        let mut i: usize = 0;
        while i < self.nodes.len()
            invariant
                i <= self.nodes@.len(),
                forall|k: int| 0 <= k < i ==> !surface_in(#[trigger] self.nodes@[k].seq_spec(), seqs@, start, end),
            decreases self.nodes.len() - i,
        {
            if surface_matches(self.nodes[i].surface_seq, seqs, start, end) {
                return Some(i);
            }
            i = i + 1;
        }
        None
    }

    /// Record an in-place change of the node with this id without moving
    /// it: it takes back its unit and surface and gets a new revision.
    pub fn touch(&mut self, id: &DisplayId) -> (r: bool)
        requires
            old(self).wf(),
        ensures
            final(self).wf(),
            match last_position(old(self).nodes_spec(), id.0@) {
                Some(p) => {
                    let node = old(self).nodes_spec()[p];
                    let g = next_generation(old(self).generation_spec());
                    &&& r
                    &&& final(self).generation_spec() == g
                    &&& final(self).nodes_spec().len() == old(self).nodes_spec().len()
                    &&& forall|k: int| 0 <= k < old(self).nodes_spec().len() && k != p ==> #[trigger] final(self).nodes_spec()[k] == old(self).nodes_spec()[k]
                    &&& final(self).nodes_spec()[p].item_spec() == node.item_spec()
                    &&& final(self).nodes_spec()[p].seq_spec() == node.seq_spec()
                    &&& final(self).nodes_spec()[p].revision_spec() == g
                    &&& final(self).units_spec() == match item_unit(node.item_spec()) {
                        Some(u) => without_owner(old(self).units_spec(), id.0@).insert(u, id.0@),
                        None => without_owner(old(self).units_spec(), id.0@),
                    }
                    &&& final(self).surfaces_spec() == match node.seq_spec() {
                        Some(q) => without_owner(old(self).surfaces_spec(), id.0@).insert(q, id.0@),
                        None => without_owner(old(self).surfaces_spec(), id.0@),
                    }
                },
                None => !r && *final(self) == *old(self),
            },
    {
        let index = match self.find(id.0.as_str()) {
            Some(i) => i,
            None => {
                return false;
            },
        };
        owners_retain(&mut self.unit_owners, id);
        owners_retain(&mut self.surface_owners, id);
        match self.nodes[index].unit() {
            Some(u) => owners_insert(&mut self.unit_owners, u, DisplayId(id.0.clone())),
            None => {},
        }
        match self.nodes[index].surface_seq {
            Some(q) => owners_insert(&mut self.surface_owners, q, DisplayId(id.0.clone())),
            None => {},
        }
        self.bump();
        let mut node = self.nodes.remove(index);
        node.revision = self.generation;
        self.nodes.insert(index, node);
        proof {
            assert forall|k: int| 0 <= k < old(self).nodes_spec().len() && k != index implies #[trigger] self.nodes@[k] == old(self).nodes_spec()[k] by {
                if k < index {
                    assert(self.nodes@[k] == old(self).nodes@[k]);
                } else {
                    assert(self.nodes@[k] == old(self).nodes@[k]);
                }
            }
        }
        true
    }
}

impl Default for TranscriptStore {
    fn default() -> (r: TranscriptStore)
        ensures
            r.wf(),
            r.indexed(),
            r.nodes_spec().len() == 0,
            r.generation_spec() == 0,
    {
        TranscriptStore::new()
    }
}

/// `i` is one of the listed indices.
pub open spec fn listed(indices: Seq<usize>, i: int) -> bool {
    exists|k: int| 0 <= k < indices.len() && indices[k] == i
}

/// The nodes at listed indices, in order.
pub open spec fn picked(nodes: Seq<TranscriptNode>, indices: Seq<usize>) -> Seq<TranscriptNode>
    decreases nodes.len(),
{
    if nodes.len() == 0 {
        Seq::empty()
    } else if listed(indices, nodes.len() - 1) {
        picked(nodes.drop_last(), indices).push(nodes.last())
    } else {
        picked(nodes.drop_last(), indices)
    }
}

/// The nodes at indices not listed, in order.
pub open spec fn unpicked(nodes: Seq<TranscriptNode>, indices: Seq<usize>) -> Seq<TranscriptNode>
    decreases nodes.len(),
{
    if nodes.len() == 0 {
        Seq::empty()
    } else if listed(indices, nodes.len() - 1) {
        unpicked(nodes.drop_last(), indices)
    } else {
        unpicked(nodes.drop_last(), indices).push(nodes.last())
    }
}

proof fn lemma_nothing_picked(nodes: Seq<TranscriptNode>, indices: Seq<usize>)
    requires
        picked(nodes, indices).len() == 0,
    ensures
        unpicked(nodes, indices) == nodes,
    decreases nodes.len(),
{
    if nodes.len() > 0 {
        if listed(indices, nodes.len() - 1) {
            assert(picked(nodes, indices).len() > 0);
        } else {
            lemma_nothing_picked(nodes.drop_last(), indices);
            assert(nodes.drop_last().push(nodes.last()) =~= nodes);
        }
    }
}

fn index_listed(indices: &[usize], i: usize) -> (r: bool)
    ensures
        r == listed(indices@, i as int),
{
    let mut k: usize = 0;
    while k < indices.len()
        invariant
            k <= indices@.len(),
            forall|a: int| 0 <= a < k ==> indices@[a] != i,
        decreases indices.len() - k,
    {
        if indices[k] == i {
            return true;
        }
        k = k + 1;
    }
    false
}

/// A node of surface `seq` is among the given surfaces, or with none given
/// within `start..=end`.
pub open spec fn surface_in(seq: Option<u64>, seqs: Seq<u64>, start: u64, end: u64) -> bool {
    match seq {
        Some(q) => if seqs.len() == 0 {
            start <= q <= end
        } else {
            seqs.contains(q)
        },
        None => false,
    }
}

/// Indices of the nodes within the surfaces, in order.
pub open spec fn surface_indices(nodes: Seq<TranscriptNode>, seqs: Seq<u64>, start: u64, end: u64) -> Seq<usize>
    decreases nodes.len(),
{
    if nodes.len() == 0 {
        Seq::empty()
    } else if surface_in(nodes.last().seq_spec(), seqs, start, end) {
        surface_indices(nodes.drop_last(), seqs, start, end).push((nodes.len() - 1) as usize)
    } else {
        surface_indices(nodes.drop_last(), seqs, start, end)
    }
}

fn surface_matches(seq: Option<u64>, seqs: &[u64], start: u64, end: u64) -> (r: bool)
    ensures
        r == surface_in(seq, seqs@, start, end),
{
    match seq {
        Some(q) => if seqs.len() == 0 {
            start <= q && q <= end
        } else {
            let mut k: usize = 0;
            while k < seqs.len()
                invariant
                    k <= seqs@.len(),
                    seq == Some(q),
                    seqs@.len() > 0,
                    forall|a: int| 0 <= a < k ==> seqs@[a] != q,
                decreases seqs.len() - k,
            {
                if seqs[k] == q {
                    proof {
                        assert(seqs@[k as int] == q);
                    }
                    return true;
                }
                k = k + 1;
            }
            false
        },
        None => false,
    }
}

} // verus!
