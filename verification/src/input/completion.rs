//! Ranked argument completion for `/new`, `/model`, `/effort` and `/skill`.
use vstd::prelude::*;

use crate::agent::{ModelDescriptor, ModelProvider, ReasoningEffort, Skill};
use crate::command_catalog::{rank, rank_of, NewMode};
use crate::text::{chars_of, lowercase, push_str, to_lowercase};

verus! {

/// The better of two ranks; a missing rank loses.
pub open spec fn min_rank(a: Option<u8>, b: Option<u8>) -> Option<u8> {
    match (a, b) {
        (None, x) => x,
        (x, None) => x,
        (Some(x), Some(y)) => Some(if x <= y { x } else { y }),
    }
}

/// The best rank of a query over several fields.
pub open spec fn best_rank(query: Seq<char>, fields: Seq<Seq<char>>) -> Option<u8>
    decreases fields.len(),
{
    if fields.len() == 0 {
        None
    } else {
        min_rank(best_rank(query, fields.drop_last()), rank_of(query, fields.last()))
    }
}

/// The positions whose rank is `k`, in order.
pub open spec fn rank_group(ranks: Seq<Option<u8>>, k: u8) -> Seq<int>
    decreases ranks.len(),
{
    if ranks.len() == 0 {
        Seq::empty()
    } else {
        let g = rank_group(ranks.drop_last(), k);
        if ranks.last() == Some(k) {
            g.push(ranks.len() - 1)
        } else {
            g
        }
    }
}

/// Ranked positions: prefix matches, then substring matches, then
/// subsequence matches, each group in roster order; unmatched ones drop.
pub open spec fn ranked_positions(ranks: Seq<Option<u8>>) -> Seq<int> {
    rank_group(ranks, 0) + rank_group(ranks, 1) + rank_group(ranks, 2)
}

/// The best rank of the lower-cased query over lower-cased fields.
fn best_field_rank(query: &[char], fields: &Vec<String>) -> (r: Option<u8>)
    ensures
        r == best_rank(query@, fields@.map_values(|f: String| f@)),
{
    let mut best: Option<u8> = None;
    let mut i: usize = 0;
    while i < fields.len()
        invariant
            i <= fields@.len(),
            best == best_rank(query@, fields@.take(i as int).map_values(|f: String| f@)),
        decreases fields.len() - i,
    {
        let field = chars_of(fields[i].as_str());
        let r = rank(query, field.as_slice());
        proof {
            let prev = fields@.take(i as int).map_values(|f: String| f@);
            let next = fields@.take(i + 1).map_values(|f: String| f@);
            assert(next.drop_last() =~= prev);
            assert(next.last() == fields@[i as int]@);
        }
        best = match (best, r) {
            (None, x) => x,
            (x, None) => x,
            (Some(a), Some(b)) => Some(if a <= b { a } else { b }),
        };
        i = i + 1;
    }
    proof {
        assert(fields@.take(i as int) =~= fields@);
    }
    best
}

/// The positions of `ranks` in ranked order.
fn rank_order(ranks: &Vec<Option<u8>>) -> (r: Vec<usize>)
    ensures
        r@.map_values(|i: usize| i as int) == ranked_positions(ranks@),
        forall|k: int| 0 <= k < r@.len() ==> (#[trigger] r@[k]) < ranks@.len(),
{
    let mut out: Vec<usize> = Vec::new();
    let mut k: u8 = 0;
    while k < 3
        invariant
            k <= 3,
            out@.map_values(|i: usize| i as int) == if k == 0 {
                Seq::<int>::empty()
            } else if k == 1 {
                rank_group(ranks@, 0)
            } else if k == 2 {
                rank_group(ranks@, 0) + rank_group(ranks@, 1)
            } else {
                ranked_positions(ranks@)
            },
            forall|j: int| 0 <= j < out@.len() ==> (#[trigger] out@[j]) < ranks@.len(),
        decreases 3 - k,
    {
        let ghost before = out@.map_values(|i: usize| i as int);
        let mut i: usize = 0;
        while i < ranks.len()
            invariant
                i <= ranks@.len(),
                k < 3,
                out@.map_values(|i: usize| i as int) == before + rank_group(ranks@.take(i as int), k),
                forall|j: int| 0 <= j < out@.len() ==> (#[trigger] out@[j]) < ranks@.len(),
            decreases ranks.len() - i,
        {
            proof {
                assert(ranks@.take(i + 1).drop_last() =~= ranks@.take(i as int));
            }
            if ranks[i] == Some(k) {
                let ghost old_out = out@;
                out.push(i);
                proof {
                    assert(out@.map_values(|i: usize| i as int) =~= old_out.map_values(|i: usize| i as int).push(i as int));
                    assert(ranks@.take(i + 1).last() == ranks@[i as int]);
                    assert(out@.map_values(|i: usize| i as int) =~= before + rank_group(ranks@.take(i + 1), k));
                }
            } else {
                proof {
                    assert(ranks@.take(i + 1).last() == ranks@[i as int]);
                    assert(out@.map_values(|i: usize| i as int) =~= before + rank_group(ranks@.take(i + 1), k));
                }
            }
            i = i + 1;
        }
        proof {
            assert(ranks@.take(i as int) =~= ranks@);
        }
        k = k + 1;
    }
    out
}

/// The fields `/new` completion searches: the mode id and display name.
pub open spec fn mode_fields(mode: NewMode) -> Seq<Seq<char>> {
    seq![lowercase(mode.id@), lowercase(match mode.name {
        Some(n) => n@,
        None => Seq::empty(),
    })]
}

pub open spec fn mode_ranks(query: Seq<char>, modes: Seq<NewMode>) -> Seq<Option<u8>> {
    Seq::new(modes.len(), |i: int| best_rank(lowercase(query), mode_fields(modes[i])))
}

/// Ranked fuzzy match against the `/new` modes: id-prefix matches first,
/// then id/display-name substring matches, then subsequence matches; each
/// group keeps the roster order. An empty query returns every mode.
pub fn match_new_modes<'a>(query: &str, modes: &'a [NewMode]) -> (r: Vec<&'a NewMode>)
    ensures
        r@.len() == ranked_positions(mode_ranks(query@, modes@)).len(),
        forall|k: int|
            0 <= k < r@.len() ==> *(#[trigger] r@[k]) == modes@[ranked_positions(mode_ranks(query@, modes@))[k]],
{
    let q = to_lowercase(query);
    let qv = chars_of(q.as_str());
    let mut ranks: Vec<Option<u8>> = Vec::new();
    let mut i: usize = 0;
    while i < modes.len()
        invariant
            i <= modes@.len(),
            qv@ == lowercase(query@),
            ranks@ =~= mode_ranks(query@, modes@).take(i as int),
        decreases modes.len() - i,
    {
        let mode = &modes[i];
        let name = match &mode.name {
            Some(n) => to_lowercase(n.as_str()),
            None => to_lowercase(""),
        };
        let fields = vec![to_lowercase(mode.id.as_str()), name];
        proof {
            assert(""@ =~= Seq::<char>::empty()) by {
                reveal_strlit("");
            }
            assert(fields@.map_values(|f: String| f@) =~= mode_fields(modes@[i as int]));
        }
        ranks.push(best_field_rank(qv.as_slice(), &fields));
        i = i + 1;
    }
    proof {
        assert(ranks@ =~= mode_ranks(query@, modes@));
    }
    pick(modes, &rank_order(&ranks), Ghost(mode_ranks(query@, modes@)))
}

fn pick<'a, T>(items: &'a [T], order: &Vec<usize>, Ghost(ranks): Ghost<Seq<Option<u8>>>) -> (r: Vec<&'a T>)
    requires
        order@.map_values(|i: usize| i as int) == ranked_positions(ranks),
        forall|k: int| 0 <= k < order@.len() ==> (#[trigger] order@[k]) < items@.len(),
    ensures
        r@.len() == ranked_positions(ranks).len(),
        forall|k: int| 0 <= k < r@.len() ==> *(#[trigger] r@[k]) == items@[ranked_positions(ranks)[k]],
{
    let mut out: Vec<&'a T> = Vec::new();
    let mut k: usize = 0;
    while k < order.len()
        invariant
            k <= order@.len(),
            order@.map_values(|i: usize| i as int) == ranked_positions(ranks),
            forall|j: int| 0 <= j < order@.len() ==> (#[trigger] order@[j]) < items@.len(),
            out@.len() == k,
            forall|j: int| 0 <= j < k ==> *(#[trigger] out@[j]) == items@[ranked_positions(ranks)[j]],
        decreases order.len() - k,
    {
        proof {
            assert(order@.map_values(|i: usize| i as int)[k as int] == order@[k as int] as int);
        }
        out.push(&items[order[k]]);
        k = k + 1;
    }
    out
}

/// The fields `/model` completion searches for one route.
pub open spec fn route_fields(provider: ModelProvider, model: ModelDescriptor) -> Seq<Seq<char>> {
    seq![
        lowercase(model.id@),
        lowercase(provider.id@),
        lowercase(provider.id@ + "/"@ + model.id@),
        lowercase(model.name@),
    ]
}

/// Every model route, provider by provider in roster order.
pub open spec fn routes(providers: Seq<ModelProvider>) -> Seq<(ModelProvider, ModelDescriptor)>
    decreases providers.len(),
{
    if providers.len() == 0 {
        Seq::empty()
    } else {
        let p = providers.last();
        routes(providers.drop_last()) + p.models@.map_values(|m: ModelDescriptor| (p, m))
    }
}

pub open spec fn route_ranks(query: Seq<char>, providers: Seq<ModelProvider>) -> Seq<Option<u8>> {
    Seq::new(
        routes(providers).len(),
        |i: int| best_rank(lowercase(query), route_fields(routes(providers)[i].0, routes(providers)[i].1)),
    )
}

/// Fuzzy-rank model routes by model id, provider id, canonical route and
/// display name; routes keep provider roster order inside each rank.
pub fn match_models<'a>(query: &str, providers: &'a [ModelProvider]) -> (r: Vec<(&'a ModelProvider, &'a ModelDescriptor)>)
    ensures
        r@.len() == ranked_positions(route_ranks(query@, providers@)).len(),
        forall|k: int|
            0 <= k < r@.len() ==> (*(#[trigger] r@[k]).0, *r@[k].1) == routes(providers@)[ranked_positions(
                route_ranks(query@, providers@),
            )[k]],
{
    let q = to_lowercase(query);
    let qv = chars_of(q.as_str());
    let mut items: Vec<(&'a ModelProvider, &'a ModelDescriptor)> = Vec::new();
    let mut ranks: Vec<Option<u8>> = Vec::new();
    let mut p: usize = 0;
    while p < providers.len()
        invariant
            p <= providers@.len(),
            qv@ == lowercase(query@),
            items@.len() == routes(providers@.take(p as int)).len(),
            forall|j: int| 0 <= j < items@.len() ==> (*(#[trigger] items@[j]).0, *items@[j].1) == routes(providers@.take(p as int))[j],
            ranks@.len() == items@.len(),
            forall|j: int| 0 <= j < ranks@.len() ==> (#[trigger] ranks@[j]) == best_rank(lowercase(query@), route_fields(*items@[j].0, *items@[j].1)),
        decreases providers.len() - p,
    {
        let provider = &providers[p];
        let ghost before = items@;
        proof {
            assert(providers@.take(p + 1).drop_last() =~= providers@.take(p as int));
            assert(providers@.take(p + 1).last() == providers@[p as int]);
        }
        let mut m: usize = 0;
        while m < provider.models.len()
            invariant
                m <= provider.models@.len(),
                *provider == providers@[p as int],
                qv@ == lowercase(query@),
                items@.len() == before.len() + m,
                forall|j: int| 0 <= j < before.len() ==> (#[trigger] items@[j]) == before[j],
                forall|j: int| 0 <= j < m ==> (*(#[trigger] items@[before.len() + j]).0, *items@[before.len() + j].1) == (*provider, provider.models@[j]),
                ranks@.len() == items@.len(),
                forall|j: int| 0 <= j < ranks@.len() ==> (#[trigger] ranks@[j]) == best_rank(lowercase(query@), route_fields(*items@[j].0, *items@[j].1)),
            decreases provider.models.len() - m,
        {
            let model = &provider.models[m];
            let mut route = provider.id.clone();
            push_str(&mut route, "/");
            push_str(&mut route, model.id.as_str());
            let fields = vec![
                to_lowercase(model.id.as_str()),
                to_lowercase(provider.id.as_str()),
                to_lowercase(route.as_str()),
                to_lowercase(model.name.as_str()),
            ];
            proof {
                assert(fields@.map_values(|f: String| f@) =~= route_fields(*provider, *model));
            }
            ranks.push(best_field_rank(qv.as_slice(), &fields));
            items.push((provider, model));
            m = m + 1;
        }
        proof {
            let want = routes(providers@.take(p + 1));
            let added = provider.models@.map_values(|md: ModelDescriptor| (*provider, md));
            assert(want =~= routes(providers@.take(p as int)) + added);
            assert forall|j: int| 0 <= j < items@.len() implies (*(#[trigger] items@[j]).0, *items@[j].1) == want[j] by {
                if j < before.len() {
                } else {
                    let jj = j - before.len();
                    assert(items@[before.len() + jj] == items@[j]);
                    assert((*items@[before.len() + jj].0, *items@[before.len() + jj].1) == (*provider, provider.models@[jj]));
                    assert(added[jj] == (*provider, provider.models@[jj]));
                }
            }
        }
        p = p + 1;
    }
    proof {
        assert(providers@.take(p as int) =~= providers@);
        assert(ranks@ =~= route_ranks(query@, providers@));
    }
    let order = rank_order(&ranks);
    let picked = pick(items.as_slice(), &order, Ghost(route_ranks(query@, providers@)));
    let mut out: Vec<(&'a ModelProvider, &'a ModelDescriptor)> = Vec::new();
    let mut k: usize = 0;
    while k < picked.len()
        invariant
            k <= picked@.len(),
            out@.len() == k,
            forall|j: int| 0 <= j < k ==> (#[trigger] out@[j]) == *picked@[j],
        decreases picked.len() - k,
    {
        out.push(*picked[k]);
        k = k + 1;
    }
    proof {
        assert forall|j: int| 0 <= j < out@.len() implies (*(#[trigger] out@[j]).0, *out@[j].1) == routes(providers@)[ranked_positions(
            route_ranks(query@, providers@),
        )[j]] by {
            let idx = ranked_positions(route_ranks(query@, providers@))[j];
            assert(*picked@[j] == items@[idx]);
        }
    }
    out
}

pub open spec fn effort_ranks(query: Seq<char>, efforts: Seq<ReasoningEffort>) -> Seq<Option<u8>> {
    Seq::new(
        efforts.len(),
        |i: int| best_rank(lowercase(query), seq![lowercase(efforts[i].id@), lowercase(efforts[i].name@)]),
    )
}

/// Fuzzy-rank reasoning efforts by id and display name.
pub fn match_efforts<'a>(query: &str, efforts: &'a [ReasoningEffort]) -> (r: Vec<&'a ReasoningEffort>)
    ensures
        r@.len() == ranked_positions(effort_ranks(query@, efforts@)).len(),
        forall|k: int|
            0 <= k < r@.len() ==> *(#[trigger] r@[k]) == efforts@[ranked_positions(effort_ranks(query@, efforts@))[k]],
{
    let q = to_lowercase(query);
    let qv = chars_of(q.as_str());
    let mut ranks: Vec<Option<u8>> = Vec::new();
    let mut i: usize = 0;
    while i < efforts.len()
        invariant
            i <= efforts@.len(),
            qv@ == lowercase(query@),
            ranks@ =~= effort_ranks(query@, efforts@).take(i as int),
        decreases efforts.len() - i,
    {
        let fields = vec![to_lowercase(efforts[i].id.as_str()), to_lowercase(efforts[i].name.as_str())];
        proof {
            assert(fields@.map_values(|f: String| f@) =~= seq![
                lowercase(efforts@[i as int].id@),
                lowercase(efforts@[i as int].name@),
            ]);
        }
        ranks.push(best_field_rank(qv.as_slice(), &fields));
        i = i + 1;
    }
    proof {
        assert(ranks@ =~= effort_ranks(query@, efforts@));
    }
    pick(efforts, &rank_order(&ranks), Ghost(effort_ranks(query@, efforts@)))
}

pub open spec fn skill_ranks(query: Seq<char>, skills: Seq<Skill>) -> Seq<Option<u8>> {
    Seq::new(skills.len(), |i: int| best_rank(lowercase(query), seq![lowercase(skills[i].name@)]))
}

/// Fuzzy-rank skills by name.
pub fn match_skills<'a>(query: &str, skills: &'a [Skill]) -> (r: Vec<&'a Skill>)
    ensures
        r@.len() == ranked_positions(skill_ranks(query@, skills@)).len(),
        forall|k: int|
            0 <= k < r@.len() ==> *(#[trigger] r@[k]) == skills@[ranked_positions(skill_ranks(query@, skills@))[k]],
{
    let q = to_lowercase(query);
    let qv = chars_of(q.as_str());
    let mut ranks: Vec<Option<u8>> = Vec::new();
    let mut i: usize = 0;
    while i < skills.len()
        invariant
            i <= skills@.len(),
            qv@ == lowercase(query@),
            ranks@ =~= skill_ranks(query@, skills@).take(i as int),
        decreases skills.len() - i,
    {
        let fields = vec![to_lowercase(skills[i].name.as_str())];
        proof {
            assert(fields@.map_values(|f: String| f@) =~= seq![lowercase(skills@[i as int].name@)]);
        }
        ranks.push(best_field_rank(qv.as_slice(), &fields));
        i = i + 1;
    }
    proof {
        assert(ranks@ =~= skill_ranks(query@, skills@));
    }
    pick(skills, &rank_order(&ranks), Ghost(skill_ranks(query@, skills@)))
}

} // verus!
