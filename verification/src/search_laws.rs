//! What a ranking leaves out: an exact one leaves out nothing that ranks before
//! what it gives.

use crate::catalog::{a_kept_store_is_found, lookup, EntryModel};
use crate::edge_read::place_at;
use crate::edge_search::{
    placed_hits, search_hits, search_types_of, stores_caught_up, stores_of, SearchHitModel,
};
use crate::graph::DirGraph;
use crate::groups::RelationshipKeys;
use crate::name_pairs::{name_order, name_order_is_order, pairs_kept, stores_on, types_over};
use crate::names::listed_column;
use crate::order::{ascending, ascending_lists_the_items, Ranking};
use crate::ranking::{
    answer_hits, answers_fit, best, gathered, hits_at, merged_ranking, owner_rank, store_hits,
    the_best_come_first, types_before, types_rank_as_ordered, ByScore, ByScoreAndType, HitModel,
    MergedHit, ScoredTarget, SearchMethod, StoreAnswer,
};
use crate::store::{caught_up, coherent, delta_of, StoreModel};
use crate::text::{lex_le, text_order, text_order_is_order, Text};
use crate::value::{double_rank, EdgeIndex};
use vstd::prelude::*;

verus! {

proof fn best_of_distinct<T: Copy, R: Ranking<T>>(ranking: R, items: Seq<T>, count: nat)
    requires
        items.no_duplicates(),
    ensures
        best(ranking, items, count).no_duplicates(),
        best(ranking, items, count).len() == if count < items.len() {
            count
        } else {
            items.len()
        },
        forall|x: T| #[trigger] best(ranking, items, count).contains(x) ==> items.contains(x),
        forall|x: T|
            count >= items.len() && #[trigger] items.contains(x) ==> best(
                ranking,
                items,
                count,
            ).contains(x),
        forall|kept: T, x: T|
            best(ranking, items, count).contains(kept) && items.contains(x) && !best(
                ranking,
                items,
                count,
            ).contains(x) ==> #[trigger] ranking.before(kept, x),
        forall|i: int, j: int|
            0 <= i < j < best(ranking, items, count).len() ==> ranking.before(
                #[trigger] best(ranking, items, count)[i],
                #[trigger] best(ranking, items, count)[j],
            ),
{
    broadcast use vstd::seq_lib::group_to_multiset_ensures;

    let out = best(ranking, items, count);
    the_best_come_first(ranking, items, count);
    items.lemma_multiset_has_no_duplicates();
    assert forall|x: T| out.to_multiset().contains(x) implies out.to_multiset().count(x) == 1 by {
        assert(out.to_multiset().count(x) <= items.to_multiset().count(x));
        assert(items.to_multiset().contains(x));
    }
    out.lemma_multiset_has_no_duplicates_conv();
    assert forall|x: T| #[trigger] out.contains(x) implies items.contains(x) by {
        assert(out.to_multiset().count(x) > 0);
        assert(out.to_multiset().count(x) <= items.to_multiset().count(x));
    }
    assert forall|kept: T, x: T|
        out.contains(kept) && items.contains(x) && !out.contains(x) implies #[trigger] ranking.before(
        kept,
        x,
    ) by {
        assert(items.to_multiset().count(x) > 0);
        assert(out.to_multiset().count(x) == 0);
        assert(items.to_multiset().sub(out.to_multiset()).contains(x));
    }
    if count >= items.len() {
        out.unique_seq_to_set();
        items.unique_seq_to_set();
        assert(out.to_set().subset_of(items.to_set())) by {
            assert forall|x: T| out.to_set().contains(x) implies items.to_set().contains(x) by {
                assert(out.contains(x));
            }
        }
        vstd::set_lib::lemma_subset_equality(out.to_set(), items.to_set());
        assert forall|x: T| #[trigger] items.contains(x) implies out.contains(x) by {
            assert(items.to_set().contains(x));
        }
    }
    let r = crate::order::rank_order::<T, R>(ranking);
    assert forall|i: int, j: int| 0 <= i < j < out.len() implies ranking.before(
        #[trigger] out[i],
        #[trigger] out[j],
    ) by {
        assert(r(out[i], out[j]));
    }
}

/// The score of a scanned vector.
pub open spec fn scan_score(answer: StoreAnswer, slot: int) -> u64 {
    match answer {
        StoreAnswer::Scan(scores) => scores@[slot],
        StoreAnswer::Found(_) => 0,
    }
}

/// The vectors of the first `count` stores.
pub open spec fn vectors_upto(stores: Seq<StoreModel>, count: nat) -> nat
    decreases count,
{
    if count == 0 {
        0
    } else {
        vectors_upto(stores, (count - 1) as nat) + stores[count - 1].nodes.len()
    }
}

/// The vectors that the first `count` stores give, at most `top_k` each.
spec fn capped_upto(stores: Seq<StoreModel>, top_k: nat, count: nat) -> nat
    decreases count,
{
    if count == 0 {
        0
    } else {
        capped_upto(stores, top_k, (count - 1) as nat) + if top_k < stores[count - 1].nodes.len() {
            top_k
        } else {
            stores[count - 1].nodes.len()
        }
    }
}

proof fn capping_matters_late(stores: Seq<StoreModel>, top_k: nat, count: nat)
    ensures
        capped_upto(stores, top_k, count) <= vectors_upto(stores, count),
        capped_upto(stores, top_k, count) < top_k ==> capped_upto(stores, top_k, count)
            == vectors_upto(stores, count),
    decreases count,
{
    if count > 0 {
        capping_matters_late(stores, top_k, (count - 1) as nat);
    }
}

/// Whether every store that answers was scanned, with a score for each vector.
spec fn all_scanned(stores: Seq<StoreModel>, answers: Seq<StoreAnswer>) -> bool {
    &&& answers.len() == stores.len()
    &&& forall|i: int|
        0 <= i < stores.len() ==> (#[trigger] stores[i]).nodes.no_duplicates() && (
        stores[i].nodes.len() > 0 ==> answers[i] is Scan && answers[i].fits(stores[i]))
}

/// Whether every store that answers does so with scores of its vectors, each at
/// most once.
spec fn all_answered(stores: Seq<StoreModel>, answers: Seq<StoreAnswer>) -> bool {
    &&& answers.len() == stores.len()
    &&& forall|i: int|
        0 <= i < stores.len() ==> (#[trigger] stores[i]).nodes.no_duplicates() && (
        stores[i].nodes.len() > 0 ==> answers[i].fits(stores[i]))
}

proof fn an_answer_names_no_target_twice(store: StoreModel, answer: StoreAnswer, top_k: nat)
    requires
        store.nodes.no_duplicates(),
        store.nodes.len() > 0 ==> answer.fits(store),
    ensures
        store_hits(store, answer, top_k).no_duplicates(),
        forall|x: ScoredTarget, y: ScoredTarget|
            store_hits(store, answer, top_k).contains(x) && store_hits(
                store,
                answer,
                top_k,
            ).contains(y) && x.target == y.target ==> x == y,
{
    if top_k > 0 && store.nodes.len() > 0 {
        let all = answer_hits(store, answer);
        assert forall|i: int, j: int|
            0 <= i < all.len() && 0 <= j < all.len() && i != j implies all[i].target
            != all[j].target by {
            match answer {
                StoreAnswer::Scan(_) => {
                    assert(store.nodes[i] != store.nodes[j]);
                },
                StoreAnswer::Found(found) => {
                    let low = if i < j { i } else { j };
                    let high = if i < j { j } else { i };
                    assert(found@[low].0 != found@[high].0);
                    assert(found@[i].0 < store.nodes.len());
                    assert(found@[j].0 < store.nodes.len());
                    assert(store.nodes[found@[i].0 as int] != store.nodes[found@[j].0 as int]);
                },
            }
        }
        best_of_distinct(ByScore, all, top_k);
        let out = store_hits(store, answer, top_k);
        assert forall|x: ScoredTarget, y: ScoredTarget|
            out.contains(x) && out.contains(y) && x.target == y.target implies x == y by {
            assert(all.contains(x) && all.contains(y));
            let i = all.index_of(x);
            let j = all.index_of(y);
            assert(all[i] == x && all[j] == y);
        }
    }
}

/// A vector as a hit of its store.
spec fn slot_hit(store: StoreModel, answer: StoreAnswer, slot: int) -> ScoredTarget {
    ScoredTarget { score: scan_score(answer, slot), target: store.nodes[slot] }
}

proof fn a_scan_covers_its_store(store: StoreModel, answer: StoreAnswer, top_k: nat)
    requires
        top_k > 0,
        store.nodes.no_duplicates(),
        store.nodes.len() > 0 ==> answer is Scan && answer.fits(store),
    ensures
        store_hits(store, answer, top_k).no_duplicates(),
        store_hits(store, answer, top_k).len() == if top_k < store.nodes.len() {
            top_k
        } else {
            store.nodes.len()
        },
        forall|x: ScoredTarget| #[trigger]
            store_hits(store, answer, top_k).contains(x) ==> exists|i: int|
                0 <= i < store.nodes.len() && x == #[trigger] slot_hit(store, answer, i),
        forall|i: int|
            0 <= i < store.nodes.len() && top_k >= store.nodes.len() ==> store_hits(
                store,
                answer,
                top_k,
            ).contains(#[trigger] slot_hit(store, answer, i)),
        forall|kept: ScoredTarget, i: int|
            0 <= i < store.nodes.len() && #[trigger] store_hits(store, answer, top_k).contains(kept)
                && !store_hits(store, answer, top_k).contains(#[trigger] slot_hit(store, answer, i))
                ==> ByScore.before(kept, slot_hit(store, answer, i)),
{
    if store.nodes.len() > 0 {
        let all = answer_hits(store, answer);
        assert forall|i: int, j: int| 0 <= i < all.len() && 0 <= j < all.len() && i != j implies all[i]
            != all[j] by {
            assert(store.nodes[i] != store.nodes[j]);
        }
        best_of_distinct(ByScore, all, top_k);
        let out = store_hits(store, answer, top_k);
        assert forall|x: ScoredTarget| #[trigger] out.contains(x) implies exists|i: int|
            0 <= i < store.nodes.len() && x == #[trigger] slot_hit(store, answer, i) by {
            assert(all.contains(x));
            let i = all.index_of(x);
            assert(x == slot_hit(store, answer, i));
        }
        assert forall|i: int| 0 <= i < store.nodes.len() implies all.contains(
            #[trigger] slot_hit(store, answer, i),
        ) by {
            assert(all[i] == slot_hit(store, answer, i));
        }
    }
}

/// A store's hit among those of several stores.
spec fn merged_hit(types: Seq<Text>, hit: ScoredTarget, place: int) -> MergedHit {
    MergedHit {
        score: hit.score,
        owner: owner_rank(types, place) as usize,
        target: hit.target,
        place: place as usize,
    }
}

/// What a merged hit says of its store's own.
spec fn own_hit(hit: MergedHit) -> ScoredTarget {
    ScoredTarget { score: hit.score, target: hit.target }
}

proof fn gathering_keeps_every_hit(
    types: Seq<Text>,
    stores: Seq<StoreModel>,
    answers: Seq<StoreAnswer>,
    top_k: nat,
    count: nat,
)
    requires
        top_k > 0,
        all_answered(stores, answers),
        count <= stores.len(),
        stores.len() <= usize::MAX,
    ensures
        gathered(types, stores, answers, top_k, count).no_duplicates(),
        all_scanned(stores, answers) ==> gathered(types, stores, answers, top_k, count).len()
            == capped_upto(stores, top_k, count),
        forall|h: MergedHit| #[trigger]
            gathered(types, stores, answers, top_k, count).contains(h) ==> {
                &&& h.place < count
                &&& store_hits(stores[h.place as int], answers[h.place as int], top_k).contains(
                    own_hit(h),
                )
                &&& h == merged_hit(types, own_hit(h), h.place as int)
            },
        forall|p: int, x: ScoredTarget|
            0 <= p < count && #[trigger] store_hits(stores[p], answers[p], top_k).contains(x)
                ==> gathered(types, stores, answers, top_k, count).contains(
                merged_hit(types, x, p),
            ),
    decreases count,
{
    if count > 0 {
        let prior = (count - 1) as nat;
        gathering_keeps_every_hit(types, stores, answers, top_k, prior);
        let earlier = gathered(types, stores, answers, top_k, prior);
        let own = store_hits(stores[count - 1], answers[count - 1], top_k);
        let fresh = hits_at(types, own, count - 1);
        let all = gathered(types, stores, answers, top_k, count);
        assert(stores[count - 1].nodes.no_duplicates());
        an_answer_names_no_target_twice(stores[count - 1], answers[count - 1], top_k);
        if all_scanned(stores, answers) {
            a_scan_covers_its_store(stores[count - 1], answers[count - 1], top_k);
        }
        assert(all == earlier + fresh);
        assert forall|i: int, j: int| 0 <= i < all.len() && 0 <= j < all.len() && i != j implies all[i]
            != all[j] by {
            if i < earlier.len() {
                assert(earlier.contains(earlier[i]));
            }
            if j < earlier.len() {
                assert(earlier.contains(earlier[j]));
            }
            if i >= earlier.len() && j >= earlier.len() {
                assert(own[i - earlier.len()] != own[j - earlier.len()]);
                assert(all[i] == merged_hit(types, own[i - earlier.len()], count - 1));
                assert(all[j] == merged_hit(types, own[j - earlier.len()], count - 1));
            }
        }
        assert forall|h: MergedHit| #[trigger] all.contains(h) implies {
            &&& h.place < count
            &&& store_hits(stores[h.place as int], answers[h.place as int], top_k).contains(
                own_hit(h),
            )
            &&& h == merged_hit(types, own_hit(h), h.place as int)
        } by {
            let i = all.index_of(h);
            if i < earlier.len() {
                assert(earlier[i] == h);
                assert(earlier.contains(h));
            } else {
                let k = i - earlier.len();
                assert(fresh[k] == h);
                assert(own[k] == own_hit(h));
                assert(own.contains(own_hit(h)));
            }
        }
        assert forall|p: int, x: ScoredTarget|
            0 <= p < count && #[trigger] store_hits(stores[p], answers[p], top_k).contains(
                x,
            ) implies all.contains(merged_hit(types, x, p)) by {
            if p < count - 1 {
                assert(earlier.contains(merged_hit(types, x, p)));
                let i = earlier.index_of(merged_hit(types, x, p));
                assert(all[i] == merged_hit(types, x, p));
            } else {
                let k = own.index_of(x);
                assert(fresh[k] == merged_hit(types, x, p));
                assert(all[earlier.len() + k] == merged_hit(types, x, p));
            }
        }
    } else {
        assert(gathered(types, stores, answers, top_k, 0) =~= Seq::<MergedHit>::empty());
    }
}

proof fn same_length_is_same_items(kept: Seq<MergedHit>, ranked: Seq<MergedHit>, item: MergedHit)
    requires
        kept.no_duplicates(),
        ranked.no_duplicates(),
        kept.len() == ranked.len(),
        forall|x: MergedHit| #[trigger] kept.contains(x) ==> ranked.contains(x),
        ranked.contains(item),
    ensures
        kept.contains(item),
{
    kept.unique_seq_to_set();
    ranked.unique_seq_to_set();
    assert(kept.to_set().subset_of(ranked.to_set())) by {
        assert forall|x: MergedHit| kept.to_set().contains(x) implies ranked.to_set().contains(
            x,
        ) by {
            assert(kept.contains(x));
        }
    }
    vstd::set_lib::lemma_subset_equality(kept.to_set(), ranked.to_set());
    assert(ranked.to_set().contains(item));
}

proof fn ranked_before_what_is_left_out(
    types: Seq<Text>,
    stores: Seq<StoreModel>,
    answers: Seq<StoreAnswer>,
    top_k: nat,
    place: int,
    slot: int,
    item: MergedHit,
)
    requires
        top_k > 0,
        all_scanned(stores, answers),
        stores.len() <= usize::MAX,
        0 <= place < stores.len(),
        0 <= slot < stores[place].nodes.len(),
        best(
            ByScoreAndType,
            gathered(types, stores, answers, top_k, stores.len()),
            top_k,
        ).contains(item),
        !best(
            ByScoreAndType,
            gathered(types, stores, answers, top_k, stores.len()),
            top_k,
        ).contains(merged_hit(types, slot_hit(stores[place], answers[place], slot), place)),
    ensures
        ByScoreAndType.before(
            item,
            merged_hit(types, slot_hit(stores[place], answers[place], slot), place),
        ),
{
    let all = gathered(types, stores, answers, top_k, stores.len());
    let ranked = best(ByScoreAndType, all, top_k);
    let own = store_hits(stores[place], answers[place], top_k);
    let x = slot_hit(stores[place], answers[place], slot);
    let h = merged_hit(types, x, place);
    gathering_keeps_every_hit(types, stores, answers, top_k, stores.len());
    best_of_distinct(ByScoreAndType, all, top_k);
    assert(stores[place].nodes.no_duplicates());
    a_scan_covers_its_store(stores[place], answers[place], top_k);
    if own.contains(x) {
        assert(all.contains(h));
    } else {
        let kept = hits_at(types, own, place);
        assert forall|y: MergedHit| #[trigger] kept.contains(y) implies ByScoreAndType.before(y, h)
            && all.contains(y) by {
            let k = kept.index_of(y);
            assert(own.contains(own[k]));
            assert(ByScore.before(own[k], x));
            assert(y == merged_hit(types, own[k], place));
        }
        if forall|y: MergedHit| #[trigger] kept.contains(y) ==> ranked.contains(y) {
            assert forall|i: int, j: int|
                0 <= i < kept.len() && 0 <= j < kept.len() && i != j implies kept[i] != kept[j] by {
                assert(own[i] != own[j]);
                assert(kept[i] == merged_hit(types, own[i], place));
                assert(kept[j] == merged_hit(types, own[j], place));
            }
            assert(kept.len() == top_k);
            assert(ranked.len() <= top_k);
            kept.unique_seq_to_set();
            ranked.unique_seq_to_set();
            assert(kept.to_set().subset_of(ranked.to_set())) by {
                assert forall|y: MergedHit| kept.to_set().contains(y) implies ranked.to_set().contains(
                    y,
                ) by {
                    assert(kept.contains(y));
                }
            }
            vstd::set_lib::lemma_len_subset(kept.to_set(), ranked.to_set());
            same_length_is_same_items(kept, ranked, item);
        } else {
            let y = choose|y: MergedHit| #[trigger] kept.contains(y) && !ranked.contains(y);
            assert(all.contains(y));
            assert(ByScoreAndType.before(item, y));
            ByScoreAndType.transitive(item, y, h);
        }
    }
}

proof fn few_types_before(types: Seq<Text>, place: int, count: nat)
    ensures
        types_before(types, place, count) <= count,
    decreases count,
{
    if count > 0 {
        few_types_before(types, place, (count - 1) as nat);
    }
}

/// The order of a merged ranking: the higher score first, then the earlier type,
/// then the lower slot.
pub open spec fn hit_before(a: HitModel, b: HitModel) -> bool {
    ||| double_rank(a.score) > double_rank(b.score)
    ||| a.score == b.score && (if a.owner_type == b.owner_type {
        a.target <= b.target
    } else {
        lex_le(a.owner_type, b.owner_type)
    })
}

proof fn merged_order_is_hit_order(types: Seq<Text>, a: MergedHit, b: MergedHit, x: HitModel, y: HitModel)
    requires
        types.len() <= usize::MAX,
        a.place < types.len(),
        b.place < types.len(),
        a.owner == owner_rank(types, a.place as int) as usize,
        b.owner == owner_rank(types, b.place as int) as usize,
        x.owner_type == types[a.place as int] && x.score == a.score && x.target == a.target,
        y.owner_type == types[b.place as int] && y.score == b.score && y.target == b.target,
        ByScoreAndType.before(a, b),
    ensures
        hit_before(x, y),
{
    few_types_before(types, a.place as int, types.len());
    few_types_before(types, b.place as int, types.len());
    types_rank_as_ordered(types, a.place as int, b.place as int);
}

/// A vector of a ranked store, as a hit of an exact ranking.
pub open spec fn scanned_hit(
    types: Seq<Text>,
    stores: Seq<StoreModel>,
    answers: Seq<StoreAnswer>,
    place: int,
    slot: int,
) -> HitModel {
    HitModel {
        owner_type: types[place],
        target: stores[place].nodes[slot],
        score: scan_score(answers[place], slot),
        method: SearchMethod::Exact,
    }
}

/// A ranking gives no relationship twice, where the types are different and each
/// store holds a relationship once: however the stores answer.
pub proof fn a_ranking_gives_no_relationship_twice(
    types: Seq<Text>,
    stores: Seq<StoreModel>,
    answers: Seq<StoreAnswer>,
    top_k: nat,
    exact: bool,
    metric: Option<Text>,
    read_only: bool,
)
    requires
        types.no_duplicates(),
        types.len() == stores.len(),
        stores.len() <= usize::MAX,
        forall|i: int| 0 <= i < stores.len() ==> (#[trigger] stores[i]).nodes.no_duplicates(),
        answers_fit(stores, answers, top_k, exact, metric, read_only),
    ensures
        ({
            let hits = merged_ranking(types, stores, answers, top_k);
            forall|m: int, n: int|
                0 <= m < n < hits.len() ==> (#[trigger] hits[m]).owner_type != (
                #[trigger] hits[n]).owner_type || hits[m].target != hits[n].target
        }),
{
    let hits = merged_ranking(types, stores, answers, top_k);
    let all = gathered(types, stores, answers, top_k, stores.len());
    let ranked = best(ByScoreAndType, all, top_k);
    if top_k == 0 {
        the_best_come_first(ByScoreAndType, all, top_k);
    } else {
        assert(all_answered(stores, answers)) by {
            assert forall|i: int| 0 <= i < stores.len() implies (#[trigger] stores[i]).nodes.no_duplicates()
                && (stores[i].nodes.len() > 0 ==> answers[i].fits(stores[i])) by {
                if stores[i].nodes.len() > 0 {
                    assert(answers[i].fits(stores[i]));
                }
            }
        }
        gathering_keeps_every_hit(types, stores, answers, top_k, stores.len());
        best_of_distinct(ByScoreAndType, all, top_k);
        assert forall|m: int, n: int| 0 <= m < n < hits.len() implies (
        #[trigger] hits[m]).owner_type != (#[trigger] hits[n]).owner_type || hits[m].target
            != hits[n].target by {
            let a = ranked[m];
            let b = ranked[n];
            assert(ranked.contains(a) && ranked.contains(b));
            assert(all.contains(a) && all.contains(b));
            if hits[m].owner_type == hits[n].owner_type && hits[m].target == hits[n].target {
                assert(a.place == b.place);
                let p = a.place as int;
                assert(stores[p].nodes.no_duplicates());
                an_answer_names_no_target_twice(stores[p], answers[p], top_k);
                assert(own_hit(a) == own_hit(b));
                assert(a == b);
            }
        }
    }
}

/// A ranking that scores every vector, because it is asked to or because no
/// store has an index, gives as many hits as it is asked for where there are so
/// many vectors. They come in order, each is marked exact and is a vector of a
/// store, none comes twice where the types are different, and no vector that is
/// left out ranks before one that is given.
pub proof fn an_exact_ranking_covers_every_vector(
    types: Seq<Text>,
    stores: Seq<StoreModel>,
    answers: Seq<StoreAnswer>,
    top_k: nat,
    exact: bool,
    metric: Option<Text>,
    read_only: bool,
)
    requires
        types.len() == stores.len(),
        stores.len() <= usize::MAX,
        forall|i: int| 0 <= i < stores.len() ==> (#[trigger] stores[i]).nodes.no_duplicates(),
        answers_fit(stores, answers, top_k, exact, metric, read_only),
        exact || forall|i: int| 0 <= i < stores.len() ==> (#[trigger] stores[i]).index is None,
    ensures
        ({
            let hits = merged_ranking(types, stores, answers, top_k);
            let total = vectors_upto(stores, stores.len());
            &&& hits.len() == if top_k < total {
                top_k
            } else {
                total
            }
            &&& forall|m: int, n: int|
                0 <= m < n < hits.len() ==> hit_before(#[trigger] hits[m], #[trigger] hits[n])
            &&& forall|m: int|
                0 <= m < hits.len() ==> exists|place: int, slot: int|
                    0 <= place < stores.len() && 0 <= slot < stores[place].nodes.len()
                        && #[trigger] hits[m] == #[trigger] scanned_hit(
                        types,
                        stores,
                        answers,
                        place,
                        slot,
                    )
            &&& types.no_duplicates() ==> forall|m: int, n: int|
                0 <= m < n < hits.len() ==> (#[trigger] hits[m]).owner_type != (
                #[trigger] hits[n]).owner_type || hits[m].target != hits[n].target
            &&& forall|m: int, place: int, slot: int|
                0 <= m < hits.len() && 0 <= place < stores.len() && 0 <= slot
                    < stores[place].nodes.len() && !hits.contains(
                    #[trigger] scanned_hit(types, stores, answers, place, slot),
                ) ==> hit_before(
                    #[trigger] hits[m],
                    scanned_hit(types, stores, answers, place, slot),
                )
        }),
{
    let hits = merged_ranking(types, stores, answers, top_k);
    let all = gathered(types, stores, answers, top_k, stores.len());
    let ranked = best(ByScoreAndType, all, top_k);
    capping_matters_late(stores, top_k, stores.len());
    if top_k == 0 {
        the_best_come_first(ByScoreAndType, all, top_k);
    } else {
        assert(all_scanned(stores, answers)) by {
            assert forall|i: int| 0 <= i < stores.len() implies (#[trigger] stores[i]).nodes.no_duplicates()
                && (stores[i].nodes.len() > 0 ==> answers[i] is Scan && answers[i].fits(
                stores[i],
            )) by {
                if stores[i].nodes.len() > 0 {
                    assert(answers[i].fits(stores[i]));
                }
            }
        }
        gathering_keeps_every_hit(types, stores, answers, top_k, stores.len());
        best_of_distinct(ByScoreAndType, all, top_k);
        assert forall|m: int| 0 <= m < hits.len() implies {
            &&& (#[trigger] ranked[m]).place < stores.len()
            &&& ranked[m].owner == owner_rank(types, ranked[m].place as int) as usize
            &&& exists|place: int, slot: int|
                0 <= place < stores.len() && 0 <= slot < stores[place].nodes.len() && hits[m]
                    == #[trigger] scanned_hit(types, stores, answers, place, slot)
        } by {
            let h = ranked[m];
            assert(ranked.contains(h));
            assert(all.contains(h));
            let p = h.place as int;
            assert(stores[p].nodes.no_duplicates());
            a_scan_covers_its_store(stores[p], answers[p], top_k);
            let slot = choose|i: int|
                0 <= i < stores[p].nodes.len() && own_hit(h) == #[trigger] slot_hit(
                    stores[p],
                    answers[p],
                    i,
                );
            assert(hits[m] == scanned_hit(types, stores, answers, p, slot));
        }
        assert forall|m: int, n: int| 0 <= m < n < hits.len() implies hit_before(
            #[trigger] hits[m],
            #[trigger] hits[n],
        ) by {
            assert(ByScoreAndType.before(ranked[m], ranked[n]));
            merged_order_is_hit_order(types, ranked[m], ranked[n], hits[m], hits[n]);
        }
        if types.no_duplicates() {
            a_ranking_gives_no_relationship_twice(
                types,
                stores,
                answers,
                top_k,
                exact,
                metric,
                read_only,
            );
        }
        assert forall|m: int, place: int, slot: int|
            0 <= m < hits.len() && 0 <= place < stores.len() && 0 <= slot
                < stores[place].nodes.len() && !hits.contains(
                #[trigger] scanned_hit(types, stores, answers, place, slot),
            ) implies hit_before(
            #[trigger] hits[m],
            scanned_hit(types, stores, answers, place, slot),
        ) by {
            let x = slot_hit(stores[place], answers[place], slot);
            let h = merged_hit(types, x, place);
            assert(stores[place].nodes.len() > 0);
            assert(answers[place] is Scan);
            if ranked.contains(h) {
                let k = ranked.index_of(h);
                assert(hits[k] == scanned_hit(types, stores, answers, place, slot));
            } else {
                assert(ranked.contains(ranked[m]));
                ranked_before_what_is_left_out(
                    types,
                    stores,
                    answers,
                    top_k,
                    place,
                    slot,
                    ranked[m],
                );
                merged_order_is_hit_order(
                    types,
                    ranked[m],
                    h,
                    hits[m],
                    scanned_hit(types, stores, answers, place, slot),
                );
            }
        }
    }
}

proof fn live_hits_are_all_placed(
    graph: DirGraph,
    keys: RelationshipKeys,
    hits: Seq<HitModel>,
    count: nat,
)
    requires
        count <= hits.len(),
        forall|m: int|
            0 <= m < hits.len() ==> graph.topology.live(
                EdgeIndex { slot: (#[trigger] hits[m]).target },
            ),
    ensures
        placed_hits(graph.topology, keys, hits, count).len() == count,
        forall|m: int|
            0 <= m < count ==> #[trigger] placed_hits(graph.topology, keys, hits, count)[m] == (
            SearchHitModel {
                relationship_type: hits[m].owner_type,
                place: place_at(
                    graph.topology,
                    keys.property_of(hits[m].owner_type),
                    EdgeIndex { slot: hits[m].target },
                ),
                score: hits[m].score,
            }),
    decreases count,
{
    if count > 0 {
        live_hits_are_all_placed(graph, keys, hits, (count - 1) as nat);
        let before = placed_hits(graph.topology, keys, hits, (count - 1) as nat);
        let all = placed_hits(graph.topology, keys, hits, count);
        assert(graph.topology.live(EdgeIndex { slot: hits[count - 1].target }));
        assert forall|m: int| 0 <= m < count implies #[trigger] all[m] == (SearchHitModel {
            relationship_type: hits[m].owner_type,
            place: place_at(
                graph.topology,
                keys.property_of(hits[m].owner_type),
                EdgeIndex { slot: hits[m].target },
            ),
            score: hits[m].score,
        }) by {
            if m < count - 1 {
                assert(all[m] == before[m]);
            }
        }
    }
}

proof fn types_over_differ(pairs: Seq<(Text, Text)>, column: Text, count: nat)
    requires
        pairs.no_duplicates(),
        count <= pairs.len(),
    ensures
        types_over(pairs, column, count).no_duplicates(),
        forall|t: Text| #[trigger]
            types_over(pairs, column, count).contains(t) ==> exists|i: int|
                0 <= i < count && #[trigger] pairs[i] == (t, column),
    decreases count,
{
    if count > 0 {
        let before = types_over(pairs, column, (count - 1) as nat);
        let all = types_over(pairs, column, count);
        types_over_differ(pairs, column, (count - 1) as nat);
        assert forall|t: Text| #[trigger] all.contains(t) implies exists|i: int|
            0 <= i < count && #[trigger] pairs[i] == (t, column) by {
            let k = all.index_of(t);
            if k < before.len() {
                assert(before[k] == t);
                assert(before.contains(t));
            } else {
                assert(pairs[count - 1] == (t, column));
            }
        }
        if pairs[count - 1].1 == column {
            let last = pairs[count - 1].0;
            if before.contains(last) {
                let i = choose|i: int|
                    0 <= i < count - 1 && #[trigger] pairs[i] == (last, column);
                assert(pairs[i] == pairs[count - 1]);
            }
            assert forall|k: int| 0 <= k < before.len() implies before[k] != last by {
                assert(before.contains(before[k]));
            }
        }
    }
}

/// A search ranks each type once, though it be given twice, and no type that was
/// not given.
pub proof fn each_type_is_ranked_once(graph: DirGraph, types: Option<Seq<Text>>, text_column: Text)
    ensures
        search_types_of(graph, types, text_column).no_duplicates(),
        types is Some ==> search_types_of(graph, types, text_column).to_set()
            == types->0.to_set(),
{
    match types {
        Some(given) => {
            text_order_is_order();
            ascending_lists_the_items(given, text_order());
            let ranked = ascending(given.to_set(), text_order());
            assert forall|i: int, j: int|
                0 <= i < ranked.len() && 0 <= j < ranked.len() && i != j implies ranked[i]
                != ranked[j] by {
                if i < j {
                    assert(ranked[i] != ranked[j]);
                } else {
                    assert(ranked[j] != ranked[i]);
                }
            }
        },
        None => {
            let entries = graph.edge_embeddings@;
            let kept = Seq::new(
                entries.len(),
                |i: int| (entries[i].owner_type, listed_column(entries[i].name)),
            );
            assert(kept.to_set() =~= pairs_kept(entries, entries.len() as int)) by {
                assert forall|p: (Text, Text)|
                    kept.to_set().contains(p) <==> pairs_kept(
                        entries,
                        entries.len() as int,
                    ).contains(p) by {
                    if kept.contains(p) {
                        let i = kept.index_of(p);
                        assert(entries[i].owner_type == p.0);
                    }
                    if pairs_kept(entries, entries.len() as int).contains(p) {
                        let i = choose|i: int|
                            0 <= i < entries.len() && (#[trigger] entries[i]).owner_type == p.0
                                && listed_column(entries[i].name) == p.1;
                        assert(kept[i] == p);
                    }
                }
            }
            name_order_is_order();
            ascending_lists_the_items(kept, name_order());
            let pairs = stores_on(entries);
            assert forall|i: int, j: int|
                0 <= i < pairs.len() && 0 <= j < pairs.len() && i != j implies pairs[i]
                != pairs[j] by {
                if i < j {
                    assert(pairs[i] != pairs[j]);
                } else {
                    assert(pairs[j] != pairs[i]);
                }
            }
            types_over_differ(pairs, text_column, pairs.len());
        },
    }
}

/// A search that scores every vector, because it is asked to or because no
/// ranked store has an index, gives the exact ranking of the stores hit for hit,
/// each with where its relationship stands: as many hits as it is asked for where
/// there are so many vectors, and no relationship twice.
pub proof fn an_exact_search_gives_the_exact_ranking(
    graph: DirGraph,
    types: Option<Seq<Text>>,
    text_column: Text,
    top_k: nat,
    exact: bool,
    metric: Option<Text>,
    keys: RelationshipKeys,
    answers: Seq<StoreAnswer>,
)
    requires
        ({
            let ranked = search_types_of(graph, types, text_column);
            let stores = stores_of(graph, ranked, text_column);
            &&& ranked.len() <= usize::MAX
            &&& forall|i: int|
                0 <= i < stores.len() ==> (#[trigger] stores[i]).nodes.no_duplicates()
            &&& forall|i: int, slot: int|
                0 <= i < stores.len() && 0 <= slot < stores[i].nodes.len() ==> graph.topology.live(
                    EdgeIndex { slot: #[trigger] stores[i].nodes[slot] },
                )
            &&& answers_fit(stores, answers, top_k, exact, metric, graph.read_only)
            &&& exact || forall|i: int|
                0 <= i < stores.len() ==> (#[trigger] stores[i]).index is None
        }),
    ensures
        ({
            let ranked = search_types_of(graph, types, text_column);
            let stores = stores_of(graph, ranked, text_column);
            let total = vectors_upto(stores, stores.len());
            let hits = merged_ranking(ranked, stores, answers, top_k);
            let found = search_hits(graph, types, text_column, top_k, keys, answers);
            &&& found.len() == hits.len()
            &&& found.len() == if top_k < total {
                top_k
            } else {
                total
            }
            &&& forall|m: int, n: int|
                0 <= m < n < hits.len() ==> (#[trigger] hits[m]).owner_type != (
                #[trigger] hits[n]).owner_type || hits[m].target != hits[n].target
            &&& forall|m: int|
                0 <= m < found.len() ==> #[trigger] found[m] == (SearchHitModel {
                    relationship_type: hits[m].owner_type,
                    place: place_at(
                        graph.topology,
                        keys.property_of(hits[m].owner_type),
                        EdgeIndex { slot: hits[m].target },
                    ),
                    score: hits[m].score,
                })
        }),
{
    let ranked = search_types_of(graph, types, text_column);
    let stores = stores_of(graph, ranked, text_column);
    let hits = merged_ranking(ranked, stores, answers, top_k);
    each_type_is_ranked_once(graph, types, text_column);
    an_exact_ranking_covers_every_vector(
        ranked,
        stores,
        answers,
        top_k,
        exact,
        metric,
        graph.read_only,
    );
    assert forall|m: int| 0 <= m < hits.len() implies graph.topology.live(
        EdgeIndex { slot: (#[trigger] hits[m]).target },
    ) by {
        let (place, slot) = choose|place: int, slot: int|
            0 <= place < stores.len() && 0 <= slot < stores[place].nodes.len() && hits[m]
                == #[trigger] scanned_hit(ranked, stores, answers, place, slot);
        assert(graph.topology.live(EdgeIndex { slot: stores[place].nodes[slot] }));
    }
    live_hits_are_all_placed(graph, keys, hits, hits.len());
}

/// A store that a query caught up has caught up: to do it again changes nothing.
proof fn catching_up_twice(store: StoreModel, read_only: bool)
    ensures
        caught_up(caught_up(store, read_only), read_only) == caught_up(store, read_only),
{
}

/// Nothing is outstanding in a store that caught up, where a query may fold in as
/// much as was.
pub proof fn a_caught_up_store_has_nothing_outstanding(store: StoreModel)
    requires
        coherent(store),
        delta_of(store) <= store.freshness.limit,
    ensures
        delta_of(caught_up(store, false)) == 0,
{
}

/// After a query that may answer from an index, every store that it ranks has
/// caught up. No other store changes.
pub proof fn a_query_catches_its_stores_up(
    entries: Seq<EntryModel<StoreModel>>,
    types: Seq<Text>,
    name: Text,
    read_only: bool,
    count: nat,
)
    requires
        count <= types.len(),
    ensures
        forall|t: Text, n: Text|
            #![trigger lookup(stores_caught_up(entries, types, name, read_only, count), t, n)]
            lookup(stores_caught_up(entries, types, name, read_only, count), t, n) == if n == name
                && types.take(count as int).contains(t) && lookup(entries, t, n) is Some {
                Some(caught_up(lookup(entries, t, n)->0, read_only))
            } else {
                lookup(entries, t, n)
            },
    decreases count,
{
    if count == 0 {
        assert(types.take(0).len() == 0);
    } else {
        let prior = (count - 1) as nat;
        a_query_catches_its_stores_up(entries, types, name, read_only, prior);
        let before = stores_caught_up(entries, types, name, read_only, prior);
        let last = types[count - 1];
        let taken = types.take(prior as int);
        assert(types.take(count as int) =~= taken.push(last));
        if lookup(entries, last, name) is Some {
            catching_up_twice(lookup(entries, last, name)->0, read_only);
        }
        if lookup(before, last, name) is Some {
            a_kept_store_is_found(
                before,
                last,
                name,
                caught_up(lookup(before, last, name)->0, read_only),
            );
        }
        assert forall|t: Text| #[trigger]
            types.take(count as int).contains(t) == (taken.contains(t) || t == last) by {
            if taken.contains(t) {
                let k = taken.index_of(t);
                assert(taken.push(last)[k] == t);
            }
            if taken.push(last).contains(t) {
                let k = taken.push(last).index_of(t);
                if k < taken.len() {
                    assert(taken[k] == t);
                }
            }
            assert(taken.push(last)[taken.len() as int] == last);
        }
    }
}

/// How many vectors an answer scores.
pub open spec fn scored_count(answer: StoreAnswer) -> nat {
    match answer {
        StoreAnswer::Scan(scores) => scores@.len(),
        StoreAnswer::Found(found) => found@.len(),
    }
}

/// A vector that an answer scores, as a hit: the owner at its dense slot, with the
/// score that was given.
pub open spec fn answered_hit(
    types: Seq<Text>,
    stores: Seq<StoreModel>,
    answers: Seq<StoreAnswer>,
    place: int,
    at: int,
) -> HitModel {
    match answers[place] {
        StoreAnswer::Scan(scores) => HitModel {
            owner_type: types[place],
            target: stores[place].nodes[at],
            score: scores@[at],
            method: SearchMethod::Exact,
        },
        StoreAnswer::Found(found) => HitModel {
            owner_type: types[place],
            target: stores[place].nodes[found@[at].0 as int],
            score: found@[at].1,
            method: SearchMethod::Hnsw,
        },
    }
}

proof fn a_store_hit_was_answered(store: StoreModel, answer: StoreAnswer, top_k: nat, hit: ScoredTarget) -> (at:
    int)
    requires
        top_k > 0,
        store.nodes.no_duplicates(),
        store.nodes.len() > 0 ==> answer.fits(store),
        store_hits(store, answer, top_k).contains(hit),
    ensures
        0 <= at < scored_count(answer),
        answer_hits(store, answer)[at] == hit,
        answer.fits(store),
{
    let all = answer_hits(store, answer);
    assert forall|i: int, j: int| 0 <= i < all.len() && 0 <= j < all.len() && i != j implies all[i]
        != all[j] by {
        match answer {
            StoreAnswer::Scan(_) => {
                assert(store.nodes[i] != store.nodes[j]);
            },
            StoreAnswer::Found(found) => {
                let low = if i < j { i } else { j };
                let high = if i < j { j } else { i };
                assert(found@[low].0 != found@[high].0);
                assert(found@[i].0 < store.nodes.len());
                assert(found@[j].0 < store.nodes.len());
                assert(store.nodes[found@[i].0 as int] != store.nodes[found@[j].0 as int]);
            },
        }
    }
    best_of_distinct(ByScore, all, top_k);
    assert(all.contains(hit));
    all.index_of(hit)
}

/// However the stores answer, a ranking holds at most as many hits as were asked
/// for, each is a vector that a store's answer scored, with its owner, its score
/// and the way it was found, and they come by falling score, then by type, then by
/// slot.
pub proof fn a_ranking_lists_what_was_answered(
    types: Seq<Text>,
    stores: Seq<StoreModel>,
    answers: Seq<StoreAnswer>,
    top_k: nat,
    exact: bool,
    metric: Option<Text>,
    read_only: bool,
)
    requires
        types.len() == stores.len(),
        stores.len() <= usize::MAX,
        forall|i: int| 0 <= i < stores.len() ==> (#[trigger] stores[i]).nodes.no_duplicates(),
        answers_fit(stores, answers, top_k, exact, metric, read_only),
    ensures
        ({
            let hits = merged_ranking(types, stores, answers, top_k);
            &&& hits.len() <= top_k
            &&& forall|m: int, n: int|
                0 <= m < n < hits.len() ==> hit_before(#[trigger] hits[m], #[trigger] hits[n])
            &&& forall|m: int|
                0 <= m < hits.len() ==> exists|place: int, at: int|
                    0 <= place < stores.len() && 0 <= at < scored_count(answers[place])
                        && #[trigger] hits[m] == #[trigger] answered_hit(
                        types,
                        stores,
                        answers,
                        place,
                        at,
                    )
        }),
{
    let all = gathered(types, stores, answers, top_k, stores.len());
    let ranked = best(ByScoreAndType, all, top_k);
    let hits = merged_ranking(types, stores, answers, top_k);
    if top_k == 0 {
        the_best_come_first(ByScoreAndType, all, 0);
        assert(hits.len() == 0);
    } else {
        assert(all_answered(stores, answers)) by {
            assert forall|i: int| 0 <= i < stores.len() implies (
            #[trigger] stores[i]).nodes.no_duplicates() && (stores[i].nodes.len() > 0
                ==> answers[i].fits(stores[i])) by {}
        }
        gathering_keeps_every_hit(types, stores, answers, top_k, stores.len());
        best_of_distinct(ByScoreAndType, all, top_k);
        assert forall|m: int| 0 <= m < hits.len() implies exists|place: int, at: int|
            0 <= place < stores.len() && 0 <= at < scored_count(answers[place])
                && #[trigger] hits[m] == #[trigger] answered_hit(
                types,
                stores,
                answers,
                place,
                at,
            ) by {
            let h = ranked[m];
            assert(ranked.contains(h));
            assert(all.contains(h));
            let place = h.place as int;
            assert(stores[place].nodes.no_duplicates());
            let at = a_store_hit_was_answered(
                stores[place],
                answers[place],
                top_k,
                own_hit(h),
            );
            assert(hits[m] == answered_hit(types, stores, answers, place, at));
        }
        assert forall|m: int, n: int| 0 <= m < n < hits.len() implies hit_before(
            #[trigger] hits[m],
            #[trigger] hits[n],
        ) by {
            let a = ranked[m];
            let b = ranked[n];
            assert(ranked.contains(a) && ranked.contains(b));
            assert(all.contains(a) && all.contains(b));
            assert(ByScoreAndType.before(a, b));
            merged_order_is_hit_order(types, a, b, hits[m], hits[n]);
        }
    }
}

} // verus!
