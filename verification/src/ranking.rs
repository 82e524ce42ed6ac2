//! Ranking scored vectors: the best of a store, and the best of several.
//!
//! A score is a double-precision number, higher for closer vectors, and is held
//! as its bits. The scores come from outside: one for every vector of a store
//! that is scanned, one for every vector that an index found.

use crate::edge_vector_index::{unknown_metric, unknown_metric_message};
use crate::metric::{metric_named, metric_or_cosine, DistanceMetric};
use crate::order::{rank_order, rank_order_is_total, sorted, Ranking};
use crate::store::{caught_up, delta_of, refreshed, EmbeddingStore, StoreModel};
use crate::text::{
    decimal, lex_le, lex_le_antisymmetric, lex_le_total, lex_le_transitive, push_number, str_option,
    text_eq, text_le, text_option, texts, Text,
};
use crate::value::{double_le, double_rank};
use vstd::prelude::*;
use vstd::relations::sorted_by;

verus! {

/// A scored target of one store.
#[derive(Debug, Clone, Copy, PartialEq, Eq)]
pub struct ScoredTarget {
    /// The score's bits.
    pub score: u64,
    /// The slot of the node or relationship.
    pub target: usize,
}

/// The higher score first, then the lower slot.
#[derive(Debug, Clone, Copy, PartialEq, Eq)]
pub struct ByScore;

impl Ranking<ScoredTarget> for ByScore {
    open spec fn valid(self) -> bool {
        true
    }

    open spec fn before(self, a: ScoredTarget, b: ScoredTarget) -> bool {
        double_rank(a.score) > double_rank(b.score) || (a.score == b.score && a.target <= b.target)
    }

    proof fn total(self, a: ScoredTarget, b: ScoredTarget) {
    }

    proof fn transitive(self, a: ScoredTarget, b: ScoredTarget, c: ScoredTarget) {
    }

    proof fn antisymmetric(self, a: ScoredTarget, b: ScoredTarget) {
    }

    fn precedes(&self, a: ScoredTarget, b: ScoredTarget) -> (result: bool) {
        !double_le(a.score, b.score) || (a.score == b.score && a.target <= b.target)
    }
}

/// A scored target of one of several stores.
#[derive(Debug, Clone, Copy, PartialEq, Eq)]
pub struct MergedHit {
    /// The score's bits.
    pub score: u64,
    /// The rank of the store's type among the types.
    pub owner: usize,
    /// The slot of the node or relationship.
    pub target: usize,
    /// The store's place.
    pub place: usize,
}

/// The higher score first, then the earlier type, then the lower slot, then the
/// earlier store.
#[derive(Debug, Clone, Copy, PartialEq, Eq)]
pub struct ByScoreAndType;

impl Ranking<MergedHit> for ByScoreAndType {
    open spec fn valid(self) -> bool {
        true
    }

    open spec fn before(self, a: MergedHit, b: MergedHit) -> bool {
        double_rank(a.score) > double_rank(b.score) || (a.score == b.score && (a.owner < b.owner
            || (a.owner == b.owner && (a.target < b.target || (a.target == b.target && a.place
            <= b.place)))))
    }

    proof fn total(self, a: MergedHit, b: MergedHit) {
    }

    proof fn transitive(self, a: MergedHit, b: MergedHit, c: MergedHit) {
    }

    proof fn antisymmetric(self, a: MergedHit, b: MergedHit) {
    }

    fn precedes(&self, a: MergedHit, b: MergedHit) -> (result: bool) {
        !double_le(a.score, b.score) || (a.score == b.score && (a.owner < b.owner || (a.owner
            == b.owner && (a.target < b.target || (a.target == b.target && a.place <= b.place)))))
    }
}

/// The first items, at most `count`.
pub open spec fn first_of<A>(items: Seq<A>, count: nat) -> Seq<A> {
    if count < items.len() {
        items.take(count as int)
    } else {
        items
    }
}

/// The best items, at most `count`, the best first.
pub open spec fn best<T: Copy, R: Ranking<T>>(ranking: R, items: Seq<T>, count: nat) -> Seq<T> {
    first_of(items.sort_by(rank_order::<T, R>(ranking)), count)
}

/// The best items come in their order, they are as many as were asked for where
/// there are so many, they are all among the items, and none that was left out
/// ranks before one that was kept.
pub proof fn the_best_come_first<T: Copy, R: Ranking<T>>(ranking: R, items: Seq<T>, count: nat)
    ensures
        sorted_by(best(ranking, items, count), rank_order::<T, R>(ranking)),
        best(ranking, items, count).len() == if count < items.len() {
            count
        } else {
            items.len()
        },
        best(ranking, items, count).to_multiset().subset_of(items.to_multiset()),
        forall|kept: T, item: T|
            best(ranking, items, count).contains(kept) && items.to_multiset().sub(
                best(ranking, items, count).to_multiset(),
            ).contains(item) ==> #[trigger] ranking.before(kept, item),
{
    broadcast use vstd::seq_lib::group_to_multiset_ensures;

    let all = items.sort_by(rank_order::<T, R>(ranking));
    rank_order_is_total::<T, R>(ranking);
    items.lemma_sort_by_ensures(rank_order::<T, R>(ranking));
    assert(all.to_multiset().len() == items.to_multiset().len());
    let out = best(ranking, items, count);
    let rest = if count < all.len() {
        all.skip(count as int)
    } else {
        Seq::empty()
    };
    assert(all =~= out + rest);
    vstd::seq_lib::lemma_multiset_commutative(out, rest);
    assert(items.to_multiset().sub(out.to_multiset()) =~= rest.to_multiset());
    assert forall|kept: T, item: T|
        out.contains(kept) && items.to_multiset().sub(out.to_multiset()).contains(
            item,
        ) implies #[trigger] ranking.before(kept, item) by {
        assert(rest.contains(item));
        let i = out.index_of(kept);
        let j = rest.index_of(item);
        let r = rank_order::<T, R>(ranking);
        assert(all[i] == kept);
        assert(all[out.len() + j] == item);
        assert(r(all[i], all[out.len() + j]));
    }
    assert forall|i: int, j: int| 0 <= i < j < out.len() implies #[trigger] rank_order::<T, R>(ranking)(
        out[i],
        out[j],
    ) by {
        let r = rank_order::<T, R>(ranking);
        assert(r(all[i], all[j]));
    }
}

/// The best hits, at most `top_k`, the best first.
pub fn sort_and_truncate(hits: &Vec<ScoredTarget>, top_k: usize) -> (out: Vec<ScoredTarget>)
    ensures
        out@ == best(ByScore, hits@, top_k as nat),
{
    let mut out = sorted(&ByScore, hits);
    if top_k < out.len() {
        out.truncate(top_k);
        assert(out@ =~= hits@.sort_by(rank_order(ByScore)).take(top_k as int));
    }
    out
}

/// How a store answered.
#[derive(Debug, Clone, Copy, PartialEq, Eq, Structural)]
pub enum SearchMethod {
    /// Every vector was scored.
    Exact,
    /// The vectors that the index found were scored.
    Hnsw,
}

impl SearchMethod {
    /// The method's name.
    pub fn as_str(self) -> (name: &'static str)
        ensures
            name@ == match self {
                SearchMethod::Exact => "exact"@,
                SearchMethod::Hnsw => "hnsw"@,
            },
    {
        match self {
            SearchMethod::Exact => "exact",
            SearchMethod::Hnsw => "hnsw",
        }
    }
}

/// The scores that answer a query over a store.
#[derive(Debug, Clone)]
pub enum StoreAnswer {
    /// A score for every vector, in slot order.
    Scan(Vec<u64>),
    /// The dense slots that the index found, each with its score.
    Found(Vec<(usize, u64)>),
}

impl StoreAnswer {
    /// Whether the scores are those of a store's vectors, each at most once.
    pub open spec fn fits(self, store: StoreModel) -> bool {
        match self {
            StoreAnswer::Scan(scores) => scores@.len() == store.nodes.len(),
            StoreAnswer::Found(found) => {
                &&& forall|i: int|
                    0 <= i < found@.len() ==> (#[trigger] found@[i]).0 < store.nodes.len()
                &&& forall|i: int, j: int|
                    0 <= i < j < found@.len() ==> (#[trigger] found@[i]).0 != (
                    #[trigger] found@[j]).0
            },
        }
    }

    /// How the store answered.
    pub open spec fn method(self) -> SearchMethod {
        match self {
            StoreAnswer::Scan(_) => SearchMethod::Exact,
            StoreAnswer::Found(_) => SearchMethod::Hnsw,
        }
    }
}

/// The scored targets of an answer.
pub open spec fn answer_hits(store: StoreModel, answer: StoreAnswer) -> Seq<ScoredTarget> {
    match answer {
        StoreAnswer::Scan(scores) => Seq::new(
            scores@.len(),
            |i: int| ScoredTarget { score: scores@[i], target: store.nodes[i] },
        ),
        StoreAnswer::Found(found) => Seq::new(
            found@.len(),
            |i: int|
                ScoredTarget { score: found@[i].1, target: store.nodes[found@[i].0 as int] },
        ),
    }
}

/// A store's best targets.
pub open spec fn store_hits(store: StoreModel, answer: StoreAnswer, top_k: nat) -> Seq<ScoredTarget> {
    if top_k == 0 || store.nodes.len() == 0 {
        Seq::empty()
    } else {
        best(ByScore, answer_hits(store, answer), top_k)
    }
}

/// How a store answers: where nothing is asked for or held, by a scan.
pub open spec fn store_method(store: StoreModel, answer: StoreAnswer, top_k: nat) -> SearchMethod {
    if top_k == 0 || store.nodes.len() == 0 {
        SearchMethod::Exact
    } else {
        answer.method()
    }
}

/// A store's best targets, and how it answered.
pub fn query_dense_store(store: &EmbeddingStore, top_k: usize, answer: &StoreAnswer) -> (result: (
    Vec<ScoredTarget>,
    SearchMethod,
))
    requires
        store.well_formed(),
        top_k > 0 && store@.nodes.len() > 0 ==> answer.fits(store@),
    ensures
        result.0@ == store_hits(store@, *answer, top_k as nat),
        result.1 == store_method(store@, *answer, top_k as nat),
{
    if top_k == 0 || store.len() == 0 {
        return (Vec::new(), SearchMethod::Exact);
    }
    let mut hits: Vec<ScoredTarget> = Vec::new();
    let mut i: usize = 0;
    match answer {
        StoreAnswer::Scan(scores) => {
            while i < scores.len()
                invariant
                    i <= scores@.len(),
                    scores@.len() == store@.nodes.len(),
                    hits@.len() == i,
                    forall|k: int|
                        0 <= k < i ==> #[trigger] hits@[k] == (ScoredTarget {
                            score: scores@[k],
                            target: store@.nodes[k],
                        }),
                decreases scores@.len() - i,
            {
                hits.push(ScoredTarget { score: scores[i], target: store.slot_to_node[i] });
                i = i + 1;
            }
            assert(hits@ =~= answer_hits(store@, *answer));
            (sort_and_truncate(&hits, top_k), SearchMethod::Exact)
        },
        StoreAnswer::Found(found) => {
            while i < found.len()
                invariant
                    i <= found@.len(),
                    forall|k: int|
                        0 <= k < found@.len() ==> (#[trigger] found@[k]).0 < store@.nodes.len(),
                    hits@.len() == i,
                    forall|k: int|
                        0 <= k < i ==> #[trigger] hits@[k] == (ScoredTarget {
                            score: found@[k].1,
                            target: store@.nodes[found@[k].0 as int],
                        }),
                decreases found@.len() - i,
            {
                hits.push(
                    ScoredTarget { score: found[i].1, target: store.slot_to_node[found[i].0] },
                );
                i = i + 1;
            }
            assert(hits@ =~= answer_hits(store@, *answer));
            (sort_and_truncate(&hits, top_k), SearchMethod::Hnsw)
        },
    }
}

/// Whether a store's index can answer under a metric.
pub open spec fn served(store: StoreModel, metric: DistanceMetric) -> bool {
    &&& store.index is Some
    &&& delta_of(store) == 0
    &&& metric != DistanceMetric::Poincare
    &&& store.index->0.metric == metric
}

/// The name of the metric that a query scores under: the one asked for, else
/// the store's, else cosine.
pub open spec fn query_metric(store: StoreModel, requested: Option<Text>) -> Text {
    match requested {
        Some(name) => name,
        None => metric_or_cosine(store.metric),
    }
}

/// The metric that a query over a store scores under.
pub fn resolve_dense_metric(store: &EmbeddingStore, requested: Option<&str>) -> (result: Result<
    DistanceMetric,
    String,
>)
    ensures
        match result {
            Ok(metric) => metric_named(query_metric(store@, str_option(requested))) == Some(metric),
            Err(message) => {
                &&& metric_named(query_metric(store@, str_option(requested))) is None
                &&& message@ == unknown_metric(query_metric(store@, str_option(requested)))
            },
        },
{
    let name: &str = match requested {
        Some(name) => name,
        None => match &store.metric {
            Some(name) => name.as_str(),
            None => "cosine",
        },
    };
    match DistanceMetric::from_name(name) {
        Some(metric) => Ok(metric),
        None => Err(unknown_metric_message(name)),
    }
}

/// How stores are to be ranked.
#[derive(Debug, Clone)]
pub struct EdgeVectorQueryOptions {
    /// The most hits.
    pub top_k: usize,
    /// Whether every vector is to be scored though there is an index.
    pub exact: bool,
    /// The metric to score under, in place of the stores' own.
    pub metric: Option<String>,
}

/// How a query over a store is answered: by the index where every vector need
/// not be scored and the index, caught up where the query may, serves the metric;
/// and else by a scan.
pub open spec fn store_route(
    store: StoreModel,
    exact: bool,
    requested: Option<Text>,
    read_only: bool,
) -> SearchMethod {
    match metric_named(query_metric(store, requested)) {
        Some(metric) => if !exact && served(caught_up(store, read_only), metric) {
            SearchMethod::Hnsw
        } else {
            SearchMethod::Exact
        },
        None => SearchMethod::Exact,
    }
}

/// How a query over a store is to be answered.
pub fn route_query(
    store: &EmbeddingStore,
    exact: bool,
    requested: Option<&str>,
    read_only: bool,
) -> (method: SearchMethod)
    requires
        store.well_formed(),
    ensures
        method == store_route(store@, exact, str_option(requested), read_only),
{
    let metric = match resolve_dense_metric(store, requested) {
        Ok(metric) => metric,
        Err(_) => {
            return SearchMethod::Exact;
        },
    };
    let catches_up = !read_only && store.delta_size() <= store.auto_refresh_limit();
    assert(store@.nodes.len() == store.slot_to_node.len());
    assert(store@.index is Some ==> delta_of(refreshed(store@)) == 0);
    match &store.index {
        Some(index) => if !exact && (catches_up || store.delta_size() == 0) && metric.indexable()
            && index.metric == metric {
            SearchMethod::Hnsw
        } else {
            SearchMethod::Exact
        },
        None => SearchMethod::Exact,
    }
}

/// What the stores hold.
pub open spec fn store_models(stores: Seq<&EmbeddingStore>) -> Seq<StoreModel> {
    Seq::new(stores.len(), |i: int| stores[i]@)
}

/// The first store, from `position`, whose dimension is not the query's.
pub open spec fn dimension_fault(
    types: Seq<Text>,
    stores: Seq<StoreModel>,
    text_property: Text,
    width: nat,
    position: int,
) -> Option<Text>
    decreases stores.len() - position,
{
    if position < 0 || position >= stores.len() {
        None
    } else if stores[position].dimension != width {
        Some(
            "Query dimension "@ + decimal(width) + " does not match store dimension "@ + decimal(
                stores[position].dimension as nat,
            ) + " of '"@ + types[position] + "."@ + text_property + "'"@,
        )
    } else {
        dimension_fault(types, stores, text_property, width, position + 1)
    }
}

/// The first store, from `position`, that is scored under another metric than
/// the first.
pub open spec fn scale_fault(
    entity: Text,
    types: Seq<Text>,
    stores: Seq<StoreModel>,
    text_property: Text,
    position: int,
) -> Option<Text>
    decreases stores.len() - position,
{
    if position < 0 || position >= stores.len() {
        None
    } else if metric_or_cosine(stores[position].metric) != metric_or_cosine(stores[0].metric) {
        Some(
            entity + " embedding stores '"@ + types[0] + "."@ + text_property + "' (metric '"@
                + metric_or_cosine(stores[0].metric) + "') and '"@ + types[position] + "."@
                + text_property + "' (metric '"@ + metric_or_cosine(stores[position].metric)
                + "') score under different metrics, so one merged ranking would compare scores on different scales. Query the types separately, or pass metric to score every store under one."@,
        )
    } else {
        scale_fault(entity, types, stores, text_property, position + 1)
    }
}

/// The first store, from `position`, whose metric is unknown.
pub open spec fn store_metric_fault(
    stores: Seq<StoreModel>,
    top_k: nat,
    metric: Option<Text>,
    position: int,
) -> Option<Text>
    decreases stores.len() - position,
{
    if position < 0 || position >= stores.len() {
        None
    } else if top_k > 0 && stores[position].nodes.len() > 0 && metric_named(
        query_metric(stores[position], metric),
    ) is None {
        Some(unknown_metric(query_metric(stores[position], metric)))
    } else {
        store_metric_fault(stores, top_k, metric, position + 1)
    }
}

/// Why several stores cannot be ranked together.
pub open spec fn rank_fault(
    entity: Text,
    types: Seq<Text>,
    stores: Seq<StoreModel>,
    text_property: Text,
    width: nat,
    top_k: nat,
    metric: Option<Text>,
) -> Option<Text> {
    if dimension_fault(types, stores, text_property, width, 0) is Some {
        dimension_fault(types, stores, text_property, width, 0)
    } else if metric is None && scale_fault(entity, types, stores, text_property, 0) is Some {
        scale_fault(entity, types, stores, text_property, 0)
    } else {
        store_metric_fault(stores, top_k, metric, 0)
    }
}

/// Whether several stores can be ranked together: refused where the query's
/// dimension is not a store's, where two stores score under different metrics
/// and none is asked for, and where a metric is unknown.
pub fn check_dense_stores(
    entity: &str,
    types: &Vec<String>,
    stores: &Vec<&EmbeddingStore>,
    text_property: &str,
    width: usize,
    options: &EdgeVectorQueryOptions,
) -> (result: Result<(), String>)
    requires
        types@.len() == stores@.len(),
    ensures
        match result {
            Ok(_) => rank_fault(
                entity@,
                texts(types@),
                store_models(stores@),
                text_property@,
                width as nat,
                options.top_k as nat,
                text_option(options.metric),
            ) is None,
            Err(message) => rank_fault(
                entity@,
                texts(types@),
                store_models(stores@),
                text_property@,
                width as nat,
                options.top_k as nat,
                text_option(options.metric),
            ) == Some(message@),
        },
{
    let ghost names = texts(types@);
    let ghost models = store_models(stores@);
    let mut i: usize = 0;
    while i < stores.len()
        invariant
            i <= stores@.len(),
            types@.len() == stores@.len(),
            names == texts(types@),
            models == store_models(stores@),
            dimension_fault(names, models, text_property@, width as nat, 0) == dimension_fault(
                names,
                models,
                text_property@,
                width as nat,
                i as int,
            ),
        decreases stores@.len() - i,
    {
        if width != stores[i].dimension {
            let mut message = "Query dimension ".to_owned();
            push_number(&mut message, width);
            message.append(" does not match store dimension ");
            push_number(&mut message, stores[i].dimension);
            message.append(" of '");
            message.append(types[i].as_str());
            message.append(".");
            message.append(text_property);
            message.append("'");
            return Err(message);
        }
        i = i + 1;
    }
    if options.metric.is_none() {
        let mut j: usize = 0;
        while j < stores.len()
            invariant
                j <= stores@.len(),
                types@.len() == stores@.len(),
                names == texts(types@),
                models == store_models(stores@),
                options.metric is None,
                dimension_fault(names, models, text_property@, width as nat, 0) is None,
                scale_fault(entity@, names, models, text_property@, 0) == scale_fault(
                    entity@,
                    names,
                    models,
                    text_property@,
                    j as int,
                ),
            decreases stores@.len() - j,
        {
            let first = crate::inventory::effective_metric(stores[0]);
            let other = crate::inventory::effective_metric(stores[j]);
            if !text_eq(other.as_str(), first.as_str()) {
                let mut message = entity.to_owned();
                message.append(" embedding stores '");
                message.append(types[0].as_str());
                message.append(".");
                message.append(text_property);
                message.append("' (metric '");
                message.append(first.as_str());
                message.append("') and '");
                message.append(types[j].as_str());
                message.append(".");
                message.append(text_property);
                message.append("' (metric '");
                message.append(other.as_str());
                message.append(
                    "') score under different metrics, so one merged ranking would compare scores on different scales. Query the types separately, or pass metric to score every store under one.",
                );
                return Err(message);
            }
            j = j + 1;
        }
    }
    let requested: Option<&str> = match &options.metric {
        Some(name) => Some(name.as_str()),
        None => None,
    };
    let mut k: usize = 0;
    while k < stores.len()
        invariant
            k <= stores@.len(),
            names == texts(types@),
            models == store_models(stores@),
            str_option(requested) == text_option(options.metric),
            dimension_fault(names, models, text_property@, width as nat, 0) is None,
            options.metric is None ==> scale_fault(entity@, names, models, text_property@, 0)
                is None,
            store_metric_fault(models, options.top_k as nat, str_option(requested), 0)
                == store_metric_fault(
                models,
                options.top_k as nat,
                str_option(requested),
                k as int,
            ),
        decreases stores@.len() - k,
    {
        if options.top_k > 0 && stores[k].len() > 0 {
            match resolve_dense_metric(stores[k], requested) {
                Ok(_) => {},
                Err(message) => {
                    assert(store_metric_fault(models, options.top_k as nat, str_option(requested), 0)
                        == Some(message@));
                    return Err(message);
                },
            }
        }
        k = k + 1;
    }
    Ok(())
}

/// How many of the first `count` types come before the type at `place`.
pub open spec fn types_before(types: Seq<Text>, place: int, count: nat) -> nat
    decreases count,
{
    if count == 0 {
        0
    } else {
        types_before(types, place, (count - 1) as nat) + if types[count - 1] != types[place]
            && lex_le(types[count - 1], types[place]) {
            1nat
        } else {
            0nat
        }
    }
}

/// The rank of a type among the types.
pub open spec fn owner_rank(types: Seq<Text>, place: int) -> nat {
    types_before(types, place, types.len())
}

proof fn fewer_before(types: Seq<Text>, a: int, b: int, count: nat)
    requires
        0 <= a < types.len(),
        0 <= b < types.len(),
        count <= types.len(),
        lex_le(types[a], types[b]),
    ensures
        types_before(types, a, count) <= types_before(types, b, count),
        types[a] != types[b] && a < count ==> types_before(types, a, count) < types_before(
            types,
            b,
            count,
        ),
        types[a] == types[b] ==> types_before(types, a, count) == types_before(types, b, count),
    decreases count,
{
    if count > 0 {
        fewer_before(types, a, b, (count - 1) as nat);
        let last = types[count - 1];
        if last != types[a] && lex_le(last, types[a]) {
            lex_le_transitive(last, types[a], types[b]);
            if last == types[b] {
                lex_le_antisymmetric(types[a], types[b]);
            }
        }
    }
}

/// Types rank as they are ordered: equal types rank the same, and an earlier
/// type ranks lower.
pub proof fn types_rank_as_ordered(types: Seq<Text>, a: int, b: int)
    requires
        0 <= a < types.len(),
        0 <= b < types.len(),
    ensures
        owner_rank(types, a) == owner_rank(types, b) <==> types[a] == types[b],
        owner_rank(types, a) < owner_rank(types, b) <==> types[a] != types[b] && lex_le(
            types[a],
            types[b],
        ),
{
    lex_le_total(types[a], types[b]);
    if lex_le(types[a], types[b]) {
        fewer_before(types, a, b, types.len());
    }
    if lex_le(types[b], types[a]) {
        fewer_before(types, b, a, types.len());
    }
    if lex_le(types[a], types[b]) && lex_le(types[b], types[a]) {
        lex_le_antisymmetric(types[a], types[b]);
    }
}

fn rank_of_type(types: &Vec<String>, place: usize) -> (rank: usize)
    requires
        place < types@.len(),
    ensures
        rank == owner_rank(texts(types@), place as int),
{
    let mut rank: usize = 0;
    let mut i: usize = 0;
    while i < types.len()
        invariant
            i <= types@.len(),
            place < types@.len(),
            rank <= i,
            rank == types_before(texts(types@), place as int, i as nat),
        decreases types@.len() - i,
    {
        if !text_eq(types[i].as_str(), types[place].as_str()) && text_le(
            types[i].as_str(),
            types[place].as_str(),
        ) {
            rank = rank + 1;
        }
        i = i + 1;
    }
    rank
}

/// A hit of a ranking over several stores.
#[derive(Debug, Clone, PartialEq, Eq)]
pub struct DenseStoreHit {
    /// The type whose store answered.
    pub owner_type: String,
    /// The slot of the node or relationship.
    pub target: usize,
    /// The score's bits.
    pub score: u64,
    /// How the store answered.
    pub search_method: SearchMethod,
}

/// What a hit says.
pub struct HitModel {
    pub owner_type: Text,
    pub target: usize,
    pub score: u64,
    pub method: SearchMethod,
}

impl View for DenseStoreHit {
    type V = HitModel;

    open spec fn view(&self) -> HitModel {
        HitModel {
            owner_type: self.owner_type@,
            target: self.target,
            score: self.score,
            method: self.search_method,
        }
    }
}

/// What hits say.
pub open spec fn hit_models(hits: Seq<DenseStoreHit>) -> Seq<HitModel> {
    Seq::new(hits.len(), |i: int| hits[i]@)
}

/// A store's best targets among those of several stores.
pub open spec fn hits_at(types: Seq<Text>, hits: Seq<ScoredTarget>, place: int) -> Seq<MergedHit> {
    Seq::new(
        hits.len(),
        |i: int|
            MergedHit {
                score: hits[i].score,
                owner: owner_rank(types, place) as usize,
                target: hits[i].target,
                place: place as usize,
            },
    )
}

/// The best targets of the first `count` stores.
pub open spec fn gathered(
    types: Seq<Text>,
    stores: Seq<StoreModel>,
    answers: Seq<StoreAnswer>,
    top_k: nat,
    count: nat,
) -> Seq<MergedHit>
    decreases count,
{
    if count == 0 {
        Seq::empty()
    } else {
        gathered(types, stores, answers, top_k, (count - 1) as nat) + hits_at(
            types,
            store_hits(stores[count - 1], answers[count - 1], top_k),
            count - 1,
        )
    }
}

/// The merged ranking of several stores.
pub open spec fn merged_ranking(
    types: Seq<Text>,
    stores: Seq<StoreModel>,
    answers: Seq<StoreAnswer>,
    top_k: nat,
) -> Seq<HitModel> {
    let hits = best(ByScoreAndType, gathered(types, stores, answers, top_k, stores.len()), top_k);
    Seq::new(
        hits.len(),
        |i: int|
            HitModel {
                owner_type: types[hits[i].place as int],
                target: hits[i].target,
                score: hits[i].score,
                method: answers[hits[i].place as int].method(),
            },
    )
}

/// Whether the answers are those of the stores, each given the way the store
/// answers.
pub open spec fn answers_fit(
    stores: Seq<StoreModel>,
    answers: Seq<StoreAnswer>,
    top_k: nat,
    exact: bool,
    metric: Option<Text>,
    read_only: bool,
) -> bool {
    &&& answers.len() == stores.len()
    &&& forall|i: int|
        0 <= i < stores.len() && top_k > 0 && stores[i].nodes.len() > 0 ==> (
        #[trigger] answers[i]).fits(stores[i]) && answers[i].method() == store_route(
            stores[i],
            exact,
            metric,
            read_only,
        )
}

proof fn gathered_places(
    types: Seq<Text>,
    stores: Seq<StoreModel>,
    answers: Seq<StoreAnswer>,
    top_k: nat,
    count: nat,
)
    requires
        count <= usize::MAX,
    ensures
        forall|i: int|
            0 <= i < gathered(types, stores, answers, top_k, count).len() ==> (#[trigger] gathered(
                types,
                stores,
                answers,
                top_k,
                count,
            )[i]).place < count,
    decreases count,
{
    if count > 0 {
        gathered_places(types, stores, answers, top_k, (count - 1) as nat);
        let earlier = gathered(types, stores, answers, top_k, (count - 1) as nat);
        let all = gathered(types, stores, answers, top_k, count);
        assert forall|i: int| 0 <= i < all.len() implies (#[trigger] all[i]).place < count by {
            if i < earlier.len() {
                assert(all[i] == earlier[i]);
            }
        }
    }
}

/// Ranks several stores — one per type, all for one text property — and merges
/// them: the higher score first, then the earlier type, then the lower slot.
/// Each store gives its own best.
pub fn rank_dense_stores(
    entity: &str,
    types: &Vec<String>,
    stores: &Vec<&EmbeddingStore>,
    text_property: &str,
    query: &[u32],
    options: &EdgeVectorQueryOptions,
    read_only: bool,
    answers: &Vec<StoreAnswer>,
) -> (result: Result<Vec<DenseStoreHit>, String>)
    requires
        types@.len() == stores@.len(),
        forall|i: int| 0 <= i < stores@.len() ==> (#[trigger] stores@[i]).well_formed(),
        rank_fault(
            entity@,
            texts(types@),
            store_models(stores@),
            text_property@,
            query@.len(),
            options.top_k as nat,
            text_option(options.metric),
        ) is None ==> answers_fit(
            store_models(stores@),
            answers@,
            options.top_k as nat,
            options.exact,
            text_option(options.metric),
            read_only,
        ),
    ensures
        match result {
            Ok(hits) => {
                &&& rank_fault(
                    entity@,
                    texts(types@),
                    store_models(stores@),
                    text_property@,
                    query@.len(),
                    options.top_k as nat,
                    text_option(options.metric),
                ) is None
                &&& hit_models(hits@) == merged_ranking(
                    texts(types@),
                    store_models(stores@),
                    answers@,
                    options.top_k as nat,
                )
            },
            Err(message) => rank_fault(
                entity@,
                texts(types@),
                store_models(stores@),
                text_property@,
                query@.len(),
                options.top_k as nat,
                text_option(options.metric),
            ) == Some(message@),
        },
{
    match check_dense_stores(entity, types, stores, text_property, query.len(), options) {
        Ok(_) => {},
        Err(message) => {
            return Err(message);
        },
    }
    let ghost names = texts(types@);
    let ghost models = store_models(stores@);
    let ghost k = options.top_k as nat;
    let mut all: Vec<MergedHit> = Vec::new();
    let mut i: usize = 0;
    while i < stores.len()
        invariant
            i <= stores@.len(),
            types@.len() == stores@.len(),
            forall|i: int| 0 <= i < stores@.len() ==> (#[trigger] stores@[i]).well_formed(),
            names == texts(types@),
            models == store_models(stores@),
            k == options.top_k,
            answers_fit(
                models,
                answers@,
                k,
                options.exact,
                text_option(options.metric),
                read_only,
            ),
            all@ == gathered(names, models, answers@, k, i as nat),
        decreases stores@.len() - i,
    {
        let (hits, _) = query_dense_store(stores[i], options.top_k, &answers[i]);
        let owner: usize = rank_of_type(types, i);
        let ghost before = all@;
        let ghost found = hits_at(names, hits@, i as int);
        let mut j: usize = 0;
        while j < hits.len()
            invariant
                j <= hits@.len(),
                i < stores@.len(),
                owner == owner_rank(names, i as int),
                found == hits_at(names, hits@, i as int),
                all@ == before + found.take(j as int),
            decreases hits@.len() - j,
        {
            all.push(
                MergedHit { score: hits[j].score, owner, target: hits[j].target, place: i },
            );
            assert(found.take(j + 1) =~= found.take(j as int).push(found[j as int]));
            j = j + 1;
        }
        assert(found.take(j as int) =~= found);
        i = i + 1;
    }
    let mut ranked = sorted(&ByScoreAndType, &all);
    if options.top_k < ranked.len() {
        ranked.truncate(options.top_k);
    }
    assert(ranked@ =~= best(ByScoreAndType, all@, k));
    proof {
        gathered_places(names, models, answers@, k, stores@.len());
        the_best_come_first(ByScoreAndType, all@, k);
        broadcast use vstd::seq_lib::group_to_multiset_ensures;

    }
    let mut out: Vec<DenseStoreHit> = Vec::new();
    let mut n: usize = 0;
    let ghost expected = merged_ranking(names, models, answers@, k);
    assert forall|m: int| 0 <= m < ranked@.len() implies (#[trigger] ranked@[m]).place
        < stores@.len() by {
        assert(ranked@.to_multiset().count(ranked@[m]) > 0);
        assert(all@.to_multiset().count(ranked@[m]) > 0);
        assert(all@.contains(ranked@[m]));
    }
    while n < ranked.len()
        invariant
            n <= ranked@.len(),
            types@.len() == stores@.len(),
            names == texts(types@),
            models == store_models(stores@),
            answers@.len() == stores@.len(),
            forall|m: int| 0 <= m < ranked@.len() ==> (#[trigger] ranked@[m]).place < stores@.len(),
            ranked@ == best(ByScoreAndType, gathered(names, models, answers@, k, models.len()), k),
            expected == merged_ranking(names, models, answers@, k),
            out@.len() == n,
            forall|m: int| 0 <= m < n ==> (#[trigger] out@[m])@ == expected[m],
        decreases ranked@.len() - n,
    {
        let hit = ranked[n];
        let row = DenseStoreHit {
            owner_type: types[hit.place].as_str().to_owned(),
            target: hit.target,
            score: hit.score,
            search_method: match &answers[hit.place] {
                StoreAnswer::Scan(_) => SearchMethod::Exact,
                StoreAnswer::Found(_) => SearchMethod::Hnsw,
            },
        };
        assert(row@ == expected[n as int]);
        out.push(row);
        n = n + 1;
    }
    assert(hit_models(out@) =~= expected);
    Ok(out)
}

} // verus!
