//! Putting carried relationship vectors into a graph, and copying every vector
//! of one graph to another.

use crate::carry::{extract_edge_stores, extraction_of};
use crate::carry_resolve::{
    resolution, resolution_said, resolve_edge_stores, resolved_models, ResolvedEdgeStore,
    ResolvedModel,
};
use crate::catalog::{with_entry, EntryModel};
use crate::edge_replace::{keep_store, replace_done, typed_edges_live};
use crate::edge_store::EdgeEmbeddingStore;
use crate::graph::{bumped, DirGraph};
use crate::groups::RelationshipKeys;
use crate::names::store_name_of;
use crate::node_carry::{copy_done, vectors_carried, vectors_in};
use crate::store::{empty_store, with_hash, with_vector, StoreModel};
use crate::text::Text;
use crate::topology::typed_edges;
use vstd::prelude::*;

verus! {

/// What a carry of relationship vectors did.
#[derive(Debug, Clone, Copy, PartialEq, Eq, Structural)]
pub struct RelationshipCarryStats {
    /// Stores that were installed.
    pub stores: usize,
    /// Vectors that were installed.
    pub carried: usize,
    /// Vectors whose relationship the graph does not have.
    pub skipped: usize,
    /// Stores with vectors of which none was installed.
    pub dropped_stores: usize,
}

impl Default for RelationshipCarryStats {
    fn default() -> (stats: RelationshipCarryStats)
        ensures
            stats == (RelationshipCarryStats {
                stores: 0,
                carried: 0,
                skipped: 0,
                dropped_stores: 0,
            }),
    {
        RelationshipCarryStats { stores: 0, carried: 0, skipped: 0, dropped_stores: 0 }
    }
}

/// The store with the vectors of the first `count` relationships.
pub open spec fn filled(resolved: ResolvedModel, count: nat) -> StoreModel
    decreases count,
{
    let store = resolved.store;
    if count == 0 {
        StoreModel { model_id: store.model_id, ..empty_store(store.dimension, store.metric) }
    } else {
        let (edge, place) = resolved.members[count - 1];
        let entry = store.entries[place as int];
        with_hash(
            with_vector(filled(resolved, (count - 1) as nat), edge.slot, entry.vector),
            edge.slot,
            entry.text_hash,
        )
    }
}

/// What the installation of one store does. A store of which no vector was
/// found is not installed.
pub open spec fn install_step(before: DirGraph, after: DirGraph, resolved: ResolvedModel) -> bool {
    if resolved.members.len() == 0 {
        after == before
    } else {
        &&& after.version == before.version
        &&& replace_done(
            before,
            DirGraph { version: bumped(before.version), ..after },
            resolved.store.relationship_type,
            resolved.store.text_column,
            filled(resolved, resolved.members.len()),
            typed_edges(before.topology.edges@, resolved.store.relationship_type),
        )
    }
}

/// What the installation of the first `count` stores does, one after the other.
pub open spec fn installed_upto(
    before: DirGraph,
    after: DirGraph,
    resolved: Seq<ResolvedModel>,
    count: nat,
) -> bool
    decreases count,
{
    if count == 0 {
        after == before
    } else {
        exists|mid: DirGraph|
            installed_upto(before, mid, resolved, (count - 1) as nat) && #[trigger] install_step(
                mid,
                after,
                resolved[count - 1],
            )
    }
}

/// The relationship stores after the first `count` installations.
pub open spec fn stores_after(
    stores: Seq<EntryModel<StoreModel>>,
    resolved: Seq<ResolvedModel>,
    count: nat,
) -> Seq<EntryModel<StoreModel>>
    decreases count,
{
    if count == 0 {
        stores
    } else {
        let before = stores_after(stores, resolved, (count - 1) as nat);
        let one = resolved[count - 1];
        if one.members.len() == 0 {
            before
        } else {
            with_entry(
                before,
                one.store.relationship_type,
                store_name_of(one.store.text_column),
                filled(one, one.members.len()),
            )
        }
    }
}

/// The stores among the first `count` that are installed.
pub open spec fn stores_kept(resolved: Seq<ResolvedModel>, count: nat) -> nat
    decreases count,
{
    if count == 0 {
        0
    } else {
        stores_kept(resolved, (count - 1) as nat) + if resolved[count - 1].members.len() > 0 {
            1nat
        } else {
            0nat
        }
    }
}

/// The stores among the first `count` that have vectors and are not installed.
pub open spec fn stores_dropped(resolved: Seq<ResolvedModel>, count: nat) -> nat
    decreases count,
{
    if count == 0 {
        0
    } else {
        let one = resolved[count - 1];
        stores_dropped(resolved, (count - 1) as nat) + if one.members.len() == 0
            && one.store.entries.len() > 0 {
            1nat
        } else {
            0nat
        }
    }
}

/// The vectors of the first `count` stores that are installed.
pub open spec fn vectors_kept(resolved: Seq<ResolvedModel>, count: nat) -> nat
    decreases count,
{
    if count == 0 {
        0
    } else {
        vectors_kept(resolved, (count - 1) as nat) + resolved[count - 1].members.len()
    }
}

/// The vectors of the first `count` stores.
pub open spec fn vectors_brought(resolved: Seq<ResolvedModel>, count: nat) -> nat
    decreases count,
{
    if count == 0 {
        0
    } else {
        vectors_brought(resolved, (count - 1) as nat) + resolved[count - 1].store.entries.len()
    }
}

/// What a carry reports.
pub open spec fn stats_say(stats: RelationshipCarryStats, resolved: Seq<ResolvedModel>) -> bool {
    &&& stats.stores == stores_kept(resolved, resolved.len())
    &&& stats.carried == vectors_kept(resolved, resolved.len())
    &&& stats.skipped == vectors_brought(resolved, resolved.len()) - vectors_kept(
        resolved,
        resolved.len(),
    )
    &&& stats.dropped_stores == stores_dropped(resolved, resolved.len())
}

/// What the installation of carried stores does.
pub open spec fn carry_installed(
    before: DirGraph,
    after: DirGraph,
    resolved: Seq<ResolvedModel>,
) -> bool {
    &&& installed_upto(
        before,
        DirGraph { version: before.version, ..after },
        resolved,
        resolved.len(),
    )
    &&& after == (DirGraph {
        edge_embeddings: after.edge_embeddings,
        undo: after.undo,
        recording: after.recording,
        version: if stores_kept(resolved, resolved.len()) > 0 {
            bumped(before.version)
        } else {
            before.version
        },
        ..before
    })
    &&& after.edge_embeddings@ == stores_after(before.edge_embeddings@, resolved, resolved.len())
}

fn fill(resolved: &ResolvedEdgeStore) -> (store: EdgeEmbeddingStore)
    requires
        resolved.well_formed(),
    ensures
        store.well_formed(),
        store@ == filled(resolved@, resolved.members@.len()),
{
    let metric: Option<&str> = match &resolved.store.metric {
        Some(name) => Some(name.as_str()),
        None => None,
    };
    let mut store = EdgeEmbeddingStore::new(resolved.store.dimension, metric);
    store.set_model_id(
        match &resolved.store.model_id {
            Some(model) => Some(model.as_str().to_owned()),
            None => None,
        },
    );
    let mut i: usize = 0;
    while i < resolved.members.len()
        invariant
            i <= resolved.members@.len(),
            resolved.well_formed(),
            store.well_formed(),
            store@.dimension == resolved.store.dimension,
            store@ == filled(resolved@, i as nat),
        decreases resolved.members@.len() - i,
    {
        let (edge, place) = resolved.members[i];
        assert(resolved@.members[i as int].1 < resolved@.store.entries.len());
        let entry = &resolved.store.entries[place];
        assert(resolved@.store.entries[place as int] == entry@);
        store.install_wal_vector(edge, entry.vector.as_slice(), entry.text_hash);
        i = i + 1;
    }
    store
}

fn install_one(dst: &mut DirGraph, resolved: &ResolvedEdgeStore)
    requires
        old(dst).well_formed(),
        resolved.well_formed(),
        resolved.members@.len() > 0,
    ensures
        final(dst).well_formed(),
        install_step(*old(dst), *final(dst), resolved@),
{
    let store = fill(resolved);
    let affected = dst.topology.edges_of_type(resolved.store.relationship_type.as_str());
    let bound: usize = dst.topology.edges.len();
    proof {
        typed_edges_live(dst.topology, resolved.store.relationship_type@);
    }
    keep_store(
        dst,
        resolved.store.relationship_type.as_str(),
        resolved.store.text_column.as_str(),
        store,
        &affected,
    );
}

proof fn brought_grows(resolved: Seq<ResolvedModel>, count: nat, upto: nat)
    requires
        count <= upto,
    ensures
        vectors_brought(resolved, count) <= vectors_brought(resolved, upto),
    decreases upto - count,
{
    if count < upto {
        brought_grows(resolved, count, (upto - 1) as nat);
    }
}

/// Installs resolved stores, each in place of the one of its name. A store of
/// which no vector was found is not installed.
pub fn install_edge_stores(dst: &mut DirGraph, resolved: &Vec<ResolvedEdgeStore>) -> (stats:
    RelationshipCarryStats)
    requires
        old(dst).well_formed(),
        forall|i: int| 0 <= i < resolved@.len() ==> (#[trigger] resolved@[i]).well_formed(),
        vectors_brought(resolved_models(resolved@), resolved@.len()) <= usize::MAX,
    ensures
        final(dst).well_formed(),
        stats_say(stats, resolved_models(resolved@)),
        carry_installed(*old(dst), *final(dst), resolved_models(resolved@)),
{
    let ghost models = resolved_models(resolved@);
    let ghost before = *dst;
    let mut stats = RelationshipCarryStats::default();
    let mut i: usize = 0;
    while i < resolved.len()
        invariant
            i <= resolved@.len(),
            dst.well_formed(),
            before == *old(dst),
            models == resolved_models(resolved@),
            forall|k: int| 0 <= k < resolved@.len() ==> (#[trigger] resolved@[k]).well_formed(),
            vectors_brought(models, models.len()) <= usize::MAX,
            stats.stores == stores_kept(models, i as nat),
            stats.stores <= i,
            stats.carried == vectors_kept(models, i as nat),
            stats.carried + stats.skipped == vectors_brought(models, i as nat),
            stats.dropped_stores == stores_dropped(models, i as nat),
            stats.dropped_stores <= i,
            installed_upto(before, *dst, models, i as nat),
            *dst == (DirGraph {
                edge_embeddings: dst.edge_embeddings,
                undo: dst.undo,
                recording: dst.recording,
                ..before
            }),
            dst.edge_embeddings@ == stores_after(before.edge_embeddings@, models, i as nat),
        decreases resolved@.len() - i,
    {
        let one = &resolved[i];
        let ghost mid = *dst;
        proof {
            assert(models[i as int] == one@);
            brought_grows(models, (i + 1) as nat, models.len());
        }
        stats.skipped = stats.skipped + one.skipped;
        if one.members.len() == 0 {
            if one.store.entries.len() > 0 {
                stats.dropped_stores = stats.dropped_stores + 1;
            }
        } else {
            stats.carried = stats.carried + one.members.len();
            stats.stores = stats.stores + 1;
            install_one(dst, one);
        }
        proof {
            assert(installed_upto(before, mid, models, i as nat));
            assert(install_step(mid, *dst, models[i as int]));
            assert(installed_upto(before, *dst, models, (i + 1) as nat));
        }
        i = i + 1;
    }
    if stats.stores > 0 {
        dst.bump_version();
    }
    stats
}

/// What a copy of every vector did.
#[derive(Debug, Clone, Copy, PartialEq, Eq, Structural)]
pub struct EmbeddingCopyReport {
    /// Node stores that were copied.
    pub stores_copied: usize,
    /// Node vectors that were copied.
    pub vectors_copied: usize,
    /// Node vectors that were not.
    pub vectors_skipped: usize,
    /// What was done with the relationship vectors.
    pub relationships: RelationshipCarryStats,
}

/// The relationship vectors of one graph with the relationships of another, or
/// why they cannot be carried.
pub open spec fn copy_resolution(dst: DirGraph, src: DirGraph, keys: RelationshipKeys) -> Result<
    Seq<ResolvedModel>,
    Text,
> {
    match extraction_of(src, keys) {
        Ok(stores) => resolution(dst, stores, keys),
        Err(fault) => Err(fault),
    }
}

/// Finds the relationships here for the relationship vectors of another graph.
pub fn resolve_copy(dst: &DirGraph, src: &DirGraph, keys: &RelationshipKeys) -> (result: Result<
    Vec<ResolvedEdgeStore>,
    String,
>)
    requires
        src.well_formed(),
    ensures
        resolution_said(result) == copy_resolution(*dst, *src, *keys),
        result is Ok ==> forall|i: int|
            0 <= i < result->Ok_0@.len() ==> (#[trigger] result->Ok_0@[i]).well_formed(),
{
    match extract_edge_stores(src, keys) {
        Ok(stores) => resolve_edge_stores(dst, stores, keys),
        Err(message) => Err(message),
    }
}

impl DirGraph {
    /// Copies every node store and every relationship store of another graph.
    /// A relationship that no address names is refused, on either side, before
    /// anything is written.
    pub fn copy_embeddings_with_relationships_from(
        &mut self,
        src: &DirGraph,
        keys: &RelationshipKeys,
    ) -> (result: Result<EmbeddingCopyReport, String>)
        requires
            old(self).well_formed(),
            src.well_formed(),
            vectors_in(src.embeddings@, src.embeddings@.len()) <= usize::MAX,
            copy_resolution(*old(self), *src, *keys) is Ok ==> vectors_brought(
                copy_resolution(*old(self), *src, *keys)->Ok_0,
                copy_resolution(*old(self), *src, *keys)->Ok_0.len(),
            ) <= usize::MAX,
        ensures
            final(self).well_formed(),
            match copy_resolution(*old(self), *src, *keys) {
                Err(fault) => {
                    &&& result is Err
                    &&& result->Err_0@ == fault
                    &&& *final(self) == *old(self)
                },
                Ok(resolved) => {
                    &&& result is Ok
                    &&& exists|mid: DirGraph|
                        #[trigger] copy_done(*old(self), mid, *src) && carry_installed(
                            mid,
                            *final(self),
                            resolved,
                        )
                    &&& stats_say(result->Ok_0.relationships, resolved)
                    &&& result->Ok_0.stores_copied == src.embeddings@.len()
                    &&& result->Ok_0.vectors_copied == vectors_carried(
                        *old(self),
                        *src,
                        src.embeddings@.len(),
                    )
                    &&& result->Ok_0.vectors_skipped == vectors_in(
                        src.embeddings@,
                        src.embeddings@.len(),
                    ) - vectors_carried(*old(self), *src, src.embeddings@.len())
                },
            },
    {
        let resolved = match resolve_copy(self, src, keys) {
            Ok(resolved) => resolved,
            Err(message) => {
                return Err(message);
            },
        };
        let (stores_copied, vectors_copied, vectors_skipped) = self.copy_embeddings_from(src);
        let ghost mid = *self;
        let relationships = install_edge_stores(self, &resolved);
        assert(copy_done(*old(self), mid, *src) && carry_installed(
            mid,
            *self,
            resolved_models(resolved@),
        ));
        Ok(EmbeddingCopyReport { stores_copied, vectors_copied, vectors_skipped, relationships })
    }
}

} // verus!
