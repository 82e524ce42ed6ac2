//! What the embedding stores hold and what they cover.

use crate::catalog::{lookup, EntryModel};
use crate::graph::DirGraph;
use crate::metric::metric_or_cosine;
use crate::name_pairs::{keys_on, listed_keys, listed_keys_are_kept, pair_texts};
use crate::names::{column_or_name, listed_column, store_name, store_name_of};
use crate::store::{EmbeddingStore, StoreModel};
use crate::text::{text_eq, text_option, Text};
use vstd::prelude::*;

verus! {

/// What a store's vectors belong to.
#[derive(Debug, Clone, Copy, PartialEq, Eq, Hash, Structural)]
pub enum EmbeddingEntity {
    /// Nodes.
    Node,
    /// Relationships.
    Relationship,
}

/// The refusal of an entity's name.
pub open spec fn entity_fault(value: Text) -> Text {
    "entity must be 'node' or 'relationship', got '"@ + value + "'"@
}

impl EmbeddingEntity {
    /// The entity's name.
    pub open spec fn text(self) -> Text {
        match self {
            EmbeddingEntity::Node => "node"@,
            EmbeddingEntity::Relationship => "relationship"@,
        }
    }

    /// The entity's name: `"node"` or `"relationship"`.
    pub fn as_str(self) -> (name: &'static str)
        ensures
            name@ == self.text(),
    {
        match self {
            EmbeddingEntity::Node => "node",
            EmbeddingEntity::Relationship => "relationship",
        }
    }

    /// Reads an entity's name.
    pub fn parse(value: &str) -> (entity: Result<EmbeddingEntity, String>)
        ensures
            match entity {
                Ok(e) => value@ == e.text(),
                Err(message) => {
                    &&& value@ != EmbeddingEntity::Node.text()
                    &&& value@ != EmbeddingEntity::Relationship.text()
                    &&& message@ == entity_fault(value@)
                },
            },
    {
        if text_eq(value, "node") {
            Ok(EmbeddingEntity::Node)
        } else if text_eq(value, "relationship") {
            Ok(EmbeddingEntity::Relationship)
        } else {
            let mut message = "entity must be 'node' or 'relationship', got '".to_owned();
            message.append(value);
            message.append("'");
            Err(message)
        }
    }
}

/// The metric a store is scored under.
pub fn effective_metric(store: &EmbeddingStore) -> (metric: String)
    ensures
        metric@ == metric_or_cosine(store@.metric),
{
    match &store.metric {
        Some(name) => name.as_str().to_owned(),
        None => "cosine".to_owned(),
    }
}

/// A relationship store, as it is listed.
#[derive(Debug, Clone, PartialEq, Eq)]
pub struct EdgeEmbeddingStoreInfo {
    /// The relationship type.
    pub relationship_type: String,
    /// The property that the vectors describe.
    pub text_column: String,
    /// The store's own name.
    pub store_name: String,
    /// The numbers in a vector.
    pub dimension: usize,
    /// The vectors.
    pub count: usize,
    /// The metric the store is scored under.
    pub metric: String,
}

/// What a listed store says.
pub struct StoreInfoModel {
    pub owner_type: Text,
    pub text_column: Text,
    pub store_name: Text,
    pub dimension: usize,
    pub count: usize,
    pub metric: Text,
}

impl View for EdgeEmbeddingStoreInfo {
    type V = StoreInfoModel;

    open spec fn view(&self) -> StoreInfoModel {
        StoreInfoModel {
            owner_type: self.relationship_type@,
            text_column: self.text_column@,
            store_name: self.store_name@,
            dimension: self.dimension,
            count: self.count,
            metric: self.metric@,
        }
    }
}

/// A store kept under a type and a name, as it is listed.
pub open spec fn store_info(owner_type: Text, name: Text, store: StoreModel) -> StoreInfoModel {
    StoreInfoModel {
        owner_type,
        text_column: listed_column(name),
        store_name: name,
        dimension: store.dimension,
        count: store.nodes.len() as usize,
        metric: metric_or_cosine(store.metric),
    }
}

/// Every store, by type and then by name.
pub open spec fn stores_listed(entries: Seq<EntryModel<StoreModel>>) -> Seq<StoreInfoModel> {
    let keys = keys_on(entries);
    Seq::new(
        keys.len(),
        |i: int| store_info(keys[i].0, keys[i].1, lookup(entries, keys[i].0, keys[i].1)->0),
    )
}

/// What the listed relationship stores say.
pub open spec fn edge_infos(rows: Seq<EdgeEmbeddingStoreInfo>) -> Seq<StoreInfoModel> {
    Seq::new(rows.len(), |i: int| rows[i]@)
}

/// Every relationship store, by relationship type and then by store.
pub fn list_edge_embeddings(graph: &DirGraph) -> (rows: Vec<EdgeEmbeddingStoreInfo>)
    requires
        graph.well_formed(),
    ensures
        edge_infos(rows@) == stores_listed(graph.edge_embeddings@),
{
    let keys = listed_keys(&graph.edge_embeddings);
    let ghost entries = graph.edge_embeddings@;
    let mut rows: Vec<EdgeEmbeddingStoreInfo> = Vec::new();
    let mut i: usize = 0;
    while i < keys.len()
        invariant
            i <= keys@.len(),
            entries == graph.edge_embeddings@,
            pair_texts(keys@) == keys_on(entries),
            pair_texts(keys@).to_set() == crate::name_pairs::keys_kept(
                entries,
                entries.len() as int,
            ),
            rows@.len() == i,
            forall|k: int|
                0 <= k < i ==> (#[trigger] rows@[k])@ == stores_listed(entries)[k],
        decreases keys@.len() - i,
    {
        let ghost pair = pair_texts(keys@)[i as int];
        proof {
            assert(pair_texts(keys@).to_set().contains(pair));
            listed_keys_are_kept(entries, pair);
        }
        match graph.edge_embeddings.get(keys[i].0.as_str(), keys[i].1.as_str()) {
            Some(store) => {
                let row = EdgeEmbeddingStoreInfo {
                    relationship_type: keys[i].0.as_str().to_owned(),
                    text_column: column_or_name(keys[i].1.as_str()),
                    store_name: keys[i].1.as_str().to_owned(),
                    dimension: store.dimension(),
                    count: store.len(),
                    metric: effective_metric(&store.numeric),
                };
                assert(row@ == stores_listed(entries)[i as int]);
                rows.push(row);
            },
            None => {
                assert(false);
            },
        }
        i = i + 1;
    }
    assert(edge_infos(rows@) =~= stores_listed(entries));
    rows
}

/// Where a store's vectors come from.
#[derive(Debug, Clone, PartialEq, Eq)]
pub struct EmbeddingInfo {
    /// What the vectors belong to.
    pub entity: EmbeddingEntity,
    /// The node or relationship type.
    pub owner_type: String,
    /// The text column.
    pub text_column: String,
    /// The numbers in a vector.
    pub dimension: usize,
    /// The vectors.
    pub count: usize,
    /// The model that made the vectors; none for vectors that were supplied.
    pub model: Option<String>,
    /// The metric the store is scored under.
    pub metric: String,
    /// The vectors with the hash of the text they were made from.
    pub hashed: usize,
}

/// What [`EmbeddingInfo`] says.
pub struct InfoModel {
    pub entity: EmbeddingEntity,
    pub owner_type: Text,
    pub text_column: Text,
    pub dimension: usize,
    pub count: usize,
    pub model: Option<Text>,
    pub metric: Text,
    pub hashed: usize,
}

impl View for EmbeddingInfo {
    type V = InfoModel;

    open spec fn view(&self) -> InfoModel {
        InfoModel {
            entity: self.entity,
            owner_type: self.owner_type@,
            text_column: self.text_column@,
            dimension: self.dimension,
            count: self.count,
            model: text_option(self.model),
            metric: self.metric@,
            hashed: self.hashed,
        }
    }
}

/// The store of an entity for a type and a text column.
pub open spec fn store_for(
    graph: DirGraph,
    entity: EmbeddingEntity,
    owner_type: Text,
    text_column: Text,
) -> Option<StoreModel> {
    match entity {
        EmbeddingEntity::Node => lookup(graph.embeddings@, owner_type, store_name_of(text_column)),
        EmbeddingEntity::Relationship => lookup(
            graph.edge_embeddings@,
            owner_type,
            store_name_of(text_column),
        ),
    }
}

/// What a store's provenance is.
pub open spec fn provenance(
    entity: EmbeddingEntity,
    owner_type: Text,
    text_column: Text,
    store: StoreModel,
) -> InfoModel {
    InfoModel {
        entity,
        owner_type,
        text_column,
        dimension: store.dimension,
        count: store.nodes.len() as usize,
        model: store.model_id,
        metric: metric_or_cosine(store.metric),
        hashed: store.hashes.dom().len() as usize,
    }
}

/// Where the vectors of a store come from; none where there is no such store.
pub fn embedding_info(
    graph: &DirGraph,
    entity: EmbeddingEntity,
    owner_type: &str,
    text_column: &str,
) -> (info: Option<EmbeddingInfo>)
    ensures
        match info {
            Some(i) => {
                &&& store_for(*graph, entity, owner_type@, text_column@) is Some
                &&& i@ == provenance(
                    entity,
                    owner_type@,
                    text_column@,
                    store_for(*graph, entity, owner_type@, text_column@)->0,
                )
            },
            None => store_for(*graph, entity, owner_type@, text_column@) is None,
        },
{
    let name = store_name(text_column);
    let store: &EmbeddingStore = match entity {
        EmbeddingEntity::Node => match graph.embeddings.get(owner_type, name.as_str()) {
            Some(store) => store,
            None => {
                return None;
            },
        },
        EmbeddingEntity::Relationship => match graph.edge_embeddings.get(
            owner_type,
            name.as_str(),
        ) {
            Some(store) => &store.numeric,
            None => {
                return None;
            },
        },
    };
    broadcast use vstd::std_specs::hash::group_hash_axioms;

    Some(
        EmbeddingInfo {
            entity,
            owner_type: owner_type.to_owned(),
            text_column: text_column.to_owned(),
            dimension: store.dimension,
            count: store.len(),
            model: match &store.model_id {
                Some(model) => Some(model.as_str().to_owned()),
                None => None,
            },
            metric: effective_metric(store),
            hashed: store.text_hashes.len(),
        },
    )
}

} // verus!
