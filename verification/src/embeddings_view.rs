//! How a description of a graph shows its relationship stores.

use crate::catalog::lookup;
use crate::graph::DirGraph;
use crate::name_pairs::{
    columns_of_pairs, columns_under, listed_pairs_are_kept, listed_stores, pair_texts, pairs_kept,
    stores_on,
};
use crate::names::{store_name, store_name_of};
use crate::store::StoreModel;
use crate::text::{decimal, join, joined, push_number, texts, Text};
use crate::xml::{escaped, xml_escape};
use vstd::prelude::*;

verus! {

/// The columns with a store on a relationship type, in order.
pub open spec fn view_columns(graph: DirGraph, connection_type: Text) -> Seq<Text> {
    let pairs = stores_on(graph.edge_embeddings@);
    columns_under(pairs, connection_type, pairs.len())
}

/// The store of a type and a column.
pub open spec fn viewed_store(graph: DirGraph, connection_type: Text, column: Text) -> StoreModel {
    lookup(graph.edge_embeddings@, connection_type, store_name_of(column))->0
}

/// A store in one attribute: its column, and in brackets its dimension and its
/// vectors.
pub open spec fn store_label(column: Text, store: StoreModel) -> Text {
    escaped(column) + "(dim="@ + decimal(store.dimension as nat) + ",count="@ + decimal(
        store.nodes.len(),
    ) + ")"@
}

/// A store as an element of its own.
pub open spec fn store_element(column: Text, store: StoreModel) -> Text {
    "    <embeddings text_col=\""@ + escaped(column) + "\" dim=\""@ + decimal(
        store.dimension as nat,
    ) + "\" count=\""@ + decimal(store.nodes.len()) + "\"/>\n"@
}

/// A column with a store, its dimension and its vectors.
struct StoreRow {
    column: String,
    dimension: usize,
    count: usize,
}

proof fn columns_are_listed(pairs: Seq<(Text, Text)>, owner_type: Text, count: nat)
    requires
        count <= pairs.len(),
    ensures
        forall|i: int|
            0 <= i < columns_under(pairs, owner_type, count).len() ==> pairs.contains(
                (owner_type, #[trigger] columns_under(pairs, owner_type, count)[i]),
            ),
    decreases count,
{
    if count > 0 {
        columns_are_listed(pairs, owner_type, (count - 1) as nat);
        let before = columns_under(pairs, owner_type, (count - 1) as nat);
        let all = columns_under(pairs, owner_type, count);
        assert forall|i: int| 0 <= i < all.len() implies pairs.contains(
            (owner_type, #[trigger] all[i]),
        ) by {
            if i < before.len() {
                assert(all[i] == before[i]);
            } else {
                assert(pairs[count - 1] == (owner_type, all[i]));
            }
        }
    }
}

fn rows_on(graph: &DirGraph, connection_type: &str) -> (rows: Vec<StoreRow>)
    requires
        graph.well_formed(),
    ensures
        rows@.len() == view_columns(*graph, connection_type@).len(),
        forall|i: int|
            0 <= i < rows@.len() ==> {
                let column = view_columns(*graph, connection_type@)[i];
                let store = viewed_store(*graph, connection_type@, column);
                &&& (#[trigger] rows@[i]).column@ == column
                &&& rows@[i].dimension == store.dimension
                &&& rows@[i].count == store.nodes.len()
            },
{
    let pairs = listed_stores(&graph.edge_embeddings);
    let columns = columns_of_pairs(&pairs, connection_type);
    let ghost entries = graph.edge_embeddings@;
    let ghost listed = view_columns(*graph, connection_type@);
    assert(pair_texts(pairs@).len() == pairs@.len());
    assert(texts(columns@) == listed);
    proof {
        columns_are_listed(pair_texts(pairs@), connection_type@, pairs@.len());
    }
    let mut rows: Vec<StoreRow> = Vec::new();
    let mut i: usize = 0;
    while i < columns.len()
        invariant
            i <= columns@.len(),
            graph.well_formed(),
            entries == graph.edge_embeddings@,
            listed == view_columns(*graph, connection_type@),
            texts(columns@) == listed,
            pair_texts(pairs@).to_set() == pairs_kept(entries, entries.len() as int),
            forall|k: int|
                0 <= k < listed.len() ==> pair_texts(pairs@).contains(
                    (connection_type@, #[trigger] listed[k]),
                ),
            rows@.len() == i,
            forall|k: int|
                0 <= k < i ==> {
                    let store = viewed_store(*graph, connection_type@, listed[k]);
                    &&& (#[trigger] rows@[k]).column@ == listed[k]
                    &&& rows@[k].dimension == store.dimension
                    &&& rows@[k].count == store.nodes.len()
                },
        decreases columns@.len() - i,
    {
        let column = columns[i].as_str();
        proof {
            let pair = (connection_type@, listed[i as int]);
            assert(listed[i as int] == column@);
            assert(pair_texts(pairs@).contains(pair));
            assert(pair_texts(pairs@).to_set().contains(pair));
            listed_pairs_are_kept(entries, pair);
        }
        let name = store_name(column);
        match graph.edge_embeddings.get(connection_type, name.as_str()) {
            Some(store) => {
                rows.push(
                    StoreRow {
                        column: column.to_owned(),
                        dimension: store.dimension(),
                        count: store.len(),
                    },
                );
            },
            None => {
                assert(false);
            },
        }
        i = i + 1;
    }
    rows
}

/// The labels of the stores on a type, in order.
pub open spec fn store_labels(graph: DirGraph, connection_type: Text) -> Seq<Text> {
    let columns = view_columns(graph, connection_type);
    Seq::new(
        columns.len(),
        |i: int| store_label(columns[i], viewed_store(graph, connection_type, columns[i])),
    )
}

/// The attribute that names the stores on a type, empty where there is none.
pub open spec fn embeddings_attribute(graph: DirGraph, connection_type: Text) -> Text {
    if view_columns(graph, connection_type).len() == 0 {
        Seq::empty()
    } else {
        " embeddings=\""@ + joined(store_labels(graph, connection_type), ","@) + "\""@
    }
}

/// The attribute that names the stores on a relationship type, empty where
/// there is none.
pub fn conn_embeddings_attr(graph: &DirGraph, connection_type: &str) -> (attribute: String)
    requires
        graph.well_formed(),
    ensures
        attribute@ == embeddings_attribute(*graph, connection_type@),
{
    let rows = rows_on(graph, connection_type);
    if rows.len() == 0 {
        return String::new();
    }
    let ghost labels = store_labels(*graph, connection_type@);
    let mut parts: Vec<String> = Vec::new();
    let mut i: usize = 0;
    while i < rows.len()
        invariant
            i <= rows@.len(),
            labels == store_labels(*graph, connection_type@),
            rows@.len() == labels.len(),
            forall|k: int|
                0 <= k < rows@.len() ==> {
                    let column = view_columns(*graph, connection_type@)[k];
                    let store = viewed_store(*graph, connection_type@, column);
                    &&& (#[trigger] rows@[k]).column@ == column
                    &&& rows@[k].dimension == store.dimension
                    &&& rows@[k].count == store.nodes.len()
                },
            parts@.len() == i,
            forall|k: int| 0 <= k < i ==> (#[trigger] parts@[k])@ == labels[k],
        decreases rows@.len() - i,
    {
        let row = &rows[i];
        let mut part = xml_escape(row.column.as_str());
        part.append("(dim=");
        push_number(&mut part, row.dimension);
        part.append(",count=");
        push_number(&mut part, row.count);
        part.append(")");
        assert(part@ == labels[i as int]);
        parts.push(part);
        i = i + 1;
    }
    assert(texts(parts@) =~= labels);
    let mut attribute = " embeddings=\"".to_owned();
    attribute.append(join(&parts, ",").as_str());
    attribute.append("\"");
    attribute
}

/// The elements of the first `count` stores on a type.
pub open spec fn store_elements(graph: DirGraph, connection_type: Text, count: nat) -> Text
    decreases count,
{
    if count == 0 {
        Seq::empty()
    } else {
        let column = view_columns(graph, connection_type)[count - 1];
        store_elements(graph, connection_type, (count - 1) as nat) + store_element(
            column,
            viewed_store(graph, connection_type, column),
        )
    }
}

/// Writes an element for each store on a relationship type.
pub fn write_conn_embeddings(xml: &mut String, graph: &DirGraph, connection_type: &str)
    requires
        graph.well_formed(),
    ensures
        final(xml)@ == old(xml)@ + store_elements(
            *graph,
            connection_type@,
            view_columns(*graph, connection_type@).len(),
        ),
{
    let rows = rows_on(graph, connection_type);
    let ghost before = xml@;
    assert(xml@ =~= before + store_elements(*graph, connection_type@, 0));
    let mut i: usize = 0;
    while i < rows.len()
        invariant
            i <= rows@.len(),
            rows@.len() == view_columns(*graph, connection_type@).len(),
            forall|k: int|
                0 <= k < rows@.len() ==> {
                    let column = view_columns(*graph, connection_type@)[k];
                    let store = viewed_store(*graph, connection_type@, column);
                    &&& (#[trigger] rows@[k]).column@ == column
                    &&& rows@[k].dimension == store.dimension
                    &&& rows@[k].count == store.nodes.len()
                },
            xml@ == before + store_elements(*graph, connection_type@, i as nat),
        decreases rows@.len() - i,
    {
        let row = &rows[i];
        let ghost so_far = store_elements(*graph, connection_type@, i as nat);
        let mut element = "    <embeddings text_col=\"".to_owned();
        element.append(xml_escape(row.column.as_str()).as_str());
        element.append("\" dim=\"");
        push_number(&mut element, row.dimension);
        element.append("\" count=\"");
        push_number(&mut element, row.count);
        element.append("\"/>\n");
        xml.append(element.as_str());
        proof {
            let next = store_elements(*graph, connection_type@, (i + 1) as nat);
            assert(next == so_far + element@);
            assert(before + so_far + element@ =~= before + next);
        }
        i = i + 1;
    }
}

/// What a graph with node stores can be asked.
pub open spec fn node_semantic() -> Text {
    "text_score(n, 'col', 'query'|[0.1,0.2,...], metric) — similarity; a list query is scored as your query vector, a string query is embedded via set_embedder() (metric: 'cosine'|'poincare'|'dot_product'|'euclidean'); embedding_norm(n, 'col_emb') — L2 norm (hierarchy depth in Poincaré space)"@
}

/// What a graph with relationship stores can be asked.
pub open spec fn relationship_semantic() -> Text {
    "relationships: vector_score(r, 'col_emb', $v) / text_score(r, 'col', 'query'|[...]) score a matched relationship exactly; CALL db.edge_embeddings.query({type:'T', text_property:'col', vector:$v | text:'query', top_k:10}) YIELD relationship, score, search_method ranks a whole store (HNSW once db.edge_embeddings.build_index has run; deleting an embedded relationship or an endpoint drops that index)"@
}

/// The hint on what can be asked, where a graph has a store.
pub open spec fn semantic_text(graph: DirGraph) -> Option<Text> {
    let nodes = graph.embeddings@.len() > 0;
    let relationships = graph.edge_embeddings@.len() > 0;
    if !nodes && !relationships {
        None
    } else {
        Some(
            "    <semantic hint=\""@ + (if nodes && relationships {
                node_semantic() + "; "@ + relationship_semantic()
            } else if nodes {
                node_semantic()
            } else {
                relationship_semantic()
            }) + "\"/>\n"@,
        )
    }
}

/// The hint on what can be asked of the vectors, where a graph has any store.
pub fn semantic_hint(graph: &DirGraph) -> (hint: Option<String>)
    ensures
        match hint {
            Some(text) => semantic_text(*graph) == Some(text@),
            None => semantic_text(*graph) is None,
        },
{
    let nodes = graph.embeddings.len() > 0;
    let relationships = graph.edge_embeddings.len() > 0;
    if !nodes && !relationships {
        return None;
    }
    let mut parts = String::new();
    assert(parts@ =~= Seq::<char>::empty());
    if nodes {
        parts.append(
            "text_score(n, 'col', 'query'|[0.1,0.2,...], metric) — similarity; a list query is scored as your query vector, a string query is embedded via set_embedder() (metric: 'cosine'|'poincare'|'dot_product'|'euclidean'); embedding_norm(n, 'col_emb') — L2 norm (hierarchy depth in Poincaré space)",
        );
        assert(parts@ =~= node_semantic());
        if relationships {
            parts.append("; ");
        }
    }
    if relationships {
        parts.append(
            "relationships: vector_score(r, 'col_emb', $v) / text_score(r, 'col', 'query'|[...]) score a matched relationship exactly; CALL db.edge_embeddings.query({type:'T', text_property:'col', vector:$v | text:'query', top_k:10}) YIELD relationship, score, search_method ranks a whole store (HNSW once db.edge_embeddings.build_index has run; deleting an embedded relationship or an endpoint drops that index)",
        );
        if !nodes {
            assert(parts@ =~= relationship_semantic());
        }
    }
    let mut hint = "    <semantic hint=\"".to_owned();
    hint.append(parts.as_str());
    hint.append("\"/>\n");
    Some(hint)
}

} // verus!
