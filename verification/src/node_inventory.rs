//! Listing node stores, and suggesting one where a column names none.

use crate::catalog::{kept, EntryModel};
use crate::graph::DirGraph;
use crate::metric::metric_or_cosine;
use crate::names::{column_of, column_or_name, listed_column, store_name, store_name_of, text_column_of};
use crate::order::{ascending, ascending_of_items, ascends};
use crate::store::StoreModel;
use crate::suggest::{did_you_mean, suggestion};
use crate::text::{
    insert_text, join, joined, text_eq, text_order, text_order_is_order, texts, Text,
};
use vstd::prelude::*;

verus! {

/// One node store.
#[derive(Debug, Clone, PartialEq, Eq)]
pub struct EmbeddingStoreInfo {
    /// The node type.
    pub node_type: String,
    /// The column the vectors are of.
    pub text_column: String,
    /// The store's name.
    pub store_name: String,
    /// The numbers in a vector.
    pub dimension: usize,
    /// The vectors in the store.
    pub count: usize,
    /// The metric the vectors are scored under.
    pub metric: String,
}

/// What is listed of a store.
pub struct NodeStoreModel {
    pub node_type: Text,
    pub text_column: Text,
    pub store_name: Text,
    pub dimension: usize,
    pub count: nat,
    pub metric: Text,
}

impl View for EmbeddingStoreInfo {
    type V = NodeStoreModel;

    open spec fn view(&self) -> NodeStoreModel {
        NodeStoreModel {
            node_type: self.node_type@,
            text_column: self.text_column@,
            store_name: self.store_name@,
            dimension: self.dimension,
            count: self.count as nat,
            metric: self.metric@,
        }
    }
}

/// What is listed of an entry.
pub open spec fn listed_entry(entry: EntryModel<StoreModel>) -> NodeStoreModel {
    NodeStoreModel {
        node_type: entry.owner_type,
        text_column: listed_column(entry.name),
        store_name: entry.name,
        dimension: entry.store.dimension,
        count: entry.store.nodes.len(),
        metric: metric_or_cosine(entry.store.metric),
    }
}

/// What a listing says.
pub open spec fn info_rows(rows: Seq<EmbeddingStoreInfo>) -> Seq<NodeStoreModel> {
    Seq::new(rows.len(), |i: int| rows[i]@)
}

/// Every node store, in the order the graph keeps them.
pub fn list_embeddings(graph: &DirGraph) -> (rows: Vec<EmbeddingStoreInfo>)
    ensures
        info_rows(rows@) == Seq::new(
            graph.embeddings@.len(),
            |i: int| listed_entry(graph.embeddings@[i]),
        ),
{
    let mut rows: Vec<EmbeddingStoreInfo> = Vec::new();
    let mut i: usize = 0;
    while i < graph.embeddings.entries.len()
        invariant
            i <= graph.embeddings.entries@.len(),
            rows@.len() == i,
            forall|k: int|
                0 <= k < i ==> (#[trigger] rows@[k])@ == listed_entry(graph.embeddings@[k]),
        decreases graph.embeddings.entries@.len() - i,
    {
        let entry = &graph.embeddings.entries[i];
        assert(graph.embeddings@[i as int] == (EntryModel {
            owner_type: entry.owner_type@,
            name: entry.name@,
            store: entry.store@,
        }));
        rows.push(
            EmbeddingStoreInfo {
                node_type: entry.owner_type.as_str().to_owned(),
                text_column: column_or_name(entry.name.as_str()),
                store_name: entry.name.as_str().to_owned(),
                dimension: entry.store.dimension,
                count: entry.store.len(),
                metric: match &entry.store.metric {
                    Some(name) => name.as_str().to_owned(),
                    None => "cosine".to_owned(),
                },
            },
        );
        i = i + 1;
    }
    assert(info_rows(rows@) =~= Seq::new(
        graph.embeddings@.len(),
        |i: int| listed_entry(graph.embeddings@[i]),
    ));
    rows
}

/// The columns that the first `count` stores have on any of the types.
pub open spec fn columns_on<V>(
    entries: Seq<EntryModel<V>>,
    node_types: Seq<Text>,
    count: int,
) -> Set<Text> {
    Set::new(
        |c: Text|
            exists|i: int|
                0 <= i < count && node_types.contains((#[trigger] entries[i]).owner_type)
                    && listed_column(entries[i].name) == c,
    )
}

/// The columns with a store on any of the types, each once and in order.
pub open spec fn embedded_columns(graph: DirGraph, node_types: Seq<Text>) -> Seq<Text> {
    ascending(
        columns_on(graph.embeddings@, node_types, graph.embeddings@.len() as int),
        text_order(),
    )
}

/// Whether a text is among others.
pub(crate) fn holds_text(items: &Vec<String>, item: &str) -> (holds: bool)
    ensures
        holds == texts(items@).contains(item@),
{
    let mut i: usize = 0;
    while i < items.len()
        invariant
            i <= items@.len(),
            forall|k: int| 0 <= k < i ==> texts(items@)[k] != item@,
        decreases items@.len() - i,
    {
        if text_eq(items[i].as_str(), item) {
            assert(texts(items@)[i as int] == item@);
            return true;
        }
        i = i + 1;
    }
    false
}

/// The columns with a store on any of the types, each once and in order.
pub fn embedded_text_columns(graph: &DirGraph, node_types: &Vec<String>) -> (columns: Vec<String>)
    ensures
        texts(columns@) == embedded_columns(*graph, texts(node_types@)),
{
    let ghost entries = graph.embeddings@;
    let ghost types = texts(node_types@);
    let mut columns: Vec<String> = Vec::new();
    assert(texts(columns@) =~= Seq::<Text>::empty());
    assert(texts(columns@).to_set() =~= columns_on(entries, types, 0));
    let mut i: usize = 0;
    while i < graph.embeddings.entries.len()
        invariant
            i <= graph.embeddings.entries@.len(),
            entries == graph.embeddings@,
            types == texts(node_types@),
            ascends(texts(columns@), text_order()),
            texts(columns@).to_set() == columns_on(entries, types, i as int),
        decreases graph.embeddings.entries@.len() - i,
    {
        let entry = &graph.embeddings.entries[i];
        let ghost before = columns_on(entries, types, i as int);
        assert(entries[i as int].owner_type == entry.owner_type@);
        assert(entries[i as int].name == entry.name@);
        if holds_text(node_types, entry.owner_type.as_str()) {
            let column = column_or_name(entry.name.as_str());
            insert_text(&mut columns, column.as_str());
            assert(columns_on(entries, types, i + 1) =~= before.insert(column@));
        } else {
            assert(columns_on(entries, types, i + 1) =~= before);
        }
        i = i + 1;
    }
    proof {
        text_order_is_order();
        ascending_of_items(texts(columns@), text_order());
    }
    columns
}

/// Whether one of the types has a store for a column.
pub open spec fn stored_on(graph: DirGraph, node_types: Seq<Text>, column: Text) -> bool {
    exists|i: int|
        0 <= i < node_types.len() && kept(
            graph.embeddings@,
            #[trigger] node_types[i],
            store_name_of(column),
        )
}

/// What to try in place of a column without a store: the column of a store's own
/// name, a column that is spelled nearly so, or the columns there are.
pub open spec fn unknown_column_text(
    graph: DirGraph,
    node_types: Seq<Text>,
    text_column: Text,
    caller: Text,
) -> Text {
    let columns = embedded_columns(graph, node_types);
    if column_of(text_column) is Some && stored_on(graph, node_types, column_of(text_column)->0) {
        " Did you mean '"@ + column_of(text_column)->0 + "'? "@ + caller
            + " takes the text column; '"@ + text_column
            + "' is the embedding store's own name."@
    } else if suggestion(text_column, columns).len() > 0 {
        suggestion(text_column, columns)
    } else if columns.len() == 0 {
        Seq::empty()
    } else {
        " Embedded text columns: "@ + joined(columns, ", "@) + "."@
    }
}

/// What to try in place of a column without a store on any of the types.
/// `caller` is the call that took the column.
pub fn unknown_column_hint(
    graph: &DirGraph,
    node_types: &Vec<String>,
    text_column: &str,
    caller: &str,
) -> (hint: String)
    ensures
        hint@ == unknown_column_text(*graph, texts(node_types@), text_column@, caller@),
{
    let ghost types = texts(node_types@);
    if let Some(stripped) = text_column_of(text_column) {
        let name = store_name(stripped);
        let mut stored = false;
        let mut i: usize = 0;
        while i < node_types.len() && !stored
            invariant
                i <= node_types@.len(),
                types == texts(node_types@),
                name@ == store_name_of(stripped@),
                stored ==> stored_on(*graph, types, stripped@),
                !stored ==> forall|k: int|
                    0 <= k < i ==> !kept(
                        graph.embeddings@,
                        #[trigger] types[k],
                        store_name_of(stripped@),
                    ),
            decreases node_types@.len() - i + if stored {
                0int
            } else {
                1int
            },
        {
            assert(types[i as int] == node_types@[i as int]@);
            if graph.embeddings.contains(node_types[i].as_str(), name.as_str()) {
                stored = true;
            }
            i = i + 1;
        }
        if stored {
            let mut hint = " Did you mean '".to_owned();
            hint.append(stripped);
            hint.append("'? ");
            hint.append(caller);
            hint.append(" takes the text column; '");
            hint.append(text_column);
            hint.append("' is the embedding store's own name.");
            return hint;
        }
    }
    let columns = embedded_text_columns(graph, node_types);
    let tail = did_you_mean(text_column, &columns);
    if !tail.as_str().is_empty() {
        return tail;
    }
    assert(texts(columns@).len() == columns@.len());
    if columns.len() == 0 {
        return String::new();
    }
    let mut hint = " Embedded text columns: ".to_owned();
    hint.append(join(&columns, ", ").as_str());
    hint.append(".");
    hint
}

} // verus!
