//! What a refusal over an embedding store tells its reader: the store they
//! meant, and the call that remedies it.
//!
//! A store is reached through a method and through a procedure. A remedy is
//! spelled for the surface that was used.

use crate::graph::DirGraph;
use crate::inventory::EmbeddingEntity;
use crate::name_pairs::{
    columns_of_pairs, columns_under, holds_pair, listed_stores, name_order, pair_texts, stores_on,
    types_of_pairs, types_over, NamePair,
};
use crate::names::{column_of, store_name, store_name_of, text_column_of};
use crate::order::{ascending, ascending_of_items, ascends};
use crate::suggest::{did_you_mean, suggestion};
use crate::text::{
    decimal, insert_text, join, joined, push_number, text_order, text_order_is_order, texts, Text,
};
use vstd::prelude::*;

verus! {

/// The surface a refusal is raised through.
#[derive(Debug, Clone, Copy, PartialEq, Eq, Structural)]
pub enum Surface {
    /// A method.
    Method,
    /// A `db.*_embeddings.*` procedure.
    Cypher,
}

/// The procedures of an entity.
pub open spec fn family_of(entity: EmbeddingEntity) -> Text {
    match entity {
        EmbeddingEntity::Node => "db.node_embeddings"@,
        EmbeddingEntity::Relationship => "db.relationship_embeddings"@,
    }
}

fn procedure_family(entity: EmbeddingEntity) -> (family: &'static str)
    ensures
        family@ == family_of(entity),
{
    match entity {
        EmbeddingEntity::Node => "db.node_embeddings",
        EmbeddingEntity::Relationship => "db.relationship_embeddings",
    }
}

/// A procedure call over a type and a column.
pub open spec fn call_text(entity: EmbeddingEntity, name: Text, ty: Text, col: Text) -> Text {
    "CALL "@ + family_of(entity) + "."@ + name + "({type: '"@ + ty + "', text_column: '"@ + col
        + "'})"@
}

fn procedure_call(entity: EmbeddingEntity, name: &str, ty: &str, col: &str) -> (call: String)
    ensures
        call@ == call_text(entity, name@, ty@, col@),
{
    let mut call = "CALL ".to_owned();
    call.append(procedure_family(entity));
    call.append(".");
    call.append(name);
    call.append("({type: '");
    call.append(ty);
    call.append("', text_column: '");
    call.append(col);
    call.append("'})");
    call
}

/// A method call over a type and a column.
pub open spec fn method_text(name: Text, ty: Text, col: Text) -> Text {
    name + "('"@ + ty + "', '"@ + col + "')"@
}

fn method_call(name: &str, ty: &str, col: &str) -> (call: String)
    ensures
        call@ == method_text(name@, ty@, col@),
{
    let mut call = name.to_owned();
    call.append("('");
    call.append(ty);
    call.append("', '");
    call.append(col);
    call.append("')");
    call
}

/// The call that builds an index.
pub open spec fn build_text(
    surface: Surface,
    entity: EmbeddingEntity,
    ty: Text,
    col: Text,
) -> Text {
    match (surface, entity) {
        (Surface::Method, EmbeddingEntity::Node) => method_text("build_vector_index"@, ty, col),
        (Surface::Method, EmbeddingEntity::Relationship) => method_text(
            "build_relationship_vector_index"@,
            ty,
            col,
        ),
        (Surface::Cypher, _) => call_text(entity, "build_index"@, ty, col),
    }
}

/// The calls that write a store.
pub open spec fn write_text(
    surface: Surface,
    entity: EmbeddingEntity,
    ty: Text,
    col: Text,
) -> Text {
    match (surface, entity) {
        (Surface::Method, EmbeddingEntity::Node) => method_text("embed_texts"@, ty, col)
            + " or set_embeddings()"@,
        (Surface::Method, EmbeddingEntity::Relationship) => method_text(
            "embed_relationship_texts"@,
            ty,
            col,
        ) + " or set_relationship_embeddings()"@,
        (Surface::Cypher, _) => "CALL "@ + family_of(entity) + ".embed or "@ + family_of(entity)
            + ".set with {type: '"@ + ty + "', text_column: '"@ + col + "'}"@,
    }
}

/// How an entity's store is reached.
pub open spec fn reach_text(surface: Surface, entity: EmbeddingEntity) -> Text {
    match surface {
        Surface::Method => "pass entity='"@ + entity.text() + "' (or call the "@ + entity.text()
            + "_* method)"@,
        Surface::Cypher => "use "@ + family_of(entity) + ".*"@,
    }
}

impl Surface {
    /// The call that builds an index over a store.
    pub fn build_index(self, entity: EmbeddingEntity, ty: &str, col: &str) -> (call: String)
        ensures
            call@ == build_text(self, entity, ty@, col@),
    {
        match (self, entity) {
            (Surface::Method, EmbeddingEntity::Node) => method_call("build_vector_index", ty, col),
            (Surface::Method, EmbeddingEntity::Relationship) => method_call(
                "build_relationship_vector_index",
                ty,
                col,
            ),
            (Surface::Cypher, _) => procedure_call(entity, "build_index", ty, col),
        }
    }

    /// The calls that write a store.
    pub fn write_store(self, entity: EmbeddingEntity, ty: &str, col: &str) -> (calls: String)
        ensures
            calls@ == write_text(self, entity, ty@, col@),
    {
        match (self, entity) {
            (Surface::Method, EmbeddingEntity::Node) => {
                let mut calls = method_call("embed_texts", ty, col);
                calls.append(" or set_embeddings()");
                calls
            },
            (Surface::Method, EmbeddingEntity::Relationship) => {
                let mut calls = method_call("embed_relationship_texts", ty, col);
                calls.append(" or set_relationship_embeddings()");
                calls
            },
            (Surface::Cypher, _) => {
                let mut calls = "CALL ".to_owned();
                calls.append(procedure_family(entity));
                calls.append(".embed or ");
                calls.append(procedure_family(entity));
                calls.append(".set with {type: '");
                calls.append(ty);
                calls.append("', text_column: '");
                calls.append(col);
                calls.append("'}");
                calls
            },
        }
    }

    /// How an entity's store is reached.
    fn reach(self, entity: EmbeddingEntity) -> (way: String)
        ensures
            way@ == reach_text(self, entity),
    {
        match self {
            Surface::Method => {
                let mut way = "pass entity='".to_owned();
                way.append(entity.as_str());
                way.append("' (or call the ");
                way.append(entity.as_str());
                way.append("_* method)");
                way
            },
            Surface::Cypher => {
                let mut way = "use ".to_owned();
                way.append(procedure_family(entity));
                way.append(".*");
                way
            },
        }
    }
}

/// The other entity.
pub open spec fn other_of(entity: EmbeddingEntity) -> EmbeddingEntity {
    match entity {
        EmbeddingEntity::Node => EmbeddingEntity::Relationship,
        EmbeddingEntity::Relationship => EmbeddingEntity::Node,
    }
}

fn other(entity: EmbeddingEntity) -> (other: EmbeddingEntity)
    ensures
        other == other_of(entity),
{
    match entity {
        EmbeddingEntity::Node => EmbeddingEntity::Relationship,
        EmbeddingEntity::Relationship => EmbeddingEntity::Node,
    }
}

/// The types and text columns of an entity that have a store, in order.
pub open spec fn known_stores(graph: DirGraph, entity: EmbeddingEntity) -> Seq<(Text, Text)> {
    match entity {
        EmbeddingEntity::Node => stores_on(graph.embeddings@),
        EmbeddingEntity::Relationship => stores_on(graph.edge_embeddings@),
    }
}

/// The types and text columns of an entity that have a store, in order.
pub fn stores(graph: &DirGraph, entity: EmbeddingEntity) -> (pairs: Vec<NamePair>)
    ensures
        pair_texts(pairs@) == known_stores(*graph, entity),
        ascends(pair_texts(pairs@), name_order()),
{
    match entity {
        EmbeddingEntity::Node => listed_stores(&graph.embeddings),
        EmbeddingEntity::Relationship => listed_stores(&graph.edge_embeddings),
    }
}

/// The most stores that a tail lists.
pub const LISTED_STORES: usize = 12;

/// An entity's name at the start of a sentence.
pub open spec fn capital(entity: EmbeddingEntity) -> Text {
    match entity {
        EmbeddingEntity::Node => "Node"@,
        EmbeddingEntity::Relationship => "Relationship"@,
    }
}

fn capitalised(entity: EmbeddingEntity) -> (name: &'static str)
    ensures
        name@ == capital(entity),
{
    match entity {
        EmbeddingEntity::Node => "Node",
        EmbeddingEntity::Relationship => "Relationship",
    }
}

/// The tail for a store's name where its text column belongs.
pub open spec fn own_name_text(stripped: Text, col: Text) -> Text {
    " Did you mean '"@ + stripped + "'? The text column is '"@ + stripped + "'; '"@ + col
        + "' is the embedding store's own name."@
}

fn own_name_tail(stripped: &str, col: &str) -> (tail: String)
    ensures
        tail@ == own_name_text(stripped@, col@),
{
    let mut tail = " Did you mean '".to_owned();
    tail.append(stripped);
    tail.append("'? The text column is '");
    tail.append(stripped);
    tail.append("'; '");
    tail.append(col);
    tail.append("' is the embedding store's own name.");
    tail
}

/// A type and a column, with a dot between.
pub open spec fn dotted(pair: (Text, Text)) -> Text {
    pair.0 + "."@ + pair.1
}

/// The first stores, as many as a tail lists.
pub open spec fn listing_of(known: Seq<(Text, Text)>) -> Seq<Text> {
    Seq::new(
        if known.len() <= LISTED_STORES {
            known.len()
        } else {
            LISTED_STORES as nat
        },
        |i: int| dotted(known[i]),
    )
}

/// The tail that lists the stores.
pub open spec fn listed_text(entity: EmbeddingEntity, known: Seq<(Text, Text)>) -> Text {
    let listed = " "@ + capital(entity) + " embedding stores: "@ + joined(
        listing_of(known),
        ", "@,
    );
    if known.len() > LISTED_STORES {
        listed + " and "@ + decimal((known.len() - LISTED_STORES) as nat) + " more"@ + "."@
    } else {
        listed + "."@
    }
}

fn listed_tail(entity: EmbeddingEntity, known: &Vec<NamePair>) -> (tail: String)
    ensures
        tail@ == listed_text(entity, pair_texts(known@)),
{
    let mut parts: Vec<String> = Vec::new();
    let mut i: usize = 0;
    while i < known.len() && i < LISTED_STORES
        invariant
            i <= known@.len(),
            i <= LISTED_STORES,
            parts@.len() == i,
            forall|k: int|
                0 <= k < i ==> (#[trigger] parts@[k])@ == dotted(pair_texts(known@)[k]),
        decreases known@.len() - i,
    {
        let mut part = known[i].0.as_str().to_owned();
        part.append(".");
        part.append(known[i].1.as_str());
        parts.push(part);
        i = i + 1;
    }
    assert(texts(parts@) =~= listing_of(pair_texts(known@)));
    let list = join(&parts, ", ");
    let mut tail = " ".to_owned();
    tail.append(capitalised(entity));
    tail.append(" embedding stores: ");
    tail.append(list.as_str());
    if known.len() > LISTED_STORES {
        tail.append(" and ");
        push_number(&mut tail, known.len() - LISTED_STORES);
        tail.append(" more");
    }
    tail.append(".");
    tail
}

/// The tail for a store that does not exist: the most specific pointer that
/// can be given.
pub open spec fn store_hint_text(
    known: Seq<(Text, Text)>,
    elsewhere: Seq<(Text, Text)>,
    entity: EmbeddingEntity,
    ty: Text,
    col: Text,
    surface: Surface,
) -> Text {
    let columns = columns_under(known, ty, known.len());
    let types = types_over(known, col, known.len());
    if column_of(col) is Some && known.contains((ty, column_of(col)->0)) {
        own_name_text(column_of(col)->0, col)
    } else if elsewhere.contains((ty, col)) {
        " '"@ + ty + "."@ + col + "' is a "@ + other_of(entity).text()
            + " embedding store — "@ + reach_text(surface, other_of(entity)) + "."@
    } else if suggestion(col, columns).len() > 0 {
        suggestion(col, columns)
    } else if suggestion(ty, types).len() > 0 {
        suggestion(ty, types)
    } else if columns.len() > 0 {
        " "@ + capital(entity) + " embedding stores of '"@ + ty + "': "@ + joined(columns, ", "@)
            + "."@
    } else if known.len() == 0 {
        Seq::empty()
    } else {
        listed_text(entity, known)
    }
}

/// The tail for a store that does not exist, empty where there is nothing to
/// point at.
pub fn missing_store_hint(
    graph: &DirGraph,
    entity: EmbeddingEntity,
    ty: &str,
    col: &str,
    surface: Surface,
) -> (tail: String)
    ensures
        tail@ == store_hint_text(
            known_stores(*graph, entity),
            known_stores(*graph, other_of(entity)),
            entity,
            ty@,
            col@,
            surface,
        ),
{
    let known = stores(graph, entity);
    if let Some(stripped) = text_column_of(col) {
        if holds_pair(&known, ty, stripped) {
            return own_name_tail(stripped, col);
        }
    }
    let other_entity = other(entity);
    let elsewhere = stores(graph, other_entity);
    if holds_pair(&elsewhere, ty, col) {
        let mut tail = " '".to_owned();
        tail.append(ty);
        tail.append(".");
        tail.append(col);
        tail.append("' is a ");
        tail.append(other_entity.as_str());
        tail.append(" embedding store — ");
        let way = surface.reach(other_entity);
        tail.append(way.as_str());
        tail.append(".");
        return tail;
    }
    let columns = columns_of_pairs(&known, ty);
    let near = did_you_mean(col, &columns);
    if !near.as_str().is_empty() {
        return near;
    }
    let types = types_of_pairs(&known, col);
    let near_type = did_you_mean(ty, &types);
    if !near_type.as_str().is_empty() {
        return near_type;
    }
    if columns.len() > 0 {
        let mut tail = " ".to_owned();
        tail.append(capitalised(entity));
        tail.append(" embedding stores of '");
        tail.append(ty);
        tail.append("': ");
        let list = join(&columns, ", ");
        tail.append(list.as_str());
        tail.append(".");
        return tail;
    }
    if known.len() == 0 {
        return String::new();
    }
    listed_tail(entity, &known)
}

/// The columns of the first `count` pairs.
pub open spec fn columns_in(pairs: Seq<(Text, Text)>, count: int) -> Set<Text> {
    Set::new(|c: Text| exists|i: int| 0 <= i < count && (#[trigger] pairs[i]).1 == c)
}

fn distinct_columns(pairs: &Vec<NamePair>) -> (columns: Vec<String>)
    ensures
        texts(columns@) == ascending(
            columns_in(pair_texts(pairs@), pairs@.len() as int),
            text_order(),
        ),
{
    let mut columns: Vec<String> = Vec::new();
    assert(texts(columns@).to_set() =~= columns_in(pair_texts(pairs@), 0));
    let mut i: usize = 0;
    while i < pairs.len()
        invariant
            i <= pairs@.len(),
            ascends(texts(columns@), text_order()),
            texts(columns@).to_set() == columns_in(pair_texts(pairs@), i as int),
        decreases pairs@.len() - i,
    {
        insert_text(&mut columns, pairs[i].1.as_str());
        proof {
            let column = pair_texts(pairs@)[i as int].1;
            assert(columns_in(pair_texts(pairs@), i + 1) =~= columns_in(
                pair_texts(pairs@),
                i as int,
            ).insert(column)) by {
                assert forall|c: Text|
                    columns_in(pair_texts(pairs@), i + 1).contains(c) <==> columns_in(
                        pair_texts(pairs@),
                        i as int,
                    ).insert(column).contains(c) by {
                    if c == column {
                        assert(pair_texts(pairs@)[i as int].1 == c);
                    }
                }
            }
        }
        i = i + 1;
    }
    proof {
        text_order_is_order();
        ascending_of_items(texts(columns@), text_order());
    }
    columns
}

/// The tail for a text column that no store carries under any type.
pub open spec fn column_hint_text(
    known: Seq<(Text, Text)>,
    elsewhere: Seq<(Text, Text)>,
    entity: EmbeddingEntity,
    col: Text,
    surface: Surface,
) -> Text {
    let columns = ascending(columns_in(known, known.len() as int), text_order());
    let types = types_over(elsewhere, col, elsewhere.len());
    if column_of(col) is Some && columns_in(known, known.len() as int).contains(column_of(col)->0) {
        own_name_text(column_of(col)->0, col)
    } else if types.len() > 0 {
        " '"@ + col + "' is a "@ + other_of(entity).text() + " embedding store (on "@ + joined(
            types,
            ", "@,
        ) + ") — "@ + reach_text(surface, other_of(entity)) + "."@
    } else if suggestion(col, columns).len() > 0 {
        suggestion(col, columns)
    } else if columns.len() == 0 {
        Seq::empty()
    } else {
        " "@ + capital(entity) + " embedding text columns: "@ + joined(columns, ", "@) + "."@
    }
}

fn lists_column(pairs: &Vec<NamePair>, column: &str) -> (lists: bool)
    ensures
        lists == columns_in(pair_texts(pairs@), pairs@.len() as int).contains(column@),
{
    let mut i: usize = 0;
    while i < pairs.len()
        invariant
            i <= pairs@.len(),
            forall|k: int| 0 <= k < i ==> (#[trigger] pair_texts(pairs@)[k]).1 != column@,
        decreases pairs@.len() - i,
    {
        if crate::text::text_eq(pairs[i].1.as_str(), column) {
            assert(pair_texts(pairs@)[i as int].1 == column@);
            return true;
        }
        i = i + 1;
    }
    false
}

/// The tail for a text column that no store of the entity carries under any
/// type, empty where there is nothing to point at.
pub fn missing_column_hint(
    graph: &DirGraph,
    entity: EmbeddingEntity,
    col: &str,
    surface: Surface,
) -> (tail: String)
    ensures
        tail@ == column_hint_text(
            known_stores(*graph, entity),
            known_stores(*graph, other_of(entity)),
            entity,
            col@,
            surface,
        ),
{
    let known = stores(graph, entity);
    if let Some(stripped) = text_column_of(col) {
        if lists_column(&known, stripped) {
            return own_name_tail(stripped, col);
        }
    }
    let other_entity = other(entity);
    let elsewhere = stores(graph, other_entity);
    let types = types_of_pairs(&elsewhere, col);
    if types.len() > 0 {
        let mut tail = " '".to_owned();
        tail.append(col);
        tail.append("' is a ");
        tail.append(other_entity.as_str());
        tail.append(" embedding store (on ");
        let list = join(&types, ", ");
        tail.append(list.as_str());
        tail.append(") — ");
        let way = surface.reach(other_entity);
        tail.append(way.as_str());
        tail.append(".");
        return tail;
    }
    let columns = distinct_columns(&known);
    let near = did_you_mean(col, &columns);
    if !near.as_str().is_empty() {
        return near;
    }
    if columns.len() == 0 {
        return String::new();
    }
    let mut tail = " ".to_owned();
    tail.append(capitalised(entity));
    tail.append(" embedding text columns: ");
    let list = join(&columns, ", ");
    tail.append(list.as_str());
    tail.append(".");
    tail
}

/// The refusal for a store that does not exist.
pub open spec fn missing_store_text(
    graph: DirGraph,
    entity: EmbeddingEntity,
    ty: Text,
    col: Text,
    surface: Surface,
) -> Text {
    "No "@ + entity.text() + " embedding store '"@ + ty + "."@ + col + "'."@ + store_hint_text(
        known_stores(graph, entity),
        known_stores(graph, other_of(entity)),
        entity,
        ty,
        col,
        surface,
    )
}

/// The refusal for a store that does not exist.
pub fn missing_store_error(
    graph: &DirGraph,
    entity: EmbeddingEntity,
    ty: &str,
    col: &str,
    surface: Surface,
) -> (message: String)
    ensures
        message@ == missing_store_text(*graph, entity, ty@, col@, surface),
{
    let mut message = "No ".to_owned();
    message.append(entity.as_str());
    message.append(" embedding store '");
    message.append(ty);
    message.append(".");
    message.append(col);
    message.append("'.");
    let tail = missing_store_hint(graph, entity, ty, col, surface);
    message.append(tail.as_str());
    message
}

/// The refusal for a refresh with no index to fold into.
pub open spec fn no_index_text(
    entity: EmbeddingEntity,
    ty: Text,
    col: Text,
    surface: Surface,
) -> Text {
    "no vector index on "@ + match entity {
        EmbeddingEntity::Node => Seq::empty(),
        EmbeddingEntity::Relationship => "relationship store "@,
    } + "'"@ + ty + "."@ + store_name_of(col) + "' to refresh — none was built, or "@ + match entity {
        EmbeddingEntity::Node => "a delete of an embedded node"@,
        EmbeddingEntity::Relationship => "a delete of an embedded relationship or an endpoint"@,
    } + " (or a vacuum()) dropped it. Build one with "@ + build_text(surface, entity, ty, col)
        + "."@
}

/// The refusal for a refresh with no index to fold into.
pub fn no_index_to_refresh(
    entity: EmbeddingEntity,
    ty: &str,
    col: &str,
    surface: Surface,
) -> (message: String)
    ensures
        message@ == no_index_text(entity, ty@, col@, surface),
{
    let mut message = "no vector index on ".to_owned();
    match entity {
        EmbeddingEntity::Node => {
            assert("no vector index on "@ + Seq::empty() =~= "no vector index on "@);
        },
        EmbeddingEntity::Relationship => {
            message.append("relationship store ");
        },
    }
    message.append("'");
    message.append(ty);
    message.append(".");
    let store = store_name(col);
    message.append(store.as_str());
    message.append("' to refresh — none was built, or ");
    match entity {
        EmbeddingEntity::Node => {
            message.append("a delete of an embedded node");
        },
        EmbeddingEntity::Relationship => {
            message.append("a delete of an embedded relationship or an endpoint");
        },
    }
    message.append(" (or a vacuum()) dropped it. Build one with ");
    let call = surface.build_index(entity, ty, col);
    message.append(call.as_str());
    message.append(".");
    message
}

} // verus!
