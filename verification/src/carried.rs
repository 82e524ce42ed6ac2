//! Whether the relationships of a type carry a text property.

use crate::catalog::kept;
use crate::graph::DirGraph;
use crate::names::{store_name, store_name_of};
use crate::order::{ascending, ascending_of_items, ascends};
use crate::text::{
    insert_text, join, joined, text_eq, text_order, text_order_is_order, texts, Text,
};
use crate::topology::{property_in, EdgeRecord, Property};
use vstd::prelude::*;

verus! {

/// Whether one of the first `count` slots holds a relationship of the type with
/// the property.
pub open spec fn property_carried(
    edges: Seq<Option<EdgeRecord>>,
    connection_type: Text,
    property: Text,
    count: int,
) -> bool {
    exists|i: int|
        0 <= i < count && (#[trigger] edges[i]) is Some && edges[i]->0.data.connection_type@
            == connection_type && property_in(edges[i]->0.data.properties@, property) is Some
}

/// The names of properties.
pub open spec fn names_in(properties: Seq<Property>) -> Set<Text> {
    Set::new(|c: Text| property_in(properties, c) is Some)
}

/// The properties that the relationships of a type carry in the first `count`
/// slots.
pub open spec fn carried_names(
    edges: Seq<Option<EdgeRecord>>,
    connection_type: Text,
    count: int,
) -> Set<Text> {
    Set::new(|c: Text| property_carried(edges, connection_type, c, count))
}

/// The refusal of a text property that no relationship of the type carries.
/// `noun` is what the property is called.
pub open spec fn uncarried_text(
    noun: Text,
    connection_type: Text,
    property: Text,
    carried: Seq<Text>,
) -> Text {
    let refusal = "Text "@ + noun + " '"@ + property + "' not found on any '"@ + connection_type
        + "' relationship. text_column names the relationship property holding the text (e.g. 'context'), not the embedding store name."@;
    if carried.len() == 0 {
        refusal
    } else {
        refusal + " '"@ + connection_type + "' relationships carry: "@ + joined(carried, ", "@)
            + "."@
    }
}

/// Why a store may not be made: it does not exist yet, and no relationship of
/// the type carries its text property.
pub open spec fn carried_fault(
    graph: DirGraph,
    noun: Text,
    connection_type: Text,
    property: Text,
) -> Option<Text> {
    let edges = graph.topology.edges@;
    if kept(graph.edge_embeddings@, connection_type, store_name_of(property)) || property_carried(
        edges,
        connection_type,
        property,
        edges.len() as int,
    ) {
        None
    } else {
        Some(
            uncarried_text(
                noun,
                connection_type,
                property,
                ascending(
                    carried_names(edges, connection_type, edges.len() as int),
                    text_order(),
                ),
            ),
        )
    }
}

proof fn a_named_property_is_held(properties: Seq<Property>, at: int)
    requires
        0 <= at < properties.len(),
    ensures
        property_in(properties, properties[at].name@) is Some,
    decreases properties.len(),
{
    if properties[0].name@ != properties[at].name@ {
        assert(properties.drop_first()[at - 1] == properties[at]);
        a_named_property_is_held(properties.drop_first(), at - 1);
    }
}

proof fn a_held_property_is_named(properties: Seq<Property>, name: Text)
    requires
        property_in(properties, name) is Some,
    ensures
        exists|j: int| 0 <= j < properties.len() && (#[trigger] properties[j]).name@ == name,
    decreases properties.len(),
{
    if properties[0].name@ != name {
        a_held_property_is_named(properties.drop_first(), name);
        let j = choose|j: int|
            0 <= j < properties.drop_first().len() && (#[trigger] properties.drop_first()[j]).name@
                == name;
        assert(properties[j + 1].name@ == name);
    } else {
        assert(properties[0].name@ == name);
    }
}

fn insert_property_names(names: &mut Vec<String>, properties: &Vec<Property>)
    requires
        ascends(texts(old(names)@), text_order()),
    ensures
        ascends(texts(final(names)@), text_order()),
        texts(final(names)@).to_set() == texts(old(names)@).to_set().union(names_in(properties@)),
{
    let ghost before = texts(names@).to_set();
    let mut j: usize = 0;
    while j < properties.len()
        invariant
            j <= properties@.len(),
            ascends(texts(names@), text_order()),
            before.subset_of(texts(names@).to_set()),
            texts(names@).to_set().subset_of(before.union(names_in(properties@))),
            forall|k: int|
                0 <= k < j ==> texts(names@).to_set().contains((#[trigger] properties@[k]).name@),
        decreases properties@.len() - j,
    {
        proof {
            a_named_property_is_held(properties@, j as int);
        }
        insert_text(names, properties[j].name.as_str());
        j = j + 1;
    }
    proof {
        let after = texts(names@).to_set();
        assert(after =~= before.union(names_in(properties@))) by {
            assert forall|c: Text| names_in(properties@).contains(c) implies after.contains(c) by {
                a_held_property_is_named(properties@, c);
                let k = choose|k: int|
                    0 <= k < properties@.len() && (#[trigger] properties@[k]).name@ == c;
                assert(after.contains(properties@[k].name@));
            }
        }
    }
}

/// Refuses a store for a text property that no relationship of the type
/// carries; a store that exists is accepted. `noun` is what the property is
/// called.
pub(crate) fn require_carried(
    graph: &DirGraph,
    noun: &str,
    connection_type: &str,
    text_property: &str,
) -> (result: Result<(), String>)
    ensures
        match result {
            Ok(_) => carried_fault(*graph, noun@, connection_type@, text_property@) is None,
            Err(message) => carried_fault(*graph, noun@, connection_type@, text_property@) == Some(
                message@,
            ),
        },
{
    let name = store_name(text_property);
    if graph.edge_embeddings.contains(connection_type, name.as_str()) {
        return Ok(());
    }
    let ghost edges = graph.topology.edges@;
    let mut carried: Vec<String> = Vec::new();
    assert(texts(carried@).to_set() =~= carried_names(edges, connection_type@, 0));
    let mut i: usize = 0;
    while i < graph.topology.edges.len()
        invariant
            i <= graph.topology.edges@.len(),
            edges == graph.topology.edges@,
            !property_carried(edges, connection_type@, text_property@, i as int),
            ascends(texts(carried@), text_order()),
            texts(carried@).to_set() == carried_names(edges, connection_type@, i as int),
        decreases graph.topology.edges@.len() - i,
    {
        let ghost before = texts(carried@).to_set();
        match &graph.topology.edges[i] {
            Some(record) => {
                if text_eq(record.data.connection_type.as_str(), connection_type) {
                    if record.data.get_property(text_property).is_some() {
                        assert(edges[i as int] is Some);
                        return Ok(());
                    }
                    insert_property_names(&mut carried, &record.data.properties);
                }
            },
            None => {},
        }
        proof {
            assert(texts(carried@).to_set() =~= carried_names(edges, connection_type@, i + 1)) by {
                assert forall|c: Text|
                    texts(carried@).to_set().contains(c) <==> carried_names(
                        edges,
                        connection_type@,
                        i + 1,
                    ).contains(c) by {
                    assert(before.contains(c) <==> property_carried(
                        edges,
                        connection_type@,
                        c,
                        i as int,
                    ));
                    if property_carried(edges, connection_type@, c, i as int) {
                        let k = choose|k: int|
                            0 <= k < i && (#[trigger] edges[k]) is Some
                                && edges[k]->0.data.connection_type@ == connection_type@
                                && property_in(edges[k]->0.data.properties@, c) is Some;
                        assert(edges[k] is Some);
                    }
                    if texts(carried@).to_set().contains(c) && !before.contains(c) {
                        assert(edges[i as int] is Some);
                    }
                }
            }
        }
        i = i + 1;
    }
    proof {
        text_order_is_order();
        ascending_of_items(texts(carried@), text_order());
    }
    let mut message = "Text ".to_owned();
    message.append(noun);
    message.append(" '");
    message.append(text_property);
    message.append("' not found on any '");
    message.append(connection_type);
    message.append(
        "' relationship. text_column names the relationship property holding the text (e.g. 'context'), not the embedding store name.",
    );
    if carried.len() > 0 {
        message.append(" '");
        message.append(connection_type);
        message.append("' relationships carry: ");
        let list = join(&carried, ", ");
        message.append(list.as_str());
        message.append(".");
    }
    Err(message)
}

/// Refuses a store for a text property that no relationship of the type
/// carries; a store that exists is accepted.
pub fn require_carried_text_property(
    graph: &DirGraph,
    connection_type: &str,
    text_property: &str,
) -> (result: Result<(), String>)
    ensures
        match result {
            Ok(_) => carried_fault(*graph, "property"@, connection_type@, text_property@) is None,
            Err(message) => carried_fault(
                *graph,
                "property"@,
                connection_type@,
                text_property@,
            ) == Some(message@),
        },
{
    require_carried(graph, "property", connection_type, text_property)
}

} // verus!
