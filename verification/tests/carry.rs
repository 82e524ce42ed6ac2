//! Relationship embedding carry: identity by endpoint ids, parallel groups by
//! a named key, and refusals by name.

use kglite::carry::{extract_edge_stores, validate_carried_edge_stores};
use kglite::carry_install::{install_edge_stores, RelationshipCarryStats};
use kglite::carry_resolve::resolve_edge_stores;
use kglite::edge_store::{edge_store_key, EdgeEmbeddingStore};
use kglite::edge_writes::upsert_edge_embeddings;
use kglite::graph::DirGraph;
use kglite::groups::RelationshipKeys;
use kglite::node_ingest::set_embeddings;
use kglite::recording::Recording;
use kglite::topology::{EdgeData, NodeData, Property};
use kglite::value::{EdgeIndex, NodeIndex, Value};

fn bits(numbers: &[f32]) -> Vec<u32> {
    numbers.iter().map(|n| n.to_bits()).collect()
}

fn store_of<'a>(graph: &'a DirGraph, ty: &str, column: &str) -> &'a EdgeEmbeddingStore {
    let (ty, name) = edge_store_key(ty, column);
    graph.edge_embeddings.get(&ty, &name).expect("store")
}

fn docs(ids: &[i64]) -> DirGraph {
    let mut graph = DirGraph::new();
    for id in ids {
        graph.add_node(NodeData::new(Value::Int64(*id), Value::Null, "Doc", Vec::new()));
    }
    graph
}

fn doc(graph: &DirGraph, id: i64) -> NodeIndex {
    graph.lookup_by_id("Doc", &Value::Int64(id)).unwrap()
}

fn claim(graph: &mut DirGraph, from: i64, to: i64, properties: &[(&str, &str)]) -> EdgeIndex {
    let properties = properties
        .iter()
        .map(|(name, value)| Property {
            name: name.to_string(),
            value: Value::String(value.to_string()),
        })
        .collect();
    let (source, target) = (doc(graph, from), doc(graph, to));
    graph.add_relationship(source, target, EdgeData::new("CLAIMS", properties))
}

/// Docs 1, 2, 3; a singleton `CLAIMS` 1→2 (uid 's') and a parallel group of
/// two `CLAIMS` 1→3 (uids 'p1', 'p2'). `swapped` creates the parallel members
/// in the opposite order, so the target's slot order disagrees with the
/// source's.
fn graph(swapped: bool, uids: [&str; 2]) -> DirGraph {
    let mut graph = docs(&[1, 2, 3]);
    claim(&mut graph, 1, 2, &[("uid", "s"), ("text", "single")]);
    let order = if swapped { [1, 0] } else { [0, 1] };
    for i in order {
        let text = format!("t{i}");
        claim(&mut graph, 1, 3, &[("uid", uids[i]), ("text", &text)]);
    }
    graph
}

fn edge_by_uid(graph: &DirGraph, uid: &str) -> EdgeIndex {
    graph
        .topology
        .edges_of_type("CLAIMS")
        .into_iter()
        .find(|edge| {
            graph.topology.edge_weight(*edge).and_then(|w| w.get_property("uid"))
                == Some(&Value::String(uid.into()))
        })
        .unwrap_or_else(|| panic!("no CLAIMS edge with uid {uid}"))
}

/// A source store with a distinct vector, text hash per member, and a model id.
fn source() -> DirGraph {
    let mut graph = graph(false, ["p1", "p2"]);
    let mut store = EdgeEmbeddingStore::new(2, Some("cosine"));
    for (uid, vector, hash) in [
        ("s", [1.0, 0.0], 11),
        ("p1", [0.0, 1.0], 22),
        ("p2", [0.6, 0.8], 33),
    ] {
        store.install_wal_vector(edge_by_uid(&graph, uid), &bits(&vector), Some(hash));
    }
    store.set_model_id(Some("stub/model".into()));
    let (ty, name) = edge_store_key("CLAIMS", "text");
    graph.edge_embeddings.insert(&ty, &name, store);
    graph
}

fn keys() -> RelationshipKeys {
    let mut keys = RelationshipKeys::new();
    keys.insert("CLAIMS", "uid");
    keys
}

/// `(uid → (vector, hash))` for every stored member of the target store.
fn cells(graph: &DirGraph) -> Vec<(String, Vec<u32>, Option<u64>)> {
    let store = store_of(graph, "CLAIMS", "text");
    let mut out: Vec<_> = store
        .edges()
        .into_iter()
        .map(|edge| {
            let uid = match graph.topology.edge_weight(edge).unwrap().get_property("uid") {
                Some(Value::String(uid)) => uid.clone(),
                other => panic!("uid: {other:?}"),
            };
            (
                uid,
                store.get(edge).unwrap().to_vec(),
                store.text_hash(edge),
            )
        })
        .collect();
    out.sort_by(|a, b| a.0.cmp(&b.0));
    out
}

fn expected_cells() -> Vec<(String, Vec<u32>, Option<u64>)> {
    vec![
        ("p1".into(), bits(&[0.0, 1.0]), Some(22)),
        ("p2".into(), bits(&[0.6, 0.8]), Some(33)),
        ("s".into(), bits(&[1.0, 0.0]), Some(11)),
    ]
}

#[test]
fn a_parallel_group_without_a_key_is_refused_by_name() {
    let error = extract_edge_stores(&source(), &RelationshipKeys::new()).unwrap_err();
    assert!(error.contains("'CLAIMS.text'"), "{error}");
    assert!(
        error.contains("2 'CLAIMS' relationships connect (Doc id=1) to (Doc id=3)"),
        "{error}"
    );
    assert!(error.contains("relationship_keys"), "{error}");
}

#[test]
fn a_key_carries_each_member_to_its_twin_despite_swapped_order() {
    let src = source();
    let mut dst = graph(true, ["p1", "p2"]);
    // The swap is real: the first-created member differs between the graphs.
    assert_ne!(edge_by_uid(&src, "p1"), edge_by_uid(&dst, "p1"));

    let report = dst
        .copy_embeddings_with_relationships_from(&src, &keys())
        .unwrap();
    assert_eq!(
        report.relationships,
        RelationshipCarryStats {
            stores: 1,
            carried: 3,
            skipped: 0,
            dropped_stores: 0
        }
    );
    assert_eq!(cells(&dst), expected_cells());
    let store = store_of(&dst, "CLAIMS", "text");
    assert_eq!(store.model_id(), Some("stub/model"));
    assert_eq!(store.metric(), Some("cosine"));
}

#[test]
fn an_ambiguous_target_group_is_refused_before_anything_is_written() {
    let mut src = source();
    set_embeddings(
        &mut src,
        "Doc",
        "title",
        None,
        &vec![(Value::Int64(1), bits(&[1.0, 0.0]))],
    )
    .unwrap();
    // The target group repeats a key value, so the key cannot choose a member.
    let mut dst = graph(false, ["p1", "p1"]);
    let error = dst
        .copy_embeddings_with_relationships_from(&src, &keys())
        .unwrap_err();
    assert!(
        error.contains("2 'CLAIMS' relationships connect (Doc id=1) to (Doc id=3)"),
        "{error}"
    );
    assert!(error.contains("repeats the value"), "{error}");
    assert!(dst.edge_embeddings.is_empty());
    assert!(
        dst.embeddings.is_empty(),
        "no node store may be copied either"
    );
}

#[test]
fn a_keyless_vector_meeting_a_target_parallel_group_is_refused() {
    // Source: one CLAIMS 1→3 (a singleton, carried without a key).
    let mut src = docs(&[1, 3]);
    let only = claim(&mut src, 1, 3, &[("uid", "p1")]);
    upsert_edge_embeddings(
        &mut src,
        "CLAIMS",
        "text",
        &vec![(only, bits(&[1.0, 0.0]))],
        None,
    )
    .unwrap();
    let mut dst = graph(false, ["p1", "p2"]);
    let error = dst
        .copy_embeddings_with_relationships_from(&src, &RelationshipKeys::new())
        .unwrap_err();
    assert!(error.contains("names no key value"), "{error}");
    assert!(dst.edge_embeddings.is_empty());
}

#[test]
fn relationships_the_target_lacks_are_skipped_and_an_unmatched_store_dropped() {
    let src = source();
    let mut dst = docs(&[1, 2]);
    claim(&mut dst, 1, 2, &[("uid", "s")]);
    let report = dst
        .copy_embeddings_with_relationships_from(&src, &keys())
        .unwrap();
    assert_eq!(
        (report.relationships.carried, report.relationships.skipped),
        (1, 2)
    );

    let mut empty = docs(&[9]);
    let report = empty
        .copy_embeddings_with_relationships_from(&src, &keys())
        .unwrap();
    assert_eq!(
        report.relationships,
        RelationshipCarryStats {
            stores: 0,
            carried: 0,
            skipped: 3,
            dropped_stores: 1
        }
    );
    assert!(empty.edge_embeddings.is_empty());
}

/// What was extracted carries a store home, with its provenance, in three steps.
#[test]
fn extracted_stores_are_checked_resolved_and_installed() {
    let carried = extract_edge_stores(&source(), &keys()).unwrap();
    validate_carried_edge_stores(&carried).unwrap();
    let mut dst = graph(true, ["p1", "p2"]);
    dst.recording = Some(Recording::new(true));
    let resolved = resolve_edge_stores(&dst, carried, &keys()).unwrap();
    let stats = install_edge_stores(&mut dst, &resolved);
    assert_eq!((stats.stores, stats.carried, stats.skipped), (1, 3, 0));
    assert_eq!(cells(&dst), expected_cells());
    assert!(!dst.recording.as_ref().unwrap().ops.is_empty());
}

#[test]
fn a_malformed_carried_store_is_refused() {
    let mut carried = extract_edge_stores(&source(), &keys()).unwrap();
    carried[0].entries[0].vector = bits(&[1.0]);
    let error = validate_carried_edge_stores(&carried).unwrap_err();
    assert!(error.contains("CLAIMS.text"), "{error}");
    let mut carried = extract_edge_stores(&source(), &keys()).unwrap();
    carried[0].entries[1].vector = bits(&[f32::NAN, 0.0]);
    let error = validate_carried_edge_stores(&carried).unwrap_err();
    assert!(error.contains("finite"), "{error}");
}
