//! Carrying node vectors into a rebuilt graph.

use kglite::graph::DirGraph;
use kglite::store::EmbeddingStore;
use kglite::text_hash::text_hash;
use kglite::topology::{NodeData, Property};
use kglite::value::Value;

fn bits(numbers: &[f32]) -> Vec<u32> {
    numbers.iter().map(|n| n.to_bits()).collect()
}

fn graph_with_docs(ids: &[i64]) -> DirGraph {
    let mut g = DirGraph::new();
    for &id in ids {
        g.add_node(NodeData::new(
            Value::Int64(id),
            Value::String(format!("d{id}")),
            "Doc",
            Vec::new(),
        ));
    }
    g
}

/// A graph of chunks: `(id, chunk_hash)` pairs.
fn graph_with_chunks(chunks: &[(&str, &str)]) -> DirGraph {
    let mut g = DirGraph::new();
    for (id, hash) in chunks {
        g.add_node(NodeData::new(
            Value::String(id.to_string()),
            Value::String(id.to_string()),
            "Chunk",
            vec![Property {
                name: "chunk_hash".to_string(),
                value: Value::String(hash.to_string()),
            }],
        ));
    }
    g
}

fn store_over(g: &DirGraph, vectors: &[(&str, f32)]) -> EmbeddingStore {
    let mut store = EmbeddingStore::new(2);
    for (id, value) in vectors {
        let idx = g
            .lookup_by_id("Chunk", &Value::String(id.to_string()))
            .unwrap();
        store.set_embedding(idx.index(), &bits(&[*value, 0.0]));
        store.set_text_hash(idx.index(), text_hash(&format!("t{value}")));
    }
    store
}

fn vector_of(g: &DirGraph, id: &str) -> Option<Vec<f32>> {
    let store = g.embeddings.get("Chunk", "text_emb")?;
    let idx = g.lookup_by_id("Chunk", &Value::String(id.to_string()))?;
    store
        .get_embedding(idx.index())
        .map(|vector| vector.iter().map(|n| f32::from_bits(*n)).collect())
}

#[test]
fn copies_vectors_by_id_with_provenance() {
    let mut src = graph_with_docs(&[1, 2, 3]);
    let mut store = EmbeddingStore::new(2);
    store.model_id = Some("m/1".to_string());
    for &id in &[1i64, 2, 3] {
        let idx = src.lookup_by_id("Doc", &Value::Int64(id)).unwrap();
        store.set_embedding(idx.index(), &bits(&[id as f32, 0.0]));
        store.set_text_hash(idx.index(), text_hash(&format!("t{id}")));
    }
    src.embeddings.insert("Doc", "summary_emb", store);

    // Destination is a fresh rebuild missing id 3.
    let mut dst = graph_with_docs(&[1, 2]);
    let (stores, vectors, skipped) = dst.copy_embeddings_from(&src);
    assert_eq!((stores, vectors, skipped), (1, 2, 1));

    let dst_store = dst.embeddings.get("Doc", "summary_emb")
        .unwrap();
    assert_eq!(dst_store.dimension, 2);
    assert_eq!(dst_store.model_id.as_deref(), Some("m/1"));
    assert_eq!(dst_store.len(), 2);
    assert_eq!(dst_store.text_hashes.len(), 2);
    // The carried vector landed on the dst node with the matching id.
    let dst_idx = dst.lookup_by_id("Doc", &Value::Int64(2)).unwrap();
    assert_eq!(
        dst_store.get_embedding(dst_idx.index()),
        Some(&bits(&[2.0, 0.0])[..])
    );
}

#[test]
fn copying_no_stores_is_a_true_no_op() {
    let src = graph_with_docs(&[1]);
    let mut dst = graph_with_docs(&[1]);
    let before = dst.version();

    assert_eq!(dst.copy_embeddings_from(&src), (0, 0, 0));
    assert_eq!(dst.version(), before);
}

#[test]
fn a_vacuum_moves_each_vector_to_its_own_nodes_new_index() {
    let mut g = graph_with_docs(&[1, 2, 3, 4]);
    let mut store = EmbeddingStore::new(2);
    for &id in &[1i64, 2, 3, 4] {
        let idx = g.lookup_by_id("Doc", &Value::Int64(id)).unwrap();
        store.set_embedding(idx.index(), &bits(&[id as f32, 0.0]));
    }
    g.embeddings.insert("Doc", "summary_emb", store);

    // Delete the second node, leaving a tombstone for the vacuum to close.
    let victim = g.lookup_by_id("Doc", &Value::Int64(2)).unwrap();
    g.topology.nodes[victim.index()] = None;
    g.node_types[0].members.retain(|idx| *idx != victim);

    let remap = g.vacuum();
    assert_eq!(remap.slots.iter().filter(|to| **to != u32::MAX).count(), 3, "the rebuild must actually have happened");

    let store = g.embeddings.get("Doc", "summary_emb")
        .unwrap();
    assert_eq!(store.len(), 3, "the deleted node's vector must be dropped");
    for &id in &[1i64, 3, 4] {
        let idx = g.lookup_by_id("Doc", &Value::Int64(id)).unwrap();
        assert_eq!(
            store.get_embedding(idx.index()),
            Some(&bits(&[id as f32, 0.0])[..]),
            "doc {id} kept a vector that is not its own"
        );
    }
}

#[test]
fn a_chunk_that_only_moved_keeps_its_vector() {
    let mut old =
        graph_with_chunks(&[("n#A~chunk1", "hash-intro"), ("n#A~chunk2", "hash-body")]);
    let store = store_over(&old, &[("n#A~chunk1", 1.0), ("n#A~chunk2", 2.0)]);
    old.embeddings.insert("Chunk", "text_emb", store);

    // The rebuild: `## A` was renamed `## B`, and the body was edited.
    let mut new = graph_with_chunks(&[
        ("n#B~chunk1", "hash-intro"),
        ("n#B~chunk2", "hash-body-edited"),
    ]);
    let (stores, copied, skipped) = new.copy_embeddings_from(&old);
    assert_eq!((stores, copied, skipped), (1, 1, 1));
    assert_eq!(
        vector_of(&new, "n#B~chunk1"),
        Some(vec![1.0, 0.0]),
        "the intro is the same chunk under a new id"
    );
    assert_eq!(
        vector_of(&new, "n#B~chunk2"),
        None,
        "an edited chunk hashes differently and is re-embedded"
    );
    let store = new.embeddings.get("Chunk", "text_emb")
        .unwrap();
    let idx = new
        .lookup_by_id("Chunk", &Value::String("n#B~chunk1".to_string()))
        .unwrap();
    assert!(
        store.text_hashes.contains_key(&idx.index()),
        "the carried text hash is what keeps `mode=changed` from re-embedding it"
    );
}

#[test]
fn a_reused_id_still_wins_over_the_hash() {
    let mut old = graph_with_chunks(&[("n#A~chunk1", "hash-intro")]);
    let store = store_over(&old, &[("n#A~chunk1", 1.0)]);
    old.embeddings.insert("Chunk", "text_emb", store);
    let mut new = graph_with_chunks(&[
        ("n#A~chunk1", "hash-inserted"),
        ("n#A~chunk2", "hash-intro"),
    ]);
    let (_, copied, skipped) = new.copy_embeddings_from(&old);
    assert_eq!((copied, skipped), (1, 0));
    assert_eq!(vector_of(&new, "n#A~chunk1"), Some(vec![1.0, 0.0]));
    assert_eq!(vector_of(&new, "n#A~chunk2"), None);
}

#[test]
fn an_ambiguous_hash_carries_nothing() {
    let mut old = graph_with_chunks(&[("n#A~chunk1", "same"), ("n#B~chunk1", "same")]);
    let store = store_over(&old, &[("n#A~chunk1", 1.0), ("n#B~chunk1", 2.0)]);
    old.embeddings.insert("Chunk", "text_emb", store);
    let mut new = graph_with_chunks(&[("n#A~chunk2", "same"), ("n#B~chunk2", "same")]);
    let (_, copied, skipped) = new.copy_embeddings_from(&old);
    assert_eq!((copied, skipped), (0, 2));
}

#[test]
fn an_id_match_wins_over_a_hash_match() {
    let mut old = graph_with_chunks(&[("n#A~chunk1", "hash-a"), ("n#A~chunk2", "hash-b")]);
    let store = store_over(&old, &[("n#A~chunk1", 1.0), ("n#A~chunk2", 2.0)]);
    old.embeddings.insert("Chunk", "text_emb", store);
    // `~chunk1` kept its id but now holds what `~chunk2` used to say.
    let mut new = graph_with_chunks(&[("n#A~chunk1", "hash-b")]);
    let (_, copied, _) = new.copy_embeddings_from(&old);
    assert_eq!(copied, 1);
    assert_eq!(
        vector_of(&new, "n#A~chunk1"),
        Some(vec![1.0, 0.0]),
        "the id match stands; the hash match finds the node already filled"
    );
}

#[test]
fn without_chunk_hashes_nothing_changes() {
    let mut src = graph_with_docs(&[1, 2]);
    let mut store = EmbeddingStore::new(2);
    for &id in &[1i64, 2] {
        let idx = src.lookup_by_id("Doc", &Value::Int64(id)).unwrap();
        store.set_embedding(idx.index(), &bits(&[id as f32, 0.0]));
    }
    src.embeddings.insert("Doc", "summary_emb", store);
    let mut dst = graph_with_docs(&[1]);
    assert_eq!(dst.copy_embeddings_from(&src), (1, 1, 1));
}

/// A copy that brings a store bumps the version, so that a caller who compares
/// versions sees it.
#[test]
fn a_copy_bumps_the_version() {
    let mut src = graph_with_docs(&[1]);
    let idx = src.lookup_by_id("Doc", &Value::Int64(1)).unwrap();
    let mut store = EmbeddingStore::new(2);
    store.set_embedding(idx.index(), &bits(&[1.0, 2.0]));
    src.embeddings.insert("Doc", "summary_emb", store);
    let mut dst = graph_with_docs(&[1]);
    let before = dst.version();
    assert_eq!(dst.copy_embeddings_from(&src), (1, 1, 0));
    assert_eq!(dst.version(), before + 1);
    assert_eq!(
        dst.embeddings.get("Doc", "summary_emb").unwrap().get_embedding(idx.index()),
        Some(&bits(&[1.0, 2.0])[..])
    );
}
