//! Relationship text indexes: built, brought up to date, dropped and listed.

use crate::catalog::{
    a_dropped_store_is_gone, a_kept_store_is_found, kept, lookup, place_is_first, with_entry,
    without_entry, EntryModel,
};
use crate::freshness::{
    covering_model, outstanding, FreshnessModel, IndexFreshness, DEFAULT_AUTO_REFRESH_LIMIT,
};
use crate::graph::{bumped, type_registered, undo_of, undo_with, DirGraph};
use crate::name_pairs::{keys_kept, keys_on, listed_keys, listed_keys_are_kept, pair_texts};
use crate::recording::{UndoEntry, UndoModel};
use crate::statement::{mark_document, mark_documents_of_type, one_text_index_changed, texts_touched};
use crate::text::{decimal, push_number, str_option, text_eq, Text};
use crate::text_documents::{
    all_documents, build_over_type, members_upto, read_slot, slot_document, terms_upto,
    textless_upto,
};
use crate::text_index::{TextIndex, TextIndexStore, TextStoreModel};
use crate::topology::EdgeRecord;
use crate::value::EdgeIndex;
use vstd::prelude::*;

verus! {

/// The least changes for which documents are all read again.
pub const REBUILD_MIN_CHANGES: usize = 64;

/// The slots that are to be read again.
pub open spec fn delta_slots(freshness: FreshnessModel, bound: nat) -> Set<usize> {
    Set::new(
        |s: usize| freshness.changed.contains(s) || (freshness.covered <= s && s < bound),
    )
}

/// Whether reading a slot again may change a document.
pub open spec fn slot_matters(
    docs: Map<usize, Text>,
    edges: Seq<Option<EdgeRecord>>,
    rel_type: Text,
    slot: usize,
) -> bool {
    (slot < edges.len() && edges[slot as int] is Some
        && edges[slot as int]->0.data.connection_type@ == rel_type) || docs.contains_key(slot)
}

/// The slots that matter.
pub open spec fn changes_among(
    docs: Map<usize, Text>,
    edges: Seq<Option<EdgeRecord>>,
    rel_type: Text,
    slots: Set<usize>,
) -> Set<usize> {
    slots.filter(|s: usize| slot_matters(docs, edges, rel_type, s))
}

/// Whether it is less work to read every document than to fold the changes in.
pub open spec fn rebuild_pays(changes: nat, documents: nat) -> bool {
    changes >= REBUILD_MIN_CHANGES && changes >= documents / 2
}

fn rebuild_beats_folding(changes: usize, documents: usize) -> (pays: bool)
    ensures
        pays == rebuild_pays(changes as nat, documents as nat),
{
    changes >= REBUILD_MIN_CHANGES && changes >= documents / 2
}

/// The documents with some slots read again.
pub open spec fn folded(
    docs: Map<usize, Text>,
    edges: Seq<Option<EdgeRecord>>,
    rel_type: Text,
    field: Text,
    slots: Set<usize>,
) -> Map<usize, Text> {
    Map::new(
        |s: usize|
            if slots.contains(s) {
                slot_document(edges, s as int, rel_type, field) is Some
            } else {
                docs.contains_key(s)
            },
        |s: usize|
            if slots.contains(s) {
                slot_document(edges, s as int, rel_type, field)->0
            } else {
                docs[s]
            },
    )
}

/// Whether a refresh reads every document again.
pub open spec fn reads_all(
    store: TextStoreModel,
    edges: Seq<Option<EdgeRecord>>,
    rel_type: Text,
) -> bool {
    rebuild_pays(
        changes_among(
            store.docs,
            edges,
            rel_type,
            delta_slots(store.freshness, edges.len()),
        ).len(),
        store.docs.dom().len(),
    )
}

/// A text index brought up to date.
pub open spec fn text_refreshed(
    store: TextStoreModel,
    edges: Seq<Option<EdgeRecord>>,
    rel_type: Text,
) -> TextStoreModel {
    let all = reads_all(store, edges, rel_type);
    if outstanding(store.freshness, edges.len()) == 0 {
        store
    } else {
        TextStoreModel {
            docs: if all {
                all_documents(edges, rel_type, store.field)
            } else {
                folded(
                    store.docs,
                    edges,
                    rel_type,
                    store.field,
                    delta_slots(store.freshness, edges.len()),
                )
            },
            generation: bumped(store.generation),
            freshness: covering_model(edges.len() as usize, store.freshness.limit),
            skipped: if all {
                textless_upto(edges, rel_type, store.field, edges.len()) as usize
            } else {
                store.skipped
            },
            ..store
        }
    }
}

/// How many relationships a refresh reads.
pub open spec fn text_seen(
    store: TextStoreModel,
    edges: Seq<Option<EdgeRecord>>,
    rel_type: Text,
) -> nat {
    if outstanding(store.freshness, edges.len()) > 0 && reads_all(store, edges, rel_type) {
        members_upto(edges, rel_type, edges.len())
    } else {
        outstanding(store.freshness, edges.len())
    }
}

proof fn one_more_slot(
    docs: Map<usize, Text>,
    edges: Seq<Option<EdgeRecord>>,
    rel_type: Text,
    slots: Seq<usize>,
    at: int,
)
    requires
        0 <= at < slots.len(),
        slots.no_duplicates(),
    ensures
        slots.take(at + 1).to_set() == slots.take(at).to_set().insert(slots[at]),
        !slots.take(at).to_set().contains(slots[at]),
        changes_among(docs, edges, rel_type, slots.take(at).to_set()).finite(),
        changes_among(docs, edges, rel_type, slots.take(at + 1).to_set()).len() == changes_among(
            docs,
            edges,
            rel_type,
            slots.take(at).to_set(),
        ).len() + if slot_matters(docs, edges, rel_type, slots[at]) {
            1nat
        } else {
            0nat
        },
{
    let before = slots.take(at).to_set();
    let after = slots.take(at + 1).to_set();
    assert(slots.take(at + 1) =~= slots.take(at).push(slots[at]));
    assert(after =~= before.insert(slots[at])) by {
        broadcast use vstd::seq_lib::group_seq_properties;

    }
    if before.contains(slots[at]) {
        let k = slots.take(at).index_of(slots[at]);
        assert(slots[k] == slots[at]);
    }
    slots.take(at).lemma_cardinality_of_set();
    let p = |s: usize| slot_matters(docs, edges, rel_type, s);
    before.lemma_len_filter(p);
    let some = changes_among(docs, edges, rel_type, before);
    let more = changes_among(docs, edges, rel_type, after);
    if slot_matters(docs, edges, rel_type, slots[at]) {
        assert(more =~= some.insert(slots[at]));
        assert(!some.contains(slots[at]));
    } else {
        assert(more =~= some);
    }
}

impl TextIndexStore {
    /// The relationships in the index.
    pub fn documents(&self) -> (count: usize)
        ensures
            count == self@.docs.dom().len(),
    {
        self.index.total_docs()
    }

    /// The slots a query may fold in by itself.
    pub fn auto_refresh_limit(&self) -> (limit: usize)
        ensures
            limit == self@.freshness.limit,
    {
        self.freshness.limit
    }

    /// The slots that the next refresh reads.
    pub fn edge_delta_size(&self, graph: &DirGraph) -> (delta: usize)
        requires
            self.well_formed(),
            self.freshness.covered <= graph.topology.edges@.len(),
        ensures
            delta == outstanding(self@.freshness, graph.topology.edges@.len()),
    {
        self.freshness.delta_size(graph.topology.edges.len())
    }

    /// Whether relationships changed since the index was brought up to date.
    pub fn edge_is_stale(&self, graph: &DirGraph) -> (stale: bool)
        requires
            self.well_formed(),
            self.freshness.covered <= graph.topology.edges@.len(),
        ensures
            stale == (outstanding(self@.freshness, graph.topology.edges@.len()) > 0),
    {
        self.edge_delta_size(graph) > 0
    }

    /// Whether a query may bring the index up to date by itself.
    pub fn edge_can_auto_refresh(&self, graph: &DirGraph) -> (can: bool)
        requires
            self.well_formed(),
            self.freshness.covered <= graph.topology.edges@.len(),
        ensures
            can == (outstanding(self@.freshness, graph.topology.edges@.len())
                <= self@.freshness.limit),
    {
        self.edge_delta_size(graph) <= self.freshness.limit
    }

    fn outstanding_slots(&self, bound: usize) -> (slots: Vec<usize>)
        requires
            self.well_formed(),
            self.freshness.covered <= bound,
        ensures
            slots@.no_duplicates(),
            slots@.to_set() == delta_slots(self@.freshness, bound as nat),
            slots@.len() == outstanding(self@.freshness, bound as nat),
    {
        proof {
            self.freshness.changed_fits();
        }
        let mut slots = crate::node_store::copy_slots(&self.freshness.changed);
        let ghost changed = slots@;
        let mut next: usize = self.freshness.covered;
        while next < bound
            invariant
                self.well_formed(),
                self.freshness.covered <= next <= bound,
                changed == self.freshness.changed@,
                slots@.len() == changed.len() + (next - self.freshness.covered),
                forall|i: int| 0 <= i < changed.len() ==> slots@[i] == changed[i],
                forall|i: int|
                    changed.len() <= i < slots@.len() ==> #[trigger] slots@[i]
                        == self.freshness.covered + (i - changed.len()),
            decreases bound - next,
        {
            slots.push(next);
            next = next + 1;
        }
        proof {
            assert forall|i: int, j: int|
                0 <= i < slots@.len() && 0 <= j < slots@.len() && i != j implies slots@[i]
                != slots@[j] by {
                if i < changed.len() {
                    assert(self.freshness.changed@[i] < self.freshness.covered);
                }
                if j < changed.len() {
                    assert(self.freshness.changed@[j] < self.freshness.covered);
                }
            }
            let delta = delta_slots(self@.freshness, bound as nat);
            assert forall|s: usize| slots@.to_set().contains(s) <==> delta.contains(s) by {
                if slots@.to_set().contains(s) {
                    let i = slots@.index_of(s);
                    assert(slots@[i] == s);
                    if i < changed.len() {
                        assert(self.freshness.changed@.contains(s)) by {
                            assert(self.freshness.changed@[i] == s);
                        }
                    }
                }
                if delta.contains(s) {
                    if self.freshness.changed@.to_set().contains(s) {
                        let i = self.freshness.changed@.index_of(s);
                        assert(slots@[i] == s);
                    } else {
                        let i = changed.len() + (s - self.freshness.covered);
                        assert(slots@[i] == s);
                    }
                }
            }
            assert(slots@.to_set() =~= delta);
        }
        slots
    }

    /// Folds every outstanding change into the index, and says how many
    /// relationships were read. On a graph that may not change nothing is
    /// folded in.
    pub fn refresh_edges(&mut self, graph: &DirGraph, rel_type: &str) -> (seen: usize)
        requires
            old(self).well_formed(),
            old(self).freshness.covered <= graph.topology.edges@.len(),
        ensures
            final(self).well_formed(),
            final(self).freshness.covered <= graph.topology.edges@.len(),
            graph.read_only ==> seen == 0 && *final(self) == *old(self),
            !graph.read_only ==> {
                &&& final(self)@ == text_refreshed(
                    old(self)@,
                    graph.topology.edges@,
                    rel_type@,
                )
                &&& seen == text_seen(old(self)@, graph.topology.edges@, rel_type@)
            },
    {
        if graph.read_only {
            return 0;
        }
        let bound: usize = graph.topology.edges.len();
        let ghost edges = graph.topology.edges@;
        let ghost before = self@;
        let slots = self.outstanding_slots(bound);
        if slots.len() == 0 {
            return 0;
        }
        let mut changes: usize = 0;
        let mut i: usize = 0;
        assert(slots@.take(0).to_set() =~= Set::<usize>::empty());
        assert(changes_among(before.docs, edges, rel_type@, slots@.take(0).to_set()) =~= Set::<
            usize,
        >::empty());
        while i < slots.len()
            invariant
                i <= slots@.len(),
                changes <= i,
                slots@.no_duplicates(),
                edges == graph.topology.edges@,
                self@ == before,
                changes == changes_among(
                    before.docs,
                    edges,
                    rel_type@,
                    slots@.take(i as int).to_set(),
                ).len(),
            decreases slots@.len() - i,
        {
            let slot: usize = slots[i];
            let of_type = match graph.topology.edge_weight(EdgeIndex::new(slot)) {
                Some(data) => text_eq(data.connection_type.as_str(), rel_type),
                None => false,
            };
            proof {
                one_more_slot(before.docs, edges, rel_type@, slots@, i as int);
            }
            if of_type || self.index.contains_doc(slot) {
                changes = changes + 1;
            }
            i = i + 1;
        }
        assert(slots@.take(i as int) =~= slots@);
        let seen: usize;
        if rebuild_beats_folding(changes, self.index.total_docs()) {
            let built = build_over_type(graph, rel_type, self.resolved_field.as_str());
            self.index = built.index;
            self.skipped = built.skipped;
            seen = built.members;
        } else {
            let mut n: usize = 0;
            assert(slots@.take(0).to_set() =~= Set::<usize>::empty());
            assert(self.index@ =~= folded(
                before.docs,
                edges,
                rel_type@,
                before.field,
                Set::<usize>::empty(),
            ));
            while n < slots.len()
                invariant
                    n <= slots@.len(),
                    slots@.no_duplicates(),
                    edges == graph.topology.edges@,
                    self.resolved_field@ == before.field,
                    self.freshness == old(self).freshness,
                    self.generation == old(self).generation,
                    self.skipped == old(self).skipped,
                    self.resolved_field == old(self).resolved_field,
                    self.index@ == folded(
                        before.docs,
                        edges,
                        rel_type@,
                        before.field,
                        slots@.take(n as int).to_set(),
                    ),
                decreases slots@.len() - n,
            {
                let slot: usize = slots[n];
                let ghost some = slots@.take(n as int).to_set();
                proof {
                    one_more_slot(before.docs, edges, rel_type@, slots@, n as int);
                }
                match read_slot(graph, slot, rel_type, self.resolved_field.as_str()) {
                    Some(text) => {
                        self.index.add_doc(slot, text.as_str());
                    },
                    None => {
                        let _ = self.index.remove_doc(slot);
                    },
                }
                assert(self.index@ =~= folded(
                    before.docs,
                    edges,
                    rel_type@,
                    before.field,
                    some.insert(slot),
                ));
                n = n + 1;
            }
            assert(slots@.take(n as int) =~= slots@);
            seen = slots.len();
        }
        self.freshness = IndexFreshness::covering(bound, self.freshness.limit);
        self.generation = if self.generation == u64::MAX {
            0
        } else {
            self.generation + 1
        };
        assert(self@ =~= text_refreshed(before, edges, rel_type@));
        seen
    }
}

/// What building a text index reports.
#[derive(Debug, Clone, Copy, PartialEq, Eq, Structural)]
pub struct TextIndexReport {
    /// The documents.
    pub indexed: usize,
    /// The relationships of the type without a document.
    pub skipped: usize,
    /// The distinct words.
    pub terms: usize,
}

/// Why a text index cannot be built: the type is unknown, or no relationship of
/// the type has a document.
pub open spec fn text_build_fault(graph: DirGraph, rel_type: Text, property: Text) -> Option<Text> {
    let edges = graph.topology.edges@;
    let members = members_upto(edges, rel_type, edges.len());
    if !type_registered(graph, rel_type) {
        Some(
            "Unknown relationship type '"@ + rel_type
                + "'. db.edge_text_index.build indexes one relationship type's property; CALL db.relationshipTypes() lists the types that exist."@,
        )
    } else if all_documents(edges, rel_type, property).dom().len() == 0 && members > 0 {
        Some(
            "No '"@ + rel_type + "' relationship carries text or a string/null list for '"@
                + property + "' — all "@ + decimal(members)
                + " were absent or not text documents, so there is nothing to index. Check the spelling, and note that numbers and lists containing non-text members are not indexable."@,
        )
    } else {
        None
    }
}

/// The slots a query may fold into an index: what is given, else what the index
/// there was had, else the default.
pub open spec fn text_limit(graph: DirGraph, rel_type: Text, property: Text, given: Option<usize>) -> usize {
    match given {
        Some(limit) => limit,
        None => match lookup(graph.edge_text_indexes@, rel_type, property) {
            Some(store) => store.freshness.limit,
            None => DEFAULT_AUTO_REFRESH_LIMIT,
        },
    }
}

/// A text index as it is built.
pub open spec fn text_built(
    graph: DirGraph,
    rel_type: Text,
    property: Text,
    given: Option<usize>,
) -> TextStoreModel {
    let edges = graph.topology.edges@;
    TextStoreModel {
        docs: all_documents(edges, rel_type, property),
        generation: 0,
        freshness: covering_model(
            edges.len() as usize,
            text_limit(graph, rel_type, property, given),
        ),
        field: property,
        skipped: textless_upto(edges, rel_type, property, edges.len()) as usize,
    }
}

/// What a change of the text indexes does beside it.
pub open spec fn text_index_replaced(
    before: DirGraph,
    after: DirGraph,
    rel_type: Text,
    property: Text,
) -> bool {
    &&& after == (DirGraph {
        edge_text_indexes: after.edge_text_indexes,
        undo: after.undo,
        version: bumped(before.version),
        ..before
    })
    &&& after.undo is Some <==> before.undo is Some
    &&& undo_of(after) == undo_with(
        undo_of(before),
        seq![
            UndoModel::EdgeTextIndexReplaced {
                conn_type: rel_type,
                name: property,
                prior: lookup(before.edge_text_indexes@, rel_type, property),
            },
        ],
    )
}

proof fn text_entries_stay(
    before: DirGraph,
    after: DirGraph,
    rel_type: Text,
    property: Text,
    store: Option<TextIndexStore>,
)
    requires
        before.well_formed(),
        after == (DirGraph { edge_text_indexes: after.edge_text_indexes, ..before }),
        store is Some ==> store->0.well_formed() && store->0.freshness.covered
            <= before.topology.edges@.len(),
        after.edge_text_indexes@ == match store {
            Some(s) => with_entry(before.edge_text_indexes@, rel_type, property, s@),
            None => without_entry(before.edge_text_indexes@, rel_type, property),
        },
        forall|i: int|
            0 <= i < after.edge_text_indexes.entries@.len() ==> (store is Some && (
            #[trigger] after.edge_text_indexes.entries@[i]).store == store->0) || exists|j: int|
                0 <= j < before.edge_text_indexes.entries@.len() && (
                #[trigger] before.edge_text_indexes.entries@[j]).store
                    == after.edge_text_indexes.entries@[i].store,
    ensures
        after.well_formed(),
{
    match store {
        Some(s) => {
            a_kept_store_is_found(before.edge_text_indexes@, rel_type, property, s@);
        },
        None => {
            a_dropped_store_is_gone(before.edge_text_indexes@, rel_type, property);
        },
    }
    assert forall|i: int| 0 <= i < after.edge_text_indexes.entries@.len() implies (
    #[trigger] after.edge_text_indexes.entries@[i]).store.well_formed()
        && after.edge_text_indexes.entries@[i].store.freshness.covered
        <= after.topology.edges@.len() by {
        if !(store is Some && after.edge_text_indexes.entries@[i].store == store->0) {
            let j = choose|j: int|
                0 <= j < before.edge_text_indexes.entries@.len() && (
                #[trigger] before.edge_text_indexes.entries@[j]).store
                    == after.edge_text_indexes.entries@[i].store;
            assert(before.edge_text_indexes.entries@[j].store.well_formed());
        }
    }
}

/// Keeps a text index in place of the one there is, or none, so that a failed
/// statement puts it back.
fn replace_index(graph: &mut DirGraph, rel_type: &str, property: &str, store: Option<TextIndexStore>)
    requires
        old(graph).well_formed(),
        store is Some ==> store->0.well_formed() && store->0.freshness.covered <= old(
            graph,
        ).topology.edges@.len(),
    ensures
        final(graph).well_formed(),
        text_index_replaced(*old(graph), *final(graph), rel_type@, property@),
        final(graph).edge_text_indexes@ == match store {
            Some(s) => with_entry(old(graph).edge_text_indexes@, rel_type@, property@, s@),
            None => without_entry(old(graph).edge_text_indexes@, rel_type@, property@),
        },
{
    let ghost before = *graph;
    let ghost kept_store = store;
    let prior = match store {
        Some(store) => graph.edge_text_indexes.insert(rel_type, property, store),
        None => graph.edge_text_indexes.remove(rel_type, property),
    };
    proof {
        text_entries_stay(before, *graph, rel_type@, property@, kept_store);
        if prior is Some {
            let i = choose|i: int|
                0 <= i < before.edge_text_indexes.entries@.len() && (
                #[trigger] before.edge_text_indexes.entries@[i]).store == prior->0;
            assert(before.edge_text_indexes.entries@[i].store.well_formed());
        }
    }
    graph.note_undo(
        UndoEntry::EdgeTextIndexReplaced {
            conn_type: rel_type.to_owned(),
            name: property.to_owned(),
            prior,
        },
    );
    graph.bump_version();
}

/// Builds a text index over a property of a type, in place of the one there is.
pub fn build_edge_text_index(
    graph: &mut DirGraph,
    rel_type: &str,
    property: &str,
    auto_refresh_limit: Option<usize>,
) -> (result: Result<TextIndexReport, String>)
    requires
        old(graph).well_formed(),
    ensures
        final(graph).well_formed(),
        match result {
            Ok(report) => {
                let edges = old(graph).topology.edges@;
                &&& text_build_fault(*old(graph), rel_type@, property@) is None
                &&& text_index_replaced(*old(graph), *final(graph), rel_type@, property@)
                &&& final(graph).edge_text_indexes@ == with_entry(
                    old(graph).edge_text_indexes@,
                    rel_type@,
                    property@,
                    text_built(*old(graph), rel_type@, property@, auto_refresh_limit),
                )
                &&& report.indexed == all_documents(edges, rel_type@, property@).dom().len()
                &&& report.skipped == textless_upto(edges, rel_type@, property@, edges.len())
                &&& report.terms == terms_upto(edges, rel_type@, property@, edges.len()).len()
            },
            Err(message) => {
                &&& *final(graph) == *old(graph)
                &&& text_build_fault(*old(graph), rel_type@, property@) == Some(message@)
            },
        },
{
    if !graph.has_connection_type(rel_type) {
        let mut message = "Unknown relationship type '".to_owned();
        message.append(rel_type);
        message.append(
            "'. db.edge_text_index.build indexes one relationship type's property; CALL db.relationshipTypes() lists the types that exist.",
        );
        return Err(message);
    }
    let built = build_over_type(graph, rel_type, property);
    let indexed: usize = built.index.total_docs();
    if indexed == 0 && built.members > 0 {
        let mut message = "No '".to_owned();
        message.append(rel_type);
        message.append("' relationship carries text or a string/null list for '");
        message.append(property);
        message.append("' — all ");
        push_number(&mut message, built.members);
        message.append(
            " were absent or not text documents, so there is nothing to index. Check the spelling, and note that numbers and lists containing non-text members are not indexable.",
        );
        return Err(message);
    }
    let limit: usize = match auto_refresh_limit {
        Some(limit) => limit,
        None => match graph.edge_text_indexes.get(rel_type, property) {
            Some(store) => store.auto_refresh_limit(),
            None => DEFAULT_AUTO_REFRESH_LIMIT,
        },
    };
    let store = TextIndexStore {
        index: built.index,
        generation: 0,
        freshness: IndexFreshness::covering(graph.topology.edges.len(), limit),
        resolved_field: property.to_owned(),
        skipped: built.skipped,
    };
    assert(store@ =~= text_built(*graph, rel_type@, property@, auto_refresh_limit));
    replace_index(graph, rel_type, property, Some(store));
    Ok(TextIndexReport { indexed, skipped: built.skipped, terms: built.terms })
}

/// Drops a text index, and says whether there was one.
pub fn drop_edge_text_index(graph: &mut DirGraph, rel_type: &str, property: &str) -> (dropped: bool)
    requires
        old(graph).well_formed(),
    ensures
        final(graph).well_formed(),
        dropped == kept(old(graph).edge_text_indexes@, rel_type@, property@),
        dropped ==> {
            &&& text_index_replaced(*old(graph), *final(graph), rel_type@, property@)
            &&& final(graph).edge_text_indexes@ == without_entry(
                old(graph).edge_text_indexes@,
                rel_type@,
                property@,
            )
        },
        !dropped ==> *final(graph) == *old(graph),
{
    if !graph.edge_text_indexes.contains(rel_type, property) {
        return false;
    }
    replace_index(graph, rel_type, property, None);
    true
}

/// The text index over a property of a type.
pub fn edge_text_index_store<'a>(graph: &'a DirGraph, rel_type: &str, property: &str) -> (store:
    Option<&'a TextIndexStore>)
    requires
        graph.well_formed(),
    ensures
        match store {
            Some(s) => {
                &&& lookup(graph.edge_text_indexes@, rel_type@, property@) == Some(s@)
                &&& s.well_formed()
                &&& s.freshness.covered <= graph.topology.edges@.len()
            },
            None => lookup(graph.edge_text_indexes@, rel_type@, property@) is None,
        },
{
    graph.edge_text_indexes.get(rel_type, property)
}

/// Folds every outstanding change into the text index over a property of a
/// type, and says how many relationships were read: `None` where there is no
/// such index.
pub fn refresh_edge_text_index(graph: &mut DirGraph, rel_type: &str, property: &str) -> (seen:
    Option<usize>)
    requires
        old(graph).well_formed(),
    ensures
        final(graph).well_formed(),
        *final(graph) == (DirGraph {
            edge_text_indexes: final(graph).edge_text_indexes,
            ..*old(graph)
        }),
        match lookup(old(graph).edge_text_indexes@, rel_type@, property@) {
            None => seen is None && *final(graph) == *old(graph),
            Some(store) => if old(graph).read_only {
                seen == Some(0usize) && final(graph).edge_text_indexes@ == old(
                    graph,
                ).edge_text_indexes@
            } else {
                &&& seen is Some
                &&& seen->0 == text_seen(store, old(graph).topology.edges@, rel_type@)
                &&& final(graph).edge_text_indexes@ == with_entry(
                    old(graph).edge_text_indexes@,
                    rel_type@,
                    property@,
                    text_refreshed(store, old(graph).topology.edges@, rel_type@),
                )
            },
        },
{
    proof {
        place_is_first(graph.edge_text_indexes@, rel_type@, property@);
    }
    let place: usize = match graph.edge_text_indexes.position(rel_type, property) {
        Some(place) => place,
        None => {
            return None;
        },
    };
    if graph.read_only {
        return Some(0);
    }
    assert(graph.edge_text_indexes.entries@[place as int].store.well_formed());
    assert(graph.edge_text_indexes@[place as int].store
        == graph.edge_text_indexes.entries@[place as int].store@);
    let placeholder = TextIndexStore {
        index: TextIndex::new(),
        generation: 0,
        freshness: IndexFreshness::covering(0, 0),
        resolved_field: String::new(),
        skipped: 0,
    };
    let mut writer = graph.edge_text_indexes.replace_at(place, placeholder);
    let seen: usize = writer.refresh_edges(graph, rel_type);
    let ghost held = writer;
    let _ = graph.edge_text_indexes.replace_at(place, writer);
    proof {
        assert(graph.edge_text_indexes.entries@ =~= old(graph).edge_text_indexes.entries@.update(
            place as int,
            crate::catalog::Entry {
                store: held,
                ..old(graph).edge_text_indexes.entries@[place as int]
            },
        ));
        one_text_index_changed(*old(graph), *graph, place as int, held);
    }
    Some(seen)
}

/// One text index.
#[derive(Debug, Clone, PartialEq, Eq)]
pub struct EdgeTextIndexInfo {
    /// The relationship type.
    pub rel_type: String,
    /// The property.
    pub property: String,
    /// The documents.
    pub documents: usize,
    /// The slots that the next refresh reads.
    pub delta: usize,
}

/// What is listed of a text index.
pub struct TextInfoModel {
    pub rel_type: Text,
    pub property: Text,
    pub documents: nat,
    pub delta: nat,
}

impl View for EdgeTextIndexInfo {
    type V = TextInfoModel;

    open spec fn view(&self) -> TextInfoModel {
        TextInfoModel {
            rel_type: self.rel_type@,
            property: self.property@,
            documents: self.documents as nat,
            delta: self.delta as nat,
        }
    }
}

/// What is listed of every text index, by type and property.
pub open spec fn text_infos(graph: DirGraph) -> Seq<TextInfoModel> {
    let pairs = keys_on(graph.edge_text_indexes@);
    Seq::new(
        pairs.len(),
        |i: int|
            {
                let store = lookup(graph.edge_text_indexes@, pairs[i].0, pairs[i].1)->0;
                TextInfoModel {
                    rel_type: pairs[i].0,
                    property: pairs[i].1,
                    documents: store.docs.dom().len(),
                    delta: outstanding(store.freshness, graph.topology.edges@.len()),
                }
            },
    )
}

/// What rows say.
pub open spec fn text_info_rows(rows: Seq<EdgeTextIndexInfo>) -> Seq<TextInfoModel> {
    Seq::new(rows.len(), |i: int| rows[i]@)
}

/// Every text index, by type and property.
pub fn list_edge_text_indexes(graph: &DirGraph) -> (rows: Vec<EdgeTextIndexInfo>)
    requires
        graph.well_formed(),
    ensures
        text_info_rows(rows@) == text_infos(*graph),
{
    let pairs = listed_keys(&graph.edge_text_indexes);
    let ghost entries = graph.edge_text_indexes@;
    let mut rows: Vec<EdgeTextIndexInfo> = Vec::new();
    let mut i: usize = 0;
    while i < pairs.len()
        invariant
            i <= pairs@.len(),
            graph.well_formed(),
            entries == graph.edge_text_indexes@,
            pair_texts(pairs@) == keys_on(entries),
            pair_texts(pairs@).to_set() == keys_kept(entries, entries.len() as int),
            rows@.len() == i,
            forall|k: int| 0 <= k < i ==> (#[trigger] rows@[k])@ == text_infos(*graph)[k],
        decreases pairs@.len() - i,
    {
        let ghost pair = pair_texts(pairs@)[i as int];
        proof {
            assert(pair_texts(pairs@).to_set().contains(pair));
            listed_keys_are_kept(entries, pair);
        }
        match edge_text_index_store(graph, pairs[i].0.as_str(), pairs[i].1.as_str()) {
            Some(store) => {
                let row = EdgeTextIndexInfo {
                    rel_type: pairs[i].0.as_str().to_owned(),
                    property: pairs[i].1.as_str().to_owned(),
                    documents: store.documents(),
                    delta: store.edge_delta_size(graph),
                };
                assert(row@ == text_infos(*graph)[i as int]);
                rows.push(row);
            },
            None => {
                assert(false);
            },
        }
        i = i + 1;
    }
    assert(text_info_rows(rows@) =~= text_infos(*graph));
    rows
}

/// Keeps a text index that was read back from storage.
pub fn attach_persisted_edge_text_index(
    graph: &mut DirGraph,
    rel_type: &str,
    property: &str,
    index: TextIndex,
    freshness: IndexFreshness,
    skipped: usize,
)
    requires
        old(graph).well_formed(),
        freshness.well_formed(),
        freshness.covered <= old(graph).topology.edges@.len(),
    ensures
        final(graph).well_formed(),
        *final(graph) == (DirGraph {
            edge_text_indexes: final(graph).edge_text_indexes,
            ..*old(graph)
        }),
        final(graph).edge_text_indexes@ == with_entry(
            old(graph).edge_text_indexes@,
            rel_type@,
            property@,
            TextStoreModel {
                docs: index@,
                generation: 0,
                freshness: freshness@,
                field: property@,
                skipped,
            },
        ),
{
    let store = TextIndexStore {
        index,
        generation: 0,
        freshness,
        resolved_field: property.to_owned(),
        skipped,
    };
    let ghost before = *graph;
    let _ = graph.edge_text_indexes.insert(rel_type, property, store);
    proof {
        text_entries_stay(before, *graph, rel_type@, property@, Some(store));
        assert(store@ =~= TextStoreModel {
            docs: index@,
            generation: 0,
            freshness: freshness@,
            field: property@,
            skipped,
        });
    }
}

/// A text index that is read.
pub struct TextIndexRead<'a>(pub &'a TextIndex);

impl<'a> TextIndexRead<'a> {
    /// The score of a relationship, given what its document scores: none where
    /// it has no document.
    pub fn score_edge(&self, edge: EdgeIndex, score: u64) -> (scored: Option<u64>)
        ensures
            scored == if self.0@.contains_key(edge.slot) {
                Some(score)
            } else {
                None
            },
    {
        if self.0.contains_doc(edge.slot) {
            Some(score)
        } else {
            None
        }
    }
}

/// Marks a relationship that was made: an index of its type that covers the
/// slot reads it again.
pub fn note_edge_created(graph: &mut DirGraph, edge: EdgeIndex, rel_type: &str)
    requires
        old(graph).well_formed(),
    ensures
        final(graph).well_formed(),
        *final(graph) == (DirGraph {
            edge_text_indexes: final(graph).edge_text_indexes,
            ..*old(graph)
        }),
        final(graph).edge_text_indexes@ == texts_touched(
            old(graph).edge_text_indexes@,
            rel_type@,
            edge.slot,
        ),
{
    mark_documents_of_type(graph, rel_type, edge.slot);
}

/// The text indexes with a slot to be read again, where they read the property
/// that was written; no property stands for several.
pub open spec fn texts_written(
    texts: Seq<EntryModel<TextStoreModel>>,
    rel_type: Text,
    field: Option<Text>,
    slot: usize,
) -> Seq<EntryModel<TextStoreModel>> {
    Seq::new(
        texts.len(),
        |i: int|
            if texts[i].owner_type == rel_type && (field is None || texts[i].name == field->0) {
                EntryModel {
                    store: TextStoreModel {
                        freshness: crate::freshness::touched(texts[i].store.freshness, slot),
                        ..texts[i].store
                    },
                    ..texts[i]
                }
            } else {
                texts[i]
            },
    )
}

/// Marks a relationship of which a property was written, or several.
pub fn note_edge_property_written(
    graph: &mut DirGraph,
    edge: EdgeIndex,
    rel_type: &str,
    field: Option<&str>,
)
    requires
        old(graph).well_formed(),
    ensures
        final(graph).well_formed(),
        *final(graph) == (DirGraph {
            edge_text_indexes: final(graph).edge_text_indexes,
            ..*old(graph)
        }),
        final(graph).edge_text_indexes@ == texts_written(
            old(graph).edge_text_indexes@,
            rel_type@,
            str_option(field),
            edge.slot,
        ),
{
    let ghost texts = graph.edge_text_indexes@;
    let ghost written = str_option(field);
    let count: usize = graph.edge_text_indexes.entries.len();
    let mut i: usize = 0;
    while i < count
        invariant
            i <= count,
            count == graph.edge_text_indexes.entries@.len(),
            texts.len() == count,
            written == str_option(field),
            graph.well_formed(),
            *graph == (DirGraph { edge_text_indexes: graph.edge_text_indexes, ..*old(graph) }),
            forall|k: int|
                0 <= k < count ==> (#[trigger] graph.edge_text_indexes@[k]) == if k < i {
                    texts_written(texts, rel_type@, written, edge.slot)[k]
                } else {
                    texts[k]
                },
        decreases count - i,
    {
        assert(graph.edge_text_indexes@[i as int] == texts[i as int]);
        let entry = &graph.edge_text_indexes.entries[i];
        let reads = text_eq(entry.owner_type.as_str(), rel_type) && match field {
            Some(name) => text_eq(entry.name.as_str(), name),
            None => true,
        };
        if reads {
            mark_document(graph, i, edge.slot);
        }
        i = i + 1;
    }
    assert(graph.edge_text_indexes@ =~= texts_written(texts, rel_type@, written, edge.slot));
}

} // verus!
