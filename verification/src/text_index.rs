//! The documents a text index holds, by the slot they belong to.
use std::collections::HashMap;
use vstd::prelude::*;
use crate::freshness::{FreshnessModel, IndexFreshness};
use crate::text::Text;

verus! {

/// The documents of a text index.
#[derive(Debug, Clone)]
pub struct TextIndex {
    /// The text of each document, by slot.
    pub docs: HashMap<usize, String>,
}

impl View for TextIndex {
    type V = Map<usize, Text>;

    open spec fn view(&self) -> Map<usize, Text> {
        self.docs@.map_values(|text: String| text@)
    }
}

impl TextIndex {
    /// No documents.
    pub fn new() -> (index: TextIndex)
        ensures
            index@ == Map::<usize, Text>::empty(),
    {
        let index = TextIndex { docs: HashMap::new() };
        assert(index@ =~= Map::<usize, Text>::empty());
        index
    }

    /// Sets the document of a slot.
    pub fn add_doc(&mut self, slot: usize, text: &str)
        ensures
            final(self)@ == old(self)@.insert(slot, text@),
    {
        broadcast use vstd::std_specs::hash::group_hash_axioms;
        self.docs.insert(slot, text.to_owned());
        assert(self@ =~= old(self)@.insert(slot, text@));
    }

    /// Drops the document of a slot, and says whether there was one.
    pub fn remove_doc(&mut self, slot: usize) -> (removed: bool)
        ensures
            final(self)@ == old(self)@.remove(slot),
            removed == old(self)@.contains_key(slot),
    {
        broadcast use vstd::std_specs::hash::group_hash_axioms;
        let removed = self.docs.remove(&slot);
        assert(self@ =~= old(self)@.remove(slot));
        removed.is_some()
    }

    /// Whether a slot has a document.
    pub fn contains_doc(&self, slot: usize) -> (has: bool)
        ensures
            has == self@.contains_key(slot),
    {
        broadcast use vstd::std_specs::hash::group_hash_axioms;
        self.docs.contains_key(&slot)
    }

    /// The document of a slot.
    pub fn document(&self, slot: usize) -> (text: Option<&str>)
        ensures
            match text {
                Some(t) => self@.contains_key(slot) && self@[slot] == t@,
                None => !self@.contains_key(slot),
            },
    {
        broadcast use vstd::std_specs::hash::group_hash_axioms;
        match self.docs.get(&slot) {
            Some(text) => Some(text.as_str()),
            None => None,
        }
    }

    /// How many documents there are.
    pub fn total_docs(&self) -> (count: usize)
        ensures
            count == self@.dom().len(),
    {
        broadcast use vstd::std_specs::hash::group_hash_axioms;
        assert(self@.dom() =~= self.docs@.dom());
        self.docs.len()
    }
}

/// A text index over one property of the relationships of one type.
#[derive(Debug, Clone)]
pub struct TextIndexStore {
    /// The documents.
    pub index: TextIndex,
    /// How often the documents were brought up to date.
    pub generation: u64,
    /// What the documents cover.
    pub freshness: IndexFreshness,
    /// The property the documents are read from.
    pub resolved_field: String,
    /// The relationships without a document when the index was last built.
    pub skipped: usize,
}

/// What a text index holds.
#[verifier::ext_equal]
pub struct TextStoreModel {
    pub docs: Map<usize, Text>,
    pub generation: u64,
    pub freshness: FreshnessModel,
    pub field: Text,
    pub skipped: usize,
}

impl View for TextIndexStore {
    type V = TextStoreModel;

    open spec fn view(&self) -> TextStoreModel {
        TextStoreModel {
            docs: self.index@,
            generation: self.generation,
            freshness: self.freshness@,
            field: self.resolved_field@,
            skipped: self.skipped,
        }
    }
}

impl TextIndexStore {
    /// The freshness is well formed.
    pub open spec fn well_formed(self) -> bool {
        self.freshness.well_formed()
    }
}

} // verus!
