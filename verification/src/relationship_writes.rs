//! Making a relationship and writing its properties, with the text indexes told.

use crate::edge_text_indexes::{note_edge_created, note_edge_property_written, texts_written};
use crate::graph::{type_registered, undo_of, undo_with, DirGraph};
use crate::recording::{UndoEntry, UndoModel};
use crate::statement::texts_touched;
use crate::text::{str_option, Text};
use crate::topology::{EdgeData, EdgeRecord, Property};
use crate::value::{EdgeIndex, NodeIndex};
use vstd::prelude::*;

verus! {

/// The slots with one more relationship: in the slot that was vacated last, else
/// in a new one.
pub open spec fn with_relationship(
    edges: Seq<Option<EdgeRecord>>,
    vacant: Seq<usize>,
    record: EdgeRecord,
) -> Seq<Option<EdgeRecord>> {
    if vacant.len() > 0 {
        edges.update(vacant.last() as int, Some(record))
    } else {
        edges.push(Some(record))
    }
}

impl DirGraph {
    /// Makes a relationship. Its type is registered, and an index of the type
    /// that covers the slot reads it again.
    pub fn add_relationship(&mut self, source: NodeIndex, target: NodeIndex, data: EdgeData) -> (edge:
        EdgeIndex)
        requires
            old(self).well_formed(),
            old(self).topology.node_lives(source),
            old(self).topology.node_lives(target),
        ensures
            final(self).well_formed(),
            *final(self) == (DirGraph {
                topology: final(self).topology,
                connection_types: final(self).connection_types,
                edge_text_indexes: final(self).edge_text_indexes,
                ..*old(self)
            }),
            !old(self).topology.live(edge),
            edge.slot == if old(self).topology.vacant@.len() > 0 {
                old(self).topology.vacant@.last() as int
            } else {
                old(self).topology.edges@.len() as int
            },
            final(self).topology.nodes == old(self).topology.nodes,
            final(self).topology.edges@ == with_relationship(
                old(self).topology.edges@,
                old(self).topology.vacant@,
                EdgeRecord { source, target, data },
            ),
            final(self).edge_text_indexes@ == texts_touched(
                old(self).edge_text_indexes@,
                data.connection_type@,
                edge.slot,
            ),
            forall|t: Text|
                #[trigger] type_registered(*final(self), t) <==> (t == data.connection_type@
                    || type_registered(*old(self), t)),
    {
        let rel_type = data.connection_type.clone();
        let ghost before = *self;
        let edge = self.topology.add_edge(source, target, data);
        proof {
            assert(self.topology.edges@.len() >= before.topology.edges@.len());
            assert forall|i: int| 0 <= i < self.edge_text_indexes.entries@.len() implies (
            #[trigger] self.edge_text_indexes.entries@[i]).store.well_formed()
                && self.edge_text_indexes.entries@[i].store.freshness.covered
                <= self.topology.edges@.len() by {
                assert(before.edge_text_indexes.entries@[i].store.well_formed());
            }
        }
        let ghost placed = *self;
        self.register_connection_type(rel_type.as_str());
        let ghost registered = *self;
        note_edge_created(self, edge, rel_type.as_str());
        proof {
            assert forall|t: Text|
                #[trigger] type_registered(*self, t) <==> (t == data.connection_type@
                    || type_registered(before, t)) by {
                assert(self.connection_types@ == registered.connection_types@);
                assert(placed.connection_types@ == before.connection_types@);
                assert(type_registered(registered, t) <==> type_registered(*self, t));
                assert(type_registered(placed, t) <==> type_registered(before, t));
            }
        }
        edge
    }

    /// Writes the properties of a relationship. `field` names the one that is
    /// written, and stands for several where there is none. A failed statement
    /// puts the properties back.
    pub fn set_relationship_properties(
        &mut self,
        edge: EdgeIndex,
        properties: Vec<Property>,
        field: Option<&str>,
    ) -> (written: bool)
        requires
            old(self).well_formed(),
        ensures
            final(self).well_formed(),
            written == old(self).topology.live(edge),
            !written ==> *final(self) == *old(self),
            written ==> {
                let record = old(self).topology.record(edge);
                &&& *final(self) == (DirGraph {
                    topology: final(self).topology,
                    edge_text_indexes: final(self).edge_text_indexes,
                    undo: final(self).undo,
                    ..*old(self)
                })
                &&& final(self).topology.nodes == old(self).topology.nodes
                &&& final(self).topology.vacant == old(self).topology.vacant
                &&& final(self).topology.edges@ == old(self).topology.edges@.update(
                    edge.slot as int,
                    Some(
                        EdgeRecord {
                            data: EdgeData { properties, ..record.data },
                            ..record
                        },
                    ),
                )
                &&& final(self).edge_text_indexes@ == texts_written(
                    old(self).edge_text_indexes@,
                    record.data.connection_type@,
                    str_option(field),
                    edge.slot,
                )
                &&& undo_of(*final(self)) == undo_with(
                    undo_of(*old(self)),
                    seq![
                        UndoModel::EdgePropertiesReplaced {
                            edge,
                            prior: record.data.properties,
                        },
                    ],
                )
            },
    {
        let rel_type = match self.topology.edge_weight(edge) {
            Some(data) => data.connection_type.clone(),
            None => {
                return false;
            },
        };
        let ghost before = *self;
        let prior = self.topology.replace_properties(edge, properties);
        proof {
            assert forall|i: int| 0 <= i < self.edge_text_indexes.entries@.len() implies (
            #[trigger] self.edge_text_indexes.entries@[i]).store.well_formed()
                && self.edge_text_indexes.entries@[i].store.freshness.covered
                <= self.topology.edges@.len() by {
                assert(before.edge_text_indexes.entries@[i].store.well_formed());
            }
        }
        self.note_undo(UndoEntry::EdgePropertiesReplaced { edge, prior });
        note_edge_property_written(self, edge, rel_type.as_str(), field);
        true
    }
}

} // verus!
