//! Vector embeddings of a labelled property graph.
//!
//! A node or a relationship owns at most one vector per text column. The
//! library stores the vectors, keeps them aligned with the graph as it
//! changes, and plans the writes, reads, rankings and reports over them.

pub mod address;
pub mod address_laws;
pub mod batch_laws;
pub mod carried;
pub mod carry;
pub mod carry_install;
pub mod carry_laws;
pub mod carry_match_laws;
pub mod carry_resolve;
pub mod catalog;
pub mod coordinate;
pub mod diagnostic_laws;
pub mod diagnostics;
pub mod document_laws;
pub mod edge_delete;
pub mod edge_generated;
pub mod edge_log;
pub mod edge_read;
pub mod edge_replace;
pub mod edge_search;
pub mod edge_store;
pub mod edge_text_indexes;
pub mod edge_vector_index;
pub mod edge_writes;
pub mod freshness;
pub mod embed;
pub mod embeddings_view;
pub mod fx;
pub mod generation;
pub mod generation_laws;
pub mod generation_plan;
pub mod graph;
pub mod groups;
pub mod guidance_laws;
pub mod hints;
pub mod index_laws;
pub mod ingest;
pub mod install_laws;
pub mod inventory;
pub mod keeping_laws;
pub mod listing_laws;
pub mod log_laws;
pub mod metric;
pub mod model_calls;
pub mod name_pairs;
pub mod names;
pub mod node_batch_laws;
pub mod node_carry;
pub mod node_carry_laws;
pub mod node_embed;
pub mod node_embed_laws;
pub mod node_index;
pub mod node_ingest;
pub mod node_inventory;
pub mod node_plan_laws;
pub mod node_store;
pub mod order;
pub mod order_laws;
pub mod ownership_laws;
pub mod outcome_laws;
pub mod pass_laws;
pub mod plan_laws;
pub mod query_laws;
pub mod ranking;
pub mod read_laws;
pub mod record_laws;
pub mod recording;
pub mod relationship_property;
pub mod relationship_writes;
pub mod rollback_laws;
pub mod search_laws;
pub mod skills_section;
pub mod snapshot;
pub mod snapshot_laws;
pub mod state_laws;
pub mod statement;
pub mod store;
pub mod suggest;
pub mod summary;
pub mod text;
pub mod text_documents;
pub mod text_hash;
pub mod text_index;
pub mod text_laws;
pub mod topology;
pub mod twin_laws;
pub mod undo_laws;
pub mod vacuum;
pub mod vacuum_laws;
pub mod value;
pub mod wording_laws;
pub mod write_laws;
pub mod xml;
