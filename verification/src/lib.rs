//! Verified core of a local markdown knowledge search engine.
use vstd::prelude::*;

pub mod text;
pub mod file_id;
pub mod timestamp;
pub mod graph;
pub mod order;
pub mod sorted;
pub mod path;
pub mod yaml;
pub mod passage;
pub mod collection;
pub mod graph_store;
pub mod content_hash;
pub mod reranking;
pub mod embedding;
pub mod fusion;
pub mod errors;
pub mod ports;
pub mod collections;
pub mod search;
pub mod hybrid;
pub mod add_files;
pub mod update_collection;
pub mod get_file;
pub mod embed_collections;
pub mod xtask;
pub mod path_order;
pub mod fingerprint;
pub mod eval_args;
pub mod fixtures;
pub mod evaluation;

verus! {

} // verus!
