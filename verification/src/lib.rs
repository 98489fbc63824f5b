//! Verified core of a cognitive memory store: memory kinds and their names,
//! version histories, procedures, the cognitive task queue, relationship
//! graphs, an indexed memory repository, episodic timelines and the query
//! and retry rules of the storage layer.
use vstd::prelude::*;

pub mod clock;
pub mod convert;
pub mod entity;
pub mod episodic;
pub mod error;
pub mod graph;
pub mod history;
pub mod ingest;
pub mod memory;
pub mod order;
pub mod procedural;
pub mod query;
pub mod queue;
pub mod repository;
pub mod retrieval;
pub mod schema;
pub mod text;
pub mod types;
pub mod value;
pub mod worker;

verus! {
} // verus!
