//! Verified core of a personal "second brain" over browser history.
//!
//! Pages are captured, deduplicated by normalized URL, split into bounded
//! chunks, embedded into fixed-point vectors, and indexed; a query is
//! embedded, matched against the index by exact cosine-style similarity,
//! reranked, and summarized. The HTTP surface, durable storage, and the
//! external embedding/rerank/summarization providers live outside this
//! library; the decisions and data structures between them are verified here.

use vstd::prelude::*;

pub mod brain;
pub mod chunker;
pub mod embedding;
pub mod errors;
pub mod index;
pub mod laws;
pub mod rerank;
pub mod store;
pub mod summary;
pub mod urlnorm;

verus! {

} // verus!
