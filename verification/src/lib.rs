//! Core of a retrieval-augmented chat pipeline: sentence chunking, embedding
//! batch orchestration, vector-store bookkeeping, context assembly, and
//! conversation history. All HTTP transport and terminal interaction live in
//! the surrounding application; this library holds the verified logic.

pub mod chunker;
pub mod config;
pub mod conversation;
pub mod embedding;
pub mod errors;
pub mod retrieve;
pub mod store;
pub mod text;

use vstd::prelude::*;

verus! {

} // verus!
