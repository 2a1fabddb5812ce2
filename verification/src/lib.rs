//! Bookkeeping, validation and decision logic for vector search, graph
//! embedding and clustering.
//!
//! Everything here works on integers, strings and sequences. Numbers with a
//! fractional part never enter this crate as such: a caller hands them over by
//! their bit pattern, or as keys that order the way the numbers do, and does
//! the arithmetic on its own side. The same holds for the neighbour graph,
//! the embedding solver and the files: a caller runs them and reports what
//! came back.
//!
//! * `hnsw`: the vector index, with `tables` for its labels and records.
//! * `embedder`: the embedding pipeline and its trained model.
//! * `clustering`: K-means, and the shaping of density clustering.
//! * `geometry`: choosing the nearest among distances.
//! * `utils`: checks of shapes; with `svd`, the surfaces that exist in name
//!   only.
//! * `error`: the failures.

pub mod clustering;
pub mod embedder;
pub mod error;
pub mod geometry;
pub mod hnsw;
pub mod svd;
pub mod tables;
pub mod utils;
