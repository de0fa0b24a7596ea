//! Index partitioning and distributed-reduction layer for dense and sparse
//! vector algebra.
//!
//! A global vector of fixed dimension is split into contiguous, balanced
//! slices, one per rank of a process group. Every rank computes the same
//! partition from the global range and the group size alone, works on its own
//! slice, and contributes partial results that a collective reduction turns
//! into one global answer.
pub mod distributed;
pub mod index_layout;
pub mod index_set;
pub mod linalg;
pub mod local;
pub mod partition;
pub mod scalar;
pub mod types;
