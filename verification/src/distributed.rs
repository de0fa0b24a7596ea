//! Layouts and vectors that are split over the ranks of a process group.
pub mod index_layout;
pub mod indexable_vector;
pub mod scatter;
pub mod index_set;
