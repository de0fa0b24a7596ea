//! Layouts, vectors and matrices that live on one process.
pub mod index_layout;
pub mod indexable_vector;
pub mod sparse;
pub mod index_set;
