//! Sparse matrices that live on one process.
use vstd::prelude::*;

pub mod csr_mat;

verus! {

/// The storage format of a sparse matrix.
#[derive(Debug, Clone, Copy, PartialEq, Eq, Structural)]
pub enum SparseMatType {
    /// Compressed sparse row.
    Csr,
    /// Compressed sparse column.
    Csc,
}

} // verus!
