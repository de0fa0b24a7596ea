//! Basic types shared by the whole library.
use vstd::prelude::*;

verus! {

/// The integer type used for counting and indexing.
pub type IndexType = usize;

/// The ways in which an operation of this library can fail.
#[derive(Debug)]
pub enum SparseLinAlgError {
    /// The named method is not implemented.
    NotImplemented(String),
    /// The named operation failed; vector operations report a layout mismatch this way.
    OperationFailed(String),
    /// A buffer has a length other than the one the operation needs.
    SingleDimensionError { expected: IndexType, actual: IndexType },
    /// An index layout was used in a way it does not support.
    IndexLayoutError(String),
}

pub type SparseLinAlgResult<T> = Result<T, SparseLinAlgError>;

impl SparseLinAlgError {
    /// Whether this error is `OperationFailed` carrying the name `operation`.
    pub open spec fn is_failure_of(self, operation: Seq<char>) -> bool {
        match self {
            SparseLinAlgError::OperationFailed(name) => name@ == operation,
            _ => false,
        }
    }

    /// The error that the operation called `operation` reports when it cannot go ahead.
    pub fn operation_failed(operation: &str) -> (e: Self)
        ensures
            e.is_failure_of(operation@),
    {
        SparseLinAlgError::OperationFailed(operation.to_string())
    }
}

} // verus!
