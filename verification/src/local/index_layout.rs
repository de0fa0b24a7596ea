//! The layout of a range of indices that one process owns as a whole.
use crate::index_layout::IndexLayout;
use vstd::prelude::*;

verus! {

/// A contiguous range of global indices owned entirely by one process.
pub struct LocalIndexLayout {
    range: (usize, usize),
    number_of_global_indices: usize,
}

/// Whether two references point to the same local layout, by
/// `core::ptr::eq`. A layout holds its range and so has a size, which makes
/// one address one object. Claimed: layouts found to be the same object have
/// equal values. Nothing is claimed where the answer is `false`.
#[verifier::external_body]
fn same_local_layout(a: &LocalIndexLayout, b: &LocalIndexLayout) -> (same: bool)
    ensures
        same ==> a == b,
{
    core::ptr::eq(a, b)
}

impl LocalIndexLayout {
    #[verifier::type_invariant]
    spec fn well_formed(self) -> bool {
        &&& self.range.0 <= self.range.1
        &&& self.number_of_global_indices == self.range.1 - self.range.0
    }

    /// The layout of the half-open range `range`.
    pub fn new(range: (usize, usize)) -> (layout: Self)
        requires
            range.0 <= range.1,
        ensures
            layout.spec_global_range() == range,
    {
        Self { range, number_of_global_indices: range.1 - range.0 }
    }

    /// The number of indices of the layout.
    pub open spec fn spec_len(&self) -> nat {
        (self.spec_global_range().1 - self.spec_global_range().0) as nat
    }
}

impl IndexLayout for LocalIndexLayout {
    closed spec fn spec_global_range(&self) -> (usize, usize) {
        self.range
    }

    open spec fn spec_local_range(&self) -> Option<(usize, usize)> {
        Some(self.spec_global_range())
    }

    /// Rank 0 is the only rank that owns anything, but every rank may be asked for.
    open spec fn has_rank(&self, rank: usize) -> bool {
        true
    }

    open spec fn spec_index_range(&self, rank: usize) -> Option<(usize, usize)> {
        if rank == 0 {
            Some(self.spec_global_range())
        } else {
            None
        }
    }

    fn local_range(&self) -> (range: Option<(usize, usize)>) {
        Some(self.range)
    }

    fn global_range(&self) -> (range: (usize, usize)) {
        proof {
            use_type_invariant(self);
        }
        self.range
    }

    fn number_of_global_indices(&self) -> (n: usize) {
        proof {
            use_type_invariant(self);
        }
        self.number_of_global_indices
    }

    fn number_of_local_indices(&self) -> (n: usize) {
        self.number_of_global_indices()
    }

    fn index_range(&self, rank: usize) -> (range: Option<(usize, usize)>) {
        if rank == 0 {
            Some(self.range)
        } else {
            None
        }
    }

    fn map(&self, index: usize) -> (global: Option<usize>) {
        proof {
            use_type_invariant(self);
        }
        if index < self.number_of_local_indices() {
            Some(index + self.range.0)
        } else {
            None
        }
    }

    fn is_same(&self, other: &Self) -> (same: bool) {
        same_local_layout(self, other)
    }
}

} // verus!
