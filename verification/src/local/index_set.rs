//! The index set of a range that one process owns as a whole.
use crate::index_set::IndexSet;
use vstd::prelude::*;

verus! {

/// A contiguous range of indices owned entirely by one process.
pub struct LocalIndexSet {
    range: Option<(usize, usize)>,
    number_of_global_indices: usize,
}

impl LocalIndexSet {
    #[verifier::type_invariant]
    spec fn well_formed(self) -> bool {
        match self.range {
            Some((first, last)) => first <= last && self.number_of_global_indices == last - first,
            None => false,
        }
    }

    /// The range of the set.
    pub closed spec fn spec_range(&self) -> (usize, usize) {
        self.range.unwrap()
    }

    /// The index set of the half-open range `range`.
    pub fn new(range: (usize, usize)) -> (set: Self)
        requires
            range.0 <= range.1,
        ensures
            set.spec_range() == range,
    {
        Self { range: Some(range), number_of_global_indices: range.1 - range.0 }
    }
}

impl IndexSet for LocalIndexSet {
    open spec fn spec_local_range(&self) -> Option<(usize, usize)> {
        Some(self.spec_range())
    }

    open spec fn spec_number_of_global_indices(&self) -> usize {
        (self.spec_range().1 - self.spec_range().0) as usize
    }

    open spec fn has_rank(&self, rank: usize) -> bool {
        true
    }

    open spec fn spec_index_range(&self, rank: usize) -> Option<(usize, usize)> {
        if rank == 0 {
            Some(self.spec_range())
        } else {
            None
        }
    }

    fn local_range(&self) -> (range: Option<(usize, usize)>) {
        proof {
            use_type_invariant(self);
        }
        self.range
    }

    fn number_of_global_indices(&self) -> (n: usize) {
        proof {
            use_type_invariant(self);
        }
        self.number_of_global_indices
    }

    fn number_of_local_indices(&self) -> (n: usize) {
        proof {
            use_type_invariant(self);
        }
        self.number_of_global_indices()
    }

    fn index_range(&self, rank: usize) -> (range: Option<(usize, usize)>) {
        proof {
            use_type_invariant(self);
        }
        if rank == 0 {
            self.range
        } else {
            None
        }
    }
}

} // verus!
