//! Index sets: which range of indices each rank owns, without a map from
//! local positions to global indices.
use vstd::prelude::*;

verus! {

/// The ranges of indices that the ranks of a process group own.
pub trait IndexSet {
    /// The range that this rank owns, `None` where it owns nothing.
    spec fn spec_local_range(&self) -> Option<(usize, usize)>;

    /// The number of indices of all ranks together.
    spec fn spec_number_of_global_indices(&self) -> usize;

    /// Whether the set knows a rank of this number.
    spec fn has_rank(&self, rank: usize) -> bool;

    /// The range that `rank` owns, `None` where it owns nothing.
    spec fn spec_index_range(&self, rank: usize) -> Option<(usize, usize)>;

    /// The local index range.
    fn local_range(&self) -> (range: Option<(usize, usize)>)
        ensures
            range == self.spec_local_range(),
    ;

    /// The global number of indices.
    fn number_of_global_indices(&self) -> (n: usize)
        ensures
            n == self.spec_number_of_global_indices(),
    ;

    /// The number of indices that this rank owns.
    fn number_of_local_indices(&self) -> (n: usize)
        ensures
            n == crate::partition::range_width(self.spec_local_range()),
    ;

    /// The index range of a given rank.
    fn index_range(&self, rank: usize) -> (range: Option<(usize, usize)>)
        requires
            self.has_rank(rank),
        ensures
            range == self.spec_index_range(rank),
    ;
}

/// The index set of a program that runs on one process, which owns the whole range.
pub struct SerialIndexSet {
    range: (usize, usize),
}

impl SerialIndexSet {
    #[verifier::type_invariant]
    spec fn well_formed(self) -> bool {
        self.range.0 <= self.range.1
    }

    /// The range of the set.
    pub closed spec fn spec_range(&self) -> (usize, usize) {
        self.range
    }

    /// The index set of the half-open range `range`.
    pub fn new(range: (usize, usize)) -> (set: Self)
        requires
            range.0 <= range.1,
        ensures
            set.spec_range() == range,
    {
        SerialIndexSet { range }
    }
}

impl IndexSet for SerialIndexSet {
    open spec fn spec_local_range(&self) -> Option<(usize, usize)> {
        Some(self.spec_range())
    }

    open spec fn spec_number_of_global_indices(&self) -> usize {
        (self.spec_range().1 - self.spec_range().0) as usize
    }

    open spec fn has_rank(&self, rank: usize) -> bool {
        true
    }

    open spec fn spec_index_range(&self, rank: usize) -> Option<(usize, usize)> {
        if rank == 0 {
            Some(self.spec_range())
        } else {
            None
        }
    }

    fn local_range(&self) -> (range: Option<(usize, usize)>) {
        Some(self.range)
    }

    fn number_of_global_indices(&self) -> (n: usize) {
        proof {
            use_type_invariant(self);
        }
        self.range.1 - self.range.0
    }

    fn number_of_local_indices(&self) -> (n: usize) {
        proof {
            use_type_invariant(self);
        }
        self.number_of_global_indices()
    }

    fn index_range(&self, rank: usize) -> (range: Option<(usize, usize)>) {
        if rank == 0 {
            Some(self.range)
        } else {
            None
        }
    }
}

} // verus!
