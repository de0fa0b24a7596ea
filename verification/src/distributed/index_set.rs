//! The index set of a range that is split over the ranks of a process group.
use crate::index_set::IndexSet;
use crate::partition::partition_ranges;
use vstd::prelude::*;

verus! {

/// For every rank of a process group the range of indices that it owns.
pub struct DistributedIndexSet {
    // ranges[r] is the range of rank r. With the 10 indices 0..10 and 3
    // ranks, ranges is [Some((0, 4)), Some((4, 7)), Some((7, 10))]. With 5
    // indices and 6 ranks the last rank gets no range: ranges[5] is None.
    ranges: Vec<Option<(usize, usize)>>,
    process_count: usize,
    my_rank: usize,
    range: (usize, usize),
    number_of_global_indices: usize,
}

impl DistributedIndexSet {
    #[verifier::type_invariant]
    spec fn well_formed(self) -> bool {
        &&& self.range.0 <= self.range.1
        &&& self.number_of_global_indices == self.range.1 - self.range.0
        &&& self.my_rank < self.process_count
        &&& self.ranges@.len() == self.process_count
        &&& forall|r: int|
            0 <= r < self.process_count ==> #[trigger] self.ranges@[r]
                == crate::partition::rank_range(self.range, self.process_count, r as usize)
    }

    /// The range that is split.
    pub closed spec fn spec_range(&self) -> (usize, usize) {
        self.range
    }

    /// The number of ranks that the range is split over.
    pub closed spec fn spec_process_count(&self) -> usize {
        self.process_count
    }

    /// The rank of this process.
    pub closed spec fn spec_my_rank(&self) -> usize {
        self.my_rank
    }

    /// The index set of `range` split over `process_count` ranks, as rank
    /// `my_rank` sees it.
    pub fn new(range: (usize, usize), process_count: usize, my_rank: usize) -> (set: Self)
        requires
            range.0 <= range.1,
            my_rank < process_count,
        ensures
            set.spec_range() == range,
            set.spec_process_count() == process_count,
            set.spec_my_rank() == my_rank,
    {
        let ranges = partition_ranges(range, process_count);
        Self { ranges, process_count, my_rank, range, number_of_global_indices: range.1 - range.0 }
    }
}

impl IndexSet for DistributedIndexSet {
    open spec fn spec_local_range(&self) -> Option<(usize, usize)> {
        self.spec_index_range(self.spec_my_rank())
    }

    open spec fn spec_number_of_global_indices(&self) -> usize {
        (self.spec_range().1 - self.spec_range().0) as usize
    }

    open spec fn has_rank(&self, rank: usize) -> bool {
        rank < self.spec_process_count()
    }

    open spec fn spec_index_range(&self, rank: usize) -> Option<(usize, usize)> {
        crate::partition::rank_range(self.spec_range(), self.spec_process_count(), rank)
    }

    fn local_range(&self) -> (range: Option<(usize, usize)>) {
        proof {
            use_type_invariant(self);
        }
        self.ranges[self.my_rank]
    }

    fn number_of_global_indices(&self) -> (n: usize) {
        proof {
            use_type_invariant(self);
        }
        self.number_of_global_indices
    }

    fn number_of_local_indices(&self) -> (n: usize) {
        proof {
            use_type_invariant(self);
            crate::partition::lemma_rank_range_bounds(
                self.range,
                self.process_count,
                self.my_rank,
            );
        }
        if let Some((first, last)) = self.local_range() {
            last - first
        } else {
            0
        }
    }

    fn index_range(&self, rank: usize) -> (range: Option<(usize, usize)>) {
        proof {
            use_type_invariant(self);
        }
        self.ranges[rank]
    }
}

} // verus!
