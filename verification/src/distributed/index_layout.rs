//! The layout of a global index range that is split over the ranks of a
//! process group.
use crate::index_layout::IndexLayout;
use crate::local::index_layout::LocalIndexLayout;
use crate::partition::partition_ranges;
use vstd::prelude::*;

verus! {

/// A global index range, the number of ranks it is split over, and the rank
/// of this process. The layout knows what every rank owns; it is computed
/// from these three values alone and never changes.
pub struct DistributedIndexLayout {
    global_range: (usize, usize),
    process_count: usize,
    my_rank: usize,
    ranges: Vec<Option<(usize, usize)>>,
    counts: Vec<usize>,
    displacements: Vec<usize>,
    local_layout: Option<LocalIndexLayout>,
}

/// Whether two references point to the same distributed layout, by
/// `core::ptr::eq`. A layout holds its range and its rank and so has a size,
/// which makes one address one object. Claimed: layouts found to be the same
/// object have equal values. Nothing is claimed where the answer is `false`.
#[verifier::external_body]
fn same_distributed_layout(a: &DistributedIndexLayout, b: &DistributedIndexLayout) -> (same: bool)
    ensures
        same ==> a == b,
{
    core::ptr::eq(a, b)
}

/// For every rank the number of indices it owns and the offset of its first
/// index from the start of the global range.
fn scatter_parameters(
    range: (usize, usize),
    process_count: usize,
    ranges: &Vec<Option<(usize, usize)>>,
) -> (parameters: (Vec<usize>, Vec<usize>))
    requires
        range.0 <= range.1,
        process_count > 0,
        ranges@.len() == process_count,
        forall|r: int|
            0 <= r < process_count ==> #[trigger] ranges@[r] == crate::partition::rank_range(
                range,
                process_count,
                r as usize,
            ),
    ensures
        parameters.0@.len() == process_count,
        parameters.1@.len() == process_count,
        forall|r: int|
            0 <= r < process_count ==> #[trigger] parameters.0@[r]
                == crate::partition::owned_count(
                (range.1 - range.0) as nat,
                process_count as nat,
                r as nat,
            ),
        forall|r: int|
            0 <= r < process_count ==> #[trigger] parameters.1@[r]
                == crate::partition::owned_offset(
                (range.1 - range.0) as nat,
                process_count as nat,
                r as nat,
            ),
{
    let ghost n = (range.1 - range.0) as nat;
    let ghost p = process_count as nat;
    let mut counts: Vec<usize> = Vec::with_capacity(process_count);
    let mut displacements: Vec<usize> = Vec::with_capacity(process_count);
    let mut total: usize = 0;
    let mut rank: usize = 0;
    while rank < process_count
        invariant
            rank <= process_count,
            range.0 <= range.1,
            n == range.1 - range.0,
            p == process_count,
            ranges@.len() == process_count,
            forall|r: int|
                0 <= r < process_count ==> #[trigger] ranges@[r] == crate::partition::rank_range(
                    range,
                    process_count,
                    r as usize,
                ),
            total == crate::partition::owned_offset(n, p, rank as nat),
            counts@.len() == rank,
            displacements@.len() == rank,
            forall|r: int|
                0 <= r < rank ==> #[trigger] counts@[r] == crate::partition::owned_count(
                    n,
                    p,
                    r as nat,
                ),
            forall|r: int|
                0 <= r < rank ==> #[trigger] displacements@[r] == crate::partition::owned_offset(
                    n,
                    p,
                    r as nat,
                ),
        decreases process_count - rank,
    {
        proof {
            crate::partition::lemma_rank_range_bounds(range, process_count, rank);
            crate::partition::lemma_partition_is_contiguous(n, p, rank as nat);
        }
        let count: usize = match ranges[rank] {
            Some((first, last)) => last - first,
            None => 0,
        };
        counts.push(count);
        displacements.push(total);
        total = total + count;
        rank += 1;
    }
    (counts, displacements)
}

impl DistributedIndexLayout {
    #[verifier::type_invariant]
    spec fn well_formed(self) -> bool {
        &&& self.global_range.0 <= self.global_range.1
        &&& self.my_rank < self.process_count
        &&& self.ranges@.len() == self.process_count
        &&& self.counts@.len() == self.process_count
        &&& self.displacements@.len() == self.process_count
        &&& forall|r: int|
            0 <= r < self.process_count ==> #[trigger] self.ranges@[r]
                == crate::partition::rank_range(self.global_range, self.process_count, r as usize)
        &&& forall|r: int|
            0 <= r < self.process_count ==> #[trigger] self.counts@[r]
                == crate::partition::owned_count(
                (self.global_range.1 - self.global_range.0) as nat,
                self.process_count as nat,
                r as nat,
            )
        &&& forall|r: int|
            0 <= r < self.process_count ==> #[trigger] self.displacements@[r]
                == crate::partition::owned_offset(
                (self.global_range.1 - self.global_range.0) as nat,
                self.process_count as nat,
                r as nat,
            )
        &&& match self.local_layout {
            Some(layout) => self.ranges@[self.my_rank as int] == Some(layout.spec_global_range()),
            None => self.ranges@[self.my_rank as int].is_none(),
        }
    }

    /// The number of ranks that the global range is split over.
    pub closed spec fn spec_process_count(&self) -> usize {
        self.process_count
    }

    /// The rank of this process.
    pub closed spec fn spec_my_rank(&self) -> usize {
        self.my_rank
    }

    /// The number of global indices.
    pub open spec fn spec_len(&self) -> nat {
        (self.spec_global_range().1 - self.spec_global_range().0) as nat
    }

    /// The number of indices that `rank` owns.
    pub open spec fn spec_count(&self, rank: usize) -> nat {
        crate::partition::owned_count(
            self.spec_len(),
            self.spec_process_count() as nat,
            rank as nat,
        )
    }

    /// The offset of the first index of `rank` from the start of the global range.
    pub open spec fn spec_displacement(&self, rank: usize) -> nat {
        crate::partition::owned_offset(
            self.spec_len(),
            self.spec_process_count() as nat,
            rank as nat,
        )
    }

    /// The layout of `global_range` split over `process_count` ranks, as rank
    /// `my_rank` sees it. Every rank that passes the same range and count gets
    /// the same partition.
    pub fn new(global_range: (usize, usize), process_count: usize, my_rank: usize) -> (layout: Self)
        requires
            global_range.0 <= global_range.1,
            my_rank < process_count,
        ensures
            layout.spec_global_range() == global_range,
            layout.spec_process_count() == process_count,
            layout.spec_my_rank() == my_rank,
    {
        let ranges = partition_ranges(global_range, process_count);
        let (counts, displacements) = scatter_parameters(global_range, process_count, &ranges);
        proof {
            crate::partition::lemma_rank_range_bounds(global_range, process_count, my_rank);
        }
        let local_layout = match ranges[my_rank] {
            Some(range) => Some(LocalIndexLayout::new(range)),
            None => None,
        };
        Self {
            global_range,
            process_count,
            my_rank,
            ranges,
            counts,
            displacements,
            local_layout,
        }
    }

    /// The number of ranks that the global range is split over.
    pub fn process_count(&self) -> (count: usize)
        ensures
            count == self.spec_process_count(),
            count > 0,
    {
        proof {
            use_type_invariant(self);
        }
        self.process_count
    }

    /// The rank of this process.
    pub fn my_rank(&self) -> (rank: usize)
        ensures
            rank == self.spec_my_rank(),
            rank < self.spec_process_count(),
    {
        proof {
            use_type_invariant(self);
        }
        self.my_rank
    }

    /// For every rank the number of indices it owns, in rank order: the
    /// counts of a scatter or gather over the whole group.
    pub fn counts(&self) -> (counts: &Vec<usize>)
        ensures
            counts@.len() == self.spec_process_count(),
            forall|r: int|
                0 <= r < counts@.len() ==> #[trigger] counts@[r] == self.spec_count(r as usize),
    {
        proof {
            use_type_invariant(self);
        }
        &self.counts
    }

    /// For every rank the offset of its first index from the start of the
    /// global range, in rank order; for a rank that owns nothing, the number
    /// of indices owned by the ranks below it.
    pub fn displacements(&self) -> (displacements: &Vec<usize>)
        ensures
            displacements@.len() == self.spec_process_count(),
            forall|r: int|
                0 <= r < displacements@.len() ==> #[trigger] displacements@[r]
                    == self.spec_displacement(r as usize),
    {
        proof {
            use_type_invariant(self);
        }
        &self.displacements
    }

    /// The layout of the range that this rank owns, `None` where it owns nothing.
    /// All vectors built on this distributed layout keep their local data
    /// against this one local layout.
    pub fn local_layout(&self) -> (local: Option<&LocalIndexLayout>)
        ensures
            match local {
                Some(layout) => {
                    &&& self.spec_local_range() == Some(layout.spec_global_range())
                    &&& layout.spec_global_range().0 < layout.spec_global_range().1
                },
                None => self.spec_local_range().is_none(),
            },
    {
        proof {
            use_type_invariant(self);
            crate::partition::lemma_rank_range_bounds(
                self.global_range,
                self.process_count,
                self.my_rank,
            );
        }
        self.local_layout.as_ref()
    }
}

impl IndexLayout for DistributedIndexLayout {
    closed spec fn spec_global_range(&self) -> (usize, usize) {
        self.global_range
    }

    open spec fn spec_local_range(&self) -> Option<(usize, usize)> {
        self.spec_index_range(self.spec_my_rank())
    }

    open spec fn has_rank(&self, rank: usize) -> bool {
        rank < self.spec_process_count()
    }

    open spec fn spec_index_range(&self, rank: usize) -> Option<(usize, usize)> {
        crate::partition::rank_range(self.spec_global_range(), self.spec_process_count(), rank)
    }

    fn local_range(&self) -> (range: Option<(usize, usize)>) {
        proof {
            use_type_invariant(self);
        }
        self.index_range(self.my_rank)
    }

    fn global_range(&self) -> (range: (usize, usize)) {
        proof {
            use_type_invariant(self);
        }
        self.global_range
    }

    fn number_of_global_indices(&self) -> (n: usize) {
        proof {
            use_type_invariant(self);
        }
        self.global_range.1 - self.global_range.0
    }

    fn number_of_local_indices(&self) -> (n: usize) {
        proof {
            use_type_invariant(self);
            crate::partition::lemma_rank_range_bounds(
                self.global_range,
                self.process_count,
                self.my_rank,
            );
        }
        match self.local_range() {
            Some((first, last)) => last - first,
            None => 0,
        }
    }

    fn index_range(&self, rank: usize) -> (range: Option<(usize, usize)>) {
        proof {
            use_type_invariant(self);
        }
        self.ranges[rank]
    }

    fn map(&self, index: usize) -> (global: Option<usize>) {
        proof {
            use_type_invariant(self);
            crate::partition::lemma_rank_range_bounds(
                self.global_range,
                self.process_count,
                self.my_rank,
            );
        }
        match self.local_range() {
            Some((first, last)) => if index < last - first {
                Some(first + index)
            } else {
                None
            },
            None => None,
        }
    }

    fn is_same(&self, other: &Self) -> (same: bool) {
        same_distributed_layout(self, other)
    }
}

/// Single-rank equivalence: a distributed layout with one rank has the
/// dimension and the local-to-global map of the local layout over the same
/// range, and, unless the range is empty, the same local range. Over an empty
/// range the one rank owns nothing, so its local range is `None`, while the
/// local layout reports the empty range itself.
pub proof fn lemma_single_rank_equivalence(
    distributed: DistributedIndexLayout,
    local: LocalIndexLayout,
)
    requires
        distributed.spec_process_count() == 1,
        distributed.spec_my_rank() == 0,
        distributed.spec_global_range() == local.spec_global_range(),
        local.spec_global_range().0 <= local.spec_global_range().1,
    ensures
        distributed.spec_len() == local.spec_len(),
        forall|index: usize|
            crate::index_layout::local_to_global(distributed.spec_local_range(), index)
                == crate::index_layout::local_to_global(local.spec_local_range(), index),
        local.spec_len() > 0 ==> distributed.spec_local_range() == local.spec_local_range(),
        local.spec_len() > 0 ==> distributed.spec_index_range(0) == local.spec_index_range(0),
        local.spec_len() == 0 ==> distributed.spec_local_range().is_none(),
{
    let range = local.spec_global_range();
    crate::partition::lemma_rank_range_bounds(range, 1, 0);
    crate::partition::lemma_partition_is_contiguous((range.1 - range.0) as nat, 1, 0);
}

/// Every rank computes the same partition: layouts over the same global
/// range and the same number of ranks agree on what each rank owns, whichever
/// rank they were built for.
pub proof fn lemma_every_rank_sees_the_same_partition(
    a: DistributedIndexLayout,
    b: DistributedIndexLayout,
    rank: usize,
)
    requires
        a.spec_global_range() == b.spec_global_range(),
        a.spec_process_count() == b.spec_process_count(),
    ensures
        a.spec_index_range(rank) == b.spec_index_range(rank),
        a.spec_count(rank) == b.spec_count(rank),
        a.spec_displacement(rank) == b.spec_displacement(rank),
        a.spec_my_rank() == rank ==> a.spec_local_range() == b.spec_index_range(rank),
{
}

} // verus!
