//! The capability shared by all index layouts.
use vstd::prelude::*;

verus! {

/// Where local position `index` of the owned range `local` lies in the global
/// index space: `local.0 + index` inside the range, `None` outside it or where
/// nothing is owned.
pub open spec fn local_to_global(local: Option<(usize, usize)>, index: usize) -> Option<usize> {
    match local {
        Some((first, last)) => if index < last - first {
            Some((first + index) as usize)
        } else {
            None
        },
        None => None,
    }
}

/// Local-to-global round trip: a valid local position of the owned range
/// `(first, last)` maps to a global index of that range, and subtracting the
/// start of the range gives the local position back.
pub proof fn lemma_map_round_trip(first: usize, last: usize, index: usize)
    requires
        first <= last,
        index < last - first,
    ensures
        local_to_global(Some((first, last)), index) is Some,
        local_to_global(Some((first, last)), index).unwrap() - first == index,
        first <= local_to_global(Some((first, last)), index).unwrap() < last,
{
}

/// A map between the contiguous local positions `0..n_local` of one rank and
/// the global index space.
pub trait IndexLayout: Sized {
    /// The half-open range of all global indices.
    spec fn spec_global_range(&self) -> (usize, usize);

    /// The range of global indices that this rank owns, `None` where it owns nothing.
    spec fn spec_local_range(&self) -> Option<(usize, usize)>;

    /// Whether the layout knows a rank of this number.
    spec fn has_rank(&self, rank: usize) -> bool;

    /// The range of global indices that `rank` owns, `None` where it owns nothing.
    spec fn spec_index_range(&self, rank: usize) -> Option<(usize, usize)>;

    /// The local index range.
    fn local_range(&self) -> (range: Option<(usize, usize)>)
        ensures
            range == self.spec_local_range(),
    ;

    /// The global range.
    fn global_range(&self) -> (range: (usize, usize))
        ensures
            range == self.spec_global_range(),
            range.0 <= range.1,
    ;

    /// The global number of indices.
    fn number_of_global_indices(&self) -> (n: usize)
        ensures
            n == self.spec_global_range().1 - self.spec_global_range().0,
    ;

    /// The number of indices that this rank owns.
    fn number_of_local_indices(&self) -> (n: usize)
        ensures
            n == crate::partition::range_width(self.spec_local_range()),
    ;

    /// The index range of a given rank.
    fn index_range(&self, rank: usize) -> (range: Option<(usize, usize)>)
        requires
            self.has_rank(rank),
        ensures
            range == self.spec_index_range(rank),
    ;

    /// Converts a local position to the global index it stands for.
    ///
    /// With the local range `(30, 40)` the positions `0..10` map to `30..40`,
    /// and every other position to `None`.
    fn map(&self, index: usize) -> (global: Option<usize>)
        ensures
            global == local_to_global(self.spec_local_range(), index),
    ;

    /// Whether `other` is this very layout, not merely one of equal value.
    ///
    /// Vectors can be combined only if they were built on the same layout
    /// object. Two layouts built apart from the same arguments are not the same.
    fn is_same(&self, other: &Self) -> (same: bool)
        ensures
            same ==> self == other,
    ;
}

} // verus!
