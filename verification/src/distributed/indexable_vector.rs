//! A dense vector whose elements are split over the ranks of a process group.
//!
//! Every rank keeps the elements of the indices it owns. A global quantity is
//! computed in two steps: the rank computes its own contribution from its
//! local elements, and a collective reduction over all ranks combines the
//! contributions. The reduction itself is the caller's: each operation takes
//! it as a function from this rank's contribution to the combined value, and
//! every rank has to call the same operations in the same order.
use crate::distributed::index_layout::DistributedIndexLayout;
use crate::index_layout::IndexLayout;
use crate::linalg::{AbsSquareSum, IndexableVector, Norm1, NormInf};
use crate::local::indexable_vector::{
    LocalIndexableVector, LocalIndexableVectorView, LocalIndexableVectorViewMut,
};
use crate::scalar::{RealScalar, Scalar};
use crate::types::{SparseLinAlgError, SparseLinAlgResult};
use vstd::prelude::*;

verus! {

/// The part of a distributed vector that this rank owns: a local vector over
/// the owned range, or nothing where the rank owns no index.
pub struct DistributedIndexableVector<'a, T: Scalar> {
    index_layout: &'a DistributedIndexLayout,
    local: Option<LocalIndexableVector<'a, T>>,
}

impl<'a, T: Scalar> IndexableVector for DistributedIndexableVector<'a, T> {
    type T = T;

    type Ind = DistributedIndexLayout;

    /// The elements that this rank holds, in order; none where it owns nothing.
    open spec fn values(&self) -> Seq<T> {
        match self.spec_local() {
            Some(local) => local.values(),
            None => Seq::empty(),
        }
    }

    fn index_layout(&self) -> (layout: &DistributedIndexLayout)
        ensures
            layout == self.spec_index_layout(),
    {
        self.index_layout
    }
}

impl<'a, T: Scalar> DistributedIndexableVector<'a, T> {
    /// The layout that the vector was built on.
    pub closed spec fn spec_index_layout(&self) -> &'a DistributedIndexLayout {
        self.index_layout
    }

    /// The local vector, `None` where this rank owns nothing.
    pub closed spec fn spec_local(&self) -> Option<LocalIndexableVector<'a, T>> {
        self.local
    }

    /// Whether the vector holds local data exactly if its rank owns an index,
    /// and holds it over the range that the rank owns. Every vector starts
    /// out so, and no operation of the vector changes it.
    pub open spec fn is_consistent(&self) -> bool {
        match self.spec_local() {
            Some(local) => self.spec_index_layout().spec_local_range() == Some(
                local.spec_index_layout().spec_global_range(),
            ),
            None => self.spec_index_layout().spec_local_range().is_none(),
        }
    }

    /// The part of a vector of zeros that this rank owns: a local vector over
    /// the owned range if the rank owns any index, else nothing.
    pub fn new(index_layout: &'a DistributedIndexLayout) -> (vector: Self)
        ensures
            vector.is_consistent(),
            vector.spec_index_layout() == index_layout,
            vector.spec_local() is Some <==> index_layout.spec_local_range() is Some,
            vector.values().len() == crate::partition::range_width(
                index_layout.spec_local_range(),
            ),
            forall|i: int| 0 <= i < vector.values().len() ==> vector.values()[i] == T::zero_spec(),
    {
        let local = match index_layout.local_layout() {
            Some(layout) => Some(LocalIndexableVector::new(layout)),
            None => None,
        };
        DistributedIndexableVector { index_layout, local }
    }

    /// The local vector, `None` where this rank owns nothing.
    pub fn local(&self) -> (local: Option<&LocalIndexableVector<'a, T>>)
        ensures
            match local {
                Some(vector) => self.spec_local() == Some(*vector),
                None => self.spec_local().is_none(),
            },
    {
        self.local.as_ref()
    }

    /// Read access to the local elements, `None` where this rank owns nothing.
    pub fn view<'b>(&'b self) -> (view: Option<LocalIndexableVectorView<'b, T>>)
        ensures
            view is Some <==> self.spec_local() is Some,
            view is Some ==> view.unwrap()@ == self.values(),
    {
        match &self.local {
            Some(local) => local.view(),
            None => None,
        }
    }

    /// Write access to the local elements, `None` where this rank owns
    /// nothing. What the view shows after the last write is what the local
    /// vector holds from then on.
    pub fn view_mut<'b>(&'b mut self) -> (view: Option<LocalIndexableVectorViewMut<'b, 'a, T>>)
        ensures
            final(self).spec_index_layout() == old(self).spec_index_layout(),
            match view {
                Some(view) => {
                    &&& old(self).spec_local() == Some(*view.target())
                    &&& final(self).spec_local() == Some(*final(view.target()))
                },
                None => old(self).spec_local() is None && final(self).spec_local() is None,
            },
    {
        match &mut self.local {
            Some(local) => local.view_mut(),
            None => None,
        }
    }

    /// The inner product with `other` over all ranks, given whether the two
    /// vectors were found to stand on the same layout. This rank contributes
    /// the inner product of its local elements, zero where it has none, and
    /// `all_reduce_sum` turns the contribution into the sum over all ranks,
    /// which is returned. Where the layouts differ, the operation `inner`
    /// fails and no reduction is started.
    pub fn inner_when<F: FnOnce(T) -> T>(
        &self,
        other: &Self,
        same_layout: bool,
        all_reduce_sum: F,
    ) -> (result: SparseLinAlgResult<T>)
        requires
            call_requires(
                all_reduce_sum,
                (crate::linalg::inner_product(self.values(), other.values()),),
            ),
        ensures
            same_layout ==> result is Ok && call_ensures(
                all_reduce_sum,
                (crate::linalg::inner_product(self.values(), other.values()),),
                result->Ok_0,
            ),
            !same_layout ==> result is Err && result->Err_0.is_failure_of("inner"@),
    {
        if !same_layout {
            return Err(SparseLinAlgError::operation_failed("inner"));
        }
        let contribution = match (&self.local, &other.local) {
            (Some(mine), Some(theirs)) => {
                match mine.inner_when(theirs, true) {
                    Ok(product) => product,
                    Err(_) => T::zero(),
                }
            },
            _ => T::zero(),
        };
        Ok(all_reduce_sum(contribution))
    }

    /// The inner product with `other` over all ranks. `other` must stand on
    /// the very layout that this vector stands on; see [`Self::inner_when`]
    /// for what is computed.
    pub fn inner<F: FnOnce(T) -> T>(&self, other: &Self, all_reduce_sum: F) -> (result:
        SparseLinAlgResult<T>)
        requires
            call_requires(
                all_reduce_sum,
                (crate::linalg::inner_product(self.values(), other.values()),),
            ),
        ensures
            match result {
                Ok(product) => {
                    &&& self.spec_index_layout() == other.spec_index_layout()
                    &&& call_ensures(
                        all_reduce_sum,
                        (crate::linalg::inner_product(self.values(), other.values()),),
                        product,
                    )
                },
                Err(e) => e.is_failure_of("inner"@),
            },
    {
        let same_layout = self.index_layout.is_same(other.index_layout);
        self.inner_when(other, same_layout, all_reduce_sum)
    }

    /// The sum of the squared absolute values over all ranks. This rank
    /// contributes the sum over its local elements, zero where it has none,
    /// and `all_reduce_sum` turns the contribution into the sum over all ranks.
    pub fn abs_square_sum<F: FnOnce(T::Real) -> T::Real>(&self, all_reduce_sum: F) -> (sum: T::Real)
        requires
            call_requires(all_reduce_sum, (crate::linalg::square_sum(self.values()),)),
        ensures
            call_ensures(all_reduce_sum, (crate::linalg::square_sum(self.values()),), sum),
    {
        let contribution = match &self.local {
            Some(local) => local.abs_square_sum(),
            None => T::Real::zero(),
        };
        all_reduce_sum(contribution)
    }

    /// The 1-norm over all ranks. This rank contributes the sum of the
    /// absolute values of its local elements, zero where it has none, and
    /// `all_reduce_sum` turns the contribution into the sum over all ranks.
    pub fn norm_1<F: FnOnce(T::Real) -> T::Real>(&self, all_reduce_sum: F) -> (norm: T::Real)
        requires
            call_requires(all_reduce_sum, (crate::linalg::abs_sum(self.values()),)),
        ensures
            call_ensures(all_reduce_sum, (crate::linalg::abs_sum(self.values()),), norm),
    {
        let contribution = match &self.local {
            Some(local) => local.norm_1(),
            None => T::Real::zero(),
        };
        all_reduce_sum(contribution)
    }

    /// The 2-norm over all ranks: the square root of what
    /// [`Self::abs_square_sum`] returns. The square root is taken of the
    /// reduced sum; it is not reduced itself.
    pub fn norm_2<F: FnOnce(T::Real) -> T::Real>(&self, all_reduce_sum: F) -> (norm: T::Real)
        requires
            call_requires(all_reduce_sum, (crate::linalg::square_sum(self.values()),)),
        ensures
            exists|sum: T::Real|
                call_ensures(all_reduce_sum, (crate::linalg::square_sum(self.values()),), sum)
                    && norm == sum.sqrt_spec(),
    {
        self.abs_square_sum(all_reduce_sum).sqrt()
    }

    /// The supremum norm over all ranks. This rank contributes the largest
    /// absolute value of its local elements, and negative infinity where it
    /// has none, so that a rank without elements never decides the result;
    /// `all_reduce_max` turns the contribution into the maximum over all ranks.
    pub fn norm_infty<F: FnOnce(T::Real) -> T::Real>(&self, all_reduce_max: F) -> (norm: T::Real)
        requires
            call_requires(all_reduce_max, (crate::linalg::abs_max(self.values()),)),
        ensures
            call_ensures(all_reduce_max, (crate::linalg::abs_max(self.values()),), norm),
    {
        let contribution = match &self.local {
            Some(local) => local.norm_inf(),
            None => T::Real::neg_infinity(),
        };
        all_reduce_max(contribution)
    }

    /// Fills the vector from a vector that the root rank holds. The root,
    /// rank 0, passes the vector of all elements as `source`; every other
    /// rank passes `None`. `scatter` is the variable-count scatter of the
    /// process group: the root hands it the whole buffer, and every rank
    /// hands it the counts and displacements of the layout and gets back the
    /// elements of its own range, which become its local elements.
    ///
    /// A rank that gets back another number of elements than it owns leaves
    /// its vector as it is and reports the dimension mismatch.
    pub fn fill_from_root<F>(
        &mut self,
        source: Option<&LocalIndexableVector<'_, T>>,
        scatter: F,
    ) -> (result: SparseLinAlgResult<()>) where
        F: FnOnce(Option<&[T]>, &[usize], &[usize]) -> Vec<T>,

        requires
            old(self).spec_index_layout().spec_my_rank() == 0 <==> source is Some,
            source is Some ==> source.unwrap().values().len() == old(
                self
            ).spec_index_layout().spec_len(),
            old(self).may_scatter(source, scatter),
        ensures
            final(self).spec_index_layout() == old(self).spec_index_layout(),
            old(self).is_consistent() ==> final(self).is_consistent(),
            match result {
                Ok(_) => {
                    &&& old(self).scatter_delivers(source, scatter, final(self).values())
                    &&& final(self).values().len() == old(self).values().len()
                },
                Err(SparseLinAlgError::SingleDimensionError { expected, actual }) => {
                    &&& expected == old(self).values().len()
                    &&& actual != expected
                    &&& final(self).values() == old(self).values()
                    &&& exists|received: Seq<T>|
                        received.len() == actual && #[trigger] old(self).scatter_delivers(
                            source,
                            scatter,
                            received,
                        )
                },
                Err(_) => false,
            },
    {
        let buffer: Option<&[T]> = match source {
            Some(vector) => Some(vector.as_slice()),
            None => None,
        };
        let counts = self.index_layout.counts().as_slice();
        let displacements = self.index_layout.displacements().as_slice();
        let received = scatter(buffer, counts, displacements);
        let expected = match &self.local {
            Some(local) => local.len(),
            None => 0,
        };
        assert(old(self).scatter_delivers(source, scatter, received@));
        if received.len() != expected {
            return Err(
                SparseLinAlgError::SingleDimensionError { expected, actual: received.len() },
            );
        }
        match &mut self.local {
            Some(local) => {
                let mut i: usize = 0;
                while i < expected
                    invariant
                        i <= expected,
                        expected == received@.len(),
                        local.values().len() == expected,
                        local.spec_index_layout() == old(
                            self
                        ).spec_local().unwrap().spec_index_layout(),
                        forall|j: int| 0 <= j < i ==> local.values()[j] == received@[j],
                    decreases expected - i,
                {
                    local.set(i, received[i]);
                    i += 1;
                }
                assert(local.values() =~= received@);
            },
            None => {
                assert(received@ =~= Seq::<T>::empty());
            },
        }
        Ok(())
    }

    /// Whether `scatter` may be called with what this rank hands to it.
    pub open spec fn may_scatter<F: FnOnce(Option<&[T]>, &[usize], &[usize]) -> Vec<T>>(
        &self,
        source: Option<&LocalIndexableVector<'_, T>>,
        scatter: F,
    ) -> bool {
        forall|buffer: Option<&[T]>, counts: &[usize], displacements: &[usize]|
            self.is_scatter_request(source, buffer, counts, displacements)
                ==> #[trigger] call_requires(scatter, (buffer, counts, displacements))
    }

    /// Whether `received` is what `scatter` may return when it is called with
    /// what this rank hands to it.
    pub open spec fn scatter_delivers<F: FnOnce(Option<&[T]>, &[usize], &[usize]) -> Vec<T>>(
        &self,
        source: Option<&LocalIndexableVector<'_, T>>,
        scatter: F,
        received: Seq<T>,
    ) -> bool {
        exists|buffer: Option<&[T]>, counts: &[usize], displacements: &[usize], part: Vec<T>|
            {
                &&& self.is_scatter_request(source, buffer, counts, displacements)
                &&& #[trigger] call_ensures(scatter, (buffer, counts, displacements), part)
                &&& part@ == received
            }
    }

    /// Whether `buffer`, `counts` and `displacements` are what this rank hands
    /// to a scatter from the root: the elements of `source` where there is
    /// one, and for every rank the number of indices it owns and the offset of
    /// its first index.
    pub open spec fn is_scatter_request(
        &self,
        source: Option<&LocalIndexableVector<'_, T>>,
        buffer: Option<&[T]>,
        counts: &[usize],
        displacements: &[usize],
    ) -> bool {
        let layout = self.spec_index_layout();
        &&& match source {
            Some(vector) => buffer is Some && buffer.unwrap()@ == vector.values(),
            None => buffer is None,
        }
        &&& counts@.len() == layout.spec_process_count()
        &&& displacements@.len() == layout.spec_process_count()
        &&& forall|r: int|
            0 <= r < counts@.len() ==> #[trigger] counts@[r] == layout.spec_count(r as usize)
        &&& forall|r: int|
            0 <= r < displacements@.len() ==> #[trigger] displacements@[r]
                == layout.spec_displacement(r as usize)
    }
}

/// What a rank without indices contributes: zero to every sum, and negative
/// infinity to the maximum of the absolute values, so that it never decides
/// the supremum norm.
pub proof fn lemma_rank_without_indices_contributes_nothing<T: Scalar>(
    vector: DistributedIndexableVector<'_, T>,
    other: DistributedIndexableVector<'_, T>,
)
    requires
        vector.spec_local() is None,
    ensures
        crate::linalg::inner_product(vector.values(), other.values()) == T::zero_spec(),
        crate::linalg::inner_product(other.values(), vector.values()) == T::zero_spec(),
        crate::linalg::square_sum(vector.values()) == T::Real::zero_spec(),
        crate::linalg::abs_sum(vector.values()) == T::Real::zero_spec(),
        crate::linalg::abs_max(vector.values()) == T::Real::neg_infinity_spec(),
{
}

} // verus!
