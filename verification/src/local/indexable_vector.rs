//! A dense vector over a local index layout.
use crate::index_layout::IndexLayout;
use crate::linalg::{
    AbsSquareSum, Fill, IndexableVector, Inner, MultSumInto, Norm1, Norm2, NormInf, ScalarMult,
    Swap,
};
use crate::local::index_layout::LocalIndexLayout;
use crate::scalar::{RealScalar, Scalar};
use crate::types::{SparseLinAlgError, SparseLinAlgResult};
use vstd::prelude::*;

verus! {

/// A dense buffer of scalars, one for each index of the layout it was built on.
pub struct LocalIndexableVector<'a, T: Scalar> {
    data: Vec<T>,
    index_layout: &'a LocalIndexLayout,
}

/// Read access to the elements of a vector.
pub struct LocalIndexableVectorView<'a, T: Scalar> {
    data: &'a Vec<T>,
}

/// Write access to the elements of a vector. Elements can be written
/// through it; the vector itself, its length and its layout stay.
pub struct LocalIndexableVectorViewMut<'b, 'a, T: Scalar> {
    vector: &'b mut LocalIndexableVector<'a, T>,
}

impl<'a, T: Scalar> View for LocalIndexableVectorView<'a, T> {
    type V = Seq<T>;

    closed spec fn view(&self) -> Seq<T> {
        self.data@
    }
}

impl<'a, T: Scalar> IndexableVector for LocalIndexableVector<'a, T> {
    type T = T;

    type Ind = LocalIndexLayout;

    closed spec fn values(&self) -> Seq<T> {
        self.data@
    }

    fn index_layout(&self) -> (layout: &LocalIndexLayout)
        ensures
            layout == self.spec_index_layout(),
            self.values().len() == layout.spec_len(),
    {
        proof {
            use_type_invariant(self);
        }
        self.index_layout
    }
}

impl<'a, T: Scalar> LocalIndexableVector<'a, T> {
    #[verifier::type_invariant]
    spec fn well_formed(self) -> bool {
        self.data@.len() == self.index_layout.spec_len()
    }

    /// The layout that the vector was built on.
    pub closed spec fn spec_index_layout(&self) -> &'a LocalIndexLayout {
        self.index_layout
    }

    /// A vector of zeros with one element for each index of `index_layout`.
    pub fn new(index_layout: &'a LocalIndexLayout) -> (vector: Self)
        ensures
            vector.spec_index_layout() == index_layout,
            vector.values().len() == index_layout.spec_len(),
            forall|i: int| 0 <= i < vector.values().len() ==> vector.values()[i] == T::zero_spec(),
    {
        let n = index_layout.number_of_global_indices();
        let mut data: Vec<T> = Vec::with_capacity(n);
        let mut i: usize = 0;
        while i < n
            invariant
                i <= n,
                data@.len() == i,
                forall|j: int| 0 <= j < i ==> data@[j] == T::zero_spec(),
            decreases n - i,
        {
            data.push(T::zero());
            i += 1;
        }
        LocalIndexableVector { data, index_layout }
    }

    /// The number of elements.
    pub fn len(&self) -> (n: usize)
        ensures
            n == self.values().len(),
    {
        self.data.len()
    }

    /// All elements, in order.
    pub fn as_slice(&self) -> (elements: &[T])
        ensures
            elements@ == self.values(),
    {
        self.data.as_slice()
    }

    /// Read access to the elements. A local vector always has one.
    pub fn view<'b>(&'b self) -> (view: Option<LocalIndexableVectorView<'b, T>>)
        ensures
            view is Some,
            view.unwrap()@ == self.values(),
    {
        Some(LocalIndexableVectorView { data: &self.data })
    }

    /// Write access to the elements. A local vector always has one. What
    /// the view shows after the last write is what the vector holds from then
    /// on.
    pub fn view_mut<'b>(&'b mut self) -> (view: Option<LocalIndexableVectorViewMut<'b, 'a, T>>)
        ensures
            view is Some,
            *view.unwrap().target() == *old(self),
            *final(self) == *final(view.unwrap().target()),
    {
        Some(LocalIndexableVectorViewMut { vector: self })
    }

    /// Mutable access to the element at `index`, `None` past the end.
    pub fn get_mut(&mut self, index: usize) -> (element: Option<&mut T>)
        ensures
            final(self).spec_index_layout() == old(self).spec_index_layout(),
            match element {
                Some(e) => {
                    &&& index < old(self).values().len()
                    &&& *e == old(self).values()[index as int]
                    &&& final(self).values() == old(self).values().update(index as int, *final(e))
                },
                None => {
                    &&& index >= old(self).values().len()
                    &&& final(self).values() == old(self).values()
                },
            },
    {
        proof {
            use_type_invariant(&*self);
        }
        if index < self.data.len() {
            Some(&mut self.data[index])
        } else {
            None
        }
    }

    /// Writes `value` at `index`; past the end nothing is written and the
    /// answer is `false`.
    pub fn set(&mut self, index: usize, value: T) -> (written: bool)
        ensures
            final(self).spec_index_layout() == old(self).spec_index_layout(),
            written == (index < old(self).values().len()),
            written ==> final(self).values() == old(self).values().update(index as int, value),
            !written ==> final(self).values() == old(self).values(),
    {
        proof {
            use_type_invariant(&*self);
        }
        if index < self.data.len() {
            self.data[index] = value;
            true
        } else {
            false
        }
    }
}

impl<'a, T: Scalar> LocalIndexableVector<'a, T> {
    /// The inner product with `other`, given whether the two vectors were
    /// found to stand on the same layout: the product if so, else the failure
    /// of the operation `inner`.
    pub fn inner_when(&self, other: &Self, same_layout: bool) -> (result: SparseLinAlgResult<T>)
        ensures
            same_layout ==> result is Ok && result->Ok_0 == crate::linalg::inner_product(
                self.values(),
                other.values(),
            ),
            !same_layout ==> result is Err && result->Err_0.is_failure_of("inner"@),
    {
        if !same_layout {
            return Err(SparseLinAlgError::operation_failed("inner"));
        }
        let n = if self.data.len() <= other.data.len() {
            self.data.len()
        } else {
            other.data.len()
        };
        let mut acc = T::zero();
        let mut i: usize = 0;
        while i < n
            invariant
                i <= n,
                n == crate::linalg::common_len(self.data@, other.data@),
                acc == crate::linalg::inner_upto(self.data@, other.data@, i as nat),
            decreases n - i,
        {
            acc = acc.add(self.data[i].mul(other.data[i].conj()));
            i += 1;
        }
        Ok(acc)
    }

    /// Exchanges the elements with those of `other`, given whether the two
    /// vectors were found to stand on the same layout; else both stay as they
    /// are and the operation `swap` fails.
    pub fn swap_when(&mut self, other: &mut Self, same_layout: bool) -> (result:
        SparseLinAlgResult<()>)
        ensures
            final(self).spec_index_layout() == old(self).spec_index_layout(),
            final(other).spec_index_layout() == old(other).spec_index_layout(),
            same_layout ==> result is Ok && final(self).values() == crate::linalg::overwritten(
                old(self).values(),
                old(other).values(),
            ) && final(other).values() == crate::linalg::overwritten(
                old(other).values(),
                old(self).values(),
            ),
            !same_layout ==> {
                &&& result is Err
                &&& result->Err_0.is_failure_of("swap"@)
                &&& final(self).values() == old(self).values()
                &&& final(other).values() == old(other).values()
            },
    {
        if !same_layout {
            return Err(SparseLinAlgError::operation_failed("swap"));
        }
        let n = if self.data.len() <= other.data.len() {
            self.data.len()
        } else {
            other.data.len()
        };
        let mut i: usize = 0;
        while i < n
            invariant
                i <= n,
                n == crate::linalg::common_len(old(self).values(), old(other).values()),
                self.spec_index_layout() == old(self).spec_index_layout(),
                other.spec_index_layout() == old(other).spec_index_layout(),
                self.values().len() == old(self).values().len(),
                other.values().len() == old(other).values().len(),
                forall|j: int|
                    0 <= j < i ==> self.values()[j] == old(other).values()[j] && other.values()[j]
                        == old(self).values()[j],
                forall|j: int|
                    i <= j < self.values().len() ==> self.values()[j] == old(self).values()[j],
                forall|j: int|
                    i <= j < other.values().len() ==> other.values()[j] == old(other).values()[j],
            decreases n - i,
        {
            let first = self.data[i];
            let second = other.data[i];
            self.set(i, second);
            other.set(i, first);
            i += 1;
        }
        assert(self.values() =~= crate::linalg::overwritten(
            old(self).values(),
            old(other).values(),
        ));
        assert(other.values() =~= crate::linalg::overwritten(
            old(other).values(),
            old(self).values(),
        ));
        Ok(())
    }

    /// Copies the elements of `other` into this vector, given whether the two
    /// vectors were found to stand on the same layout; else the vector stays
    /// as it is and the operation `fill` fails.
    pub fn fill_when(&mut self, other: &Self, same_layout: bool) -> (result: SparseLinAlgResult<()>)
        ensures
            final(self).spec_index_layout() == old(self).spec_index_layout(),
            same_layout ==> result is Ok && final(self).values() == crate::linalg::overwritten(
                old(self).values(),
                other.values(),
            ),
            !same_layout ==> {
                &&& result is Err
                &&& result->Err_0.is_failure_of("fill"@)
                &&& final(self).values() == old(self).values()
            },
    {
        if !same_layout {
            return Err(SparseLinAlgError::operation_failed("fill"));
        }
        let n = if self.data.len() <= other.data.len() {
            self.data.len()
        } else {
            other.data.len()
        };
        let mut i: usize = 0;
        while i < n
            invariant
                i <= n,
                n == crate::linalg::common_len(old(self).values(), other.values()),
                self.spec_index_layout() == old(self).spec_index_layout(),
                self.values().len() == old(self).values().len(),
                forall|j: int| 0 <= j < i ==> self.values()[j] == other.values()[j],
                forall|j: int|
                    i <= j < self.values().len() ==> self.values()[j] == old(self).values()[j],
            decreases n - i,
        {
            let value = other.data[i];
            self.set(i, value);
            i += 1;
        }
        Ok(())
    }

    /// Adds `scalar` times `other` to this vector, given whether the two
    /// vectors were found to stand on the same layout; else the vector stays
    /// as it is and the operation `mult_sum_into` fails.
    pub fn mult_sum_into_when(&mut self, other: &Self, scalar: T, same_layout: bool) -> (result:
        SparseLinAlgResult<()>)
        ensures
            final(self).spec_index_layout() == old(self).spec_index_layout(),
            same_layout ==> result is Ok && final(self).values() == crate::linalg::mult_sum(
                old(self).values(),
                other.values(),
                scalar,
            ),
            !same_layout ==> result is Err && result->Err_0.is_failure_of("mult_sum_into"@)
                && final(self).values() == old(self).values(),
    {
        if !same_layout {
            return Err(SparseLinAlgError::operation_failed("mult_sum_into"));
        }
        if scalar.is_zero() {
            assert(self.values() =~= crate::linalg::mult_sum(
                old(self).values(),
                other.values(),
                scalar,
            ));
            return Ok(());
        }
        let plain_sum = scalar.is_one();
        let n = if self.data.len() <= other.data.len() {
            self.data.len()
        } else {
            other.data.len()
        };
        let mut i: usize = 0;
        while i < n
            invariant
                i <= n,
                n == crate::linalg::common_len(old(self).values(), other.values()),
                !scalar.is_zero_spec(),
                plain_sum == scalar.is_one_spec(),
                self.spec_index_layout() == old(self).spec_index_layout(),
                self.values().len() == old(self).values().len(),
                forall|j: int|
                    0 <= j < i ==> self.values()[j] == crate::linalg::mult_sum_element(
                        old(self).values()[j],
                        other.values()[j],
                        scalar,
                    ),
                forall|j: int|
                    i <= j < self.values().len() ==> self.values()[j] == old(self).values()[j],
            decreases n - i,
        {
            let first = self.data[i];
            let second = other.data[i];
            let sum = if plain_sum {
                first.add(second)
            } else {
                first.add(scalar.mul(second))
            };
            self.set(i, sum);
            i += 1;
        }
        assert(self.values() =~= crate::linalg::mult_sum(
            old(self).values(),
            other.values(),
            scalar,
        ));
        Ok(())
    }
}

impl<'a, T: Scalar> Inner for LocalIndexableVector<'a, T> {
    /// The inner product with `other`, which must stand on the very layout
    /// that this vector stands on.
    fn inner(&self, other: &Self) -> (result: SparseLinAlgResult<T>)
        ensures
            result is Ok ==> self.spec_index_layout() == other.spec_index_layout(),
    {
        let same_layout = self.index_layout.is_same(other.index_layout);
        self.inner_when(other, same_layout)
    }
}

impl<'a, T: Scalar> AbsSquareSum for LocalIndexableVector<'a, T> {
    fn abs_square_sum(&self) -> (sum: T::Real) {
        let mut acc = T::Real::zero();
        let mut i: usize = 0;
        while i < self.data.len()
            invariant
                i <= self.data@.len(),
                acc == crate::linalg::square_sum_upto(self.data@, i as nat),
            decreases self.data@.len() - i,
        {
            acc = acc.add(self.data[i].square());
            i += 1;
        }
        acc
    }
}

impl<'a, T: Scalar> Norm1 for LocalIndexableVector<'a, T> {
    fn norm_1(&self) -> (norm: T::Real) {
        let mut acc = T::Real::zero();
        let mut i: usize = 0;
        while i < self.data.len()
            invariant
                i <= self.data@.len(),
                acc == crate::linalg::abs_sum_upto(self.data@, i as nat),
            decreases self.data@.len() - i,
        {
            acc = acc.add(self.data[i].abs());
            i += 1;
        }
        acc
    }
}

impl<'a, T: Scalar> Norm2 for LocalIndexableVector<'a, T> {
    fn norm_2(&self) -> (norm: T::Real) {
        self.abs_square_sum().sqrt()
    }
}

impl<'a, T: Scalar> NormInf for LocalIndexableVector<'a, T> {
    fn norm_inf(&self) -> (norm: T::Real) {
        let mut acc = T::Real::neg_infinity();
        let mut i: usize = 0;
        while i < self.data.len()
            invariant
                i <= self.data@.len(),
                acc == crate::linalg::abs_max_upto(self.data@, i as nat),
            decreases self.data@.len() - i,
        {
            acc = acc.max(self.data[i].abs());
            i += 1;
        }
        acc
    }
}

impl<'a, T: Scalar> Swap for LocalIndexableVector<'a, T> {
    /// Exchanges the elements with those of `other`, which must stand on the
    /// very layout that this vector stands on.
    fn swap(&mut self, other: &mut Self) -> (result: SparseLinAlgResult<()>)
        ensures
            final(self).spec_index_layout() == old(self).spec_index_layout(),
            final(other).spec_index_layout() == old(other).spec_index_layout(),
            result is Ok ==> old(self).spec_index_layout() == old(other).spec_index_layout(),
    {
        proof {
            use_type_invariant(&*self);
            use_type_invariant(&*other);
        }
        let same_layout = self.index_layout.is_same(other.index_layout);
        self.swap_when(other, same_layout)
    }
}

impl<'a, T: Scalar> Fill for LocalIndexableVector<'a, T> {
    /// Copies the elements of `other`, which must stand on the very layout
    /// that this vector stands on.
    fn fill(&mut self, other: &Self) -> (result: SparseLinAlgResult<()>)
        ensures
            final(self).spec_index_layout() == old(self).spec_index_layout(),
            result is Ok ==> old(self).spec_index_layout() == other.spec_index_layout(),
    {
        proof {
            use_type_invariant(&*self);
            use_type_invariant(other);
        }
        let same_layout = self.index_layout.is_same(other.index_layout);
        self.fill_when(other, same_layout)
    }
}

impl<'a, T: Scalar> ScalarMult for LocalIndexableVector<'a, T> {
    fn scalar_mult(&mut self, scalar: T)
        ensures
            final(self).spec_index_layout() == old(self).spec_index_layout(),
    {
        let n = self.data.len();
        let mut i: usize = 0;
        while i < n
            invariant
                i <= n,
                n == old(self).values().len(),
                self.spec_index_layout() == old(self).spec_index_layout(),
                self.values().len() == n,
                forall|j: int|
                    0 <= j < i ==> self.values()[j] == old(self).values()[j].mul_spec(scalar),
                forall|j: int| i <= j < n ==> self.values()[j] == old(self).values()[j],
            decreases n - i,
        {
            let product = self.data[i].mul(scalar);
            self.set(i, product);
            i += 1;
        }
    }
}

impl<'a, T: Scalar> MultSumInto for LocalIndexableVector<'a, T> {
    /// Adds `scalar` times `other`, which must stand on the very layout that
    /// this vector stands on.
    fn mult_sum_into(&mut self, other: &Self, scalar: T) -> (result: SparseLinAlgResult<()>)
        ensures
            final(self).spec_index_layout() == old(self).spec_index_layout(),
            result is Ok ==> old(self).spec_index_layout() == other.spec_index_layout(),
    {
        let same_layout = self.index_layout.is_same(other.index_layout);
        self.mult_sum_into_when(other, scalar, same_layout)
    }
}

impl<'b, 'a, T: Scalar> View for LocalIndexableVectorViewMut<'b, 'a, T> {
    type V = Seq<T>;

    open spec fn view(&self) -> Seq<T> {
        self.target().values()
    }
}

impl<'b, 'a, T: Scalar> LocalIndexableVectorViewMut<'b, 'a, T> {
    /// The reference to the vector that is written to.
    pub closed spec fn target(&self) -> &'b mut LocalIndexableVector<'a, T> {
        self.vector
    }

    /// Once nothing is written through the view any more, the vector holds
    /// for good what the view shows.
    pub proof fn lemma_last_write_stays(self)
        requires
            has_resolved(self),
        ensures
            *final(self.target()) == *self.target(),
    {
    }

    /// The element at `index`, `None` past the end.
    pub fn get(&self, index: usize) -> (element: Option<&T>)
        ensures
            index < self@.len() ==> element == Some(&self@[index as int]),
            index >= self@.len() ==> element is None,
    {
        if index < self.vector.data.len() {
            Some(&self.vector.data[index])
        } else {
            None
        }
    }

    /// The element at `index`, which the caller knows to exist.
    pub fn get_unchecked(&self, index: usize) -> (element: &T)
        requires
            index < self@.len(),
        ensures
            *element == self@[index as int],
    {
        &self.vector.data[index]
    }

    /// The number of elements.
    pub fn len(&self) -> (n: usize)
        ensures
            n == self@.len(),
    {
        self.vector.data.len()
    }

    /// Writes `value` at `index`; past the end nothing is written and the
    /// answer is `false`.
    pub fn set(&mut self, index: usize, value: T) -> (written: bool)
        ensures
            *final(final(self).target()) == *final(old(self).target()),
            final(self).target().spec_index_layout() == old(self).target().spec_index_layout(),
            written == (index < old(self)@.len()),
            written ==> final(self)@ == old(self)@.update(index as int, value),
            !written ==> final(self)@ == old(self)@,
    {
        self.vector.set(index, value)
    }

    /// Mutable access to the element at `index`, `None` past the end.
    pub fn get_mut(&mut self, index: usize) -> (element: Option<&mut T>)
        ensures
            *final(final(self).target()) == *final(old(self).target()),
            final(self).target().spec_index_layout() == old(self).target().spec_index_layout(),
            match element {
                Some(e) => {
                    &&& index < old(self)@.len()
                    &&& *e == old(self)@[index as int]
                    &&& final(self)@ == old(self)@.update(index as int, *final(e))
                },
                None => index >= old(self)@.len() && final(self)@ == old(self)@,
            },
    {
        self.vector.get_mut(index)
    }

    /// Mutable access to the element at `index`, which the caller knows to
    /// exist.
    pub fn get_unchecked_mut(&mut self, index: usize) -> (element: &mut T)
        requires
            index < old(self)@.len(),
        ensures
            *final(final(self).target()) == *final(old(self).target()),
            final(self).target().spec_index_layout() == old(self).target().spec_index_layout(),
            *element == old(self)@[index as int],
            final(self)@ == old(self)@.update(index as int, *final(element)),
    {
        proof {
            use_type_invariant(&*self.vector);
        }
        &mut self.vector.data[index]
    }
}

impl<'a, T: Scalar> LocalIndexableVectorView<'a, T> {
    /// The element at `index`, `None` past the end.
    pub fn get(&self, index: usize) -> (element: Option<&T>)
        ensures
            index < self@.len() ==> element == Some(&self@[index as int]),
            index >= self@.len() ==> element is None,
    {
        if index < self.data.len() {
            Some(&self.data[index])
        } else {
            None
        }
    }

    /// The element at `index`, which the caller knows to exist.
    pub fn get_unchecked(&self, index: usize) -> (element: &T)
        requires
            index < self@.len(),
        ensures
            *element == self@[index as int],
    {
        &self.data[index]
    }

    /// The number of elements.
    pub fn len(&self) -> (n: usize)
        ensures
            n == self@.len(),
    {
        self.data.len()
    }

    /// All elements, in order.
    pub fn data(&self) -> (data: &'a [T])
        ensures
            data@ == self@,
    {
        self.data.as_slice()
    }
}

} // verus!
