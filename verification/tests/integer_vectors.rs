//! Vectors and matrices over `i64`, whose arithmetic is exact until it wraps.
use sparse_core::distributed::index_layout::DistributedIndexLayout;
use sparse_core::distributed::indexable_vector::DistributedIndexableVector;
use sparse_core::distributed::scatter::scatter_part;
use sparse_core::index_layout::IndexLayout;
use sparse_core::linalg::{
    AbsSquareSum, Fill, IndexableVector, Inner, MultSumInto, Norm1, Norm2, NormInf, ScalarMult,
    Swap,
};
use sparse_core::local::index_layout::LocalIndexLayout;
use sparse_core::local::indexable_vector::LocalIndexableVector;
use sparse_core::local::sparse::csr_mat::CsrMatrix;
use sparse_core::local::sparse::SparseMatType;
use sparse_core::scalar::{RealScalar, Scalar};
use sparse_core::types::SparseLinAlgError;

fn local_vector<'a>(layout: &'a LocalIndexLayout, values: &[i64]) -> LocalIndexableVector<'a, i64> {
    let mut vector = LocalIndexableVector::new(layout);
    for (index, value) in values.iter().enumerate() {
        assert!(vector.set(index, *value));
    }
    vector
}

fn elements(vector: &LocalIndexableVector<'_, i64>) -> Vec<i64> {
    vector.view().unwrap().data().to_vec()
}

/// The part of the global vector `v[i] = i` that the rank of `layout` owns.
fn ramp<'a>(layout: &'a DistributedIndexLayout) -> DistributedIndexableVector<'a, i64> {
    let mut vector = DistributedIndexableVector::new(layout);
    for index in 0..layout.number_of_local_indices() {
        let global = layout.map(index).unwrap();
        *vector.view_mut().unwrap().get_mut(index).unwrap() = global as i64;
    }
    vector
}

fn is_failure_of(error: &SparseLinAlgError, operation: &str) -> bool {
    matches!(error, SparseLinAlgError::OperationFailed(name) if name == operation)
}

#[test]
fn new_vector_is_zero() {
    let layout = LocalIndexLayout::new((3, 8));
    let vector = LocalIndexableVector::<i64>::new(&layout);
    assert_eq!(elements(&vector), vec![0, 0, 0, 0, 0]);
    assert_eq!(vector.len(), 5);
    assert!(vector.index_layout().is_same(&layout));
}

#[test]
fn element_access_is_bounds_checked() {
    let layout = LocalIndexLayout::new((0, 2));
    let mut vector = local_vector(&layout, &[5, 6]);

    assert_eq!(vector.view().unwrap().get(1), Some(&6));
    assert_eq!(vector.view().unwrap().get(2), None);
    assert_eq!(vector.view().unwrap().len(), 2);
    assert_eq!(*vector.view().unwrap().get_unchecked(0), 5);
    assert!(vector.get_mut(2).is_none());
    assert!(!vector.set(2, 9));
    *vector.get_mut(0).unwrap() = 7;
    assert!(vector.view_mut().unwrap().set(1, 8));
    assert!(!vector.view_mut().unwrap().set(2, 8));
    assert_eq!(vector.view_mut().unwrap().get(0), Some(&7));
    assert_eq!(vector.view_mut().unwrap().len(), 2);
    assert_eq!(vector.as_slice(), &[7, 8]);
}

#[test]
fn local_kernels_on_exact_values() {
    let layout = LocalIndexLayout::new((0, 3));
    let a = local_vector(&layout, &[1, -2, 3]);
    let b = local_vector(&layout, &[4, 5, -6]);

    assert_eq!(a.inner(&b).unwrap(), 4 - 10 - 18);
    assert_eq!(a.abs_square_sum(), 14);
    assert_eq!(a.norm_1(), 6);
    assert_eq!(a.norm_inf(), 3);
    // The floor of the square root of 14.
    assert_eq!(a.norm_2(), 3);

    let c = local_vector(&layout, &[3, 4, 0]);
    assert_eq!(c.norm_2(), 5);
}

#[test]
fn swap_fill_and_scale() {
    let layout = LocalIndexLayout::new((0, 2));
    let mut a = local_vector(&layout, &[1, 2]);
    let mut b = local_vector(&layout, &[3, 4]);

    a.swap(&mut b).unwrap();
    assert_eq!(elements(&a), vec![3, 4]);
    assert_eq!(elements(&b), vec![1, 2]);

    a.fill(&b).unwrap();
    assert_eq!(elements(&a), vec![1, 2]);
    assert_eq!(elements(&b), vec![1, 2]);

    a.scalar_mult(-3);
    assert_eq!(elements(&a), vec![-3, -6]);
}

#[test]
fn mult_sum_into_takes_the_short_ways_for_zero_and_one() {
    let layout = LocalIndexLayout::new((0, 2));
    let b = local_vector(&layout, &[10, 20]);

    let mut a = local_vector(&layout, &[1, 2]);
    a.mult_sum_into(&b, 0).unwrap();
    assert_eq!(elements(&a), vec![1, 2]);

    a.mult_sum_into(&b, 1).unwrap();
    assert_eq!(elements(&a), vec![11, 22]);

    a.mult_sum_into(&b, 3).unwrap();
    assert_eq!(elements(&a), vec![41, 82]);
}

#[test]
fn separate_layouts_of_equal_value_do_not_mix() {
    let layout = LocalIndexLayout::new((0, 2));
    let twin = LocalIndexLayout::new((0, 2));
    let mut a = local_vector(&layout, &[1, 2]);
    let mut b = local_vector(&twin, &[3, 4]);

    assert!(is_failure_of(&a.inner(&b).unwrap_err(), "inner"));
    assert!(is_failure_of(&a.swap(&mut b).unwrap_err(), "swap"));
    assert!(is_failure_of(&a.fill(&b).unwrap_err(), "fill"));
    assert!(is_failure_of(&a.mult_sum_into(&b, 2).unwrap_err(), "mult_sum_into"));

    // Nothing was computed or moved.
    assert_eq!(elements(&a), vec![1, 2]);
    assert_eq!(elements(&b), vec![3, 4]);

    // On one layout the same operations go through.
    let mut c = local_vector(&layout, &[3, 4]);
    assert_eq!(a.inner(&c).unwrap(), 11);
    a.swap(&mut c).unwrap();
    a.fill(&c).unwrap();
    a.mult_sum_into(&c, 2).unwrap();
    assert_eq!(elements(&a), vec![3, 6]);
}

#[test]
fn operations_follow_what_was_found_of_the_layouts() {
    let layout = LocalIndexLayout::new((0, 2));
    let mut a = local_vector(&layout, &[1, 2]);
    let mut b = local_vector(&layout, &[3, 4]);

    assert!(is_failure_of(&a.inner_when(&b, false).unwrap_err(), "inner"));
    assert!(is_failure_of(&a.swap_when(&mut b, false).unwrap_err(), "swap"));
    assert!(is_failure_of(&a.fill_when(&b, false).unwrap_err(), "fill"));
    assert!(is_failure_of(&a.mult_sum_into_when(&b, 2, false).unwrap_err(), "mult_sum_into"));
    assert_eq!(elements(&a), vec![1, 2]);
    assert_eq!(elements(&b), vec![3, 4]);

    assert_eq!(a.inner_when(&b, true).unwrap(), 11);
    a.swap_when(&mut b, true).unwrap();
    assert_eq!(elements(&a), vec![3, 4]);
    a.mult_sum_into_when(&b, 5, true).unwrap();
    assert_eq!(elements(&a), vec![8, 14]);
    a.fill_when(&b, true).unwrap();
    assert_eq!(elements(&a), vec![1, 2]);
}

#[test]
fn vectors_of_unequal_length_pair_their_common_positions() {
    let short = LocalIndexLayout::new((0, 2));
    let long = LocalIndexLayout::new((0, 3));
    let mut a = local_vector(&short, &[1, 2]);
    let mut b = local_vector(&long, &[3, 4, 5]);

    assert_eq!(a.inner_when(&b, true).unwrap(), 11);
    assert_eq!(b.inner_when(&a, true).unwrap(), 11);
    b.mult_sum_into_when(&a, 2, true).unwrap();
    assert_eq!(elements(&b), vec![5, 8, 5]);
    b.swap_when(&mut a, true).unwrap();
    assert_eq!(elements(&a), vec![5, 8]);
    assert_eq!(elements(&b), vec![1, 2, 5]);
    b.fill_when(&a, true).unwrap();
    assert_eq!(elements(&b), vec![5, 8, 5]);
}

#[test]
fn integer_scalars_wrap_around() {
    assert_eq!(Scalar::add(i64::MAX, 1), i64::MIN);
    assert_eq!(Scalar::mul(i64::MAX, 2), -2);
    assert_eq!(Scalar::conj(-7i64), -7);
    assert_eq!(Scalar::abs(-7i64), 7);
    assert_eq!(Scalar::abs(i64::MIN), i64::MIN);
    assert_eq!(Scalar::square(-7i64), 49);
    assert!(Scalar::is_zero(0i64));
    assert!(!Scalar::is_zero(1i64));
    assert!(Scalar::is_one(1i64));
    assert_eq!(<i64 as Scalar>::zero(), 0);
    assert_eq!(<i64 as Scalar>::one(), 1);
    assert_eq!(RealScalar::add(i64::MIN, -1), i64::MAX);
    assert_eq!(RealScalar::max(-3i64, 2), 2);
    assert_eq!(<i64 as RealScalar>::neg_infinity(), i64::MIN);
    assert_eq!(<i64 as RealScalar>::zero(), 0);
}

#[test]
fn integer_square_root_is_the_floor() {
    assert_eq!(RealScalar::sqrt(0i64), 0);
    assert_eq!(RealScalar::sqrt(1i64), 1);
    assert_eq!(RealScalar::sqrt(24i64), 4);
    assert_eq!(RealScalar::sqrt(25i64), 5);
    assert_eq!(RealScalar::sqrt(26i64), 5);
    assert_eq!(RealScalar::sqrt(i64::MAX), 3037000499);
    assert_eq!(RealScalar::sqrt(-4i64), 0);
}

#[test]
fn inner_product_over_three_ranks() {
    // Dimension 11 over 3 ranks: [0, 4), [4, 8), [8, 11), with v[i] = i.
    let layouts: Vec<DistributedIndexLayout> =
        (0..3).map(|rank| DistributedIndexLayout::new((0, 11), 3, rank)).collect();
    let vectors: Vec<DistributedIndexableVector<i64>> = layouts.iter().map(ramp).collect();

    // What each rank contributes is what it gets back from a reduction that
    // adds nothing.
    let contributions: Vec<i64> =
        vectors.iter().map(|v| v.inner(v, |mine| mine).unwrap()).collect();
    assert_eq!(contributions, vec![14, 126, 245]);

    // Every rank gets the sum over all ranks.
    for (rank, vector) in vectors.iter().enumerate() {
        let result = vector
            .inner(vector, |mine| {
                assert_eq!(mine, contributions[rank]);
                contributions.iter().sum()
            })
            .unwrap();
        assert_eq!(result, 385);
    }
}

#[test]
fn norms_over_three_ranks() {
    let layouts: Vec<DistributedIndexLayout> =
        (0..3).map(|rank| DistributedIndexLayout::new((0, 11), 3, rank)).collect();
    let vectors: Vec<DistributedIndexableVector<i64>> = layouts.iter().map(ramp).collect();

    let square_sums: Vec<i64> = vectors.iter().map(|v| v.abs_square_sum(|mine| mine)).collect();
    assert_eq!(square_sums, vec![14, 126, 245]);
    let abs_sums: Vec<i64> = vectors.iter().map(|v| v.norm_1(|mine| mine)).collect();
    assert_eq!(abs_sums, vec![6, 22, 27]);
    let maxima: Vec<i64> = vectors.iter().map(|v| v.norm_infty(|mine| mine)).collect();
    assert_eq!(maxima, vec![3, 7, 10]);

    for vector in vectors.iter() {
        assert_eq!(vector.abs_square_sum(|_| square_sums.iter().sum()), 385);
        assert_eq!(vector.norm_1(|_| abs_sums.iter().sum()), 55);
        assert_eq!(vector.norm_infty(|_| *maxima.iter().max().unwrap()), 10);
        // The floor of the square root of 385: the root is taken after the
        // reduction.
        assert_eq!(vector.norm_2(|_| square_sums.iter().sum()), 19);
    }
}

#[test]
fn rank_without_indices_contributes_the_neutral_values() {
    // 3 indices over 5 ranks: ranks 3 and 4 own nothing.
    let layout = DistributedIndexLayout::new((0, 3), 5, 4);
    let vector = DistributedIndexableVector::<i64>::new(&layout);

    assert!(vector.local().is_none());
    assert!(vector.view().is_none());
    assert_eq!(vector.inner(&vector, |mine| mine).unwrap(), 0);
    assert_eq!(vector.abs_square_sum(|mine| mine), 0);
    assert_eq!(vector.norm_1(|mine| mine), 0);
    assert_eq!(vector.norm_infty(|mine| mine), i64::MIN);
}

#[test]
fn distributed_inner_needs_one_layout() {
    let layout = DistributedIndexLayout::new((0, 4), 2, 0);
    let twin = DistributedIndexLayout::new((0, 4), 2, 0);
    let a = ramp(&layout);
    let b = ramp(&twin);

    let mut reduced = false;
    let result = a.inner(&b, |mine| {
        reduced = true;
        mine
    });
    assert!(is_failure_of(&result.unwrap_err(), "inner"));
    assert!(!reduced);

    assert!(is_failure_of(&a.inner_when(&a, false, |mine| mine).unwrap_err(), "inner"));
    assert_eq!(a.inner_when(&b, true, |mine| mine + 100).unwrap(), 101);
    assert!(a.index_layout().is_same(&layout));
}

#[test]
fn scatter_part_takes_the_range_of_the_rank() {
    let buffer = vec![10, 11, 12, 13, 14, 15, 16];
    let counts = vec![3, 2, 2];
    let displacements = vec![0, 3, 5];
    assert_eq!(scatter_part(&buffer, &counts, &displacements, 0), vec![10, 11, 12]);
    assert_eq!(scatter_part(&buffer, &counts, &displacements, 1), vec![13, 14]);
    assert_eq!(scatter_part(&buffer, &counts, &displacements, 2), vec![15, 16]);
}

#[test]
fn fill_from_root_over_more_ranks_than_indices() {
    let root_layout = LocalIndexLayout::new((0, 2));
    let root = local_vector(&root_layout, &[7, 9]);

    for rank in 0..4 {
        let layout = DistributedIndexLayout::new((0, 2), 4, rank);
        let mut vector = DistributedIndexableVector::<i64>::new(&layout);
        let source = if rank == 0 { Some(&root) } else { None };
        vector
            .fill_from_root(source, |buffer, counts, displacements| {
                assert_eq!(buffer.is_some(), rank == 0);
                scatter_part(root.as_slice(), counts, displacements, rank)
            })
            .unwrap();
        match vector.local() {
            Some(local) => assert_eq!(elements(local), vec![if rank == 0 { 7 } else { 9 }]),
            None => assert!(rank >= 2),
        }
    }
}

#[test]
fn fill_from_root_rejects_a_part_of_the_wrong_length() {
    let root_layout = LocalIndexLayout::new((0, 4));
    let root = local_vector(&root_layout, &[1, 2, 3, 4]);
    let layout = DistributedIndexLayout::new((0, 4), 2, 0);
    let mut vector = ramp(&layout);

    let result = vector.fill_from_root(Some(&root), |_, _, _| vec![5, 6, 7]);
    assert!(matches!(
        result,
        Err(SparseLinAlgError::SingleDimensionError { expected: 2, actual: 3 })
    ));
    assert_eq!(elements(vector.local().unwrap()), vec![0, 1]);
}

#[test]
fn csr_from_aij_and_matmul() {
    let rows = vec![0, 0, 1, 1];
    let cols = vec![0, 1, 0, 1];
    let data: Vec<i64> = vec![1, 2, 3, 4];

    let csr = CsrMatrix::from_aij((2, 2), &rows, &cols, &data).unwrap();
    assert_eq!(csr.indptr(), &[0, 2, 4]);
    assert_eq!(csr.indices(), &[0, 1, 0, 1]);
    assert_eq!(csr.data(), &[1, 2, 3, 4]);
    assert_eq!(csr.shape(), (2, 2));
    assert_eq!(*csr.mat_type(), SparseMatType::Csr);

    let layout = LocalIndexLayout::new((0, 2));
    let x = local_vector(&layout, &[3, 4]);
    let mut y = local_vector(&layout, &[1, 2]);
    csr.matmul(3, &x.view().unwrap(), 2, &mut y.view_mut().unwrap());
    assert_eq!(elements(&y), vec![35, 79]);
}

#[test]
fn csr_from_aij_orders_entries_by_row_and_keeps_ties_in_place() {
    // Entries given out of order; those of one row keep their order.
    let rows = vec![2, 0, 2, 1, 0];
    let cols = vec![5, 6, 7, 8, 9];
    let data: Vec<i64> = vec![50, 60, 70, 80, 90];

    let csr = CsrMatrix::from_aij((3, 10), &rows, &cols, &data).unwrap();
    assert_eq!(csr.indptr(), &[0, 2, 3, 5]);
    assert_eq!(csr.indices(), &[6, 9, 8, 5, 7]);
    assert_eq!(csr.data(), &[60, 90, 80, 50, 70]);
}

#[test]
fn csr_from_aij_keeps_entries_past_the_last_row_behind_all_rows() {
    let rows = vec![5, 0, 3];
    let cols = vec![1, 0, 1];
    let data: Vec<i64> = vec![50, 10, 30];

    let csr = CsrMatrix::from_aij((2, 2), &rows, &cols, &data).unwrap();
    assert_eq!(csr.indptr(), &[0, 1, 1]);
    assert_eq!(csr.indices(), &[0, 1, 1]);
    assert_eq!(csr.data(), &[10, 30, 50]);
}

#[test]
fn csr_without_entries() {
    let rows: Vec<usize> = vec![];
    let cols: Vec<usize> = vec![];
    let data: Vec<i64> = vec![];

    let csr = CsrMatrix::from_aij((2, 3), &rows, &cols, &data).unwrap();
    assert_eq!(csr.indptr(), &[0, 0, 0]);

    let x_layout = LocalIndexLayout::new((0, 3));
    let y_layout = LocalIndexLayout::new((0, 2));
    let x = local_vector(&x_layout, &[1, 2, 3]);
    let mut y = local_vector(&y_layout, &[4, 5]);
    csr.matmul(7, &x.view().unwrap(), 2, &mut y.view_mut().unwrap());
    assert_eq!(elements(&y), vec![8, 10]);
}

#[test]
fn csr_new_takes_its_parts_as_they_are() {
    let csr = CsrMatrix::<i64>::new((1, 2), vec![1], vec![0, 1], vec![9]);
    assert_eq!(csr.shape(), (1, 2));
    assert_eq!(csr.indices(), &[1]);
    assert_eq!(csr.indptr(), &[0, 1]);
    assert_eq!(csr.data(), &[9]);
    assert_eq!(*csr.mat_type(), SparseMatType::Csr);
}

#[test]
fn csr_structure_check() {
    let rows = vec![0, 0, 1, 1];
    let cols = vec![0, 1, 0, 1];
    let data: Vec<i64> = vec![1, 2, 3, 4];
    assert!(CsrMatrix::from_aij((2, 2), &rows, &cols, &data).unwrap().is_well_formed());

    // A column outside the matrix.
    let cols = vec![0, 1, 0, 2];
    assert!(!CsrMatrix::from_aij((2, 2), &rows, &cols, &data).unwrap().is_well_formed());

    // Too few row pointers.
    assert!(!CsrMatrix::<i64>::new((2, 2), vec![0], vec![0, 1], vec![5]).is_well_formed());
    // Row pointers that decrease.
    assert!(!CsrMatrix::<i64>::new((2, 2), vec![0, 1], vec![0, 2, 1], vec![5, 6]).is_well_formed());
    // Row pointers past the entries.
    assert!(!CsrMatrix::<i64>::new((1, 2), vec![0], vec![0, 2], vec![5]).is_well_formed());
    // An entry without a value.
    assert!(!CsrMatrix::<i64>::new((1, 2), vec![0, 1], vec![0, 1], vec![5]).is_well_formed());
    // Entries behind the last row are not looked at.
    assert!(CsrMatrix::<i64>::new((1, 2), vec![0, 9], vec![0, 1], vec![5, 6]).is_well_formed());
    assert!(CsrMatrix::<i64>::new((0, 0), vec![], vec![0], vec![]).is_well_formed());
}

#[test]
fn writing_through_a_view_changes_the_vector() {
    let layout = LocalIndexLayout::new((0, 3));
    let mut vector = local_vector(&layout, &[1, 2, 3]);
    {
        let mut view = vector.view_mut().unwrap();
        assert!(view.set(1, 20));
        *view.get_mut(2).unwrap() = 30;
        assert!(view.get_mut(3).is_none());
    }
    assert_eq!(elements(&vector), vec![1, 20, 30]);
}

#[test]
fn vectors_on_one_distributed_layout_work_together() {
    let layout = DistributedIndexLayout::new((0, 6), 2, 1);
    let a = ramp(&layout);
    let mut b = DistributedIndexableVector::<i64>::new(&layout);
    for index in 0..3 {
        assert!(b.view_mut().unwrap().set(index, 2));
    }

    // 3 * 2 + 4 * 2 + 5 * 2, and 100 from the other rank.
    assert_eq!(a.inner(&b, |mine| mine + 100).unwrap(), 124);
    assert!(a.local().unwrap().index_layout().is_same(layout.local_layout().unwrap()));
    assert!(b.local().unwrap().index_layout().is_same(layout.local_layout().unwrap()));
}

#[test]
fn unchecked_access_through_a_view() {
    let layout = LocalIndexLayout::new((0, 3));
    let mut vector = local_vector(&layout, &[1, 2, 3]);
    {
        let mut view = vector.view_mut().unwrap();
        assert_eq!(*view.get_unchecked(2), 3);
        *view.get_unchecked_mut(0) = 10;
        *view.get_unchecked_mut(2) += 4;
        assert_eq!(*view.get_unchecked(0), 10);
    }
    assert_eq!(elements(&vector), vec![10, 2, 7]);
    assert_eq!(*vector.view().unwrap().get_unchecked(1), 2);

    // Through the view of a distributed vector as well.
    let distributed_layout = DistributedIndexLayout::new((0, 4), 2, 1);
    let mut distributed = ramp(&distributed_layout);
    *distributed.view_mut().unwrap().get_unchecked_mut(1) = 30;
    assert_eq!(elements(distributed.local().unwrap()), vec![2, 30]);
    assert!(distributed
        .local()
        .unwrap()
        .index_layout()
        .is_same(distributed_layout.local_layout().unwrap()));
}
