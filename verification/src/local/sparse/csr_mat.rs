//! Matrices in compressed sparse row storage.
//!
//! The nonzero entries are kept row after row: `data` holds their values,
//! `indices` their columns, and `indptr[r]` is the position of the first entry
//! of row `r`, so that row `r` occupies the positions from `indptr[r]` up to
//! `indptr[r + 1]`.
use crate::local::indexable_vector::{LocalIndexableVectorView, LocalIndexableVectorViewMut};
use crate::local::sparse::SparseMatType;
use crate::scalar::Scalar;
use crate::types::{SparseLinAlgError, SparseLinAlgResult};
use vstd::prelude::*;

verus! {

/// Whether entry `i` comes before entry `j` when the entries are ordered by
/// row and entries of one row keep the order in which they were given.
pub open spec fn comes_before(rows: Seq<usize>, i: usize, j: usize) -> bool {
    rows[i as int] < rows[j as int] || (rows[i as int] == rows[j as int] && i < j)
}

/// Whether `order` lists the entry with the number `entry`.
pub open spec fn lists(order: Seq<usize>, entry: int) -> bool {
    exists|k: int| 0 <= k < order.len() && #[trigger] order[k] == entry
}

/// Whether `order` lists every entry of `rows` once, ordered by row, entries
/// of one row in the order in which they were given.
pub open spec fn is_stable_order(order: Seq<usize>, rows: Seq<usize>) -> bool {
    &&& order.len() == rows.len()
    &&& forall|k: int| 0 <= k < order.len() ==> #[trigger] order[k] < rows.len()
    &&& forall|i: int| 0 <= i < rows.len() ==> #[trigger] lists(order, i)
    &&& forall|j: int, k: int|
        0 <= j < k < order.len() ==> comes_before(rows, #[trigger] order[j], #[trigger] order[k])
}

/// The order in which a stable sort by row lists the entries of `rows`.
pub open spec fn stable_order(rows: Seq<usize>) -> Seq<usize> {
    choose|order: Seq<usize>| is_stable_order(order, rows)
}

/// The elements of `values` in the order that `order` lists them.
pub open spec fn gathered<T>(values: Seq<T>, order: Seq<usize>) -> Seq<T> {
    Seq::new(order.len(), |k: int| values[order[k] as int])
}

/// Whether the entries that `order` lists before position `start` are exactly
/// those of a row below `row`.
pub open spec fn is_row_start(rows: Seq<usize>, order: Seq<usize>, row: int, start: int) -> bool {
    &&& 0 <= start <= order.len()
    &&& forall|k: int|
        0 <= k < order.len() ==> (k < start <==> rows[#[trigger] order[k] as int] < row)
}

/// The entries of `rows` that lie in a row below `row`.
pub open spec fn entries_below(rows: Seq<usize>, row: int) -> Set<int> {
    Set::new(|i: int| 0 <= i < rows.len() && rows[i] < row)
}

/// The sum of `values[k] * x[columns[k]]` over the positions from `first` up
/// to `last`, added up from zero in that order.
pub open spec fn row_sum<T: Scalar>(
    values: Seq<T>,
    columns: Seq<usize>,
    x: Seq<T>,
    first: int,
    last: int,
) -> T
    decreases last - first,
{
    if last <= first {
        T::zero_spec()
    } else {
        row_sum(values, columns, x, first, last - 1).add_spec(
            values[last - 1].mul_spec(x[columns[last - 1] as int]),
        )
    }
}

/// Two stable orders of the same entries agree at every position.
proof fn lemma_stable_orders_agree(p: Seq<usize>, q: Seq<usize>, rows: Seq<usize>, k: int)
    requires
        is_stable_order(p, rows),
        is_stable_order(q, rows),
        0 <= k < p.len(),
    ensures
        p[k] == q[k],
    decreases k,
{
    assert forall|j: int| 0 <= j < k implies p[j] == q[j] by {
        lemma_stable_orders_agree(p, q, rows, j);
    }
    if p[k] != q[k] {
        // `p[k]` stands somewhere in `q` and `q[k]` somewhere in `p`, both
        // behind position `k`. So each of the two comes before the other.
        assert(lists(q, p[k] as int));
        assert(lists(p, q[k] as int));
        let j = choose|j: int| 0 <= j < q.len() && q[j] == p[k] as int;
        let i = choose|i: int| 0 <= i < p.len() && p[i] == q[k] as int;
        assert(comes_before(rows, q[k], q[j]));
        assert(comes_before(rows, p[k], p[i]));
    }
}

/// There is only one stable order of given entries.
pub proof fn lemma_stable_order_is_unique(p: Seq<usize>, q: Seq<usize>, rows: Seq<usize>)
    requires
        is_stable_order(p, rows),
        is_stable_order(q, rows),
    ensures
        p == q,
{
    assert forall|k: int| 0 <= k < p.len() implies p[k] == q[k] by {
        lemma_stable_orders_agree(p, q, rows, k);
    }
}

/// The position at which a row starts is the number of entries in the rows
/// below it.
pub proof fn lemma_row_start_counts_entries(
    rows: Seq<usize>,
    order: Seq<usize>,
    row: int,
    start: int,
)
    requires
        is_stable_order(order, rows),
        is_row_start(rows, order, row, start),
    ensures
        entries_below(rows, row).finite(),
        entries_below(rows, row).len() == start,
{
    let positions = vstd::set_lib::set_int_range(0, start);
    let entry_at = |k: int| order[k] as int;
    vstd::set_lib::lemma_int_range(0, start);
    assert(vstd::relations::injective_on(entry_at, positions)) by {
        assert forall|j: int, k: int|
            positions.contains(j) && positions.contains(k) && entry_at(j) == entry_at(
                k,
            ) implies j == k by {
            if j < k {
                assert(comes_before(rows, order[j], order[k]));
            }
            if k < j {
                assert(comes_before(rows, order[k], order[j]));
            }
        }
    }
    assert(positions.map(entry_at) =~= entries_below(rows, row)) by {
        assert forall|i: int| entries_below(rows, row).contains(i) implies positions.map(
            entry_at,
        ).contains(i) by {
            assert(lists(order, i));
            let k = choose|k: int| 0 <= k < order.len() && order[k] == i;
            assert(positions.contains(k));
        }
        assert forall|i: int| positions.map(entry_at).contains(i) implies entries_below(
            rows,
            row,
        ).contains(i) by {
            let k = choose|k: int| positions.contains(k) && i == entry_at(k);
            assert(order[k] < rows.len());
        }
    }
    vstd::set_lib::lemma_map_size(positions, entries_below(rows, row), entry_at);
}

/// The row of the entry at `index`.
fn row_of(rows: &[usize], index: usize) -> (row: usize)
    requires
        index < rows@.len(),
    ensures
        row == rows@[index as int],
{
    rows[index]
}

/// Sorts the entry numbers in `order` by the row of each entry, with the
/// stable `sort_by_key` of slices. Claimed, for entry numbers that are given
/// in increasing order: the result holds the same numbers, the rows of the
/// entries it lists never decrease, and entries of one row stay in increasing
/// order, because the sort does not reorder equal elements.
#[verifier::external_body]
fn sort_by_row(order: &mut Vec<usize>, rows: &[usize])
    requires
        forall|k: int| 0 <= k < old(order)@.len() ==> #[trigger] old(order)@[k] < rows@.len(),
        forall|j: int, k: int|
            0 <= j < k < old(order)@.len() ==> #[trigger] old(order)@[j]
                < #[trigger] old(order)@[k],
    ensures
        final(order)@.to_multiset() == old(order)@.to_multiset(),
        forall|j: int, k: int|
            0 <= j < k < final(order)@.len() ==> rows@[#[trigger] final(order)@[j] as int]
                <= rows@[#[trigger] final(order)@[k] as int],
        forall|j: int, k: int|
            0 <= j < k < final(order)@.len() && rows@[#[trigger] final(order)@[j] as int]
                == rows@[#[trigger] final(order)@[k] as int]
                ==> final(order)@[j] < final(order)@[k],
{
    order.sort_by_key(|&index| row_of(rows, index));
}

/// A sparse matrix in compressed sparse row storage.
pub struct CsrMatrix<T: Scalar> {
    mat_type: SparseMatType,
    shape: (usize, usize),
    indices: Vec<usize>,
    indptr: Vec<usize>,
    data: Vec<T>,
}

/// What a matrix in compressed sparse row storage holds.
pub struct CsrMatrixView<T> {
    /// The number of rows and the number of columns.
    pub shape: (usize, usize),
    /// The column of each stored entry.
    pub indices: Seq<usize>,
    /// For each row the position of its first entry, and the end of the last row.
    pub indptr: Seq<usize>,
    /// The value of each stored entry.
    pub data: Seq<T>,
}

impl<T: Scalar> CsrMatrixView<T> {
    /// Whether the parts fit together: there is a row pointer for each row and
    /// one more, the row pointers never decrease and end inside the entries,
    /// every entry has a column and a value, and the column of every entry of
    /// a row lies inside the matrix.
    pub open spec fn well_formed(self) -> bool {
        &&& self.indptr.len() == self.shape.0 + 1
        &&& forall|r: int| 0 <= r < self.shape.0 ==> self.indptr[r] <= #[trigger] self.indptr[r + 1]
        &&& self.indptr[self.shape.0 as int] <= self.indices.len()
        &&& self.indices.len() == self.data.len()
        &&& forall|k: int|
            0 <= k < self.indptr[self.shape.0 as int] ==> #[trigger] self.indices[k] < self.shape.1
    }

    /// The product of row `row` with the vector `x`.
    pub open spec fn row_product(self, x: Seq<T>, row: int) -> T {
        row_sum(self.data, self.indices, x, self.indptr[row] as int, self.indptr[row + 1] as int)
    }

    /// Whether the matrix holds the entries given by `rows`, `cols` and
    /// `values`, ordered by row, entries of one row in the order in which
    /// they were given.
    pub open spec fn holds_entries(
        self,
        shape: (usize, usize),
        rows: Seq<usize>,
        cols: Seq<usize>,
        values: Seq<T>,
    ) -> bool {
        &&& self.shape == shape
        &&& self.indices == gathered(cols, stable_order(rows))
        &&& self.data == gathered(values, stable_order(rows))
        &&& self.indptr.len() == shape.0 + 1
        &&& forall|r: int|
            0 <= r <= shape.0 ==> is_row_start(
                rows,
                stable_order(rows),
                r,
                #[trigger] self.indptr[r] as int,
            )
    }
}

impl<T: Scalar> View for CsrMatrix<T> {
    type V = CsrMatrixView<T>;

    closed spec fn view(&self) -> CsrMatrixView<T> {
        CsrMatrixView {
            shape: self.shape,
            indices: self.indices@,
            indptr: self.indptr@,
            data: self.data@,
        }
    }
}

impl<T: Scalar> CsrMatrix<T> {
    /// The storage format, as a specification.
    pub closed spec fn spec_mat_type(&self) -> SparseMatType {
        self.mat_type
    }

    /// A matrix from its parts, which are taken as they are.
    pub fn new(
        shape: (usize, usize),
        indices: Vec<usize>,
        indptr: Vec<usize>,
        data: Vec<T>,
    ) -> (matrix: Self)
        ensures
            matrix.spec_mat_type() == SparseMatType::Csr,
            matrix@ == (CsrMatrixView { shape, indices: indices@, indptr: indptr@, data: data@ }),
    {
        Self { mat_type: SparseMatType::Csr, shape, indices, indptr, data }
    }

    /// The storage format.
    pub fn mat_type(&self) -> (mat_type: &SparseMatType)
        ensures
            *mat_type == self.spec_mat_type(),
    {
        &self.mat_type
    }

    /// The number of rows and the number of columns.
    pub fn shape(&self) -> (shape: (usize, usize))
        ensures
            shape == self@.shape,
    {
        self.shape
    }

    /// The column of each stored entry.
    pub fn indices(&self) -> (indices: &[usize])
        ensures
            indices@ == self@.indices,
    {
        self.indices.as_slice()
    }

    /// For each row the position of its first entry, and the end of the last row.
    pub fn indptr(&self) -> (indptr: &[usize])
        ensures
            indptr@ == self@.indptr,
    {
        self.indptr.as_slice()
    }

    /// The value of each stored entry.
    pub fn data(&self) -> (data: &[T])
        ensures
            data@ == self@.data,
    {
        self.data.as_slice()
    }

    /// Builds the matrix of the given shape from entries in coordinate
    /// form: entry `k` has the value `data[k]` and stands in row `rows[k]`
    /// and column `cols[k]`. The entries may come in any order. They are
    /// stored ordered by row, entries of one row in the order in which they
    /// were given, and `indptr[r]` is the number of entries in the rows below
    /// `r`. Entries in rows past the shape are stored behind all others and
    /// belong to no row.
    ///
    /// The three slices must be equally long: if `cols` or else `data` is not
    /// as long as `rows`, its length is reported as a dimension mismatch.
    pub fn from_aij(shape: (usize, usize), rows: &[usize], cols: &[usize], data: &[T]) -> (result:
        SparseLinAlgResult<Self>)
        ensures
            match result {
                Ok(matrix) => {
                    &&& rows@.len() == cols@.len() == data@.len()
                    &&& matrix.spec_mat_type() == SparseMatType::Csr
                    &&& matrix@.holds_entries(shape, rows@, cols@, data@)
                    &&& is_stable_order(stable_order(rows@), rows@)
                    &&& forall|r: int|
                        0 <= r <= shape.0 ==> #[trigger] matrix@.indptr[r] == entries_below(
                            rows@,
                            r,
                        ).len()
                    &&& (forall|k: int| 0 <= k < cols@.len() ==> cols@[k] < shape.1)
                        ==> matrix@.well_formed()
                },
                Err(SparseLinAlgError::SingleDimensionError { expected, actual }) => {
                    &&& expected == rows@.len()
                    &&& actual != expected
                    &&& actual == if cols@.len() != rows@.len() {
                        cols@.len()
                    } else {
                        data@.len()
                    }
                },
                Err(_) => false,
            },
    {
        let nelems = rows.len();
        if cols.len() != nelems {
            return Err(
                SparseLinAlgError::SingleDimensionError { expected: nelems, actual: cols.len() },
            );
        }
        if data.len() != nelems {
            return Err(
                SparseLinAlgError::SingleDimensionError { expected: nelems, actual: data.len() },
            );
        }
        let sorted = sorted_entries(rows);

        let mut indptr: Vec<usize> = Vec::new();
        let mut count: usize = 0;
        let mut row: usize = 0;
        while row < shape.0
            invariant
                row <= shape.0,
                nelems == rows@.len(),
                is_stable_order(sorted@, rows@),
                indptr@.len() == row,
                is_row_start(rows@, sorted@, row as int, count as int),
                forall|r: int|
                    0 <= r < row ==> is_row_start(rows@, sorted@, r, #[trigger] indptr@[r] as int),
                forall|r: int| 0 <= r < row ==> #[trigger] indptr@[r] <= count,
                forall|r: int| 0 <= r < row - 1 ==> indptr@[r] <= #[trigger] indptr@[r + 1],
            decreases shape.0 - row,
        {
            indptr.push(count);
            while count < nelems && row == rows[sorted[count]]
                invariant
                    count <= nelems,
                    nelems == rows@.len(),
                    row < shape.0,
                    is_stable_order(sorted@, rows@),
                    forall|k: int| 0 <= k < count ==> rows@[#[trigger] sorted@[k] as int] <= row,
                    forall|k: int|
                        count <= k < nelems ==> rows@[#[trigger] sorted@[k] as int] >= row,
                decreases nelems - count,
            {
                count += 1;
            }
            proof {
                // The entry at `count` lies in a row behind `row`, and so do
                // all that follow it.
                assert forall|k: int| 0 <= k < nelems implies (k < count
                    <==> rows@[#[trigger] sorted@[k] as int] < row + 1) by {
                    if count < k {
                        assert(comes_before(rows@, sorted@[count as int], sorted@[k]));
                    }
                }
            }
            row += 1;
        }
        indptr.push(count);

        let mut indices: Vec<usize> = Vec::with_capacity(nelems);
        let mut new_data: Vec<T> = Vec::with_capacity(nelems);
        let mut index: usize = 0;
        while index < nelems
            invariant
                index <= nelems,
                nelems == rows@.len(),
                nelems == cols@.len(),
                nelems == data@.len(),
                is_stable_order(sorted@, rows@),
                indices@.len() == index,
                new_data@.len() == index,
                forall|k: int| 0 <= k < index ==> indices@[k] == cols@[sorted@[k] as int],
                forall|k: int| 0 <= k < index ==> new_data@[k] == data@[sorted@[k] as int],
            decreases nelems - index,
        {
            indices.push(cols[sorted[index]]);
            new_data.push(data[sorted[index]]);
            index += 1;
        }
        proof {
            lemma_stable_order_is_unique(sorted@, stable_order(rows@), rows@);
            assert(indices@ =~= gathered(cols@, sorted@));
            assert(new_data@ =~= gathered(data@, sorted@));
            assert forall|r: int| 0 <= r <= shape.0 implies #[trigger] indptr@[r] == entries_below(
                rows@,
                r,
            ).len() by {
                lemma_row_start_counts_entries(rows@, sorted@, r, indptr@[r] as int);
            }
        }
        Ok(Self::new(shape, indices, indptr, new_data))
    }

    /// Whether the parts of the matrix fit together, so that it can be
    /// multiplied with a vector.
    pub fn is_well_formed(&self) -> (well_formed: bool)
        ensures
            well_formed == self@.well_formed(),
    {
        let rows = self.shape.0;
        let pointers = self.indptr.len();
        if rows == usize::MAX || pointers != rows + 1 {
            return false;
        }
        if self.indices.len() != self.data.len() {
            return false;
        }
        let mut row: usize = 0;
        while row < rows
            invariant
                row <= rows,
                rows == self@.shape.0,
                self@.indptr.len() == rows + 1,
                forall|r: int| 0 <= r < row ==> self@.indptr[r] <= #[trigger] self@.indptr[r + 1],
            decreases rows - row,
        {
            if self.indptr[row] > self.indptr[row + 1] {
                return false;
            }
            row += 1;
        }
        let end = self.indptr[rows];
        if end > self.indices.len() {
            return false;
        }
        let mut index: usize = 0;
        while index < end
            invariant
                index <= end,
                end == self@.indptr[self@.shape.0 as int],
                end <= self@.indices.len(),
                forall|k: int| 0 <= k < index ==> #[trigger] self@.indices[k] < self@.shape.1,
            decreases end - index,
        {
            if self.indices[index] >= self.shape.1 {
                return false;
            }
            index += 1;
        }
        true
    }

    /// Computes `y := beta * y + alpha * A * x` row by row, where `A` is this
    /// matrix: element `r` of `y` becomes `beta * y[r]` plus `alpha` times the
    /// product of row `r` with `x`.
    pub fn matmul(
        &self,
        alpha: T,
        x: &LocalIndexableVectorView<'_, T>,
        beta: T,
        y: &mut LocalIndexableVectorViewMut<'_, '_, T>,
    )
        requires
            self@.well_formed(),
            self@.shape.1 <= x@.len(),
            old(y)@.len() <= self@.shape.0,
        ensures
            *final(final(y).target()) == *final(old(y).target()),
            final(y).target().spec_index_layout() == old(y).target().spec_index_layout(),
            final(y)@.len() == old(y)@.len(),
            forall|r: int|
                0 <= r < old(y)@.len() ==> #[trigger] final(y)@[r] == beta.mul_spec(
                    old(y)@[r],
                ).add_spec(alpha.mul_spec(self@.row_product(x@, r))),
    {
        let n = y.len();
        let mut row: usize = 0;
        while row < n
            invariant
                row <= n,
                n == old(y)@.len(),
                y@.len() == n,
                *final(y.target()) == *final(old(y).target()),
                y.target().spec_index_layout() == old(y).target().spec_index_layout(),
                self@.well_formed(),
                self@.shape.1 <= x@.len(),
                n <= self@.shape.0,
                forall|r: int|
                    0 <= r < row ==> #[trigger] y@[r] == beta.mul_spec(old(y)@[r]).add_spec(
                        alpha.mul_spec(self@.row_product(x@, r)),
                    ),
                forall|r: int| row <= r < n ==> y@[r] == old(y)@[r],
            decreases n - row,
        {
            let first = self.indptr[row];
            let last = self.indptr[row + 1];
            assert(last <= self@.indptr[self@.shape.0 as int]) by {
                lemma_row_pointers_are_ordered(self@, row + 1, self@.shape.0 as int);
            }
            let mut acc = T::zero();
            let mut index: usize = first;
            while index < last
                invariant
                    first <= index <= last,
                    last <= self@.indptr[self@.shape.0 as int],
                    self@.well_formed(),
                    self@.shape.1 <= x@.len(),
                    acc == row_sum(self@.data, self@.indices, x@, first as int, index as int),
                decreases last - index,
            {
                let col = self.indices[index];
                acc = acc.add(self.data[index].mul(*x.get_unchecked(col)));
                index += 1;
            }
            let out = *y.get(row).unwrap();
            y.set(row, beta.mul(out).add(alpha.mul(acc)));
            row += 1;
        }
    }
}

/// The numbers of the entries of `rows`, ordered by row, entries of one row
/// in increasing order.
fn sorted_entries(rows: &[usize]) -> (sorted: Vec<usize>)
    ensures
        is_stable_order(sorted@, rows@),
{
    let nelems = rows.len();
    let mut sorted: Vec<usize> = Vec::with_capacity(nelems);
    let mut index: usize = 0;
    while index < nelems
        invariant
            index <= nelems,
            nelems == rows@.len(),
            sorted@.len() == index,
            forall|k: int| 0 <= k < index ==> sorted@[k] == k,
        decreases nelems - index,
    {
        sorted.push(index);
        index += 1;
    }
    let ghost entries = sorted@;
    sort_by_row(&mut sorted, rows);
    proof {
        entries.to_multiset_ensures();
        sorted@.to_multiset_ensures();
        assert forall|k: int| 0 <= k < sorted@.len() implies #[trigger] sorted@[k]
            < rows@.len() by {
            assert(entries.to_multiset().count(sorted@[k]) > 0);
        }
        assert forall|i: int| 0 <= i < rows@.len() implies #[trigger] lists(sorted@, i) by {
            assert(entries[i] == i);
            assert(sorted@.to_multiset().count(i as usize) > 0);
            assert(sorted@.contains(i as usize));
        }
    }
    sorted
}

/// Row pointers that never decrease from one row to the next are ordered
/// over any distance.
proof fn lemma_row_pointers_are_ordered<T: Scalar>(matrix: CsrMatrixView<T>, low: int, high: int)
    requires
        matrix.well_formed(),
        0 <= low <= high <= matrix.shape.0,
    ensures
        matrix.indptr[low] <= matrix.indptr[high],
    decreases high - low,
{
    if low < high {
        lemma_row_pointers_are_ordered(matrix, low, high - 1);
        assert(matrix.indptr[high - 1] <= matrix.indptr[high - 1 + 1]);
    }
}

} // verus!
