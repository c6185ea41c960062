//! The mathematical content of a matrix, the operations on it, and their laws.

use crate::scalar::{Scalar, ScalarLaws};
use vstd::prelude::*;

verus! {

/// What a matrix is: its two dimensions and its entries, row by row.
///
/// The dimensions are kept beside the entries because a matrix without rows
/// still has a column count.
pub struct MatrixModel<T> {
    pub rows: nat,
    pub cols: nat,
    pub entries: Seq<Seq<T>>,
}

impl<T> MatrixModel<T> {
    /// There are `rows` rows, and each of them has `cols` entries.
    pub open spec fn well_formed(self) -> bool {
        &&& self.entries.len() == self.rows
        &&& forall|i: int| 0 <= i < self.rows ==> (#[trigger] self.entries[i]).len() == self.cols
    }

    /// The entry in row `i` and column `j`.
    pub open spec fn at(self, i: int, j: int) -> T {
        self.entries[i][j]
    }

    /// The matrix of the given dimensions whose entry in row `i` and column
    /// `j` is `cell(i, j)`.
    pub open spec fn from_cells(rows: nat, cols: nat, cell: spec_fn(int, int) -> T) -> Self {
        MatrixModel {
            rows,
            cols,
            entries: Seq::new(rows, |i: int| Seq::new(cols, |j: int| cell(i, j))),
        }
    }

    /// The matrix with rows and columns exchanged.
    pub open spec fn transposed(self) -> Self {
        Self::from_cells(self.cols, self.rows, |i: int, j: int| self.at(j, i))
    }

    /// Both matrices have the same number of rows and of columns.
    pub open spec fn same_shape(self, other: Self) -> bool {
        self.rows == other.rows && self.cols == other.cols
    }
}

impl<T: Scalar> MatrixModel<T> {
    /// The square matrix of the given size with ones on the main diagonal and
    /// zeros elsewhere.
    pub open spec fn identity(size: nat) -> Self {
        Self::from_cells(
            size,
            size,
            |i: int, j: int|
                if i == j {
                    T::one_value()
                } else {
                    T::zero_value()
                },
        )
    }

    /// The entrywise sum, with the dimensions of `self`.
    pub open spec fn sum(self, other: Self) -> Self {
        Self::from_cells(self.rows, self.cols, |i: int, j: int| self.at(i, j).sum(other.at(i, j)))
    }

    /// The sum of the first `n` products of an entry of row `i` of `self`
    /// with the entry of column `j` of `other` that it meets, added one after
    /// the other to zero.
    pub open spec fn dot(self, other: Self, i: int, j: int, n: nat) -> T
        decreases n,
    {
        if n == 0 {
            T::zero_value()
        } else {
            self.dot(other, i, j, (n - 1) as nat).sum(
                self.at(i, n - 1).product(other.at(n - 1, j)),
            )
        }
    }

    /// The matrix product: the entry in row `i` and column `j` is the sum
    /// over `k` of `self[i][k] * other[k][j]`.
    pub open spec fn product(self, other: Self) -> Self {
        Self::from_cells(
            self.rows,
            other.cols,
            |i: int, j: int| self.dot(other, i, j, self.cols),
        )
    }
}

/// Two well-formed matrices of the same shape with the same entries are equal.
pub proof fn lemma_equal_by_cells<T>(a: MatrixModel<T>, b: MatrixModel<T>)
    requires
        a.well_formed(),
        b.well_formed(),
        a.same_shape(b),
        forall|i: int, j: int| 0 <= i < a.rows && 0 <= j < a.cols ==> a.at(i, j) == b.at(i, j),
    ensures
        a == b,
{
    assert forall|i: int| 0 <= i < a.rows implies a.entries[i] == b.entries[i] by {
        assert forall|j: int| 0 <= j < a.cols implies a.entries[i][j] == b.entries[i][j] by {
            assert(a.at(i, j) == b.at(i, j));
        }
    }
    assert(a.entries =~= b.entries);
}

/// Transposing twice gives the matrix back.
pub proof fn lemma_transpose_involution<T>(m: MatrixModel<T>)
    requires
        m.well_formed(),
    ensures
        m.transposed().transposed() == m,
{
    lemma_equal_by_cells(m.transposed().transposed(), m);
}

/// The sum of two matrices of the same shape does not depend on their order.
pub proof fn lemma_sum_commutes<T: ScalarLaws>(a: MatrixModel<T>, b: MatrixModel<T>)
    requires
        a.same_shape(b),
    ensures
        a.sum(b) == b.sum(a),
{
    let ab = a.sum(b);
    let ba = b.sum(a);
    assert forall|i: int, j: int| 0 <= i < a.rows && 0 <= j < a.cols implies ab.at(i, j) == ba.at(
        i,
        j,
    ) by {
        T::lemma_sum_commutes(a.at(i, j), b.at(i, j));
    }
    lemma_equal_by_cells(ab, ba);
}

/// The partial sums along row `i` of an identity matrix against column `j`
/// of `m`: zero until the diagonal is passed, the entry of `m` from then on.
proof fn lemma_identity_dot<T: ScalarLaws>(m: MatrixModel<T>, i: int, j: int, n: nat)
    requires
        m.well_formed(),
        0 <= i < m.rows,
        0 <= j < m.cols,
        n <= m.rows,
    ensures
        MatrixModel::<T>::identity(m.rows).dot(m, i, j, n) == if n <= i {
            T::zero_value()
        } else {
            m.at(i, j)
        },
    decreases n,
{
    if n > 0 {
        let k = n - 1;
        lemma_identity_dot(m, i, j, k as nat);
        if k == i {
            T::lemma_one_neutral(m.at(k, j));
            T::lemma_zero_neutral(m.at(i, j));
        } else {
            T::lemma_zero_absorbs(m.at(k, j));
            T::lemma_zero_neutral(T::zero_value());
            T::lemma_zero_neutral(m.at(i, j));
        }
    }
}

/// Multiplying a matrix from the left by the identity matrix with as many
/// rows gives the matrix back.
pub proof fn lemma_identity_product<T: ScalarLaws>(m: MatrixModel<T>)
    requires
        m.well_formed(),
    ensures
        MatrixModel::<T>::identity(m.rows).product(m) == m,
{
    let p = MatrixModel::<T>::identity(m.rows).product(m);
    assert forall|i: int, j: int| 0 <= i < m.rows && 0 <= j < m.cols implies p.at(i, j) == m.at(
        i,
        j,
    ) by {
        lemma_identity_dot(m, i, j, m.rows);
    }
    lemma_equal_by_cells(p, m);
}

} // verus!
