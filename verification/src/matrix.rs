//! A dense two-dimensional matrix stored row by row.
//!
//! A [`Matrix`] always holds as many rows as its row count says, each with as
//! many entries as its column count says. Every operation leaves its operands
//! alone and returns a new matrix.

use crate::matrix_model::MatrixModel;
use crate::scalar::Scalar;
use vstd::prelude::*;

verus! {

/// A matrix with entries of type `T`.
#[derive(Debug, PartialEq)]
pub struct Matrix<T> {
    rows: usize,
    cols: usize,
    data: Vec<Vec<T>>,
}

/// The rows of a vector of vectors, each as a sequence.
pub open spec fn rows_of<T>(data: Seq<Vec<T>>) -> Seq<Seq<T>> {
    Seq::new(data.len(), |i: int| data[i]@)
}

impl<T> View for Matrix<T> {
    type V = MatrixModel<T>;

    closed spec fn view(&self) -> MatrixModel<T> {
        MatrixModel { rows: self.rows as nat, cols: self.cols as nat, entries: rows_of(self.data@) }
    }
}

impl<T> Matrix<T> {
    /// What holds of every matrix: it has as many rows as its row count
    /// says, each with as many entries as its column count says.
    #[verifier::type_invariant]
    pub open spec fn well_formed(&self) -> bool {
        self@.well_formed()
    }

    /// Makes a matrix of `rows` rows and `cols` columns from its rows.
    ///
    /// `data` must hold `rows` rows of `cols` entries each.
    pub fn new(rows: usize, cols: usize, data: Vec<Vec<T>>) -> (m: Self)
        requires
            data@.len() == rows,
            forall|i: int| 0 <= i < data@.len() ==> (#[trigger] data@[i])@.len() == cols,
        ensures
            m@ == (MatrixModel { rows: rows as nat, cols: cols as nat, entries: rows_of(data@) }),
            m@.well_formed(),
    {
        Matrix { rows, cols, data }
    }
}

impl<T: Copy> Clone for Matrix<T> {
    /// A matrix of the same dimensions with the same entries.
    fn clone(&self) -> (copy: Self)
        ensures
            copy@ == self@,
    {
        proof {
            use_type_invariant(self);
        }
        let mut data: Vec<Vec<T>> = Vec::new();
        let mut i: usize = 0;
        while i < self.rows
            invariant
                self@.well_formed(),
                i <= self.rows,
                data@.len() == i,
                forall|r: int| 0 <= r < i ==> (#[trigger] data@[r])@ == self@.entries[r],
            decreases self.rows - i,
        {
            let mut row: Vec<T> = Vec::new();
            let mut j: usize = 0;
            while j < self.cols
                invariant
                    self@.well_formed(),
                    i < self.rows,
                    j <= self.cols,
                    row@.len() == j,
                    forall|c: int| 0 <= c < j ==> #[trigger] row@[c] == self@.at(i as int, c),
                decreases self.cols - j,
            {
                assert(self@.entries[i as int].len() == self.cols);
                row.push(self.data[i][j]);
                j += 1;
            }
            data.push(row);
            i += 1;
        }
        let copy = Matrix { rows: self.rows, cols: self.cols, data };
        assert(copy@.entries =~= self@.entries);
        copy
    }
}

impl<T: Copy> Matrix<T> {
    /// The matrix with rows and columns exchanged: the entry in row `j` and
    /// column `i` of the result is the entry in row `i` and column `j` of
    /// `self`.
    pub fn transpose(&self) -> (t: Self)
        ensures
            t@ == self@.transposed(),
            t@.well_formed(),
    {
        proof {
            use_type_invariant(self);
        }
        let mut out: Vec<Vec<T>> = Vec::new();
        let mut j: usize = 0;
        while j < self.cols
            invariant
                self@.well_formed(),
                j <= self.cols,
                out@.len() == j,
                forall|c: int|
                    0 <= c < j ==> (#[trigger] out@[c])@ == self@.transposed().entries[c],
            decreases self.cols - j,
        {
            let mut column: Vec<T> = Vec::new();
            let mut i: usize = 0;
            while i < self.rows
                invariant
                    self@.well_formed(),
                    j < self.cols,
                    i <= self.rows,
                    column@.len() == i,
                    forall|r: int| 0 <= r < i ==> #[trigger] column@[r] == self@.at(r, j as int),
                decreases self.rows - i,
            {
                assert(self@.entries[i as int].len() == self.cols);
                column.push(self.data[i][j]);
                i += 1;
            }
            out.push(column);
            j += 1;
        }
        let t = Matrix { rows: self.cols, cols: self.rows, data: out };
        assert(t@.entries =~= self@.transposed().entries);
        t
    }
}

impl<T: Scalar> Matrix<T> {
    /// The square matrix of the given size with ones on the main diagonal and
    /// zeros elsewhere. Size `0` gives the matrix without rows.
    pub fn identity(size: usize) -> (m: Self)
        ensures
            m@ == MatrixModel::<T>::identity(size as nat),
            m@.well_formed(),
    {
        let ghost model = MatrixModel::<T>::identity(size as nat);
        let mut data: Vec<Vec<T>> = Vec::new();
        let mut i: usize = 0;
        while i < size
            invariant
                i <= size,
                model == MatrixModel::<T>::identity(size as nat),
                data@.len() == i,
                forall|r: int| 0 <= r < i ==> (#[trigger] data@[r])@ == model.entries[r],
            decreases size - i,
        {
            let mut row: Vec<T> = Vec::new();
            let mut j: usize = 0;
            while j < size
                invariant
                    i < size,
                    j <= size,
                    model == MatrixModel::<T>::identity(size as nat),
                    row@.len() == j,
                    forall|c: int| 0 <= c < j ==> #[trigger] row@[c] == model.at(i as int, c),
                decreases size - j,
            {
                let cell = if i == j {
                    T::one()
                } else {
                    T::zero()
                };
                row.push(cell);
                j += 1;
            }
            data.push(row);
            i += 1;
        }
        let m = Matrix { rows: size, cols: size, data };
        assert(m@.entries =~= model.entries);
        m
    }

    /// The entrywise sum of two matrices of the same dimensions.
    ///
    /// Fails when the two matrices differ in their number of rows or of
    /// columns.
    pub fn add(&self, other: &Matrix<T>) -> (r: Result<Matrix<T>, &'static str>)
        ensures
            match r {
                Ok(m) => self@.same_shape(other@) && m@ == self@.sum(other@) && m@.well_formed(),
                Err(e) => !self@.same_shape(other@) && e@
                    == "Matrices dimensions do not match for addition."@,
            },
    {
        proof {
            use_type_invariant(self);
            use_type_invariant(other);
        }
        if self.rows != other.rows || self.cols != other.cols {
            return Err("Matrices dimensions do not match for addition.");
        }
        let ghost model = self@.sum(other@);
        let mut data: Vec<Vec<T>> = Vec::new();
        let mut i: usize = 0;
        while i < self.rows
            invariant
                self@.well_formed(),
                other@.well_formed(),
                self@.same_shape(other@),
                model == self@.sum(other@),
                i <= self.rows,
                data@.len() == i,
                forall|r: int| 0 <= r < i ==> (#[trigger] data@[r])@ == model.entries[r],
            decreases self.rows - i,
        {
            let mut row: Vec<T> = Vec::new();
            let mut j: usize = 0;
            while j < self.cols
                invariant
                    self@.well_formed(),
                    other@.well_formed(),
                    self@.same_shape(other@),
                    model == self@.sum(other@),
                    i < self.rows,
                    j <= self.cols,
                    row@.len() == j,
                    forall|c: int| 0 <= c < j ==> #[trigger] row@[c] == model.at(i as int, c),
                decreases self.cols - j,
            {
                assert(self@.entries[i as int].len() == self.cols);
                assert(other@.entries[i as int].len() == self.cols);
                let cell = self.data[i][j].plus(other.data[i][j]);
                row.push(cell);
                j += 1;
            }
            data.push(row);
            i += 1;
        }
        assert(rows_of(data@) =~= model.entries);
        Ok(Matrix::new(self.rows, self.cols, data))
    }

    /// The matrix product of `self` and `other`: the entry in row `i` and
    /// column `j` is the sum over `k` of `self[i][k] * other[k][j]`, added up
    /// from zero in the order of `k`.
    ///
    /// Fails when `self` does not have as many columns as `other` has rows.
    pub fn multiply(&self, other: &Matrix<T>) -> (r: Result<Matrix<T>, &'static str>)
        ensures
            match r {
                Ok(m) => self@.cols == other@.rows && m@ == self@.product(other@)
                    && m@.well_formed(),
                Err(e) => self@.cols != other@.rows && e@
                    == "Matrices dimensions do not match for multiplication."@,
            },
    {
        proof {
            use_type_invariant(self);
            use_type_invariant(other);
        }
        if self.cols != other.rows {
            return Err("Matrices dimensions do not match for multiplication.");
        }
        let ghost model = self@.product(other@);
        let mut data: Vec<Vec<T>> = Vec::new();
        let mut i: usize = 0;
        while i < self.rows
            invariant
                self@.well_formed(),
                other@.well_formed(),
                self@.cols == other@.rows,
                model == self@.product(other@),
                i <= self.rows,
                data@.len() == i,
                forall|r: int| 0 <= r < i ==> (#[trigger] data@[r])@ == model.entries[r],
            decreases self.rows - i,
        {
            let mut row: Vec<T> = Vec::new();
            let mut j: usize = 0;
            while j < other.cols
                invariant
                    self@.well_formed(),
                    other@.well_formed(),
                    self@.cols == other@.rows,
                    model == self@.product(other@),
                    i < self.rows,
                    j <= other.cols,
                    row@.len() == j,
                    forall|c: int| 0 <= c < j ==> #[trigger] row@[c] == model.at(i as int, c),
                decreases other.cols - j,
            {
                let mut acc: T = T::zero();
                let mut k: usize = 0;
                while k < self.cols
                    invariant
                        self@.well_formed(),
                        other@.well_formed(),
                        self@.cols == other@.rows,
                        i < self.rows,
                        j < other.cols,
                        k <= self.cols,
                        acc == self@.dot(other@, i as int, j as int, k as nat),
                    decreases self.cols - k,
                {
                    assert(other@.entries[k as int].len() == other.cols);
                    acc = acc.plus(self.data[i][k].times(other.data[k][j]));
                    k += 1;
                }
                row.push(acc);
                j += 1;
            }
            data.push(row);
            i += 1;
        }
        assert(rows_of(data@) =~= model.entries);
        Ok(Matrix::new(self.rows, other.cols, data))
    }
}

} // verus!
