//! Square matrices of up to four rows, as transforms use them: the 4x4
//! transforms themselves and the smaller submatrices that their cofactors
//! are computed from.
//!
//! The element type is left open. This module moves cells around; the
//! arithmetic on them belongs to the element type.
use vstd::prelude::*;

verus! {

/// The largest size a matrix can have.
pub const MAX_SIZE: usize = 4;

/// Row (or column) `i` of a submatrix comes from row `i` of the matrix when
/// `i` is before the dropped row `k`, and from row `i + 1` otherwise.
pub open spec fn skip_index(i: int, k: int) -> int {
    if i < k {
        i
    } else {
        i + 1
    }
}

/// A `size` by `size` matrix, held in a 4x4 array; cells outside the
/// leading `size` rows and columns are unused.
#[derive(Clone, Copy, Debug)]
pub struct SquareMatrix<T> {
    cells: [[T; 4]; 4],
    size: usize,
}

impl<T> SquareMatrix<T> {
    /// The size is within bounds.
    pub closed spec fn wf(&self) -> bool {
        self.size <= MAX_SIZE
    }

    pub closed spec fn spec_size(&self) -> usize {
        self.size
    }

    /// The cell in row `row` and column `col`.
    pub closed spec fn at(&self, row: int, col: int) -> T {
        self.cells[row][col]
    }

    #[verifier::when_used_as_spec(spec_size)]
    pub fn size(&self) -> (r: usize)
        ensures
            r == self.spec_size(),
    {
        self.size
    }
}

impl<T: Copy> SquareMatrix<T> {
    /// The matrix made of the leading `size` rows and columns of `rows`.
    pub fn from_rows(rows: [[T; 4]; 4], size: usize) -> (r: SquareMatrix<T>)
        requires
            size <= MAX_SIZE,
        ensures
            r.wf(),
            r.spec_size() == size,
            forall|row: int, col: int|
                0 <= row < size && 0 <= col < size ==> #[trigger] r.at(row, col) == rows[row][col],
    {
        SquareMatrix { cells: rows, size }
    }

    pub fn get(&self, row: usize, col: usize) -> (r: T)
        requires
            self.wf(),
            row < self.spec_size(),
            col < self.spec_size(),
        ensures
            r == self.at(row as int, col as int),
    {
        self.cells[row][col]
    }

    /// Writes one cell; every other cell keeps its value.
    pub fn set(&mut self, row: usize, col: usize, value: T)
        requires
            old(self).wf(),
            row < old(self).spec_size(),
            col < old(self).spec_size(),
        ensures
            final(self).wf(),
            final(self).spec_size() == old(self).spec_size(),
            final(self).at(row as int, col as int) == value,
            forall|r: int, c: int|
                0 <= r < old(self).spec_size() && 0 <= c < old(self).spec_size() && (r, c) != (
                    row as int,
                    col as int,
                ) ==> #[trigger] final(self).at(r, c) == old(self).at(r, c),
    {
        let mut line = self.cells[row];
        line[col] = value;
        self.cells[row] = line;
    }

    /// The matrix with rows and columns exchanged.
    pub fn transpose(&self) -> (r: SquareMatrix<T>)
        requires
            self.wf(),
        ensures
            r.wf(),
            r.spec_size() == self.spec_size(),
            forall|row: int, col: int|
                0 <= row < self.spec_size() && 0 <= col < self.spec_size() ==> #[trigger] r.at(
                    row,
                    col,
                ) == self.at(col, row),
    {
        let n = self.size;
        let mut out = *self;
        let mut row: usize = 0;
        while row < n
            invariant
                n == self.spec_size(),
                self.wf(),
                out.wf(),
                row <= n,
                out.spec_size() == n,
                forall|r: int, c: int|
                    0 <= r < row && 0 <= c < n ==> #[trigger] out.at(r, c) == self.at(c, r),
            decreases n - row,
        {
            let mut col: usize = 0;
            while col < n
                invariant
                    n == self.spec_size(),
                    self.wf(),
                    out.wf(),
                    row < n,
                    col <= n,
                    out.spec_size() == n,
                    forall|r: int, c: int|
                        0 <= r < row && 0 <= c < n ==> #[trigger] out.at(r, c) == self.at(c, r),
                    forall|c: int| 0 <= c < col ==> #[trigger] out.at(row as int, c) == self.at(c, row as int),
                decreases n - col,
            {
                let v = self.get(col, row);
                out.set(row, col, v);
                col = col + 1;
            }
            row = row + 1;
        }
        out
    }

    /// The matrix one smaller, without row `row` and column `col`.
    pub fn submatrix(&self, row: usize, col: usize) -> (r: SquareMatrix<T>)
        requires
            self.wf(),
            row < self.spec_size(),
            col < self.spec_size(),
        ensures
            r.wf(),
            r.spec_size() == self.spec_size() - 1,
            forall|i: int, j: int|
                0 <= i < r.spec_size() && 0 <= j < r.spec_size() ==> #[trigger] r.at(i, j)
                    == self.at(skip_index(i, row as int), skip_index(j, col as int)),
    {
        let n = self.size - 1;
        let mut out = SquareMatrix { cells: self.cells, size: n };
        let mut i: usize = 0;
        while i < n
            invariant
                n == self.spec_size() - 1,
                self.wf(),
                out.wf(),
                row < self.spec_size(),
                col < self.spec_size(),
                i <= n,
                out.spec_size() == n,
                forall|a: int, b: int|
                    0 <= a < i && 0 <= b < n ==> #[trigger] out.at(a, b) == self.at(
                        skip_index(a, row as int),
                        skip_index(b, col as int),
                    ),
            decreases n - i,
        {
            let src_row = if i < row {
                i
            } else {
                i + 1
            };
            let mut j: usize = 0;
            while j < n
                invariant
                    n == self.spec_size() - 1,
                    self.wf(),
                    out.wf(),
                    row < self.spec_size(),
                    col < self.spec_size(),
                    i < n,
                    j <= n,
                    src_row == skip_index(i as int, row as int),
                    out.spec_size() == n,
                    forall|a: int, b: int|
                        0 <= a < i && 0 <= b < n ==> #[trigger] out.at(a, b) == self.at(
                            skip_index(a, row as int),
                            skip_index(b, col as int),
                        ),
                    forall|b: int|
                        0 <= b < j ==> #[trigger] out.at(i as int, b) == self.at(
                            src_row as int,
                            skip_index(b, col as int),
                        ),
                decreases n - j,
            {
                let src_col = if j < col {
                    j
                } else {
                    j + 1
                };
                let v = self.get(src_row, src_col);
                out.set(i, j, v);
                j = j + 1;
            }
            i = i + 1;
        }
        out
    }
}

} // verus!
