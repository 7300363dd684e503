//! A rectangular table of numbers.

use vstd::prelude::*;

verus! {

/// Why a cell of a grid could not be written.
#[derive(Clone, Copy, Debug, PartialEq, Eq, Structural)]
pub enum GridError {
    /// The row or the column lies outside the grid.
    OutOfBounds,
}

/// A table of `num_rows` rows and `num_cols` columns, stored row by row.
#[derive(Debug)]
pub struct Grid {
    num_rows: usize,
    num_cols: usize,
    elems: Vec<usize>,
}

/// A cell inside a table of `cols` columns and `rows` rows has its place
/// inside the row-by-row storage.
pub proof fn lemma_cell_in_storage(rows: int, cols: int, row: int, col: int)
    requires
        0 <= row < rows,
        0 <= col < cols,
    ensures
        0 <= row * cols <= row * cols + col < rows * cols,
{
    assert(row * cols + col < rows * cols) by (nonlinear_arith)
        requires
            0 <= row < rows,
            0 <= col < cols,
    ;
    assert(0 <= row * cols) by (nonlinear_arith)
        requires
            0 <= row,
            0 <= cols,
    ;
}

/// Two different cells have different places in the storage.
pub proof fn lemma_cells_apart(cols: int, row1: int, col1: int, row2: int, col2: int)
    requires
        0 <= col1 < cols,
        0 <= col2 < cols,
        0 <= row1,
        0 <= row2,
        row1 * cols + col1 == row2 * cols + col2,
    ensures
        row1 == row2,
        col1 == col2,
{
    if row1 < row2 {
        assert(row1 * cols + cols <= row2 * cols) by (nonlinear_arith)
            requires
                row1 + 1 <= row2,
                0 <= cols,
        ;
    }
    if row2 < row1 {
        assert(row2 * cols + cols <= row1 * cols) by (nonlinear_arith)
            requires
                row2 + 1 <= row1,
                0 <= cols,
        ;
    }
}

impl Grid {
    /// The storage has one place per cell, and the places can be counted.
    pub closed spec fn well_formed(&self) -> bool {
        &&& self.elems@.len() == self.num_rows * self.num_cols
        &&& self.num_rows * self.num_cols <= usize::MAX
    }

    /// Number of rows.
    pub closed spec fn rows(&self) -> nat {
        self.num_rows as nat
    }

    /// Number of columns.
    pub closed spec fn cols(&self) -> nat {
        self.num_cols as nat
    }

    /// The number in the cell at `row` and `col`.
    pub closed spec fn at(&self, row: int, col: int) -> usize {
        self.elems@[row * self.num_cols + col]
    }

    /// Makes a grid of the given size with zero in every cell.
    pub fn new(num_rows: usize, num_cols: usize) -> (r: Grid)
        requires
            num_rows * num_cols <= usize::MAX,
        ensures
            r.well_formed(),
            r.rows() == num_rows,
            r.cols() == num_cols,
            forall|row: int, col: int|
                0 <= row < num_rows && 0 <= col < num_cols ==> r.at(row, col) == 0,
    {
        let cells = num_rows * num_cols;
        let mut elems: Vec<usize> = Vec::new();
        let mut i: usize = 0;
        while i < cells
            invariant
                i <= cells,
                elems@.len() == i,
                forall|k: int| 0 <= k < i ==> elems@[k] == 0,
            decreases cells - i,
        {
            elems.push(0);
            i += 1;
        }
        let r = Grid { num_rows, num_cols, elems };
        proof {
            assert forall|row: int, col: int|
                0 <= row < num_rows && 0 <= col < num_cols implies r.at(row, col) == 0 by {
                lemma_cell_in_storage(num_rows as int, num_cols as int, row, col);
            }
        }
        r
    }

    /// The numbers of rows and of columns.
    pub fn size(&self) -> (r: (usize, usize))
        ensures
            r.0 == self.rows(),
            r.1 == self.cols(),
    {
        (self.num_rows, self.num_cols)
    }

    /// Reads a cell; `None` outside the grid.
    pub fn get(&self, row: usize, col: usize) -> (r: Option<usize>)
        requires
            self.well_formed(),
        ensures
            r == if row < self.rows() && col < self.cols() {
                Some(self.at(row as int, col as int))
            } else {
                None
            },
    {
        if row < self.num_rows && col < self.num_cols {
            proof {
                lemma_cell_in_storage(
                    self.num_rows as int,
                    self.num_cols as int,
                    row as int,
                    col as int,
                );
            }
            Some(self.elems[row * self.num_cols + col])
        } else {
            None
        }
    }

    /// Writes a cell. Outside the grid nothing is written and the error is
    /// returned.
    pub fn set(&mut self, row: usize, col: usize, val: usize) -> (r: Result<(), GridError>)
        requires
            old(self).well_formed(),
        ensures
            final(self).well_formed(),
            final(self).rows() == old(self).rows(),
            final(self).cols() == old(self).cols(),
            r is Ok <==> row < old(self).rows() && col < old(self).cols(),
            r is Ok ==> final(self).at(row as int, col as int) == val,
            r is Err ==> r == Err::<(), GridError>(GridError::OutOfBounds),
            forall|i: int, j: int|
                0 <= i < old(self).rows() && 0 <= j < old(self).cols() && !(r is Ok && i == row && j
                    == col) ==> final(self).at(i, j) == old(self).at(i, j),
    {
        if row < self.num_rows && col < self.num_cols {
            proof {
                lemma_cell_in_storage(
                    self.num_rows as int,
                    self.num_cols as int,
                    row as int,
                    col as int,
                );
            }
            let place = row * self.num_cols + col;
            self.elems.set(place, val);
            proof {
                assert forall|i: int, j: int|
                    0 <= i < old(self).rows() && 0 <= j < old(self).cols() && !(i == row && j
                        == col) implies self.at(i, j) == old(self).at(i, j) by {
                    lemma_cell_in_storage(self.num_rows as int, self.num_cols as int, i, j);
                    if i * self.num_cols + j == place {
                        lemma_cells_apart(self.num_cols as int, i, j, row as int, col as int);
                    }
                }
            }
            Ok(())
        } else {
            Err(GridError::OutOfBounds)
        }
    }

    /// Puts zero in every cell.
    pub fn clear(&mut self)
        requires
            old(self).well_formed(),
        ensures
            final(self).well_formed(),
            final(self).rows() == old(self).rows(),
            final(self).cols() == old(self).cols(),
            forall|row: int, col: int|
                0 <= row < old(self).rows() && 0 <= col < old(self).cols() ==> final(self).at(
                    row,
                    col,
                ) == 0,
    {
        let mut i: usize = 0;
        while i < self.elems.len()
            invariant
                i <= self.elems@.len(),
                self.num_rows == old(self).num_rows,
                self.num_cols == old(self).num_cols,
                self.elems@.len() == old(self).elems@.len(),
                forall|k: int| 0 <= k < i ==> self.elems@[k] == 0,
            decreases self.elems@.len() - i,
        {
            self.elems.set(i, 0);
            i += 1;
        }
        proof {
            assert forall|row: int, col: int|
                0 <= row < old(self).rows() && 0 <= col < old(self).cols() implies self.at(
                row,
                col,
            ) == 0 by {
                lemma_cell_in_storage(self.num_rows as int, self.num_cols as int, row, col);
            }
        }
    }
}

} // verus!
