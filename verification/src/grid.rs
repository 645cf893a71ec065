//! A grid of numbers with a fixed number of rows and columns.

use vstd::prelude::*;

verus! {

/// A grid of `usize` values, stored row by row.
pub struct Grid {
    num_rows: usize,
    num_cols: usize,
    elems: Vec<usize>,
}

impl Grid {
    /// The number of rows.
    pub closed spec fn rows(&self) -> nat {
        self.num_rows as nat
    }

    /// The number of columns.
    pub closed spec fn cols(&self) -> nat {
        self.num_cols as nat
    }

    /// The value at `row` and `col`.
    pub closed spec fn at(&self, row: int, col: int) -> usize
        recommends
            0 <= row < self.rows(),
            0 <= col < self.cols(),
    {
        self.elems@[row * self.num_cols + col]
    }

    /// The grid has a cell for every row and column.
    pub closed spec fn wf(&self) -> bool {
        &&& self.elems@.len() == self.num_rows * self.num_cols
        &&& self.num_rows * self.num_cols <= usize::MAX
    }

    proof fn lemma_index(&self, row: int, col: int)
        requires
            self.wf(),
            0 <= row < self.num_rows,
            0 <= col < self.num_cols,
        ensures
            0 <= row * self.num_cols + col < self.elems@.len(),
            row * self.num_cols + col <= usize::MAX,
    {
        assert(row * self.num_cols + col < self.num_rows * self.num_cols) by (nonlinear_arith)
            requires
                0 <= row < self.num_rows,
                0 <= col < self.num_cols,
        ;
        assert(0 <= row * self.num_cols) by (nonlinear_arith)
            requires
                0 <= row,
                0 <= self.num_cols,
        ;
    }

    proof fn lemma_cells_apart(&self, row: int, col: int, other_row: int, other_col: int)
        requires
            0 <= row,
            0 <= other_row,
            0 <= col < self.num_cols,
            0 <= other_col < self.num_cols,
            row * self.num_cols + col == other_row * self.num_cols + other_col,
        ensures
            row == other_row,
            col == other_col,
    {
        let n = self.num_cols as int;
        if row < other_row {
            assert((other_row - row) * n >= n) by (nonlinear_arith)
                requires
                    other_row - row >= 1,
                    n >= 0,
            ;
            assert(other_row * n - row * n == (other_row - row) * n) by (nonlinear_arith);
        } else if other_row < row {
            assert((row - other_row) * n >= n) by (nonlinear_arith)
                requires
                    row - other_row >= 1,
                    n >= 0,
            ;
            assert(row * n - other_row * n == (row - other_row) * n) by (nonlinear_arith);
        }
    }

    /// A grid of the given size with zero in every cell.
    pub fn new(num_rows: usize, num_cols: usize) -> (grid: Grid)
        requires
            num_rows * num_cols <= usize::MAX,
        ensures
            grid.wf(),
            grid.rows() == num_rows,
            grid.cols() == num_cols,
            forall|row: int, col: int|
                0 <= row < num_rows && 0 <= col < num_cols ==> #[trigger] grid.at(row, col) == 0,
    {
        let count: usize = num_rows * num_cols;
        let mut elems: Vec<usize> = Vec::new();
        let mut i: usize = 0;
        while i < count
            invariant
                i <= count,
                elems@.len() == i,
                forall|k: int| 0 <= k < i ==> #[trigger] elems@[k] == 0,
            decreases count - i,
        {
            elems.push(0);
            i = i + 1;
        }
        let grid = Grid { num_rows, num_cols, elems };
        proof {
            assert forall|row: int, col: int|
                0 <= row < num_rows && 0 <= col < num_cols implies #[trigger] grid.at(row, col)
                == 0 by {
                grid.lemma_index(row, col);
            }
        }
        grid
    }

    /// The numbers of rows and of columns.
    pub fn size(&self) -> (size: (usize, usize))
        ensures
            size.0 == self.rows(),
            size.1 == self.cols(),
    {
        (self.num_rows, self.num_cols)
    }

    /// The value at `row` and `col`, or `None` if the grid has no such cell.
    pub fn get(&self, row: usize, col: usize) -> (value: Option<usize>)
        requires
            self.wf(),
        ensures
            value == if row < self.rows() && col < self.cols() {
                Some(self.at(row as int, col as int))
            } else {
                None
            },
    {
        if row < self.num_rows && col < self.num_cols {
            proof {
                self.lemma_index(row as int, col as int);
            }
            Some(self.elems[row * self.num_cols + col])
        } else {
            None
        }
    }

    /// Puts `val` at `row` and `col`. Fails, and changes nothing, if the grid
    /// has no such cell.
    pub fn set(&mut self, row: usize, col: usize, val: usize) -> (done: Result<(), &'static str>)
        requires
            old(self).wf(),
        ensures
            final(self).wf(),
            final(self).rows() == old(self).rows(),
            final(self).cols() == old(self).cols(),
            done is Ok <==> row < old(self).rows() && col < old(self).cols(),
            done is Err ==> *final(self) == *old(self),
            done is Ok ==> final(self).at(row as int, col as int) == val,
            forall|r: int, c: int|
                0 <= r < old(self).rows() && 0 <= c < old(self).cols() && !(r == row && c == col)
                    ==> #[trigger] final(self).at(r, c) == old(self).at(r, c),
    {
        if row < self.num_rows && col < self.num_cols {
            proof {
                self.lemma_index(row as int, col as int);
            }
            let ghost before = *self;
            self.elems.set(row * self.num_cols + col, val);
            proof {
                assert forall|r: int, c: int|
                    0 <= r < before.rows() && 0 <= c < before.cols() && !(r == row && c
                        == col) implies #[trigger] self.at(r, c) == before.at(r, c) by {
                    before.lemma_index(r, c);
                    if r * self.num_cols + c == row * self.num_cols + col {
                        self.lemma_cells_apart(r, c, row as int, col as int);
                    }
                }
            }
            Ok(())
        } else {
            Err("Provided coordinates out of bounds")
        }
    }

    /// The rows of the grid, from the first to the last, each with its values
    /// from the first column to the last: what there is to show of the grid.
    pub fn display(&self) -> (shown: Vec<Vec<usize>>)
        requires
            self.wf(),
        ensures
            shown@.len() == self.rows(),
            forall|row: int| 0 <= row < self.rows() ==> (#[trigger] shown@[row])@.len() == self.cols(),
            forall|row: int, col: int|
                0 <= row < self.rows() && 0 <= col < self.cols() ==> shown@[row]@[col]
                    == #[trigger] self.at(row, col),
    {
        let mut shown: Vec<Vec<usize>> = Vec::new();
        let mut row: usize = 0;
        while row < self.num_rows
            invariant
                self.wf(),
                row <= self.num_rows,
                shown@.len() == row,
                forall|r: int| 0 <= r < row ==> (#[trigger] shown@[r])@.len() == self.cols(),
                forall|r: int, c: int|
                    0 <= r < row && 0 <= c < self.cols() ==> shown@[r]@[c] == #[trigger] self.at(
                        r,
                        c,
                    ),
            decreases self.num_rows - row,
        {
            let mut values: Vec<usize> = Vec::new();
            let mut col: usize = 0;
            while col < self.num_cols
                invariant
                    self.wf(),
                    row < self.num_rows,
                    col <= self.num_cols,
                    values@.len() == col,
                    forall|c: int| 0 <= c < col ==> values@[c] == #[trigger] self.at(row as int, c),
                decreases self.num_cols - col,
            {
                proof {
                    self.lemma_index(row as int, col as int);
                }
                values.push(self.elems[row * self.num_cols + col]);
                col = col + 1;
            }
            shown.push(values);
            row = row + 1;
        }
        shown
    }

    /// Puts zero in every cell.
    pub fn clear(&mut self)
        requires
            old(self).wf(),
        ensures
            final(self).wf(),
            final(self).rows() == old(self).rows(),
            final(self).cols() == old(self).cols(),
            forall|row: int, col: int|
                0 <= row < final(self).rows() && 0 <= col < final(self).cols()
                    ==> #[trigger] final(self).at(row, col) == 0,
    {
        let mut i: usize = 0;
        while i < self.elems.len()
            invariant
                i <= self.elems@.len(),
                self.elems@.len() == old(self).elems@.len(),
                self.num_rows == old(self).num_rows,
                self.num_cols == old(self).num_cols,
                forall|k: int| 0 <= k < i ==> #[trigger] self.elems@[k] == 0,
            decreases self.elems@.len() - i,
        {
            self.elems.set(i, 0);
            i = i + 1;
        }
        proof {
            assert forall|row: int, col: int|
                0 <= row < self.rows() && 0 <= col < self.cols() implies #[trigger] self.at(
                row,
                col,
            ) == 0 by {
                self.lemma_index(row, col);
            }
        }
    }
}

} // verus!
