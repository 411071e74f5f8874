//! A rectangular buffer of scores, stored row by row.

use vstd::prelude::*;
use crate::fixed::{Fixed, Value};

verus! {

/// A `width` by `height` buffer of scores, read and written by a pair of
/// column and row.
pub struct Matrix {
    width: usize,
    height: usize,
    contents: Vec<Fixed>,
}

impl Matrix {
    /// The number of columns.
    pub closed spec fn width(&self) -> nat {
        self.width as nat
    }

    /// The number of rows.
    pub closed spec fn height(&self) -> nat {
        self.height as nat
    }

    /// The buffer holds one score for each pair of a column and a row.
    pub closed spec fn wf(&self) -> bool {
        self.contents@.len() == self.width * self.height
    }

    /// The score at column `col` of row `row`.
    pub closed spec fn at(&self, col: int, row: int) -> Value {
        self.contents@[row * self.width + col]@
    }

    /// A buffer of `width` columns and `height` rows, every score zero.
    pub fn new(width: usize, height: usize) -> (m: Matrix)
        ensures
            m.wf(),
            m.width() == width,
            m.height() == height,
            forall|col: int, row: int|
                0 <= col < width && 0 <= row < height ==> m.at(col, row) == Value::Finite(0),
    {
        let mut contents: Vec<Fixed> = Vec::new();
        let mut row: usize = 0;
        while row < height
            invariant
                row <= height,
                contents@.len() == row * width,
                forall|k: int| 0 <= k < contents@.len() ==> contents@[k] == Fixed::Finite(0),
            decreases height - row,
        {
            let mut col: usize = 0;
            while col < width
                invariant
                    col <= width,
                    contents@.len() == row * width + col,
                    forall|k: int| 0 <= k < contents@.len() ==> contents@[k] == Fixed::Finite(0),
                decreases width - col,
            {
                contents.push(Fixed::Finite(0));
                col = col + 1;
            }
            assert((row + 1) * width == row * width + width) by (nonlinear_arith);
            row = row + 1;
        }
        assert(height * width == width * height) by (nonlinear_arith);
        let m = Matrix { width, height, contents };
        proof {
            assert forall|col: int, row: int|
                0 <= col < width && 0 <= row < height implies m.at(col, row) == Value::Finite(
                0,
            ) by {
                lemma_cell_in_range(col, row, width as int, height as int);
            }
        }
        m
    }

    /// Reads the score at `at`, a pair of column and row.
    pub fn get(&self, at: (usize, usize)) -> (v: Fixed)
        requires
            self.wf(),
            at.0 < self.width(),
            at.1 < self.height(),
        ensures
            v@ == self.at(at.0 as int, at.1 as int),
    {
        let cells: usize = self.contents.len();
        assert(at.1 * self.width + at.0 < cells) by {
            lemma_cell_in_range(at.0 as int, at.1 as int, self.width as int, self.height as int);
        }
        self.contents[at.1 * self.width + at.0]
    }

    /// Writes `v` at `at`, a pair of column and row; every other score stays.
    pub fn set(&mut self, at: (usize, usize), v: Fixed)
        requires
            old(self).wf(),
            at.0 < old(self).width(),
            at.1 < old(self).height(),
        ensures
            final(self).wf(),
            final(self).width() == old(self).width(),
            final(self).height() == old(self).height(),
            final(self).at(at.0 as int, at.1 as int) == v@,
            forall|col: int, row: int|
                0 <= col < old(self).width() && 0 <= row < old(self).height() && (col, row) != (
                    at.0 as int,
                    at.1 as int,
                ) ==> final(self).at(col, row) == old(self).at(col, row),
    {
        let cells: usize = self.contents.len();
        assert(at.1 * self.width + at.0 < cells) by {
            lemma_cell_in_range(at.0 as int, at.1 as int, self.width as int, self.height as int);
        }
        let index: usize = at.1 * self.width + at.0;
        self.contents.set(index, v);
        proof {
            assert forall|col: int, row: int|
                0 <= col < old(self).width() && 0 <= row < old(self).height() && (col, row) != (
                    at.0 as int,
                    at.1 as int,
                ) implies self.at(col, row) == old(self).at(col, row) by {
                lemma_cell_in_range(col, row, self.width as int, self.height as int);
                lemma_cells_apart(col, row, at.0 as int, at.1 as int, self.width as int);
            }
        }
    }
}

/// The place of a cell in the buffer lies inside the buffer.
proof fn lemma_cell_in_range(col: int, row: int, width: int, height: int)
    requires
        0 <= col < width,
        0 <= row < height,
    ensures
        0 <= row * width + col < width * height,
        0 <= row * width <= row * width + col,
{
    assert(row * width + col < width * height) by (nonlinear_arith)
        requires
            0 <= col < width,
            0 <= row < height,
    ;
    assert(0 <= row * width) by (nonlinear_arith)
        requires
            0 <= row,
            0 <= width,
    ;
}

/// Two different cells have different places in the buffer.
proof fn lemma_cells_apart(col: int, row: int, col2: int, row2: int, width: int)
    requires
        0 <= col < width,
        0 <= col2 < width,
        0 <= row,
        0 <= row2,
        (col, row) != (col2, row2),
    ensures
        row * width + col != row2 * width + col2,
{
    if row < row2 {
        assert(row * width + col < row2 * width + col2) by (nonlinear_arith)
            requires
                0 <= col < width,
                0 <= col2,
                row + 1 <= row2,
        ;
    } else if row2 < row {
        assert(row2 * width + col2 < row * width + col) by (nonlinear_arith)
            requires
                0 <= col2 < width,
                0 <= col,
                row2 + 1 <= row,
        ;
    }
}

} // verus!
