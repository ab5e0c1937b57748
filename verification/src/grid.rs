//! The shadow text grid: a row-major grid of optional characters that
//! mirrors what is rendered on screen, so lines can be edited and redrawn
//! without reading pixel memory back.

use vstd::prelude::*;
use vstd::pervasive::VecAdditionalExecFns;
use crate::{grid_cols, grid_rows, BORDER_PADDING, CHAR_HEIGHT, CHAR_WIDTH, LETTER_SPACING,
    LINE_SPACING};

verus! {

/// A row-major grid of `rows * cols` optional characters.
pub struct TextGrid {
    /// Number of columns.
    pub cols: usize,
    /// Number of rows.
    pub rows: usize,
    /// The cells, row-major: the cell at (row, col) is `cells[row * cols + col]`.
    pub cells: Vec<Option<char>>,
}

pub proof fn lemma_cell_index(cols: int, rows: int, r: int, c: int)
    requires
        1 <= cols,
        0 <= r < rows,
        0 <= c < cols,
    ensures
        0 <= r * cols + c < rows * cols,
        r * cols <= r * cols + c,
{
    assert(0 <= r * cols && r * cols + c < rows * cols) by (nonlinear_arith)
        requires 0 <= r < rows, 0 <= c < cols, 1 <= cols;
}

pub proof fn lemma_other_row(cols: int, row: int, r: int, c: int)
    requires
        1 <= cols,
        0 <= row,
        0 <= r,
        0 <= c < cols,
        r != row,
    ensures
        r * cols + c < row * cols || r * cols + c >= row * cols + cols,
{
    if r < row {
        assert(r * cols + c < row * cols) by (nonlinear_arith)
            requires r < row, 0 <= c < cols, 1 <= cols;
    } else {
        assert(r * cols + c >= row * cols + cols) by (nonlinear_arith)
            requires r > row, 0 <= c, 1 <= cols;
    }
}

impl TextGrid {
    pub open spec fn wf(self) -> bool {
        &&& 1 <= self.cols
        &&& 1 <= self.rows
        &&& self.cells.len() == self.rows * self.cols
    }

    /// The cell at (r, c).
    pub open spec fn cell(self, r: int, c: int) -> Option<char> {
        self.cells@[r * self.cols + c]
    }

    /// The grid as a sequence of rows, each a sequence of cells.
    pub open spec fn row_view(self) -> Seq<Seq<Option<char>>> {
        Seq::new(self.rows as nat, |r: int| Seq::new(self.cols as nat, |c: int| self.cell(r, c)))
    }

    /// Reads the cell at (row, col).
    pub fn get(&self, row: usize, col: usize) -> (res: Option<char>)
        requires
            self.wf(),
            row < self.rows,
            col < self.cols,
        ensures
            res == self.cell(row as int, col as int),
    {
        proof {
            lemma_cell_index(self.cols as int, self.rows as int, row as int, col as int);
        }
        self.cells[row * self.cols + col]
    }

    /// Recomputes the grid size for a framebuffer of the given extent and
    /// reallocates every cell empty. The size is clamped to at least one
    /// row and one column.
    #[verifier::loop_isolation(false)]
    pub fn resize_for(&mut self, width: usize, height: usize)
        requires
            grid_cols(width as int, height as int) * grid_rows(width as int, height as int)
                <= usize::MAX,
        ensures
            final(self).wf(),
            final(self).cols == grid_cols(width as int, height as int),
            final(self).rows == grid_rows(width as int, height as int),
            forall|r: int, c: int|
                0 <= r < final(self).rows && 0 <= c < final(self).cols
                    ==> final(self).cell(r, c) is None,
    {
        let avail_w = if width > 2 * BORDER_PADDING { width - 2 * BORDER_PADDING } else { 0 };
        let avail_h = if height > 2 * BORDER_PADDING { height - 2 * BORDER_PADDING } else { 0 };
        let mut cols = avail_w / (CHAR_WIDTH + LETTER_SPACING);
        let mut rows = avail_h / (CHAR_HEIGHT + LINE_SPACING);
        if cols == 0 || rows == 0 {
            cols = 1;
            rows = 1;
        }
        proof {
            assert(cols as int == grid_cols(width as int, height as int));
            assert(rows as int == grid_rows(width as int, height as int));
            assert(rows as int * cols as int == cols as int * rows as int) by (nonlinear_arith);
        }
        let n = rows * cols;
        let mut cells: Vec<Option<char>> = Vec::new();
        while cells.len() < n
            invariant
                cells.len() <= n,
                forall|i: int| 0 <= i < cells.len() ==> cells@[i] is None,
            decreases n - cells.len(),
        {
            cells.push(None);
        }
        self.cols = cols;
        self.rows = rows;
        self.cells = cells;
        proof {
            assert forall|r: int, c: int|
                0 <= r < self.rows && 0 <= c < self.cols
                    implies self.cell(r, c) is None by {
                lemma_cell_index(self.cols as int, self.rows as int, r, c);
            }
        }
    }

    /// Inserts `ch` at (row, col), shifting the cells at and after `col`
    /// one place right within the row; the row's last cell is dropped.
    #[verifier::loop_isolation(false)]
    pub fn shift_right_from(&mut self, row: usize, col: usize, ch: char)
        requires
            old(self).wf(),
            row < old(self).rows,
            col < old(self).cols,
        ensures
            final(self).wf(),
            final(self).cols == old(self).cols,
            final(self).rows == old(self).rows,
            final(self).cell(row as int, col as int) == Some(ch),
            forall|c: int| 0 <= c < col ==> final(self).cell(row as int, c) == old(self).cell(row as int, c),
            forall|c: int| col < c < final(self).cols
                ==> final(self).cell(row as int, c) == old(self).cell(row as int, c - 1),
            forall|r: int, c: int|
                0 <= r < final(self).rows && 0 <= c < final(self).cols && r != row
                    ==> final(self).cell(r, c) == old(self).cell(r, c),
    {
        proof {
            lemma_cell_index(self.cols as int, self.rows as int, row as int, col as int);
            lemma_cell_index(self.cols as int, self.rows as int, row as int, self.cols - 1);
        }
        let start = row * self.cols + col;
        let end = row * self.cols + self.cols - 1;
        let mut i = end;
        while i > start
            invariant
                start <= i <= end,
                start == row * self.cols + col,
                end == row * self.cols + self.cols - 1,
                self.cols == old(self).cols,
                self.rows == old(self).rows,
                self.cells.len() == old(self).cells.len(),
                end < self.cells.len(),
                forall|j: int| i < j <= end ==> self.cells@[j] == old(self).cells@[j - 1],
                forall|j: int| 0 <= j <= i ==> self.cells@[j] == old(self).cells@[j],
                forall|j: int| end < j < self.cells.len() ==> self.cells@[j] == old(self).cells@[j],
            decreases i - start,
        {
            let prev = self.cells[i - 1];
            self.cells.set(i, prev);
            i -= 1;
        }
        self.cells.set(start, Some(ch));
        proof {
            assert forall|r: int, c: int|
                0 <= r < self.rows && 0 <= c < self.cols && r != row
                    implies self.cell(r, c) == old(self).cell(r, c) by {
                lemma_cell_index(self.cols as int, self.rows as int, r, c);
                lemma_other_row(self.cols as int, row as int, r, c);
            }
        }
    }

    /// Deletes the cell at (row, col), shifting the cells after `col` one
    /// place left within the row; the row's last cell becomes empty.
    #[verifier::loop_isolation(false)]
    pub fn shift_left_into(&mut self, row: usize, col: usize)
        requires
            old(self).wf(),
            row < old(self).rows,
            col < old(self).cols,
        ensures
            final(self).wf(),
            final(self).cols == old(self).cols,
            final(self).rows == old(self).rows,
            forall|c: int| 0 <= c < col ==> final(self).cell(row as int, c) == old(self).cell(row as int, c),
            forall|c: int| col <= c < final(self).cols - 1
                ==> final(self).cell(row as int, c) == old(self).cell(row as int, c + 1),
            final(self).cell(row as int, final(self).cols - 1) is None,
            forall|r: int, c: int|
                0 <= r < final(self).rows && 0 <= c < final(self).cols && r != row
                    ==> final(self).cell(r, c) == old(self).cell(r, c),
    {
        proof {
            lemma_cell_index(self.cols as int, self.rows as int, row as int, col as int);
            lemma_cell_index(self.cols as int, self.rows as int, row as int, self.cols - 1);
        }
        let start = row * self.cols + col;
        let end = row * self.cols + self.cols - 1;
        let mut i = start;
        while i < end
            invariant
                start <= i <= end,
                start == row * self.cols + col,
                end == row * self.cols + self.cols - 1,
                self.cols == old(self).cols,
                self.rows == old(self).rows,
                self.cells.len() == old(self).cells.len(),
                end < self.cells.len(),
                forall|j: int| start <= j < i ==> self.cells@[j] == old(self).cells@[j + 1],
                forall|j: int| 0 <= j < start ==> self.cells@[j] == old(self).cells@[j],
                forall|j: int| i <= j < self.cells.len() ==> self.cells@[j] == old(self).cells@[j],
            decreases end - i,
        {
            let next = self.cells[i + 1];
            self.cells.set(i, next);
            i += 1;
        }
        self.cells.set(end, None);
        proof {
            assert forall|r: int, c: int|
                0 <= r < self.rows && 0 <= c < self.cols && r != row
                    implies self.cell(r, c) == old(self).cell(r, c) by {
                lemma_cell_index(self.cols as int, self.rows as int, r, c);
                lemma_other_row(self.cols as int, row as int, r, c);
            }
        }
    }
}

} // verus!
