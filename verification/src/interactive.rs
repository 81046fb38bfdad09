//! The state and cursor logic of an interactive puzzle view: a puzzle
//! grid, a focused cell, and the cached layout metrics of the clue areas.
//!
//! The view owns the cursor; the grid itself has no notion of focus.
//! Toggling marks the focused cell filled or not filled, or clears it back
//! to unknown; moving the focus clamps at the edges of the grid.

use vstd::prelude::*;

use crate::formatter::{
    get_max_clue_width, get_max_num_clues, is_max_clue_width, is_max_num_clues,
    spec_decimal_width,
};
use crate::nonogram::{spec_set_cell, Nonogram, Tile};

verus! {

pub struct NonogramView {
    nonogram: Nonogram,
    focus: (usize, usize),
    #[allow(dead_code)]
    max_num_row_clues: usize,
    #[allow(dead_code)]
    max_row_clue_width: usize,
    #[allow(dead_code)]
    max_num_col_clues: usize,
    #[allow(dead_code)]
    max_col_clue_width: usize,
}

impl NonogramView {
    /// The puzzle grid the view displays.
    pub closed spec fn spec_nonogram(&self) -> Nonogram {
        self.nonogram
    }

    /// The focused cell, as (row, column).
    pub closed spec fn spec_focus(&self) -> (int, int) {
        (self.focus.0 as int, self.focus.1 as int)
    }

    /// The grid is well formed and non-empty, the focus lies inside it,
    /// and the cached layout metrics agree with the clues.
    pub closed spec fn well_formed(&self) -> bool {
        &&& self.nonogram.well_formed()
        &&& self.nonogram.spec_num_rows() >= 1
        &&& self.nonogram.spec_num_cols() >= 1
        &&& 0 <= self.spec_focus().0 < self.nonogram.spec_num_rows()
        &&& 0 <= self.spec_focus().1 < self.nonogram.spec_num_cols()
        &&& is_max_num_clues(self.nonogram.spec_row_clues(), self.max_num_row_clues as int)
        &&& is_max_clue_width(self.nonogram.spec_row_clues(), self.max_row_clue_width as int)
        &&& is_max_num_clues(self.nonogram.spec_column_clues(), self.max_num_col_clues as int)
        &&& is_max_clue_width(self.nonogram.spec_column_clues(), self.max_col_clue_width as int)
    }

    /// A view of the given grid with the focus on the top-left cell. The
    /// grid must have at least one row and one column, and at least one
    /// clue on each side, so that the clue areas have a width.
    pub fn new(nonogram: Nonogram) -> (v: NonogramView)
        requires
            nonogram.well_formed(),
            nonogram.spec_num_rows() >= 1,
            nonogram.spec_num_cols() >= 1,
            exists|i: int|
                0 <= i < nonogram.spec_num_rows() && (#[trigger] nonogram.spec_row_clues()[i]).len()
                    > 0,
            exists|i: int|
                0 <= i < nonogram.spec_num_cols() && (
                #[trigger] nonogram.spec_column_clues()[i]).len() > 0,
        ensures
            v.well_formed(),
            v.spec_nonogram() == nonogram,
            v.spec_focus() == (0int, 0int),
    {
        let max_num_row_clues = get_max_num_row_clues(&nonogram);
        let max_row_clue_width = get_max_row_clue_width(&nonogram);
        let max_num_col_clues = get_max_num_col_clues(&nonogram);
        let max_col_clue_width = get_max_col_clue_width(&nonogram);
        NonogramView {
            max_num_row_clues,
            max_row_clue_width,
            max_num_col_clues,
            max_col_clue_width,
            nonogram,
            focus: (0, 0),
        }
    }

    /// Marks the focused cell filled, or clears it when it is already
    /// filled.
    pub fn toggle_filled_focused(&mut self)
        requires
            old(self).well_formed(),
        ensures
            final(self).well_formed(),
            final(self).spec_focus() == old(self).spec_focus(),
            final(self).spec_nonogram().spec_row_clues() == old(
                self,
            ).spec_nonogram().spec_row_clues(),
            final(self).spec_nonogram().spec_column_clues() == old(
                self,
            ).spec_nonogram().spec_column_clues(),
            ({
                let (r, c) = old(self).spec_focus();
                let cells = old(self).spec_nonogram().cells();
                if cells[r][c] == Some(Tile::Filled) {
                    final(self).spec_nonogram().cells() == spec_set_cell(cells, r, c, None)
                } else {
                    final(self).spec_nonogram().cells() == spec_set_cell(
                        cells,
                        r,
                        c,
                        Some(Tile::Filled),
                    )
                }
            }),
    {
        if let Some(Tile::Filled) = self.get_focused() {
            self.clear_focused();
        } else {
            self.set_focused(Tile::Filled);
        }
    }

    /// Marks the focused cell not filled, or clears it when it is already
    /// marked not filled.
    pub fn toggle_not_filled_focused(&mut self)
        requires
            old(self).well_formed(),
        ensures
            final(self).well_formed(),
            final(self).spec_focus() == old(self).spec_focus(),
            final(self).spec_nonogram().spec_row_clues() == old(
                self,
            ).spec_nonogram().spec_row_clues(),
            final(self).spec_nonogram().spec_column_clues() == old(
                self,
            ).spec_nonogram().spec_column_clues(),
            ({
                let (r, c) = old(self).spec_focus();
                let cells = old(self).spec_nonogram().cells();
                if cells[r][c] == Some(Tile::NotFilled) {
                    final(self).spec_nonogram().cells() == spec_set_cell(cells, r, c, None)
                } else {
                    final(self).spec_nonogram().cells() == spec_set_cell(
                        cells,
                        r,
                        c,
                        Some(Tile::NotFilled),
                    )
                }
            }),
    {
        if let Some(Tile::NotFilled) = self.get_focused() {
            self.clear_focused();
        } else {
            self.set_focused(Tile::NotFilled);
        }
    }

    /// Clears the focused cell back to unknown.
    pub fn clear_focused(&mut self)
        requires
            old(self).well_formed(),
        ensures
            final(self).well_formed(),
            final(self).spec_focus() == old(self).spec_focus(),
            final(self).spec_nonogram().spec_row_clues() == old(
                self,
            ).spec_nonogram().spec_row_clues(),
            final(self).spec_nonogram().spec_column_clues() == old(
                self,
            ).spec_nonogram().spec_column_clues(),
            final(self).spec_nonogram().cells() == spec_set_cell(
                old(self).spec_nonogram().cells(),
                old(self).spec_focus().0,
                old(self).spec_focus().1,
                None,
            ),
    {
        let (row, col) = self.focus;
        self.nonogram.unset_tile(row, col);
    }

    /// Moves the focus one row up, unless it is on the first row.
    pub fn move_focus_up(&mut self)
        requires
            old(self).well_formed(),
        ensures
            final(self).well_formed(),
            final(self).spec_nonogram() == old(self).spec_nonogram(),
            final(self).spec_focus().1 == old(self).spec_focus().1,
            final(self).spec_focus().0 == (if old(self).spec_focus().0 > 0 {
                old(self).spec_focus().0 - 1
            } else {
                0int
            }),
    {
        let (mut row, col) = self.focus;
        if row > 0 {
            row = row - 1;
        }
        self.focus = (row, col);
    }

    /// Moves the focus one row down, unless it is on the last row.
    pub fn move_focus_down(&mut self)
        requires
            old(self).well_formed(),
        ensures
            final(self).well_formed(),
            final(self).spec_nonogram() == old(self).spec_nonogram(),
            final(self).spec_focus().1 == old(self).spec_focus().1,
            final(self).spec_focus().0 == (if old(self).spec_focus().0 + 1 < old(
                self,
            ).spec_nonogram().spec_num_rows() {
                old(self).spec_focus().0 + 1
            } else {
                old(self).spec_focus().0
            }),
    {
        let (mut row, col) = self.focus;
        if row < self.nonogram.num_rows() - 1 {
            row = row + 1;
        }
        self.focus = (row, col);
    }

    /// Moves the focus one column left, unless it is on the first column.
    pub fn move_focus_left(&mut self)
        requires
            old(self).well_formed(),
        ensures
            final(self).well_formed(),
            final(self).spec_nonogram() == old(self).spec_nonogram(),
            final(self).spec_focus().0 == old(self).spec_focus().0,
            final(self).spec_focus().1 == (if old(self).spec_focus().1 > 0 {
                old(self).spec_focus().1 - 1
            } else {
                0int
            }),
    {
        let (row, mut col) = self.focus;
        if col > 0 {
            col = col - 1;
        }
        self.focus = (row, col);
    }

    /// Moves the focus one column right, unless it is on the last column.
    pub fn move_focus_right(&mut self)
        requires
            old(self).well_formed(),
        ensures
            final(self).well_formed(),
            final(self).spec_nonogram() == old(self).spec_nonogram(),
            final(self).spec_focus().0 == old(self).spec_focus().0,
            final(self).spec_focus().1 == (if old(self).spec_focus().1 + 1 < old(
                self,
            ).spec_nonogram().spec_num_cols() {
                old(self).spec_focus().1 + 1
            } else {
                old(self).spec_focus().1
            }),
    {
        let (row, mut col) = self.focus;
        if col < self.nonogram.num_cols() - 1 {
            col = col + 1;
        }
        self.focus = (row, col);
    }

    /// Decides whether the grid is a correct solution.
    pub fn is_correct_solution(&self) -> (r: bool)
        requires
            self.well_formed(),
        ensures
            r == self.spec_nonogram().spec_correct_solution(),
    {
        self.nonogram.is_correct_solution()
    }

    /// The state of the focused cell.
    fn get_focused(&self) -> (t: Option<Tile>)
        requires
            self.well_formed(),
        ensures
            t == self.spec_nonogram().cells()[self.spec_focus().0][self.spec_focus().1],
    {
        let (row, col) = self.focus;
        self.nonogram.get_tile(row, col)
    }

    /// Overwrites the focused cell with the given tile.
    fn set_focused(&mut self, tile: Tile)
        requires
            old(self).well_formed(),
        ensures
            final(self).well_formed(),
            final(self).spec_focus() == old(self).spec_focus(),
            final(self).spec_nonogram().spec_row_clues() == old(
                self,
            ).spec_nonogram().spec_row_clues(),
            final(self).spec_nonogram().spec_column_clues() == old(
                self,
            ).spec_nonogram().spec_column_clues(),
            final(self).spec_nonogram().cells() == spec_set_cell(
                old(self).spec_nonogram().cells(),
                old(self).spec_focus().0,
                old(self).spec_focus().1,
                Some(tile),
            ),
    {
        let (row, col) = self.focus;
        self.nonogram.set_tile(row, col, tile);
    }
}

/// The largest number of clues on any row.
pub fn get_max_num_row_clues(nonogram: &Nonogram) -> (m: usize)
    requires
        nonogram.spec_num_rows() >= 1,
    ensures
        forall|i: int|
            0 <= i < nonogram.spec_num_rows() ==> (#[trigger] nonogram.spec_row_clues()[i]).len()
                <= m,
        exists|i: int|
            0 <= i < nonogram.spec_num_rows() && (#[trigger] nonogram.spec_row_clues()[i]).len()
                == m,
{
    let v = nonogram.row_clues();
    let m = get_max_num_clues(v);
    proof {
        let a = choose|a: int| 0 <= a < v@.len() && (#[trigger] v@[a])@.len() == m;
        assert(nonogram.spec_row_clues()[a] == crate::nonogram::clue_seqs(v@)[a]);
    }
    m
}

/// The largest number of clues on any column.
pub fn get_max_num_col_clues(nonogram: &Nonogram) -> (m: usize)
    requires
        nonogram.spec_num_cols() >= 1,
    ensures
        forall|i: int|
            0 <= i < nonogram.spec_num_cols() ==> (#[trigger] nonogram.spec_column_clues()[i]).len()
                <= m,
        exists|i: int|
            0 <= i < nonogram.spec_num_cols() && (#[trigger] nonogram.spec_column_clues()[i]).len()
                == m,
{
    let v = nonogram.column_clues();
    let m = get_max_num_clues(v);
    proof {
        let a = choose|a: int| 0 <= a < v@.len() && (#[trigger] v@[a])@.len() == m;
        assert(nonogram.spec_column_clues()[a] == crate::nonogram::clue_seqs(v@)[a]);
    }
    m
}

/// The width of the widest row clue number.
pub fn get_max_row_clue_width(nonogram: &Nonogram) -> (w: usize)
    requires
        exists|i: int|
            0 <= i < nonogram.spec_num_rows() && (#[trigger] nonogram.spec_row_clues()[i]).len()
                > 0,
    ensures
        forall|i: int, j: int|
            0 <= i < nonogram.spec_num_rows() && 0 <= j < (
            #[trigger] nonogram.spec_row_clues()[i]).len() ==> spec_decimal_width(
                (#[trigger] nonogram.spec_row_clues()[i][j]) as int,
            ) <= w,
        exists|i: int, j: int|
            0 <= i < nonogram.spec_num_rows() && 0 <= j < (
            #[trigger] nonogram.spec_row_clues()[i]).len() && spec_decimal_width(
                (#[trigger] nonogram.spec_row_clues()[i][j]) as int,
            ) == w,
{
    let v = nonogram.row_clues();
    proof {
        let e = choose|i: int|
            0 <= i < nonogram.spec_num_rows() && (#[trigger] nonogram.spec_row_clues()[i]).len()
                > 0;
        assert(nonogram.spec_row_clues()[e] == crate::nonogram::clue_seqs(v@)[e]);
    }
    let w = get_max_clue_width(v);
    proof {
        let (x, y) = choose|x: int, y: int|
            0 <= x < v@.len() && 0 <= y < (#[trigger] v@[x])@.len() && spec_decimal_width(
                (#[trigger] v@[x]@[y]) as int,
            ) == w;
        assert(nonogram.spec_row_clues()[x] == crate::nonogram::clue_seqs(v@)[x]);
    }
    w
}

/// The width of the widest column clue number.
pub fn get_max_col_clue_width(nonogram: &Nonogram) -> (w: usize)
    requires
        exists|i: int|
            0 <= i < nonogram.spec_num_cols() && (#[trigger] nonogram.spec_column_clues()[i]).len()
                > 0,
    ensures
        forall|i: int, j: int|
            0 <= i < nonogram.spec_num_cols() && 0 <= j < (
            #[trigger] nonogram.spec_column_clues()[i]).len() ==> spec_decimal_width(
                (#[trigger] nonogram.spec_column_clues()[i][j]) as int,
            ) <= w,
        exists|i: int, j: int|
            0 <= i < nonogram.spec_num_cols() && 0 <= j < (
            #[trigger] nonogram.spec_column_clues()[i]).len() && spec_decimal_width(
                (#[trigger] nonogram.spec_column_clues()[i][j]) as int,
            ) == w,
{
    let v = nonogram.column_clues();
    proof {
        let e = choose|i: int|
            0 <= i < nonogram.spec_num_cols() && (#[trigger] nonogram.spec_column_clues()[i]).len()
                > 0;
        assert(nonogram.spec_column_clues()[e] == crate::nonogram::clue_seqs(v@)[e]);
    }
    let w = get_max_clue_width(v);
    proof {
        let (x, y) = choose|x: int, y: int|
            0 <= x < v@.len() && 0 <= y < (#[trigger] v@[x])@.len() && spec_decimal_width(
                (#[trigger] v@[x]@[y]) as int,
            ) == w;
        assert(nonogram.spec_column_clues()[x] == crate::nonogram::clue_seqs(v@)[x]);
    }
    w
}

} // verus!
