//! Trusted interface to the `array2d` crate, which stores the tile grid.
//!
//! The grid contents are modelled by the uninterpreted functions
//! [`grid_cells`] (the tiles, row by row) and [`grid_col_count`] (the number
//! of columns the grid was created with); every wrapper below states what the
//! `array2d` operation does in terms of these two.

use vstd::prelude::*;

use crate::nonogram::Tile;

verus! {

#[verifier::external_type_specification]
#[verifier::external_body]
#[verifier::reject_recursive_types(T)]
pub struct ExArray2D<T>(array2d::Array2D<T>);

/// The contents of the grid: one sequence of tiles per row, top to bottom,
/// each row left to right.
pub uninterp spec fn grid_cells(g: array2d::Array2D<Option<Tile>>) -> Seq<Seq<Option<Tile>>>;

/// The number of columns the grid was created with (also meaningful when the
/// grid has no rows).
pub uninterp spec fn grid_col_count(g: array2d::Array2D<Option<Tile>>) -> nat;

/// Relies on `array2d::Array2D::filled_with`: builds a `num_rows` by
/// `num_cols` grid, in row major order, with every element the given one.
#[verifier::external_body]
pub(crate) fn grid_filled_unknown(num_rows: usize, num_cols: usize) -> (g: array2d::Array2D<
    Option<Tile>,
>)
    requires
        num_rows * num_cols <= usize::MAX,
    ensures
        grid_cells(g) == Seq::new(
            num_rows as nat,
            |r: int| Seq::new(num_cols as nat, |c: int| Option::<Tile>::None),
        ),
        grid_col_count(g) == num_cols,
{
    array2d::Array2D::filled_with(None, num_rows, num_cols)
}

/// Relies on `array2d::Array2D::get`: returns the element at the given row
/// and column; the indices are in bounds, so the result is `Some`.
#[verifier::external_body]
pub(crate) fn grid_get(g: &array2d::Array2D<Option<Tile>>, row: usize, col: usize) -> (t: Option<
    Tile,
>)
    requires
        row < grid_cells(*g).len(),
        col < grid_cells(*g)[row as int].len(),
    ensures
        t == grid_cells(*g)[row as int][col as int],
{
    *g.get(row, col).unwrap()
}

/// Relies on the `IndexMut` impl of `array2d::Array2D`: replaces the element
/// at the given row and column and changes nothing else.
#[verifier::external_body]
pub(crate) fn grid_set(
    g: &mut array2d::Array2D<Option<Tile>>,
    row: usize,
    col: usize,
    t: Option<Tile>,
)
    requires
        row < grid_cells(*old(g)).len(),
        col < grid_cells(*old(g))[row as int].len(),
    ensures
        grid_cells(*final(g)) == grid_cells(*old(g)).update(
            row as int,
            grid_cells(*old(g))[row as int].update(col as int, t),
        ),
        grid_col_count(*final(g)) == grid_col_count(*old(g)),
{
    g[(row, col)] = t;
}

/// Relies on `array2d::Array2D::row_iter`: the elements of the given row,
/// left to right. With the row index in range, `row_iter` returns `Err`
/// exactly when the grid has zero columns, and then the row is empty.
#[verifier::external_body]
pub(crate) fn grid_row(g: &array2d::Array2D<Option<Tile>>, row: usize) -> (v: Vec<Option<Tile>>)
    requires
        row < grid_cells(*g).len(),
    ensures
        v@ == grid_cells(*g)[row as int],
{
    match g.row_iter(row) {
        Ok(it) => it.cloned().collect(),
        Err(_) => Vec::new(),
    }
}

/// Relies on `array2d::Array2D::column_iter`: the elements of the given
/// column, top to bottom, one per row.
#[verifier::external_body]
pub(crate) fn grid_column(g: &array2d::Array2D<Option<Tile>>, col: usize) -> (v: Vec<Option<Tile>>)
    requires
        col < grid_col_count(*g),
    ensures
        v@ == Seq::new(grid_cells(*g).len(), |r: int| grid_cells(*g)[r][col as int]),
{
    g.column_iter(col).unwrap().cloned().collect()
}

} // verus!
