//! The nonogram puzzle grid: a rectangular grid of tri-state tiles together
//! with per-row and per-column run-length clues.
//!
//! Each tile is either unknown (`None`) or known (`Some`), and a known tile
//! is either filled or not filled. A grid is a correct solution when, for
//! every row and every column, the lengths of the maximal runs of filled
//! tiles (unknown counting as not filled) equal the declared clues, in order.

use vstd::prelude::*;

use crate::storage;

verus! {

pub type MaybeTile = Option<Tile>;

pub type Clue = usize;

pub type LineClues = Vec<Clue>;

#[derive(Debug, Copy, Clone, Eq, PartialEq, Ord, PartialOrd)]
pub enum Tile {
    Filled,
    FilledWithColor(char),
    NotFilled,
}

impl Tile {
    /// A tile counts as filled unless it is known to be not filled.
    pub open spec fn spec_is_filled(&self) -> bool {
        match *self {
            Tile::NotFilled => false,
            _ => true,
        }
    }

    pub fn is_filled(&self) -> (r: bool)
        ensures
            r == self.spec_is_filled(),
    {
        match *self {
            Tile::NotFilled => false,
            _ => true,
        }
    }

    pub fn is_not_filled(&self) -> (r: bool)
        ensures
            r == !self.spec_is_filled(),
    {
        match *self {
            Tile::NotFilled => true,
            _ => false,
        }
    }
}

/// An unknown tile is scored as not filled.
pub open spec fn cell_filled(c: MaybeTile) -> bool {
    match c {
        Some(t) => t.spec_is_filled(),
        None => false,
    }
}

/// The run lengths of `line`, given that `cur` filled tiles immediately
/// precede it: filled tiles extend the current run, a not-filled (or
/// unknown) tile closes it, and a run that reaches the end of the line is
/// emitted last.
pub open spec fn runs_from(line: Seq<MaybeTile>, cur: int) -> Seq<int>
    decreases line.len(),
{
    if line.len() == 0 {
        if cur > 0 {
            seq![cur]
        } else {
            Seq::empty()
        }
    } else if cell_filled(line[0]) {
        runs_from(line.drop_first(), cur + 1)
    } else if cur > 0 {
        seq![cur] + runs_from(line.drop_first(), 0)
    } else {
        runs_from(line.drop_first(), 0)
    }
}

/// The ordered lengths of the maximal runs of filled tiles in `line`.
/// An entirely not-filled line yields the empty sequence.
pub open spec fn run_lengths(line: Seq<MaybeTile>) -> Seq<int> {
    runs_from(line, 0)
}

pub open spec fn clues_as_ints(clues: Seq<Clue>) -> Seq<int> {
    clues.map_values(|c: Clue| c as int)
}

/// A line satisfies its clues exactly when its observed run lengths equal
/// the clues, element-wise, order- and length-sensitive.
pub open spec fn line_matches(line: Seq<MaybeTile>, clues: Seq<Clue>) -> bool {
    run_lengths(line) == clues_as_ints(clues)
}

/// The clue vectors as a sequence of sequences.
pub open spec fn clue_seqs(v: Seq<LineClues>) -> Seq<Seq<Clue>> {
    Seq::new(v.len(), |i: int| v[i]@)
}

/// The grid contents with one cell replaced.
pub open spec fn spec_set_cell(
    cells: Seq<Seq<MaybeTile>>,
    row: int,
    col: int,
    v: MaybeTile,
) -> Seq<Seq<MaybeTile>> {
    cells.update(row, cells[row].update(col, v))
}

#[derive(Debug)]
pub struct Nonogram {
    tiles: array2d::Array2D<MaybeTile>,
    row_clues: Vec<LineClues>,
    column_clues: Vec<LineClues>,
}

impl Nonogram {
    /// The tiles of the grid, row by row.
    pub closed spec fn cells(&self) -> Seq<Seq<MaybeTile>> {
        storage::grid_cells(self.tiles)
    }

    pub closed spec fn spec_row_clues(&self) -> Seq<Seq<Clue>> {
        clue_seqs(self.row_clues@)
    }

    pub closed spec fn spec_column_clues(&self) -> Seq<Seq<Clue>> {
        clue_seqs(self.column_clues@)
    }

    pub open spec fn spec_num_rows(&self) -> int {
        self.spec_row_clues().len() as int
    }

    pub open spec fn spec_num_cols(&self) -> int {
        self.spec_column_clues().len() as int
    }

    /// The tiles of one column, top to bottom.
    pub open spec fn spec_col(&self, col: int) -> Seq<MaybeTile> {
        Seq::new(self.spec_num_rows() as nat, |r: int| self.cells()[r][col])
    }

    /// The dimensions of the tile grid agree with the clue vectors: one row
    /// of tiles per row clue and one column per column clue.
    pub closed spec fn well_formed(&self) -> bool {
        &&& self.cells().len() == self.spec_num_rows()
        &&& forall|r: int|
            0 <= r < self.spec_num_rows() ==> (#[trigger] self.cells()[r]).len()
                == self.spec_num_cols()
        &&& storage::grid_col_count(self.tiles) == self.spec_num_cols()
    }

    /// The grid is a correct solution exactly when every row's and every
    /// column's observed run lengths equal the declared clues.
    pub open spec fn spec_correct_solution(&self) -> bool {
        &&& forall|r: int|
            0 <= r < self.spec_num_rows() ==> line_matches(
                #[trigger] self.cells()[r],
                self.spec_row_clues()[r],
            )
        &&& forall|c: int|
            0 <= c < self.spec_num_cols() ==> line_matches(
                #[trigger] self.spec_col(c),
                self.spec_column_clues()[c],
            )
    }

    /// Builds a grid from the two clue vectors with every tile unknown. The
    /// clue vectors become immutable for the grid's lifetime. A clue of zero
    /// is disallowed: a line with no runs is declared by an empty clue
    /// vector, never by a zero.
    pub fn new(row_clues: Vec<LineClues>, column_clues: Vec<LineClues>) -> (non: Nonogram)
        requires
            row_clues@.len() * column_clues@.len() <= usize::MAX,
            forall|i: int|
                0 <= i < row_clues@.len() ==> forall|j: int|
                    0 <= j < (#[trigger] row_clues@[i])@.len() ==> (#[trigger] row_clues@[i]@[j])
                        >= 1,
            forall|i: int|
                0 <= i < column_clues@.len() ==> forall|j: int|
                    0 <= j < (#[trigger] column_clues@[i])@.len() ==> (
                    #[trigger] column_clues@[i]@[j]) >= 1,
        ensures
            non.well_formed(),
            non.spec_row_clues() == clue_seqs(row_clues@),
            non.spec_column_clues() == clue_seqs(column_clues@),
            non.spec_num_rows() == row_clues@.len(),
            non.spec_num_cols() == column_clues@.len(),
            forall|r: int, c: int|
                0 <= r < row_clues@.len() && 0 <= c < column_clues@.len() ==> (
                #[trigger] non.cells()[r][c]) is None,
    {
        let num_rows = row_clues.len();
        let num_cols = column_clues.len();
        let tiles = storage::grid_filled_unknown(num_rows, num_cols);
        Nonogram { tiles, row_clues, column_clues }
    }

    pub fn num_rows(&self) -> (n: usize)
        ensures
            n == self.spec_num_rows(),
    {
        self.row_clues.len()
    }

    pub fn num_cols(&self) -> (n: usize)
        ensures
            n == self.spec_num_cols(),
    {
        self.column_clues.len()
    }

    pub fn get_tile(&self, row: usize, column: usize) -> (t: MaybeTile)
        requires
            self.well_formed(),
            row < self.spec_num_rows(),
            column < self.spec_num_cols(),
        ensures
            t == self.cells()[row as int][column as int],
    {
        storage::grid_get(&self.tiles, row, column)
    }

    pub fn set_tile(&mut self, row: usize, column: usize, tile: Tile)
        requires
            old(self).well_formed(),
            row < old(self).spec_num_rows(),
            column < old(self).spec_num_cols(),
        ensures
            final(self).well_formed(),
            final(self).cells() == spec_set_cell(
                old(self).cells(),
                row as int,
                column as int,
                Some(tile),
            ),
            final(self).spec_row_clues() == old(self).spec_row_clues(),
            final(self).spec_column_clues() == old(self).spec_column_clues(),
    {
        storage::grid_set(&mut self.tiles, row, column, Some(tile));
    }

    pub fn unset_tile(&mut self, row: usize, column: usize)
        requires
            old(self).well_formed(),
            row < old(self).spec_num_rows(),
            column < old(self).spec_num_cols(),
        ensures
            final(self).well_formed(),
            final(self).cells() == spec_set_cell(
                old(self).cells(),
                row as int,
                column as int,
                None,
            ),
            final(self).spec_row_clues() == old(self).spec_row_clues(),
            final(self).spec_column_clues() == old(self).spec_column_clues(),
    {
        storage::grid_set(&mut self.tiles, row, column, None);
    }

    pub fn get_row(&self, row: usize) -> (v: Vec<MaybeTile>)
        requires
            self.well_formed(),
            row < self.spec_num_rows(),
        ensures
            v@ == self.cells()[row as int],
    {
        storage::grid_row(&self.tiles, row)
    }

    pub fn get_column(&self, column: usize) -> (v: Vec<MaybeTile>)
        requires
            self.well_formed(),
            column < self.spec_num_cols(),
        ensures
            v@ == self.spec_col(column as int),
    {
        let v = storage::grid_column(&self.tiles, column);
        proof {
            assert(v@ =~= self.spec_col(column as int));
        }
        v
    }

    /// All rows of tiles, top to bottom.
    pub fn rows(&self) -> (v: Vec<Vec<MaybeTile>>)
        requires
            self.well_formed(),
        ensures
            v@.len() == self.spec_num_rows(),
            forall|r: int| 0 <= r < v@.len() ==> (#[trigger] v@[r])@ == self.cells()[r],
    {
        let num_rows = self.num_rows();
        let mut v: Vec<Vec<MaybeTile>> = Vec::new();
        let mut r: usize = 0;
        while r < num_rows
            invariant
                self.well_formed(),
                num_rows == self.spec_num_rows(),
                r <= num_rows,
                v@.len() == r,
                forall|k: int| 0 <= k < r ==> (#[trigger] v@[k])@ == self.cells()[k],
            decreases num_rows - r,
        {
            v.push(self.get_row(r));
            r = r + 1;
        }
        v
    }

    /// All columns of tiles, left to right.
    pub fn cols(&self) -> (v: Vec<Vec<MaybeTile>>)
        requires
            self.well_formed(),
        ensures
            v@.len() == self.spec_num_cols(),
            forall|c: int| 0 <= c < v@.len() ==> (#[trigger] v@[c])@ == self.spec_col(c),
    {
        let num_cols = self.num_cols();
        let mut v: Vec<Vec<MaybeTile>> = Vec::new();
        let mut c: usize = 0;
        while c < num_cols
            invariant
                self.well_formed(),
                num_cols == self.spec_num_cols(),
                c <= num_cols,
                v@.len() == c,
                forall|k: int| 0 <= k < c ==> (#[trigger] v@[k])@ == self.spec_col(k),
            decreases num_cols - c,
        {
            v.push(self.get_column(c));
            c = c + 1;
        }
        v
    }

    pub fn row_clues(&self) -> (v: &Vec<LineClues>)
        ensures
            clue_seqs(v@) == self.spec_row_clues(),
            v@.len() == self.spec_num_rows(),
    {
        &self.row_clues
    }

    pub fn column_clues(&self) -> (v: &Vec<LineClues>)
        ensures
            clue_seqs(v@) == self.spec_column_clues(),
            v@.len() == self.spec_num_cols(),
    {
        &self.column_clues
    }

    pub fn row_clues_at(&self, index: usize) -> (v: &LineClues)
        requires
            index < self.spec_num_rows(),
        ensures
            v@ == self.spec_row_clues()[index as int],
    {
        &self.row_clues[index]
    }

    pub fn column_clues_at(&self, index: usize) -> (v: &LineClues)
        requires
            index < self.spec_num_cols(),
        ensures
            v@ == self.spec_column_clues()[index as int],
    {
        &self.column_clues[index]
    }

    /// The observed run lengths of one line of tiles: unknown tiles are
    /// scored as not filled, maximal runs of filled tiles are collected in
    /// order, and not-filled stretches contribute nothing.
    pub fn sequence_lengths(line: &Vec<MaybeTile>) -> (r: LineClues)
        ensures
            clues_as_ints(r@) == run_lengths(line@),
    {
        let n = line.len();
        let mut acc: LineClues = Vec::new();
        let mut cur: usize = 0;
        let mut i: usize = 0;
        proof {
            assert(line@.skip(0) =~= line@);
            assert(clues_as_ints(acc@) + runs_from(line@, 0) =~= runs_from(line@, 0));
        }
        while i < n
            invariant
                n == line@.len(),
                i <= n,
                cur <= i,
                run_lengths(line@) == clues_as_ints(acc@) + runs_from(
                    line@.skip(i as int),
                    cur as int,
                ),
            decreases n - i,
        {
            proof {
                assert(line@.skip(i as int)[0] == line@[i as int]);
                assert(line@.skip(i as int).drop_first() =~= line@.skip(i as int + 1));
            }
            let filled = match line[i] {
                Some(t) => t.is_filled(),
                None => false,
            };
            if filled {
                cur = cur + 1;
            } else {
                if cur > 0 {
                    proof {
                        assert(clues_as_ints(acc@.push(cur)) =~= clues_as_ints(acc@) + seq![
                            cur as int,
                        ]);
                    }
                    acc.push(cur);
                    cur = 0;
                }
            }
            i = i + 1;
        }
        proof {
            assert(line@.skip(n as int) =~= Seq::<MaybeTile>::empty());
        }
        if cur > 0 {
            proof {
                assert(clues_as_ints(acc@.push(cur)) =~= clues_as_ints(acc@) + seq![cur as int]);
            }
            acc.push(cur);
        }
        proof {
            assert(clues_as_ints(acc@) =~= run_lengths(line@));
        }
        acc
    }

    /// The observed run lengths of every row, in row order.
    fn row_sequence_lengths(&self) -> (v: Vec<LineClues>)
        requires
            self.well_formed(),
        ensures
            v@.len() == self.spec_num_rows(),
            forall|r: int|
                0 <= r < v@.len() ==> clues_as_ints((#[trigger] v@[r])@) == run_lengths(
                    self.cells()[r],
                ),
    {
        let num_rows = self.num_rows();
        let mut v: Vec<LineClues> = Vec::new();
        let mut r: usize = 0;
        while r < num_rows
            invariant
                self.well_formed(),
                num_rows == self.spec_num_rows(),
                r <= num_rows,
                v@.len() == r,
                forall|k: int|
                    0 <= k < r ==> clues_as_ints((#[trigger] v@[k])@) == run_lengths(
                        self.cells()[k],
                    ),
            decreases num_rows - r,
        {
            let row = self.get_row(r);
            v.push(Nonogram::sequence_lengths(&row));
            r = r + 1;
        }
        v
    }

    /// The observed run lengths of every column, in column order.
    fn column_sequence_lengths(&self) -> (v: Vec<LineClues>)
        requires
            self.well_formed(),
        ensures
            v@.len() == self.spec_num_cols(),
            forall|c: int|
                0 <= c < v@.len() ==> clues_as_ints((#[trigger] v@[c])@) == run_lengths(
                    self.spec_col(c),
                ),
    {
        let num_cols = self.num_cols();
        let mut v: Vec<LineClues> = Vec::new();
        let mut c: usize = 0;
        while c < num_cols
            invariant
                self.well_formed(),
                num_cols == self.spec_num_cols(),
                c <= num_cols,
                v@.len() == c,
                forall|k: int|
                    0 <= k < c ==> clues_as_ints((#[trigger] v@[k])@) == run_lengths(
                        self.spec_col(k),
                    ),
            decreases num_cols - c,
        {
            let col = self.get_column(c);
            v.push(Nonogram::sequence_lengths(&col));
            c = c + 1;
        }
        v
    }

    /// Decides whether the grid is a correct solution: the observed run
    /// lengths of every row and every column must equal the declared clues,
    /// element-wise and in order.
    pub fn is_correct_solution(&self) -> (r: bool)
        requires
            self.well_formed(),
        ensures
            r == self.spec_correct_solution(),
    {
        let row_lens = self.row_sequence_lengths();
        let col_lens = self.column_sequence_lengths();
        let num_rows = self.num_rows();
        let num_cols = self.num_cols();
        let mut i: usize = 0;
        while i < num_rows
            invariant
                self.well_formed(),
                num_rows == self.spec_num_rows(),
                row_lens@.len() == num_rows,
                forall|r: int|
                    0 <= r < row_lens@.len() ==> clues_as_ints((#[trigger] row_lens@[r])@)
                        == run_lengths(self.cells()[r]),
                i <= num_rows,
                forall|k: int|
                    0 <= k < i ==> line_matches(
                        #[trigger] self.cells()[k],
                        self.spec_row_clues()[k],
                    ),
            decreases num_rows - i,
        {
            if !clue_line_equal(&self.row_clues[i], &row_lens[i]) {
                proof {
                    lemma_clues_as_ints_eq(self.row_clues@[i as int]@, row_lens@[i as int]@);
                    assert(!line_matches(self.cells()[i as int], self.spec_row_clues()[i as int]));
                }
                return false;
            }
            i = i + 1;
        }
        let mut j: usize = 0;
        while j < num_cols
            invariant
                self.well_formed(),
                num_cols == self.spec_num_cols(),
                col_lens@.len() == num_cols,
                forall|c: int|
                    0 <= c < col_lens@.len() ==> clues_as_ints((#[trigger] col_lens@[c])@)
                        == run_lengths(self.spec_col(c)),
                j <= num_cols,
                forall|k: int|
                    0 <= k < j ==> line_matches(
                        #[trigger] self.spec_col(k),
                        self.spec_column_clues()[k],
                    ),
                forall|k: int|
                    0 <= k < self.spec_num_rows() ==> line_matches(
                        #[trigger] self.cells()[k],
                        self.spec_row_clues()[k],
                    ),
            decreases num_cols - j,
        {
            if !clue_line_equal(&self.column_clues[j], &col_lens[j]) {
                proof {
                    lemma_clues_as_ints_eq(self.column_clues@[j as int]@, col_lens@[j as int]@);
                    assert(!line_matches(
                        self.spec_col(j as int),
                        self.spec_column_clues()[j as int],
                    ));
                }
                return false;
            }
            j = j + 1;
        }
        true
    }
}

/// Element-wise equality of two clue lines.
fn clue_line_equal(a: &LineClues, b: &LineClues) -> (r: bool)
    ensures
        r == (a@ == b@),
{
    if a.len() != b.len() {
        return false;
    }
    let n = a.len();
    let mut i: usize = 0;
    while i < n
        invariant
            n == a@.len(),
            n == b@.len(),
            i <= n,
            forall|k: int| 0 <= k < i ==> a@[k] == b@[k],
        decreases n - i,
    {
        if a[i] != b[i] {
            return false;
        }
        i = i + 1;
    }
    proof {
        assert(a@ =~= b@);
    }
    true
}

/// A well-formed grid has one row of tiles per row clue and one tile per
/// column clue in every row.
pub proof fn lemma_well_formed_dims(non: &Nonogram)
    requires
        non.well_formed(),
    ensures
        non.cells().len() == non.spec_num_rows(),
        forall|r: int|
            0 <= r < non.spec_num_rows() ==> (#[trigger] non.cells()[r]).len()
                == non.spec_num_cols(),
{
}

/// Setting one cell changes exactly that cell: the dimensions are kept, the
/// addressed cell holds the new value, and every other cell is unchanged.
pub proof fn lemma_set_cell_locality(cells: Seq<Seq<MaybeTile>>, row: int, col: int, v: MaybeTile)
    requires
        0 <= row < cells.len(),
        0 <= col < cells[row].len(),
    ensures
        spec_set_cell(cells, row, col, v).len() == cells.len(),
        forall|r: int|
            0 <= r < cells.len() ==> (#[trigger] spec_set_cell(cells, row, col, v)[r]).len()
                == cells[r].len(),
        spec_set_cell(cells, row, col, v)[row][col] == v,
        forall|r: int, c: int|
            0 <= r < cells.len() && 0 <= c < cells[r].len() && !(r == row && c == col) ==> (
            #[trigger] spec_set_cell(cells, row, col, v)[r][c]) == cells[r][c],
{
}

/// Resetting a cell that is already unknown leaves the grid contents
/// unchanged.
pub proof fn lemma_unset_unknown_noop(cells: Seq<Seq<MaybeTile>>, row: int, col: int)
    requires
        0 <= row < cells.len(),
        0 <= col < cells[row].len(),
        cells[row][col] is None,
    ensures
        spec_set_cell(cells, row, col, None) == cells,
{
    assert(cells[row].update(col, None) =~= cells[row]);
    assert(spec_set_cell(cells, row, col, None) =~= cells);
}

/// Setting a cell and then resetting it restores the grid contents exactly,
/// provided the cell was unknown before the set.
pub proof fn lemma_set_then_unset(cells: Seq<Seq<MaybeTile>>, row: int, col: int, t: Tile)
    requires
        0 <= row < cells.len(),
        0 <= col < cells[row].len(),
        cells[row][col] is None,
    ensures
        spec_set_cell(spec_set_cell(cells, row, col, Some(t)), row, col, None) == cells,
{
    let mid = spec_set_cell(cells, row, col, Some(t));
    assert(mid[row].update(col, None) =~= cells[row]);
    assert(spec_set_cell(mid, row, col, None) =~= cells);
}

/// A cell read through its row equals the same cell read through its
/// column.
pub proof fn lemma_row_col_agree(non: Nonogram, row: int, col: int)
    requires
        non.well_formed(),
        0 <= row < non.spec_num_rows(),
        0 <= col < non.spec_num_cols(),
    ensures
        non.cells()[row][col] == non.spec_col(col)[row],
{
}

/// A line with no filled tiles (unknown included) has no observed runs.
pub proof fn lemma_blank_line_runs(line: Seq<MaybeTile>)
    requires
        forall|i: int| 0 <= i < line.len() ==> !cell_filled(#[trigger] line[i]),
    ensures
        run_lengths(line) == Seq::<int>::empty(),
    decreases line.len(),
{
    if line.len() > 0 {
        let rest = line.drop_first();
        assert forall|i: int| 0 <= i < rest.len() implies !cell_filled(#[trigger] rest[i]) by {
            assert(rest[i] == line[i + 1]);
        }
        lemma_blank_line_runs(rest);
    }
}

/// An all-unknown grid is a correct solution exactly when every row clue
/// and every column clue is the empty sequence.
pub proof fn lemma_blank_grid_correct_iff(non: Nonogram)
    requires
        non.well_formed(),
        forall|r: int, c: int|
            0 <= r < non.spec_num_rows() && 0 <= c < non.spec_num_cols() ==> (
            #[trigger] non.cells()[r][c]) is None,
    ensures
        non.spec_correct_solution() <==> ((forall|r: int|
            0 <= r < non.spec_num_rows() ==> (#[trigger] non.spec_row_clues()[r]).len() == 0)
            && (forall|c: int|
            0 <= c < non.spec_num_cols() ==> (#[trigger] non.spec_column_clues()[c]).len() == 0)),
{
    assert forall|r: int| 0 <= r < non.spec_num_rows() implies (line_matches(
        non.cells()[r],
        non.spec_row_clues()[r],
    ) <==> (#[trigger] non.spec_row_clues()[r]).len() == 0) by {
        let line = non.cells()[r];
        assert forall|i: int| 0 <= i < line.len() implies !cell_filled(#[trigger] line[i]) by {
            assert(non.cells()[r][i] is None);
        }
        lemma_blank_line_runs(line);
        let clues = non.spec_row_clues()[r];
        assert(clues_as_ints(clues).len() == clues.len());
        if clues.len() == 0 {
            assert(clues_as_ints(clues) =~= Seq::<int>::empty());
        }
    }
    assert forall|c: int| 0 <= c < non.spec_num_cols() implies (line_matches(
        non.spec_col(c),
        non.spec_column_clues()[c],
    ) <==> (#[trigger] non.spec_column_clues()[c]).len() == 0) by {
        let line = non.spec_col(c);
        assert forall|i: int| 0 <= i < line.len() implies !cell_filled(#[trigger] line[i]) by {
            assert(non.cells()[i][c] is None);
        }
        lemma_blank_line_runs(line);
        let clues = non.spec_column_clues()[c];
        assert(clues_as_ints(clues).len() == clues.len());
        if clues.len() == 0 {
            assert(clues_as_ints(clues) =~= Seq::<int>::empty());
        }
    }
}

/// Two clue lines are equal exactly when their integer images are equal.
pub proof fn lemma_clues_as_ints_eq(a: Seq<Clue>, b: Seq<Clue>)
    ensures
        (clues_as_ints(a) == clues_as_ints(b)) <==> (a == b),
{
    if clues_as_ints(a) == clues_as_ints(b) {
        assert(clues_as_ints(a).len() == a.len());
        assert(clues_as_ints(b).len() == b.len());
        assert(a.len() == b.len());
        assert forall|i: int| 0 <= i < a.len() implies a[i] == b[i] by {
            assert(clues_as_ints(a)[i] == clues_as_ints(b)[i]);
        }
        assert(a =~= b);
    }
}

} // verus!
