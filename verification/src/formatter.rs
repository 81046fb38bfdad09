//! Text formatting of a puzzle grid: the grid's tiles as symbol strings,
//! the clue numbers right-aligned into columns, and the assembled lines.

use vstd::prelude::*;

use crate::nonogram::{Clue, LineClues, MaybeTile, Nonogram, Tile};

verus! {

/// The views of a vector of strings.
pub open spec fn str_seqs(v: Seq<String>) -> Seq<Seq<char>> {
    Seq::new(v.len(), |i: int| v[i]@)
}

/// `n` spaces.
pub open spec fn space_seq(n: int) -> Seq<char> {
    Seq::new(n as nat, |i: int| ' ')
}

/// `s` repeated `n` times.
pub open spec fn repeat_seq(s: Seq<char>, n: int) -> Seq<char>
    decreases n,
{
    if n <= 0 {
        Seq::empty()
    } else {
        repeat_seq(s, n - 1) + s
    }
}

/// `parts` joined with a single space between adjacent parts.
pub open spec fn join_with_space(parts: Seq<Seq<char>>) -> Seq<char>
    decreases parts.len(),
{
    if parts.len() == 0 {
        Seq::empty()
    } else if parts.len() == 1 {
        parts[0]
    } else {
        join_with_space(parts.drop_last()) + seq![' '] + parts.last()
    }
}

/// A string of `n` spaces.
fn spaces(n: usize) -> (s: String)
    ensures
        s@ == space_seq(n as int),
{
    let mut s = String::new();
    let mut i: usize = 0;
    while i < n
        invariant
            i <= n,
            s@ == space_seq(i as int),
        decreases n - i,
    {
        proof {
            assert(space_seq(i as int).push(' ') =~= space_seq(i as int + 1));
        }
        push_char(&mut s, ' ');
        i = i + 1;
    }
    proof {
        assert(s@ =~= space_seq(n as int));
    }
    s
}

/// `s` repeated `n` times.
fn repeat_str(s: &str, n: usize) -> (r: String)
    ensures
        r@ == repeat_seq(s@, n as int),
{
    let mut r = String::new();
    let mut i: usize = 0;
    proof {
        assert(Seq::<char>::empty() =~= repeat_seq(s@, 0));
    }
    while i < n
        invariant
            i <= n,
            r@ == repeat_seq(s@, i as int),
        decreases n - i,
    {
        r.append(s);
        i = i + 1;
    }
    r
}

/// The decimal digit `d` (0 to 9) as a character.
pub open spec fn dec_digit_char(d: int) -> char {
    ((48 + d) as u8) as char
}

/// The decimal representation of a non-negative integer, most significant
/// digit first.
pub open spec fn dec_chars(n: int) -> Seq<char>
    recommends
        n >= 0,
    decreases n,
{
    if n < 10 {
        seq![dec_digit_char(n)]
    } else {
        dec_chars(n / 10).push(dec_digit_char(n % 10))
    }
}

/// Relies on `String::push`: appends one character to the string.
#[verifier::external_body]
fn push_char(s: &mut String, c: char)
    ensures
        final(s)@ == old(s)@.push(c),
{
    s.push(c);
}

/// Appends the decimal representation of `n`.
fn push_dec_chars(s: &mut String, n: usize)
    ensures
        final(s)@ == old(s)@ + dec_chars(n as int),
    decreases n,
{
    if n >= 10 {
        push_dec_chars(s, n / 10);
        let d: usize = n % 10;
        let c = (48 + d as u8) as char;
        proof {
            assert((old(s)@ + dec_chars(n as int / 10)).push(c) =~= old(s)@ + dec_chars(n as int));
        }
        push_char(s, c);
    } else {
        let c = (48 + n as u8) as char;
        proof {
            assert(old(s)@.push(c) =~= old(s)@ + dec_chars(n as int));
        }
        push_char(s, c);
    }
}

/// The decimal representation of `n` as a string.
pub fn usize_to_string(n: usize) -> (s: String)
    ensures
        s@ == dec_chars(n as int),
{
    let mut s = String::new();
    push_dec_chars(&mut s, n);
    proof {
        assert(Seq::<char>::empty() + dec_chars(n as int) =~= dec_chars(n as int));
    }
    s
}

/// The number of characters in the decimal representation of `n`.
pub open spec fn spec_decimal_width(n: int) -> int {
    dec_chars(n).len() as int
}

/// The number of decimal digits of `n`.
pub fn decimal_width(n: usize) -> (w: usize)
    ensures
        w == spec_decimal_width(n as int),
{
    let s = usize_to_string(n);
    s.as_str().unicode_len()
}

/// The width of the widest clue number in `clues`, in characters.
pub fn get_max_clue_width(clues: &Vec<LineClues>) -> (w: usize)
    requires
        exists|i: int| 0 <= i < clues@.len() && (#[trigger] clues@[i])@.len() > 0,
    ensures
        forall|i: int, j: int|
            0 <= i < clues@.len() && 0 <= j < (#[trigger] clues@[i])@.len() ==> spec_decimal_width(
                (#[trigger] clues@[i]@[j]) as int,
            ) <= w,
        exists|i: int, j: int|
            0 <= i < clues@.len() && 0 <= j < (#[trigger] clues@[i])@.len() && spec_decimal_width(
                (#[trigger] clues@[i]@[j]) as int,
            ) == w,
{
    let mut w: usize = 0;
    let mut found = false;
    let n = clues.len();
    let mut i: usize = 0;
    while i < n
        invariant
            i <= n,
            n == clues@.len(),
            forall|a: int, b: int|
                0 <= a < i && 0 <= b < (#[trigger] clues@[a])@.len() ==> spec_decimal_width(
                    (#[trigger] clues@[a]@[b]) as int,
                ) <= w,
            found ==> exists|a: int, b: int|
                0 <= a < i && 0 <= b < (#[trigger] clues@[a])@.len() && spec_decimal_width(
                    (#[trigger] clues@[a]@[b]) as int,
                ) == w,
            !found ==> w == 0 && forall|a: int|
                0 <= a < i ==> (#[trigger] clues@[a])@.len() == 0,
        decreases n - i,
    {
        let line = &clues[i];
        let m = line.len();
        let mut j: usize = 0;
        while j < m
            invariant
                j <= m,
                i < n,
                n == clues@.len(),
                line@ == clues@[i as int]@,
                m == clues@[i as int]@.len(),
                forall|a: int, b: int|
                    0 <= a < i && 0 <= b < (#[trigger] clues@[a])@.len() ==> spec_decimal_width(
                        (#[trigger] clues@[a]@[b]) as int,
                    ) <= w,
                forall|b: int|
                    0 <= b < j ==> spec_decimal_width((#[trigger] clues@[i as int]@[b]) as int)
                        <= w,
                found ==> exists|a: int, b: int|
                    0 <= a <= i && 0 <= b < (#[trigger] clues@[a])@.len() && spec_decimal_width(
                        (#[trigger] clues@[a]@[b]) as int,
                    ) == w,
                !found ==> w == 0,
                j > 0 ==> found,
            decreases m - j,
        {
            let cw = decimal_width(line[j]);
            if !found || cw > w {
                w = cw;
                found = true;
            }
            j = j + 1;
        }
        i = i + 1;
    }
    w
}

pub open spec fn is_max_num_clues(s: Seq<Seq<Clue>>, m: int) -> bool {
    &&& forall|i: int| 0 <= i < s.len() ==> (#[trigger] s[i]).len() <= m
    &&& exists|i: int| 0 <= i < s.len() && (#[trigger] s[i]).len() == m
}

/// The number of clues in the longest line of `s`.
pub open spec fn spec_max_num_clues(s: Seq<Seq<Clue>>) -> int {
    choose|m: int| is_max_num_clues(s, m)
}

pub open spec fn is_max_clue_width(s: Seq<Seq<Clue>>, w: int) -> bool {
    &&& forall|i: int, j: int|
        0 <= i < s.len() && 0 <= j < (#[trigger] s[i]).len() ==> spec_decimal_width(
            (#[trigger] s[i][j]) as int,
        ) <= w
    &&& exists|i: int, j: int|
        0 <= i < s.len() && 0 <= j < (#[trigger] s[i]).len() && spec_decimal_width(
            (#[trigger] s[i][j]) as int,
        ) == w
}

/// The width of the widest clue number in `s`, in characters.
pub open spec fn spec_max_clue_width(s: Seq<Seq<Clue>>) -> int {
    choose|w: int| is_max_clue_width(s, w)
}

/// A non-empty family of clue lines has a longest line.
pub proof fn lemma_spec_max_num_clues_props(s: Seq<Seq<Clue>>)
    requires
        s.len() > 0,
    ensures
        is_max_num_clues(s, spec_max_num_clues(s)),
    decreases s.len(),
{
    if s.len() == 1 {
        assert(is_max_num_clues(s, s[0].len() as int));
    } else {
        let sub = s.drop_last();
        lemma_spec_max_num_clues_props(sub);
        let m1 = spec_max_num_clues(sub);
        let m2 = if s.last().len() > m1 {
            s.last().len() as int
        } else {
            m1
        };
        assert forall|i: int| 0 <= i < s.len() implies (#[trigger] s[i]).len() <= m2 by {
            if i < s.len() - 1 {
                assert(sub[i] == s[i]);
            }
        }
        if s.last().len() > m1 {
            assert(s[s.len() - 1].len() == m2);
        } else {
            let w = choose|i: int| 0 <= i < sub.len() && (#[trigger] sub[i]).len() == m1;
            assert(s[w].len() == m2);
        }
        assert(is_max_num_clues(s, m2));
    }
}

pub proof fn lemma_is_max_num_clues(s: Seq<Seq<Clue>>, m: int)
    requires
        is_max_num_clues(s, m),
    ensures
        spec_max_num_clues(s) == m,
{
    let m2 = spec_max_num_clues(s);
    assert(is_max_num_clues(s, m2));
}

pub proof fn lemma_is_max_clue_width(s: Seq<Seq<Clue>>, w: int)
    requires
        is_max_clue_width(s, w),
    ensures
        spec_max_clue_width(s) == w,
{
    let w2 = spec_max_clue_width(s);
    assert(is_max_clue_width(s, w2));
}

/// The number of clues in the longest clue line of `clues`.
pub fn get_max_num_clues(clues: &Vec<LineClues>) -> (m: usize)
    requires
        clues@.len() > 0,
    ensures
        forall|i: int| 0 <= i < clues@.len() ==> (#[trigger] clues@[i])@.len() <= m,
        exists|i: int| 0 <= i < clues@.len() && (#[trigger] clues@[i])@.len() == m,
{
    let mut m: usize = clues[0].len();
    let n = clues.len();
    let mut i: usize = 1;
    while i < n
        invariant
            1 <= i <= n,
            n == clues@.len(),
            forall|a: int| 0 <= a < i ==> (#[trigger] clues@[a])@.len() <= m,
            exists|a: int| 0 <= a < i && (#[trigger] clues@[a])@.len() == m,
        decreases n - i,
    {
        let len = clues[i].len();
        if len > m {
            m = len;
        }
        i = i + 1;
    }
    m
}

/// Formats a puzzle grid as text, with one configurable symbol for each of
/// the three tile states.
pub struct Formatter {
    filled_string: String,
    not_filled_string: String,
    none_string: String,
    do_display_numbers: bool,
}

impl Formatter {
    pub closed spec fn spec_filled(&self) -> Seq<char> {
        self.filled_string@
    }

    pub closed spec fn spec_not_filled(&self) -> Seq<char> {
        self.not_filled_string@
    }

    pub closed spec fn spec_none(&self) -> Seq<char> {
        self.none_string@
    }

    pub closed spec fn spec_display_numbers(&self) -> bool {
        self.do_display_numbers
    }

    /// The symbol for one tile: a filled tile (with or without a color)
    /// uses the filled symbol, a not-filled tile the not-filled symbol,
    /// and an unknown tile the unknown symbol.
    pub open spec fn spec_tile(&self, t: MaybeTile) -> Seq<char> {
        match t {
            None => self.spec_none(),
            Some(Tile::NotFilled) => self.spec_not_filled(),
            Some(_) => self.spec_filled(),
        }
    }

    pub fn new(
        filled_string: &str,
        not_filled_string: &str,
        none_string: &str,
        do_display_numbers: bool,
    ) -> (f: Formatter)
        ensures
            f.spec_filled() == filled_string@,
            f.spec_not_filled() == not_filled_string@,
            f.spec_none() == none_string@,
            f.spec_display_numbers() == do_display_numbers,
    {
        Formatter {
            filled_string: String::from_str(filled_string),
            not_filled_string: String::from_str(not_filled_string),
            none_string: String::from_str(none_string),
            do_display_numbers,
        }
    }

    /// The display string for one tile.
    pub fn format_tile(&self, maybe_tile: MaybeTile) -> (r: &str)
        ensures
            r@ == self.spec_tile(maybe_tile),
    {
        match maybe_tile {
            Some(Tile::NotFilled) => self.not_filled_string.as_str(),
            Some(_) => self.filled_string.as_str(),
            None => self.none_string.as_str(),
        }
    }

    /// One display string per tile, row by row.
    fn get_cells_string_grid(&self, non: &Nonogram) -> (g: Vec<Vec<String>>)
        requires
            non.well_formed(),
        ensures
            g@.len() == non.spec_num_rows(),
            forall|r: int| 0 <= r < g@.len() ==> (#[trigger] g@[r])@.len() == non.spec_num_cols(),
            forall|r: int, c: int|
                0 <= r < g@.len() && 0 <= c < non.spec_num_cols() ==> (#[trigger] g@[r]@[c])@
                    == self.spec_tile(non.cells()[r][c]),
    {
        proof {
            crate::nonogram::lemma_well_formed_dims(non);
        }
        let num_rows = non.num_rows();
        let num_cols = non.num_cols();
        let mut g: Vec<Vec<String>> = Vec::new();
        let mut r: usize = 0;
        while r < num_rows
            invariant
                non.well_formed(),
                num_rows == non.spec_num_rows(),
                num_cols == non.spec_num_cols(),
                non.cells().len() == num_rows,
                forall|a: int|
                    0 <= a < num_rows ==> (#[trigger] non.cells()[a]).len() == num_cols,
                r <= num_rows,
                g@.len() == r,
                forall|a: int| 0 <= a < r ==> (#[trigger] g@[a])@.len() == num_cols,
                forall|a: int, c: int|
                    0 <= a < r && 0 <= c < num_cols ==> (#[trigger] g@[a]@[c])@ == self.spec_tile(
                        non.cells()[a][c],
                    ),
            decreases num_rows - r,
        {
            let row = non.get_row(r);
            let mut line: Vec<String> = Vec::new();
            let mut c: usize = 0;
            while c < num_cols
                invariant
                    non.well_formed(),
                    num_cols == non.spec_num_cols(),
                    r < num_rows,
                    num_rows == non.spec_num_rows(),
                    row@ == non.cells()[r as int],
                    row@.len() == num_cols,
                    c <= num_cols,
                    line@.len() == c,
                    forall|b: int|
                        0 <= b < c ==> (#[trigger] line@[b])@ == self.spec_tile(
                            non.cells()[r as int][b],
                        ),
                decreases num_cols - c,
            {
                line.push(String::from_str(self.format_tile(row[c])));
                c = c + 1;
            }
            g.push(line);
            r = r + 1;
        }
        g
    }

    /// One clue line filled out to `max_num_clues` entries: filler strings
    /// first, then the clue strings, right-aligned as a block.
    pub fn get_one_line_clue_string_vec(
        clue_strings: &Vec<String>,
        max_num_clues: usize,
        filler_spaces: &str,
    ) -> (v: Vec<String>)
        requires
            clue_strings@.len() <= max_num_clues,
        ensures
            v@.len() == max_num_clues,
            forall|k: int|
                0 <= k < max_num_clues - clue_strings@.len() ==> (#[trigger] v@[k])@
                    == filler_spaces@,
            forall|k: int|
                max_num_clues - clue_strings@.len() <= k < max_num_clues ==> (#[trigger] v@[k])@
                    == clue_strings@[k - (max_num_clues - clue_strings@.len())]@,
    {
        let num_clues = clue_strings.len();
        let num_filler_cells = max_num_clues - num_clues;
        let mut v: Vec<String> = Vec::new();
        let mut k: usize = 0;
        while k < num_filler_cells
            invariant
                k <= num_filler_cells,
                v@.len() == k,
                forall|a: int| 0 <= a < k ==> (#[trigger] v@[a])@ == filler_spaces@,
            decreases num_filler_cells - k,
        {
            v.push(String::from_str(filler_spaces));
            k = k + 1;
        }
        let mut j: usize = 0;
        while j < num_clues
            invariant
                j <= num_clues,
                num_clues == clue_strings@.len(),
                v@.len() == num_filler_cells + j,
                num_filler_cells == max_num_clues - num_clues,
                forall|a: int| 0 <= a < num_filler_cells ==> (#[trigger] v@[a])@ == filler_spaces@,
                forall|a: int|
                    num_filler_cells <= a < num_filler_cells + j ==> (#[trigger] v@[a])@
                        == clue_strings@[a - num_filler_cells]@,
            decreases num_clues - j,
        {
            v.push(clue_strings[j].clone());
            j = j + 1;
        }
        v
    }

    /// Every clue line filled out to `max_num_clues` entries with fillers
    /// of `max_clue_width` spaces.
    pub fn waterfill_clue_string_grid(
        clue_string_grid: &Vec<Vec<String>>,
        max_num_clues: usize,
        max_clue_width: usize,
    ) -> (g: Vec<Vec<String>>)
        requires
            forall|i: int|
                0 <= i < clue_string_grid@.len() ==> (#[trigger] clue_string_grid@[i])@.len()
                    <= max_num_clues,
        ensures
            g@.len() == clue_string_grid@.len(),
            forall|i: int| 0 <= i < g@.len() ==> (#[trigger] g@[i])@.len() == max_num_clues,
            forall|i: int, k: int|
                0 <= i < g@.len() && 0 <= k < max_num_clues - clue_string_grid@[i]@.len() ==> (
                #[trigger] g@[i]@[k])@ == space_seq(max_clue_width as int),
            forall|i: int, k: int|
                0 <= i < g@.len() && max_num_clues - clue_string_grid@[i]@.len() <= k
                    < max_num_clues ==> (#[trigger] g@[i]@[k])@ == clue_string_grid@[i]@[k
                    - (max_num_clues - clue_string_grid@[i]@.len())]@,
    {
        let filler_spaces = spaces(max_clue_width);
        let n = clue_string_grid.len();
        let mut g: Vec<Vec<String>> = Vec::new();
        let mut i: usize = 0;
        while i < n
            invariant
                i <= n,
                n == clue_string_grid@.len(),
                filler_spaces@ == space_seq(max_clue_width as int),
                forall|a: int|
                    0 <= a < n ==> (#[trigger] clue_string_grid@[a])@.len() <= max_num_clues,
                g@.len() == i,
                forall|a: int| 0 <= a < i ==> (#[trigger] g@[a])@.len() == max_num_clues,
                forall|a: int, k: int|
                    0 <= a < i && 0 <= k < max_num_clues - clue_string_grid@[a]@.len() ==> (
                    #[trigger] g@[a]@[k])@ == space_seq(max_clue_width as int),
                forall|a: int, k: int|
                    0 <= a < i && max_num_clues - clue_string_grid@[a]@.len() <= k < max_num_clues
                        ==> (#[trigger] g@[a]@[k])@ == clue_string_grid@[a]@[k - (max_num_clues
                        - clue_string_grid@[a]@.len())]@,
            decreases n - i,
        {
            let line = Formatter::get_one_line_clue_string_vec(
                &clue_string_grid[i],
                max_num_clues,
                filler_spaces.as_str(),
            );
            g.push(line);
            i = i + 1;
        }
        g
    }

    /// The row clue area: every row's clues as decimal strings, filled out
    /// with fillers to a rectangle.
    fn get_rows_clue_string_grid(non: &Nonogram) -> (g: Vec<Vec<String>>)
        requires
            non.spec_num_rows() >= 1,
            exists|i: int|
                0 <= i < non.spec_num_rows() && (#[trigger] non.spec_row_clues()[i]).len() > 0,
        ensures
            g@.len() == non.spec_num_rows(),
            forall|r: int|
                0 <= r < g@.len() ==> (#[trigger] g@[r])@.len() == spec_max_num_clues(
                    non.spec_row_clues(),
                ),
            forall|r: int, k: int|
                0 <= r < g@.len() && 0 <= k < spec_max_num_clues(non.spec_row_clues()) ==> (
                #[trigger] g@[r]@[k])@ == spec_waterfilled_entry(
                    non.spec_row_clues(),
                    spec_max_num_clues(non.spec_row_clues()),
                    spec_max_clue_width(non.spec_row_clues()),
                    r,
                    k,
                ),
    {
        let clues = non.row_clues();
        proof {
            let s = non.spec_row_clues();
            assert forall|i: int| 0 <= i < s.len() implies #[trigger] s[i] == clues@[i]@ by {
                assert(crate::nonogram::clue_seqs(clues@)[i] == clues@[i]@);
            }
            let e = choose|i: int| 0 <= i < s.len() && (#[trigger] s[i]).len() > 0;
            assert(clues@[e]@.len() > 0);
        }
        let max_num_clues = get_max_num_clues(clues);
        let max_row_clue_width = get_max_clue_width(clues);
        proof {
            let s = non.spec_row_clues();
            let a = choose|a: int|
                0 <= a < clues@.len() && (#[trigger] clues@[a])@.len() == max_num_clues;
            assert(s[a].len() == max_num_clues);
            lemma_is_max_num_clues(s, max_num_clues as int);
            let (x, y) = choose|x: int, y: int|
                0 <= x < clues@.len() && 0 <= y < (#[trigger] clues@[x])@.len()
                    && spec_decimal_width((#[trigger] clues@[x]@[y]) as int) == max_row_clue_width;
            assert(s[x].len() == clues@[x]@.len() && s[x][y] == clues@[x]@[y]);
            lemma_is_max_clue_width(s, max_row_clue_width as int);
        }
        let clue_string_grid = get_string_grid(clues);
        let g = Formatter::waterfill_clue_string_grid(
            &clue_string_grid,
            max_num_clues,
            max_row_clue_width,
        );
        proof {
            let s = non.spec_row_clues();
            assert forall|r: int, k: int|
                0 <= r < g@.len() && 0 <= k < max_num_clues implies (#[trigger] g@[r]@[k])@
                == spec_waterfilled_entry(
                s,
                max_num_clues as int,
                max_row_clue_width as int,
                r,
                k,
            ) by {
                assert(s[r] == clues@[r]@);
                if k >= max_num_clues - clue_string_grid@[r]@.len() {
                    assert(g@[r]@[k]@ == clue_string_grid@[r]@[k - (max_num_clues
                        - clue_string_grid@[r]@.len())]@);
                }
            }
        }
        g
    }

    /// The column clue area: every column's clues bottom-aligned, one line
    /// of the area per clue position.
    fn get_cols_clue_string_grid(non: &Nonogram) -> (g: Vec<Vec<String>>)
        requires
            non.spec_num_cols() >= 1,
            exists|i: int|
                0 <= i < non.spec_num_cols() && (#[trigger] non.spec_column_clues()[i]).len() > 0,
        ensures
            g@.len() == spec_max_num_clues(non.spec_column_clues()),
            forall|t: int|
                0 <= t < g@.len() ==> (#[trigger] g@[t])@.len() == non.spec_num_cols(),
            forall|t: int, c: int|
                0 <= t < g@.len() && 0 <= c < non.spec_num_cols() ==> (#[trigger] g@[t]@[c])@
                    == spec_waterfilled_entry(
                    non.spec_column_clues(),
                    spec_max_num_clues(non.spec_column_clues()),
                    spec_max_clue_width(non.spec_column_clues()),
                    c,
                    t,
                ),
    {
        let clues = non.column_clues();
        proof {
            let s = non.spec_column_clues();
            assert forall|i: int| 0 <= i < s.len() implies #[trigger] s[i] == clues@[i]@ by {
                assert(crate::nonogram::clue_seqs(clues@)[i] == clues@[i]@);
            }
            let e = choose|i: int| 0 <= i < s.len() && (#[trigger] s[i]).len() > 0;
            assert(clues@[e]@.len() > 0);
        }
        let max_num_clues = get_max_num_clues(clues);
        let max_col_clue_width = get_max_clue_width(clues);
        proof {
            let s = non.spec_column_clues();
            let a = choose|a: int|
                0 <= a < clues@.len() && (#[trigger] clues@[a])@.len() == max_num_clues;
            assert(s[a].len() == max_num_clues);
            lemma_is_max_num_clues(s, max_num_clues as int);
            let (x, y) = choose|x: int, y: int|
                0 <= x < clues@.len() && 0 <= y < (#[trigger] clues@[x])@.len()
                    && spec_decimal_width((#[trigger] clues@[x]@[y]) as int) == max_col_clue_width;
            assert(s[x].len() == clues@[x]@.len() && s[x][y] == clues@[x]@[y]);
            lemma_is_max_clue_width(s, max_col_clue_width as int);
        }
        let clue_string_grid = get_string_grid(clues);
        let filled = Formatter::waterfill_clue_string_grid(
            &clue_string_grid,
            max_num_clues,
            max_col_clue_width,
        );
        proof {
            let s = non.spec_column_clues();
            assert forall|c: int, t: int|
                0 <= c < filled@.len() && 0 <= t < max_num_clues implies (#[trigger] filled@[c]@[t])@
                == spec_waterfilled_entry(
                s,
                max_num_clues as int,
                max_col_clue_width as int,
                c,
                t,
            ) by {
                assert(s[c] == clues@[c]@);
                if t >= max_num_clues - clue_string_grid@[c]@.len() {
                    assert(filled@[c]@[t]@ == clue_string_grid@[c]@[t - (max_num_clues
                        - clue_string_grid@[c]@.len())]@);
                }
            }
        }
        let g = transpose(filled);
        proof {
            let s = non.spec_column_clues();
            let w = choose|a: int|
                0 <= a < filled@.len() && (#[trigger] filled@[a])@.len() == g@.len();
            assert(filled@[w]@.len() == max_num_clues);
            assert forall|t: int, c: int|
                0 <= t < g@.len() && 0 <= c < non.spec_num_cols() implies (#[trigger] g@[t]@[c])@
                == spec_waterfilled_entry(
                s,
                max_num_clues as int,
                max_col_clue_width as int,
                c,
                t,
            ) by {
                lemma_transpose_column_rect(filled@, t);
                assert(g@[t]@[c] == filled@[c]@[t]);
            }
            assert forall|t: int| 0 <= t < g@.len() implies (#[trigger] g@[t])@.len()
                == non.spec_num_cols() by {
                lemma_transpose_column_rect(filled@, t);
            }
        }
        g
    }

    /// The whole grid of display strings: the column clue area on top, the
    /// row clue area on the left, the tile symbols in the body, and spaces
    /// in the top-left corner.
    pub fn get_string_grid(&self, non: &Nonogram) -> (g: Vec<Vec<String>>)
        requires
            non.well_formed(),
            non.spec_num_rows() >= 1,
            non.spec_num_cols() >= 1,
            exists|i: int|
                0 <= i < non.spec_num_rows() && (#[trigger] non.spec_row_clues()[i]).len() > 0,
            exists|i: int|
                0 <= i < non.spec_num_cols() && (#[trigger] non.spec_column_clues()[i]).len() > 0,
        ensures
            ({
                let rc = non.spec_row_clues();
                let cc = non.spec_column_clues();
                let nr = spec_max_num_clues(rc);
                let wr = spec_max_clue_width(rc);
                let nc = spec_max_num_clues(cc);
                let wc = spec_max_clue_width(cc);
                let corner = spec_waterfilled_entry(rc, nr, wr, 0, 0).len() as int;
                &&& g@.len() == nc + non.spec_num_rows()
                &&& forall|t: int| 0 <= t < g@.len() ==> (#[trigger] g@[t])@.len() == nr
                    + non.spec_num_cols()
                &&& forall|t: int, k: int|
                    0 <= t < nc && 0 <= k < nr ==> (#[trigger] g@[t]@[k])@ == space_seq(corner)
                &&& forall|t: int, c: int|
                    0 <= t < nc && 0 <= c < non.spec_num_cols() ==> (#[trigger] g@[t]@[nr + c])@
                        == spec_waterfilled_entry(cc, nc, wc, c, t)
                &&& forall|r: int, k: int|
                    0 <= r < non.spec_num_rows() && 0 <= k < nr ==> (#[trigger] g@[nc + r]@[k])@
                        == spec_waterfilled_entry(rc, nr, wr, r, k)
                &&& forall|r: int, c: int|
                    0 <= r < non.spec_num_rows() && 0 <= c < non.spec_num_cols() ==> (
                    #[trigger] g@[nc + r]@[nr + c])@ == self.spec_tile(non.cells()[r][c])
            }),
    {
        let rows_string_grid = Formatter::get_rows_clue_string_grid(non);
        let cols_string_grid = Formatter::get_cols_clue_string_grid(non);
        let cells_string_grid = self.get_cells_string_grid(non);
        let ghost nr = spec_max_num_clues(non.spec_row_clues());
        let ghost nc = spec_max_num_clues(non.spec_column_clues());
        proof {
            lemma_spec_max_num_clues_props(non.spec_row_clues());
            let i = choose|i: int|
                0 <= i < non.spec_num_rows() && (#[trigger] non.spec_row_clues()[i]).len() > 0;
            assert(non.spec_row_clues()[i].len() <= nr);
        }
        let row0 = &rows_string_grid[0];
        let max_num_row_clues = row0.len();
        let max_row_clue_width = row0[0].as_str().unicode_len();
        let num_rows = non.num_rows();
        let num_cols = non.num_cols();
        let nc_rows = cols_string_grid.len();
        let mut string_grid: Vec<Vec<String>> = Vec::new();
        let mut t: usize = 0;
        while t < nc_rows
            invariant
                t <= nc_rows,
                nc_rows == nc,
                num_cols == non.spec_num_cols(),
                max_num_row_clues == nr,
                cols_string_grid@.len() == nc,
                forall|a: int|
                    0 <= a < nc ==> (#[trigger] cols_string_grid@[a])@.len() == num_cols,
                forall|a: int, c: int|
                    0 <= a < nc && 0 <= c < num_cols ==> (#[trigger] cols_string_grid@[a]@[c])@
                        == spec_waterfilled_entry(
                        non.spec_column_clues(),
                        nc,
                        spec_max_clue_width(non.spec_column_clues()),
                        c,
                        a,
                    ),
                string_grid@.len() == t,
                forall|a: int|
                    0 <= a < t ==> (#[trigger] string_grid@[a])@.len() == nr + num_cols,
                forall|a: int, k: int|
                    0 <= a < t && 0 <= k < nr ==> (#[trigger] string_grid@[a]@[k])@ == space_seq(
                        max_row_clue_width as int,
                    ),
                forall|a: int, c: int|
                    0 <= a < t && 0 <= c < num_cols ==> (#[trigger] string_grid@[a]@[nr + c])@
                        == spec_waterfilled_entry(
                        non.spec_column_clues(),
                        nc,
                        spec_max_clue_width(non.spec_column_clues()),
                        c,
                        a,
                    ),
            decreases nc_rows - t,
        {
            let mut line: Vec<String> = Vec::new();
            let mut k: usize = 0;
            while k < max_num_row_clues
                invariant
                    k <= max_num_row_clues,
                    line@.len() == k,
                    forall|b: int|
                        0 <= b < k ==> (#[trigger] line@[b])@ == space_seq(
                            max_row_clue_width as int,
                        ),
                decreases max_num_row_clues - k,
            {
                line.push(spaces(max_row_clue_width));
                k = k + 1;
            }
            let mut rest = clone_string_vec(&cols_string_grid[t]);
            line.append(&mut rest);
            string_grid.push(line);
            t = t + 1;
        }
        let mut r: usize = 0;
        while r < num_rows
            invariant
                r <= num_rows,
                num_rows == non.spec_num_rows(),
                num_cols == non.spec_num_cols(),
                max_num_row_clues == nr,
                nc_rows == nc,
                rows_string_grid@.len() == num_rows,
                forall|a: int|
                    0 <= a < num_rows ==> (#[trigger] rows_string_grid@[a])@.len() == nr,
                forall|a: int, k: int|
                    0 <= a < num_rows && 0 <= k < nr ==> (#[trigger] rows_string_grid@[a]@[k])@
                        == spec_waterfilled_entry(
                        non.spec_row_clues(),
                        nr,
                        spec_max_clue_width(non.spec_row_clues()),
                        a,
                        k,
                    ),
                cells_string_grid@.len() == num_rows,
                forall|a: int|
                    0 <= a < num_rows ==> (#[trigger] cells_string_grid@[a])@.len() == num_cols,
                forall|a: int, c: int|
                    0 <= a < num_rows && 0 <= c < num_cols ==> (
                    #[trigger] cells_string_grid@[a]@[c])@ == self.spec_tile(non.cells()[a][c]),
                string_grid@.len() == nc + r,
                forall|a: int|
                    0 <= a < nc + r ==> (#[trigger] string_grid@[a])@.len() == nr + num_cols,
                forall|a: int, k: int|
                    0 <= a < nc && 0 <= k < nr ==> (#[trigger] string_grid@[a]@[k])@ == space_seq(
                        max_row_clue_width as int,
                    ),
                forall|a: int, c: int|
                    0 <= a < nc && 0 <= c < num_cols ==> (#[trigger] string_grid@[a]@[nr + c])@
                        == spec_waterfilled_entry(
                        non.spec_column_clues(),
                        nc,
                        spec_max_clue_width(non.spec_column_clues()),
                        c,
                        a,
                    ),
                forall|a: int, k: int|
                    nc <= a < nc + r && 0 <= k < nr ==> (#[trigger] string_grid@[a]@[k])@
                        == spec_waterfilled_entry(
                        non.spec_row_clues(),
                        nr,
                        spec_max_clue_width(non.spec_row_clues()),
                        a - nc,
                        k,
                    ),
                forall|a: int, c: int|
                    nc <= a < nc + r && 0 <= c < num_cols ==> (#[trigger] string_grid@[a]@[nr + c])@
                        == self.spec_tile(non.cells()[a - nc][c]),
            decreases num_rows - r,
        {
            let mut line = clone_string_vec(&rows_string_grid[r]);
            let mut rest = clone_string_vec(&cells_string_grid[r]);
            line.append(&mut rest);
            string_grid.push(line);
            r = r + 1;
        }
        string_grid
    }

    pub fn get_string_lines(&self, _non: &Nonogram) -> (v: Vec<String>)
        ensures
            v@.len() == 0,
    {
        Vec::new()
    }

    pub fn get_string(&self, _non: &Nonogram) -> (v: Vec<String>)
        ensures
            v@.len() == 0,
    {
        Vec::new()
    }

    /// One line of tile symbols for the given row, joined with spaces.
    fn get_grid_line(&self, non: &Nonogram, index: usize) -> (s: String)
        requires
            non.well_formed(),
            index < non.spec_num_rows(),
        ensures
            s@ == spec_grid_line(self, non, index as int),
    {
        proof {
            crate::nonogram::lemma_well_formed_dims(non);
        }
        let row = non.get_row(index);
        let num_cols = non.num_cols();
        let mut tile_strings: Vec<String> = Vec::new();
        let mut c: usize = 0;
        while c < num_cols
            invariant
                c <= num_cols,
                num_cols == non.spec_num_cols(),
                index < non.spec_num_rows(),
                row@ == non.cells()[index as int],
                row@.len() == num_cols,
                tile_strings@.len() == c,
                forall|b: int|
                    0 <= b < c ==> (#[trigger] tile_strings@[b])@ == self.spec_tile(
                        non.cells()[index as int][b],
                    ),
            decreases num_cols - c,
        {
            tile_strings.push(String::from_str(self.format_tile(row[c])));
            c = c + 1;
        }
        let s = join_strings(&tile_strings);
        proof {
            assert(str_seqs(tile_strings@) =~= Seq::new(
                non.spec_num_cols() as nat,
                |b: int| self.spec_tile(non.cells()[index as int][b]),
            ));
        }
        s
    }

    /// One line of tile symbols per row.
    pub fn get_only_grid_lines(&self, non: &Nonogram) -> (lines: Vec<String>)
        requires
            non.well_formed(),
        ensures
            lines@.len() == non.spec_num_rows(),
            forall|r: int|
                0 <= r < lines@.len() ==> (#[trigger] lines@[r])@ == spec_grid_line(self, non, r),
    {
        let num_rows = non.num_rows();
        let mut lines: Vec<String> = Vec::new();
        let mut r: usize = 0;
        while r < num_rows
            invariant
                r <= num_rows,
                non.well_formed(),
                num_rows == non.spec_num_rows(),
                lines@.len() == r,
                forall|a: int|
                    0 <= a < r ==> (#[trigger] lines@[a])@ == spec_grid_line(self, non, a),
            decreases num_rows - r,
        {
            lines.push(self.get_grid_line(non, r));
            r = r + 1;
        }
        lines
    }

    /// One line of row clues: fillers for the missing clues, then the clue
    /// strings each padded to `longest_clue_length`, joined with spaces.
    pub fn format_one_row_clues(
        clues_strings: &Vec<String>,
        max_num_clues: usize,
        filler_spaces: &str,
        longest_clue_length: usize,
    ) -> (r: String)
        requires
            clues_strings@.len() <= max_num_clues,
        ensures
            r@ == repeat_seq(filler_spaces@, max_num_clues - clues_strings@.len())
                + join_with_space(
                Seq::new(
                    clues_strings@.len(),
                    |j: int| pad_right_seq(clues_strings@[j]@, longest_clue_length as int),
                ),
            ),
    {
        let num_clues = clues_strings.len();
        let num_filler_spaces = max_num_clues - num_clues;
        let leading_spaces = repeat_str(filler_spaces, num_filler_spaces);
        let mut padded: Vec<String> = Vec::new();
        let mut j: usize = 0;
        while j < num_clues
            invariant
                j <= num_clues,
                num_clues == clues_strings@.len(),
                padded@.len() == j,
                forall|b: int|
                    0 <= b < j ==> (#[trigger] padded@[b])@ == pad_right_seq(
                        clues_strings@[b]@,
                        longest_clue_length as int,
                    ),
            decreases num_clues - j,
        {
            padded.push(pad_right(clues_strings[j].as_str(), longest_clue_length));
            j = j + 1;
        }
        let clues_string = join_strings(&padded);
        let mut r = leading_spaces;
        r.append(clues_string.as_str());
        proof {
            assert(str_seqs(padded@) =~= Seq::new(
                clues_strings@.len(),
                |b: int| pad_right_seq(clues_strings@[b]@, longest_clue_length as int),
            ));
        }
        r
    }

    /// One aligned line of clue numbers per row.
    fn get_row_clue_lines(&self, non: &Nonogram) -> (lines: Vec<String>)
        requires
            non.spec_num_rows() >= 1,
            exists|i: int|
                0 <= i < non.spec_num_rows() && (#[trigger] non.spec_row_clues()[i]).len() > 0,
        ensures
            lines@.len() == non.spec_num_rows(),
            forall|r: int|
                0 <= r < lines@.len() ==> (#[trigger] lines@[r])@ == spec_row_clue_line(
                    non.spec_row_clues(),
                    r,
                ),
    {
        let clues = non.row_clues();
        proof {
            let s = non.spec_row_clues();
            assert forall|i: int| 0 <= i < s.len() implies #[trigger] s[i] == clues@[i]@ by {
                assert(crate::nonogram::clue_seqs(clues@)[i] == clues@[i]@);
            }
            let e = choose|i: int| 0 <= i < s.len() && (#[trigger] s[i]).len() > 0;
            assert(clues@[e]@.len() > 0);
        }
        let max_num_clues = get_max_num_clues(clues);
        let longest_clue_length = get_max_clue_width(clues);
        proof {
            let s = non.spec_row_clues();
            let a = choose|a: int|
                0 <= a < clues@.len() && (#[trigger] clues@[a])@.len() == max_num_clues;
            assert(s[a].len() == max_num_clues);
            lemma_is_max_num_clues(s, max_num_clues as int);
            let (x, y) = choose|x: int, y: int|
                0 <= x < clues@.len() && 0 <= y < (#[trigger] clues@[x])@.len()
                    && spec_decimal_width((#[trigger] clues@[x]@[y]) as int)
                    == longest_clue_length;
            assert(s[x].len() == clues@[x]@.len() && s[x][y] == clues@[x]@[y]);
            lemma_is_max_clue_width(s, longest_clue_length as int);
            lemma_dec_chars_len_short(clues@[x]@[y] as int);
        }
        let clue_strings = get_string_grid(clues);
        let clue_width = longest_clue_length + 1;
        let filler_spaces = spaces(clue_width);
        let num_rows = clues.len();
        let mut lines: Vec<String> = Vec::new();
        let mut r: usize = 0;
        while r < num_rows
            invariant
                r <= num_rows,
                num_rows == clues@.len(),
                num_rows == non.spec_num_rows(),
                forall|i: int|
                    0 <= i < clues@.len() ==> #[trigger] non.spec_row_clues()[i] == clues@[i]@,
                spec_max_num_clues(non.spec_row_clues()) == max_num_clues,
                spec_max_clue_width(non.spec_row_clues()) == longest_clue_length,
                forall|i: int|
                    0 <= i < clues@.len() ==> (#[trigger] clues@[i])@.len() <= max_num_clues,
                clue_strings@.len() == num_rows,
                forall|i: int|
                    0 <= i < num_rows ==> (#[trigger] clue_strings@[i])@.len()
                        == clues@[i]@.len(),
                forall|i: int, j: int|
                    0 <= i < num_rows && 0 <= j < clues@[i]@.len() ==> (
                    #[trigger] clue_strings@[i]@[j])@ == dec_chars((clues@[i]@[j]) as int),
                filler_spaces@ == space_seq(longest_clue_length as int + 1),
                lines@.len() == r,
                forall|a: int|
                    0 <= a < r ==> (#[trigger] lines@[a])@ == spec_row_clue_line(
                        non.spec_row_clues(),
                        a,
                    ),
            decreases num_rows - r,
        {
            let line = Formatter::format_one_row_clues(
                &clue_strings[r],
                max_num_clues,
                filler_spaces.as_str(),
                longest_clue_length,
            );
            proof {
                let s = non.spec_row_clues();
                assert(Seq::new(
                    clue_strings@[r as int]@.len(),
                    |j: int|
                        pad_right_seq(
                            clue_strings@[r as int]@[j]@,
                            longest_clue_length as int,
                        ),
                ) =~= Seq::new(
                    s[r as int].len(),
                    |j: int|
                        pad_right_seq(
                            dec_chars(s[r as int][j] as int),
                            spec_max_clue_width(s),
                        ),
                ));
            }
            lines.push(line);
            r = r + 1;
        }
        lines
    }

    /// Line `index` of the column clue area: for each column, the clue
    /// that reaches this line when the column's clues are bottom-aligned
    /// to depth `max_num_clues`, or a filler where no clue does (also
    /// when `index` or a column's length runs past `max_num_clues`).
    pub fn format_col_clues_at(
        col_clue_strings: &Vec<Vec<String>>,
        index: usize,
        max_num_clues: usize,
        filler_spaces: &str,
    ) -> (r: String)
        ensures
            r@ == join_with_space(
                Seq::new(
                    col_clue_strings@.len(),
                    |c: int|
                        if index + col_clue_strings@[c]@.len() < max_num_clues {
                            filler_spaces@
                        } else if index < max_num_clues {
                            col_clue_strings@[c]@[index + col_clue_strings@[c]@.len()
                                - max_num_clues]@
                        } else {
                            filler_spaces@
                        },
                ),
            ),
    {
        let n = col_clue_strings.len();
        let mut strings: Vec<String> = Vec::new();
        let mut c: usize = 0;
        while c < n
            invariant
                c <= n,
                n == col_clue_strings@.len(),
                strings@.len() == c,
                forall|a: int|
                    0 <= a < c ==> (#[trigger] strings@[a])@ == (if index
                        + col_clue_strings@[a]@.len() < max_num_clues {
                        filler_spaces@
                    } else if index < max_num_clues {
                        col_clue_strings@[a]@[index + col_clue_strings@[a]@.len()
                            - max_num_clues]@
                    } else {
                        filler_spaces@
                    }),
            decreases n - c,
        {
            let col = &col_clue_strings[c];
            if index >= max_num_clues {
                strings.push(String::from_str(filler_spaces));
            } else if col.len() < max_num_clues - index {
                strings.push(String::from_str(filler_spaces));
            } else {
                let i = col.len() - (max_num_clues - index);
                strings.push(col[i].clone());
            }
            c = c + 1;
        }
        let r = join_strings(&strings);
        proof {
            assert(str_seqs(strings@) =~= Seq::new(
                col_clue_strings@.len(),
                |a: int|
                    if index + col_clue_strings@[a]@.len() < max_num_clues {
                        filler_spaces@
                    } else if index < max_num_clues {
                        col_clue_strings@[a]@[index + col_clue_strings@[a]@.len()
                            - max_num_clues]@
                    } else {
                        filler_spaces@
                    },
            ));
        }
        r
    }

    /// One line of the column clue area per clue position.
    fn get_col_clue_lines(&self, non: &Nonogram) -> (lines: Vec<String>)
        requires
            non.spec_num_cols() >= 1,
            exists|i: int|
                0 <= i < non.spec_num_cols() && (#[trigger] non.spec_column_clues()[i]).len() > 0,
        ensures
            lines@.len() == spec_max_num_clues(non.spec_column_clues()),
            forall|t: int|
                0 <= t < lines@.len() ==> (#[trigger] lines@[t])@ == spec_col_clue_line(
                    non.spec_column_clues(),
                    t,
                ),
    {
        let clues = non.column_clues();
        proof {
            let s = non.spec_column_clues();
            assert forall|i: int| 0 <= i < s.len() implies #[trigger] s[i] == clues@[i]@ by {
                assert(crate::nonogram::clue_seqs(clues@)[i] == clues@[i]@);
            }
            let e = choose|i: int| 0 <= i < s.len() && (#[trigger] s[i]).len() > 0;
            assert(clues@[e]@.len() > 0);
        }
        let max_num_clues = get_max_num_clues(clues);
        let longest_clue_length = get_max_clue_width(clues);
        proof {
            let s = non.spec_column_clues();
            let a = choose|a: int|
                0 <= a < clues@.len() && (#[trigger] clues@[a])@.len() == max_num_clues;
            assert(s[a].len() == max_num_clues);
            lemma_is_max_num_clues(s, max_num_clues as int);
            let (x, y) = choose|x: int, y: int|
                0 <= x < clues@.len() && 0 <= y < (#[trigger] clues@[x])@.len()
                    && spec_decimal_width((#[trigger] clues@[x]@[y]) as int)
                    == longest_clue_length;
            assert(s[x].len() == clues@[x]@.len() && s[x][y] == clues@[x]@[y]);
            lemma_is_max_clue_width(s, longest_clue_length as int);
        }
        let clue_strings = get_string_grid(clues);
        let filler_spaces = spaces(longest_clue_length);
        let mut lines: Vec<String> = Vec::new();
        let mut t: usize = 0;
        while t < max_num_clues
            invariant
                t <= max_num_clues,
                clues@.len() == non.spec_num_cols(),
                forall|i: int|
                    0 <= i < clues@.len() ==> #[trigger] non.spec_column_clues()[i] == clues@[i]@,
                spec_max_num_clues(non.spec_column_clues()) == max_num_clues,
                spec_max_clue_width(non.spec_column_clues()) == longest_clue_length,
                forall|i: int|
                    0 <= i < clues@.len() ==> (#[trigger] clues@[i])@.len() <= max_num_clues,
                clue_strings@.len() == clues@.len(),
                forall|i: int|
                    0 <= i < clues@.len() ==> (#[trigger] clue_strings@[i])@.len()
                        == clues@[i]@.len(),
                forall|i: int, j: int|
                    0 <= i < clues@.len() && 0 <= j < clues@[i]@.len() ==> (
                    #[trigger] clue_strings@[i]@[j])@ == dec_chars((clues@[i]@[j]) as int),
                filler_spaces@ == space_seq(longest_clue_length as int),
                lines@.len() == t,
                forall|a: int|
                    0 <= a < t ==> (#[trigger] lines@[a])@ == spec_col_clue_line(
                        non.spec_column_clues(),
                        a,
                    ),
            decreases max_num_clues - t,
        {
            let line = Formatter::format_col_clues_at(
                &clue_strings,
                t,
                max_num_clues,
                filler_spaces.as_str(),
            );
            proof {
                let s = non.spec_column_clues();
                assert(Seq::new(
                    clue_strings@.len(),
                    |c: int|
                        if t + clue_strings@[c]@.len() < max_num_clues {
                            filler_spaces@
                        } else if t < max_num_clues {
                            clue_strings@[c]@[t + clue_strings@[c]@.len() - max_num_clues]@
                        } else {
                            filler_spaces@
                        },
                ) =~= Seq::new(
                    s.len(),
                    |c: int|
                        if t + s[c].len() < spec_max_num_clues(s) {
                            space_seq(spec_max_clue_width(s))
                        } else {
                            dec_chars(s[c][t + s[c].len() - spec_max_num_clues(s)] as int)
                        },
                ));
            }
            lines.push(line);
            t = t + 1;
        }
        lines
    }

    /// The full display: the column clue lines (indented past the row clue
    /// area), a horizontal rule, and one line per row holding the row's
    /// clues, a divider, and the row's tiles. Without clue display, just
    /// the tile lines.
    pub fn get_lines(&self, non: &Nonogram) -> (lines: Vec<String>)
        requires
            non.well_formed(),
            self.spec_display_numbers() ==> non.spec_num_rows() >= 1 && non.spec_num_cols() >= 1,
            self.spec_display_numbers() ==> exists|i: int|
                0 <= i < non.spec_num_rows() && (#[trigger] non.spec_row_clues()[i]).len() > 0,
            self.spec_display_numbers() ==> exists|i: int|
                0 <= i < non.spec_num_cols() && (#[trigger] non.spec_column_clues()[i]).len() > 0,
        ensures
            !self.spec_display_numbers() ==> lines@.len() == non.spec_num_rows() && forall|r: int|
                0 <= r < lines@.len() ==> (#[trigger] lines@[r])@ == spec_grid_line(self, non, r),
            self.spec_display_numbers() ==> ({
                let rc = non.spec_row_clues();
                let cc = non.spec_column_clues();
                let nc = spec_max_num_clues(cc);
                let w = spec_row_clue_line(rc, 0).len() as int;
                let cw = spec_col_clue_line(cc, 0).len() as int;
                &&& lines@.len() == nc + 1 + non.spec_num_rows()
                &&& forall|t: int|
                    0 <= t < nc ==> (#[trigger] lines@[t])@ == space_seq(w + 2)
                        + spec_col_clue_line(cc, t)
                &&& lines@[nc]@ == space_seq(w + 2) + Seq::new(cw as nat, |i: int| '_')
                &&& forall|r: int|
                    0 <= r < non.spec_num_rows() ==> (#[trigger] lines@[nc + 1 + r])@
                        == spec_row_clue_line(rc, r) + seq![' ', '|'] + spec_grid_line(
                        self,
                        non,
                        r,
                    )
            }),
    {
        let grid_lines = self.get_only_grid_lines(non);
        if !self.do_display_numbers {
            return grid_lines;
        }
        let row_lines = self.get_row_clue_lines(non);
        let col_lines = self.get_col_clue_lines(non);
        proof {
            let cc = non.spec_column_clues();
            let e = choose|i: int|
                0 <= i < non.spec_num_cols() && (#[trigger] non.spec_column_clues()[i]).len() > 0;
            lemma_spec_max_num_clues_props(cc);
            assert(cc[e].len() <= spec_max_num_clues(cc));
        }
        let max_row_width = row_lines[0].as_str().unicode_len();
        let max_col_width = col_lines[0].as_str().unicode_len();
        let num_col_lines = col_lines.len();
        let num_rows = non.num_rows();
        let ghost w = spec_row_clue_line(non.spec_row_clues(), 0).len() as int;
        let ghost cw = spec_col_clue_line(non.spec_column_clues(), 0).len() as int;
        let mut lines: Vec<String> = Vec::new();
        let mut t: usize = 0;
        while t < num_col_lines
            invariant
                t <= num_col_lines,
                num_col_lines == spec_max_num_clues(non.spec_column_clues()),
                col_lines@.len() == num_col_lines,
                forall|a: int|
                    0 <= a < num_col_lines ==> (#[trigger] col_lines@[a])@ == spec_col_clue_line(
                        non.spec_column_clues(),
                        a,
                    ),
                max_row_width == w,
                lines@.len() == t,
                forall|a: int|
                    0 <= a < t ==> (#[trigger] lines@[a])@ == space_seq(w + 2)
                        + spec_col_clue_line(non.spec_column_clues(), a),
            decreases num_col_lines - t,
        {
            let mut s = spaces(max_row_width);
            push_char(&mut s, ' ');
            push_char(&mut s, ' ');
            s.append(col_lines[t].as_str());
            proof {
                assert(s@ =~= space_seq(w + 2) + spec_col_clue_line(
                    non.spec_column_clues(),
                    t as int,
                ));
            }
            lines.push(s);
            t = t + 1;
        }
        let mut rule = spaces(max_row_width);
        push_char(&mut rule, ' ');
        push_char(&mut rule, ' ');
        let dashes = underscores(max_col_width);
        rule.append(dashes.as_str());
        proof {
            assert(rule@ =~= space_seq(w + 2) + Seq::new(cw as nat, |i: int| '_'));
        }
        lines.push(rule);
        let mut r: usize = 0;
        while r < num_rows
            invariant
                r <= num_rows,
                num_rows == non.spec_num_rows(),
                num_col_lines == spec_max_num_clues(non.spec_column_clues()),
                row_lines@.len() == num_rows,
                forall|a: int|
                    0 <= a < num_rows ==> (#[trigger] row_lines@[a])@ == spec_row_clue_line(
                        non.spec_row_clues(),
                        a,
                    ),
                grid_lines@.len() == num_rows,
                forall|a: int|
                    0 <= a < num_rows ==> (#[trigger] grid_lines@[a])@ == spec_grid_line(
                        self,
                        non,
                        a,
                    ),
                lines@.len() == num_col_lines + 1 + r,
                forall|a: int|
                    0 <= a < num_col_lines ==> (#[trigger] lines@[a])@ == space_seq(w + 2)
                        + spec_col_clue_line(non.spec_column_clues(), a),
                lines@[num_col_lines as int]@ == space_seq(w + 2) + Seq::new(
                    cw as nat,
                    |i: int| '_',
                ),
                forall|a: int|
                    0 <= a < r ==> (#[trigger] lines@[num_col_lines + 1 + a])@
                        == spec_row_clue_line(non.spec_row_clues(), a) + seq![' ', '|']
                        + spec_grid_line(self, non, a),
            decreases num_rows - r,
        {
            let mut s = row_lines[r].clone();
            push_char(&mut s, ' ');
            push_char(&mut s, '|');
            s.append(grid_lines[r].as_str());
            proof {
                assert(s@ =~= spec_row_clue_line(non.spec_row_clues(), r as int) + seq![' ', '|']
                    + spec_grid_line(self, non, r as int));
            }
            lines.push(s);
            r = r + 1;
        }
        lines
    }
}

/// `10^k`.
pub open spec fn pow10_int(k: nat) -> int
    decreases k,
{
    if k == 0 {
        1
    } else {
        10 * pow10_int((k - 1) as nat)
    }
}

proof fn lemma_dec_chars_len_le(n: int, k: nat)
    requires
        0 <= n,
        1 <= k,
        n < pow10_int(k),
    ensures
        dec_chars(n).len() <= k,
    decreases k,
{
    if n >= 10 {
        assert(pow10_int(k) == 10 * pow10_int((k - 1) as nat));
        lemma_dec_chars_len_le(n / 10, (k - 1) as nat);
    }
}

/// The decimal representation of a machine integer has at most 20 digits.
proof fn lemma_dec_chars_len_short(n: int)
    requires
        0 <= n <= usize::MAX,
    ensures
        dec_chars(n).len() <= 20,
{
    assert(pow10_int(0) == 1);
    assert(pow10_int(1) == 10);
    assert(pow10_int(2) == 100);
    assert(pow10_int(3) == 1000);
    assert(pow10_int(4) == 10000);
    assert(pow10_int(5) == 100000);
    assert(pow10_int(6) == 1000000);
    assert(pow10_int(7) == 10000000);
    assert(pow10_int(8) == 100000000);
    assert(pow10_int(9) == 1000000000);
    assert(pow10_int(10) == 10000000000);
    assert(pow10_int(11) == 100000000000);
    assert(pow10_int(12) == 1000000000000);
    assert(pow10_int(13) == 10000000000000);
    assert(pow10_int(14) == 100000000000000);
    assert(pow10_int(15) == 1000000000000000);
    assert(pow10_int(16) == 10000000000000000);
    assert(pow10_int(17) == 100000000000000000);
    assert(pow10_int(18) == 1000000000000000000);
    assert(pow10_int(19) == 10000000000000000000);
    assert(pow10_int(20) == 100000000000000000000);
    lemma_dec_chars_len_le(n, 20);
}

impl Default for Formatter {
    /// The default formatter: `#` for filled, `x` for not filled, `_` for
    /// unknown, with clue numbers displayed.
    fn default() -> (f: Formatter)
        ensures
            f.spec_filled() == "#"@,
            f.spec_not_filled() == "x"@,
            f.spec_none() == "_"@,
            f.spec_display_numbers() == true,
    {
        Formatter::new("#", "x", "_", true)
    }
}

/// `s` padded on the right with spaces to width `w` (a longer `s` is kept
/// whole).
pub open spec fn pad_right_seq(s: Seq<char>, w: int) -> Seq<char> {
    if s.len() >= w {
        s
    } else {
        s + space_seq(w - s.len())
    }
}

/// `s` padded on the right with spaces to width `w`.
fn pad_right(s: &str, w: usize) -> (r: String)
    ensures
        r@ == pad_right_seq(s@, w as int),
{
    let len = s.unicode_len();
    let mut r = String::from_str(s);
    if len < w {
        let fill = spaces(w - len);
        r.append(fill.as_str());
    }
    r
}

/// `parts` joined with a single space between adjacent parts.
fn join_strings(parts: &Vec<String>) -> (s: String)
    ensures
        s@ == join_with_space(str_seqs(parts@)),
{
    let n = parts.len();
    if n == 0 {
        return String::new();
    }
    let mut s = parts[0].clone();
    let mut k: usize = 1;
    proof {
        assert(str_seqs(parts@).take(1) =~= seq![parts@[0]@]);
        assert(join_with_space(seq![parts@[0]@]) == parts@[0]@);
    }
    while k < n
        invariant
            1 <= k <= n,
            n == parts@.len(),
            s@ == join_with_space(str_seqs(parts@).take(k as int)),
        decreases n - k,
    {
        proof {
            let ps = str_seqs(parts@);
            assert(ps.take(k as int + 1).drop_last() =~= ps.take(k as int));
            assert(ps.take(k as int + 1).last() == parts@[k as int]@);
        }
        push_char(&mut s, ' ');
        s.append(parts[k].as_str());
        proof {
            let ps = str_seqs(parts@);
            assert(s@ =~= join_with_space(ps.take(k as int)) + seq![' '] + parts@[k as int]@);
        }
        k = k + 1;
    }
    proof {
        assert(str_seqs(parts@).take(n as int) =~= str_seqs(parts@));
    }
    s
}

/// One entry of a waterfilled clue grid: for line `i` of `s`, position
/// `k` of `nmax`, either a filler of `w` spaces or the decimal string of
/// the clue that is right-aligned into the block.
pub open spec fn spec_waterfilled_entry(
    s: Seq<Seq<Clue>>,
    nmax: int,
    w: int,
    i: int,
    k: int,
) -> Seq<char> {
    if k < nmax - s[i].len() {
        space_seq(w)
    } else {
        dec_chars(s[i][k - (nmax - s[i].len())] as int)
    }
}

/// One line of the grid section: the tile symbols of a row joined with
/// single spaces.
pub open spec fn spec_grid_line(f: &Formatter, non: &Nonogram, r: int) -> Seq<char> {
    join_with_space(
        Seq::new(non.spec_num_cols() as nat, |c: int| f.spec_tile(non.cells()[r][c])),
    )
}

/// One line of row clues: fillers for the missing clues, then the clue
/// numbers, each padded to the width of the widest, joined with spaces.
pub open spec fn spec_row_clue_line(s: Seq<Seq<Clue>>, r: int) -> Seq<char> {
    repeat_seq(space_seq(spec_max_clue_width(s) + 1), spec_max_num_clues(s) - s[r].len())
        + join_with_space(
        Seq::new(
            s[r].len(),
            |j: int| pad_right_seq(dec_chars(s[r][j] as int), spec_max_clue_width(s)),
        ),
    )
}

/// Line `t` of the column clue area: for each column, a filler or the
/// clue that reaches line `t` when the column's clues are bottom-aligned.
pub open spec fn spec_col_clue_line(s: Seq<Seq<Clue>>, t: int) -> Seq<char> {
    join_with_space(
        Seq::new(
            s.len(),
            |c: int|
                if t + s[c].len() < spec_max_num_clues(s) {
                    space_seq(spec_max_clue_width(s))
                } else {
                    dec_chars(s[c][t + s[c].len() - spec_max_num_clues(s)] as int)
                },
        ),
    )
}

/// An element-wise copy of a vector of strings.
fn clone_string_vec(v: &Vec<String>) -> (r: Vec<String>)
    ensures
        r@ == v@,
{
    let n = v.len();
    let mut r: Vec<String> = Vec::new();
    let mut i: usize = 0;
    while i < n
        invariant
            i <= n,
            n == v@.len(),
            r@.len() == i,
            forall|k: int| 0 <= k < i ==> r@[k] == v@[k],
        decreases n - i,
    {
        r.push(v[i].clone());
        i = i + 1;
    }
    proof {
        assert(r@ =~= v@);
    }
    r
}

/// A string of `n` underscores.
fn underscores(n: usize) -> (s: String)
    ensures
        s@ == Seq::new(n as nat, |i: int| '_'),
{
    let mut s = String::new();
    let mut i: usize = 0;
    while i < n
        invariant
            i <= n,
            s@ == Seq::new(i as nat, |k: int| '_'),
        decreases n - i,
    {
        proof {
            assert(s@.push('_') =~= Seq::new(i as nat + 1, |k: int| '_'));
        }
        push_char(&mut s, '_');
        i = i + 1;
    }
    s
}

/// The decimal strings of a grid of clue numbers.
pub fn get_string_grid(grid: &Vec<LineClues>) -> (g: Vec<Vec<String>>)
    ensures
        g@.len() == grid@.len(),
        forall|i: int| 0 <= i < g@.len() ==> (#[trigger] g@[i])@.len() == grid@[i]@.len(),
        forall|i: int, j: int|
            0 <= i < g@.len() && 0 <= j < grid@[i]@.len() ==> (#[trigger] g@[i]@[j])@ == dec_chars(
                (grid@[i]@[j]) as int,
            ),
{
    let n = grid.len();
    let mut g: Vec<Vec<String>> = Vec::new();
    let mut i: usize = 0;
    while i < n
        invariant
            i <= n,
            n == grid@.len(),
            g@.len() == i,
            forall|a: int| 0 <= a < i ==> (#[trigger] g@[a])@.len() == grid@[a]@.len(),
            forall|a: int, b: int|
                0 <= a < i && 0 <= b < grid@[a]@.len() ==> (#[trigger] g@[a]@[b])@ == dec_chars(
                    (grid@[a]@[b]) as int,
                ),
        decreases n - i,
    {
        let line = &grid[i];
        let m = line.len();
        let mut row: Vec<String> = Vec::new();
        let mut j: usize = 0;
        while j < m
            invariant
                j <= m,
                i < n,
                n == grid@.len(),
                line@ == grid@[i as int]@,
                m == grid@[i as int]@.len(),
                row@.len() == j,
                forall|b: int|
                    0 <= b < j ==> (#[trigger] row@[b])@ == dec_chars((grid@[i as int]@[b]) as int),
            decreases m - j,
        {
            row.push(usize_to_string(line[j]));
            j = j + 1;
        }
        g.push(row);
        i = i + 1;
    }
    g
}

/// The concatenation of two vectors.
pub fn joined<T>(first: Vec<T>, second: Vec<T>) -> (r: Vec<T>)
    ensures
        r@ == first@ + second@,
{
    let mut tmp = first;
    let mut rest = second;
    tmp.append(&mut rest);
    tmp
}

/// Column `j` of a possibly ragged grid: the `j`-th elements, in row
/// order, of exactly those rows that are longer than `j`.
pub open spec fn spec_transpose_column(rows: Seq<Vec<String>>, j: int) -> Seq<String>
    decreases rows.len(),
{
    if rows.len() == 0 {
        Seq::empty()
    } else if rows[0]@.len() > j {
        seq![rows[0]@[j]] + spec_transpose_column(rows.drop_first(), j)
    } else {
        spec_transpose_column(rows.drop_first(), j)
    }
}

/// On rows that are all longer than `j`, the transposed column has one
/// entry per row.
pub proof fn lemma_transpose_column_rect(rows: Seq<Vec<String>>, j: int)
    requires
        0 <= j,
        forall|i: int| 0 <= i < rows.len() ==> j < (#[trigger] rows[i])@.len(),
    ensures
        spec_transpose_column(rows, j).len() == rows.len(),
        forall|i: int|
            0 <= i < rows.len() ==> #[trigger] spec_transpose_column(rows, j)[i] == rows[i]@[j],
    decreases rows.len(),
{
    if rows.len() > 0 {
        let rest = rows.drop_first();
        assert forall|i: int| 0 <= i < rest.len() implies j < (#[trigger] rest[i])@.len() by {
            assert(rest[i] == rows[i + 1]);
        }
        lemma_transpose_column_rect(rest, j);
        assert forall|i: int|
            0 <= i < rows.len() implies #[trigger] spec_transpose_column(rows, j)[i]
            == rows[i]@[j] by {
            if i > 0 {
                assert(spec_transpose_column(rows, j)[i] == spec_transpose_column(rest, j)[i
                    - 1]);
                assert(rest[i - 1] == rows[i]);
            }
        }
    }
}

/// The transpose of a possibly ragged grid of strings: one output row per
/// position of the longest input row, holding the elements at that
/// position of every input row that is long enough, in row order.
pub fn transpose(grid: Vec<Vec<String>>) -> (t: Vec<Vec<String>>)
    ensures
        forall|i: int| 0 <= i < grid@.len() ==> (#[trigger] grid@[i])@.len() <= t@.len(),
        grid@.len() == 0 ==> t@.len() == 0,
        grid@.len() > 0 ==> exists|i: int|
            0 <= i < grid@.len() && (#[trigger] grid@[i])@.len() == t@.len(),
        forall|j: int|
            0 <= j < t@.len() ==> (#[trigger] t@[j])@ == spec_transpose_column(grid@, j),
{
    let n = grid.len();
    if n == 0 {
        return Vec::new();
    }
    let mut max_len: usize = grid[0].len();
    let mut k: usize = 1;
    while k < n
        invariant
            1 <= k <= n,
            n == grid@.len(),
            forall|a: int| 0 <= a < k ==> (#[trigger] grid@[a])@.len() <= max_len,
            exists|a: int| 0 <= a < k && (#[trigger] grid@[a])@.len() == max_len,
        decreases n - k,
    {
        let len = grid[k].len();
        if len > max_len {
            max_len = len;
        }
        k = k + 1;
    }
    let mut t: Vec<Vec<String>> = Vec::new();
    let mut j: usize = 0;
    while j < max_len
        invariant
            j <= max_len,
            n == grid@.len(),
            n > 0,
            forall|a: int| 0 <= a < n ==> (#[trigger] grid@[a])@.len() <= max_len,
            exists|a: int| 0 <= a < n && (#[trigger] grid@[a])@.len() == max_len,
            t@.len() == j,
            forall|b: int|
                0 <= b < j ==> (#[trigger] t@[b])@ == spec_transpose_column(grid@, b),
        decreases max_len - j,
    {
        let mut col: Vec<String> = Vec::new();
        let mut i: usize = 0;
        proof {
            assert(grid@.skip(0) =~= grid@);
            assert(col@ + spec_transpose_column(grid@, j as int) =~= spec_transpose_column(
                grid@,
                j as int,
            ));
        }
        while i < n
            invariant
                i <= n,
                n == grid@.len(),
                spec_transpose_column(grid@, j as int) == col@ + spec_transpose_column(
                    grid@.skip(i as int),
                    j as int,
                ),
            decreases n - i,
        {
            proof {
                assert(grid@.skip(i as int)[0] == grid@[i as int]);
                assert(grid@.skip(i as int).drop_first() =~= grid@.skip(i as int + 1));
            }
            let row = &grid[i];
            if j < row.len() {
                proof {
                    let rest = spec_transpose_column(grid@.skip(i as int + 1), j as int);
                    assert(col@.push(grid@[i as int]@[j as int]) + rest =~= col@ + (seq![
                        grid@[i as int]@[j as int],
                    ] + rest));
                }
                col.push(row[j].clone());
            }
            i = i + 1;
        }
        proof {
            assert(grid@.skip(n as int) =~= Seq::<Vec<String>>::empty());
            assert(col@ + Seq::<String>::empty() =~= col@);
        }
        t.push(col);
        j = j + 1;
    }
    t
}

} // verus!
