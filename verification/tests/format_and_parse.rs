use nonogram::formatter::{
    decimal_width, get_max_clue_width, get_max_num_clues, get_string_grid, joined, transpose,
    usize_to_string, Formatter,
};
use nonogram::nonogram_file::{first_word_and_rest, Error, NonogramFileBuilder};
use nonogram::parser::{catalogue, from_hex, int_from_str, is_hex_digit, license, rows, width};
use nonogram::{Nonogram, Tile};

fn small_nonogram() -> Nonogram {
    Nonogram::new(
        vec![vec![2], vec![1, 1], vec![3]],
        vec![vec![3], vec![1, 1], vec![1], vec![1]],
    )
}

#[test]
fn renders_numbers_exactly() {
    assert_eq!(usize_to_string(0), "0");
    assert_eq!(usize_to_string(7), "7");
    assert_eq!(usize_to_string(405), "405");
    assert_eq!(usize_to_string(1000), "1000");
    assert_eq!(decimal_width(0), 1);
    assert_eq!(decimal_width(9), 1);
    assert_eq!(decimal_width(10), 2);
    assert_eq!(decimal_width(12345), 5);
}

#[test]
fn clue_maxima() {
    let clues = vec![vec![2], vec![1, 17], vec![3]];
    assert_eq!(get_max_num_clues(&clues), 2);
    assert_eq!(get_max_clue_width(&clues), 2);
}

#[test]
fn string_grid_of_clues() {
    let clues = vec![vec![2], vec![1, 17]];
    let grid = get_string_grid(&clues);
    assert_eq!(grid, vec![vec!["2".to_string()], vec!["1".to_string(), "17".to_string()]]);
}

#[test]
fn joined_concatenates() {
    assert_eq!(joined(vec![1, 2], vec![3]), vec![1, 2, 3]);
}

#[test]
fn transpose_swaps_rows_and_columns() {
    let grid = vec![
        vec!["a".to_string(), "b".to_string()],
        vec!["c".to_string(), "d".to_string()],
        vec!["e".to_string(), "f".to_string()],
    ];
    let t = transpose(grid);
    assert_eq!(
        t,
        vec![
            vec!["a".to_string(), "c".to_string(), "e".to_string()],
            vec!["b".to_string(), "d".to_string(), "f".to_string()],
        ]
    );
}

#[test]
fn formats_single_tiles() {
    let f = Formatter::new("#", "x", "_", true);
    assert_eq!(f.format_tile(Some(Tile::Filled)), "#");
    assert_eq!(f.format_tile(Some(Tile::FilledWithColor('a'))), "#");
    assert_eq!(f.format_tile(Some(Tile::NotFilled)), "x");
    assert_eq!(f.format_tile(None), "_");
}

#[test]
fn grid_lines_only() {
    let mut non = small_nonogram();
    non.set_tile(1, 2, Tile::Filled);
    non.set_tile(2, 2, Tile::NotFilled);
    let f = Formatter::default();
    let lines = f.get_only_grid_lines(&non);
    assert_eq!(lines, vec!["_ _ _ _", "_ _ # _", "_ _ x _"]);
}

#[test]
fn full_lines_layout() {
    let non = small_nonogram();
    let f = Formatter::default();
    let lines = f.get_lines(&non);
    assert_eq!(
        lines,
        vec![
            "       1    ",
            "     3 1 1 1",
            "     _______",
            "  2 |_ _ _ _",
            "1 1 |_ _ _ _",
            "  3 |_ _ _ _",
        ]
    );
}

#[test]
fn lines_without_numbers_are_the_grid() {
    let non = small_nonogram();
    let f = Formatter::new("#", "x", "_", false);
    assert_eq!(f.get_lines(&non), f.get_only_grid_lines(&non));
}

#[test]
fn string_grid_layout() {
    let non = small_nonogram();
    let f = Formatter::default();
    let g = f.get_string_grid(&non);
    // Two lines of column clues above three rows; two row clue cells
    // before four tile cells.
    assert_eq!(g.len(), 5);
    assert_eq!(g[0].len(), 6);
    // Top-left corner is filler.
    assert_eq!(g[0][0], " ");
    // Column clues, bottom-aligned.
    assert_eq!(g[0][3], "1");
    assert_eq!(g[1][2], "3");
    assert_eq!(g[1][3], "1");
    // Row clues, right-aligned.
    assert_eq!(g[2][0], " ");
    assert_eq!(g[2][1], "2");
    assert_eq!(g[3][0], "1");
    assert_eq!(g[3][1], "1");
    // Tiles.
    assert_eq!(g[2][2], "_");
    assert_eq!(g[4][5], "_");
}

#[test]
fn empty_string_apis() {
    let non = small_nonogram();
    let f = Formatter::default();
    assert_eq!(f.get_string_lines(&non), Vec::<String>::new());
    assert_eq!(f.get_string(&non), Vec::<String>::new());
}

#[test]
fn col_clue_pieces_out_of_range_are_fillers() {
    let cols = vec![vec!["9".to_string(), "8".to_string(), "7".to_string()]];
    assert_eq!(Formatter::format_col_clues_at(&cols, 0, 2, "."), "8");
    assert_eq!(Formatter::format_col_clues_at(&cols, 1, 2, "."), "7");
    assert_eq!(Formatter::format_col_clues_at(&cols, 5, 2, "."), ".");
}

#[test]
fn transpose_pads_ragged_grids() {
    let grid = vec![
        vec!["a".to_string(), "b".to_string(), "c".to_string()],
        vec!["d".to_string()],
    ];
    let t = transpose(grid);
    assert_eq!(
        t,
        vec![
            vec!["a".to_string(), "d".to_string()],
            vec!["b".to_string()],
            vec!["c".to_string()],
        ]
    );
}

#[test]
fn zero_column_grid_lines_are_empty() {
    let non = Nonogram::new(vec![vec![], vec![]], vec![]);
    let f = Formatter::new("#", "x", "_", false);
    assert_eq!(f.get_only_grid_lines(&non), vec!["", ""]);
    assert_eq!(f.get_lines(&non), vec!["", ""]);
}

#[test]
fn splits_first_word() {
    assert_eq!(
        first_word_and_rest("key this is the value"),
        ("key", "this is the value")
    );
    assert_eq!(first_word_and_rest("single"), ("single", ""));
    assert_eq!(first_word_and_rest("a   b"), ("a", "b"));
    assert_eq!(
        first_word_and_rest("key \u{a0}\u{2003}value"),
        ("key", "value")
    );
}

#[test]
fn parses_small_integers() {
    assert_eq!(int_from_str("123"), Ok(123));
    assert_eq!(int_from_str("0"), Ok(0));
    assert_eq!(int_from_str("4294967295"), Ok(4294967295));
    assert!(int_from_str("").is_err());
    assert!(int_from_str("12a").is_err());
    assert!(int_from_str("4294967296").is_err());
}

#[test]
fn parses_hex_bytes() {
    assert_eq!(from_hex("ff"), Ok(255));
    assert_eq!(from_hex("2F"), Ok(47));
    assert_eq!(from_hex("00"), Ok(0));
    assert!(from_hex("100").is_err());
    assert!(from_hex("g").is_err());
    assert!(from_hex("").is_err());
    assert!(is_hex_digit('a'));
    assert!(is_hex_digit('F'));
    assert!(is_hex_digit('0'));
    assert!(!is_hex_digit('g'));
}

#[test]
fn rejects_malformed_lines() {
    assert!(catalogue("catalogue: unquoted\n").is_err());
    assert!(catalogue("catalog: \"x\"\n").is_err());
    assert!(catalogue("catalogue: \"x\"").is_err());
    assert!(width("width: \n").is_err());
    assert!(width("width: 99999999999999999999\n").is_err());
    assert!(license("license \"x\"\n").is_err());
}

#[test]
fn hint_list_stops_before_a_dangling_comma() {
    assert_eq!(rows("rows: 1,\n").ok(), None);
    assert_eq!(rows("rows: \n"), Ok(("", vec![])));
}

#[test]
fn builder_collects_values_in_order() {
    let mut b = NonogramFileBuilder::new();
    assert!(b.width(8).is_ok());
    assert!(b.height(4).is_ok());
    assert!(b.catalogue("cat").is_ok());
    assert_eq!(b.width, Some(8));
    assert_eq!(b.height, Some(4));
    assert_eq!(b.catalogue.as_deref(), Some("cat"));
}

#[test]
fn builder_rejects_duplicates() {
    let mut b = NonogramFileBuilder::new();
    assert!(b.title("one").is_ok());
    match b.title("two") {
        Err(Error::DuplicateValue(key)) => assert_eq!(key, "title"),
        _ => panic!("expected a duplicate-value error"),
    }
    assert_eq!(b.title.as_deref(), Some("one"));
}

#[test]
fn builder_requires_dimensions_first() {
    let mut b = NonogramFileBuilder::new();
    match b.rows(vec![]) {
        Err(Error::ThisNeededRequiredValue(key, needed)) => {
            assert_eq!(key, "rows");
            assert_eq!(needed, "width");
        }
        _ => panic!("expected a required-value error"),
    }
    assert!(b.width(8).is_ok());
    match b.columns(vec![]) {
        Err(Error::ThisNeededRequiredValue(key, needed)) => {
            assert_eq!(key, "columns");
            assert_eq!(needed, "height");
        }
        _ => panic!("expected a required-value error"),
    }
    assert!(b.height(4).is_ok());
    assert!(b.rows(vec![]).is_ok());
    assert!(b.columns(vec![]).is_ok());
    assert!(b.goal(vec![]).is_ok());
}
