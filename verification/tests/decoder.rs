use o_rle::decoder::push_cells;
use o_rle::{parse, ParseError, Parser, Pattern, PatternIter};

fn chars(s: &str) -> Vec<char> {
    s.chars().collect()
}

fn parser_with(width: usize, height: usize) -> Parser {
    let mut parser = Parser::new();
    let header = format!("x = {}, y = {}, rule = B3/S23", width, height);
    assert_eq!(parser.parse_rule_line(&chars(&header)), Ok(()));
    parser
}

fn rows_of(width: usize, height: usize, body: &str) -> Vec<Vec<u8>> {
    let mut parser = parser_with(width, height);
    assert_eq!(parser.parse_pattern_line(&chars(body)), Ok(()));
    parser.rows().clone()
}

#[test]
fn push_cells_appends_a_run() {
    let mut row = vec![1u8];
    push_cells(&mut row, 3, 0);
    assert_eq!(row, [1, 0, 0, 0]);
    push_cells(&mut row, 0, 1);
    assert_eq!(row, [1, 0, 0, 0]);
    push_cells(&mut row, 2, 1);
    assert_eq!(row, [1, 0, 0, 0, 1, 1]);
}

#[test]
fn new_parser_has_read_nothing() {
    let parser = Parser::new();
    assert!(parser.rows().is_empty());
    assert_eq!(parser.width(), 0);
    assert_eq!(parser.height(), 0);
}

#[test]
fn glider_rows_and_dimensions() {
    let mut parser = Parser::new();
    let pattern = parser.parse("x = 3, y = 3, rule = B3/S23\nbob$2bo$3o!").unwrap();
    assert_eq!(*parser.rows(), [[0, 1, 0], [0, 0, 1], [1, 1, 1]]);
    assert_eq!(pattern.width(), 3);
    assert_eq!(pattern.height(), 3);
    assert_eq!(pattern.get_grid(), [0, 1, 0, 0, 0, 1, 1, 1, 1]);
}

#[test]
fn run_without_count_is_a_run_of_one() {
    assert_eq!(rows_of(4, 1, "b$"), rows_of(4, 1, "1b$"));
    assert_eq!(rows_of(4, 1, "o$"), rows_of(4, 1, "1o$"));
    assert_eq!(rows_of(4, 1, "bobo$"), rows_of(4, 1, "1b1o1b1o$"));
    assert_eq!(rows_of(4, 1, "o$"), [[1, 0, 0, 0]]);
    assert_eq!(rows_of(4, 1, "bo$"), [[0, 1, 0, 0]]);
}

#[test]
fn run_counts_give_that_many_cells() {
    assert_eq!(rows_of(6, 1, "2b3o$"), [[0, 0, 1, 1, 1, 0]]);
    assert_eq!(rows_of(6, 1, "6o$"), [[1, 1, 1, 1, 1, 1]]);
    assert_eq!(rows_of(12, 1, "10ob$"), [[1, 1, 1, 1, 1, 1, 1, 1, 1, 1, 0, 0]]);
    assert_eq!(rows_of(3, 1, "0o2b0bo$"), [[0, 0, 1]]);
    assert_eq!(rows_of(3, 1, "002o$"), [[1, 1, 0]]);
}

#[test]
fn short_rows_are_padded_with_dead_cells() {
    assert_eq!(rows_of(5, 2, "o$2o!"), [[1, 0, 0, 0, 0], [1, 1, 0, 0, 0]]);
    assert_eq!(rows_of(5, 1, "$"), [[0, 0, 0, 0, 0]]);
    assert_eq!(rows_of(5, 1, "!"), [[0, 0, 0, 0, 0]]);
    assert_eq!(rows_of(5, 1, "5o$"), [[1, 1, 1, 1, 1]]);
    assert_eq!(rows_of(0, 1, "$"), [[0u8; 0]]);
}

#[test]
fn long_rows_are_rejected() {
    let mut parser = parser_with(3, 1);
    assert_eq!(parser.parse_pattern_line(&chars("4o$")), Err(ParseError::RowTooLong));
    let mut parser = parser_with(3, 1);
    assert_eq!(parser.parse_pattern_line(&chars("2o2b!")), Err(ParseError::RowTooLong));
    let mut parser = Parser::new();
    assert_eq!(parser.parse_pattern_line(&chars("o!")), Err(ParseError::RowTooLong));
    assert!(matches!(parse("x = 3, y = 1, rule = B3/S23\n4o!"), Err(ParseError::RowTooLong)));
    assert!(matches!(parse("x = 3, y = 2, rule = B3/S23\n3o$bobo!"), Err(ParseError::RowTooLong)));
}

#[test]
fn row_too_long_comes_before_a_bad_count() {
    let mut parser = parser_with(1, 1);
    let line = chars("2o99999999999999999999999999999999$");
    assert_eq!(parser.parse_pattern_line(&line), Err(ParseError::RowTooLong));
}

#[test]
fn separator_count_adds_blank_rows() {
    assert_eq!(rows_of(2, 1, "o$").len(), 1);
    assert_eq!(rows_of(2, 1, "o1$").len(), 1);
    assert_eq!(rows_of(2, 1, "o0$").len(), 1);
    assert_eq!(rows_of(2, 2, "o2$"), [[1, 0], [0, 0]]);
    assert_eq!(rows_of(2, 5, "o5$"), [[1, 0], [0, 0], [0, 0], [0, 0], [0, 0]]);
    assert_eq!(rows_of(2, 3, "3$"), [[0, 0], [0, 0], [0, 0]]);
    for n in 1usize..30 {
        let rows = rows_of(3, n, &format!("bo{}$", n));
        assert_eq!(rows.len(), n);
        assert_eq!(rows[0], [0, 1, 0]);
        for row in &rows[1..] {
            assert_eq!(*row, [0, 0, 0]);
        }
    }
}

#[test]
fn blank_row_multiplier_between_rows() {
    let mut parser = parser_with(5, 6);
    assert_eq!(parser.parse_pattern_line(&chars("b4o4$o")), Ok(()));
    assert_eq!(
        *parser.rows(),
        [[0, 1, 1, 1, 1], [0, 0, 0, 0, 0], [0, 0, 0, 0, 0], [0, 0, 0, 0, 0]]
    );
    assert_eq!(parser.parse_pattern_line(&chars("$")), Ok(()));
    assert_eq!(parser.rows().len(), 5);
    assert_eq!(parser.rows()[4], [1, 0, 0, 0, 0]);
}

#[test]
fn terminator_takes_no_count_and_ends_the_line() {
    assert_eq!(rows_of(2, 1, "o3!"), [[1, 0]]);
    assert_eq!(rows_of(2, 1, "o!oo$bb$5$"), [[1, 0]]);
    assert_eq!(rows_of(2, 2, "o$b!"), [[1, 0], [0, 0]]);
    assert_eq!(rows_of(2, 2, "o$!"), [[1, 0], [0, 0]]);
}

#[test]
fn count_before_terminator_stays_pending() {
    let mut parser = parser_with(3, 2);
    assert_eq!(parser.parse_pattern_line(&chars("o2!")), Ok(()));
    assert_eq!(*parser.rows(), [[1, 0, 0]]);
    assert_eq!(parser.digit_val(), Ok(2));
    assert_eq!(parser.digit_val(), Ok(1));
}

#[test]
fn unknown_characters_are_skipped() {
    assert_eq!(rows_of(3, 1, "b o\tz?B O\u{e9}b$"), [[0, 1, 0]]);
    assert_eq!(rows_of(3, 1, "2 b o $"), rows_of(3, 1, "2bo$"));
    assert_eq!(rows_of(3, 1, "bob\r"), Vec::<Vec<u8>>::new());
}

#[test]
fn a_run_may_continue_on_the_next_line() {
    let mut parser = Parser::new();
    let pattern = parser.parse("x = 13, y = 1, rule = B3/S23\n1\n2bo$1\n3\n").unwrap();
    assert_eq!(pattern.get_grid(), [0, 0, 0, 0, 0, 0, 0, 0, 0, 0, 0, 0, 1]);
    assert_eq!(*parser.rows(), [[0, 0, 0, 0, 0, 0, 0, 0, 0, 0, 0, 0, 1]]);
    assert_eq!(parser.digit_val(), Ok(13));
}

#[test]
fn a_row_may_continue_on_the_next_line() {
    let mut parser = Parser::new();
    parser.parse("x = 4, y = 1\nbo\nbo!").unwrap();
    assert_eq!(*parser.rows(), [[0, 1, 0, 1]]);
}

#[test]
fn digit_val_defaults_to_one_and_clears_the_buffer() {
    let mut parser = parser_with(50, 1);
    assert_eq!(parser.digit_val(), Ok(1));
    assert_eq!(parser.parse_pattern_line(&chars("42")), Ok(()));
    assert_eq!(parser.digit_val(), Ok(42));
    assert_eq!(parser.digit_val(), Ok(1));
    assert_eq!(parser.parse_pattern_line(&chars("0")), Ok(()));
    assert_eq!(parser.digit_val(), Ok(0));
}

#[test]
fn oversized_run_count_is_invalid() {
    let mut parser = parser_with(3, 1);
    let line = chars("99999999999999999999999999999999b");
    assert_eq!(parser.parse_pattern_line(&line), Err(ParseError::InvalidRunCount));
    assert!(parser.rows().is_empty());
    assert_eq!(parser.width(), 0);

    let mut parser = parser_with(3, 1);
    let line = chars("99999999999999999999999999999999o");
    assert_eq!(parser.parse_pattern_line(&line), Err(ParseError::InvalidRunCount));

    let mut parser = parser_with(3, 1);
    let line = chars("bo99999999999999999999999999999999$");
    assert_eq!(parser.parse_pattern_line(&line), Err(ParseError::InvalidRunCount));

    let mut parser = parser_with(3, 1);
    assert_eq!(parser.parse_pattern_line(&chars("99999999999999999999999999999999")), Ok(()));
    assert_eq!(parser.digit_val(), Err(ParseError::InvalidRunCount));
    assert_eq!(parser.digit_val(), Ok(1));

    let text = format!("x = 2, y = 1\n{}0b!", usize::MAX);
    assert!(matches!(parse(&text), Err(ParseError::InvalidRunCount)));
}

#[test]
fn ensure_row_len_pads_or_rejects() {
    let parser = parser_with(4, 1);
    let mut row = vec![1u8, 1];
    assert_eq!(parser.ensure_row_len(&mut row), Ok(()));
    assert_eq!(row, [1, 1, 0, 0]);
    let mut row = vec![1u8, 0, 1, 1];
    assert_eq!(parser.ensure_row_len(&mut row), Ok(()));
    assert_eq!(row, [1, 0, 1, 1]);
    let mut row: Vec<u8> = Vec::new();
    assert_eq!(parser.ensure_row_len(&mut row), Ok(()));
    assert_eq!(row, [0, 0, 0, 0]);
    let mut row = vec![1u8, 0, 1, 1, 0];
    assert_eq!(parser.ensure_row_len(&mut row), Err(ParseError::RowTooLong));
    assert_eq!(row, [1, 0, 1, 1, 0]);
}

#[test]
fn lines_are_classified_by_their_first_character() {
    let mut parser = Parser::new();
    assert_eq!(parser.parse_line(&chars("#C 3o$ is not read here!")), Ok(()));
    assert!(parser.rows().is_empty());
    assert_eq!(parser.parse_line(&chars("x = 3, y = 2, rule = B3/S23")), Ok(()));
    assert_eq!((parser.width(), parser.height()), (3, 2));
    assert_eq!(parser.parse_line(&chars("")), Ok(()));
    assert_eq!(parser.parse_line(&chars("3o$")), Ok(()));
    assert_eq!(parser.parse_line(&chars(" x = y, z")), Ok(()));
    assert_eq!((parser.width(), parser.height()), (3, 2));
    assert_eq!(parser.parse_line(&chars(" # b!")), Ok(()));
    assert_eq!(*parser.rows(), [[1, 1, 1], [0, 0, 0]]);
    assert_eq!(parser.parse_line(&chars("xyz")), Err(ParseError::HeaderParse));
}

#[test]
fn grid_length_is_width_times_height() {
    let texts = [
        "x = 3, y = 3, rule = B3/S23\nbob$2bo$3o!",
        "x = 5, y = 18, rule = B3/S23\n3bo$4bo$o3bo$b4o4$o$boo$bbo$bbo$bo3$3bo$4bo$o3bo$b4o!",
        "x = 1, y = 1\no!",
        "x = 7, y = 4\n4$",
        "x = 0, y = 0\n",
        "x = 0, y = 3\n3$",
        "",
    ];
    for text in texts {
        let mut parser = Parser::new();
        let pattern = parser.parse(text).unwrap();
        let grid = pattern.get_grid();
        assert_eq!(grid.len(), pattern.width() * pattern.height());
        assert!(grid.iter().all(|cell| *cell <= 1));
    }
}

#[test]
fn cell_count_must_match_the_declared_size() {
    assert!(matches!(parse("x = 3, y = 3, rule = B3/S23\nbob$2bo!"), Err(ParseError::DimensionMismatch)));
    assert!(matches!(parse("x = 3, y = 2, rule = B3/S23\nbob$2bo$3o!"), Err(ParseError::DimensionMismatch)));
    assert!(matches!(parse("x = 3, y = 3, rule = B3/S23\n"), Err(ParseError::DimensionMismatch)));
    assert!(matches!(parse("x = 3, y = 3, rule = B3/S23\nbob$2bo$3o"), Err(ParseError::DimensionMismatch)));
    assert!(matches!(parse("bob2bo3o"), Ok(_)));
    assert!(matches!(parse("bob$2bo$3o"), Err(ParseError::RowTooLong)));
    let huge = format!("x = {}, y = {}\n", usize::MAX, usize::MAX);
    assert!(matches!(parse(&huge), Err(ParseError::DimensionMismatch)));
    let wide = format!("x = {}, y = 0\n", usize::MAX);
    assert!(matches!(parse(&wide), Ok(_)));
}

#[test]
fn failure_resets_the_parser() {
    let mut parser = Parser::new();
    assert!(matches!(
        parser.parse("x = 3, y = 3, rule = B3/S23\nbob$2bo!"),
        Err(ParseError::DimensionMismatch)
    ));
    assert!(parser.rows().is_empty());
    assert_eq!((parser.width(), parser.height()), (0, 0));
    let pattern = parser.parse("x = 2, y = 1\nbo!").unwrap();
    assert_eq!(pattern.get_grid(), [0, 1]);
}

#[test]
fn a_second_decode_gives_the_same_pattern() {
    let text = "x = 3, y = 3, rule = B3/S23\nbob$2bo$3o!";
    let mut parser = Parser::new();
    let first = parser.parse(text).unwrap();
    let second = parser.parse(text).unwrap();
    assert_eq!((second.width(), second.height()), (3, 3));
    assert_eq!(second.get_grid(), [0, 1, 0, 0, 0, 1, 1, 1, 1]);
    assert_eq!(first.get_grid(), second.get_grid());
    assert_eq!(*parser.rows(), [[0, 1, 0], [0, 0, 1], [1, 1, 1]]);
    let third = parser.parse("x = 2, y = 1\nbo!").unwrap();
    assert_eq!(third.get_grid(), [0, 1]);
    assert_eq!(*parser.rows(), [[0, 1]]);
}

#[test]
fn parse_forgets_what_was_fed_before() {
    let mut parser = Parser::new();
    assert_eq!(parser.parse_line(&chars("x = 2, y = 2")), Ok(()));
    assert_eq!(parser.parse_line(&chars("bo$o7")), Ok(()));
    let pattern = parser.parse("x = 2, y = 1\nob!").unwrap();
    assert_eq!(pattern.get_grid(), [1, 0]);
    assert_eq!(*parser.rows(), [[1, 0]]);
    assert_eq!((parser.width(), parser.height()), (2, 1));
    assert_eq!(parser.digit_val(), Ok(1));
    assert!(matches!(parser.parse("o!"), Err(ParseError::RowTooLong)));
    assert!(matches!(parser.parse("bo"), Ok(_)));
    assert_eq!((parser.width(), parser.height()), (0, 0));
}

#[test]
fn cells_wrap_at_the_declared_width_whatever_the_rows_were() {
    let mut parser = Parser::new();
    let pattern = parser.parse("x = 2, y = 1\nbo$bo$bo$\nx = 3, y = 2").unwrap();
    assert_eq!(*parser.rows(), [[0, 1], [0, 1], [0, 1]]);
    assert_eq!(pattern.get_grid(), [0, 1, 0, 1, 0, 1]);
    let mut it = PatternIter::new(pattern);
    assert_eq!(it.next().unwrap(), [0, 1, 0]);
    assert_eq!(it.next().unwrap(), [1, 0, 1]);
    assert_eq!(it.next(), None);
}

#[test]
fn from_rows_packs_in_row_major_order() {
    let rows = vec![vec![0u8, 1, 0], vec![0, 0, 1], vec![1, 1, 1]];
    let pattern = Pattern::from_rows(3, 3, &rows).unwrap();
    assert_eq!(pattern.get_grid(), [0, 1, 0, 0, 0, 1, 1, 1, 1]);
    assert_eq!((pattern.width(), pattern.height()), (3, 3));

    let uneven = vec![vec![1u8], vec![0, 0, 1], vec![], vec![1, 1]];
    let pattern = Pattern::from_rows(2, 3, &uneven).unwrap();
    assert_eq!(pattern.get_grid(), [1, 0, 0, 1, 1, 1]);

    let none: Vec<Vec<u8>> = Vec::new();
    assert_eq!(Pattern::from_rows(0, 0, &none).unwrap().get_grid(), [0u8; 0]);
    assert_eq!(Pattern::from_rows(0, 7, &none).unwrap().height(), 7);
}

#[test]
fn from_rows_rejects_a_wrong_cell_count() {
    let rows = vec![vec![0u8, 1, 0], vec![0, 0, 1]];
    assert!(matches!(Pattern::from_rows(3, 3, &rows), Err(ParseError::DimensionMismatch)));
    assert!(matches!(Pattern::from_rows(3, 1, &rows), Err(ParseError::DimensionMismatch)));
    assert!(matches!(Pattern::from_rows(0, 0, &rows), Err(ParseError::DimensionMismatch)));
    assert!(matches!(
        Pattern::from_rows(usize::MAX, 2, &rows),
        Err(ParseError::DimensionMismatch)
    ));
    assert!(matches!(Pattern::from_rows(2, 3, &rows), Ok(_)));
}

#[test]
fn empty_pattern() {
    let pattern = Pattern::new();
    assert_eq!(pattern.width(), 0);
    assert_eq!(pattern.height(), 0);
    assert!(pattern.get_grid().is_empty());
    let mut it = PatternIter::new(pattern);
    assert_eq!(it.next(), None);
    assert_eq!(it.next(), None);
}

#[test]
fn iterator_yields_height_rows_then_nothing() {
    for height in 0usize..12 {
        let text = format!("x = 4, y = {}\nbo{}$", height, height);
        let parsed = parse(&text);
        if height == 0 {
            assert!(matches!(parsed, Err(ParseError::DimensionMismatch)));
            continue;
        }
        let mut it = parsed.unwrap();
        for index in 0..height {
            let row = it.next().unwrap();
            assert_eq!(row.len(), 4);
            if index == 0 {
                assert_eq!(row, [0, 1, 0, 0]);
            } else {
                assert_eq!(row, [0, 0, 0, 0]);
            }
        }
        assert_eq!(it.next(), None);
        assert_eq!(it.next(), None);
        assert_eq!(it.next(), None);
    }
}

#[test]
fn iterator_over_rows_of_width_zero() {
    let mut it = parse("x = 0, y = 3\n3$").unwrap();
    assert_eq!(it.next(), Some(vec![]));
    assert_eq!(it.next(), Some(vec![]));
    assert_eq!(it.next(), Some(vec![]));
    assert_eq!(it.next(), None);
    assert_eq!(it.next(), None);
}

#[test]
fn a_retained_pattern_can_be_walked_again() {
    let mut parser = Parser::new();
    let first = parser.parse("x = 2, y = 2\nbo$ob!").unwrap();
    let again = first.clone();
    assert_eq!(again.get_grid(), first.get_grid());
    assert_eq!((again.width(), again.height()), (2, 2));
    let mut it = PatternIter::new(first);
    assert_eq!(it.next().unwrap(), [0, 1]);
    assert_eq!(it.next().unwrap(), [1, 0]);
    assert_eq!(it.next(), None);
    let mut it = PatternIter::new(again);
    assert_eq!(it.next().unwrap(), [0, 1]);
    assert_eq!(it.next().unwrap(), [1, 0]);
    assert_eq!(it.next(), None);
}

#[test]
fn text_without_terminator_or_with_trailing_lines() {
    assert!(matches!(parse("x = 2, y = 1\nbo$"), Ok(_)));
    let mut it = parse("x = 2, y = 1\nbo!\n\n#C done\n").unwrap();
    assert_eq!(it.next().unwrap(), [0, 1]);
    assert_eq!(it.next(), None);
    let mut it = parse("x = 2, y = 1\r\nbo!\r\n").unwrap();
    assert_eq!(it.next().unwrap(), [0, 1]);
    assert_eq!(it.next(), None);
}

#[test]
fn empty_text_is_the_empty_pattern() {
    let mut parser = Parser::new();
    let pattern = parser.parse("").unwrap();
    assert_eq!((pattern.width(), pattern.height()), (0, 0));
    assert!(pattern.get_grid().is_empty());
    let mut it = parse("\n\n#C nothing\n").unwrap();
    assert_eq!(it.next(), None);
}

#[test]
fn each_error_has_an_input() {
    assert!(matches!(parse("x = abc, y = 3, rule = B3/S23"), Err(ParseError::HeaderParse)));
    assert!(matches!(parse("x = 1, y = 1\n2o!"), Err(ParseError::RowTooLong)));
    assert!(matches!(
        parse("x = 1, y = 1\n340282366920938463463374607431768211456o!"),
        Err(ParseError::InvalidRunCount)
    ));
    assert!(matches!(parse("x = 1, y = 2\no!"), Err(ParseError::DimensionMismatch)));
}
