use snake_game::grid::{in_bounds, Cell};
use snake_game::key::{decode_key, encode_key, is_cell_in_snake, MalformedKey};
use snake_game::snake::Snake;

fn cell(row: i32, col: i32) -> Cell {
    Cell { row, col }
}

#[test]
fn cells_are_equal_by_value() {
    assert_eq!(cell(3, 4), cell(3, 4));
    assert_ne!(cell(3, 4), cell(4, 3));
}

#[test]
fn in_bounds_accepts_the_corners() {
    assert!(in_bounds(cell(0, 0), 10, 10));
    assert!(in_bounds(cell(9, 9), 10, 10));
    assert!(in_bounds(cell(0, 9), 10, 10));
    assert!(in_bounds(cell(9, 0), 10, 10));
}

#[test]
fn in_bounds_rejects_what_lies_past_the_edges() {
    assert!(!in_bounds(cell(10, 0), 10, 10));
    assert!(!in_bounds(cell(0, 10), 10, 10));
    assert!(!in_bounds(cell(10, 10), 10, 10));
}

#[test]
fn in_bounds_rejects_minus_one() {
    assert!(!in_bounds(cell(-1, 0), 10, 10));
    assert!(!in_bounds(cell(0, -1), 10, 10));
    assert!(!in_bounds(cell(-1, -1), 10, 10));
}

#[test]
fn in_bounds_tells_width_from_height() {
    assert!(in_bounds(cell(1, 4), 5, 2));
    assert!(!in_bounds(cell(4, 1), 5, 2));
    assert!(!in_bounds(cell(0, 0), 0, 3));
    assert!(!in_bounds(cell(0, 0), 3, 0));
}

#[test]
fn encode_key_writes_row_plus_column() {
    assert_eq!(encode_key(cell(5, 6)), "5+6");
    assert_eq!(encode_key(cell(0, 0)), "0+0");
    assert_eq!(encode_key(cell(12, 305)), "12+305");
    assert_eq!(encode_key(cell(9, 10)), "9+10");
}

#[test]
fn encode_key_writes_negative_coordinates() {
    assert_eq!(encode_key(cell(-1, 12)), "-1+12");
    assert_eq!(encode_key(cell(3, -40)), "3+-40");
    assert_eq!(encode_key(cell(i32::MIN, i32::MAX)), "-2147483648+2147483647");
}

#[test]
fn decode_key_reads_row_plus_column() {
    assert_eq!(decode_key("5+6"), Ok(cell(5, 6)));
    assert_eq!(decode_key("0+0"), Ok(cell(0, 0)));
    assert_eq!(decode_key("12+305"), Ok(cell(12, 305)));
    assert_eq!(decode_key("-1+12"), Ok(cell(-1, 12)));
    assert_eq!(decode_key("3+-40"), Ok(cell(3, -40)));
}

#[test]
fn decode_key_accepts_leading_zeros_and_minus_zero() {
    assert_eq!(decode_key("007+08"), Ok(cell(7, 8)));
    assert_eq!(decode_key("-0+0"), Ok(cell(0, 0)));
    assert_eq!(decode_key("0000000000000000000001+2"), Ok(cell(1, 2)));
}

#[test]
fn decode_key_reads_the_extreme_coordinates() {
    assert_eq!(decode_key("-2147483648+2147483647"), Ok(cell(i32::MIN, i32::MAX)));
    assert_eq!(decode_key("2147483647+-2147483648"), Ok(cell(i32::MAX, i32::MIN)));
}

#[test]
fn decode_key_rejects_coordinates_that_do_not_fit() {
    assert_eq!(decode_key("2147483648+0"), Err(MalformedKey));
    assert_eq!(decode_key("0+2147483648"), Err(MalformedKey));
    assert_eq!(decode_key("-2147483649+0"), Err(MalformedKey));
    assert_eq!(decode_key("99999999999999999999999999+1"), Err(MalformedKey));
}

#[test]
fn decode_key_rejects_missing_parts() {
    assert_eq!(decode_key(""), Err(MalformedKey));
    assert_eq!(decode_key("5"), Err(MalformedKey));
    assert_eq!(decode_key("+"), Err(MalformedKey));
    assert_eq!(decode_key("5+"), Err(MalformedKey));
    assert_eq!(decode_key("+6"), Err(MalformedKey));
    assert_eq!(decode_key("-+6"), Err(MalformedKey));
    assert_eq!(decode_key("5+-"), Err(MalformedKey));
}

#[test]
fn decode_key_rejects_a_third_part() {
    assert_eq!(decode_key("5+6+7"), Err(MalformedKey));
    assert_eq!(decode_key("5++6"), Err(MalformedKey));
    assert_eq!(decode_key("+5+6"), Err(MalformedKey));
}

#[test]
fn decode_key_rejects_what_is_no_digit() {
    assert_eq!(decode_key("a+b"), Err(MalformedKey));
    assert_eq!(decode_key("5 +6"), Err(MalformedKey));
    assert_eq!(decode_key("5+6 "), Err(MalformedKey));
    assert_eq!(decode_key("--5+1"), Err(MalformedKey));
    assert_eq!(decode_key("5-+1"), Err(MalformedKey));
    assert_eq!(decode_key("5,6"), Err(MalformedKey));
    assert_eq!(decode_key("\u{0665}+\u{0666}"), Err(MalformedKey));
}

#[test]
fn decoding_an_encoded_key_gives_the_cell_back() {
    let samples = vec![
        cell(0, 0),
        cell(5, 5),
        cell(9, 0),
        cell(0, 9),
        cell(15, 15),
        cell(-1, -1),
        cell(10, -10),
        cell(100, 1000),
        cell(i32::MAX, i32::MIN),
        cell(i32::MIN, i32::MAX),
    ];
    for sample in samples {
        assert_eq!(decode_key(&encode_key(sample)), Ok(sample));
    }
}

#[test]
fn every_key_of_a_board_decodes_to_its_cell() {
    for row in 0..16 {
        for col in 0..16 {
            let key = encode_key(cell(row, col));
            assert_eq!(key, format!("{}+{}", row, col));
            assert_eq!(decode_key(&key), Ok(cell(row, col)));
        }
    }
}

#[test]
fn is_cell_in_snake_finds_the_cells_of_the_snake() {
    let snake = Snake::from_cells(vec![cell(5, 5), cell(5, 6), cell(4, 6)]).unwrap();
    assert_eq!(is_cell_in_snake(&snake, "5+5"), Ok(true));
    assert_eq!(is_cell_in_snake(&snake, "5+6"), Ok(true));
    assert_eq!(is_cell_in_snake(&snake, "4+6"), Ok(true));
    assert_eq!(is_cell_in_snake(&snake, "6+4"), Ok(false));
    assert_eq!(is_cell_in_snake(&snake, "0+0"), Ok(false));
}

#[test]
fn is_cell_in_snake_rejects_a_malformed_key() {
    let snake = Snake::new(cell(5, 5));
    assert_eq!(is_cell_in_snake(&snake, "5"), Err(MalformedKey));
    assert_eq!(is_cell_in_snake(&snake, "five+five"), Err(MalformedKey));
}
