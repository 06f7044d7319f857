use snake_game::grid::Cell;
use snake_game::snake::Snake;

fn c(row: i32, col: i32) -> Cell {
    Cell { row, col }
}

fn body(cells: Vec<(i32, i32)>) -> Snake {
    let cells = cells.into_iter().map(|(row, col)| c(row, col)).collect();
    Snake::from_cells(cells).unwrap()
}

#[test]
fn new_snake_has_one_cell() {
    let snake = Snake::new(c(5, 5));
    assert_eq!(snake.len(), 1);
    assert_eq!(snake.cells(), &vec![c(5, 5)]);
    assert_eq!(snake.head(), c(5, 5));
    assert_eq!(snake.tail(), c(5, 5));
}

#[test]
fn from_cells_refuses_an_empty_body() {
    assert_eq!(Snake::from_cells(vec![]), None);
}

#[test]
fn from_cells_keeps_the_cells_in_order() {
    let snake = Snake::from_cells(vec![c(1, 1), c(1, 2), c(1, 3)]).unwrap();
    assert_eq!(snake.cells(), &vec![c(1, 1), c(1, 2), c(1, 3)]);
    assert_eq!(snake.len(), 3);
}

#[test]
fn head_is_last_and_tail_is_first() {
    let snake = body(vec![(1, 1), (1, 2), (1, 3)]);
    assert_eq!(snake.tail(), c(1, 1));
    assert_eq!(snake.head(), c(1, 3));
}

#[test]
fn occupies_scans_the_whole_body() {
    let snake = body(vec![(1, 1), (1, 2), (1, 3)]);
    assert!(snake.occupies(c(1, 1)));
    assert!(snake.occupies(c(1, 2)));
    assert!(snake.occupies(c(1, 3)));
    assert!(!snake.occupies(c(1, 4)));
    assert!(!snake.occupies(c(2, 1)));
    assert!(!snake.occupies(c(3, 1)));
}

#[test]
fn advance_drops_the_tail_and_adds_the_head() {
    let mut snake = body(vec![(1, 1), (1, 2), (1, 3)]);
    snake.advance(c(1, 4));
    assert_eq!(snake.cells(), &vec![c(1, 2), c(1, 3), c(1, 4)]);
    assert_eq!(snake.len(), 3);
}

#[test]
fn advance_moves_a_snake_of_one_cell() {
    let mut snake = Snake::new(c(5, 5));
    snake.advance(c(5, 4));
    assert_eq!(snake.cells(), &vec![c(5, 4)]);
}

#[test]
fn grow_adds_exactly_one_cell() {
    let mut snake = body(vec![(1, 1), (1, 2), (1, 3)]);
    let before = snake.len();
    snake.grow(c(1, 4), c(1, 1));
    assert_eq!(snake.len(), before + 1);
    assert_eq!(snake.cells(), &vec![c(1, 1), c(1, 2), c(1, 3), c(1, 4)]);
}

#[test]
fn grow_puts_the_new_tail_in_front() {
    let mut snake = body(vec![(1, 1), (1, 2), (1, 3)]);
    snake.grow(c(1, 4), c(2, 2));
    assert_eq!(snake.cells(), &vec![c(2, 2), c(1, 2), c(1, 3), c(1, 4)]);
    assert_eq!(snake.tail(), c(2, 2));
    assert_eq!(snake.head(), c(1, 4));
}

#[test]
fn grow_makes_two_cells_of_one() {
    let mut snake = Snake::new(c(5, 5));
    snake.grow(c(5, 6), c(5, 5));
    assert_eq!(snake.cells(), &vec![c(5, 5), c(5, 6)]);
}

#[test]
fn self_collides_is_false_for_distinct_cells() {
    assert!(!Snake::new(c(0, 0)).self_collides());
    assert!(!body(vec![(1, 1), (1, 2), (1, 3), (2, 3), (2, 2), (2, 1)]).self_collides());
}

#[test]
fn self_collides_finds_any_two_equal_cells() {
    assert!(body(vec![(1, 1), (1, 1)]).self_collides());
    assert!(body(vec![(1, 1), (1, 2), (1, 1)]).self_collides());
    assert!(body(vec![(1, 1), (1, 2), (1, 3), (1, 2)]).self_collides());
    assert!(body(vec![(0, 0), (1, 1), (1, 2), (2, 2), (2, 1), (1, 1)]).self_collides());
    assert!(body(vec![(0, 0), (0, 1), (0, 2), (0, 3), (0, 3)]).self_collides());
}

#[test]
fn within_tests_every_cell() {
    let snake = body(vec![(0, 0), (0, 1), (0, 2)]);
    assert!(snake.within(3, 1));
    assert!(snake.within(10, 10));
    assert!(!snake.within(2, 1));
    assert!(!snake.within(3, 0));
    assert!(!body(vec![(0, 0), (-1, 0)]).within(10, 10));
}

#[test]
fn is_connected_wants_neighbours_in_a_row() {
    assert!(Snake::new(c(5, 5)).is_connected());
    assert!(body(vec![(1, 1), (1, 2), (1, 3), (2, 3), (2, 2), (2, 1)]).is_connected());
    assert!(!body(vec![(1, 1), (1, 3)]).is_connected());
    assert!(!body(vec![(1, 1), (2, 2)]).is_connected());
    assert!(!body(vec![(1, 1), (1, 2), (3, 2)]).is_connected());
    assert!(!body(vec![(1, 1), (1, 1)]).is_connected());
}
