use snake_game::food::{place, spawn, unoccupied_cells};
use snake_game::grid::{in_bounds, Cell};
use snake_game::snake::Snake;

fn p(row: i32, col: i32) -> Cell {
    Cell { row, col }
}

fn snake_of(cells: Vec<(i32, i32)>) -> Snake {
    let cells = cells.into_iter().map(|(row, col)| p(row, col)).collect();
    Snake::from_cells(cells).unwrap()
}

#[test]
fn unoccupied_cells_go_row_by_row() {
    let snake = snake_of(vec![(0, 1), (1, 1)]);
    assert_eq!(
        unoccupied_cells(&snake, 3, 2),
        vec![p(0, 0), p(0, 2), p(1, 0), p(1, 2)]
    );
}

#[test]
fn unoccupied_cells_tell_width_from_height() {
    let snake = Snake::new(p(0, 0));
    assert_eq!(unoccupied_cells(&snake, 1, 3), vec![p(1, 0), p(2, 0)]);
    assert_eq!(unoccupied_cells(&snake, 3, 1), vec![p(0, 1), p(0, 2)]);
}

#[test]
fn unoccupied_cells_of_a_full_board_are_none() {
    let snake = snake_of(vec![(0, 0), (0, 1), (1, 1), (1, 0)]);
    assert_eq!(unoccupied_cells(&snake, 2, 2), vec![]);
}

#[test]
fn unoccupied_cells_of_a_board_without_cells_are_none() {
    let snake = Snake::new(p(0, 0));
    assert_eq!(unoccupied_cells(&snake, 0, 5), vec![]);
    assert_eq!(unoccupied_cells(&snake, 5, 0), vec![]);
    assert_eq!(unoccupied_cells(&snake, -3, 5), vec![]);
}

#[test]
fn unoccupied_cells_ignore_a_snake_off_the_board() {
    let snake = snake_of(vec![(7, 7), (7, 8)]);
    assert_eq!(
        unoccupied_cells(&snake, 2, 2),
        vec![p(0, 0), p(0, 1), p(1, 0), p(1, 1)]
    );
}

#[test]
fn unoccupied_cells_count_the_board_less_the_snake() {
    let snake = snake_of(vec![(5, 5), (5, 6), (5, 7)]);
    let free = unoccupied_cells(&snake, 10, 10);
    assert_eq!(free.len(), 97);
    assert_eq!(free[0], p(0, 0));
    assert_eq!(free[96], p(9, 9));
    assert_eq!(free[54], p(5, 4));
    assert_eq!(free[55], p(5, 8));
}

#[test]
fn place_selects_the_free_cell_at_the_index() {
    let snake = snake_of(vec![(0, 1), (1, 1)]);
    assert_eq!(place(&snake, 3, 2, 0), Some(p(0, 0)));
    assert_eq!(place(&snake, 3, 2, 1), Some(p(0, 2)));
    assert_eq!(place(&snake, 3, 2, 2), Some(p(1, 0)));
    assert_eq!(place(&snake, 3, 2, 3), Some(p(1, 2)));
}

#[test]
fn place_wraps_the_index_around() {
    let snake = snake_of(vec![(0, 1), (1, 1)]);
    assert_eq!(place(&snake, 3, 2, 4), Some(p(0, 0)));
    assert_eq!(place(&snake, 3, 2, 7), Some(p(1, 2)));
    assert_eq!(place(&snake, 3, 2, 1001), Some(p(0, 2)));
    assert_eq!(place(&snake, 3, 2, usize::MAX), Some(p(1, 2)));
}

#[test]
fn place_finds_nothing_on_a_full_board() {
    let snake = snake_of(vec![(0, 0), (0, 1), (1, 1), (1, 0)]);
    assert_eq!(place(&snake, 2, 2, 0), None);
    assert_eq!(place(&snake, 2, 2, 17), None);
}

#[test]
fn spawn_finds_nothing_on_a_full_board() {
    let snake = snake_of(vec![(0, 0), (0, 1), (1, 1), (1, 0)]);
    assert_eq!(spawn(&snake, 2, 2), None);
    assert_eq!(spawn(&Snake::new(p(0, 0)), 1, 1), None);
}

#[test]
fn spawn_finds_the_only_free_cell() {
    let snake = snake_of(vec![(0, 0), (0, 1), (1, 1)]);
    for _ in 0..50 {
        assert_eq!(spawn(&snake, 2, 2), Some(p(1, 0)));
    }
}

#[test]
fn spawn_never_lands_on_the_snake_or_off_the_board() {
    let snake = snake_of(vec![(1, 1), (1, 2), (1, 3), (2, 3), (2, 2), (2, 1)]);
    for _ in 0..500 {
        let food = spawn(&snake, 4, 4).unwrap();
        assert!(in_bounds(food, 4, 4));
        assert!(!snake.occupies(food));
    }
}

#[test]
fn spawn_reaches_every_free_cell() {
    let snake = snake_of(vec![(0, 0), (0, 1)]);
    let free = unoccupied_cells(&snake, 2, 2);
    let mut seen = vec![false; free.len()];
    for _ in 0..400 {
        let food = spawn(&snake, 2, 2).unwrap();
        let index = free.iter().position(|cell| *cell == food).unwrap();
        seen[index] = true;
    }
    assert_eq!(seen, vec![true, true]);
}
