//! Food placement: the next food cell is drawn from the list of cells that
//! the snake does not occupy, so that placing food ends on every board.

use rand::Rng;
use vstd::prelude::*;
use vstd::arithmetic::div_mod::{lemma_fundamental_div_mod_converse, lemma_small_mod};
use crate::grid::{cell_in_bounds, Cell};
use crate::snake::Snake;

verus! {

/// All cells of a `width` x `height` board, row by row, each row from left
/// to right. A board without rows or columns has none.
pub open spec fn board_cells(width: int, height: int) -> Seq<Cell> {
    if width <= 0 || height <= 0 {
        Seq::empty()
    } else {
        Seq::new((width * height) as nat, |k: int| Cell { row: (k / width) as i32, col: (k % width) as i32 })
    }
}

/// The test that keeps the cells outside `occupied`.
pub open spec fn is_unoccupied(occupied: Seq<Cell>) -> spec_fn(Cell) -> bool {
    |cell: Cell| !occupied.contains(cell)
}

/// The cells of the board outside `occupied`, in the order of `board_cells`.
pub open spec fn free_cells(occupied: Seq<Cell>, width: int, height: int) -> Seq<Cell> {
    board_cells(width, height).filter(is_unoccupied(occupied))
}

/// The food cell that choice number `pick` selects: the free cell at index
/// `pick` modulo the number of free cells, or none on a full board.
pub open spec fn placed(occupied: Seq<Cell>, width: int, height: int, pick: nat) -> Option<Cell> {
    let free = free_cells(occupied, width, height);
    if free.len() == 0 {
        None
    } else {
        Some(free[pick as int % free.len() as int])
    }
}

/// What a filter keeps was in the sequence and passes the test.
proof fn lemma_filter_keeps_members(cells: Seq<Cell>, test: spec_fn(Cell) -> bool, cell: Cell)
    requires
        cells.filter(test).contains(cell),
    ensures
        cells.contains(cell),
        test(cell),
    decreases cells.len(),
{
    reveal(Seq::filter);
    if cells.len() > 0 {
        let kept = cells.drop_last().filter(test);
        if test(cells.last()) && cell == cells.last() {
            assert(cells[cells.len() - 1] == cell);
        } else {
            let i = choose|i: int| 0 <= i < cells.filter(test).len() && cells.filter(test)[i] == cell;
            if test(cells.last()) {
                assert(kept.push(cells.last())[i] == cell);
                assert(i < kept.len());
            }
            assert(kept[i] == cell);
            lemma_filter_keeps_members(cells.drop_last(), test, cell);
            let j = choose|j: int| 0 <= j < cells.drop_last().len() && cells.drop_last()[j] == cell;
            assert(cells[j] == cell);
        }
    }
}

/// The board holds exactly the cells in bounds.
pub proof fn lemma_board_cells(width: int, height: int, cell: Cell)
    requires
        width <= i32::MAX,
        height <= i32::MAX,
    ensures
        board_cells(width, height).contains(cell) <==> cell_in_bounds(cell, width, height),
{
    let board = board_cells(width, height);
    if width > 0 && height > 0 {
        if cell_in_bounds(cell, width, height) {
            let k = cell.row * width + cell.col;
            assert(0 <= k < width * height) by (nonlinear_arith)
                requires
                    0 <= cell.row < height,
                    0 <= cell.col < width,
                    k == cell.row * width + cell.col,
            ;
            lemma_fundamental_div_mod_converse(k, width, cell.row as int, cell.col as int);
            assert(board[k] == cell);
        }
        if board.contains(cell) {
            let k = choose|k: int| 0 <= k < board.len() && board[k] == cell;
            assert(0 <= k / width < height && 0 <= k % width < width) by (nonlinear_arith)
                requires
                    0 <= k < width * height,
                    width > 0,
            ;
        }
    }
}

/// The free cells are exactly the cells in bounds that `occupied` lacks.
pub proof fn lemma_free_cells(occupied: Seq<Cell>, width: int, height: int, cell: Cell)
    requires
        width <= i32::MAX,
        height <= i32::MAX,
    ensures
        free_cells(occupied, width, height).contains(cell) <==> cell_in_bounds(cell, width, height)
            && !occupied.contains(cell),
{
    let board = board_cells(width, height);
    let test = is_unoccupied(occupied);
    lemma_board_cells(width, height, cell);
    if board.filter(test).contains(cell) {
        lemma_filter_keeps_members(board, test, cell);
    }
    if board.contains(cell) && test(cell) {
        let k = choose|k: int| 0 <= k < board.len() && board[k] == cell;
        board.lemma_filter_contains(test, k);
    }
}

/// What `placed` selects lies on the board and outside `occupied`, and it
/// selects a cell whenever the board has a free one.
pub proof fn lemma_placed(occupied: Seq<Cell>, width: int, height: int, pick: nat)
    requires
        width <= i32::MAX,
        height <= i32::MAX,
    ensures
        placed(occupied, width, height, pick) is None <==> free_cells(occupied, width, height).len() == 0,
        placed(occupied, width, height, pick) matches Some(cell) ==> cell_in_bounds(cell, width, height)
            && !occupied.contains(cell),
{
    let free = free_cells(occupied, width, height);
    if free.len() > 0 {
        let index = pick as int % free.len() as int;
        assert(free.contains(free[index]));
        lemma_free_cells(occupied, width, height, free[index]);
    }
}

/// The cells of the board that the snake does not occupy, row by row.
pub fn unoccupied_cells(snake: &Snake, width: i32, height: i32) -> (free: Vec<Cell>)
    ensures
        free@ == free_cells(snake@, width as int, height as int),
{
    let mut free: Vec<Cell> = Vec::new();
    if width <= 0 || height <= 0 {
        proof {
            reveal(Seq::filter);
        }
        return free;
    }
    let ghost board = board_cells(width as int, height as int);
    let ghost test = is_unoccupied(snake@);
    let mut row: i32 = 0;
    proof {
        reveal(Seq::filter);
        assert(board.take(0) =~= Seq::<Cell>::empty());
    }
    while row < height
        invariant
            0 < width,
            0 < height,
            0 <= row <= height,
            board == board_cells(width as int, height as int),
            test == is_unoccupied(snake@),
            0 <= row * width <= board.len(),
            free@ == board.take(row * width).filter(test),
        decreases height - row,
    {
        let mut col: i32 = 0;
        proof {
            assert((row + 1) * width <= height * width) by (nonlinear_arith)
                requires
                    row + 1 <= height,
                    0 < width,
            ;
            assert((row + 1) * width == row * width + width) by (nonlinear_arith);
        }
        while col < width
            invariant
                0 < width,
                0 <= row < height,
                0 <= col <= width,
                board == board_cells(width as int, height as int),
                test == is_unoccupied(snake@),
                0 <= row * width,
                row * width + width <= board.len(),
                free@ == board.take(row * width + col).filter(test),
            decreases width - col,
        {
            let cell = Cell { row, col };
            let occupied = snake.occupies(cell);
            proof {
                let k = row * width + col;
                lemma_fundamental_div_mod_converse(k, width as int, row as int, col as int);
                assert(board[k] == cell);
                assert(board.take(k + 1).drop_last() =~= board.take(k));
                assert(board.take(k + 1).last() == cell);
                reveal(Seq::filter);
            }
            if !occupied {
                free.push(cell);
            }
            col += 1;
        }
        row += 1;
    }
    proof {
        assert(row * width == board.len()) by (nonlinear_arith)
            requires
                row == height,
                board.len() == width * height,
        ;
        assert(board.take(board.len() as int) =~= board);
    }
    free
}

/// The food cell that choice number `pick` selects among the cells that the
/// snake does not occupy.
pub fn place(snake: &Snake, width: i32, height: i32, pick: usize) -> (food: Option<Cell>)
    ensures
        food == placed(snake@, width as int, height as int, pick as nat),
{
    let free = unoccupied_cells(snake, width, height);
    if free.len() == 0 {
        None
    } else {
        Some(free[pick % free.len()])
    }
}

/// Calls `rand::Rng::gen_range` with the range `0..bound` on the generator
/// that `rand::thread_rng` hands out. Taken on trust, not proved: the number
/// drawn is below `bound`. Nothing is said of which number it is. An empty
/// range makes the outside function panic, so `bound` must be positive.
#[verifier::external_body]
fn random_below(bound: usize) -> (index: usize)
    requires
        bound > 0,
    ensures
        index < bound,
{
    rand::thread_rng().gen_range(0..bound)
}

/// A food cell drawn at random, each free cell being as likely as any
/// other; none on a full board.
pub fn spawn(snake: &Snake, width: i32, height: i32) -> (food: Option<Cell>)
    ensures
        food is None <==> free_cells(snake@, width as int, height as int).len() == 0,
        food matches Some(cell) ==> cell_in_bounds(cell, width as int, height as int)
            && !snake@.contains(cell),
        exists|pick: nat| food == placed(snake@, width as int, height as int, pick),
{
    let free = unoccupied_cells(snake, width, height);
    if free.len() == 0 {
        assert(placed(snake@, width as int, height as int, 0) is None);
        None
    } else {
        let index = random_below(free.len());
        proof {
            lemma_placed(snake@, width as int, height as int, index as nat);
            lemma_small_mod(index as nat, free@.len());
            assert(placed(snake@, width as int, height as int, index as nat) == Some(free@[index as int]));
        }
        Some(free[index])
    }
}

} // verus!
