//! Grid geometry: cells and the bounds test.

use vstd::prelude::*;

verus! {

/// A position on the board. Two cells are equal when their coordinates are.
#[derive(Clone, Copy, Debug, PartialEq, Eq, Structural)]
pub struct Cell {
    pub row: i32,
    pub col: i32,
}

/// A cell lies on a `width` x `height` board when `0 <= row < height` and
/// `0 <= col < width`.
pub open spec fn cell_in_bounds(cell: Cell, width: int, height: int) -> bool {
    0 <= cell.row < height && 0 <= cell.col < width
}

/// Whether `cell` lies on a board of the given size.
pub fn in_bounds(cell: Cell, width: i32, height: i32) -> (inside: bool)
    ensures
        inside == cell_in_bounds(cell, width as int, height as int),
{
    0 <= cell.row && cell.row < height && 0 <= cell.col && cell.col < width
}

} // verus!
