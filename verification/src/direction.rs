//! Headings, single-cell moves, and the controller that validates proposed
//! heading changes.
//!
//! The controller keeps one pending slot: between two ticks the latest
//! accepted proposal replaces any earlier one, and the next tick consumes it.

use vstd::prelude::*;
use crate::grid::Cell;

verus! {

/// One of the four headings on the board. Rows grow downwards and columns
/// grow to the right.
#[derive(Clone, Copy, Debug, PartialEq, Eq, Structural)]
pub enum Direction {
    Up,
    Down,
    Left,
    Right,
}

impl Direction {
    /// The heading a new game starts with.
    pub fn default() -> (direction: Self)
        ensures
            direction == Direction::Left,
    {
        Direction::Left
    }

    /// The heading that points the other way: up and down are opposites, and
    /// so are left and right.
    pub open spec fn spec_opposite(self) -> Direction {
        match self {
            Direction::Up => Direction::Down,
            Direction::Down => Direction::Up,
            Direction::Left => Direction::Right,
            Direction::Right => Direction::Left,
        }
    }

    #[verifier::when_used_as_spec(spec_opposite)]
    pub fn opposite(self) -> (other: Direction)
        ensures
            other == self.spec_opposite(),
    {
        match self {
            Direction::Up => Direction::Down,
            Direction::Down => Direction::Up,
            Direction::Left => Direction::Right,
            Direction::Right => Direction::Left,
        }
    }

    /// Change of the row coordinate made by one move in this heading.
    pub open spec fn row_delta(self) -> int {
        match self {
            Direction::Up => -1,
            Direction::Down => 1,
            Direction::Left => 0,
            Direction::Right => 0,
        }
    }

    /// Change of the column coordinate made by one move in this heading.
    pub open spec fn col_delta(self) -> int {
        match self {
            Direction::Up => 0,
            Direction::Down => 0,
            Direction::Left => -1,
            Direction::Right => 1,
        }
    }
}

/// Whether the cell one move from `from` in heading `direction` still has
/// coordinates that fit the coordinate type.
pub open spec fn move_fits(from: Cell, direction: Direction) -> bool {
    &&& i32::MIN <= from.row + direction.row_delta() <= i32::MAX
    &&& i32::MIN <= from.col + direction.col_delta() <= i32::MAX
}

/// The cell one move from `from` in heading `direction`.
pub open spec fn moved(from: Cell, direction: Direction) -> Cell {
    Cell {
        row: (from.row + direction.row_delta()) as i32,
        col: (from.col + direction.col_delta()) as i32,
    }
}

/// The cell to the left of `head`.
pub fn move_left(head: Cell) -> (next: Cell)
    requires
        move_fits(head, Direction::Left),
    ensures
        next == moved(head, Direction::Left),
{
    Cell { row: head.row, col: head.col - 1 }
}

/// The cell to the right of `head`.
pub fn move_right(head: Cell) -> (next: Cell)
    requires
        move_fits(head, Direction::Right),
    ensures
        next == moved(head, Direction::Right),
{
    Cell { row: head.row, col: head.col + 1 }
}

/// The cell above `head`.
pub fn move_up(head: Cell) -> (next: Cell)
    requires
        move_fits(head, Direction::Up),
    ensures
        next == moved(head, Direction::Up),
{
    Cell { row: head.row - 1, col: head.col }
}

/// The cell below `head`.
pub fn move_down(head: Cell) -> (next: Cell)
    requires
        move_fits(head, Direction::Down),
    ensures
        next == moved(head, Direction::Down),
{
    Cell { row: head.row + 1, col: head.col }
}

/// The cell one move from `head` in heading `direction`.
pub fn move_head(head: Cell, direction: Direction) -> (next: Cell)
    requires
        move_fits(head, direction),
    ensures
        next == moved(head, direction),
{
    match direction {
        Direction::Up => move_up(head),
        Direction::Down => move_down(head),
        Direction::Left => move_left(head),
        Direction::Right => move_right(head),
    }
}

/// The heading that leads from `from` to `to`, if the two cells share an edge.
pub open spec fn heading_between(from: Cell, to: Cell) -> Option<Direction> {
    if to.col == from.col && to.row == from.row - 1 {
        Some(Direction::Up)
    } else if to.col == from.col && to.row == from.row + 1 {
        Some(Direction::Down)
    } else if to.row == from.row && to.col == from.col - 1 {
        Some(Direction::Left)
    } else if to.row == from.row && to.col == from.col + 1 {
        Some(Direction::Right)
    } else {
        None
    }
}

/// The heading that leads from `from` to `to`, if the two cells share an edge.
pub fn direction_between(from: Cell, to: Cell) -> (heading: Option<Direction>)
    ensures
        heading == heading_between(from, to),
        heading matches Some(direction) ==> move_fits(from, direction) && moved(from, direction) == to,
{
    if to.col == from.col && from.row > i32::MIN && to.row == from.row - 1 {
        Some(Direction::Up)
    } else if to.col == from.col && from.row < i32::MAX && to.row == from.row + 1 {
        Some(Direction::Down)
    } else if to.row == from.row && from.col > i32::MIN && to.col == from.col - 1 {
        Some(Direction::Left)
    } else if to.row == from.row && from.col < i32::MAX && to.col == from.col + 1 {
        Some(Direction::Right)
    } else {
        None
    }
}

/// Moving one way and then the opposite way returns to the start.
pub proof fn lemma_move_there_and_back(from: Cell, direction: Direction)
    requires
        move_fits(from, direction),
    ensures
        move_fits(moved(from, direction), direction.spec_opposite()),
        moved(moved(from, direction), direction.spec_opposite()) == from,
{
}

/// Why a proposed heading was refused: it reverses the latest accepted
/// heading of a snake longer than one cell.
#[derive(Clone, Copy, Debug, PartialEq, Eq, Structural)]
pub struct Rejected;

/// Holds the heading of the latest move and the heading proposed for the
/// next one. The pending slot holds one proposal: a later accepted proposal
/// replaces an earlier one, and the next move consumes it.
#[derive(Clone, Copy, Debug, PartialEq, Eq, Structural)]
pub struct DirectionController {
    pub heading: Direction,
    pub pending: Option<Direction>,
}

impl DirectionController {
    /// The heading accepted last: the pending one if there is one, else the
    /// heading of the latest move.
    pub open spec fn last_accepted(self) -> Direction {
        match self.pending {
            Some(direction) => direction,
            None => self.heading,
        }
    }

    /// A proposal is an illegal reversal when it is the opposite of the
    /// heading accepted last and the snake is longer than one cell.
    pub open spec fn is_reversal(self, direction: Direction, snake_len: nat) -> bool {
        direction == self.last_accepted().spec_opposite() && snake_len > 1
    }

    /// A controller that heads `heading` with nothing pending.
    pub fn new(heading: Direction) -> (controller: DirectionController)
        ensures
            controller.heading == heading,
            controller.pending is None,
    {
        DirectionController { heading, pending: None }
    }

    /// Proposes `direction` for the next move of a snake of `snake_len`
    /// cells. An illegal reversal is rejected and changes nothing; any other
    /// proposal becomes the pending heading.
    pub fn propose(&mut self, direction: Direction, snake_len: usize) -> (outcome: Result<(), Rejected>)
        ensures
            outcome is Err <==> old(self).is_reversal(direction, snake_len as nat),
            outcome is Err ==> *final(self) == *old(self),
            outcome is Ok ==> final(self).heading == old(self).heading && final(self).pending == Some(
                direction,
            ),
    {
        let last = match self.pending {
            Some(pending) => pending,
            None => self.heading,
        };
        if direction == last.opposite() && snake_len > 1 {
            Err(Rejected)
        } else {
            self.pending = Some(direction);
            Ok(())
        }
    }

    /// Takes the heading for the next move: the pending one if there is one,
    /// else the heading of the latest move. It becomes the heading, and
    /// nothing is pending afterwards.
    pub fn take_next(&mut self) -> (direction: Direction)
        ensures
            direction == old(self).last_accepted(),
            final(self).heading == direction,
            final(self).pending is None,
    {
        let direction = match self.pending {
            Some(pending) => pending,
            None => self.heading,
        };
        self.heading = direction;
        self.pending = None;
        direction
    }
}

} // verus!
