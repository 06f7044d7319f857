//! The snake body: an ordered, never empty sequence of cells. Index 0 is the
//! tail and the last index is the head.

use vstd::prelude::*;
use crate::direction::direction_between;
use crate::grid::{cell_in_bounds, in_bounds, Cell};

verus! {

/// Two cells are adjacent when they share an edge.
pub open spec fn adjacent(a: Cell, b: Cell) -> bool {
    ||| a.row == b.row && (a.col - b.col == 1 || b.col - a.col == 1)
    ||| a.col == b.col && (a.row - b.row == 1 || b.row - a.row == 1)
}

/// Every cell of the body touches the next one.
pub open spec fn connected(cells: Seq<Cell>) -> bool {
    forall|i: int, j: int|
        0 <= i && j == i + 1 && j < cells.len() ==> adjacent(#[trigger] cells[i], #[trigger] cells[j])
}

/// Every cell of the body lies on the board.
pub open spec fn all_in_bounds(cells: Seq<Cell>, width: int, height: int) -> bool {
    forall|i: int| 0 <= i < cells.len() ==> cell_in_bounds(#[trigger] cells[i], width, height)
}

/// The body after a move without growth: the tail leaves, `new_head` joins.
pub open spec fn advanced(cells: Seq<Cell>, new_head: Cell) -> Seq<Cell> {
    cells.skip(1).push(new_head)
}

/// The body after a move with growth: as `advanced`, with `new_tail` put in
/// front of the tail.
pub open spec fn grown(cells: Seq<Cell>, new_head: Cell, new_tail: Cell) -> Seq<Cell> {
    seq![new_tail] + advanced(cells, new_head)
}

/// Some cell occurs twice in the body.
pub open spec fn has_duplicates(cells: Seq<Cell>) -> bool {
    exists|i: int, j: int| 0 <= i < j < cells.len() && #[trigger] cells[i] == #[trigger] cells[j]
}

/// The body of the snake.
#[derive(Debug, PartialEq, Eq)]
pub struct Snake {
    cells: Vec<Cell>,
}

impl View for Snake {
    type V = Seq<Cell>;

    closed spec fn view(&self) -> Seq<Cell> {
        self.cells@
    }
}

impl Snake {
    /// A snake always has a head.
    pub open spec fn wf(&self) -> bool {
        self@.len() >= 1
    }

    /// A snake of one cell.
    pub fn new(head: Cell) -> (snake: Snake)
        ensures
            snake.wf(),
            snake@ == seq![head],
    {
        let mut cells: Vec<Cell> = Vec::new();
        cells.push(head);
        Snake { cells }
    }

    /// A snake with the given cells, tail first. There is none without cells.
    pub fn from_cells(cells: Vec<Cell>) -> (made: Option<Snake>)
        ensures
            made is Some <==> cells@.len() >= 1,
            made matches Some(snake) ==> snake.wf() && snake@ == cells@,
    {
        if cells.len() == 0 {
            None
        } else {
            Some(Snake { cells })
        }
    }

    /// The cells of the body, tail first.
    pub fn cells(&self) -> (cells: &Vec<Cell>)
        ensures
            cells@ == self@,
    {
        &self.cells
    }

    /// The number of cells of the body.
    pub fn len(&self) -> (n: usize)
        ensures
            n == self@.len(),
    {
        self.cells.len()
    }

    /// The most recently added cell.
    pub fn head(&self) -> (cell: Cell)
        requires
            self.wf(),
        ensures
            cell == self@.last(),
    {
        self.cells[self.cells.len() - 1]
    }

    /// The least recently added cell.
    pub fn tail(&self) -> (cell: Cell)
        requires
            self.wf(),
        ensures
            cell == self@.first(),
    {
        self.cells[0]
    }

    /// Whether `cell` is part of the body.
    pub fn occupies(&self, cell: Cell) -> (found: bool)
        ensures
            found == self@.contains(cell),
    {
        let mut i: usize = 0;
        while i < self.cells.len()
            invariant
                i <= self.cells.len(),
                forall|k: int| 0 <= k < i ==> self.cells@[k] != cell,
            decreases self.cells.len() - i,
        {
            if self.cells[i] == cell {
                return true;
            }
            i += 1;
        }
        false
    }

    /// Whether every cell of the body lies on a board of the given size.
    pub fn within(&self, width: i32, height: i32) -> (inside: bool)
        ensures
            inside == all_in_bounds(self@, width as int, height as int),
    {
        let mut i: usize = 0;
        while i < self.cells.len()
            invariant
                i <= self.cells.len(),
                forall|k: int|
                    0 <= k < i ==> cell_in_bounds(
                        #[trigger] self.cells@[k],
                        width as int,
                        height as int,
                    ),
            decreases self.cells.len() - i,
        {
            if !in_bounds(self.cells[i], width, height) {
                return false;
            }
            i += 1;
        }
        true
    }

    /// Whether every cell of the body touches the next one.
    pub fn is_connected(&self) -> (joined: bool)
        ensures
            joined == connected(self@),
    {
        let mut i: usize = 1;
        while i < self.cells.len()
            invariant
                1 <= i,
                forall|a: int, b: int|
                    0 <= a && b == a + 1 && b < i && b < self.cells.len() ==> adjacent(
                        #[trigger] self.cells@[a],
                        #[trigger] self.cells@[b],
                    ),
            decreases self.cells.len() - i,
        {
            if direction_between(self.cells[i - 1], self.cells[i]).is_none() {
                assert(!adjacent(self.cells@[i - 1], self.cells@[i as int]));
                return false;
            }
            i += 1;
        }
        true
    }

    /// Moves without growing: drops the tail and makes `new_head` the head.
    pub fn advance(&mut self, new_head: Cell)
        requires
            old(self).wf(),
        ensures
            final(self).wf(),
            final(self)@ == advanced(old(self)@, new_head),
            final(self)@.len() == old(self)@.len(),
    {
        self.cells.remove(0);
        self.cells.push(new_head);
        assert(self.cells@ =~= advanced(old(self)@, new_head));
    }

    /// Moves and grows by one cell: `new_tail` takes the place of the tail
    /// and `new_head` becomes the head.
    pub fn grow(&mut self, new_head: Cell, new_tail: Cell)
        requires
            old(self).wf(),
        ensures
            final(self).wf(),
            final(self)@ == grown(old(self)@, new_head, new_tail),
            final(self)@.len() == old(self)@.len() + 1,
    {
        self.cells.set(0, new_tail);
        self.cells.push(new_head);
        assert(self.cells@ =~= grown(old(self)@, new_head, new_tail));
    }

    /// Whether some cell occurs twice in the body.
    pub fn self_collides(&self) -> (hit: bool)
        ensures
            hit == has_duplicates(self@),
    {
        let len = self.cells.len();
        let mut i: usize = 0;
        while i < len
            invariant
                len == self.cells.len(),
                i <= len,
                forall|a: int, b: int| 0 <= a < i && a < b < len ==> self.cells@[a] != self.cells@[b],
            decreases len - i,
        {
            let mut j: usize = i + 1;
            while j < len
                invariant
                    len == self.cells.len(),
                    i < len,
                    i < j <= len,
                    forall|a: int, b: int|
                        0 <= a < i && a < b < len ==> self.cells@[a] != self.cells@[b],
                    forall|b: int| i < b < j ==> self.cells@[i as int] != self.cells@[b],
                decreases len - j,
            {
                if self.cells[i] == self.cells[j] {
                    return true;
                }
                j += 1;
            }
            i += 1;
        }
        false
    }
}

/// A body has duplicates exactly when it is not duplicate free.
pub proof fn lemma_duplicates_iff(cells: Seq<Cell>)
    ensures
        has_duplicates(cells) <==> !cells.no_duplicates(),
{
    if !cells.no_duplicates() {
        let (i, j) = choose|i: int, j: int|
            0 <= i < cells.len() && 0 <= j < cells.len() && i != j && cells[i] == cells[j];
        if i < j {
            assert(cells[i] == cells[j]);
        } else {
            assert(cells[j] == cells[i]);
        }
    }
}

} // verus!
