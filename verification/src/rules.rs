//! The rules of the game over a mathematical state: what one tick and one
//! proposal do, what every state of a game satisfies, and the laws that
//! follow.
//!
//! A game is won when a growth leaves no free cell on the board, if the
//! configuration asks for that win condition; without it a full board has
//! no food and the game goes on.

use vstd::prelude::*;
use crate::direction::{heading_between, move_fits, moved, Direction};
use crate::food::{free_cells, lemma_free_cells, lemma_placed, placed};
use crate::grid::{cell_in_bounds, Cell};
use crate::snake::{adjacent, advanced, all_in_bounds, connected, grown, has_duplicates};
use crate::speed::next_interval;

verus! {

/// How a game stands. `Lost` and `Won` are final.
#[derive(Clone, Copy, Debug, PartialEq, Eq, Structural)]
pub enum GameResult {
    InProgress,
    Lost,
    Won,
}

/// When a game counts as won.
#[derive(Clone, Copy, Debug, PartialEq, Eq, Structural)]
pub enum WinCondition {
    /// Never: a game only ends by being lost.
    Never,
    /// When the snake covers the whole board.
    FillBoard,
}

/// The options of a game.
#[derive(Clone, Copy, Debug, PartialEq, Eq, Structural)]
pub struct GameConfig {
    pub grid_width: i32,
    pub grid_height: i32,
    pub initial_interval_ms: u32,
    pub speed_step_ms: u32,
    pub speed_floor_ms: u32,
    pub win_condition: WinCondition,
}

impl GameConfig {
    /// A board has at least one cell, and a game does not start faster than
    /// its fastest speed.
    pub open spec fn valid(self) -> bool {
        &&& self.grid_width >= 1
        &&& self.grid_height >= 1
        &&& self.speed_floor_ms <= self.initial_interval_ms
    }
}

/// The state of a game as contracts see it.
pub struct GameState {
    pub config: GameConfig,
    /// The body of the snake, tail first.
    pub snake: Seq<Cell>,
    pub food: Option<Cell>,
    pub result: GameResult,
    pub interval_ms: u32,
    /// The heading of the latest move.
    pub heading: Direction,
    /// The heading accepted for the next move, if any.
    pub pending: Option<Direction>,
}

/// The cell put in front of the tail at a growth. It extends the tail of the
/// moved snake against the way the tail travelled: from the old tail to the
/// cell after it, or in heading `direction` for a snake of one cell.
pub open spec fn tail_extension(before: Seq<Cell>, new_head: Cell, direction: Direction) -> Cell {
    if before.len() <= 1 {
        moved(new_head, direction.spec_opposite())
    } else {
        match heading_between(before[0], before[1]) {
            Some(travel) => moved(before[1], travel.spec_opposite()),
            None => moved(before[1], direction.spec_opposite()),
        }
    }
}

impl GameState {
    pub open spec fn width(self) -> int {
        self.config.grid_width as int
    }

    pub open spec fn height(self) -> int {
        self.config.grid_height as int
    }

    /// The snake covers the whole board.
    pub open spec fn board_full(self) -> bool {
        free_cells(self.snake, self.width(), self.height()).len() == 0
    }

    /// What every state of a game satisfies.
    pub open spec fn wf(self) -> bool {
        &&& self.config.valid()
        &&& self.snake.len() >= 1
        &&& all_in_bounds(self.snake, self.width(), self.height())
        &&& connected(self.snake)
        &&& self.config.speed_floor_ms <= self.interval_ms <= self.config.initial_interval_ms
        &&& self.result == GameResult::InProgress ==> {
            &&& !has_duplicates(self.snake)
            &&& match self.food {
                Some(food) => cell_in_bounds(food, self.width(), self.height()) && !self.snake.contains(
                    food,
                ),
                None => self.board_full() && self.config.win_condition == WinCondition::Never,
            }
        }
        &&& self.result == GameResult::Won ==> {
            &&& self.board_full()
            &&& self.config.win_condition == WinCondition::FillBoard
        }
    }

    /// The heading of the next move: the pending one if there is one, else
    /// the heading of the latest move.
    pub open spec fn next_direction(self) -> Direction {
        match self.pending {
            Some(direction) => direction,
            None => self.heading,
        }
    }

    /// Where the next move takes the head.
    pub open spec fn next_head(self) -> Cell {
        moved(self.snake.last(), self.next_direction())
    }

    /// Whether a proposal of `direction` is an illegal reversal.
    pub open spec fn rejects(self, direction: Direction) -> bool {
        &&& self.result == GameResult::InProgress
        &&& direction == self.next_direction().spec_opposite()
        &&& self.snake.len() > 1
    }

    /// The state after a proposal of `direction`. A finished game ignores
    /// it, an illegal reversal loses the game at once, and any other
    /// proposal becomes the pending heading.
    pub open spec fn propose(self, direction: Direction) -> GameState {
        if self.result != GameResult::InProgress {
            self
        } else if self.rejects(direction) {
            GameState { result: GameResult::Lost, ..self }
        } else {
            GameState { pending: Some(direction), ..self }
        }
    }

    /// The state after one tick, where `pick` numbers the choice among the
    /// free cells should new food be placed.
    ///
    /// A finished game ignores the tick. Otherwise the next heading becomes
    /// the heading. A head that would leave the board loses the game and
    /// leaves the snake as it was. A moved snake that holds a cell twice
    /// loses the game and keeps the moved shape; the tail has left its cell
    /// by then, so the head may enter that cell. A head that reaches the
    /// food grows the snake by one cell, shortens the interval and places
    /// new food; a board left without a free cell has no food, and the game
    /// is won if the configuration says so.
    pub open spec fn step(self, pick: nat) -> GameState {
        if self.result != GameResult::InProgress {
            self
        } else {
            let direction = self.next_direction();
            let new_head = self.next_head();
            let turned = GameState { heading: direction, pending: None, ..self };
            if !cell_in_bounds(new_head, self.width(), self.height()) {
                GameState { result: GameResult::Lost, ..turned }
            } else if has_duplicates(advanced(self.snake, new_head)) {
                GameState {
                    result: GameResult::Lost,
                    snake: advanced(self.snake, new_head),
                    ..turned
                }
            } else if self.food == Some(new_head) {
                let snake = grown(
                    self.snake,
                    new_head,
                    tail_extension(self.snake, new_head, direction),
                );
                let food = placed(snake, self.width(), self.height(), pick);
                GameState {
                    snake,
                    food,
                    interval_ms: next_interval(
                        self.interval_ms as int,
                        self.config.speed_step_ms as int,
                        self.config.speed_floor_ms as int,
                    ) as u32,
                    result: if food is None && self.config.win_condition == WinCondition::FillBoard {
                        GameResult::Won
                    } else {
                        GameResult::InProgress
                    },
                    ..turned
                }
            } else {
                GameState { snake: advanced(self.snake, new_head), ..turned }
            }
        }
    }
}

/// The cell in the middle of the board, where the snake of a new game sits.
pub open spec fn board_centre(config: GameConfig) -> Cell {
    Cell { row: (config.grid_height / 2) as i32, col: (config.grid_width / 2) as i32 }
}

/// The state in which a game starts, where `pick` numbers the choice among
/// the free cells for the first food. A snake that covers the whole board
/// leaves no cell for food: the game then starts as won if the configuration
/// says so, and without food otherwise.
pub open spec fn start_state(
    config: GameConfig,
    snake: Seq<Cell>,
    heading: Direction,
    pick: nat,
) -> GameState {
    let food = placed(snake, config.grid_width as int, config.grid_height as int, pick);
    GameState {
        config,
        snake,
        food,
        result: if food is None && config.win_condition == WinCondition::FillBoard {
            GameResult::Won
        } else {
            GameResult::InProgress
        },
        interval_ms: config.initial_interval_ms,
        heading,
        pending: None,
    }
}

/// What a snake must satisfy to start a game on the board of `config`.
pub open spec fn snake_fits(config: GameConfig, snake: Seq<Cell>) -> bool {
    &&& snake.len() >= 1
    &&& all_in_bounds(snake, config.grid_width as int, config.grid_height as int)
    &&& connected(snake)
    &&& !has_duplicates(snake)
}

/// A game starts in a state of a game.
pub proof fn lemma_start_state_wf(config: GameConfig, snake: Seq<Cell>, heading: Direction, pick: nat)
    requires
        config.valid(),
        snake_fits(config, snake),
    ensures
        start_state(config, snake, heading, pick).wf(),
{
    lemma_placed(snake, config.grid_width as int, config.grid_height as int, pick);
}

/// A move from a cell on the board stays within the coordinate type and
/// ends on a cell next to it.
pub proof fn lemma_move_on_board(from: Cell, direction: Direction, width: int, height: int)
    requires
        cell_in_bounds(from, width, height),
        width <= i32::MAX,
        height <= i32::MAX,
    ensures
        move_fits(from, direction),
        adjacent(from, moved(from, direction)),
        heading_between(from, moved(from, direction)) == Some(direction),
{
}

/// At a growth the cell put in front of the tail is the cell that the tail
/// left: the grown snake is the old snake with the new head added.
pub proof fn lemma_grown_keeps_tail(before: Seq<Cell>, direction: Direction, width: int, height: int)
    requires
        before.len() >= 1,
        all_in_bounds(before, width, height),
        connected(before),
        width <= i32::MAX,
        height <= i32::MAX,
    ensures
        tail_extension(before, moved(before.last(), direction), direction) == before[0],
        grown(
            before,
            moved(before.last(), direction),
            tail_extension(before, moved(before.last(), direction), direction),
        ) == before.push(moved(before.last(), direction)),
{
    let new_head = moved(before.last(), direction);
    lemma_move_on_board(before.last(), direction, width, height);
    if before.len() > 1 {
        assert(cell_in_bounds(before[0], width, height));
        assert(cell_in_bounds(before[1], width, height));
        assert(adjacent(before[0], before[1]));
    }
    assert(tail_extension(before, new_head, direction) == before[0]);
    assert(grown(before, new_head, before[0]) =~= before.push(new_head));
}

/// At a growth the cell put in front of the tail lies on the board, touches
/// the tail of the moved snake and is no cell of the moved snake.
pub proof fn lemma_tail_extension_is_free(
    before: Seq<Cell>,
    direction: Direction,
    width: int,
    height: int,
)
    requires
        before.len() >= 1,
        all_in_bounds(before, width, height),
        connected(before),
        !has_duplicates(before),
        !before.contains(moved(before.last(), direction)),
        width <= i32::MAX,
        height <= i32::MAX,
    ensures
        ({
            let new_head = moved(before.last(), direction);
            let new_tail = tail_extension(before, new_head, direction);
            &&& cell_in_bounds(new_tail, width, height)
            &&& adjacent(new_tail, advanced(before, new_head)[0])
            &&& !advanced(before, new_head).contains(new_tail)
        }),
{
    let new_head = moved(before.last(), direction);
    let after = advanced(before, new_head);
    lemma_grown_keeps_tail(before, direction, width, height);
    lemma_move_on_board(before.last(), direction, width, height);
    assert(cell_in_bounds(before[0], width, height));
    assert(before.contains(before[0]));
    if before.len() > 1 {
        assert(after[0] == before[1]);
        assert(adjacent(before[0], before[1]));
    } else {
        assert(after[0] == new_head);
    }
    if after.contains(before[0]) {
        let k = choose|k: int| 0 <= k < after.len() && after[k] == before[0];
        if k < after.len() - 1 {
            assert(before[k + 1] == before[0]);
        }
    }
}

/// A moved snake keeps its length, stays on the board and stays connected.
pub proof fn lemma_advanced_shape(before: Seq<Cell>, new_head: Cell, width: int, height: int)
    requires
        before.len() >= 1,
        all_in_bounds(before, width, height),
        connected(before),
        cell_in_bounds(new_head, width, height),
        adjacent(before.last(), new_head),
    ensures
        advanced(before, new_head).len() == before.len(),
        all_in_bounds(advanced(before, new_head), width, height),
        connected(advanced(before, new_head)),
{
    let after = advanced(before, new_head);
    assert forall|i: int| 0 <= i < after.len() implies cell_in_bounds(
        #[trigger] after[i],
        width,
        height,
    ) by {
        if i < after.len() - 1 {
            assert(after[i] == before[i + 1]);
        }
    }
    assert forall|i: int, j: int| 0 <= i && j == i + 1 && j < after.len() implies adjacent(
        #[trigger] after[i],
        #[trigger] after[j],
    ) by {
        assert(after[i] == before[i + 1]);
        if j < after.len() - 1 {
            assert(after[j] == before[j + 1]);
            assert(adjacent(before[i + 1], before[j + 1]));
        } else {
            assert(before[i + 1] == before.last());
        }
    }
}

/// A snake with a new head added stays on the board and connected, and
/// holds no cell twice if the new head was not part of it.
pub proof fn lemma_pushed_shape(before: Seq<Cell>, new_head: Cell, width: int, height: int)
    requires
        before.len() >= 1,
        all_in_bounds(before, width, height),
        connected(before),
        cell_in_bounds(new_head, width, height),
        adjacent(before.last(), new_head),
    ensures
        all_in_bounds(before.push(new_head), width, height),
        connected(before.push(new_head)),
        !has_duplicates(before) && !before.contains(new_head) ==> !has_duplicates(
            before.push(new_head),
        ),
{
    let after = before.push(new_head);
    assert forall|i: int, j: int| 0 <= i && j == i + 1 && j < after.len() implies adjacent(
        #[trigger] after[i],
        #[trigger] after[j],
    ) by {
        assert(after[i] == before[i]);
        if j < before.len() {
            assert(after[j] == before[j]);
            assert(adjacent(before[i], before[j]));
        }
    }
    if !has_duplicates(before) && !before.contains(new_head) && has_duplicates(after) {
        let (i, j) = choose|i: int, j: int|
            0 <= i < j < after.len() && #[trigger] after[i] == #[trigger] after[j];
        if j < before.len() {
            assert(before[i] == before[j]);
        } else {
            assert(before[i] == new_head);
        }
    }
}

/// A snake that covers the board still covers it after a move that leaves
/// no cell twice in it.
pub proof fn lemma_full_board_stays_full(before: Seq<Cell>, new_head: Cell, width: int, height: int)
    requires
        before.len() >= 1,
        width <= i32::MAX,
        height <= i32::MAX,
        cell_in_bounds(new_head, width, height),
        free_cells(before, width, height).len() == 0,
        !has_duplicates(advanced(before, new_head)),
    ensures
        free_cells(advanced(before, new_head), width, height).len() == 0,
{
    let after = advanced(before, new_head);
    let free = free_cells(after, width, height);
    if free.len() > 0 {
        let cell = free[0];
        assert(free.contains(cell));
        lemma_free_cells(after, width, height, cell);
        lemma_free_cells(before, width, height, cell);
        lemma_free_cells(before, width, height, new_head);
        let k = choose|k: int| 0 <= k < before.len() && before[k] == cell;
        let m = choose|m: int| 0 <= m < before.len() && before[m] == new_head;
        assert(after[after.len() - 1] == new_head);
        if k >= 1 {
            assert(after[k - 1] == cell);
        } else if m >= 1 {
            assert(after[m - 1] == after[after.len() - 1]);
        }
    }
}

/// A head that reaches the food stays on the board and hits no cell of the
/// moved snake.
pub proof fn lemma_food_move_is_clear(state: GameState)
    requires
        state.wf(),
        state.result == GameResult::InProgress,
        state.food == Some(state.next_head()),
    ensures
        cell_in_bounds(state.next_head(), state.width(), state.height()),
        !has_duplicates(advanced(state.snake, state.next_head())),
{
    let before = state.snake;
    let new_head = state.next_head();
    let after = advanced(before, new_head);
    if has_duplicates(after) {
        let (i, j) = choose|i: int, j: int|
            0 <= i < j < after.len() && #[trigger] after[i] == #[trigger] after[j];
        assert(after[i] == before[i + 1]);
        if j < after.len() - 1 {
            assert(after[j] == before[j + 1]);
            assert(before[i + 1] == before[j + 1]);
        } else {
            assert(before.contains(before[i + 1]));
        }
    }
}

/// Every tick takes a state of a game to a state of a game.
pub proof fn lemma_step_keeps_wf(state: GameState, pick: nat)
    requires
        state.wf(),
    ensures
        state.step(pick).wf(),
{
    if state.result == GameResult::InProgress {
        let width = state.width();
        let height = state.height();
        let before = state.snake;
        let direction = state.next_direction();
        let new_head = state.next_head();
        assert(cell_in_bounds(before[before.len() - 1], width, height));
        lemma_move_on_board(before.last(), direction, width, height);
        if cell_in_bounds(new_head, width, height) {
            let after = advanced(before, new_head);
            lemma_advanced_shape(before, new_head, width, height);
            if has_duplicates(after) {
            } else if state.food == Some(new_head) {
                lemma_grown_keeps_tail(before, direction, width, height);
                lemma_pushed_shape(before, new_head, width, height);
                lemma_placed(before.push(new_head), width, height, pick);
            } else {
                match state.food {
                    Some(food) => {
                        if after.contains(food) {
                            let k = choose|k: int| 0 <= k < after.len() && after[k] == food;
                            if k < after.len() - 1 {
                                assert(before[k + 1] == food);
                            }
                        }
                    },
                    None => {
                        lemma_full_board_stays_full(before, new_head, width, height);
                    },
                }
            }
        }
    }
}

/// Every proposal takes a state of a game to a state of a game.
pub proof fn lemma_propose_keeps_wf(state: GameState, direction: Direction)
    requires
        state.wf(),
    ensures
        state.propose(direction).wf(),
{
}

/// While a game is in progress the snake holds no cell twice, after every
/// tick and after every proposal.
pub proof fn lemma_snake_cells_distinct(state: GameState, pick: nat, direction: Direction)
    requires
        state.wf(),
    ensures
        state.result == GameResult::InProgress ==> state.snake.no_duplicates(),
        state.step(pick).result == GameResult::InProgress ==> state.step(pick).snake.no_duplicates(),
        state.propose(direction).result == GameResult::InProgress ==> state.propose(
            direction,
        ).snake.no_duplicates(),
{
    lemma_step_keeps_wf(state, pick);
    lemma_propose_keeps_wf(state, direction);
    crate::snake::lemma_duplicates_iff(state.snake);
    crate::snake::lemma_duplicates_iff(state.step(pick).snake);
    crate::snake::lemma_duplicates_iff(state.propose(direction).snake);
}

/// While a game is in progress the food lies on no cell of the snake, after
/// every tick and after every proposal.
pub proof fn lemma_food_off_snake(state: GameState, pick: nat, direction: Direction)
    requires
        state.wf(),
    ensures
        state.result == GameResult::InProgress ==> (state.food matches Some(food)
            ==> !state.snake.contains(food)),
        state.step(pick).result == GameResult::InProgress ==> (state.step(pick).food matches Some(food)
            ==> !state.step(pick).snake.contains(food)),
        state.propose(direction).result == GameResult::InProgress ==> (state.propose(
            direction,
        ).food matches Some(food) ==> !state.propose(direction).snake.contains(food)),
{
    lemma_step_keeps_wf(state, pick);
    lemma_propose_keeps_wf(state, direction);
}

/// A tick on which the head reaches the food adds exactly one cell to the
/// snake: the new head, with every other cell in place. Any other tick
/// leaves the length, the food and the interval as they are.
pub proof fn lemma_growth_adds_one_cell(state: GameState, pick: nat)
    requires
        state.wf(),
        state.result == GameResult::InProgress,
    ensures
        state.food == Some(state.next_head()) ==> state.step(pick).snake == state.snake.push(
            state.next_head(),
        ) && state.step(pick).snake.len() == state.snake.len() + 1,
        state.food != Some(state.next_head()) ==> state.step(pick).snake.len() == state.snake.len()
            && state.step(pick).food == state.food && state.step(pick).interval_ms
            == state.interval_ms,
{
    let before = state.snake;
    let new_head = state.next_head();
    assert(cell_in_bounds(before[before.len() - 1], state.width(), state.height()));
    lemma_move_on_board(before.last(), state.next_direction(), state.width(), state.height());
    if state.food == Some(new_head) {
        lemma_food_move_is_clear(state);
        lemma_grown_keeps_tail(before, state.next_direction(), state.width(), state.height());
    }
}

/// The choice of a free cell matters only on a tick on which the head
/// reaches the food: any other tick has one outcome.
pub proof fn lemma_choice_matters_only_at_growth(state: GameState, pick: nat, other: nat)
    requires
        state.result != GameResult::InProgress || state.food != Some(state.next_head()),
    ensures
        state.step(pick) == state.step(other),
{
}

/// No tick and no proposal lengthens the interval or takes it below the
/// floor of the configuration.
pub proof fn lemma_speed_never_slows(state: GameState, pick: nat, direction: Direction)
    requires
        state.wf(),
    ensures
        state.config.speed_floor_ms <= state.step(pick).interval_ms <= state.interval_ms,
        state.propose(direction).interval_ms == state.interval_ms,
{
}

/// With nothing pending, proposing the opposite of the heading of a snake
/// longer than one cell loses the game at once, and the next tick finds it
/// lost.
pub proof fn lemma_reversal_loses(state: GameState, pick: nat)
    requires
        state.wf(),
        state.result == GameResult::InProgress,
        state.pending is None,
        state.snake.len() > 1,
    ensures
        state.rejects(state.heading.spec_opposite()),
        state.propose(state.heading.spec_opposite()).result == GameResult::Lost,
        state.propose(state.heading.spec_opposite()).step(pick).result == GameResult::Lost,
{
}

/// A snake of one cell may reverse: the proposal is accepted, becomes the
/// pending heading and leaves the game in progress.
pub proof fn lemma_single_cell_may_reverse(state: GameState, direction: Direction)
    requires
        state.wf(),
        state.result == GameResult::InProgress,
        state.snake.len() == 1,
    ensures
        !state.rejects(direction),
        state.propose(direction).result == GameResult::InProgress,
        state.propose(direction).pending == Some(direction),
{
}

/// A finished game ignores ticks and proposals: nothing changes.
pub proof fn lemma_finished_game_is_frozen(state: GameState, pick: nat, direction: Direction)
    requires
        state.result != GameResult::InProgress,
    ensures
        state.step(pick) == state,
        state.propose(direction) == state,
{
}

/// The result of a game only leaves `InProgress`: a lost game stays lost and
/// a won game stays won.
pub proof fn lemma_result_is_final(state: GameState, pick: nat, direction: Direction)
    ensures
        state.result != GameResult::InProgress ==> state.step(pick).result == state.result
            && state.propose(direction).result == state.result,
{
}

/// What can happen to a game: a tick, with the number of the choice among
/// the free cells should food be placed, or a proposal of a heading.
pub enum Event {
    Tick { pick: nat },
    Proposal { direction: Direction },
}

impl GameState {
    /// The state after one event.
    pub open spec fn apply(self, event: Event) -> GameState {
        match event {
            Event::Tick { pick } => self.step(pick),
            Event::Proposal { direction } => self.propose(direction),
        }
    }

    /// The state after a run of events, the first one first.
    pub open spec fn after(self, events: Seq<Event>) -> GameState
        decreases events.len(),
    {
        if events.len() == 0 {
            self
        } else {
            self.after(events.drop_last()).apply(events.last())
        }
    }
}

/// Whatever happens to a game, it stays in a state of a game.
pub proof fn lemma_run_keeps_wf(state: GameState, events: Seq<Event>)
    requires
        state.wf(),
    ensures
        state.after(events).wf(),
    decreases events.len(),
{
    if events.len() > 0 {
        lemma_run_keeps_wf(state, events.drop_last());
        let reached = state.after(events.drop_last());
        match events.last() {
            Event::Tick { pick } => lemma_step_keeps_wf(reached, pick),
            Event::Proposal { direction } => lemma_propose_keeps_wf(reached, direction),
        }
    }
}

/// In every state that a game can reach from its start and in which it is
/// still in progress, the snake holds no cell twice and lies on the board,
/// and the food lies on the board and on no cell of the snake.
pub proof fn lemma_reachable_states_are_sound(
    config: GameConfig,
    snake: Seq<Cell>,
    heading: Direction,
    pick: nat,
    events: Seq<Event>,
)
    requires
        config.valid(),
        snake_fits(config, snake),
    ensures
        ({
            let reached = start_state(config, snake, heading, pick).after(events);
            reached.result == GameResult::InProgress ==> {
                &&& reached.snake.no_duplicates()
                &&& all_in_bounds(reached.snake, reached.width(), reached.height())
                &&& reached.food matches Some(food) ==> cell_in_bounds(
                    food,
                    reached.width(),
                    reached.height(),
                ) && !reached.snake.contains(food)
            }
        }),
{
    let start = start_state(config, snake, heading, pick);
    lemma_start_state_wf(config, snake, heading, pick);
    lemma_run_keeps_wf(start, events);
    crate::snake::lemma_duplicates_iff(start.after(events).snake);
}

/// Over a whole game the interval never grows and never goes below the
/// floor, and the options of the game stay what they were.
pub proof fn lemma_run_never_slows(state: GameState, events: Seq<Event>)
    requires
        state.wf(),
    ensures
        state.after(events).config == state.config,
        state.config.speed_floor_ms <= state.after(events).interval_ms <= state.interval_ms,
    decreases events.len(),
{
    if events.len() > 0 {
        lemma_run_never_slows(state, events.drop_last());
        lemma_run_keeps_wf(state, events.drop_last());
    }
}

/// Once a game is lost or won, nothing that happens changes its state.
pub proof fn lemma_run_after_the_end(state: GameState, events: Seq<Event>)
    requires
        state.result != GameResult::InProgress,
    ensures
        state.after(events) == state,
    decreases events.len(),
{
    if events.len() > 0 {
        lemma_run_after_the_end(state, events.drop_last());
    }
}

} // verus!
