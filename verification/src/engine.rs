//! The game engine: holds the state of one game and advances it by ticks
//! and proposals, as the rules say.
//!
//! A tick and a proposal both take the engine by exclusive reference, so
//! neither ever sees the other half done. Nothing here blocks or waits.

use vstd::prelude::*;
use crate::direction::{
    direction_between, heading_between, move_fits, move_head, Direction, DirectionController,
    Rejected,
};
use crate::food::{place, placed, spawn};
use crate::grid::{cell_in_bounds, in_bounds, Cell};
use crate::rules::{
    board_centre, lemma_food_move_is_clear, lemma_grown_keeps_tail, lemma_move_on_board,
    lemma_propose_keeps_wf, lemma_start_state_wf, lemma_step_keeps_wf, snake_fits, start_state,
    tail_extension, GameConfig, GameResult, GameState, WinCondition,
};
use crate::snake::{advanced, all_in_bounds, connected, has_duplicates, Snake};
use crate::speed::{on_growth, INITIAL_INTERVAL_MS, SPEED_FLOOR_MS, SPEED_STEP_MS};

verus! {

impl GameConfig {
    /// A board of ten rows and ten columns, the standard speeds, and a game
    /// that is won when the snake covers the board.
    pub fn standard() -> (config: GameConfig)
        ensures
            config.valid(),
            config == (GameConfig {
                grid_width: 10,
                grid_height: 10,
                initial_interval_ms: INITIAL_INTERVAL_MS,
                speed_step_ms: SPEED_STEP_MS,
                speed_floor_ms: SPEED_FLOOR_MS,
                win_condition: WinCondition::FillBoard,
            }),
    {
        GameConfig {
            grid_width: 10,
            grid_height: 10,
            initial_interval_ms: INITIAL_INTERVAL_MS,
            speed_step_ms: SPEED_STEP_MS,
            speed_floor_ms: SPEED_FLOOR_MS,
            win_condition: WinCondition::FillBoard,
        }
    }

    /// Whether a game can be played with these options.
    pub fn is_valid(&self) -> (ok: bool)
        ensures
            ok == self.valid(),
    {
        self.grid_width >= 1 && self.grid_height >= 1 && self.speed_floor_ms
            <= self.initial_interval_ms
    }

    /// The cell in the middle of the board.
    pub fn centre(&self) -> (cell: Cell)
        requires
            self.valid(),
        ensures
            cell == board_centre(*self),
            cell_in_bounds(cell, self.grid_width as int, self.grid_height as int),
    {
        Cell { row: self.grid_height / 2, col: self.grid_width / 2 }
    }
}

/// Why a game could not be set up.
#[derive(Clone, Copy, Debug, PartialEq, Eq, Structural)]
pub enum SetupError {
    /// The options do not describe a playable game.
    InvalidConfig,
    /// Some cell of the snake lies off the board.
    SnakeOffBoard,
    /// Two successive cells of the snake do not touch.
    SnakeBroken,
    /// Some cell occurs twice in the snake.
    SnakeOverlaps,
    /// The food lies off the board.
    FoodOffBoard,
    /// The food lies on the snake.
    FoodOnSnake,
}

/// What is wrong with a snake offered for a game with options `config`, if
/// anything: the first of the faults in the order of `SetupError`.
pub open spec fn snake_fault(config: GameConfig, snake: Seq<Cell>) -> Option<SetupError> {
    if !config.valid() {
        Some(SetupError::InvalidConfig)
    } else if !all_in_bounds(snake, config.grid_width as int, config.grid_height as int) {
        Some(SetupError::SnakeOffBoard)
    } else if !connected(snake) {
        Some(SetupError::SnakeBroken)
    } else if has_duplicates(snake) {
        Some(SetupError::SnakeOverlaps)
    } else {
        None
    }
}

/// What is wrong with a snake and a food cell offered for a game with
/// options `config`, if anything: the first of the faults in the order of
/// `SetupError`.
pub open spec fn setup_fault(config: GameConfig, snake: Seq<Cell>, food: Cell) -> Option<SetupError> {
    if snake_fault(config, snake) is Some {
        snake_fault(config, snake)
    } else if !cell_in_bounds(food, config.grid_width as int, config.grid_height as int) {
        Some(SetupError::FoodOffBoard)
    } else if snake.contains(food) {
        Some(SetupError::FoodOnSnake)
    } else {
        None
    }
}

/// What a renderer shows in a cell of the board.
#[derive(Clone, Copy, Debug, PartialEq, Eq, Structural)]
pub enum CellKind {
    Empty,
    Snake,
    Food,
}

/// The state of a game as a renderer reads it.
#[derive(Debug, PartialEq, Eq)]
pub struct Snapshot {
    /// The body of the snake, tail first.
    pub snake: Vec<Cell>,
    pub food: Option<Cell>,
    pub result: GameResult,
    /// The tick interval in milliseconds.
    pub speed: u32,
}

/// One game of snake.
#[derive(Debug)]
pub struct GameEngine {
    config: GameConfig,
    snake: Snake,
    food: Option<Cell>,
    result: GameResult,
    interval_ms: u32,
    controller: DirectionController,
}

impl View for GameEngine {
    type V = GameState;

    closed spec fn view(&self) -> GameState {
        GameState {
            config: self.config,
            snake: self.snake@,
            food: self.food,
            result: self.result,
            interval_ms: self.interval_ms,
            heading: self.controller.heading,
            pending: self.controller.pending,
        }
    }
}

/// Checks a snake against the board of `config`.
fn check_snake(config: &GameConfig, snake: &Snake) -> (fault: Option<SetupError>)
    requires
        snake.wf(),
    ensures
        fault == snake_fault(*config, snake@),
        fault is None ==> config.valid() && snake_fits(*config, snake@),
{
    if !config.is_valid() {
        Some(SetupError::InvalidConfig)
    } else if !snake.within(config.grid_width, config.grid_height) {
        Some(SetupError::SnakeOffBoard)
    } else if !snake.is_connected() {
        Some(SetupError::SnakeBroken)
    } else if snake.self_collides() {
        Some(SetupError::SnakeOverlaps)
    } else {
        None
    }
}

impl GameEngine {
    /// The engine holds a state of a game.
    pub open spec fn wf(&self) -> bool {
        self@.wf()
    }

    /// Starts a game with the given snake and heading and with food drawn
    /// at random among the free cells.
    pub fn with_snake(config: GameConfig, snake: Snake, heading: Direction) -> (made: Result<
        GameEngine,
        SetupError,
    >)
        requires
            snake.wf(),
        ensures
            match made {
                Ok(engine) => snake_fault(config, snake@) is None && engine.wf() && exists|pick: nat|
                    engine@ == start_state(config, snake@, heading, pick),
                Err(fault) => snake_fault(config, snake@) == Some(fault),
            },
    {
        match check_snake(&config, &snake) {
            Some(fault) => Err(fault),
            None => {
                let food = spawn(&snake, config.grid_width, config.grid_height);
                let result = match (food, config.win_condition) {
                    (None, WinCondition::FillBoard) => GameResult::Won,
                    _ => GameResult::InProgress,
                };
                let engine = GameEngine {
                    config,
                    snake,
                    food,
                    result,
                    interval_ms: config.initial_interval_ms,
                    controller: DirectionController::new(heading),
                };
                proof {
                    let pick = choose|pick: nat|
                        food == placed(
                            snake@,
                            config.grid_width as int,
                            config.grid_height as int,
                            pick,
                        );
                    lemma_start_state_wf(config, snake@, heading, pick);
                    assert(engine@ == start_state(config, snake@, heading, pick));
                }
                Ok(engine)
            },
        }
    }

    /// Starts a game with a snake of one cell in the middle of the board,
    /// the default heading and food drawn at random among the free cells.
    pub fn new(config: GameConfig) -> (made: Result<GameEngine, SetupError>)
        ensures
            match made {
                Ok(engine) => config.valid() && engine.wf() && exists|pick: nat|
                    engine@ == start_state(
                        config,
                        seq![board_centre(config)],
                        Direction::Left,
                        pick,
                    ),
                Err(fault) => !config.valid() && fault == SetupError::InvalidConfig,
            },
    {
        if !config.is_valid() {
            return Err(SetupError::InvalidConfig);
        }
        let snake = Snake::new(config.centre());
        assert(snake_fits(config, snake@));
        GameEngine::with_snake(config, snake, Direction::default())
    }

    /// Sets up a game in progress with the given snake, food and heading,
    /// at the initial speed and with no heading pending.
    pub fn from_parts(config: GameConfig, snake: Snake, food: Cell, heading: Direction) -> (made:
        Result<GameEngine, SetupError>)
        requires
            snake.wf(),
        ensures
            match made {
                Ok(engine) => setup_fault(config, snake@, food) is None && engine.wf() && engine@ == (
                GameState {
                    config,
                    snake: snake@,
                    food: Some(food),
                    result: GameResult::InProgress,
                    interval_ms: config.initial_interval_ms,
                    heading,
                    pending: None,
                }),
                Err(fault) => setup_fault(config, snake@, food) == Some(fault),
            },
    {
        match check_snake(&config, &snake) {
            Some(fault) => Err(fault),
            None => {
                if !in_bounds(food, config.grid_width, config.grid_height) {
                    Err(SetupError::FoodOffBoard)
                } else if snake.occupies(food) {
                    Err(SetupError::FoodOnSnake)
                } else {
                    Ok(
                        GameEngine {
                            config,
                            snake,
                            food: Some(food),
                            result: GameResult::InProgress,
                            interval_ms: config.initial_interval_ms,
                            controller: DirectionController::new(heading),
                        },
                    )
                }
            },
        }
    }

    /// The options of the game.
    pub fn config(&self) -> (config: GameConfig)
        ensures
            config == self@.config,
    {
        self.config
    }

    /// The snake.
    pub fn snake(&self) -> (snake: &Snake)
        ensures
            snake@ == self@.snake,
    {
        &self.snake
    }

    /// The food cell; a board that the snake covers has none.
    pub fn food(&self) -> (food: Option<Cell>)
        ensures
            food == self@.food,
    {
        self.food
    }

    /// How the game stands.
    pub fn result(&self) -> (result: GameResult)
        ensures
            result == self@.result,
    {
        self.result
    }

    /// The tick interval in milliseconds.
    pub fn interval_ms(&self) -> (interval_ms: u32)
        ensures
            interval_ms == self@.interval_ms,
    {
        self.interval_ms
    }

    /// The heading of the latest move.
    pub fn heading(&self) -> (heading: Direction)
        ensures
            heading == self@.heading,
    {
        self.controller.heading
    }

    /// The heading accepted for the next move, if any.
    pub fn pending(&self) -> (pending: Option<Direction>)
        ensures
            pending == self@.pending,
    {
        self.controller.pending
    }

    /// What a renderer shows in `cell`: the snake where it lies, else the
    /// food where it lies, else nothing.
    pub fn cell_kind(&self, cell: Cell) -> (kind: CellKind)
        ensures
            kind == if self@.snake.contains(cell) {
                CellKind::Snake
            } else if self@.food == Some(cell) {
                CellKind::Food
            } else {
                CellKind::Empty
            },
    {
        if self.snake.occupies(cell) {
            CellKind::Snake
        } else {
            match self.food {
                Some(food) if food == cell => CellKind::Food,
                _ => CellKind::Empty,
            }
        }
    }

    /// The state of the game as a renderer reads it.
    pub fn snapshot(&self) -> (snapshot: Snapshot)
        ensures
            snapshot.snake@ == self@.snake,
            snapshot.food == self@.food,
            snapshot.result == self@.result,
            snapshot.speed == self@.interval_ms,
    {
        let cells = self.snake.cells();
        let mut snake: Vec<Cell> = Vec::new();
        let mut i: usize = 0;
        while i < cells.len()
            invariant
                i <= cells.len(),
                snake@ == cells@.take(i as int),
            decreases cells.len() - i,
        {
            snake.push(cells[i]);
            assert(cells@.take(i + 1) =~= cells@.take(i as int).push(cells@[i as int]));
            i += 1;
        }
        assert(cells@.take(cells.len() as int) =~= cells@);
        Snapshot { snake, food: self.food, result: self.result, speed: self.interval_ms }
    }

    /// Proposes `direction` for the next move. A finished game ignores the
    /// proposal. The opposite of the heading accepted last, for a snake
    /// longer than one cell, is rejected and loses the game at once. Any
    /// other proposal becomes the pending heading and replaces an earlier
    /// one.
    pub fn propose(&mut self, direction: Direction) -> (outcome: Result<(), Rejected>)
        requires
            old(self).wf(),
        ensures
            final(self).wf(),
            final(self)@ == old(self)@.propose(direction),
            outcome is Err <==> old(self)@.rejects(direction),
    {
        proof {
            lemma_propose_keeps_wf(self@, direction);
        }
        if self.result != GameResult::InProgress {
            return Ok(());
        }
        let outcome = self.controller.propose(direction, self.snake.len());
        if outcome.is_err() {
            self.result = GameResult::Lost;
        }
        outcome
    }

    /// One tick with the choice of new food fixed: should the snake grow,
    /// the food goes to the free cell that `pick` selects.
    pub fn step_with(&mut self, pick: usize)
        requires
            old(self).wf(),
        ensures
            final(self).wf(),
            final(self)@ == old(self)@.step(pick as nat),
    {
        self.tick(Some(pick));
    }

    /// One tick: should the snake grow, the food goes to a free cell drawn
    /// at random.
    pub fn step(&mut self)
        requires
            old(self).wf(),
        ensures
            final(self).wf(),
            exists|pick: nat| final(self)@ == old(self)@.step(pick),
    {
        self.tick(None);
    }

    /// One tick, with the choice of new food given or left to chance.
    fn tick(&mut self, chosen: Option<usize>)
        requires
            old(self).wf(),
        ensures
            final(self).wf(),
            exists|pick: nat| final(self)@ == old(self)@.step(pick),
            chosen matches Some(pick) ==> final(self)@ == old(self)@.step(pick as nat),
    {
        let ghost before = self@;
        if self.result != GameResult::InProgress {
            assert(self@ == before.step(0));
            return;
        }
        let width = self.config.grid_width;
        let height = self.config.grid_height;
        let direction = self.controller.take_next();
        let head = self.snake.head();
        proof {
            assert(cell_in_bounds(before.snake[before.snake.len() - 1], width as int, height as int));
            lemma_move_on_board(head, direction, width as int, height as int);
        }
        let new_head = move_head(head, direction);
        if !in_bounds(new_head, width, height) {
            self.result = GameResult::Lost;
            proof {
                lemma_step_keeps_wf(before, 0);
                assert forall|pick: nat| self@ == #[trigger] before.step(pick) by {}
            }
            return;
        }
        let eats = match self.food {
            Some(food) => food == new_head,
            None => false,
        };
        if eats {
            proof {
                lemma_food_move_is_clear(before);
                lemma_grown_keeps_tail(before.snake, direction, width as int, height as int);
                lemma_move_on_board(new_head, direction.spec_opposite(), width as int, height as int);
                if before.snake.len() > 1 {
                    assert(cell_in_bounds(before.snake[1], width as int, height as int));
                    lemma_move_on_board(
                        before.snake[1],
                        direction.spec_opposite(),
                        width as int,
                        height as int,
                    );
                }
            }
            let new_tail = extend_tail(&self.snake, new_head, direction);
            self.snake.grow(new_head, new_tail);
            self.interval_ms = on_growth(
                self.interval_ms,
                self.config.speed_step_ms,
                self.config.speed_floor_ms,
            );
            let food = match chosen {
                Some(pick) => place(&self.snake, width, height, pick),
                None => spawn(&self.snake, width, height),
            };
            self.food = food;
            if food.is_none() && self.config.win_condition == WinCondition::FillBoard {
                self.result = GameResult::Won;
            }
            proof {
                let pick = match chosen {
                    Some(pick) => pick as nat,
                    None => choose|pick: nat|
                        food == placed(self.snake@, width as int, height as int, pick),
                };
                lemma_step_keeps_wf(before, pick);
                assert(self@ == before.step(pick));
            }
        } else {
            self.snake.advance(new_head);
            if self.snake.self_collides() {
                self.result = GameResult::Lost;
            }
            proof {
                lemma_step_keeps_wf(before, 0);
                assert forall|pick: nat| self@ == #[trigger] before.step(pick) by {}
            }
        }
    }
}

/// Whether the coordinates of the cell that `tail_extension` names fit the
/// coordinate type.
pub open spec fn tail_extension_fits(before: Seq<Cell>, new_head: Cell, direction: Direction) -> bool {
    if before.len() <= 1 {
        move_fits(new_head, direction.spec_opposite())
    } else {
        heading_between(before[0], before[1]) is None ==> move_fits(
            before[1],
            direction.spec_opposite(),
        )
    }
}

/// The cell to put in front of the tail when `snake` grows on a move of its
/// head to `new_head` in heading `direction`.
pub fn extend_tail(snake: &Snake, new_head: Cell, direction: Direction) -> (new_tail: Cell)
    requires
        snake.wf(),
        tail_extension_fits(snake@, new_head, direction),
    ensures
        new_tail == tail_extension(snake@, new_head, direction),
{
    let cells = snake.cells();
    if cells.len() <= 1 {
        move_head(new_head, direction.opposite())
    } else {
        match direction_between(cells[0], cells[1]) {
            Some(travel) => move_head(cells[1], travel.opposite()),
            None => move_head(cells[1], direction.opposite()),
        }
    }
}

} // verus!
