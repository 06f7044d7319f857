//! Simulation core of a grid snake game: geometry, snake body, food
//! placement, direction control, speed policy and the game engine that ties
//! them together. Rendering, timers and input events live outside this crate
//! and drive it through `GameEngine::step` and `GameEngine::propose`.

pub mod direction;
pub mod engine;
pub mod food;
pub mod grid;
pub mod key;
pub mod rules;
pub mod snake;
pub mod speed;
