//! Simulation core of a grid-based one- or two-player snake game.
//!
//! The board, the snakes and the game phase live in [`SnakeGame`]; the host
//! calls [`SnakeGame::tick`] on every timer interrupt and [`SnakeGame::key`]
//! on every decoded key, then renders what [`SnakeGame::icon_color`] and
//! [`SnakeGame::header`] report.

mod position;
mod snake;
mod game;
mod random;

pub use game::{
    food_candidate, key2dir, key2dir2, Cell, Header, KeyInput, RawKey, RowColIter, SnakeGame, Status,
    Tint, CELLS, FOOD_DRAWS, UPDATE_FREQUENCY,
};
pub use position::{Dir, Position, HEIGHT, WIDTH};
