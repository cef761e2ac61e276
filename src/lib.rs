//! A terminal snake game: the board, the snake's movement and growth,
//! collisions, apple placement and the rendered frame.
pub mod grid;
pub mod game;
mod rng;

pub use grid::Directions;
pub use game::{Game, APPLE_COUNT};
