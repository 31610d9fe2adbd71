//! The rules of a terminal snake game: a walled grid, a snake that moves,
//! turns and grows, an apple that respawns, and the frame that shows them.

pub mod direction;
pub mod draw;
pub mod board;
pub mod errors;
pub mod snake;
pub mod apple;
pub mod game;
pub mod session;
