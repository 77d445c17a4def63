//! A maze chase game: the maze, movement on its grid, the pursuers and the
//! tick that drives a game.
//!
//! Lengths are whole numbers of quarter units: one world unit is
//! [`geometry::UNIT`] steps, so every size, speed and offset of the game is an
//! integer and alignment with the grid is exact. Positions of the player and
//! the pursuers are the corners of their hitboxes. The world is a square of
//! [`geometry::WORLD_CELLS`] cells each way from the origin; a step that would
//! leave it is refused like a step into a wall. Durations are microseconds.
//! The score stops at `u32::MAX`.
//!
//! Every state and every operation has a model in unbounded integers
//! ([`maze::MazeView`], [`pursuer::PursuerView`], [`game::GameView`]), and each
//! function says what it does in terms of that model. What holds of every game
//! is proved of the model in [`laws`].

pub mod chance;
pub mod game;
pub mod geometry;
pub mod laws;
pub mod maze;
pub mod pursuer;
