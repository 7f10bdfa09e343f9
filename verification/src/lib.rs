//! A snake game on a walled grid: the snake, the food, the clock and the
//! rules that tie them together, with every rule stated and proved.
//!
//! - [`direction`]: the four directions of travel.
//! - [`snake`]: the snake as a run of cells, and how it steps and grows.
//! - [`game`]: a round of the game, driven by direction intents and by the
//!   passing of time.
//! - [`random`]: the random draws that place the food.
//! - [`theorems`]: what holds of every round.

pub mod direction;
pub mod game;
pub mod random;
pub mod snake;
pub mod theorems;
