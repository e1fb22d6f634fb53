//! Simulation core of a grid-based snake game.
//!
//! The crate owns the authoritative game state (the snake's linked chain of
//! segments, the food items and the arena bounds), advances it on a fixed
//! tick, detects collisions and resets everything when the game is over.
//! Rendering, windowing and raw input polling are left to the caller, which
//! hands in the currently pressed direction keys and the elapsed time and
//! reads back positions and sizes.
//!
//! * [`grid`]: cells, sizes, directions, the arena bounds and the direction
//!   intake;
//! * [`timer`] and [`events`]: the two primitives that pace and signal;
//! * [`store`]: entities behind generation-checked handles;
//! * [`world`]: the components of the game's entities and queries over them;
//! * [`snake`]: the snake as a chain of entities and as a sequence of cells;
//! * [`movement`]: the steps of one movement tick;
//! * [`game`]: the simulation context and its three systems;
//! * [`laws`]: what holds of the rules whatever the state and the input;
//! * [`sequences`]: facts about filtered sequences used throughout.

pub mod grid;
pub mod sequences;
pub mod timer;
pub mod events;
pub mod store;
pub mod world;
pub mod snake;
pub mod movement;
pub mod game;
pub mod laws;
