//! Conway's Game of Life: the grid, the rule engine, the cursor influence and
//! the play/pause controller that drives them.
pub mod cell;
pub mod grid;
pub mod rules;
pub mod influence;
pub mod controller;
