//! A bounded Game of Life: the cell grid, the neighbour rule, the mapping
//! between play-field positions and cells, and the controller that routes
//! input events and timed ticks into the grid.
//!
//! - [`grid`] holds the cells and guards every access by index.
//! - [`rule`] finds the cells around a cell and computes the next
//!   generation.
//! - [`patterns`] proves what the rule does to the block and the blinker.
//! - [`mapper`] maps a position on the play-field to the cell under it, and
//!   a cell to the position in its middle.
//! - [`controller`] owns the grid, the pointer, the tick accumulator and
//!   the pause flag, and makes the transition that each event causes.
//! - [`error`] names the ways in which a request is refused.

pub mod controller;
pub mod error;
pub mod grid;
pub mod mapper;
pub mod patterns;
pub mod rule;
