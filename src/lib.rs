//! A 3x3 sliding puzzle whose tiles are dragged one axis at a time into the
//! empty cell: the grid model, its moves and shuffling, and the controller
//! that turns pointer events into moves and tile target positions.

pub mod grid;
pub mod world;
