//! A cursor that walks a wrapping grid of cells, counting what it visits
//! until a configurable condition holds.

pub mod error;
pub mod cell;
pub mod text;
pub mod tally;
pub mod grid;
pub mod model;
pub mod navigation;
