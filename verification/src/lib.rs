//! Shortest-cost paths across a weighted 2D grid.
//!
//! A grid gives every cell a weight; a weight of zero blocks the cell. A
//! move leads to one of the eight cells around a cell and costs the weight
//! of the cell it enters, scaled by the length of the move. `find_path`
//! returns a route of least total cost, `debug_path` a report on such a
//! search.

pub mod bounds;
pub mod budget;
pub mod clock;
pub mod error;
pub mod grid;
pub mod heuristic;
pub mod pos;
pub mod report;
pub mod route;
pub mod search;

pub use error::PathError;
pub use heuristic::Heuristic;
pub use pos::Pos;
pub use search::{debug_path, find_path};
