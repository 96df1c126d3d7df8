//! Conway's Game of Life with ternary cell states {-1, 0, +1}.

pub mod cell;
pub mod model;
pub mod grid;
pub mod stats;
pub mod laws;

pub use cell::CellState;
pub use grid::TernaryGrid;
pub use stats::PopulationStats;
