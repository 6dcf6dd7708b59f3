//! Diamond ray-casting field of view on 2D grids.
//!
//! The engine ([`DiamondLos`]) sweeps outward from an observer, ring by ring in
//! Manhattan distance, and reports every visible cell to a host map
//! ([`MapProvider`]).
mod array_map;
mod coord;
mod diamond;
mod grid;
pub mod laws;
mod model;
mod provider;

pub use array_map::ArrayMapProvider;
pub use coord::Coord;
pub use diamond::{CellData, DiamondLos};
pub use grid::Grid;
pub use model::{CellModel, Scene};
pub use provider::{LosAlgorithm, MapProvider, MAX_VIEW_RANGE};
