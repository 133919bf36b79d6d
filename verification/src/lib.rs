//! A deterministic two-color, four-direction turning automaton walking on an
//! unbounded plane, stored sparsely as fixed-size chunks with content-addressed
//! sharing of identical chunks.

pub mod ant;
pub mod dir;
pub mod grid;
pub mod store;

pub use ant::Ant;
pub use dir::Dir;
pub use grid::Color;
pub use grid::Grid;
