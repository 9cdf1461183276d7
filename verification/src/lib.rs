//! The panel layout of a globe viewer: a slot arena, the tree of panel
//! divisions stored in it, the rectangles that the tree assigns to its
//! leaves, and the per-panel settings that follow the leaves around.

pub mod evec;
pub mod sphere;
pub mod state;
