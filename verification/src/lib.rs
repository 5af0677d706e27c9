//! Conversion of a sampled 3D model into a grid of armor blocks and a ship
//! blueprint document.
//!
//! Every shape in this crate lives on an integer lattice: the twenty points of
//! a block are the corners and edge midpoints of the cube `[-1, 1]^3`, the
//! block orientations are the twenty-four axis-aligned rotations, and grid
//! cells are addressed by natural coordinates.

pub mod geometry;
pub mod blocks;
pub mod text;
pub mod grid;
pub mod subsets;
pub mod assembly;
pub mod blueprint;
pub mod catalog;
pub mod pipeline;
pub mod laws;
