//! Tile synthesis by constrained sampling: adjacency rules learned from a
//! sample image drive a single-pass collapse of a grid of cells.

pub mod board;
pub mod collapse;
pub mod direction;
pub mod frequencies;
pub mod learn;
mod random;
pub mod rule;
pub mod rule_set;
pub mod sample;
pub mod scan;
pub mod tile;
pub mod tile_set;
mod walk;
