//! Collision-free motion planning for an oriented rectangular actor on an
//! integer grid, with every rule of the engine stated as a contract.

pub mod error;
pub mod geometry;
pub mod trig;
pub mod quadtree;
pub mod index;
pub mod playground;
pub mod footprint;
pub mod tree;
pub mod sampling;
pub mod rrt;
pub mod grid_search;
pub mod compaction;
pub mod trajectory;
pub mod actor;
pub mod planner;
