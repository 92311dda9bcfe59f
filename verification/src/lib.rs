//! Constraint-analysis core for a minesweeper variant.
//!
//! The library turns a snapshot of a partially revealed board (an
//! [`observation::Observation`]) into a system of linear equations over
//! boolean mine variables, detects logical impossibilities, and partitions
//! the variables into independent components.  Problem construction is the
//! whole job: no equation solving happens here.

pub mod constraints;
pub mod dsu;
pub mod engine;
pub mod error;
pub mod grid;
pub mod laws;
pub mod model;
pub mod observation;
pub mod tile;
pub mod types;
