//! An incremental layout engine: widgets own four edge variables and a list
//! of linear constraints over them, container strategies derive constraints
//! between a parent and its children, and a solver adapter installs the
//! constraints in one shared Cassowary system and reports the edges that moved.
//!
//! Coordinates, coefficients and constants are whole numbers.

pub mod app;
pub mod backend;
pub mod constraint;
pub mod filtering;
pub mod grid_layout;
pub mod layout;
pub mod solver;
pub mod ui;
pub mod util;
pub mod widget;
