//! A 2D geometric constraint solver core: vertices, bindings (geometric
//! constraints between vertices), and the compiler that turns a heterogeneous
//! set of bindings into a flat unknown vector plus a residual-equation plan
//! for an external nonlinear solver.
//!
//! Coordinates are carried throughout as IEEE-754 bit patterns (`u64`). The
//! library arranges, routes and writes them back, but never interprets them
//! numerically: numeric evaluation of the residual formulas and the nonlinear
//! iteration belong to the host program driving the external solver.

pub mod math;
pub mod solver;
