//! Escape-time fractal rendering: iteration counting for the quadratic
//! recurrence, color derivation, and assembly of the output pixel grid.
//!
//! The floating-point orbit arithmetic itself lives with the caller; this
//! crate verifies everything that is decided over plain integers: when the
//! per-pixel iteration stops, which count it yields, which color each count
//! and position produce, and the shape of the finished grid.

pub mod color;
pub mod escape;
pub mod grid;
