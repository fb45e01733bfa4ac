//! An animated times-table curve, as a verified core.
//!
//! `N` points sit evenly spaced on a circle; point `n` is joined by a line to
//! point `round(n * factor) mod N`, and `factor` drifts over time under
//! keyboard control.  This crate holds everything that can be stated and
//! proved: the exact decimal numbers behind `factor`, the angular layout of
//! the ring of points, the per-frame state machine, and the edge-target
//! arithmetic.  Pixel projection, drawing and key handling live outside, in
//! an ordinary frontend that only feeds signals in and reads state out.

pub mod decimal;
pub mod geometry;
pub mod sim;
