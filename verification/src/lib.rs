//! Incremental fractal geometry.
//!
//! The crate holds the algorithmic core of a fractal renderer: recursive
//! subdivision rules for the Koch snowflake family and for the Sierpinski
//! triangle, a per-depth level cache that grows monotonically and never
//! recomputes a level it already holds, and a draw-list extractor that
//! returns exactly the geometry of one requested depth.
//!
//! Coordinates are exact. Every point the two subdivision rules can ever
//! produce from the fixed seed triangle lies in the ring Z[sqrt(3)] scaled
//! by a known denominator, so a coordinate is kept as a pair of integer
//! numerators `(a, b)` standing for `(a + b * sqrt(3)) / denom`. A renderer
//! converts to floating point at the very end; the geometry itself never
//! rounds.

pub mod geometry;
pub mod koch;
pub mod sierpinski;
