//! Escape-time fractal rendering core, together with a few small verified
//! utilities: a greatest-common-divisor routine, a pair parser, a range
//! overlap test and a sorted table of works.
//!
//! The floating-point iteration itself and all I/O live outside this
//! library; what is verified here is the integer logic: coordinate layout,
//! band partitioning of the output buffer, shading, and assembly.

pub mod bands;
pub mod escape;
pub mod gcd;
pub mod parse;
pub mod ranges;
pub mod raster;
pub mod table;
