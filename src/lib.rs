//! Verified core of a small Phong ray tracer.
//!
//! The numeric pipeline itself runs on binary64 floating point; this crate
//! holds the parts of it whose correctness does not rest on rounding: the
//! ordering and selection of ray/shape intersections, the pixel raster, and
//! the index bookkeeping of square transform matrices.
pub mod canvas;
pub mod intersection;
pub mod square;
