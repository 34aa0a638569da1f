//! Verified core of a recursive ray tracer.
//!
//! The renderer's numeric work (vector geometry, materials, sampling) runs on
//! `f64` and lives in the unverified front end; this crate holds the parts of
//! the pipeline that are exact: quantized pixel colors, PPM serialization,
//! raster-scan pixel ordering and the gather of parallel results back into
//! it, nearest-hit selection over a scene scan, and the depth-bounded bounce
//! accounting that drives the recursive color computation.

pub mod color;
pub mod hittable;
pub mod ppm;
pub mod raster;
pub mod trace;
