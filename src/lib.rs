//! Image encoding and integrator control for a Monte Carlo path tracer.
//!
//! The library holds the parts of the renderer that work on integers and
//! bytes: the big-endian field encoding, a zlib stream made of stored
//! deflate blocks, PNG chunk framing and scanline buffering, PPM text, the
//! order in which pixels are produced, and the bounce policy of the
//! recursive radiance estimator.

pub mod bytes;
pub mod deflate;
pub mod png;
pub mod ppm;
pub mod render;
