//! A ray tracer's discrete core: the text encoder for rendered images, the
//! nearest-hit selection over ordered distance keys, the shading case of a pixel,
//! and the row-major order in which pixels are produced.
pub mod img;
pub mod trace;
