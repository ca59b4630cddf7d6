//! A verified box-blur filtering core: an RGBA pixel buffer, a square
//! averaging kernel, and a convolution engine that partitions the image
//! into row bands and blurs each band from an immutable source.

pub mod engine;
pub mod kernel;
pub mod laws;
pub mod partition;
pub mod pixel;
