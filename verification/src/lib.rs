//! Decoder for raw (headerless) image data: the caller supplies geometry,
//! a pixel encoding and a container layout, and the decoder reconstructs a
//! row-major RGBA canvas or reports a precise error.

pub mod codec;
pub mod decode;
pub mod error;
pub mod geometry;
pub mod image;
pub mod image_format;
pub mod message;
pub mod pixel_format;
