//! Decoder for a frame-based, layer-based, chunk-structured animation image
//! container. A file's bytes are read by a sequential cursor, every chunk is
//! dispatched to its handler, and the cels of each frame are blended into one
//! RGBA raster per frame.

use vstd::prelude::*;

pub mod blend;
pub mod constants;
pub mod document;
pub mod error;
pub mod file;
pub mod image;
pub mod metadata;
pub mod parser;
pub mod trailing;
pub mod zlib;

pub use crate::blend::mul_un8;
pub use crate::error::AsepriteError;
pub use crate::file::AsepriteFile;
pub use crate::image::Image;

