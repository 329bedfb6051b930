//! Palette-based color quantization: replace every pixel of an image with the
//! nearest color of a fixed palette, under the L1 (sum of absolute channel
//! differences) metric, with deterministic first-index tie-breaking.

pub mod color;
pub mod engine;
pub mod image_buffer;
pub mod palette;

pub use color::Color;
pub use engine::{quantize, quantize_image, Mode};
pub use image_buffer::ImageBuffer;
pub use palette::{Palette, PaletteError};
