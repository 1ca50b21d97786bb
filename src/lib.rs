//! Hides a short text secret in the least-significant bits of the pixels of
//! an RGB image and recovers it, bit for bit.
pub mod triple;
pub mod header;
pub mod grid;
mod text;
pub mod stream;
pub mod bmp;
