//! Conversion between straight and premultiplied alpha.

pub mod common;
pub mod laws;
pub mod rows;
pub mod u16x4;
pub mod u8x4;
