//! Convolution of images with one 16-bit channel.

pub mod native;
