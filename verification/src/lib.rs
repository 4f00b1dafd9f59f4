//! Decision logic of an IVF-to-I420 decoding pipeline built around libvpx.

pub mod codec;
pub mod driver;
pub mod error;
pub mod frame_buffer;
pub mod image;
pub mod session;
