//! A drawing surface over the byte frame of a linear framebuffer device.
//!
//! Pixels are drawn into an in-memory frame laid out by the device's geometry;
//! the whole frame is handed out on a flush, to be written to the device in one go.

pub mod display;
pub mod frame;
pub mod geometry;
pub mod pixel;

pub use display::FrameBufferDisplay;
pub use geometry::DeviceGeometry;
pub use pixel::{Pixel, Rgb};
