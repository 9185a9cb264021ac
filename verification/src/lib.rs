//! dew firmware support library.
//!
//! Everything behind the display bring-up that computes lives here; what talks
//! to the hardware stays in the `app` crate. Modules:
//!
//! - [`board`]: panel/framebuffer constants and the GPIO expander's pins.
//! - [`st7701`]: the ST7701S register init table and its bit-banged 9-bit SPI.
//! - [`canvas`]: the picture that a framebuffer holds, as mathematics.
//! - [`geometry`]: the integer square root, discs and their outlines.
//! - [`framebuffer`]: the RGB565 [`FrameBuf`](framebuffer::FrameBuf) and its
//!   integer-only drawing primitives.
//! - [`palette`]: the dashboard colour palette.
//! - [`text`]: the fonts, and which pixels a text lights.
//! - [`widgets`]: the humidity/temperature/watering gauges and static layout.
//! - [`telemetry`]: the (currently synthetic) sensor value source.
//! - [`dashboard`]: what is painted at start-up and between two frames.

pub mod board;
pub mod canvas;
pub mod dashboard;
pub mod framebuffer;
pub mod geometry;
pub mod palette;
pub mod st7701;
pub mod telemetry;
pub mod text;
pub mod widgets;
