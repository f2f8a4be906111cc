//! Percentage-based backlight brightness adjustment.
//!
//! The library computes everything an adjustment needs from plain values:
//! it parses the decimal text found in the brightness control files, maps
//! command-line flag values to an adjustment request, computes the new
//! clamped brightness, and renders the text written back to the control
//! file. Opening, reading and writing the control files themselves is left
//! to the surrounding program.

pub mod adjust;
pub mod cli;
pub mod text;
