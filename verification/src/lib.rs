//! Gradient baking and per-frame pipeline coordination for a Julia-set
//! renderer.
//!
//! All quantities are integers. Channels and stop positions are fixed-point
//! numbers with [`colorramp::UNIT`] parts to the whole; the fractal parameters
//! are carried as raw 32-bit words, exactly as they are laid out for the
//! device.

pub mod colorramp;
pub mod julia;
