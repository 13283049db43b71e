//! Measures GPU fill-rate: the time a device takes to shade and write pixels
//! across a full-screen triangle, under different rendering conditions.
//!
//! The verified core is the timed-measurement pipeline: cycling a fixed pool of
//! timer-query slots, pacing draw submission against asynchronous query
//! readback, discarding warm-up and cool-down samples, and aggregating the rest
//! into per-draw and per-megapixel timings. Window and device setup, the actual
//! draw calls, and reporting live outside the library and hand it plain values.

pub mod aggregate;
pub mod collector;
pub mod config;
pub mod driver;
pub mod errors;
pub mod ring;
