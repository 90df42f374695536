//! A verified core for a point-accumulation renderer of the Mandelbrot set
//! and its generalized power variants.
//!
//! The plane is modelled in fixed-point arithmetic: a coordinate is an `i64`
//! counting millionths of a unit, so every step of the recurrence, every
//! projection onto the raster and every accumulated pixel value is an exact
//! integer function of the configuration. The surrounding program feeds the
//! library plain values (parsed options, parallel scheduling, image encoding
//! and the window live outside it).

pub mod canvas;
pub mod color;
pub mod complex;
pub mod config;
pub mod dispatch;
pub mod fixed;
pub mod grid;
pub mod session;
pub mod worker;
