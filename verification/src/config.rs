//! The render configuration and its validation.
//!
//! A configuration is loaded once and read by every component.
//! Malformed or out-of-range parameters are rejected up front with a
//! distinct error per field, in a fixed order of checks, so that bad
//! geometry is never rendered silently.

use vstd::prelude::*;
use crate::canvas::{AccumMode, MAX_DIM, MAX_ZOOM};
use crate::grid::{grid_len, MAX_AXIS, MAX_BOUND};

verus! {

/// Largest accepted exponent of the recurrence.
pub const MAX_POWER: u32 = 255;

/// Largest accepted iteration budget per seed.
pub const MAX_LOOPS: u32 = 1_000_000;

/// The flat parameter set of one render session. Plane lengths
/// (`bounds`, `delta`, the offsets, `colour_factor`) are fixed-point
/// scalars in millionths of a unit; `opacity` is the 16-bit alpha a
/// blended point is written with.
#[derive(Clone, Copy, Debug, PartialEq, Eq, Structural)]
pub struct Config {
    /// Frame width in pixels.
    pub width: u32,
    /// Frame height in pixels.
    pub height: u32,
    /// Half-extent of the sampled square of the plane.
    pub bounds: i64,
    /// Step between adjacent sampled coordinates.
    pub delta: i64,
    /// Integer exponent of the recurrence `z <- z^power + c`.
    pub power: u32,
    /// Multiplier on a derived hue, as a fixed-point fraction.
    pub colour_factor: i64,
    /// Alpha of each accumulated point under blend accumulation.
    pub opacity: u16,
    /// Pixels per plane unit.
    pub zoom: u32,
    /// Most iterations spent on one seed before it is abandoned.
    pub loop_limit: u32,
    /// Iterations advanced per presentation tick, in the incremental
    /// variant.
    pub speed: u32,
    /// Real part of the trajectory's starting value.
    pub off_re: i64,
    /// Imaginary part of the trajectory's starting value.
    pub off_im: i64,
    /// Whether the first computed point is discarded unrecorded.
    pub warmup: bool,
    /// Whether a trajectory stops once both parts of `z` leave the
    /// sampled square in magnitude.
    pub escape: bool,
    /// How writes accumulate into the canvas.
    pub mode: AccumMode,
}

/// One rejected parameter.
#[derive(Clone, Copy, Debug, PartialEq, Eq, Structural)]
pub enum ConfigError {
    BadWidth,
    BadHeight,
    BadBounds,
    BadDelta,
    GridTooLarge,
    BadPower,
    BadZoom,
    BadLoopLimit,
    BadSpeed,
}

impl Config {
    /// All parameters in range: positive dimensions within the frame
    /// limit, a positive sampled square no larger than the plane
    /// model, a grid that fits per axis, and positive exponent, zoom,
    /// iteration budget and speed within their caps.
    pub open spec fn valid(self) -> bool {
        &&& 1 <= self.width <= MAX_DIM
        &&& 1 <= self.height <= MAX_DIM
        &&& 0 < self.bounds <= MAX_BOUND
        &&& 0 < self.delta
        &&& grid_len(self.bounds as int, self.delta as int) <= MAX_AXIS
        &&& 1 <= self.power <= MAX_POWER
        &&& 1 <= self.zoom <= MAX_ZOOM
        &&& 1 <= self.loop_limit <= MAX_LOOPS
        &&& 1 <= self.speed
    }

    /// The verdict of validation: the first failing check, in field
    /// order, or nothing.
    pub open spec fn validate_spec(self) -> Result<(), ConfigError> {
        if !(1 <= self.width <= MAX_DIM) {
            Err(ConfigError::BadWidth)
        } else if !(1 <= self.height <= MAX_DIM) {
            Err(ConfigError::BadHeight)
        } else if !(0 < self.bounds <= MAX_BOUND) {
            Err(ConfigError::BadBounds)
        } else if !(0 < self.delta) {
            Err(ConfigError::BadDelta)
        } else if !(grid_len(self.bounds as int, self.delta as int) <= MAX_AXIS) {
            Err(ConfigError::GridTooLarge)
        } else if !(1 <= self.power <= MAX_POWER) {
            Err(ConfigError::BadPower)
        } else if !(1 <= self.zoom <= MAX_ZOOM) {
            Err(ConfigError::BadZoom)
        } else if !(1 <= self.loop_limit <= MAX_LOOPS) {
            Err(ConfigError::BadLoopLimit)
        } else if !(1 <= self.speed) {
            Err(ConfigError::BadSpeed)
        } else {
            Ok(())
        }
    }

    /// Check every parameter, reporting the first out-of-range one;
    /// a configuration passes exactly when it is valid.
    pub fn validate(&self) -> (r: Result<(), ConfigError>)
        ensures
            r == self.validate_spec(),
            r is Ok <==> self.valid(),
    {
        if !(1 <= self.width && self.width <= MAX_DIM) {
            return Err(ConfigError::BadWidth);
        }
        if !(1 <= self.height && self.height <= MAX_DIM) {
            return Err(ConfigError::BadHeight);
        }
        if !(0 < self.bounds && self.bounds <= MAX_BOUND) {
            return Err(ConfigError::BadBounds);
        }
        if !(0 < self.delta) {
            return Err(ConfigError::BadDelta);
        }
        let num: u64 = 2 * (self.bounds as u64) + (self.delta as u64 - 1);
        let axis: u64 = num / (self.delta as u64);
        if !(axis <= MAX_AXIS) {
            return Err(ConfigError::GridTooLarge);
        }
        if !(1 <= self.power && self.power <= MAX_POWER) {
            return Err(ConfigError::BadPower);
        }
        if !(1 <= self.zoom && self.zoom <= MAX_ZOOM) {
            return Err(ConfigError::BadZoom);
        }
        if !(1 <= self.loop_limit && self.loop_limit <= MAX_LOOPS) {
            return Err(ConfigError::BadLoopLimit);
        }
        if !(1 <= self.speed) {
            return Err(ConfigError::BadSpeed);
        }
        Ok(())
    }
}

} // verus!
