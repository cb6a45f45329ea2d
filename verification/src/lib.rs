//! Tone-calibration pipeline for photographic printing.
//!
//! The library derives a tone-correction curve from a scanned calibration
//! target: it locates the patch grid in the scan, samples a mean tone per
//! patch, normalizes the samples to the full tonal range, inverts the
//! normalized response into calibration points, and fits a clamped
//! interpolation curve through them.  The fitted curve can then be applied
//! pointwise to any 16-bit grayscale raster.

pub mod analyze;
pub mod curve;
pub mod error;
pub mod grid;
pub mod histogram;
pub mod linearize;
pub mod normalize;
pub mod raster;
pub mod sample;
pub mod step_description;
