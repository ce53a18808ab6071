//! Fixed-point representation and the pipeline's numeric constants.
//!
//! Every analog signal in the pipeline (intensity, firing rate, detector
//! activation) is stored as a signed 64-bit integer holding the real value
//! multiplied by [`SCALE`]. All thresholds below are the real thresholds of
//! the model expressed in that representation.

use vstd::prelude::*;

verus! {

/// One whole unit of signal: the real value 1.0.
pub const SCALE: i64 = 1_000_000;

/// Largest value an edge-map cell can hold: a firing rate is at most
/// `100 * SCALE` and both detectors of a sample point contribute once.
pub const EDGE_MAX: i64 = 200_000_000;

/// Orientation-map threshold: a column is recorded only above 0.1.
pub const ORIENT_THRESHOLD: i64 = 100_000;

/// Corner-map threshold: a junction detector fires only above 1.0.
pub const CORNER_THRESHOLD: i64 = 1_000_000;

/// Shape-map threshold: a shape detector fires only above 5.0.
pub const SHAPE_THRESHOLD: i64 = 5_000_000;

/// Contour seeding threshold on the dilated edge map: 0.5.
pub const SEED_THRESHOLD: i64 = 500_000;

/// Contour stepping threshold on a neighbor cell: 0.01.
pub const STEP_THRESHOLD: i64 = 10_000;

/// Gaussian cross-orientation weight `exp(0)`, fixed point.
pub const GAUSS_Q0: i64 = 1_000_000;

/// Gaussian cross-orientation weight `exp(-1/4)`, fixed point.
pub const GAUSS_Q2: i64 = 778_801;

/// Gaussian cross-orientation weight `exp(-1/2)`, fixed point.
pub const GAUSS_Q4: i64 = 606_531;

/// Gaussian cross-orientation weight `exp(-1)`, fixed point.
pub const GAUSS_Q8: i64 = 367_879;

/// Largest accepted frame side, so that every accumulator below fits in i64.
pub const MAX_DIM: usize = 8_192;

/// Largest accepted receptive-field radius of an oriented filter.
pub const MAX_RF: usize = 100;

/// Largest accepted ganglion radius, in tenths of a pixel.
pub const MAX_RADIUS_TENTHS: usize = 1_000;

} // verus!
