//! Fixed bounds and thresholds shared by the detectors and the tuner display.

use vstd::prelude::*;

verus! {

/// Lowest frequency, in Hertz, that a detector looks for.
pub const MIN_FREQ: u32 = 20;

/// Highest frequency, in Hertz, that a detector looks for.
pub const MAX_FREQ: u32 = 2000;

/// Number of integer steps that stand for one unit of cepstrum amplitude.
pub const AMPLITUDE_UNIT: i32 = 1024;

/// Least distance, in bins, between two peaks that the power cepstrum keeps.
pub const MIN_PEAK_DISTANCE: usize = 60;

/// Least prominence, in integer steps, of a peak that the power cepstrum keeps:
/// ten units of amplitude.
pub const MIN_PEAK_PROMINENCE: i32 = 10 * AMPLITUDE_UNIT;

/// Number of cents between two neighbouring notes.
pub const NUM_CENTS_BETWEEN_NOTES: u16 = 100;

/// Largest distance, in cents, from a note at which a pitch still counts as in tune.
pub const MAX_CENTS_OFFSET: u16 = 10;

/// Number of steps to one cent in the offset that the tuner display takes.
pub const STEPS_PER_CENT: u16 = 100;

} // verus!
