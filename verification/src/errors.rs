//! Fatal calibration failures. Per-frame tracking has no error category: a
//! same-state transition request is the normal `Err` of
//! [`crate::octave::Note::set_pressed`], not a failure.

use vstd::prelude::*;

verus! {

/// Why calibration of the keyboard model failed. Both cases are fatal for
/// the video: no partial keyboard model is produced.
#[derive(Clone, Copy, PartialEq, Eq, Structural, Debug)]
pub enum CalibrationError {
    /// The octave locator's threshold sweep passed its upper bound without a
    /// single octave found.
    KeyboardNotFound,
    /// The matched middle octave sits so far right, or the keyboard spans so
    /// many octaves, that some absolute pitch code would leave `0..=255`.
    PitchCodeOutOfRange,
}

} // verus!
