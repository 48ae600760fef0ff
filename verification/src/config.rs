//! Recognized options of the pipeline, with their default values.

use vstd::prelude::*;

verus! {

/// Fixed-point representation of the match score 1.0: scores and thresholds
/// are stored in millionths.
pub const SCORE_UNIT: u32 = 1_000_000;

/// Tuning options of the pipeline. All color distances are sums of absolute
/// per-channel differences (see [`crate::image::color_diff`]); match scores
/// and the locator threshold step are in millionths of the normalized score.
#[derive(Clone, Copy, PartialEq, Eq, Structural, Debug)]
pub struct Config {
    /// A template and frame pixel closer than this count as the same key
    /// surface during note segmentation.
    pub pixel_match_threshold: u32,
    /// A key sample closer than this to the previous frame's sample is
    /// treated as unchanged and skips state evaluation.
    pub between_frames_threshold: u32,
    /// A key sample farther than this from the key's default color counts as
    /// pressed.
    pub color_change_threshold: u32,
    /// How much the locator raises its binarization threshold per sweep, in
    /// millionths of the normalized score.
    pub locator_threshold_step: u32,
    /// The scaler stops once this many candidate widths in a row brought no
    /// better match.
    pub scaler_lookahead_window: usize,
    /// A probe pixel whose first channel sits more than this below the C
    /// key's default color marks the calibration (middle) octave.
    pub middle_octave_gray_threshold: u8,
    /// Ticks of one quarter note in the exported event stream.
    pub midi_ticks_per_quarter_note: u32,
    /// Velocity given to every exported note event.
    pub note_velocity: u8,
}

impl Config {
    /// The locator threshold step must be positive (the sweep must advance)
    /// and no coarser than a full score unit.
    pub open spec fn wf(&self) -> bool {
        1 <= self.locator_threshold_step <= SCORE_UNIT
    }
}

impl Default for Config {
    /// The default option values.
    fn default() -> (c: Config)
        ensures
            c.pixel_match_threshold == 100,
            c.between_frames_threshold == 150,
            c.color_change_threshold == 200,
            c.locator_threshold_step == 20_000,
            c.scaler_lookahead_window == 100,
            c.middle_octave_gray_threshold == 10,
            c.midi_ticks_per_quarter_note == 48,
            c.note_velocity == 127,
            c.wf(),
    {
        Config {
            pixel_match_threshold: 100,
            between_frames_threshold: 150,
            color_change_threshold: 200,
            locator_threshold_step: 20_000,
            scaler_lookahead_window: 100,
            middle_octave_gray_threshold: 10,
            midi_ticks_per_quarter_note: 48,
            note_velocity: 127,
        }
    }
}

} // verus!
