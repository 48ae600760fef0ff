//! Keyboard-recognition and key-state-tracking pipeline for a piano played on
//! video.
//!
//! The library works on plain pixel data: a [`image::Frame`] is a grid of RGB
//! samples, a [`image::Template`] is a one-row strip spanning one octave of
//! key colors, and a [`image::ScoreGrid`] is a template-match score surface in
//! fixed-point units (`config::SCORE_UNIT` stands for a score of 1.0, lower is
//! better). The caller's imaging layer decodes video frames and computes the
//! match surface; everything that decides — locating octaves, cutting an
//! octave into twelve keys, assigning absolute pitches, tracking presses and
//! releases, and emitting timed events — lives here and is verified.

pub mod config;
pub mod errors;
pub mod events;
pub mod image;
pub mod locator;
pub mod octave;
pub mod piano;
pub mod scaler;
pub mod tracker;
