//! The template scaler: a linear search over candidate widths for the one
//! whose resized frame matches the reference template best.
//!
//! Resizing and matching are imaging work done by the caller; this state
//! machine owns every decision of the search. The caller repeatedly asks
//! for [`ScalerSearch::next_candidate_width`], matches the frame resized to
//! that width against the template, and hands the resulting score to
//! [`ScalerSearch::offer`], until [`ScalerSearch::is_finished`]. Scores are
//! fixed-point: [`crate::config::SCORE_UNIT`] is 1.0, lower is better.

use vstd::prelude::*;
use vstd::arithmetic::div_mod::{lemma_fundamental_div_mod, lemma_mod_bound};
use crate::config::{Config, SCORE_UNIT};

verus! {

/// State of the scale search. Candidate widths run from the template's
/// native width towards the frame's width; the best (lowest) score seen so
/// far and its width are kept, starting from a default of a full score
/// unit at the native width.
pub struct ScalerSearch {
    /// The template's own width, the first candidate.
    pub native_width: usize,
    /// The frame's width, one past the last candidate.
    pub frame_width: usize,
    /// The search stops once this many widths in a row brought no
    /// improvement.
    pub lookahead: usize,
    /// The width the next score must be measured at.
    pub next_width: usize,
    /// The candidate width of the best score seen so far.
    pub best_width: usize,
    /// The best (lowest) score seen so far.
    pub best_score: u32,
    /// No further candidate is wanted.
    pub finished: bool,
    /// Every score offered so far, in candidate order: `scores@[k]` was
    /// measured at width `native_width + k`.
    pub scores: Ghost<Seq<u32>>,
}

impl ScalerSearch {
    /// The search's invariant. In particular the best score is never worse
    /// than the initial default of one full score unit, nor than any score
    /// offered so far.
    pub open spec fn wf(&self) -> bool {
        &&& 1 <= self.native_width
        &&& self.native_width <= self.best_width
        &&& self.best_width <= self.next_width
        &&& self.next_width == self.native_width + self.scores@.len()
        &&& self.best_score <= SCORE_UNIT
        &&& forall|k: int|
            0 <= k < self.scores@.len() ==> self.best_score <= #[trigger] self.scores@[k]
        &&& (!self.finished ==> self.next_width < self.frame_width)
    }

    /// Start a search for a template of `native_width` against a frame of
    /// `frame_width`. With no room to search (the template no narrower
    /// than the frame) the search is born finished and the native width
    /// stands.
    pub fn new(native_width: usize, frame_width: usize, cfg: &Config) -> (s: ScalerSearch)
        requires
            1 <= native_width,
        ensures
            s.wf(),
            s.native_width == native_width,
            s.frame_width == frame_width,
            s.lookahead == cfg.scaler_lookahead_window,
            s.next_width == native_width,
            s.best_width == native_width,
            s.best_score == SCORE_UNIT,
            s.finished == (native_width >= frame_width),
            s.scores@ =~= Seq::<u32>::empty(),
    {
        ScalerSearch {
            native_width,
            frame_width,
            lookahead: cfg.scaler_lookahead_window,
            next_width: native_width,
            best_width: native_width,
            best_score: SCORE_UNIT,
            finished: native_width >= frame_width,
            scores: Ghost(Seq::empty()),
        }
    }

    /// The candidate width the next offered score must be measured at.
    pub fn next_candidate_width(&self) -> (w: usize)
        requires
            !self.finished,
        ensures
            w == self.next_width,
    {
        self.next_width
    }

    pub fn is_finished(&self) -> (b: bool)
        ensures
            b == self.finished,
    {
        self.finished
    }

    /// Take the match score measured at the current candidate width: keep
    /// it if it strictly improves on the best seen, then stop the search on
    /// a perfect score, once the lookahead window past the best width is
    /// exhausted, or when the candidates run out.
    pub fn offer(&mut self, score: u32)
        requires
            old(self).wf(),
            !old(self).finished,
        ensures
            final(self).wf(),
            final(self).native_width == old(self).native_width,
            final(self).frame_width == old(self).frame_width,
            final(self).lookahead == old(self).lookahead,
            final(self).scores@ =~= old(self).scores@.push(score),
            final(self).next_width == old(self).next_width + 1,
            score < old(self).best_score ==> final(self).best_score == score
                && final(self).best_width == old(self).next_width,
            score >= old(self).best_score ==> final(self).best_score == old(self).best_score
                && final(self).best_width == old(self).best_width,
            final(self).finished == (score == 0 || old(self).next_width - final(self).best_width
                > final(self).lookahead || old(self).next_width + 1 >= old(self).frame_width),
    {
        let w = self.next_width;
        if score < self.best_score {
            self.best_score = score;
            self.best_width = w;
        }
        let mut fin = false;
        if score == 0 {
            fin = true;
        }
        if w - self.best_width > self.lookahead {
            fin = true;
        }
        self.next_width = w + 1;
        if self.next_width >= self.frame_width {
            fin = true;
        }
        self.finished = fin;
        proof {
            self.scores@ = self.scores@.push(score);
        }
    }

    /// The width the reference template is to be resized to once the
    /// search is done: the native width times the whole number of times
    /// the best-matching width fits into the frame's width. Never wider
    /// than the frame.
    pub fn scaled_template_width(&self) -> (r: usize)
        requires
            self.wf(),
        ensures
            r == self.native_width * (self.frame_width as int / self.best_width as int),
            r <= self.frame_width,
    {
        let q = self.frame_width / self.best_width;
        proof {
            lemma_fundamental_div_mod(self.frame_width as int, self.best_width as int);
            lemma_mod_bound(self.frame_width as int, self.best_width as int);
            assert(self.native_width * (q as int) <= self.best_width * (q as int))
                by (nonlinear_arith)
                requires
                    self.native_width <= self.best_width,
                    0 <= q,
            ;
        }
        self.native_width * q
    }
}

/// The scale the search settles on never matches worse than the first
/// candidate — the template's own native width — did: the best score only
/// ever moves down from what has been seen.
pub proof fn lemma_scale_never_worse_than_native(s: &ScalerSearch)
    requires
        s.wf(),
        s.scores@.len() >= 1,
    ensures
        s.best_score <= s.scores@[0],
        s.best_score <= SCORE_UNIT,
{
}

} // verus!
