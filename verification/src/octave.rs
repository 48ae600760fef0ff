//! One octave of the keyboard: twelve keys in fixed pitch-class order, cut
//! out of the frame by per-pixel color comparison against the template.

use vstd::prelude::*;
use vstd::string::StringExecFns;
use crate::config::Config;
use crate::image::{Anchor, Frame, Rgb, Template};

verus! {

/// One key of the keyboard.
///
/// `code` starts as the key's pitch class (0–11) and becomes the absolute
/// pitch code during calibration; `x`/`y` is the fixed pixel the key is
/// sampled at; `default_color` is the frame's color there at calibration
/// time. `pressed` is the only field that changes after calibration, and
/// only through [`Note::set_pressed`].
#[derive(Clone, Copy, PartialEq, Eq, Structural, Debug)]
pub struct Note {
    pub code: u8,
    pub x: usize,
    pub y: usize,
    pub default_color: Rgb,
    pub pressed: bool,
}

/// A contiguous keyboard segment of exactly twelve keys, one per pitch
/// class, in C..B order.
pub struct Octave {
    pub notes: Vec<Note>,
}

/// Start of pitch class `j`'s share of a template `tw` pixels wide: the
/// strip is divided into twelve equal contiguous ranges.
pub open spec fn range_lo(tw: int, j: int) -> int {
    (tw * j) / 12
}

/// One-past-the-end of pitch class `j`'s share of the template.
pub open spec fn range_hi(tw: int, j: int) -> int {
    (tw * (j + 1)) / 12
}

/// The sample column of pitch class `j`, relative to the octave's anchor:
/// the midpoint of its tracked bound, which starts as the class's full
/// range.
pub open spec fn note_mid(tw: int, j: int) -> int {
    (range_lo(tw, j) + range_hi(tw, j)) / 2
}

/// What the note segmenter produces for pitch class `j` of an octave
/// anchored at `a`: the key sampled at the midpoint of its range, with the
/// frame's color there, released.
pub open spec fn spec_note_at(a: Anchor, frame: &Frame, tw: int, j: int) -> Note {
    Note {
        code: j as u8,
        x: (a.x + note_mid(tw, j)) as usize,
        y: a.y,
        default_color: frame.pixel(a.y as int, a.x + note_mid(tw, j)),
        pressed: false,
    }
}

/// Whether `o` is exactly the twelve keys the segmenter cuts out of the
/// octave anchored at `a`, before absolute pitch codes are assigned.
pub open spec fn octave_located_at(o: Octave, a: Anchor, frame: &Frame, tw: int) -> bool {
    &&& o.notes@.len() == 12
    &&& forall|j: int| 0 <= j < 12 ==> o.notes@[j] == spec_note_at(a, frame, tw, j)
}

impl Octave {
    pub open spec fn wf(&self) -> bool {
        self.notes@.len() == 12
    }

    /// The note segmenter: subdivides the octave anchored at `a` into twelve
    /// keys. Each pitch class scans its share of the template width for
    /// columns whose frame color is close to the template's and widens its
    /// tracked bound to include them; since the bound starts as the class's
    /// full range, the key is sampled at that range's midpoint.
    pub fn new(a: Anchor, frame: &Frame, template: &Template, cfg: &Config) -> (o: Octave)
        requires
            frame.wf(),
            template.wf(),
            template.width >= 1,
            template.width * 12 <= usize::MAX,
            a.x + template.width <= frame.width,
            a.y < frame.height,
        ensures
            octave_located_at(o, a, frame, template.width as int),
            o.wf(),
    {
        let tw = template.width;
        let mut notes: Vec<Note> = Vec::new();
        let mut note: usize = 0;
        while note < 12
            invariant
                frame.wf(),
                template.wf(),
                1 <= tw == template.width,
                tw * 12 <= usize::MAX,
                a.x + tw <= frame.width,
                a.y < frame.height,
                note <= 12,
                notes@.len() == note,
                forall|j: int|
                    0 <= j < note ==> notes@[j] == spec_note_at(a, frame, tw as int, j),
            decreases 12 - note,
        {
            proof {
                lemma_range_bounds(tw as int, note as int);
                assert(tw * note <= tw * 12 && tw * (note + 1) <= tw * 12) by (nonlinear_arith)
                    requires
                        1 <= tw,
                        note < 12,
                ;
            }
            // Bounds of the current note's tracked pixel range.
            let mut min_x: usize = (tw * note) / 12;
            let mut max_x: usize = (tw * (note + 1)) / 12;
            let ghost lo = min_x as int;
            let ghost hi = max_x as int;

            // Widen the bound to include every column whose frame color is
            // close to the template's color at the same offset.
            let mut x: usize = min_x;
            while x < max_x
                invariant
                    frame.wf(),
                    template.wf(),
                    tw == template.width,
                    a.x + tw <= frame.width,
                    a.y < frame.height,
                    min_x == lo,
                    max_x == hi,
                    lo <= x,
                    hi <= tw,
                decreases max_x - x,
            {
                let octave_pixel = frame.at(a.y, a.x + x);
                let template_pixel = template.at(x);
                let pixel_diff = template_pixel.diff(octave_pixel);
                if pixel_diff < cfg.pixel_match_threshold {
                    if x < min_x {
                        min_x = x;
                    }
                    if x > max_x {
                        max_x = x;
                    }
                }
                x = x + 1;
            }

            let avg_x = (min_x + max_x) / 2;
            proof {
                lemma_mid_bounds(tw as int, note as int);
            }
            notes.push(Note {
                code: note as u8,
                x: a.x + avg_x,
                y: a.y,
                default_color: frame.at(a.y, a.x + avg_x),
                pressed: false,
            });
            note = note + 1;
        }
        Octave { notes }
    }
}

/// Each pitch class's range sits inside the template and its bounds are
/// ordered.
proof fn lemma_range_bounds(tw: int, j: int)
    requires
        tw >= 1,
        0 <= j < 12,
    ensures
        0 <= range_lo(tw, j) <= range_hi(tw, j) <= tw,
{
    assert(0 <= (tw * j) / 12 && (tw * j) / 12 <= (tw * (j + 1)) / 12 && (tw * (j + 1)) / 12
        <= tw) by (nonlinear_arith)
        requires
            tw >= 1,
            0 <= j < 12,
    ;
}

/// The sample midpoint of every pitch class lands strictly inside the
/// template width.
pub proof fn lemma_mid_bounds(tw: int, j: int)
    requires
        tw >= 1,
        0 <= j < 12,
    ensures
        0 <= note_mid(tw, j) < tw,
{
    assert(0 <= ((tw * j) / 12 + (tw * (j + 1)) / 12) / 2 && ((tw * j) / 12 + (tw * (j + 1))
        / 12) / 2 < tw) by (nonlinear_arith)
        requires
            tw >= 1,
            0 <= j < 12,
    ;
}

/// The `Ok` values of a run of [`Note::set_pressed`] requests on a note
/// whose stored state starts at `p0`. Per that function's contract, a call
/// leaves the note in the requested state whether or not it fired, and
/// returns `Ok` exactly when the state changed.
pub open spec fn ok_results(p0: bool, reqs: Seq<bool>) -> Seq<bool>
    decreases reqs.len(),
{
    if reqs.len() == 0 {
        Seq::empty()
    } else {
        let fired = if reqs[0] != p0 {
            seq![reqs[0]]
        } else {
            Seq::<bool>::empty()
        };
        fired + ok_results(reqs[0], reqs.drop_first())
    }
}

/// Edge-triggered transitions never repeat: over any sequence of requests
/// on a note starting in state `p0`, the `Ok` results strictly alternate,
/// beginning with `!p0` — no duplicate events, and every actual state
/// change yields one.
pub proof fn lemma_set_pressed_alternates(p0: bool, reqs: Seq<bool>)
    ensures
        forall|k: int|
            0 <= k < ok_results(p0, reqs).len() ==> #[trigger] ok_results(p0, reqs)[k] == (
            if k % 2 == 0 {
                !p0
            } else {
                p0
            }),
    decreases reqs.len(),
{
    if reqs.len() > 0 {
        if reqs[0] == p0 {
            lemma_set_pressed_alternates(p0, reqs.drop_first());
            assert(ok_results(p0, reqs) =~= ok_results(p0, reqs.drop_first()));
        } else {
            lemma_set_pressed_alternates(reqs[0], reqs.drop_first());
            let rest = ok_results(reqs[0], reqs.drop_first());
            assert(ok_results(p0, reqs) =~= seq![reqs[0]] + rest);
            assert forall|k: int| 0 <= k < ok_results(p0, reqs).len() implies #[trigger] ok_results(
                p0,
                reqs,
            )[k] == (if k % 2 == 0 {
                !p0
            } else {
                p0
            }) by {
                if k == 0 {
                    assert(ok_results(p0, reqs)[0] == reqs[0]);
                } else {
                    assert(ok_results(p0, reqs)[k] == rest[k - 1]);
                    assert(rest[k - 1] == (if (k - 1) % 2 == 0 {
                        !reqs[0]
                    } else {
                        reqs[0]
                    }));
                }
            }
        }
    }
}

/// Decimal digit characters.
pub open spec fn digit_char(d: int) -> char {
    if d == 0 {
        '0'
    } else if d == 1 {
        '1'
    } else if d == 2 {
        '2'
    } else if d == 3 {
        '3'
    } else if d == 4 {
        '4'
    } else if d == 5 {
        '5'
    } else if d == 6 {
        '6'
    } else if d == 7 {
        '7'
    } else if d == 8 {
        '8'
    } else {
        '9'
    }
}

/// The decimal digits of an octave number. Codes fit a byte, so the number
/// has at most two digits.
pub open spec fn octave_digits(n: int) -> Seq<char> {
    if n < 10 {
        seq![digit_char(n)]
    } else {
        seq![digit_char(n / 10), digit_char(n % 10)]
    }
}

/// The two-character printed name of a pitch class, sharps padded flush.
pub open spec fn pitch_class_name(pc: int) -> Seq<char> {
    if pc == 0 {
        "C "@
    } else if pc == 1 {
        "C#"@
    } else if pc == 2 {
        "D "@
    } else if pc == 3 {
        "D#"@
    } else if pc == 4 {
        "E "@
    } else if pc == 5 {
        "F "@
    } else if pc == 6 {
        "F#"@
    } else if pc == 7 {
        "G "@
    } else if pc == 8 {
        "G#"@
    } else if pc == 9 {
        "A "@
    } else if pc == 10 {
        "A#"@
    } else {
        "B "@
    }
}

/// One decimal digit as text.
fn digit_str(d: u8) -> (r: &'static str)
    requires
        d <= 9,
    ensures
        r@ =~= seq![digit_char(d as int)],
{
    proof {
        reveal_strlit("0");
        reveal_strlit("1");
        reveal_strlit("2");
        reveal_strlit("3");
        reveal_strlit("4");
        reveal_strlit("5");
        reveal_strlit("6");
        reveal_strlit("7");
        reveal_strlit("8");
        reveal_strlit("9");
    }
    match d {
        0 => "0",
        1 => "1",
        2 => "2",
        3 => "3",
        4 => "4",
        5 => "5",
        6 => "6",
        7 => "7",
        8 => "8",
        _ => "9",
    }
}

impl Note {
    /// Requests a state transition. `Err(false)` is the "nothing to report"
    /// signal: the note already was in the requested state. On an actual
    /// edge the stored state flips and `Ok` carries the new state.
    pub fn set_pressed(&mut self, pressed: bool) -> (r: Result<bool, bool>)
        ensures
            old(self).pressed == pressed ==> r == Err::<bool, bool>(false) && *final(self)
                == *old(self),
            old(self).pressed != pressed ==> r == Ok::<bool, bool>(pressed) && *final(self)
                == (Note { pressed, ..*old(self) }),
    {
        if self.pressed == pressed {
            return Err(false);
        }
        self.pressed = pressed;
        Ok(pressed)
    }

    /// The key's human-readable name: its pitch class, a space, and its
    /// octave number (one less than the code's octave, matching the usual
    /// naming where middle C is C4). Codes under twelve have no printable
    /// octave number.
    pub fn to_string(&self) -> (r: String)
        requires
            self.code >= 12,
        ensures
            r@ =~= pitch_class_name(self.code as int % 12) + " "@ + octave_digits(
                self.code as int / 12 - 1,
            ),
    {
        let octave_number: u8 = self.code / 12 - 1;
        let note_number: u8 = self.code % 12;
        let name: &'static str = match note_number {
            0 => "C ",
            1 => "C#",
            2 => "D ",
            3 => "D#",
            4 => "E ",
            5 => "F ",
            6 => "F#",
            7 => "G ",
            8 => "G#",
            9 => "A ",
            10 => "A#",
            _ => "B ",
        };
        let mut s = String::from_str(name);
        s.append(" ");
        if octave_number >= 10 {
            s.append(digit_str(octave_number / 10));
        }
        s.append(digit_str(octave_number % 10));
        proof {
            assert(name@ == pitch_class_name(self.code as int % 12));
        }
        s
    }
}

} // verus!
