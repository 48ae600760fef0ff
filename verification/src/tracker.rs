//! The key state tracker: once per frame, every key's pixel is sampled,
//! compared against the previous frame's sample and the key's default
//! color, and an edge-triggered press/release transition is emitted when —
//! and only when — the key's discrete state changes.

use vstd::prelude::*;
use crate::config::Config;
use crate::image::{color_diff, Frame, Rgb};
use crate::octave::{Note, Octave};
use crate::piano::Piano;

verus! {

/// The color each key showed on the previous frame, refreshed every frame
/// whether or not a transition fired.
pub struct Cache {
    pub colors: Vec<Vec<Rgb>>,
}

impl Cache {
    /// One cached color per key of the piano.
    pub open spec fn matches(&self, p: &Piano) -> bool {
        &&& self.colors@.len() == p.octaves@.len()
        &&& forall|i: int|
            0 <= i < p.octaves@.len() ==> (#[trigger] self.colors@[i])@.len() == 12
    }

    /// A fresh cache holds every key's default color.
    pub fn new(p: &Piano) -> (c: Cache)
        requires
            p.wf(),
        ensures
            c.matches(p),
            forall|i: int, j: int|
                0 <= i < p.octaves@.len() && 0 <= j < 12 ==> (#[trigger] c.colors@[i]@[j])
                    == p.octaves@[i].notes@[j].default_color,
    {
        let n = p.octaves.len();
        let mut colors: Vec<Vec<Rgb>> = Vec::new();
        let mut i: usize = 0;
        while i < n
            invariant
                p.wf(),
                n == p.octaves@.len(),
                i <= n,
                colors@.len() == i,
                forall|a: int| 0 <= a < i ==> (#[trigger] colors@[a])@.len() == 12,
                forall|a: int, j: int|
                    0 <= a < i && 0 <= j < 12 ==> (#[trigger] colors@[a]@[j])
                        == p.octaves@[a].notes@[j].default_color,
            decreases n - i,
        {
            let mut row: Vec<Rgb> = Vec::new();
            let mut j: usize = 0;
            while j < 12
                invariant
                    p.wf(),
                    n == p.octaves@.len(),
                    i < n,
                    j <= 12,
                    row@.len() == j,
                    forall|jj: int|
                        0 <= jj < j ==> (#[trigger] row@[jj])
                            == p.octaves@[i as int].notes@[jj].default_color,
                decreases 12 - j,
            {
                row.push(p.octaves[i].notes[j].default_color);
                j = j + 1;
            }
            colors.push(row);
            i = i + 1;
        }
        Cache { colors }
    }
}

/// One fired transition: which key, its pitch code, and its new state.
#[derive(Clone, Copy, PartialEq, Eq, Structural, Debug)]
pub struct Transition {
    pub octave: usize,
    pub note: usize,
    pub code: u8,
    pub pressed: bool,
}

/// The noise gate: a sample this close to the previous frame's sample
/// skips state evaluation for this frame.
pub open spec fn step_skips(prev: Rgb, sample: Rgb, cfg: &Config) -> bool {
    color_diff(sample, prev) <= cfg.between_frames_threshold
}

/// A key's discrete state after one frame: unchanged when the noise gate
/// closes, else pressed exactly when the sample strays farther than the
/// color threshold from the key's default color.
pub open spec fn step_pressed(
    pressed: bool,
    prev: Rgb,
    dflt: Rgb,
    sample: Rgb,
    cfg: &Config,
) -> bool {
    if step_skips(prev, sample, cfg) {
        pressed
    } else {
        color_diff(sample, dflt) > cfg.color_change_threshold
    }
}

/// The edge trigger: a transition fires only when the newly classified
/// state differs from the stored one.
pub open spec fn step_event(
    pressed: bool,
    prev: Rgb,
    dflt: Rgb,
    sample: Rgb,
    cfg: &Config,
) -> Option<bool> {
    let p1 = step_pressed(pressed, prev, dflt, sample, cfg);
    if !step_skips(prev, sample, cfg) && p1 != pressed {
        Option::Some(p1)
    } else {
        Option::None
    }
}

/// The color the tracker samples for key `(i, j)` of `p` on `f`.
pub open spec fn sample_of(p: &Piano, f: &Frame, i: int, j: int) -> Rgb {
    f.pixel(p.octaves@[i].notes@[j].y as int, p.octaves@[i].notes@[j].x as int)
}

/// The transitions key `(i, j)` contributes this frame.
pub open spec fn key_transition(
    p: &Piano,
    c: &Cache,
    f: &Frame,
    cfg: &Config,
    i: int,
    j: int,
) -> Seq<Transition> {
    let n = p.octaves@[i].notes@[j];
    match step_event(n.pressed, c.colors@[i]@[j], n.default_color, sample_of(p, f, i, j), cfg) {
        Option::Some(b) => seq![
            Transition { octave: i as usize, note: j as usize, code: n.code, pressed: b },
        ],
        Option::None => Seq::empty(),
    }
}

/// The transitions of octave `i`'s first `j` keys, in key order.
pub open spec fn transitions_in_octave(
    p: &Piano,
    c: &Cache,
    f: &Frame,
    cfg: &Config,
    i: int,
    j: int,
) -> Seq<Transition>
    decreases j,
{
    if j <= 0 {
        Seq::empty()
    } else {
        transitions_in_octave(p, c, f, cfg, i, j - 1) + key_transition(p, c, f, cfg, i, j - 1)
    }
}

/// The transitions of the first `i` octaves, octave by octave.
pub open spec fn transitions_upto(
    p: &Piano,
    c: &Cache,
    f: &Frame,
    cfg: &Config,
    i: int,
) -> Seq<Transition>
    decreases i,
{
    if i <= 0 {
        Seq::empty()
    } else {
        transitions_upto(p, c, f, cfg, i - 1) + transitions_in_octave(p, c, f, cfg, i - 1, 12)
    }
}

/// Every transition the whole keyboard fires this frame, in key order.
pub open spec fn spec_transitions(p: &Piano, c: &Cache, f: &Frame, cfg: &Config) -> Seq<
    Transition,
> {
    transitions_upto(p, c, f, cfg, p.octaves@.len() as int)
}

/// Run the tracker over one frame: sample every key, refresh the cache
/// unconditionally, flip each key's state as [`step_pressed`] says, and
/// return exactly the edge-triggered transitions, in key order.
pub fn track_frame(piano: &mut Piano, cache: &mut Cache, frame: &Frame, cfg: &Config) -> (trans:
    Vec<Transition>)
    requires
        old(piano).wf(),
        old(cache).matches(old(piano)),
        frame.wf(),
        forall|i: int, j: int|
            0 <= i < old(piano).octaves@.len() && 0 <= j < 12 ==> (
            #[trigger] old(piano).octaves@[i].notes@[j]).x < frame.width
                && old(piano).octaves@[i].notes@[j].y < frame.height,
    ensures
        final(piano).wf(),
        final(piano).octaves@.len() == old(piano).octaves@.len(),
        final(cache).matches(final(piano)),
        forall|i: int, j: int|
            0 <= i < old(piano).octaves@.len() && 0 <= j < 12 ==> {
                let n1 = (#[trigger] final(piano).octaves@[i].notes@[j]);
                let n0 = old(piano).octaves@[i].notes@[j];
                &&& n1.code == n0.code
                &&& n1.x == n0.x
                &&& n1.y == n0.y
                &&& n1.default_color == n0.default_color
                &&& n1.pressed == step_pressed(
                    n0.pressed,
                    old(cache).colors@[i]@[j],
                    n0.default_color,
                    sample_of(old(piano), frame, i, j),
                    cfg,
                )
                &&& final(cache).colors@[i]@[j] == sample_of(old(piano), frame, i, j)
            },
        trans@ == spec_transitions(old(piano), old(cache), frame, cfg),
{
    let n_oct = piano.octaves.len();
    let mut new_octs: Vec<Octave> = Vec::new();
    let mut new_cache: Vec<Vec<Rgb>> = Vec::new();
    let mut trans: Vec<Transition> = Vec::new();
    let mut i: usize = 0;
    while i < n_oct
        invariant
            piano.octaves@ == old(piano).octaves@,
            cache.colors@ == old(cache).colors@,
            old(piano).wf(),
            old(cache).matches(old(piano)),
            frame.wf(),
            forall|a: int, j: int|
                0 <= a < old(piano).octaves@.len() && 0 <= j < 12 ==> (
                #[trigger] old(piano).octaves@[a].notes@[j]).x < frame.width
                    && old(piano).octaves@[a].notes@[j].y < frame.height,
            n_oct == old(piano).octaves@.len(),
            i <= n_oct,
            new_octs@.len() == i,
            new_cache@.len() == i,
            forall|a: int| 0 <= a < i ==> (#[trigger] new_octs@[a]).wf(),
            forall|a: int| 0 <= a < i ==> (#[trigger] new_cache@[a])@.len() == 12,
            forall|a: int, j: int|
                0 <= a < i && 0 <= j < 12 ==> {
                    let n1 = (#[trigger] new_octs@[a].notes@[j]);
                    let n0 = old(piano).octaves@[a].notes@[j];
                    &&& n1.code == n0.code
                    &&& n1.x == n0.x
                    &&& n1.y == n0.y
                    &&& n1.default_color == n0.default_color
                    &&& n1.pressed == step_pressed(
                        n0.pressed,
                        old(cache).colors@[a]@[j],
                        n0.default_color,
                        sample_of(old(piano), frame, a, j),
                        cfg,
                    )
                    &&& new_cache@[a]@[j] == sample_of(old(piano), frame, a, j)
                },
            trans@ == transitions_upto(old(piano), old(cache), frame, cfg, i as int),
        decreases n_oct - i,
    {
        let mut notes: Vec<Note> = Vec::new();
        let mut row: Vec<Rgb> = Vec::new();
        let mut j: usize = 0;
        while j < 12
            invariant
                piano.octaves@ == old(piano).octaves@,
                cache.colors@ == old(cache).colors@,
                old(piano).wf(),
                old(cache).matches(old(piano)),
                frame.wf(),
                forall|a: int, jj: int|
                    0 <= a < old(piano).octaves@.len() && 0 <= jj < 12 ==> (
                    #[trigger] old(piano).octaves@[a].notes@[jj]).x < frame.width
                        && old(piano).octaves@[a].notes@[jj].y < frame.height,
                n_oct == old(piano).octaves@.len(),
                i < n_oct,
                j <= 12,
                notes@.len() == j,
                row@.len() == j,
                forall|jj: int|
                    0 <= jj < j ==> {
                        let n1 = (#[trigger] notes@[jj]);
                        let n0 = old(piano).octaves@[i as int].notes@[jj];
                        &&& n1.code == n0.code
                        &&& n1.x == n0.x
                        &&& n1.y == n0.y
                        &&& n1.default_color == n0.default_color
                        &&& n1.pressed == step_pressed(
                            n0.pressed,
                            old(cache).colors@[i as int]@[jj],
                            n0.default_color,
                            sample_of(old(piano), frame, i as int, jj),
                            cfg,
                        )
                        &&& row@[jj] == sample_of(old(piano), frame, i as int, jj)
                    },
                trans@ == transitions_upto(old(piano), old(cache), frame, cfg, i as int)
                    + transitions_in_octave(old(piano), old(cache), frame, cfg, i as int, j as int),
        decreases 12 - j,
        {
            let ghost trans_pre = trans@;
            let mut note = piano.octaves[i].notes[j];
            let sample = frame.at(note.y, note.x);
            let prev = cache.colors[i][j];
            let diff_prev = sample.diff(prev);
            if diff_prev > cfg.between_frames_threshold {
                let diff_dflt = sample.diff(note.default_color);
                let classified = diff_dflt > cfg.color_change_threshold;
                let result = note.set_pressed(classified);
                match result {
                    Result::Ok(pressed) => {
                        trans.push(
                            Transition { octave: i, note: j, code: note.code, pressed },
                        );
                    },
                    Result::Err(_) => {},
                }
            }
            proof {
                assert(trans@ =~= trans_pre + key_transition(
                    old(piano),
                    old(cache),
                    frame,
                    cfg,
                    i as int,
                    j as int,
                ));
                assert(transitions_in_octave(
                    old(piano),
                    old(cache),
                    frame,
                    cfg,
                    i as int,
                    j as int + 1,
                ) =~= transitions_in_octave(old(piano), old(cache), frame, cfg, i as int, j as int)
                    + key_transition(old(piano), old(cache), frame, cfg, i as int, j as int));
                assert(trans@ =~= transitions_upto(old(piano), old(cache), frame, cfg, i as int)
                    + transitions_in_octave(
                    old(piano),
                    old(cache),
                    frame,
                    cfg,
                    i as int,
                    j as int + 1,
                ));
            }
            row.push(sample);
            notes.push(note);
            j = j + 1;
        }
        new_octs.push(Octave { notes });
        new_cache.push(row);
        proof {
            assert(transitions_upto(old(piano), old(cache), frame, cfg, i as int + 1)
                =~= transitions_upto(old(piano), old(cache), frame, cfg, i as int)
                + transitions_in_octave(old(piano), old(cache), frame, cfg, i as int, 12));
        }
        i = i + 1;
    }
    piano.octaves = new_octs;
    cache.colors = new_cache;
    trans
}

/// The events one key fires over a run of samples, as `(frame index, new
/// state)` pairs: the key starts at `pressed` with `prev` cached, sample
/// `k` of the run arrives at frame `t + k`.
pub open spec fn key_events_from(
    pressed: bool,
    prev: Rgb,
    dflt: Rgb,
    samples: Seq<Rgb>,
    t: int,
    cfg: &Config,
) -> Seq<(int, bool)>
    decreases samples.len(),
{
    if samples.len() == 0 {
        Seq::empty()
    } else {
        let here = match step_event(pressed, prev, dflt, samples[0], cfg) {
            Option::Some(b) => seq![(t, b)],
            Option::None => Seq::empty(),
        };
        here + key_events_from(
            step_pressed(pressed, prev, dflt, samples[0], cfg),
            samples[0],
            dflt,
            samples.drop_first(),
            t + 1,
            cfg,
        )
    }
}

/// Edge-triggered tracking: a key resting at its default color, held at a
/// press color for frames two and three, and back at its default from
/// frame four, fires exactly a press at frame two and a release at frame
/// four — no duplicates, and nothing on frames whose color repeats the
/// previous frame's.
pub proof fn lemma_edge_triggered(dflt: Rgb, pressed_color: Rgb, cfg: &Config)
    requires
        color_diff(pressed_color, dflt) > cfg.between_frames_threshold,
        color_diff(pressed_color, dflt) > cfg.color_change_threshold,
    ensures
        key_events_from(
            false,
            dflt,
            dflt,
            seq![dflt, dflt, pressed_color, pressed_color, dflt, dflt],
            0,
            cfg,
        ) =~= seq![(2int, true), (4int, false)],
{
    let s0 = seq![dflt, dflt, pressed_color, pressed_color, dflt, dflt];
    let s1 = seq![dflt, pressed_color, pressed_color, dflt, dflt];
    let s2 = seq![pressed_color, pressed_color, dflt, dflt];
    let s3 = seq![pressed_color, dflt, dflt];
    let s4 = seq![dflt, dflt];
    let s5 = seq![dflt];
    let s6 = Seq::<Rgb>::empty();
    assert(s0.drop_first() =~= s1);
    assert(s1.drop_first() =~= s2);
    assert(s2.drop_first() =~= s3);
    assert(s3.drop_first() =~= s4);
    assert(s4.drop_first() =~= s5);
    assert(s5.drop_first() =~= s6);
    assert(color_diff(dflt, dflt) == 0);
    assert(color_diff(pressed_color, pressed_color) == 0);
    assert(color_diff(dflt, pressed_color) == color_diff(pressed_color, dflt));
    assert(key_events_from(false, dflt, dflt, s6, 6, cfg) =~= Seq::<(int, bool)>::empty());
    assert(key_events_from(false, dflt, dflt, s5, 5, cfg) =~= Seq::<(int, bool)>::empty());
    assert(key_events_from(true, pressed_color, dflt, s4, 4, cfg) =~= seq![(4int, false)]);
    assert(key_events_from(true, pressed_color, dflt, s3, 3, cfg) =~= seq![(4int, false)]);
    assert(key_events_from(false, dflt, dflt, s2, 2, cfg) =~= seq![(2int, true), (4int, false)]);
    assert(key_events_from(false, dflt, dflt, s1, 1, cfg) =~= seq![(2int, true), (4int, false)]);
    assert(key_events_from(false, dflt, dflt, s0, 0, cfg) =~= seq![(2int, true), (4int, false)]);
}

} // verus!
