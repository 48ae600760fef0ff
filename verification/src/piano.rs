//! The calibrated keyboard model: octaves located on the frame, sorted
//! left-to-right, the calibration-marker octave found, and every key given
//! its absolute pitch code.

use vstd::prelude::*;
use vstd::multiset::Multiset;
use crate::config::Config;
use crate::errors::CalibrationError;
use crate::image::{Anchor, Frame, ScoreGrid, Template};
use crate::locator::{anchors_found_at_index, locate_octaves, located_by_sweep,
    no_threshold_finds};
use crate::octave::{lemma_mid_bounds, note_mid, octave_located_at, spec_note_at, Note, Octave};

verus! {

pub const NOTE_C: usize = 0;

pub const NOTE_CSHARP: usize = 1;

pub const NOTE_D: usize = 2;

pub const NOTE_DSHARP: usize = 3;

pub const NOTE_E: usize = 4;

pub const NOTE_F: usize = 5;

pub const NOTE_FSHARP: usize = 6;

pub const NOTE_G: usize = 7;

pub const NOTE_GSHARP: usize = 8;

pub const NOTE_A: usize = 9;

pub const NOTE_ASHARP: usize = 10;

pub const NOTE_B: usize = 11;

/// The anchor an octave was segmented at, recovered from its C key: the
/// key sits `note_mid(tw, 0)` pixels right of the anchor, on its row.
pub open spec fn anchor_of(o: Octave, tw: int) -> Anchor {
    Anchor { x: (o.notes@[0].x - note_mid(tw, 0)) as usize, y: o.notes@[0].y }
}

/// The anchors a whole octave sequence was segmented at, octave by octave.
pub open spec fn anchors_of(s: Seq<Octave>, tw: int) -> Seq<Anchor> {
    s.map_values(|o: Octave| anchor_of(o, tw))
}

/// The model's octaves stand exactly at a sweep result's anchors: the
/// recovered anchors are a permutation of what the locator found.
pub open spec fn octaves_at_swept_anchors(
    s: Seq<Octave>,
    surface: &ScoreGrid,
    tw: int,
    cfg: &Config,
) -> bool {
    exists|v: Seq<Anchor>|
        #[trigger] located_by_sweep(v, surface, tw, cfg) && anchors_of(s, tw).to_multiset()
            == v.to_multiset()
}

/// Some sweep result for this surface holds more than six anchors: only
/// then can a keyboard's pitch codes run past a byte.
pub open spec fn sweep_finds_over_six(s: &ScoreGrid, tw: int, cfg: &Config) -> bool {
    exists|v: Seq<Anchor>| #[trigger] located_by_sweep(v, s, tw, cfg) && v.len() > 6
}

/// The whole keyboard: its octaves, ordered left-to-right once calibration
/// has succeeded.
pub struct Piano {
    pub octaves: Vec<Octave>,
}

/// The column of an octave's C key: what the octaves are ordered by.
pub open spec fn oct_key(o: Octave) -> int {
    o.notes@[0].x as int
}

pub open spec fn sorted_by_c_x(s: Seq<Octave>) -> bool {
    forall|i: int, j: int|
        0 <= i < j < s.len() ==> oct_key(#[trigger] s[i]) <= oct_key(#[trigger] s[j])
}

/// The calibration-marker probe: scanning down from the octave's C key,
/// some pixel's first channel sits more than `thresh` below the key's
/// default color. The probe stops twenty rows short of the frame's bottom.
pub open spec fn octave_marked(o: Octave, frame: &Frame, thresh: int) -> bool {
    exists|y: int|
        o.notes@[0].y <= y < frame.height - 20 && o.notes@[0].default_color.r - (
        #[trigger] frame.pixel(y, o.notes@[0].x as int)).r > thresh
}

///`m` is the calibration ("middle") octave index of the sorted octaves:
/// the first marked one, or zero when the probe marks none.
pub open spec fn middle_index_of(s: Seq<Octave>, frame: &Frame, thresh: int, m: int) -> bool {
    if exists|k: int| 0 <= k < s.len() && octave_marked(#[trigger] s[k], frame, thresh) {
        &&& 0 <= m < s.len()
        &&& octave_marked(s[m], frame, thresh)
        &&& forall|k: int| 0 <= k < m ==> !octave_marked(#[trigger] s[k], frame, thresh)
    } else {
        m == 0
    }
}

/// Every key's absolute pitch code follows the calibration formula for
/// middle-octave index `m`: octave index plus `5 - m`, times twelve, plus
/// the pitch class.
pub open spec fn codes_assigned(s: Seq<Octave>, m: int) -> bool {
    forall|i: int, j: int|
        0 <= i < s.len() && 0 <= j < 12 ==> (#[trigger] s[i].notes@[j]).code == (i + 5 - m) * 12
            + j
}

/// Order the octaves by the column of their C key, leftmost (lowest) first.
/// The result is a sorted permutation of the input.
pub fn sort_octaves_by_x(v: &mut Vec<Octave>)
    requires
        forall|i: int| 0 <= i < old(v)@.len() ==> (#[trigger] old(v)@[i]).wf(),
    ensures
        final(v)@.len() == old(v)@.len(),
        final(v)@.to_multiset() =~= old(v)@.to_multiset(),
        sorted_by_c_x(final(v)@),
        forall|i: int| 0 <= i < final(v)@.len() ==> (#[trigger] final(v)@[i]).wf(),
{
    broadcast use vstd::seq_lib::group_to_multiset_ensures;
    broadcast use vstd::multiset::group_multiset_axioms;

    let ghost orig = v@;
    let mut out: Vec<Octave> = Vec::new();
    while v.len() > 0
        invariant
            forall|i: int| 0 <= i < v@.len() ==> (#[trigger] v@[i]).wf(),
            forall|i: int| 0 <= i < out@.len() ==> (#[trigger] out@[i]).wf(),
            out@.to_multiset().add(v@.to_multiset()) =~= orig.to_multiset(),
            out@.len() + v@.len() == orig.len(),
            sorted_by_c_x(out@),
            forall|i: int, j: int|
                0 <= i < out@.len() && 0 <= j < v@.len() ==> oct_key(#[trigger] out@[i])
                    <= oct_key(#[trigger] v@[j]),
        decreases v@.len(),
    {
        // The leftmost remaining C key.
        let mut m: usize = 0;
        let mut idx: usize = 1;
        while idx < v.len()
            invariant
                forall|i: int| 0 <= i < v@.len() ==> (#[trigger] v@[i]).wf(),
                1 <= v@.len(),
                (m as int) < idx,
                idx <= v@.len(),
                forall|j: int|
                    0 <= j < idx ==> oct_key(v@[m as int]) <= oct_key(#[trigger] v@[j]),
            decreases v@.len() - idx,
        {
            if v[idx].notes[0].x < v[m].notes[0].x {
                m = idx;
            }
            idx = idx + 1;
        }
        let ghost vpre = v@;
        let o = v.remove(m);
        proof {
            assert(vpre.contains(vpre[m as int]));
            vstd::seq_lib::to_multiset_contains::<Octave>(vpre, o);
            vstd::seq_lib::to_multiset_build::<Octave>(out@, o);
            vstd::seq_lib::to_multiset_remove::<Octave>(vpre, m as int);
            assert(vpre.to_multiset().count(o) > 0);
            assert(out@.push(o).to_multiset() =~= out@.to_multiset().insert(o));
            assert(v@.to_multiset() =~= vpre.to_multiset().remove(o));
            assert(out@.push(o).to_multiset().add(v@.to_multiset()) =~= orig.to_multiset());
        }
        out.push(o);
    }
    proof {
        assert(v@.to_multiset() =~= Multiset::<Octave>::empty());
        assert(out@.to_multiset() =~= orig.to_multiset());
    }
    *v = out;
}

/// Scan down a single column for the calibration marker: a pixel whose
/// first channel sits more than `thresh` below the key's default color.
/// The scan covers rows `y0` up to twenty short of the frame's bottom.
pub fn probe_gray(frame: &Frame, x: usize, y0: usize, dflt_r: u8, thresh: u8) -> (b: bool)
    requires
        frame.wf(),
        x < frame.width,
    ensures
        b == exists|y: int|
            y0 <= y < frame.height - 20 && dflt_r - (#[trigger] frame.pixel(y, x as int)).r
                > thresh,
{
    let end = if frame.height >= 20 {
        frame.height - 20
    } else {
        0
    };
    let mut y = y0;
    while y < end
        invariant
            frame.wf(),
            x < frame.width,
            end == (if frame.height >= 20 {
                (frame.height - 20) as int
            } else {
                0
            }),
            y0 <= y,
            forall|yy: int|
                y0 <= yy < y ==> !(dflt_r - (#[trigger] frame.pixel(yy, x as int)).r > thresh),
        decreases end - y,
    {
        let p = frame.at(y, x);
        if (dflt_r as i32) - (p.r as i32) > (thresh as i32) {
            return true;
        }
        y = y + 1;
    }
    false
}

/// Find the calibration ("middle") octave among the sorted octaves: the
/// first whose C-key column carries the gray marker; zero when none does.
pub fn find_middle_c_index(octaves: &Vec<Octave>, frame: &Frame, cfg: &Config) -> (m: usize)
    requires
        frame.wf(),
        forall|i: int| 0 <= i < octaves@.len() ==> (#[trigger] octaves@[i]).wf(),
        forall|i: int| 0 <= i < octaves@.len() ==> (#[trigger] octaves@[i]).notes@[0].x
            < frame.width,
    ensures
        middle_index_of(octaves@, frame, cfg.middle_octave_gray_threshold as int, m as int),
{
    let ghost thresh = cfg.middle_octave_gray_threshold as int;
    let n = octaves.len();
    let mut k: usize = 0;
    while k < n
        invariant
            frame.wf(),
            n == octaves@.len(),
            k <= n,
            forall|i: int| 0 <= i < octaves@.len() ==> (#[trigger] octaves@[i]).wf(),
            forall|i: int| 0 <= i < octaves@.len() ==> (#[trigger] octaves@[i]).notes@[0].x
                < frame.width,
            thresh == cfg.middle_octave_gray_threshold as int,
            forall|i: int| 0 <= i < k ==> !octave_marked(#[trigger] octaves@[i], frame, thresh),
        decreases n - k,
    {
        let note = octaves[k].notes[0];
        if probe_gray(frame, note.x, note.y, note.default_color.r, cfg.middle_octave_gray_threshold)
        {
            return k;
        }
        k = k + 1;
    }
    0
}

/// Rewrite every key's code from its pitch class to its absolute pitch:
/// `(octave index + 5 - m) * 12 + pitch class`, for middle-octave index
/// `m`. The bound in the preconditions keeps every code inside a byte.
pub fn assign_pitch_codes(octaves: &mut Vec<Octave>, m: usize)
    requires
        forall|i: int| 0 <= i < old(octaves)@.len() ==> (#[trigger] old(octaves)@[i]).wf(),
        forall|i: int, j: int|
            0 <= i < old(octaves)@.len() && 0 <= j < 12 ==> (
            #[trigger] old(octaves)@[i].notes@[j]).code == j,
        m <= 5,
        (old(octaves)@.len() + 4 - m) * 12 + 11 <= 255,
    ensures
        final(octaves)@.len() == old(octaves)@.len(),
        forall|i: int| 0 <= i < final(octaves)@.len() ==> (#[trigger] final(octaves)@[i]).wf(),
        codes_assigned(final(octaves)@, m as int),
        forall|i: int, j: int|
            0 <= i < final(octaves)@.len() && 0 <= j < 12 ==> {
                let n = #[trigger] final(octaves)@[i].notes@[j];
                let n0 = old(octaves)@[i].notes@[j];
                n.x == n0.x && n.y == n0.y && n.default_color == n0.default_color && n.pressed
                    == n0.pressed
            },
{
    let base = 5 - m;
    let n_oct = octaves.len();
    let mut out: Vec<Octave> = Vec::new();
    let mut i: usize = 0;
    while i < n_oct
        invariant
            n_oct == octaves@.len(),
            forall|a: int| 0 <= a < octaves@.len() ==> (#[trigger] octaves@[a]).wf(),
            forall|a: int, j: int|
                0 <= a < octaves@.len() && 0 <= j < 12 ==> (
                #[trigger] octaves@[a].notes@[j]).code == j,
            m <= 5,
            base == 5 - m,
            (octaves@.len() + 4 - m) * 12 + 11 <= 255,
            i <= n_oct,
            out@.len() == i,
            forall|a: int| 0 <= a < out@.len() ==> (#[trigger] out@[a]).wf(),
            forall|a: int, j: int|
                0 <= a < out@.len() && 0 <= j < 12 ==> {
                    let n = #[trigger] out@[a].notes@[j];
                    let n0 = octaves@[a].notes@[j];
                    &&& n.code == (a + 5 - m) * 12 + j
                    &&& n.x == n0.x
                    &&& n.y == n0.y
                    &&& n.default_color == n0.default_color
                    &&& n.pressed == n0.pressed
                },
        decreases n_oct - i,
    {
        let mut notes: Vec<Note> = Vec::new();
        let mut j: usize = 0;
        while j < 12
            invariant
                n_oct == octaves@.len(),
                i < n_oct,
                forall|a: int| 0 <= a < octaves@.len() ==> (#[trigger] octaves@[a]).wf(),
                forall|a: int, jj: int|
                    0 <= a < octaves@.len() && 0 <= jj < 12 ==> (
                    #[trigger] octaves@[a].notes@[jj]).code == jj,
                m <= 5,
                base == 5 - m,
                (octaves@.len() + 4 - m) * 12 + 11 <= 255,
                j <= 12,
                notes@.len() == j,
                forall|jj: int|
                    0 <= jj < j ==> {
                        let n = #[trigger] notes@[jj];
                        let n0 = octaves@[i as int].notes@[jj];
                        &&& n.code == (i + 5 - m) * 12 + jj
                        &&& n.x == n0.x
                        &&& n.y == n0.y
                        &&& n.default_color == n0.default_color
                        &&& n.pressed == n0.pressed
                    },
            decreases 12 - j,
        {
            let n = octaves[i].notes[j];
            let code_val = (i + base) * 12 + (n.code as usize);
            proof {
                assert(code_val <= (n_oct - 1 + base) * 12 + 11);
            }
            notes.push(
                Note {
                    code: code_val as u8,
                    x: n.x,
                    y: n.y,
                    default_color: n.default_color,
                    pressed: n.pressed,
                },
            );
            j = j + 1;
        }
        out.push(Octave { notes });
        i = i + 1;
    }
    *octaves = out;
}

/// Pitch codes rise strictly with the octave index for a fixed pitch
/// class: further right on the keyboard means a higher code.
pub proof fn lemma_pitch_codes_strictly_increase(
    s: Seq<Octave>,
    m: int,
    i1: int,
    i2: int,
    j: int,
)
    requires
        codes_assigned(s, m),
        0 <= i1 < i2 < s.len(),
        0 <= j < 12,
    ensures
        s[i1].notes@[j].code < s[i2].notes@[j].code,
{
    assert(s[i1].notes@[j].code == (i1 + 5 - m) * 12 + j);
    assert(s[i2].notes@[j].code == (i2 + 5 - m) * 12 + j);
}


/// The marker probe only reads the C key's position and default color: two
/// octaves agreeing there are marked alike.
proof fn lemma_marked_congruent(o1: Octave, o2: Octave, frame: &Frame, thresh: int)
    requires
        o1.notes@.len() >= 1,
        o2.notes@.len() >= 1,
        o1.notes@[0].x == o2.notes@[0].x,
        o1.notes@[0].y == o2.notes@[0].y,
        o1.notes@[0].default_color == o2.notes@[0].default_color,
    ensures
        octave_marked(o1, frame, thresh) == octave_marked(o2, frame, thresh),
{
    if octave_marked(o1, frame, thresh) {
        let y = choose|y: int|
            o1.notes@[0].y <= y < frame.height - 20 && o1.notes@[0].default_color.r - (
            #[trigger] frame.pixel(y, o1.notes@[0].x as int)).r > thresh;
        assert(o2.notes@[0].default_color.r - frame.pixel(y, o2.notes@[0].x as int).r > thresh);
    }
    if octave_marked(o2, frame, thresh) {
        let y = choose|y: int|
            o2.notes@[0].y <= y < frame.height - 20 && o2.notes@[0].default_color.r - (
            #[trigger] frame.pixel(y, o2.notes@[0].x as int)).r > thresh;
        assert(o1.notes@[0].default_color.r - frame.pixel(y, o1.notes@[0].x as int).r > thresh);
    }
}

/// What the segmenter guarantees of an octave, stated without its anchor:
/// twelve keys on one row, spaced by the template's per-class midpoints,
/// inside the frame, each carrying the frame's color at its own sample
/// point, all released.
pub open spec fn octave_self_consistent(o: Octave, frame: &Frame, tw: int) -> bool {
    &&& o.notes@.len() == 12
    &&& forall|j: int|
        0 <= j < 12 ==> {
            let n = #[trigger] o.notes@[j];
            &&& n.x == o.notes@[0].x - note_mid(tw, 0) + note_mid(tw, j)
            &&& n.y == o.notes@[0].y
            &&& n.x < frame.width
            &&& n.y < frame.height
            &&& n.default_color == frame.pixel(n.y as int, n.x as int)
            &&& n.pressed == false
        }
}

/// Segmenter output for an in-frame anchor is self-consistent.
proof fn lemma_located_self_consistent(o: Octave, a: Anchor, frame: &Frame, tw: int)
    requires
        1 <= tw,
        octave_located_at(o, a, frame, tw),
        a.x + tw <= frame.width,
        a.y < frame.height,
    ensures
        octave_self_consistent(o, frame, tw),
{
    assert forall|j: int| 0 <= j < 12 implies {
        let n = #[trigger] o.notes@[j];
        &&& n.x == o.notes@[0].x - note_mid(tw, 0) + note_mid(tw, j)
        &&& n.y == o.notes@[0].y
        &&& n.x < frame.width
        &&& n.y < frame.height
        &&& n.default_color == frame.pixel(n.y as int, n.x as int)
        &&& n.pressed == false
    } by {
        lemma_mid_bounds(tw, j);
        lemma_mid_bounds(tw, 0);
        assert(o.notes@[j] == spec_note_at(a, frame, tw, j));
        assert(o.notes@[0] == spec_note_at(a, frame, tw, 0));
    }
}

/// Mapping both sides of a permutation gives a permutation of the images.
proof fn lemma_map_values_multiset(a: Seq<Octave>, b: Seq<Octave>, f: spec_fn(Octave) -> Anchor)
    requires
        a.to_multiset() == b.to_multiset(),
    ensures
        a.map_values(f).to_multiset() == b.map_values(f).to_multiset(),
    decreases a.len(),
{
    broadcast use vstd::seq_lib::group_to_multiset_ensures;
    broadcast use vstd::multiset::group_multiset_axioms;

    if a.len() == 0 {
        assert(b.to_multiset().len() == 0);
        assert(a.map_values(f) =~= Seq::<Anchor>::empty());
        assert(b.map_values(f) =~= Seq::<Anchor>::empty());
        assert(a.map_values(f).to_multiset() =~= b.map_values(f).to_multiset());
    } else {
        let x = a[0];
        assert(a.contains(x));
        assert(a.to_multiset().count(x) > 0);
        assert(b.to_multiset().count(x) > 0);
        assert(b.contains(x));
        let i = choose|i: int| 0 <= i < b.len() && b[i] == x;
        let a1 = a.remove(0);
        let b1 = b.remove(i);
        assert(a1.to_multiset() =~= a.to_multiset().remove(x));
        assert(b1.to_multiset() =~= b.to_multiset().remove(x));
        lemma_map_values_multiset(a1, b1, f);
        let ma = a.map_values(f);
        let mb = b.map_values(f);
        assert(ma.remove(0) =~= a1.map_values(f));
        assert(mb.remove(i) =~= b1.map_values(f));
        assert(ma.remove(0).to_multiset() =~= ma.to_multiset().remove(ma[0]));
        assert(mb.remove(i).to_multiset() =~= mb.to_multiset().remove(mb[i]));
        assert(ma[0] == f(x));
        assert(mb[i] == f(x));
        assert(ma.contains(f(x)));
        assert(ma.to_multiset().count(f(x)) > 0);
        assert(mb.contains(f(x)));
        assert(mb.to_multiset().count(f(x)) > 0);
        assert(ma.to_multiset() =~= mb.to_multiset()) by {
            assert forall|e: Anchor| ma.to_multiset().count(e) == mb.to_multiset().count(e) by {
                assert(ma.to_multiset().remove(f(x)).count(e) == mb.to_multiset().remove(
                    f(x),
                ).count(e));
            }
        }
    }
}

/// A property of every element survives any permutation.
proof fn lemma_permutation_elementwise(a: Seq<Octave>, b: Seq<Octave>, p: spec_fn(Octave) -> bool)
    requires
        a.to_multiset() == b.to_multiset(),
        forall|i: int| 0 <= i < a.len() ==> p(#[trigger] a[i]),
    ensures
        forall|i: int| 0 <= i < b.len() ==> p(#[trigger] b[i]),
{
    broadcast use vstd::seq_lib::group_to_multiset_ensures;

    assert forall|i: int| 0 <= i < b.len() implies p(#[trigger] b[i]) by {
        assert(b.contains(b[i]));
        assert(b.to_multiset().count(b[i]) > 0);
        assert(a.to_multiset().count(b[i]) > 0);
        assert(a.contains(b[i]));
        let k = choose|k: int| 0 <= k < a.len() && a[k] == b[i];
        assert(p(a[k]));
    }
}

/// Rewriting pitch codes touches nothing the geometry, order or marker
/// probe depend on: all three carry over from the pre-assignment octaves.
proof fn lemma_assign_transfer(
    pre: Seq<Octave>,
    post: Seq<Octave>,
    frame: &Frame,
    tw: int,
    thresh: int,
    m: int,
)
    requires
        1 <= tw,
        pre.len() == post.len(),
        forall|i: int| 0 <= i < pre.len() ==> (#[trigger] pre[i]).wf(),
        forall|i: int| 0 <= i < post.len() ==> (#[trigger] post[i]).wf(),
        forall|i: int, j: int|
            0 <= i < post.len() && 0 <= j < 12 ==> {
                let n = #[trigger] post[i].notes@[j];
                let n0 = pre[i].notes@[j];
                n.x == n0.x && n.y == n0.y && n.default_color == n0.default_color && n.pressed
                    == n0.pressed
            },
        forall|i: int|
            0 <= i < pre.len() ==> octave_self_consistent(#[trigger] pre[i], frame, tw),
        middle_index_of(pre, frame, thresh, m),
        sorted_by_c_x(pre),
    ensures
        sorted_by_c_x(post),
        middle_index_of(post, frame, thresh, m),
        forall|i: int|
            0 <= i < post.len() ==> octave_self_consistent(#[trigger] post[i], frame, tw),
{
    assert forall|i: int| 0 <= i < post.len() implies (octave_marked(
        #[trigger] post[i],
        frame,
        thresh,
    ) == octave_marked(pre[i], frame, thresh)) by {
        lemma_marked_congruent(post[i], pre[i], frame, thresh);
    }
    assert(middle_index_of(post, frame, thresh, m)) by {
        if exists|k: int| 0 <= k < pre.len() && octave_marked(#[trigger] pre[k], frame, thresh) {
            let k0 = choose|k: int|
                0 <= k < pre.len() && octave_marked(#[trigger] pre[k], frame, thresh);
            assert(octave_marked(post[k0], frame, thresh));
        } else {
            if exists|k: int|
                0 <= k < post.len() && octave_marked(#[trigger] post[k], frame, thresh) {
                let k0 = choose|k: int|
                    0 <= k < post.len() && octave_marked(#[trigger] post[k], frame, thresh);
                assert(octave_marked(pre[k0], frame, thresh));
            }
        }
    }
    assert forall|i: int, j: int| 0 <= i < j < post.len() implies oct_key(#[trigger] post[i])
        <= oct_key(#[trigger] post[j]) by {
        assert(post[i].notes@[0].x == pre[i].notes@[0].x);
        assert(post[j].notes@[0].x == pre[j].notes@[0].x);
    }
    assert forall|i: int| 0 <= i < post.len() implies octave_self_consistent(
        #[trigger] post[i],
        frame,
        tw,
    ) by {
        assert forall|j: int| 0 <= j < 12 implies {
            let n = #[trigger] post[i].notes@[j];
            &&& n.x == post[i].notes@[0].x - note_mid(tw, 0) + note_mid(tw, j)
            &&& n.y == post[i].notes@[0].y
            &&& n.x < frame.width
            &&& n.y < frame.height
            &&& n.default_color == frame.pixel(n.y as int, n.x as int)
            &&& n.pressed == false
        } by {
            let n0 = pre[i].notes@[j];
            assert(n0.x == pre[i].notes@[0].x - note_mid(tw, 0) + note_mid(tw, j));
        }
    }
}

impl Piano {
    pub open spec fn wf(&self) -> bool {
        forall|i: int| 0 <= i < self.octaves@.len() ==> (#[trigger] self.octaves@[i]).wf()
    }

    /// Build the keyboard model from located octave anchors: segment each
    /// anchor into twelve keys, sort the octaves left-to-right, find the
    /// calibration octave, and assign absolute pitch codes.
    ///
    /// Fails with [`CalibrationError::PitchCodeOutOfRange`] only when some
    /// code would leave `0..=255`, which cannot happen for keyboards of up
    /// to six octaves.
    #[verifier::rlimit(100)]
    pub fn from_anchors(
        frame: &Frame,
        template: &Template,
        anchors: &Vec<Anchor>,
        cfg: &Config,
    ) -> (r: Result<Piano, CalibrationError>)
        requires
            frame.wf(),
            template.wf(),
            1 <= template.width,
            template.width * 12 <= usize::MAX,
            1 <= anchors@.len(),
            forall|k: int|
                0 <= k < anchors@.len() ==> (#[trigger] anchors@[k]).x + template.width
                    <= frame.width && anchors@[k].y < frame.height,
        ensures
            match r {
                Result::Ok(p) => {
                    &&& p.wf()
                    &&& p.octaves@.len() == anchors@.len()
                    &&& sorted_by_c_x(p.octaves@)
                    &&& forall|i: int|
                        0 <= i < p.octaves@.len() ==> octave_self_consistent(
                            #[trigger] p.octaves@[i],
                            frame,
                            template.width as int,
                        )
                    &&& anchors_of(p.octaves@, template.width as int).to_multiset()
                        == anchors@.to_multiset()
                    &&& exists|m: int|
                        0 <= m <= 5 && #[trigger] codes_assigned(p.octaves@, m)
                            && middle_index_of(
                            p.octaves@,
                            frame,
                            cfg.middle_octave_gray_threshold as int,
                            m,
                        )
                },
                Result::Err(e) => e == CalibrationError::PitchCodeOutOfRange && anchors@.len()
                    > 6,
            },
    {
        let tw = template.width;
        let n = anchors.len();

        // Segment every located octave.
        let mut octaves: Vec<Octave> = Vec::new();
        let mut k: usize = 0;
        while k < n
            invariant
                frame.wf(),
                template.wf(),
                1 <= tw == template.width,
                tw * 12 <= usize::MAX,
                n == anchors@.len(),
                forall|kk: int|
                    0 <= kk < anchors@.len() ==> (#[trigger] anchors@[kk]).x + tw <= frame.width
                        && anchors@[kk].y < frame.height,
                k <= n,
                octaves@.len() == k,
                forall|kk: int|
                    0 <= kk < k ==> #[trigger] octave_located_at(
                        octaves@[kk],
                        anchors@[kk],
                        frame,
                        tw as int,
                    ),
                forall|kk: int| 0 <= kk < k ==> (#[trigger] octaves@[kk]).wf(),
            decreases n - k,
        {
            let a = anchors[k];
            octaves.push(Octave::new(a, frame, template, cfg));
            k = k + 1;
        }
        let ghost built = octaves@;
        proof {
            assert forall|kk: int| 0 <= kk < built.len() implies octave_self_consistent(
                #[trigger] built[kk],
                frame,
                tw as int,
            ) by {
                lemma_located_self_consistent(built[kk], anchors@[kk], frame, tw as int);
            }
            assert forall|kk: int| 0 <= kk < built.len() implies anchors_of(built, tw as int)[kk]
                == anchors@[kk] by {
                assert(octave_located_at(built[kk], anchors@[kk], frame, tw as int));
                assert(built[kk].notes@[0] == spec_note_at(anchors@[kk], frame, tw as int, 0));
                lemma_mid_bounds(tw as int, 0);
            }
            assert(anchors_of(built, tw as int) =~= anchors@);
        }

        proof {
            assert forall|kk: int| 0 <= kk < built.len() implies (#[trigger] built[kk]).wf()
                && (forall|j: int| 0 <= j < 12 ==> (built[kk].notes@[j]).code == j) by {
                assert(octave_located_at(built[kk], anchors@[kk], frame, tw as int));
                assert forall|j: int| 0 <= j < 12 implies (built[kk].notes@[j]).code == j by {
                    assert(built[kk].notes@[j] == spec_note_at(anchors@[kk], frame, tw as int, j));
                }
            }
        }

        // Order them left-to-right.
        sort_octaves_by_x(&mut octaves);
        let ghost sorted = octaves@;
        proof {
            lemma_permutation_elementwise(
                built,
                sorted,
                |o: Octave| octave_self_consistent(o, frame, tw as int),
            );
            lemma_map_values_multiset(built, sorted, |o: Octave| anchor_of(o, tw as int));
            assert(anchors_of(built, tw as int) =~= built.map_values(
                |o: Octave| anchor_of(o, tw as int),
            ));
            assert(anchors_of(sorted, tw as int) =~= sorted.map_values(
                |o: Octave| anchor_of(o, tw as int),
            ));
            assert(anchors_of(sorted, tw as int).to_multiset() == anchors@.to_multiset());
            lemma_permutation_elementwise(
                built,
                sorted,
                |o: Octave| o.notes@.len() == 12 && (forall|j: int|
                    0 <= j < 12 ==> (#[trigger] o.notes@[j]).code == j),
            );
            assert forall|i: int, j: int|
                0 <= i < sorted.len() && 0 <= j < 12 implies (
            #[trigger] sorted[i].notes@[j]).code == j by {
                let p = (|o: Octave| o.notes@.len() == 12 && (forall|j: int|
                    0 <= j < 12 ==> (#[trigger] o.notes@[j]).code == j));
                assert(p(sorted[i]));
            }
            assert forall|i: int| 0 <= i < sorted.len() implies (
            #[trigger] sorted[i]).notes@[0].x < frame.width by {
                assert(octave_self_consistent(sorted[i], frame, tw as int));
                assert(sorted[i].notes@[0].x < frame.width);
            }
        }

        // The calibration octave.
        let m = find_middle_c_index(&octaves, frame, cfg);

        // Every code must fit a byte: the middle index may push the base
        // octave number no higher than five, and the keyboard must not run
        // past code 255.
        if m > 5 {
            proof {
                let thresh = cfg.middle_octave_gray_threshold as int;
                if !exists|kk: int|
                    0 <= kk < sorted.len() && octave_marked(#[trigger] sorted[kk], frame, thresh) {
                    assert(m == 0);
                }
            }
            return Result::Err(CalibrationError::PitchCodeOutOfRange);
        }
        if n > 16 + m {
            return Result::Err(CalibrationError::PitchCodeOutOfRange);
        }

        let ghost pre = octaves@;
        assign_pitch_codes(&mut octaves, m);
        proof {
            lemma_assign_transfer(
                pre,
                octaves@,
                frame,
                tw as int,
                cfg.middle_octave_gray_threshold as int,
                m as int,
            );
            assert(0 <= m as int <= 5 && codes_assigned(octaves@, m as int) && middle_index_of(
                octaves@,
                frame,
                cfg.middle_octave_gray_threshold as int,
                m as int,
            ));
            assert forall|ii: int| 0 <= ii < octaves@.len() implies anchors_of(
                octaves@,
                tw as int,
            )[ii] == anchors_of(pre, tw as int)[ii] by {
                assert(octaves@[ii].notes@[0].x == pre[ii].notes@[0].x);
                assert(octaves@[ii].notes@[0].y == pre[ii].notes@[0].y);
            }
            assert(anchors_of(octaves@, tw as int) =~= anchors_of(pre, tw as int));
        }
        Result::Ok(Piano { octaves })
    }

    /// Calibrate the whole keyboard against the first frame: locate every
    /// octave on the match-score surface, then build the sorted,
    /// pitch-assigned model.
    ///
    /// `surface` must be the normalized squared-difference match surface of
    /// `template` against `frame`, in fixed-point units, with the usual
    /// match-surface dimensions (frame extent minus template extent plus
    /// one; the template is a single row).
    #[verifier::rlimit(50)]
    pub fn new(frame: &Frame, template: &Template, surface: &ScoreGrid, cfg: &Config) -> (r:
        Result<Piano, CalibrationError>)
        requires
            frame.wf(),
            template.wf(),
            surface.wf(),
            cfg.wf(),
            11 <= template.width,
            template.width * 12 <= usize::MAX,
            frame.width < usize::MAX,
            surface.height == frame.height,
            1 <= surface.height,
            surface.width + template.width == frame.width + 1,
            1 <= surface.width,
        ensures
            match r {
                Result::Ok(p) => {
                    &&& p.wf()
                    &&& !no_threshold_finds(surface, cfg)
                    &&& 1 <= p.octaves@.len()
                    &&& sorted_by_c_x(p.octaves@)
                    &&& forall|i: int|
                        0 <= i < p.octaves@.len() ==> octave_self_consistent(
                            #[trigger] p.octaves@[i],
                            frame,
                            template.width as int,
                        )
                    &&& octaves_at_swept_anchors(
                        p.octaves@,
                        surface,
                        template.width as int,
                        cfg,
                    )
                    &&& exists|m: int|
                        0 <= m <= 5 && #[trigger] codes_assigned(p.octaves@, m)
                            && middle_index_of(
                            p.octaves@,
                            frame,
                            cfg.middle_octave_gray_threshold as int,
                            m,
                        )
                },
                Result::Err(e) => {
                    &&& (e == CalibrationError::KeyboardNotFound <==> no_threshold_finds(
                        surface,
                        cfg,
                    ))
                    &&& (e == CalibrationError::PitchCodeOutOfRange ==> sweep_finds_over_six(
                        surface,
                        template.width as int,
                        cfg,
                    ))
                },
            },
    {
        let anchors = match locate_octaves(surface, template.width, cfg) {
            Result::Ok(v) => v,
            Result::Err(e) => {
                return Result::Err(e);
            },
        };
        let ghost i0 = choose|i: int|
            #[trigger] anchors_found_at_index(anchors@, surface, template.width as int, cfg, i);
        proof {
            assert(anchors_found_at_index(anchors@, surface, template.width as int, cfg, i0));
            assert(!no_threshold_finds(surface, cfg));
            assert forall|k: int| 0 <= k < anchors@.len() implies (#[trigger] anchors@[k]).x
                + template.width <= frame.width && anchors@[k].y < frame.height by {
                assert(anchors@[k].x < surface.width);
            }
        }
        match Piano::from_anchors(frame, template, &anchors, cfg) {
            Result::Ok(p) => {
                proof {
                    assert(located_by_sweep(anchors@, surface, template.width as int, cfg)
                        && anchors_of(p.octaves@, template.width as int).to_multiset()
                        == anchors@.to_multiset());
                    assert(octaves_at_swept_anchors(
                        p.octaves@,
                        surface,
                        template.width as int,
                        cfg,
                    ));
                }
                Result::Ok(p)
            },
            Result::Err(e) => {
                proof {
                    assert(located_by_sweep(anchors@, surface, template.width as int, cfg)
                        && anchors@.len() > 6);
                    assert(sweep_finds_over_six(surface, template.width as int, cfg));
                }
                Result::Err(e)
            },
        }
    }
}

/// A drawing command for the caller's preview rendering.
#[derive(Clone, Copy, PartialEq, Eq, Structural, Debug)]
pub enum Shape {
    Rect { x0: usize, y0: usize, x1: usize, y1: usize },
    Circle { x: usize, y: usize, radius: usize },
}

impl Piano {
    /// What a preview of the model draws: for each octave, a rectangle
    /// from its C key to its B key, then a small filled circle on every
    /// key's sample point.
    pub fn draw_notes(&self) -> (shapes: Vec<Shape>)
        requires
            self.wf(),
        ensures
            shapes@.len() == self.octaves@.len() * 13,
            forall|i: int|
                0 <= i < self.octaves@.len() ==> {
                    let o = #[trigger] self.octaves@[i];
                    &&& shapes@[i * 13] == (Shape::Rect {
                        x0: o.notes@[0].x,
                        y0: o.notes@[0].y,
                        x1: o.notes@[11].x,
                        y1: o.notes@[11].y,
                    })
                    &&& forall|j: int|
                        0 <= j < 12 ==> shapes@[i * 13 + 1 + j] == (Shape::Circle {
                            x: (#[trigger] o.notes@[j]).x,
                            y: o.notes@[j].y,
                            radius: 4,
                        })
                },
    {
        let mut shapes: Vec<Shape> = Vec::new();
        let n = self.octaves.len();
        let mut i: usize = 0;
        while i < n
            invariant
                self.wf(),
                n == self.octaves@.len(),
                i <= n,
                shapes@.len() == i * 13,
                forall|a: int|
                    0 <= a < i ==> {
                        let o = #[trigger] self.octaves@[a];
                        &&& shapes@[a * 13] == (Shape::Rect {
                            x0: o.notes@[0].x,
                            y0: o.notes@[0].y,
                            x1: o.notes@[11].x,
                            y1: o.notes@[11].y,
                        })
                        &&& forall|j: int|
                            0 <= j < 12 ==> shapes@[a * 13 + 1 + j] == (Shape::Circle {
                                x: (#[trigger] o.notes@[j]).x,
                                y: o.notes@[j].y,
                                radius: 4,
                            })
                    },
            decreases n - i,
        {
            let o = &self.octaves[i];
            shapes.push(
                Shape::Rect {
                    x0: o.notes[0].x,
                    y0: o.notes[0].y,
                    x1: o.notes[11].x,
                    y1: o.notes[11].y,
                },
            );
            let mut j: usize = 0;
            while j < 12
                invariant
                    self.wf(),
                    n == self.octaves@.len(),
                    i < n,
                    j <= 12,
                    o == &self.octaves@[i as int],
                    shapes@.len() == i * 13 + 1 + j,
                    forall|a: int|
                        0 <= a < i ==> {
                            let oo = #[trigger] self.octaves@[a];
                            &&& shapes@[a * 13] == (Shape::Rect {
                                x0: oo.notes@[0].x,
                                y0: oo.notes@[0].y,
                                x1: oo.notes@[11].x,
                                y1: oo.notes@[11].y,
                            })
                            &&& forall|jj: int|
                                0 <= jj < 12 ==> shapes@[a * 13 + 1 + jj] == (Shape::Circle {
                                    x: (#[trigger] oo.notes@[jj]).x,
                                    y: oo.notes@[jj].y,
                                    radius: 4,
                                })
                        },
                    shapes@[i as int * 13] == (Shape::Rect {
                        x0: self.octaves@[i as int].notes@[0].x,
                        y0: self.octaves@[i as int].notes@[0].y,
                        x1: self.octaves@[i as int].notes@[11].x,
                        y1: self.octaves@[i as int].notes@[11].y,
                    }),
                    forall|jj: int|
                        0 <= jj < j ==> shapes@[i as int * 13 + 1 + jj] == (Shape::Circle {
                            x: (#[trigger] self.octaves@[i as int].notes@[jj]).x,
                            y: self.octaves@[i as int].notes@[jj].y,
                            radius: 4,
                        }),
                decreases 12 - j,
            {
                shapes.push(Shape::Circle { x: o.notes[j].x, y: o.notes[j].y, radius: 4 });
                j = j + 1;
            }
            i = i + 1;
        }
        shapes
    }
}

} // verus!
