//! The octave locator: sweeps a rising binarization threshold over the
//! match-score surface and, inside each sweep, repeatedly takes the first
//! remaining best-match cell and suppresses a template-wide vertical band
//! around it, so every octave-sized segment of the keyboard is found once.

use vstd::prelude::*;
use vstd::set_lib::{lemma_int_range, lemma_len_subset, set_int_range};
use crate::config::{Config, SCORE_UNIT};
use crate::errors::CalibrationError;
use crate::image::{Anchor, ScoreGrid};

verus! {

/// A binarized score surface: `h` rows of `w` cells. A `false` cell is a
/// candidate match (score at or under the threshold), a `true` cell is not.
pub open spec fn bgrid_wf(g: Seq<Vec<bool>>, w: int, h: int) -> bool {
    &&& g.len() == h
    &&& forall|y: int| 0 <= y < h ==> (#[trigger] g[y])@.len() == w
}

pub open spec fn bcell(g: Seq<Vec<bool>>, y: int, x: int) -> bool {
    g[y]@[x]
}

pub open spec fn ball_true(g: Seq<Vec<bool>>, w: int, h: int) -> bool {
    forall|y: int, x: int| 0 <= y < h && 0 <= x < w ==> bcell(g, y, x)
}

pub open spec fn ball_false(g: Seq<Vec<bool>>, w: int, h: int) -> bool {
    forall|y: int, x: int| 0 <= y < h && 0 <= x < w ==> !bcell(g, y, x)
}

/// The surface carries no discriminating feature: every cell equal, so the
/// inner match search stops.
pub open spec fn buniform(g: Seq<Vec<bool>>, w: int, h: int) -> bool {
    ball_true(g, w, h) || ball_false(g, w, h)
}

/// Row-major scan order: `(y1, x1)` is visited before `(y2, x2)`.
pub open spec fn row_major_before(y1: int, x1: int, y2: int, x2: int) -> bool {
    y1 < y2 || (y1 == y2 && x1 < x2)
}

/// The vertical band suppressed after an octave is recorded at column `x0`:
/// as wide as the template, shifted ten pixels left.
pub open spec fn in_band(x: int, x0: int, tw: int) -> bool {
    x0 - 10 <= x < x0 + tw - 10
}

/// Some score sits at or under `t` and some other above it, so binarizing
/// at `t` leaves a feature the extremum search can find.
pub open spec fn mixed_at(s: &ScoreGrid, t: int) -> bool {
    &&& exists|y: int, x: int|
        0 <= y < s.height && 0 <= x < s.width && #[trigger] s.val(y, x) <= t
    &&& exists|y: int, x: int| 0 <= y < s.height && 0 <= x < s.width && #[trigger] s.val(y, x) > t
}

/// Whether the sweep reaches threshold index `i` (threshold `i` times the
/// configured step): the sweep stops after the first threshold past a full
/// score unit.
pub open spec fn threshold_tried(cfg: &Config, i: int) -> bool {
    i == 0 || (i - 1) * cfg.locator_threshold_step <= SCORE_UNIT
}

/// Whether the surface binarizes into a mixed grid at threshold index `i`
/// (threshold `i` times the configured step).
pub open spec fn mixed_at_index(s: &ScoreGrid, cfg: &Config, i: int) -> bool {
    mixed_at(s, i * cfg.locator_threshold_step as int)
}

/// The locator's failure condition: no threshold of the sweep ever
/// binarizes the surface into a mixed grid.
pub open spec fn no_threshold_finds(s: &ScoreGrid, cfg: &Config) -> bool {
    forall|i: int| 0 <= i && threshold_tried(cfg, i) ==> !mixed_at_index(s, cfg, i)
}

/// `v` is exactly what the sweep finds: `i` is the first threshold index
/// that binarizes the surface into a mixed grid, and `v` is the inner
/// search's result at that threshold.
pub open spec fn anchors_found_at_index(
    v: Seq<Anchor>,
    s: &ScoreGrid,
    tw: int,
    cfg: &Config,
    i: int,
) -> bool {
    &&& 0 <= i
    &&& threshold_tried(cfg, i)
    &&& mixed_at_index(s, cfg, i)
    &&& forall|j: int| 0 <= j < i ==> !mixed_at_index(s, cfg, j)
    &&& anchors_found_at(v, s, tw, i * cfg.locator_threshold_step as int)
}

/// `v` is the sweep's result for this surface: what it finds at the first
/// threshold index that leaves a mixed grid.
pub open spec fn located_by_sweep(v: Seq<Anchor>, s: &ScoreGrid, tw: int, cfg: &Config) -> bool {
    exists|i: int| #[trigger] anchors_found_at_index(v, s, tw, cfg, i)
}

/// Column `x` lies inside the suppression band of some anchor of `v`.
pub open spec fn covered(v: Seq<Anchor>, x: int, tw: int) -> bool {
    exists|k: int| 0 <= k < v.len() && in_band(x, (#[trigger] v[k]).x as int, tw)
}

/// What the inner search returns for the surface binarized at threshold
/// `t`: at least one anchor; every anchor on a cell scoring at most `t`;
/// no later anchor inside an earlier anchor's suppressed band (so anchors
/// do not overlap); the first anchor is the row-major first candidate
/// cell; and every candidate cell lies inside some recorded anchor's band,
/// so no feature of the surface is passed over.
pub open spec fn anchors_found_at(v: Seq<Anchor>, s: &ScoreGrid, tw: int, t: int) -> bool {
    &&& v.len() >= 1
    &&& forall|k: int|
        0 <= k < v.len() ==> (#[trigger] v[k]).y < s.height && v[k].x < s.width && s.val(
            v[k].y as int,
            v[k].x as int,
        ) <= t
    &&& forall|k1: int, k2: int|
        0 <= k1 < k2 < v.len() ==> !in_band((#[trigger] v[k2]).x as int, (#[trigger] v[k1]).x as int, tw)
    &&& forall|y: int, x: int|
        0 <= y < s.height && 0 <= x < s.width && row_major_before(y, x, v[0].y as int, v[0].x as int)
            ==> #[trigger] s.val(y, x) > t
    &&& forall|y: int, x: int|
        0 <= y < s.height && 0 <= x < s.width && #[trigger] s.val(y, x) <= t ==> covered(
            v,
            x,
            tw,
        )
}

/// Binarize the score surface: a cell is `true` exactly where its score
/// exceeds the threshold.
fn binarize(s: &ScoreGrid, thresh: u32) -> (g: Vec<Vec<bool>>)
    requires
        s.wf(),
    ensures
        bgrid_wf(g@, s.width as int, s.height as int),
        forall|y: int, x: int|
            0 <= y < s.height && 0 <= x < s.width ==> bcell(g@, y, x) == (s.val(y, x) > thresh),
{
    let mut g: Vec<Vec<bool>> = Vec::new();
    let mut y: usize = 0;
    while y < s.height
        invariant
            s.wf(),
            y <= s.height,
            g@.len() == y,
            forall|yy: int| 0 <= yy < y ==> (#[trigger] g@[yy])@.len() == s.width,
            forall|yy: int, x: int|
                0 <= yy < y && 0 <= x < s.width ==> bcell(g@, yy, x) == (s.val(yy, x) > thresh),
        decreases s.height - y,
    {
        let mut row: Vec<bool> = Vec::new();
        let mut x: usize = 0;
        while x < s.width
            invariant
                s.wf(),
                y < s.height,
                x <= s.width,
                row@.len() == x,
                forall|xx: int| 0 <= xx < x ==> row@[xx] == (s.val(y as int, xx) > thresh),
            decreases s.width - x,
        {
            row.push(s.at(y, x) > thresh);
            x = x + 1;
        }
        let ghost gprev = g@;
        g.push(row);
        proof {
            assert forall|yy: int, xx: int|
                0 <= yy < y + 1 && 0 <= xx < s.width implies bcell(g@, yy, xx) == (s.val(yy, xx)
                > thresh) by {
                if yy < y {
                    assert(bcell(gprev, yy, xx) == (s.val(yy, xx) > thresh));
                    assert(g@[yy] == gprev[yy]);
                } else {
                    assert(g@[yy] == row);
                }
            }
        }
        y = y + 1;
    }
    g
}

/// Row-major scan for the first candidate (`false`) cell; `None` means the
/// grid is all `true`.
fn first_false(g: &Vec<Vec<bool>>, w: usize, h: usize) -> (r: Option<Anchor>)
    requires
        bgrid_wf(g@, w as int, h as int),
    ensures
        match r {
            Option::None => ball_true(g@, w as int, h as int),
            Option::Some(a) => a.y < h && a.x < w && !bcell(g@, a.y as int, a.x as int)
                && (forall|y: int, x: int|
                0 <= y < h && 0 <= x < w && row_major_before(y, x, a.y as int, a.x as int)
                    ==> bcell(g@, y, x)),
        },
{
    let mut y: usize = 0;
    while y < h
        invariant
            bgrid_wf(g@, w as int, h as int),
            y <= h,
            forall|yy: int, x: int| 0 <= yy < y && 0 <= x < w ==> bcell(g@, yy, x),
        decreases h - y,
    {
        let mut x: usize = 0;
        while x < w
            invariant
                bgrid_wf(g@, w as int, h as int),
                y < h,
                x <= w,
                forall|yy: int, xx: int| 0 <= yy < y && 0 <= xx < w ==> bcell(g@, yy, xx),
                forall|xx: int| 0 <= xx < x ==> bcell(g@, y as int, xx),
            decreases w - x,
        {
            if !g[y][x] {
                return Option::Some(Anchor { x, y });
            }
            x = x + 1;
        }
        y = y + 1;
    }
    Option::None
}

/// Whether any cell of the grid is `true`.
fn exists_true(g: &Vec<Vec<bool>>, w: usize, h: usize) -> (r: bool)
    requires
        bgrid_wf(g@, w as int, h as int),
    ensures
        r == !ball_false(g@, w as int, h as int),
{
    let mut y: usize = 0;
    while y < h
        invariant
            bgrid_wf(g@, w as int, h as int),
            y <= h,
            forall|yy: int, x: int| 0 <= yy < y && 0 <= x < w ==> !bcell(g@, yy, x),
        decreases h - y,
    {
        let mut x: usize = 0;
        while x < w
            invariant
                bgrid_wf(g@, w as int, h as int),
                y < h,
                x <= w,
                forall|yy: int, xx: int| 0 <= yy < y && 0 <= xx < w ==> !bcell(g@, yy, xx),
                forall|xx: int| 0 <= xx < x ==> !bcell(g@, y as int, xx),
            decreases w - x,
        {
            if g[y][x] {
                proof {
                    assert(bcell(g@, y as int, x as int));
                }
                return true;
            }
            x = x + 1;
        }
        y = y + 1;
    }
    false
}

/// Fill the suppression band of an anchor at column `x0` with `true`, over
/// the full grid height, so the next extremum search finds a different
/// region.
fn suppress(g: &mut Vec<Vec<bool>>, x0: usize, tw: usize, w: usize, h: usize)
    requires
        bgrid_wf(old(g)@, w as int, h as int),
        11 <= tw,
        x0 < w,
        w + tw <= usize::MAX,
    ensures
        bgrid_wf(final(g)@, w as int, h as int),
        forall|y: int, x: int|
            0 <= y < h && 0 <= x < w ==> bcell(final(g)@, y, x) == (if in_band(x, x0 as int, tw as int) {
                true
            } else {
                bcell(old(g)@, y, x)
            }),
{
    let mut out: Vec<Vec<bool>> = Vec::new();
    let mut y: usize = 0;
    while y < h
        invariant
            bgrid_wf(g@, w as int, h as int),
            g@ == old(g)@,
            11 <= tw,
            x0 < w,
            w + tw <= usize::MAX,
            y <= h,
            out@.len() == y,
            forall|yy: int| 0 <= yy < y ==> (#[trigger] out@[yy])@.len() == w,
            forall|yy: int, x: int|
                0 <= yy < y && 0 <= x < w ==> bcell(out@, yy, x) == (if in_band(
                    x,
                    x0 as int,
                    tw as int,
                ) {
                    true
                } else {
                    bcell(old(g)@, yy, x)
                }),
        decreases h - y,
    {
        let mut row: Vec<bool> = Vec::new();
        let mut x: usize = 0;
        while x < w
            invariant
                bgrid_wf(g@, w as int, h as int),
                g@ == old(g)@,
                11 <= tw,
                x0 < w,
                w + tw <= usize::MAX,
                y < h,
                x <= w,
                row@.len() == x,
                forall|xx: int|
                    0 <= xx < x ==> row@[xx] == (if in_band(xx, x0 as int, tw as int) {
                        true
                    } else {
                        bcell(old(g)@, y as int, xx)
                    }),
                out@.len() == y,
                forall|yy: int| 0 <= yy < y ==> (#[trigger] out@[yy])@.len() == w,
                forall|yy: int, xx: int|
                    0 <= yy < y && 0 <= xx < w ==> bcell(out@, yy, xx) == (if in_band(
                        xx,
                        x0 as int,
                        tw as int,
                    ) {
                        true
                    } else {
                        bcell(old(g)@, yy, xx)
                    }),
            decreases w - x,
        {
            let banded = x + 10 >= x0 && x + 10 < x0 + tw;
            let v = if banded {
                true
            } else {
                g[y][x]
            };
            row.push(v);
            x = x + 1;
        }
        let ghost oprev = out@;
        out.push(row);
        proof {
            assert forall|yy: int, xx: int|
                0 <= yy < y + 1 && 0 <= xx < w implies bcell(out@, yy, xx) == (if in_band(
                    xx,
                    x0 as int,
                    tw as int,
                ) {
                    true
                } else {
                    bcell(old(g)@, yy, xx)
                }) by {
                if yy < y {
                    assert(out@[yy] == oprev[yy]);
                    assert(bcell(oprev, yy, xx) == (if in_band(xx, x0 as int, tw as int) {
                        true
                    } else {
                        bcell(old(g)@, yy, xx)
                    }));
                } else {
                    assert(out@[yy] == row);
                }
            }
        }
        y = y + 1;
    }
    *g = out;
}

/// The inner match search: record the row-major first candidate cell,
/// suppress its band, and repeat until the grid carries no discriminating
/// feature. Returns nothing exactly when the grid was uniform to begin
/// with.
fn sweep(g: &mut Vec<Vec<bool>>, tw: usize, w: usize, h: usize) -> (anchors: Vec<Anchor>)
    requires
        bgrid_wf(old(g)@, w as int, h as int),
        11 <= tw,
        1 <= w,
        1 <= h,
        w + tw <= usize::MAX,
    ensures
        (anchors@.len() == 0) == buniform(old(g)@, w as int, h as int),
        forall|k: int|
            0 <= k < anchors@.len() ==> (#[trigger] anchors@[k]).y < h && anchors@[k].x < w
                && !bcell(old(g)@, anchors@[k].y as int, anchors@[k].x as int),
        forall|k1: int, k2: int|
            0 <= k1 < k2 < anchors@.len() ==> !in_band(
                (#[trigger] anchors@[k2]).x as int,
                (#[trigger] anchors@[k1]).x as int,
                tw as int,
            ),
        anchors@.len() >= 1 ==> forall|y: int, x: int|
            0 <= y < h && 0 <= x < w && row_major_before(
                y,
                x,
                anchors@[0].y as int,
                anchors@[0].x as int,
            ) ==> bcell(old(g)@, y, x),
        anchors@.len() >= 1 ==> forall|y: int, x: int|
            0 <= y < h && 0 <= x < w && !(#[trigger] bcell(old(g)@, y, x)) ==> covered(
                anchors@,
                x,
                tw as int,
            ),
{
    let mut anchors: Vec<Anchor> = Vec::new();
    let ghost mut used: Set<int> = Set::empty();
    loop
        invariant
            bgrid_wf(g@, w as int, h as int),
            11 <= tw,
            1 <= w,
            1 <= h,
            w + tw <= usize::MAX,
            used.finite(),
            used.len() == anchors@.len(),
            forall|e: int| used.contains(e) ==> 0 <= e < w,
            forall|e: int|
                used.contains(e) <==> exists|k: int|
                    0 <= k < anchors@.len() && (#[trigger] anchors@[k]).x == e,
            anchors@.len() == 0 ==> g@ == old(g)@,
            forall|y: int, x: int|
                0 <= y < h && 0 <= x < w && bcell(old(g)@, y, x) ==> bcell(g@, y, x),
            forall|k: int|
                0 <= k < anchors@.len() ==> (#[trigger] anchors@[k]).y < h && anchors@[k].x < w
                    && !bcell(old(g)@, anchors@[k].y as int, anchors@[k].x as int),
            forall|k: int, y: int, x: int|
                #![trigger anchors@[k], bcell(g@, y, x)]
                0 <= k < anchors@.len() && 0 <= y < h && 0 <= x < w && in_band(
                    x,
                    anchors@[k].x as int,
                    tw as int,
                ) ==> bcell(g@, y, x),
            forall|k1: int, k2: int|
                0 <= k1 < k2 < anchors@.len() ==> !in_band(
                    (#[trigger] anchors@[k2]).x as int,
                    (#[trigger] anchors@[k1]).x as int,
                    tw as int,
                ),
            forall|y: int, x: int|
                0 <= y < h && 0 <= x < w && !(#[trigger] bcell(old(g)@, y, x)) && bcell(g@, y, x)
                    ==> covered(anchors@, x, tw as int),
            anchors@.len() >= 1 ==> !buniform(old(g)@, w as int, h as int),
            anchors@.len() >= 1 ==> forall|y: int, x: int|
                0 <= y < h && 0 <= x < w && row_major_before(
                    y,
                    x,
                    anchors@[0].y as int,
                    anchors@[0].x as int,
                ) ==> bcell(old(g)@, y, x),
        decreases w - anchors@.len(),
    {
        let ff = first_false(g, w, h);
        match ff {
            Option::None => {
                // All cells true: uniform, nothing (further) to find. Every
                // candidate of the input grid was suppressed, hence covered.
                proof {
                    if anchors@.len() == 0 {
                        assert(ball_true(old(g)@, w as int, h as int));
                    }
                    assert forall|y: int, x: int|
                        0 <= y < h && 0 <= x < w && !(#[trigger] bcell(old(g)@, y, x))
                            implies covered(anchors@, x, tw as int) by {
                        assert(bcell(g@, y, x));
                    }
                }
                return anchors;
            },
            Option::Some(a) => {
                if !exists_true(g, w, h) {
                    // All cells false: equally uniform. This can only be the
                    // untouched input grid: a recorded anchor's own band
                    // would hold suppressed cells.
                    proof {
                        if anchors@.len() == 0 {
                            assert(ball_false(old(g)@, w as int, h as int));
                        } else {
                            assert(in_band(
                                anchors@[0].x as int,
                                anchors@[0].x as int,
                                tw as int,
                            ));
                            assert(bcell(g@, 0, anchors@[0].x as int));
                            assert(false);
                        }
                    }
                    return anchors;
                }
                // Mixed grid: record an octave at the first candidate cell.
                let ghost anchors0 = anchors@;
                let ghost used0 = used;
                let ghost g1 = g@;
                proof {
                    // The new column is fresh: every already-used column
                    // sits inside its own suppressed band, hence is true
                    // over the full height, while the new cell is false.
                    assert(!used.contains(a.x as int)) by {
                        if used.contains(a.x as int) {
                            let k = choose|k: int|
                                0 <= k < anchors@.len() && (#[trigger] anchors@[k]).x
                                    == a.x as int;
                            assert(in_band(a.x as int, anchors@[k].x as int, tw as int));
                            assert(bcell(g@, a.y as int, a.x as int));
                        }
                    }
                    if anchors@.len() == 0 {
                        assert(!ball_true(old(g)@, w as int, h as int)) by {
                            assert(!bcell(old(g)@, a.y as int, a.x as int));
                        }
                    }
                    // No earlier anchor's band holds the new column.
                    assert forall|k: int| 0 <= k < anchors@.len() implies !in_band(
                        a.x as int,
                        (#[trigger] anchors@[k]).x as int,
                        tw as int,
                    ) by {
                        if in_band(a.x as int, anchors@[k].x as int, tw as int) {
                            assert(bcell(g@, a.y as int, a.x as int));
                        }
                    }
                    // Freshness bounds the anchor count by the width.
                    lemma_int_range(0, w as int);
                    used = used.insert(a.x as int);
                    lemma_len_subset(used, set_int_range(0, w as int));
                    assert(used.len() == anchors@.len() + 1);
                }
                anchors.push(a);
                proof {
                    assert forall|e: int| used.contains(e) implies (exists|k: int|
                        0 <= k < anchors@.len() && (#[trigger] anchors@[k]).x == e) by {
                        if e == a.x as int {
                            assert(anchors@[anchors@.len() - 1].x == e);
                        } else {
                            let k = choose|k: int|
                                0 <= k < anchors0.len() && (#[trigger] anchors0[k]).x == e;
                            assert(anchors@[k].x == e);
                        }
                    }
                    assert forall|e: int|
                        (exists|k: int| 0 <= k < anchors@.len() && (#[trigger] anchors@[k]).x == e)
                        implies used.contains(e) by {
                        let k = choose|k: int|
                            0 <= k < anchors@.len() && (#[trigger] anchors@[k]).x == e;
                        if k < anchors@.len() - 1 {
                            assert(anchors0[k].x == e);
                            assert(used0.contains(e));
                        }
                    }
                }
                suppress(g, a.x, tw, w, h);
                proof {
                    // A candidate suppressed now was suppressed before (an
                    // earlier band covers it) or fell to the new band.
                    assert forall|y: int, x: int|
                        0 <= y < h && 0 <= x < w && !(#[trigger] bcell(old(g)@, y, x)) && bcell(
                            g@,
                            y,
                            x,
                        ) implies covered(anchors@, x, tw as int) by {
                        if in_band(x, a.x as int, tw as int) {
                            assert(anchors@[anchors@.len() - 1].x == a.x);
                            assert(in_band(x, anchors@[anchors@.len() - 1].x as int, tw as int));
                        } else {
                            assert(bcell(g1, y, x));
                            assert(covered(anchors0, x, tw as int));
                            let k = choose|k: int|
                                0 <= k < anchors0.len() && in_band(
                                    x,
                                    (#[trigger] anchors0[k]).x as int,
                                    tw as int,
                                );
                            assert(in_band(x, anchors@[k].x as int, tw as int));
                        }
                    }
                    // Bands of every recorded anchor, the new one included,
                    // stay fully suppressed.
                    assert forall|k: int, y: int, x: int|
                        #![trigger anchors@[k], bcell(g@, y, x)]
                        0 <= k < anchors@.len() && 0 <= y < h && 0 <= x < w && in_band(
                            x,
                            anchors@[k].x as int,
                            tw as int,
                        ) implies bcell(g@, y, x) by {
                        if k < anchors@.len() - 1 && !in_band(x, a.x as int, tw as int) {
                            assert(anchors0[k] == anchors@[k]);
                            assert(bcell(g1, y, x));
                        }
                    }
                }
            },
        }
    }
}

/// Locate every octave-sized segment of the keyboard on the match-score
/// surface.
///
/// Starting at threshold zero and rising by the configured step, the
/// surface is binarized against the threshold and the inner search collects
/// non-overlapping anchors of best-match cells. The sweep returns the first
/// threshold's finds, and fails with
/// [`CalibrationError::KeyboardNotFound`] once the threshold passes a full
/// score unit with no octave ever found.
///
/// The template width must be at least 11 so that a recorded anchor falls
/// inside its own suppression band (the band is shifted ten pixels left),
/// which is what makes the inner search terminate.
pub fn locate_octaves(surface: &ScoreGrid, template_width: usize, cfg: &Config) -> (r: Result<
    Vec<Anchor>,
    CalibrationError,
>)
    requires
        surface.wf(),
        1 <= surface.width,
        1 <= surface.height,
        11 <= template_width,
        surface.width + template_width <= usize::MAX,
        cfg.wf(),
    ensures
        match r {
            Result::Ok(v) => located_by_sweep(v@, surface, template_width as int, cfg),
            Result::Err(e) => e == CalibrationError::KeyboardNotFound && no_threshold_finds(
                surface,
                cfg,
            ),
        },
{
    let w = surface.width;
    let h = surface.height;
    let step = cfg.locator_threshold_step;
    let mut thresh: u32 = 0;
    let ghost mut i: int = 0;
    loop
        invariant
            surface.wf(),
            1 <= w == surface.width,
            1 <= h == surface.height,
            11 <= template_width,
            w + template_width <= usize::MAX,
            cfg.wf(),
            step == cfg.locator_threshold_step,
            0 <= i,
            thresh == i * step,
            thresh <= SCORE_UNIT + step,
            forall|j: int| 0 <= j < i ==> !mixed_at_index(surface, cfg, j),
        decreases SCORE_UNIT + step - thresh,
    {
        let mut bin = binarize(surface, thresh);
        let ghost bin0 = bin@;
        let anchors = sweep(&mut bin, template_width, w, h);
        if anchors.len() > 0 {
            proof {
                lemma_not_uniform_is_mixed(surface, bin0, thresh);
                assert forall|k: int| 0 <= k < anchors@.len() implies (#[trigger] anchors@[k]).y
                    < surface.height && anchors@[k].x < surface.width && surface.val(
                    anchors@[k].y as int,
                    anchors@[k].x as int,
                ) <= thresh as int by {
                    assert(!bcell(bin0, anchors@[k].y as int, anchors@[k].x as int));
                }
                assert forall|y: int, x: int|
                    0 <= y < surface.height && 0 <= x < surface.width && row_major_before(
                        y,
                        x,
                        anchors@[0].y as int,
                        anchors@[0].x as int,
                    ) implies #[trigger] surface.val(y, x) > thresh as int by {
                    assert(bcell(bin0, y, x));
                }
                assert forall|y: int, x: int|
                    0 <= y < surface.height && 0 <= x < surface.width && #[trigger] surface.val(
                        y,
                        x,
                    ) <= thresh as int implies covered(anchors@, x, template_width as int) by {
                    assert(!bcell(bin0, y, x));
                }
                assert(anchors_found_at(anchors@, surface, template_width as int, thresh as int));
                assert((i - 1) * step == i * step - step) by (nonlinear_arith);
                assert(anchors_found_at_index(anchors@, surface, template_width as int, cfg, i));
                assert(located_by_sweep(anchors@, surface, template_width as int, cfg));
            }
            return Result::Ok(anchors);
        }
        proof {
            lemma_uniform_not_mixed(surface, bin0, thresh);
            assert(!mixed_at_index(surface, cfg, i));
        }
        if thresh > SCORE_UNIT {
            proof {
                assert forall|j: int| 0 <= j && threshold_tried(cfg, j) implies !mixed_at_index(
                    surface,
                    cfg,
                    j,
                ) by {
                    if j > i {
                        assert((j - 1) * step >= i * step) by (nonlinear_arith)
                            requires
                                j - 1 >= i,
                                step >= 1,
                        ;
                        assert(false);
                    }
                }
            }
            return Result::Err(CalibrationError::KeyboardNotFound);
        }
        thresh = thresh + step;
        proof {
            assert((i + 1) * step == i * step + step) by (nonlinear_arith);
            i = i + 1;
        }
    }
}

/// A non-uniform binarization means scores on both sides of the threshold.
proof fn lemma_not_uniform_is_mixed(s: &ScoreGrid, g: Seq<Vec<bool>>, t: u32)
    requires
        s.wf(),
        1 <= s.width,
        1 <= s.height,
        bgrid_wf(g, s.width as int, s.height as int),
        forall|y: int, x: int|
            0 <= y < s.height && 0 <= x < s.width ==> bcell(g, y, x) == (s.val(y, x) > t),
        !buniform(g, s.width as int, s.height as int),
    ensures
        mixed_at(s, t as int),
{
    let (y1, x1) = choose|y: int, x: int| 0 <= y < s.height && 0 <= x < s.width && !bcell(g, y, x);
    assert(s.val(y1, x1) <= t);
    let (y2, x2) = choose|y: int, x: int| 0 <= y < s.height && 0 <= x < s.width && bcell(g, y, x);
    assert(s.val(y2, x2) > t);
}

/// A uniform binarization means all scores on one side of the threshold.
proof fn lemma_uniform_not_mixed(s: &ScoreGrid, g: Seq<Vec<bool>>, t: u32)
    requires
        s.wf(),
        1 <= s.width,
        1 <= s.height,
        bgrid_wf(g, s.width as int, s.height as int),
        forall|y: int, x: int|
            0 <= y < s.height && 0 <= x < s.width ==> bcell(g, y, x) == (s.val(y, x) > t),
        buniform(g, s.width as int, s.height as int),
    ensures
        !mixed_at(s, t as int),
{
    if ball_true(g, s.width as int, s.height as int) {
        assert forall|y: int, x: int|
            0 <= y < s.height && 0 <= x < s.width implies #[trigger] s.val(y, x) > t by {
            assert(bcell(g, y, x));
        }
    } else {
        assert forall|y: int, x: int|
            0 <= y < s.height && 0 <= x < s.width implies #[trigger] s.val(y, x) <= t by {
            assert(!bcell(g, y, x));
        }
    }
}

} // verus!
