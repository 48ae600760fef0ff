//! Plain pixel data: colors, frames, the one-octave template strip, and the
//! match-score surface the octave locator searches.

use vstd::prelude::*;

verus! {

/// One RGB pixel sample.
#[derive(Clone, Copy, PartialEq, Eq, Structural, Debug)]
pub struct Rgb {
    pub r: u8,
    pub g: u8,
    pub b: u8,
}

/// Absolute difference of two channel values.
pub open spec fn abs_diff(a: u8, b: u8) -> int {
    if a >= b {
        a - b
    } else {
        b - a
    }
}

/// Sum of absolute per-channel differences between two colors; the distance
/// every threshold of the pipeline is compared against. At most 765.
pub open spec fn color_diff(a: Rgb, b: Rgb) -> int {
    abs_diff(a.r, b.r) + abs_diff(a.g, b.g) + abs_diff(a.b, b.b)
}

impl Rgb {
    /// Sum of absolute per-channel differences to `other`.
    pub fn diff(self, other: Rgb) -> (d: u32)
        ensures
            d == color_diff(self, other),
            d <= 765,
    {
        let dr: u32 = if self.r >= other.r {
            (self.r - other.r) as u32
        } else {
            (other.r - self.r) as u32
        };
        let dg: u32 = if self.g >= other.g {
            (self.g - other.g) as u32
        } else {
            (other.g - self.g) as u32
        };
        let db: u32 = if self.b >= other.b {
            (self.b - other.b) as u32
        } else {
            (other.b - self.b) as u32
        };
        dr + dg + db
    }
}

/// A top-left corner of a located octave inside the frame.
#[derive(Clone, Copy, PartialEq, Eq, Structural, Debug)]
pub struct Anchor {
    pub x: usize,
    pub y: usize,
}

/// A read-only grid of RGB samples, one row per scan line.
pub struct Frame {
    pub width: usize,
    pub height: usize,
    pub rows: Vec<Vec<Rgb>>,
}

impl Frame {
    /// Every row present and of the stated width.
    pub open spec fn wf(&self) -> bool {
        &&& self.rows@.len() == self.height
        &&& forall|y: int| 0 <= y < self.height ==> #[trigger] self.rows@[y]@.len() == self.width
    }

    pub open spec fn pixel(&self, y: int, x: int) -> Rgb {
        self.rows@[y]@[x]
    }

    pub fn at(&self, y: usize, x: usize) -> (p: Rgb)
        requires
            self.wf(),
            y < self.height,
            x < self.width,
        ensures
            p == self.pixel(y as int, x as int),
    {
        self.rows[y][x]
    }
}

/// The reference strip: a single row of RGB samples spanning exactly one
/// octave's worth of key colors.
pub struct Template {
    pub width: usize,
    pub pixels: Vec<Rgb>,
}

impl Template {
    pub open spec fn wf(&self) -> bool {
        self.pixels@.len() == self.width
    }

    pub open spec fn pixel(&self, x: int) -> Rgb {
        self.pixels@[x]
    }

    pub fn at(&self, x: usize) -> (p: Rgb)
        requires
            self.wf(),
            x < self.width,
        ensures
            p == self.pixel(x as int),
    {
        self.pixels[x]
    }
}

/// A template-match score surface. Scores are fixed-point: a value of
/// `crate::config::SCORE_UNIT` stands for a normalized score of 1.0, and
/// lower means a better match.
pub struct ScoreGrid {
    pub width: usize,
    pub height: usize,
    pub rows: Vec<Vec<u32>>,
}

impl ScoreGrid {
    pub open spec fn wf(&self) -> bool {
        &&& self.rows@.len() == self.height
        &&& forall|y: int| 0 <= y < self.height ==> #[trigger] self.rows@[y]@.len() == self.width
    }

    pub open spec fn val(&self, y: int, x: int) -> u32 {
        self.rows@[y]@[x]
    }

    pub fn at(&self, y: usize, x: usize) -> (v: u32)
        requires
            self.wf(),
            y < self.height,
            x < self.width,
        ensures
            v == self.val(y as int, x as int),
    {
        self.rows[y][x]
    }
}

} // verus!
