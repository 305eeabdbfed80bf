//! The height-field data model: a row-major grid of fixed-point height
//! samples with an optional grid of packed 24-bit RGB color overrides.

use vstd::prelude::*;

verus! {

/// In-memory grid of height samples with optional per-sample colors.
///
/// Heights are fixed-point micro-units ([`crate::fixed::SCALE`] per whole
/// unit); colors are packed `0xRRGGBB` values. `width` and `height` are
/// derived from the grids at construction and the rows stay rectangular
/// for the life of the value.
#[derive(Debug, Clone)]
pub struct TerrainData {
    /// Number of columns, the length of every row.
    pub width: usize,
    /// Number of rows.
    pub height: usize,
    /// Row-major height samples, `height` rows of `width` entries.
    pub points: Vec<Vec<i64>>,
    /// Row-major packed RGB overrides, same shape as `points`; present
    /// only when the source supplied at least one explicit color.
    pub colors: Option<Vec<Vec<u32>>>,
}

impl TerrainData {
    /// Well-formedness: the dimensions match the grids, every sample row
    /// is `width` long, and the color grid (when present) has the same
    /// shape as the sample grid.
    pub open spec fn wf(self) -> bool {
        &&& self.height == self.points@.len()
        &&& forall|z: int|
            0 <= z < self.points@.len() ==> (#[trigger] self.points@[z])@.len() == self.width
        &&& (self.points@.len() == 0 ==> self.width == 0)
        &&& match self.colors {
            Some(c) => {
                &&& c@.len() == self.points@.len()
                &&& forall|z: int|
                    0 <= z < c@.len() ==> (#[trigger] c@[z])@.len() == self.width
            },
            None => true,
        }
    }

    /// The sample at grid row `z`, column `x`.
    pub open spec fn sample(self, z: int, x: int) -> i64 {
        self.points@[z]@[x]
    }

    /// Every sample's magnitude stays within `bound` micro-units.
    pub open spec fn samples_within(self, bound: int) -> bool {
        forall|z: int, x: int|
            0 <= z < self.points@.len() && 0 <= x < self.width
                ==> -bound <= #[trigger] self.sample(z, x) <= bound
    }

    /// Assembles a height field from parsed rows. The rows must already be
    /// rectangular — the loader checks that while parsing and reports
    /// ragged input as an error instead of constructing a value.
    pub fn new(points: Vec<Vec<i64>>, colors: Option<Vec<Vec<u32>>>) -> (r: TerrainData)
        requires
            forall|z: int|
                0 <= z < points@.len()
                    ==> (#[trigger] points@[z])@.len() == points@[0]@.len(),
            match colors {
                Some(c) => {
                    &&& c@.len() == points@.len()
                    &&& forall|z: int|
                        0 <= z < c@.len() ==> (#[trigger] c@[z])@.len() == points@[0]@.len()
                },
                None => true,
            },
        ensures
            r.wf(),
            r.points == points,
            r.colors == colors,
            r.height == points@.len(),
            r.width == (if points@.len() == 0 { 0int } else { points@[0]@.len() as int }),
    {
        let height = points.len();
        let width = if height > 0 {
            points[0].len()
        } else {
            0
        };
        TerrainData { width, height, points, colors }
    }

    /// Smallest sample in row-major order from `(z, x)` on; the maximum
    /// `i64` when that region is empty, so it is neutral for `min`.
    pub open spec fn spec_min_from(self, z: int, x: int) -> int
        decreases self.points@.len() - z, self.width - x,
    {
        if z < 0 || z >= self.points@.len() {
            0x7fff_ffff_ffff_ffff
        } else if x < 0 || x >= self.width {
            self.spec_min_from(z + 1, 0)
        } else {
            let rest = self.spec_min_from(z, x + 1);
            if self.sample(z, x) <= rest {
                self.sample(z, x) as int
            } else {
                rest
            }
        }
    }

    /// Smallest sample of the grid ([`TerrainData::lemma_min_props`]).
    pub open spec fn spec_min(self) -> int {
        self.spec_min_from(0, 0)
    }

    /// Largest sample in row-major order from `(z, x)` on; the minimum
    /// `i64` when that region is empty, so it is neutral for `max`.
    pub open spec fn spec_max_from(self, z: int, x: int) -> int
        decreases self.points@.len() - z, self.width - x,
    {
        if z < 0 || z >= self.points@.len() {
            -0x8000_0000_0000_0000
        } else if x < 0 || x >= self.width {
            self.spec_max_from(z + 1, 0)
        } else {
            let rest = self.spec_max_from(z, x + 1);
            if self.sample(z, x) >= rest {
                self.sample(z, x) as int
            } else {
                rest
            }
        }
    }

    /// Largest sample of the grid ([`TerrainData::lemma_max_props`]).
    pub open spec fn spec_max(self) -> int {
        self.spec_max_from(0, 0)
    }

    /// `spec_min_from(z, x)` bounds every sample at or after `(z, x)` in
    /// row-major order from below, and is attained unless it is the
    /// neutral value.
    pub proof fn lemma_min_from_props(self, z: int, x: int)
        requires
            self.wf(),
            self.width >= 1,
            0 <= z <= self.points@.len(),
            0 <= x <= self.width,
        ensures
            forall|zz: int, xx: int|
                0 <= zz < self.points@.len() && 0 <= xx < self.width
                    && (zz > z || (zz == z && xx >= x))
                    ==> self.spec_min_from(z, x) <= #[trigger] self.sample(zz, xx),
            self.spec_min_from(z, x) == 0x7fff_ffff_ffff_ffff || exists|zz: int, xx: int|
                0 <= zz < self.points@.len() && 0 <= xx < self.width
                    && (zz > z || (zz == z && xx >= x))
                    && #[trigger] self.sample(zz, xx) == self.spec_min_from(z, x),
        decreases self.points@.len() - z, self.width - x,
    {
        if z >= self.points@.len() {
        } else if x >= self.width {
            self.lemma_min_from_props(z + 1, 0);
        } else {
            self.lemma_min_from_props(z, x + 1);
            // Mention the head sample so the quantifiers can pick it up.
            assert(self.spec_min_from(z, x) <= self.sample(z, x));
        }
    }

    /// The grid minimum is attained and bounds every sample from below.
    pub proof fn lemma_min_props(self)
        requires
            self.wf(),
            self.width >= 1,
            self.points@.len() >= 1,
        ensures
            forall|z: int, x: int|
                0 <= z < self.points@.len() && 0 <= x < self.width
                    ==> self.spec_min() <= #[trigger] self.sample(z, x),
            exists|z: int, x: int|
                0 <= z < self.points@.len() && 0 <= x < self.width
                    && #[trigger] self.sample(z, x) == self.spec_min(),
    {
        self.lemma_min_from_props(0, 0);
        if self.spec_min() == 0x7fff_ffff_ffff_ffff {
            assert(self.spec_min() <= self.sample(0, 0));
            assert(self.sample(0, 0) == self.spec_min());
        }
    }

    /// `spec_max_from(z, x)` bounds every sample at or after `(z, x)` in
    /// row-major order from above, and is attained unless it is the
    /// neutral value.
    pub proof fn lemma_max_from_props(self, z: int, x: int)
        requires
            self.wf(),
            self.width >= 1,
            0 <= z <= self.points@.len(),
            0 <= x <= self.width,
        ensures
            forall|zz: int, xx: int|
                0 <= zz < self.points@.len() && 0 <= xx < self.width
                    && (zz > z || (zz == z && xx >= x))
                    ==> self.spec_max_from(z, x) >= #[trigger] self.sample(zz, xx),
            self.spec_max_from(z, x) == -0x8000_0000_0000_0000 || exists|zz: int, xx: int|
                0 <= zz < self.points@.len() && 0 <= xx < self.width
                    && (zz > z || (zz == z && xx >= x))
                    && #[trigger] self.sample(zz, xx) == self.spec_max_from(z, x),
        decreases self.points@.len() - z, self.width - x,
    {
        if z >= self.points@.len() {
        } else if x >= self.width {
            self.lemma_max_from_props(z + 1, 0);
        } else {
            self.lemma_max_from_props(z, x + 1);
            // Mention the head sample so the quantifiers can pick it up.
            assert(self.spec_max_from(z, x) >= self.sample(z, x));
        }
    }

    /// The grid maximum is attained and bounds every sample from above.
    pub proof fn lemma_max_props(self)
        requires
            self.wf(),
            self.width >= 1,
            self.points@.len() >= 1,
        ensures
            forall|z: int, x: int|
                0 <= z < self.points@.len() && 0 <= x < self.width
                    ==> self.spec_max() >= #[trigger] self.sample(z, x),
            exists|z: int, x: int|
                0 <= z < self.points@.len() && 0 <= x < self.width
                    && #[trigger] self.sample(z, x) == self.spec_max(),
    {
        self.lemma_max_from_props(0, 0);
        if self.spec_max() == -0x8000_0000_0000_0000 {
            assert(self.spec_max() >= self.sample(0, 0));
            assert(self.sample(0, 0) == self.spec_max());
        }
    }

    /// Smallest and largest sample of the grid, or `(0, 0)` when the grid
    /// has no samples at all.
    pub fn height_bounds(&self) -> (r: (i64, i64))
        requires
            self.wf(),
        ensures
            self.width == 0 || self.height == 0 ==> r == (0i64, 0i64),
            self.width > 0 && self.height > 0 ==> {
                &&& r.0 == self.spec_min()
                &&& r.1 == self.spec_max()
                &&& exists|z: int, x: int|
                    0 <= z < self.height && 0 <= x < self.width && self.sample(z, x) == r.0
                &&& exists|z: int, x: int|
                    0 <= z < self.height && 0 <= x < self.width && self.sample(z, x) == r.1
                &&& forall|z: int, x: int|
                    0 <= z < self.height && 0 <= x < self.width
                        ==> r.0 <= #[trigger] self.sample(z, x) <= r.1
            },
    {
        if self.width == 0 || self.height == 0 {
            return (0, 0);
        }
        let mut min: i64 = self.points[0][0];
        let mut max: i64 = self.points[0][0];
        proof {
            assert(self.sample(0, 0) == min);
        }
        let mut z: usize = 0;
        while z < self.height
            invariant
                self.wf(),
                self.width > 0,
                self.height > 0,
                0 <= z <= self.height,
                exists|zz: int, xx: int|
                    0 <= zz < self.height && 0 <= xx < self.width && self.sample(zz, xx) == min,
                exists|zz: int, xx: int|
                    0 <= zz < self.height && 0 <= xx < self.width && self.sample(zz, xx) == max,
                forall|zz: int, xx: int|
                    0 <= zz < z && 0 <= xx < self.width
                        ==> min <= #[trigger] self.sample(zz, xx) <= max,
            decreases self.height - z,
        {
            let mut x: usize = 0;
            while x < self.width
                invariant
                    self.wf(),
                    self.width > 0,
                    self.height > 0,
                    0 <= z < self.height,
                    0 <= x <= self.width,
                    exists|zz: int, xx: int|
                        0 <= zz < self.height && 0 <= xx < self.width
                            && self.sample(zz, xx) == min,
                    exists|zz: int, xx: int|
                        0 <= zz < self.height && 0 <= xx < self.width
                            && self.sample(zz, xx) == max,
                    forall|zz: int, xx: int|
                        0 <= zz < z && 0 <= xx < self.width
                            ==> min <= #[trigger] self.sample(zz, xx) <= max,
                    forall|xx: int|
                        0 <= xx < x ==> min <= #[trigger] self.sample(z as int, xx) <= max,
                decreases self.width - x,
            {
                let h = self.points[z][x];
                proof {
                    assert(self.sample(z as int, x as int) == h);
                }
                if h < min {
                    min = h;
                }
                if h > max {
                    max = h;
                }
                x += 1;
            }
            z += 1;
        }
        proof {
            self.lemma_min_props();
            self.lemma_max_props();
        }
        (min, max)
    }
}

} // verus!
