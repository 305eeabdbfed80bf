//! Mesh generation: turns a height field into vertices (position, color,
//! normal), wireframe line indices and triangle indices, all centered at
//! the origin so an orbital camera can revolve around the grid.
//!
//! All coordinates are fixed-point micro-units. Grid steps are one whole
//! unit, so the centering offsets `(width-1)/2` and `(height-1)/2` are
//! exact half-units in micro-units.

use vstd::prelude::*;
use vstd::arithmetic::div_mod::{lemma_fundamental_div_mod_converse, lemma_div_is_ordered,
    lemma_div_multiples_vanish};
use crate::colors::{ColorScheme, Rgb, height_to_color, spec_height_to_color};
use crate::fixed::{FixedVec3, SCALE, div_trunc, normalize_dir, scale_mul, spec_abs,
    spec_normalize3};
use crate::loader::HEIGHT_LIMIT;
use crate::terrain::TerrainData;

verus! {

/// Largest grid dimension the generator accepts. Together with
/// [`HEIGHT_LIMIT`] and [`MAX_HEIGHT_SCALE`] it keeps every intermediate
/// product of the mesh arithmetic inside `i64`, and every vertex index
/// inside `u32`.
pub const MAX_DIM: usize = 10_000;

/// Largest height-scale magnitude the generator accepts, in micro-units
/// (a factor of one thousand).
pub const MAX_HEIGHT_SCALE: i64 = 1_000_000_000;

/// How vertex normals are computed.
#[derive(Clone, Copy, Debug, PartialEq, Eq, Structural, Default)]
pub enum ShadingMode {
    /// Face normals of the two triangles of every quad, accumulated onto
    /// their vertices and normalized, forced into the upward hemisphere.
    #[default]
    Smooth,
    /// A per-vertex central difference of the scaled heights.
    Flat,
}

/// One mesh vertex: position, color and unit normal, in micro-units.
#[derive(Clone, Copy, Debug, PartialEq, Eq, Structural)]
pub struct Vertex {
    pub position: FixedVec3,
    pub color: Rgb,
    pub normal: FixedVec3,
}

/// Generated mesh: one vertex per grid sample (row-major), index pairs
/// for wireframe lines and index triples for filled triangles.
pub struct TerrainMesh {
    pub vertices: Vec<Vertex>,
    pub wireframe_indices: Vec<u32>,
    pub triangle_indices: Vec<u32>,
}

impl TerrainMesh {
    /// Every index of both index lists names an existing vertex.
    pub open spec fn wf(self) -> bool {
        &&& forall|k: int|
            0 <= k < self.wireframe_indices@.len()
                ==> #[trigger] self.wireframe_indices@[k] < self.vertices@.len()
        &&& forall|k: int|
            0 <= k < self.triangle_indices@.len()
                ==> #[trigger] self.triangle_indices@[k] < self.vertices@.len()
    }
}

/// The `x` coordinate of grid column `x`: columns step one unit apart and
/// the whole grid is shifted left by `(width-1)/2` to center it.
pub open spec fn spec_pos_x(t: TerrainData, x: int) -> int {
    (2 * x - (t.width as int - 1)) * 500_000
}

/// The `z` coordinate of grid row `z`, centered like [`spec_pos_x`].
pub open spec fn spec_pos_z(t: TerrainData, z: int) -> int {
    (2 * z - (t.height as int - 1)) * 500_000
}

/// The `y` coordinate of the sample at `(z, x)`: the height scaled by
/// `hs`, both in micro-units.
pub open spec fn spec_pos_y(t: TerrainData, hs: i64, z: int, x: int) -> int {
    div_trunc(t.sample(z, x) * hs, SCALE as int)
}

/// The height range used for color normalization; one whole unit when
/// all samples are equal, so the division below stays meaningful.
pub open spec fn spec_range(t: TerrainData) -> int {
    if t.spec_max() == t.spec_min() {
        SCALE as int
    } else {
        t.spec_max() - t.spec_min()
    }
}

/// The normalized height of the sample at `(z, x)`, in `[0, SCALE]`.
pub open spec fn spec_tnorm(t: TerrainData, z: int, x: int) -> int {
    (t.sample(z, x) - t.spec_min()) * (SCALE as int) / spec_range(t)
}

/// The color of the vertex at `(z, x)` under `scheme`.
pub open spec fn spec_vertex_color(t: TerrainData, scheme: ColorScheme, z: int, x: int) -> (
    int,
    int,
    int,
) {
    spec_height_to_color(spec_tnorm(t, z, x), scheme)
}

/// The scaled heights stay within one unit of position per thousand
/// units of height: the product of the operating limits.
pub proof fn lemma_pos_y_bound(t: TerrainData, hs: i64, z: int, x: int)
    requires
        t.wf(),
        t.samples_within(HEIGHT_LIMIT as int),
        -MAX_HEIGHT_SCALE <= hs <= MAX_HEIGHT_SCALE,
        0 <= z < t.points@.len(),
        0 <= x < t.width,
    ensures
        -1_000_000_000_000_000 <= spec_pos_y(t, hs, z, x) <= 1_000_000_000_000_000,
{
    let p = t.sample(z, x) * hs;
    assert(spec_abs(p) <= 1_000_000_000_000_000_000_000) by (nonlinear_arith)
        requires
            p == t.sample(z, x) * hs,
            -1_000_000_000_000 <= t.sample(z, x) <= 1_000_000_000_000,
            -1_000_000_000 <= hs <= 1_000_000_000;
    assert(spec_abs(p) / (SCALE as int) <= 1_000_000_000_000_000) by {
        lemma_div_is_ordered(spec_abs(p), 1_000_000_000_000_000_000_000, SCALE as int);
        lemma_div_multiples_vanish(1_000_000_000_000_000, SCALE as int);
    }
    assert(spec_abs(p) / (SCALE as int) >= 0) by {
        vstd::arithmetic::div_mod::lemma_div_basics_4(spec_abs(p), SCALE as int);
    }
}

/// Computes the scaled height of the sample at `(z, x)`.
fn pos_y(t: &TerrainData, hs: i64, z: usize, x: usize) -> (r: i64)
    requires
        t.wf(),
        t.samples_within(HEIGHT_LIMIT as int),
        -MAX_HEIGHT_SCALE <= hs <= MAX_HEIGHT_SCALE,
        z < t.points@.len(),
        x < t.width,
    ensures
        r == spec_pos_y(*t, hs, z as int, x as int),
        -1_000_000_000_000_000 <= r <= 1_000_000_000_000_000,
{
    proof {
        lemma_pos_y_bound(*t, hs, z as int, x as int);
    }
    scale_mul(t.points[z][x], hs)
}

/// Builds the wireframe index pairs of a `w` by `h` grid: the horizontal
/// edges of every row in row-major order, then the vertical edges of
/// every column in row-major order. No diagonals.
#[verifier::loop_isolation(false)]
#[verifier::rlimit(60)]
fn build_wireframe(w: usize, h: usize) -> (r: Vec<u32>)
    requires
        1 <= w <= MAX_DIM,
        1 <= h <= MAX_DIM,
    ensures
        r@.len() == 2 * (h * (w - 1) + w * (h - 1)),
        forall|e: int|
            0 <= e < h * (w - 1) ==> {
                let z = e / (w - 1);
                let x = e % (w - 1);
                #[trigger] r@[2 * e] == z * w + x && r@[2 * e + 1] == z * w + x + 1
            },
        forall|e: int|
            0 <= e < w * (h - 1) ==> {
                let z = e / (w as int);
                let x = e % (w as int);
                #[trigger] r@[2 * (h * (w - 1)) + 2 * e] == z * w + x
                    && r@[2 * (h * (w - 1)) + 2 * e + 1] == (z + 1) * w + x
            },
        forall|k: int| 0 <= k < r@.len() ==> #[trigger] r@[k] < w * h,
{
    proof {
        assert((w as int) * (h as int) <= 100_000_000) by (nonlinear_arith)
            requires 1 <= w <= 10_000, 1 <= h <= 10_000;
        assert((h as int) * ((w - 1) as int) <= 100_000_000) by (nonlinear_arith)
            requires 1 <= w <= 10_000, 1 <= h <= 10_000;
        assert((w as int) * ((h - 1) as int) <= 100_000_000) by (nonlinear_arith)
            requires 1 <= w <= 10_000, 1 <= h <= 10_000;
    }
    let mut r: Vec<u32> = Vec::new();
    let mut z: usize = 0;
    while z < h
        invariant
            0 <= z <= h,
            r@.len() == 2 * (z * (w - 1)),
            forall|e: int|
                0 <= e < z * (w - 1) ==> {
                    let ez = e / (w - 1);
                    let ex = e % (w - 1);
                    #[trigger] r@[2 * e] == ez * w + ex && r@[2 * e + 1] == ez * w + ex + 1
                },
            forall|k: int| 0 <= k < r@.len() ==> #[trigger] r@[k] < w * h,
        decreases h - z,
    {
        let mut x: usize = 0;
        while x + 1 < w
            invariant
                0 <= z < h,
                0 <= x <= w - 1,
                r@.len() == 2 * (z * (w - 1) + x),
                forall|e: int|
                    0 <= e < z * (w - 1) + x ==> {
                        let ez = e / (w - 1);
                        let ex = e % (w - 1);
                        #[trigger] r@[2 * e] == ez * w + ex && r@[2 * e + 1] == ez * w + ex + 1
                    },
                forall|k: int| 0 <= k < r@.len() ==> #[trigger] r@[k] < w * h,
            decreases w - x,
        {
            proof {
                assert((z as int) * (w as int) + x + 1 < (w as int) * (h as int))
                    by (nonlinear_arith)
                    requires 0 <= z < h, 0 <= x < w - 1, w >= 1;
                lemma_fundamental_div_mod_converse(
                    (z as int) * ((w - 1) as int) + x, (w - 1) as int, z as int, x as int);
            }
            let i = z * w + x;
            let ghost pre = r@;
            let ghost en = (z as int) * ((w - 1) as int) + (x as int);
            r.push(i as u32);
            r.push((i + 1) as u32);
            proof {
                assert forall|e: int| 0 <= e < en + 1 implies {
                    let ez = e / (w - 1);
                    let ex = e % (w - 1);
                    #[trigger] r@[2 * e] == ez * w + ex && r@[2 * e + 1] == ez * w + ex + 1
                } by {
                    if e < en {
                        assert(r@[2 * e] == pre[2 * e]);
                        assert(r@[2 * e + 1] == pre[2 * e + 1]);
                    } else {
                        assert(r@[2 * e] == i && r@[2 * e + 1] == i + 1);
                    }
                }
                assert forall|k: int| 0 <= k < r@.len() implies #[trigger] r@[k] < w * h by {
                    if k < pre.len() {
                        assert(r@[k] == pre[k]);
                    } else if k == pre.len() {
                        assert(r@[k] == i);
                    } else {
                        assert(r@[k] == i + 1);
                    }
                }
            }
            x += 1;
        }
        proof {
            assert((z as int) * ((w - 1) as int) + ((w - 1) as int)
                == ((z + 1) as int) * ((w - 1) as int)) by (nonlinear_arith);
            assert forall|e: int| 0 <= e < ((z + 1) as int) * ((w - 1) as int) implies {
                let ez = e / (w - 1);
                let ex = e % (w - 1);
                #[trigger] r@[2 * e] == ez * w + ex && r@[2 * e + 1] == ez * w + ex + 1
            } by {
                assert(0 <= e < (z as int) * ((w - 1) as int) + ((w - 1) as int));
            }
        }
        z += 1;
    }
    let horiz = h * (w - 1);
    proof {
        assert(horiz == (h as int) * ((w - 1) as int));
    }
    let mut z2: usize = 0;
    while z2 + 1 < h
        invariant
            0 <= z2 <= h - 1,
            horiz == h * (w - 1),
            r@.len() == 2 * horiz + 2 * (z2 * w),
            forall|e: int|
                0 <= e < h * (w - 1) ==> {
                    let ez = e / (w - 1);
                    let ex = e % (w - 1);
                    #[trigger] r@[2 * e] == ez * w + ex && r@[2 * e + 1] == ez * w + ex + 1
                },
            forall|e: int|
                0 <= e < z2 * w ==> {
                    let ez = e / (w as int);
                    let ex = e % (w as int);
                    #[trigger] r@[2 * (h * (w - 1)) + 2 * e] == ez * w + ex
                        && r@[2 * (h * (w - 1)) + 2 * e + 1] == (ez + 1) * w + ex
                },
            forall|k: int| 0 <= k < r@.len() ==> #[trigger] r@[k] < w * h,
        decreases h - z2,
    {
        let mut x: usize = 0;
        while x < w
            invariant
                0 <= z2 < h - 1,
                0 <= x <= w,
                horiz == h * (w - 1),
                r@.len() == 2 * horiz + 2 * (z2 * w + x),
                forall|e: int|
                    0 <= e < h * (w - 1) ==> {
                        let ez = e / (w - 1);
                        let ex = e % (w - 1);
                        #[trigger] r@[2 * e] == ez * w + ex && r@[2 * e + 1] == ez * w + ex + 1
                    },
                forall|e: int|
                    0 <= e < z2 * w + x ==> {
                        let ez = e / (w as int);
                        let ex = e % (w as int);
                        #[trigger] r@[2 * (h * (w - 1)) + 2 * e] == ez * w + ex
                            && r@[2 * (h * (w - 1)) + 2 * e + 1] == (ez + 1) * w + ex
                    },
                forall|k: int| 0 <= k < r@.len() ==> #[trigger] r@[k] < w * h,
            decreases w - x,
        {
            proof {
                assert(((z2 + 1) as int) * (w as int) + x < (w as int) * (h as int))
                    by (nonlinear_arith)
                    requires 0 <= z2 < h - 1, 0 <= x < w, w >= 1;
                assert(((z2 + 1) as int) * (w as int) == (z2 as int) * (w as int) + w)
                    by (nonlinear_arith);
                lemma_fundamental_div_mod_converse(
                    (z2 as int) * (w as int) + x, w as int, z2 as int, x as int);
            }
            let i = z2 * w + x;
            let ghost pre = r@;
            let ghost en = (z2 as int) * (w as int) + (x as int);
            r.push(i as u32);
            r.push((i + w) as u32);
            proof {
                assert forall|e: int| 0 <= e < en + 1 implies {
                    let ez = e / (w as int);
                    let ex = e % (w as int);
                    #[trigger] r@[2 * (h * (w - 1)) + 2 * e] == ez * w + ex
                        && r@[2 * (h * (w - 1)) + 2 * e + 1] == (ez + 1) * w + ex
                } by {
                    if e < en {
                        assert(r@[2 * (h * (w - 1)) + 2 * e] == pre[2 * (h * (w - 1)) + 2 * e]);
                        assert(r@[2 * (h * (w - 1)) + 2 * e + 1]
                            == pre[2 * (h * (w - 1)) + 2 * e + 1]);
                    } else {
                        assert(r@[2 * (h * (w - 1)) + 2 * e] == i);
                        assert(r@[2 * (h * (w - 1)) + 2 * e + 1] == i + w);
                    }
                }
                assert forall|k: int| 0 <= k < r@.len() implies #[trigger] r@[k] < w * h by {
                    if k < pre.len() {
                        assert(r@[k] == pre[k]);
                    } else if k == pre.len() {
                        assert(r@[k] == i);
                    } else {
                        assert(r@[k] == i + w);
                    }
                }
            }
            x += 1;
        }
        proof {
            assert((z2 as int) * (w as int) + (w as int) == ((z2 + 1) as int) * (w as int))
                by (nonlinear_arith);
            assert forall|e: int| 0 <= e < ((z2 + 1) as int) * (w as int) implies {
                let ez = e / (w as int);
                let ex = e % (w as int);
                #[trigger] r@[2 * (h * (w - 1)) + 2 * e] == ez * w + ex
                    && r@[2 * (h * (w - 1)) + 2 * e + 1] == (ez + 1) * w + ex
            } by {
                assert(0 <= e < (z2 as int) * (w as int) + (w as int));
            }
        }
        z2 += 1;
    }
    proof {
        assert((h as int) * ((w - 1) as int) + ((h - 1) as int) * (w as int)
            == (h as int) * ((w as int) - 1) + (w as int) * ((h as int) - 1)) by (nonlinear_arith);
        assert(((h - 1) as int) * (w as int) == (w as int) * ((h - 1) as int)) by (nonlinear_arith);
    }
    r
}

/// Builds the triangle index triples: for every quad, in row-major quad
/// order, the fixed winding `(top_left, bottom_left, top_right)` then
/// `(top_right, bottom_left, bottom_right)`.
#[verifier::loop_isolation(false)]
#[verifier::rlimit(100)]
fn build_triangles(w: usize, h: usize) -> (r: Vec<u32>)
    requires
        1 <= w <= MAX_DIM,
        1 <= h <= MAX_DIM,
    ensures
        r@.len() == 6 * ((w - 1) * (h - 1)),
        forall|q: int|
            0 <= q < (w - 1) * (h - 1) ==> {
                let qz = q / ((w - 1) as int);
                let qx = q % ((w - 1) as int);
                &&& #[trigger] r@[6 * q] == qz * w + qx
                &&& r@[6 * q + 1] == (qz + 1) * w + qx
                &&& r@[6 * q + 2] == qz * w + qx + 1
                &&& r@[6 * q + 3] == qz * w + qx + 1
                &&& r@[6 * q + 4] == (qz + 1) * w + qx
                &&& r@[6 * q + 5] == (qz + 1) * w + qx + 1
            },
        forall|k: int| 0 <= k < r@.len() ==> #[trigger] r@[k] < w * h,
{
    proof {
        assert((w as int) * (h as int) <= 100_000_000) by (nonlinear_arith)
            requires 1 <= w <= 10_000, 1 <= h <= 10_000;
        assert(((w - 1) as int) * ((h - 1) as int) <= 100_000_000) by (nonlinear_arith)
            requires 1 <= w <= 10_000, 1 <= h <= 10_000;
        assert(((h - 1) as int) * ((w - 1) as int) <= 100_000_000) by (nonlinear_arith)
            requires 1 <= w <= 10_000, 1 <= h <= 10_000;
    }
    let mut r: Vec<u32> = Vec::new();
    let mut qz: usize = 0;
    while qz + 1 < h
        invariant
            0 <= qz <= h - 1,
            r@.len() == 6 * (qz * (w - 1)),
            forall|q: int|
                0 <= q < qz * (w - 1) ==> {
                    let ez = q / ((w - 1) as int);
                    let ex = q % ((w - 1) as int);
                    &&& #[trigger] r@[6 * q] == ez * w + ex
                    &&& r@[6 * q + 1] == (ez + 1) * w + ex
                    &&& r@[6 * q + 2] == ez * w + ex + 1
                    &&& r@[6 * q + 3] == ez * w + ex + 1
                    &&& r@[6 * q + 4] == (ez + 1) * w + ex
                    &&& r@[6 * q + 5] == (ez + 1) * w + ex + 1
                },
            forall|k: int| 0 <= k < r@.len() ==> #[trigger] r@[k] < w * h,
        decreases h - qz,
    {
        let mut qx: usize = 0;
        while qx + 1 < w
            invariant
                0 <= qz < h - 1,
                0 <= qx <= w - 1,
                r@.len() == 6 * (qz * (w - 1) + qx),
                forall|q: int|
                    0 <= q < qz * (w - 1) + qx ==> {
                        let ez = q / ((w - 1) as int);
                        let ex = q % ((w - 1) as int);
                        &&& #[trigger] r@[6 * q] == ez * w + ex
                        &&& r@[6 * q + 1] == (ez + 1) * w + ex
                        &&& r@[6 * q + 2] == ez * w + ex + 1
                        &&& r@[6 * q + 3] == ez * w + ex + 1
                        &&& r@[6 * q + 4] == (ez + 1) * w + ex
                        &&& r@[6 * q + 5] == (ez + 1) * w + ex + 1
                    },
                forall|k: int| 0 <= k < r@.len() ==> #[trigger] r@[k] < w * h,
            decreases w - qx,
        {
            proof {
                assert(((qz + 1) as int) * (w as int) + qx + 1 < (w as int) * (h as int))
                    by (nonlinear_arith)
                    requires 0 <= qz < h - 1, 0 <= qx < w - 1;
                assert(((qz + 1) as int) * (w as int) == (qz as int) * (w as int) + w)
                    by (nonlinear_arith);
                lemma_fundamental_div_mod_converse(
                    (qz as int) * ((w - 1) as int) + qx, (w - 1) as int, qz as int, qx as int);
            }
            let tl = qz * w + qx;
            let bl = (qz + 1) * w + qx;
            let ghost pre = r@;
            let ghost en = (qz as int) * ((w - 1) as int) + (qx as int);
            r.push(tl as u32);
            r.push(bl as u32);
            r.push((tl + 1) as u32);
            r.push((tl + 1) as u32);
            r.push(bl as u32);
            r.push((bl + 1) as u32);
            proof {
                assert forall|q: int| 0 <= q < en + 1 implies {
                    let ez = q / ((w - 1) as int);
                    let ex = q % ((w - 1) as int);
                    &&& #[trigger] r@[6 * q] == ez * w + ex
                    &&& r@[6 * q + 1] == (ez + 1) * w + ex
                    &&& r@[6 * q + 2] == ez * w + ex + 1
                    &&& r@[6 * q + 3] == ez * w + ex + 1
                    &&& r@[6 * q + 4] == (ez + 1) * w + ex
                    &&& r@[6 * q + 5] == (ez + 1) * w + ex + 1
                } by {
                    if q < en {
                        assert(r@[6 * q] == pre[6 * q]);
                        assert(r@[6 * q + 1] == pre[6 * q + 1]);
                        assert(r@[6 * q + 2] == pre[6 * q + 2]);
                        assert(r@[6 * q + 3] == pre[6 * q + 3]);
                        assert(r@[6 * q + 4] == pre[6 * q + 4]);
                        assert(r@[6 * q + 5] == pre[6 * q + 5]);
                    } else {
                        assert(r@[6 * q] == tl && r@[6 * q + 1] == bl);
                        assert(r@[6 * q + 2] == tl + 1 && r@[6 * q + 3] == tl + 1);
                        assert(r@[6 * q + 4] == bl && r@[6 * q + 5] == bl + 1);
                    }
                }
                assert forall|k: int| 0 <= k < r@.len() implies #[trigger] r@[k] < w * h by {
                    if k < pre.len() {
                        assert(r@[k] == pre[k]);
                    } else if k == pre.len() {
                        assert(r@[k] == tl);
                    } else if k == pre.len() + 1 || k == pre.len() + 4 {
                        assert(r@[k] == bl);
                    } else if k == pre.len() + 5 {
                        assert(r@[k] == bl + 1);
                    } else {
                        assert(r@[k] == tl + 1);
                    }
                }
            }
            qx += 1;
        }
        proof {
            assert((qz as int) * ((w - 1) as int) + ((w - 1) as int)
                == ((qz + 1) as int) * ((w - 1) as int)) by (nonlinear_arith);
            assert forall|q: int| 0 <= q < ((qz + 1) as int) * ((w - 1) as int) implies {
                let ez = q / ((w - 1) as int);
                let ex = q % ((w - 1) as int);
                &&& #[trigger] r@[6 * q] == ez * w + ex
                &&& r@[6 * q + 1] == (ez + 1) * w + ex
                &&& r@[6 * q + 2] == ez * w + ex + 1
                &&& r@[6 * q + 3] == ez * w + ex + 1
                &&& r@[6 * q + 4] == (ez + 1) * w + ex
                &&& r@[6 * q + 5] == (ez + 1) * w + ex + 1
            } by {
                assert(0 <= q < (qz as int) * ((w - 1) as int) + ((w - 1) as int));
            }
        }
        qz += 1;
    }
    proof {
        assert(((h - 1) as int) * ((w - 1) as int) == ((w - 1) as int) * ((h - 1) as int))
            by (nonlinear_arith);
        assert forall|q: int| 0 <= q < ((w - 1) as int) * ((h - 1) as int) implies {
            let ez = q / ((w - 1) as int);
            let ex = q % ((w - 1) as int);
            &&& #[trigger] r@[6 * q] == ez * w + ex
            &&& r@[6 * q + 1] == (ez + 1) * w + ex
            &&& r@[6 * q + 2] == ez * w + ex + 1
            &&& r@[6 * q + 3] == ez * w + ex + 1
            &&& r@[6 * q + 4] == (ez + 1) * w + ex
            &&& r@[6 * q + 5] == (ez + 1) * w + ex + 1
        } by {
            assert(0 <= q < (qz as int) * ((w - 1) as int));
        }
    }
    r
}


/// Twice the central difference of the scaled heights along `x` at
/// `(z, x)`: central differences are doubled exactly, one-sided
/// differences at the boundary columns are doubled to match, and a
/// single-column grid is level.
pub open spec fn spec_flat_dx2(t: TerrainData, hs: i64, z: int, x: int) -> int {
    if t.width <= 1 {
        0
    } else if x == 0 {
        2 * (spec_pos_y(t, hs, z, 1) - spec_pos_y(t, hs, z, 0))
    } else if x == t.width - 1 {
        2 * (spec_pos_y(t, hs, z, x) - spec_pos_y(t, hs, z, x - 1))
    } else {
        spec_pos_y(t, hs, z, x + 1) - spec_pos_y(t, hs, z, x - 1)
    }
}

/// Twice the central difference of the scaled heights along `z`,
/// mirroring [`spec_flat_dx2`].
pub open spec fn spec_flat_dz2(t: TerrainData, hs: i64, z: int, x: int) -> int {
    if t.height <= 1 {
        0
    } else if z == 0 {
        2 * (spec_pos_y(t, hs, 1, x) - spec_pos_y(t, hs, 0, x))
    } else if z == t.height - 1 {
        2 * (spec_pos_y(t, hs, z, x) - spec_pos_y(t, hs, z - 1, x))
    } else {
        spec_pos_y(t, hs, z + 1, x) - spec_pos_y(t, hs, z - 1, x)
    }
}

/// The flat-shading normal direction `(-dh/dx, 1, -dh/dz)`, doubled so
/// the differences stay integers; its vertical component is always
/// positive.
pub open spec fn spec_flat_dir(t: TerrainData, hs: i64, z: int, x: int) -> (int, int, int) {
    (-spec_flat_dx2(t, hs, z, x), 2 * (SCALE as int), -spec_flat_dz2(t, hs, z, x))
}

/// The flat-shading vertex normal: the normalized gradient direction.
pub open spec fn spec_flat_normal(t: TerrainData, hs: i64, z: int, x: int) -> (int, int, int) {
    spec_normalize3(spec_flat_dir(t, hs, z, x))
}

/// Builds one vertex per grid sample in row-major order: centered
/// positions, scaled heights, and scheme colors of the normalized
/// height. Normals start level and are filled in by a shading pass.
#[verifier::loop_isolation(false)]
fn build_vertices(t: &TerrainData, hs: i64, scheme: ColorScheme) -> (r: Vec<Vertex>)
    requires
        t.wf(),
        1 <= t.width <= MAX_DIM,
        1 <= t.points@.len() <= MAX_DIM,
        t.samples_within(HEIGHT_LIMIT as int),
        -MAX_HEIGHT_SCALE <= hs <= MAX_HEIGHT_SCALE,
        scheme.wf(),
    ensures
        r@.len() == t.width * t.height,
        forall|i: int|
            0 <= i < r@.len() ==> {
                let z = i / (t.width as int);
                let x = i % (t.width as int);
                &&& (#[trigger] r@[i]).position.x == spec_pos_x(*t, x)
                &&& r@[i].position.y == spec_pos_y(*t, hs, z, x)
                &&& r@[i].position.z == spec_pos_z(*t, z)
                &&& r@[i].color.view_tuple() == spec_vertex_color(*t, scheme, z, x)
                &&& r@[i].color.wf()
            },
{
    let w = t.width;
    let h = t.height;
    proof {
        assert((w as int) * (h as int) <= 100_000_000) by (nonlinear_arith)
            requires 1 <= w <= 10_000, 1 <= h <= 10_000;
    }
    let bounds = t.height_bounds();
    let min = bounds.0;
    let max = bounds.1;
    let range: i64 = if max == min {
        SCALE
    } else {
        max - min
    };
    let mut r: Vec<Vertex> = Vec::new();
    let mut z: usize = 0;
    while z < h
        invariant
            0 <= z <= h,
            r@.len() == z * w,
            min == t.spec_min(),
            max == t.spec_max(),
            range == spec_range(*t),
            range >= 1,
            forall|i: int|
                0 <= i < r@.len() ==> {
                    let iz = i / (t.width as int);
                    let ix = i % (t.width as int);
                    &&& (#[trigger] r@[i]).position.x == spec_pos_x(*t, ix)
                    &&& r@[i].position.y == spec_pos_y(*t, hs, iz, ix)
                    &&& r@[i].position.z == spec_pos_z(*t, iz)
                    &&& r@[i].color.view_tuple() == spec_vertex_color(*t, scheme, iz, ix)
                    &&& r@[i].color.wf()
                },
        decreases h - z,
    {
        let mut x: usize = 0;
        while x < w
            invariant
                0 <= z < h,
                0 <= x <= w,
                r@.len() == z * w + x,
                min == t.spec_min(),
                max == t.spec_max(),
                range == spec_range(*t),
                range >= 1,
                forall|i: int|
                    0 <= i < r@.len() ==> {
                        let iz = i / (t.width as int);
                        let ix = i % (t.width as int);
                        &&& (#[trigger] r@[i]).position.x == spec_pos_x(*t, ix)
                        &&& r@[i].position.y == spec_pos_y(*t, hs, iz, ix)
                        &&& r@[i].position.z == spec_pos_z(*t, iz)
                        &&& r@[i].color.view_tuple() == spec_vertex_color(*t, scheme, iz, ix)
                        &&& r@[i].color.wf()
                    },
            decreases w - x,
        {
            proof {
                assert((z as int) * (w as int) + x + 1 <= (w as int) * (h as int))
                    by (nonlinear_arith)
                    requires 0 <= z < h, 0 <= x < w;
                lemma_fundamental_div_mod_converse(
                    (z as int) * (w as int) + x, w as int, z as int, x as int);
            }
            let px: i64 = (2 * (x as i64) - (w as i64 - 1)) * 500_000;
            let pz: i64 = (2 * (z as i64) - (h as i64 - 1)) * 500_000;
            let py = pos_y(t, hs, z, x);
            let sample = t.points[z][x];
            let diff: i64 = sample - min;
            proof {
                assert(t.sample(z as int, x as int) >= t.spec_min());
                assert(t.spec_min() >= -HEIGHT_LIMIT && t.spec_max() <= HEIGHT_LIMIT) by {
                    t.lemma_min_props();
                    t.lemma_max_props();
                }
            }
            let num: u64 = (diff as u64) * 1_000_000;
            let tn: i64 = (num / (range as u64)) as i64;
            proof {
                assert(num == (t.sample(z as int, x as int) - t.spec_min()) * (SCALE as int));
                assert(tn == (t.sample(z as int, x as int) - t.spec_min()) * (SCALE as int)
                    / spec_range(*t)) by {
                    vstd::arithmetic::div_mod::lemma_div_nonincreasing(
                        num as int, range as int);
                }
            }
            let color = height_to_color(tn, scheme);
            let ghost pre = r@;
            r.push(Vertex {
                position: FixedVec3 { x: px, y: py, z: pz },
                color,
                normal: FixedVec3 { x: 0, y: SCALE, z: 0 },
            });
            proof {
                assert forall|i: int| 0 <= i < r@.len() implies {
                    let iz = i / (t.width as int);
                    let ix = i % (t.width as int);
                    &&& (#[trigger] r@[i]).position.x == spec_pos_x(*t, ix)
                    &&& r@[i].position.y == spec_pos_y(*t, hs, iz, ix)
                    &&& r@[i].position.z == spec_pos_z(*t, iz)
                    &&& r@[i].color.view_tuple() == spec_vertex_color(*t, scheme, iz, ix)
                    &&& r@[i].color.wf()
                } by {
                    if i < pre.len() {
                        assert(r@[i] == pre[i]);
                    } else {
                        assert(r@[i].position.x == px);
                    }
                }
            }
            x += 1;
        }
        proof {
            assert((z as int) * (w as int) + (w as int) == ((z + 1) as int) * (w as int))
                by (nonlinear_arith);
        }
        z += 1;
    }
    proof {
        assert((h as int) * (w as int) == (w as int) * (h as int)) by (nonlinear_arith);
    }
    r
}

/// Replaces every vertex normal with the flat-shading gradient normal,
/// leaving positions and colors untouched.
#[verifier::loop_isolation(false)]
fn set_normals_flat(t: &TerrainData, hs: i64, v: &mut Vec<Vertex>)
    requires
        t.wf(),
        1 <= t.width <= MAX_DIM,
        1 <= t.points@.len() <= MAX_DIM,
        t.samples_within(HEIGHT_LIMIT as int),
        -MAX_HEIGHT_SCALE <= hs <= MAX_HEIGHT_SCALE,
        old(v)@.len() == t.width * t.height,
    ensures
        final(v)@.len() == old(v)@.len(),
        forall|i: int|
            0 <= i < final(v)@.len() ==> {
                let iz = i / (t.width as int);
                let ix = i % (t.width as int);
                &&& (#[trigger] final(v)@[i]).position == old(v)@[i].position
                &&& final(v)@[i].color == old(v)@[i].color
                &&& final(v)@[i].normal.view_tuple() == spec_flat_normal(*t, hs, iz, ix)
            },
{
    let w = t.width;
    let h = t.height;
    proof {
        assert((w as int) * (h as int) <= 100_000_000) by (nonlinear_arith)
            requires 1 <= w <= 10_000, 1 <= h <= 10_000;
    }
    let mut z: usize = 0;
    while z < h
        invariant
            0 <= z <= h,
            v@.len() == old(v)@.len() == w * h,
            forall|i: int|
                z * w <= i < v@.len() ==> #[trigger] v@[i] == old(v)@[i],
            forall|i: int|
                0 <= i < z * w ==> {
                    let iz = i / (t.width as int);
                    let ix = i % (t.width as int);
                    &&& (#[trigger] v@[i]).position == old(v)@[i].position
                    &&& v@[i].color == old(v)@[i].color
                    &&& v@[i].normal.view_tuple() == spec_flat_normal(*t, hs, iz, ix)
                },
        decreases h - z,
    {
        let mut x: usize = 0;
        while x < w
            invariant
                0 <= z < h,
                0 <= x <= w,
                v@.len() == old(v)@.len() == w * h,
                forall|i: int|
                    z * w + x <= i < v@.len() ==> #[trigger] v@[i] == old(v)@[i],
                forall|i: int|
                    0 <= i < z * w + x ==> {
                        let iz = i / (t.width as int);
                        let ix = i % (t.width as int);
                        &&& (#[trigger] v@[i]).position == old(v)@[i].position
                        &&& v@[i].color == old(v)@[i].color
                        &&& v@[i].normal.view_tuple() == spec_flat_normal(*t, hs, iz, ix)
                    },
            decreases w - x,
        {
            proof {
                assert((z as int) * (w as int) + x + 1 <= (w as int) * (h as int))
                    by (nonlinear_arith)
                    requires 0 <= z < h, 0 <= x < w;
                lemma_fundamental_div_mod_converse(
                    (z as int) * (w as int) + x, w as int, z as int, x as int);
            }
            let dx2: i64 = if w <= 1 {
                0
            } else if x == 0 {
                2 * (pos_y(t, hs, z, 1) - pos_y(t, hs, z, 0))
            } else if x == w - 1 {
                2 * (pos_y(t, hs, z, x) - pos_y(t, hs, z, x - 1))
            } else {
                pos_y(t, hs, z, x + 1) - pos_y(t, hs, z, x - 1)
            };
            let dz2: i64 = if h <= 1 {
                0
            } else if z == 0 {
                2 * (pos_y(t, hs, 1, x) - pos_y(t, hs, 0, x))
            } else if z == h - 1 {
                2 * (pos_y(t, hs, z, x) - pos_y(t, hs, z - 1, x))
            } else {
                pos_y(t, hs, z + 1, x) - pos_y(t, hs, z - 1, x)
            };
            let n = normalize_dir(FixedVec3 { x: -dx2, y: 2 * SCALE, z: -dz2 });
            let i = z * w + x;
            let ghost pre = v@;
            let mut vert = v[i];
            vert.normal = n;
            v.set(i, vert);
            proof {
                assert forall|k: int| 0 <= k < (z as int) * (w as int) + x + 1 implies {
                    let iz = k / (t.width as int);
                    let ix = k % (t.width as int);
                    &&& (#[trigger] v@[k]).position == old(v)@[k].position
                    &&& v@[k].color == old(v)@[k].color
                    &&& v@[k].normal.view_tuple() == spec_flat_normal(*t, hs, iz, ix)
                } by {
                    if k < i {
                        assert(v@[k] == pre[k]);
                    } else {
                        assert(v@[k] == vert);
                        assert(pre[k] == old(v)@[k]);
                    }
                }
            }
            x += 1;
        }
        proof {
            assert((z as int) * (w as int) + (w as int) == ((z + 1) as int) * (w as int))
                by (nonlinear_arith);
        }
        z += 1;
    }
    proof {
        assert((h as int) * (w as int) == (w as int) * (h as int)) by (nonlinear_arith);
    }
}


/// Componentwise sum of two integer triples.
pub open spec fn spec_add3(a: (int, int, int), b: (int, int, int)) -> (int, int, int) {
    (a.0 + b.0, a.1 + b.1, a.2 + b.2)
}

/// Every component of the triple stays within `b`.
pub open spec fn triple_within(v: (int, int, int), b: int) -> bool {
    &&& -b <= v.0 <= b
    &&& -b <= v.1 <= b
    &&& -b <= v.2 <= b
}

/// Direction of the face normal of the first triangle of quad
/// `(qz, qx)` — `(top_left, bottom_left, top_right)`: the cross product
/// of its edge vectors, scaled down by one exact factor of [`SCALE`].
/// Its vertical component is always [`SCALE`].
pub open spec fn spec_face1_dir(t: TerrainData, hs: i64, qz: int, qx: int) -> (int, int, int) {
    let a = spec_pos_y(t, hs, qz + 1, qx) - spec_pos_y(t, hs, qz, qx);
    let b = spec_pos_y(t, hs, qz, qx + 1) - spec_pos_y(t, hs, qz, qx);
    (-b, SCALE as int, -a)
}

/// Direction of the face normal of the second triangle of quad
/// `(qz, qx)` — `(top_right, bottom_left, bottom_right)` — like
/// [`spec_face1_dir`].
pub open spec fn spec_face2_dir(t: TerrainData, hs: i64, qz: int, qx: int) -> (int, int, int) {
    let c = spec_pos_y(t, hs, qz + 1, qx) - spec_pos_y(t, hs, qz, qx + 1);
    let d = spec_pos_y(t, hs, qz + 1, qx + 1) - spec_pos_y(t, hs, qz, qx + 1);
    (c - d, SCALE as int, -d)
}

/// Adds the two normalized face normals of quad `q` (in row-major quad
/// order) onto the accumulators of the quad's four corner vertices:
/// the first face onto top-left, bottom-left and top-right, the second
/// onto top-right, bottom-left and bottom-right.
pub open spec fn spec_apply_quad(
    t: TerrainData,
    hs: i64,
    acc: Seq<(int, int, int)>,
    q: int,
) -> Seq<(int, int, int)> {
    let w = t.width as int;
    let qz = q / (w - 1);
    let qx = q % (w - 1);
    let f1 = spec_normalize3(spec_face1_dir(t, hs, qz, qx));
    let f2 = spec_normalize3(spec_face2_dir(t, hs, qz, qx));
    let i_tl = qz * w + qx;
    let i_bl = (qz + 1) * w + qx;
    let i_tr = qz * w + qx + 1;
    let i_br = (qz + 1) * w + qx + 1;
    let a1 = acc.update(i_tl, spec_add3(acc[i_tl], f1));
    let a2 = a1.update(i_bl, spec_add3(a1[i_bl], f1));
    let a3 = a2.update(i_tr, spec_add3(a2[i_tr], f1));
    let a4 = a3.update(i_tr, spec_add3(a3[i_tr], f2));
    let a5 = a4.update(i_bl, spec_add3(a4[i_bl], f2));
    a5.update(i_br, spec_add3(a5[i_br], f2))
}

/// Per-vertex accumulated face normals after the first `k` quads, in
/// row-major quad order, starting from all zeros.
pub open spec fn spec_accum(t: TerrainData, hs: i64, k: int) -> Seq<(int, int, int)>
    decreases k,
{
    if k <= 0 {
        Seq::new((t.width * t.points@.len()) as nat, |i: int| (0, 0, 0))
    } else {
        spec_apply_quad(t, hs, spec_accum(t, hs, k - 1), k - 1)
    }
}

/// The smooth-shading normal of vertex `i`: the normalized accumulated
/// face normals of every touching quad, negated into the upward
/// hemisphere if the vertical component came out negative; a vertex no
/// quad touches gets the upward unit normal.
///
/// Forcing normals upward is a terrain-specific convention — downstream
/// shading assumes upward-facing ground — not a general-purpose lighting
/// rule; a height field cannot represent overhangs, so the two never
/// disagree here.
pub open spec fn spec_smooth_normal(t: TerrainData, hs: i64, i: int) -> (int, int, int) {
    let total = ((t.width as int) - 1) * ((t.points@.len() as int) - 1);
    let a = spec_accum(t, hs, total)[i];
    if a == (0int, 0int, 0int) {
        (0, SCALE as int, 0)
    } else {
        let n = spec_normalize3(a);
        if n.1 < 0 {
            (-n.0, -n.1, -n.2)
        } else {
            n
        }
    }
}

/// The normal of the vertex at `(z, x)` under the chosen shading mode.
pub open spec fn spec_vertex_normal(
    t: TerrainData,
    hs: i64,
    shading: ShadingMode,
    z: int,
    x: int,
) -> (int, int, int) {
    match shading {
        ShadingMode::Flat => spec_flat_normal(t, hs, z, x),
        ShadingMode::Smooth => spec_smooth_normal(t, hs, z * (t.width as int) + x),
    }
}

/// Adds a face normal onto one vertex accumulator.
fn add_face(acc: &mut Vec<FixedVec3>, i: usize, f: FixedVec3)
    requires
        i < old(acc)@.len(),
        -400_000_000_000_000 <= old(acc)@[i as int].x <= 400_000_000_000_000,
        -400_000_000_000_000 <= old(acc)@[i as int].y <= 400_000_000_000_000,
        -400_000_000_000_000 <= old(acc)@[i as int].z <= 400_000_000_000_000,
        -SCALE <= f.x <= SCALE,
        -SCALE <= f.y <= SCALE,
        -SCALE <= f.z <= SCALE,
    ensures
        final(acc)@ == old(acc)@.update(
            i as int,
            FixedVec3 {
                x: (old(acc)@[i as int].x + f.x) as i64,
                y: (old(acc)@[i as int].y + f.y) as i64,
                z: (old(acc)@[i as int].z + f.z) as i64,
            },
        ),
{
    let mut c = acc[i];
    c.x = c.x + f.x;
    c.y = c.y + f.y;
    c.z = c.z + f.z;
    acc.set(i, c);
}

/// The integer triples of a sequence of fixed-point vectors.
pub open spec fn acc_view(s: Seq<FixedVec3>) -> Seq<(int, int, int)> {
    Seq::new(s.len(), |i: int| (s[i].x as int, s[i].y as int, s[i].z as int))
}

/// The two face-normal directions of a quad stay well inside `i64`, so
/// their normalized forms stay within one unit per component.
proof fn lemma_face_bounds(t: TerrainData, hs: i64, qz: int, qx: int)
    requires
        t.wf(),
        t.samples_within(HEIGHT_LIMIT as int),
        -MAX_HEIGHT_SCALE <= hs <= MAX_HEIGHT_SCALE,
        0 <= qz < t.points@.len() - 1,
        0 <= qx < t.width - 1,
    ensures
        triple_within(spec_normalize3(spec_face1_dir(t, hs, qz, qx)), SCALE as int),
        triple_within(spec_normalize3(spec_face2_dir(t, hs, qz, qx)), SCALE as int),
        triple_within(spec_face1_dir(t, hs, qz, qx), 4_000_000_000_000_000),
        triple_within(spec_face2_dir(t, hs, qz, qx), 4_000_000_000_000_000),
{
    lemma_pos_y_bound(t, hs, qz, qx);
    lemma_pos_y_bound(t, hs, qz, qx + 1);
    lemma_pos_y_bound(t, hs, qz + 1, qx);
    lemma_pos_y_bound(t, hs, qz + 1, qx + 1);
    crate::fixed::lemma_normalize3_bounds(spec_face1_dir(t, hs, qz, qx));
    crate::fixed::lemma_normalize3_bounds(spec_face2_dir(t, hs, qz, qx));
}

/// Adds the two face normals of quad `q` at `(qz, qx)` onto the
/// accumulators of its four corner vertices, advancing the accumulation
/// model by one quad.
#[verifier::loop_isolation(false)]
#[verifier::rlimit(100)]
#[verifier::spinoff_prover]
fn apply_quad(t: &TerrainData, hs: i64, acc: &mut Vec<FixedVec3>, q: usize, qz: usize, qx: usize)
    requires
        t.wf(),
        1 <= t.width <= MAX_DIM,
        1 <= t.points@.len() <= MAX_DIM,
        t.samples_within(HEIGHT_LIMIT as int),
        -MAX_HEIGHT_SCALE <= hs <= MAX_HEIGHT_SCALE,
        qz < t.points@.len() - 1,
        qx < t.width - 1,
        q == qz * (t.width - 1) + qx,
        old(acc)@.len() == t.width * t.points@.len(),
        acc_view(old(acc)@) == spec_accum(*t, hs, q as int),
        forall|i: int|
            0 <= i < old(acc)@.len()
                ==> triple_within(#[trigger] acc_view(old(acc)@)[i], 2 * (SCALE as int) * q),
    ensures
        final(acc)@.len() == old(acc)@.len(),
        acc_view(final(acc)@) == spec_accum(*t, hs, q + 1),
        forall|i: int|
            0 <= i < final(acc)@.len()
                ==> triple_within(#[trigger] acc_view(final(acc)@)[i], 2 * (SCALE as int) * (q + 1)),
{
    let w = t.width;
    let h = t.height;
    proof {
        assert((w as int) * (h as int) <= 100_000_000) by (nonlinear_arith)
            requires 1 <= w <= 10_000, 1 <= h <= 10_000;
        assert(((qz + 1) as int) * (w as int) + qx + 1 < (w as int) * (h as int))
            by (nonlinear_arith)
            requires 0 <= qz < h - 1, 0 <= qx < w - 1;
        assert(((qz + 1) as int) * (w as int) == (qz as int) * (w as int) + w)
            by (nonlinear_arith);
        lemma_fundamental_div_mod_converse(
            (qz as int) * ((w - 1) as int) + qx, (w - 1) as int, qz as int, qx as int);
        assert(2 * (SCALE as int) * ((q + 1) as int) == 2 * (SCALE as int) * (q as int)
            + 2 * (SCALE as int)) by (nonlinear_arith);
        lemma_face_bounds(*t, hs, qz as int, qx as int);
        assert((q as int) < ((h - 1) as int) * ((w - 1) as int)) by (nonlinear_arith)
            requires q == (qz as int) * ((w - 1) as int) + qx, 0 <= qz < h - 1,
                0 <= qx < w - 1;
        assert(((h - 1) as int) * ((w - 1) as int) <= 100_000_000) by (nonlinear_arith)
            requires 1 <= w <= 10_000, 1 <= h <= 10_000;
        assert(2 * (SCALE as int) * (q as int) <= 200_000_000_000_000)
            by (nonlinear_arith)
            requires 0 <= q <= 100_000_000;
    }
    let y_tl = pos_y(t, hs, qz, qx);
    let y_tr = pos_y(t, hs, qz, qx + 1);
    let y_bl = pos_y(t, hs, qz + 1, qx);
    let y_br = pos_y(t, hs, qz + 1, qx + 1);
    let a = y_bl - y_tl;
    let b = y_tr - y_tl;
    let c = y_bl - y_tr;
    let d = y_br - y_tr;
    let f1 = normalize_dir(FixedVec3 { x: -b, y: SCALE, z: -a });
    let f2 = normalize_dir(FixedVec3 { x: c - d, y: SCALE, z: -d });
    proof {
        assert(f1.view_tuple()
            == spec_normalize3(spec_face1_dir(*t, hs, qz as int, qx as int)));
        assert(f2.view_tuple()
            == spec_normalize3(spec_face2_dir(*t, hs, qz as int, qx as int)));
    }
    let i_tl = qz * w + qx;
    let i_tr = i_tl + 1;
    let i_bl = i_tl + w;
    let i_br = i_bl + 1;
    proof {
        assert(triple_within(acc_view(acc@)[i_tl as int], 2 * (SCALE as int) * (q as int)));
        assert(triple_within(acc_view(acc@)[i_tr as int], 2 * (SCALE as int) * (q as int)));
        assert(triple_within(acc_view(acc@)[i_bl as int], 2 * (SCALE as int) * (q as int)));
        assert(triple_within(acc_view(acc@)[i_br as int], 2 * (SCALE as int) * (q as int)));
    }
    let ghost g0 = acc_view(acc@);
    let ghost f1v = f1.view_tuple();
    let ghost f2v = f2.view_tuple();
    add_face(acc, i_tl, f1);
    proof {
        assert(acc_view(acc@) =~= g0.update(i_tl as int, spec_add3(g0[i_tl as int], f1v)));
    }
    let ghost g1 = acc_view(acc@);
    add_face(acc, i_bl, f1);
    proof {
        assert(acc_view(acc@) =~= g1.update(i_bl as int, spec_add3(g1[i_bl as int], f1v)));
    }
    let ghost g2 = acc_view(acc@);
    add_face(acc, i_tr, f1);
    proof {
        assert(acc_view(acc@) =~= g2.update(i_tr as int, spec_add3(g2[i_tr as int], f1v)));
    }
    let ghost g3 = acc_view(acc@);
    add_face(acc, i_tr, f2);
    proof {
        assert(acc_view(acc@) =~= g3.update(i_tr as int, spec_add3(g3[i_tr as int], f2v)));
    }
    let ghost g4 = acc_view(acc@);
    add_face(acc, i_bl, f2);
    proof {
        assert(acc_view(acc@) =~= g4.update(i_bl as int, spec_add3(g4[i_bl as int], f2v)));
    }
    let ghost g5 = acc_view(acc@);
    add_face(acc, i_br, f2);
    proof {
        assert(acc_view(acc@) =~= g5.update(i_br as int, spec_add3(g5[i_br as int], f2v)));
        assert(acc_view(acc@) == spec_apply_quad(*t, hs, g0, q as int));
        assert(spec_accum(*t, hs, q + 1) == spec_apply_quad(
            *t, hs, spec_accum(*t, hs, q as int), q as int));
        assert forall|i: int|
            0 <= i < acc@.len()
                implies triple_within(
                #[trigger] acc_view(acc@)[i],
                2 * (SCALE as int) * ((q + 1) as int),
            ) by {
            assert(triple_within(g0[i], 2 * (SCALE as int) * (q as int)));
        }
    }
}

/// Replaces every vertex normal with the smooth-shading accumulated
/// normal, leaving positions and colors untouched.
#[verifier::loop_isolation(false)]
#[verifier::rlimit(80)]
fn set_normals_smooth(t: &TerrainData, hs: i64, v: &mut Vec<Vertex>)
    requires
        t.wf(),
        1 <= t.width <= MAX_DIM,
        1 <= t.points@.len() <= MAX_DIM,
        t.samples_within(HEIGHT_LIMIT as int),
        -MAX_HEIGHT_SCALE <= hs <= MAX_HEIGHT_SCALE,
        old(v)@.len() == t.width * t.height,
    ensures
        final(v)@.len() == old(v)@.len(),
        forall|i: int|
            0 <= i < final(v)@.len() ==> {
                &&& (#[trigger] final(v)@[i]).position == old(v)@[i].position
                &&& final(v)@[i].color == old(v)@[i].color
                &&& final(v)@[i].normal.view_tuple() == spec_smooth_normal(*t, hs, i)
            },
{
    let w = t.width;
    let h = t.height;
    proof {
        assert((w as int) * (h as int) <= 100_000_000) by (nonlinear_arith)
            requires 1 <= w <= 10_000, 1 <= h <= 10_000;
    }
    let n_verts = w * h;
    let mut acc: Vec<FixedVec3> = Vec::new();
    let mut fill: usize = 0;
    while fill < n_verts
        invariant
            0 <= fill <= n_verts,
            acc@.len() == fill,
            forall|i: int| 0 <= i < fill ==> #[trigger] acc@[i] == (FixedVec3 { x: 0i64, y: 0i64, z: 0i64 }),
        decreases n_verts - fill,
    {
        acc.push(FixedVec3 { x: 0, y: 0, z: 0 });
        fill += 1;
    }
    proof {
        assert(acc_view(acc@) =~= spec_accum(*t, hs, 0));
    }

    let mut q: usize = 0;
    let mut qz: usize = 0;
    while qz + 1 < h
        invariant
            0 <= qz <= h - 1,
            q == qz * (w - 1),
            acc@.len() == w * h,
            acc_view(acc@) == spec_accum(*t, hs, q as int),
            forall|i: int|
                0 <= i < acc@.len()
                    ==> triple_within(#[trigger] acc_view(acc@)[i], 2 * (SCALE as int) * q),
        decreases h - qz,
    {
        let mut qx: usize = 0;
        while qx + 1 < w
            invariant
                0 <= qz < h - 1,
                0 <= qx <= w - 1,
                q == qz * (w - 1) + qx,
                acc@.len() == w * h,
                acc_view(acc@) == spec_accum(*t, hs, q as int),
                forall|i: int|
                    0 <= i < acc@.len()
                        ==> triple_within(#[trigger] acc_view(acc@)[i], 2 * (SCALE as int) * q),
            decreases w - qx,
        {
            apply_quad(t, hs, &mut acc, q, qz, qx);
            proof {
                assert((q as int) < 100_000_000) by (nonlinear_arith)
                    requires
                        q == (qz as int) * ((w - 1) as int) + qx,
                        0 <= qz < h - 1,
                        0 <= qx < w - 1,
                        1 <= w <= 10_000,
                        1 <= h <= 10_000;
            }
            q += 1;
            qx += 1;
        }
        proof {
            assert((qz as int) * ((w - 1) as int) + ((w - 1) as int)
                == ((qz + 1) as int) * ((w - 1) as int)) by (nonlinear_arith);
        }
        qz += 1;
    }
    proof {
        assert(((h - 1) as int) * ((w - 1) as int) == ((w as int) - 1) * ((h as int) - 1))
            by (nonlinear_arith);
        if w == 1 {
            assert(q == 0);
            assert(((w as int) - 1) * ((h as int) - 1) == 0) by (nonlinear_arith)
                requires w == 1;
        }
        assert((q as int) == ((h - 1) as int) * ((w - 1) as int));
        assert(((h - 1) as int) * ((w - 1) as int) <= 100_000_000) by (nonlinear_arith)
            requires 1 <= w <= 10_000, 1 <= h <= 10_000;
        assert(2 * (SCALE as int) * (q as int) <= 400_000_000_000_000) by (nonlinear_arith)
            requires 0 <= q <= 100_000_000;
        assert forall|k: int| 0 <= k < acc@.len() implies triple_within(
            #[trigger] acc_view(acc@)[k], 400_000_000_000_000) by {
            assert(triple_within(acc_view(acc@)[k], 2 * (SCALE as int) * (q as int)));
        }
    }

    // Finalize: normalize each accumulator, flip into the upper
    // hemisphere, fall back to the upward unit normal where no face
    // contributed.
    let mut i: usize = 0;
    while i < n_verts
        invariant
            0 <= i <= n_verts == w * h,
            v@.len() == old(v)@.len() == w * h,
            acc@.len() == w * h,
            acc_view(acc@) == spec_accum(
                *t, hs, ((t.width as int) - 1) * ((t.points@.len() as int) - 1)),
            forall|k: int|
                0 <= k < acc@.len()
                    ==> triple_within(#[trigger] acc_view(acc@)[k], 400_000_000_000_000),
            forall|k: int| i <= k < v@.len() ==> #[trigger] v@[k] == old(v)@[k],
            forall|k: int|
                0 <= k < i ==> {
                    &&& (#[trigger] v@[k]).position == old(v)@[k].position
                    &&& v@[k].color == old(v)@[k].color
                    &&& v@[k].normal.view_tuple() == spec_smooth_normal(*t, hs, k)
                },
        decreases n_verts - i,
    {
        let a = acc[i];
        proof {
            assert(triple_within(acc_view(acc@)[i as int], 400_000_000_000_000));
        }
        let n: FixedVec3 = if a.x == 0 && a.y == 0 && a.z == 0 {
            FixedVec3 { x: 0, y: SCALE, z: 0 }
        } else {
            let n0 = normalize_dir(a);
            if n0.y < 0 {
                FixedVec3 { x: -n0.x, y: -n0.y, z: -n0.z }
            } else {
                n0
            }
        };
        let mut vert = v[i];
        vert.normal = n;
        let ghost pre = v@;
        v.set(i, vert);
        proof {
            assert(acc_view(acc@)[i as int] == (a.x as int, a.y as int, a.z as int));
            assert forall|k: int| 0 <= k < i + 1 implies {
                &&& (#[trigger] v@[k]).position == old(v)@[k].position
                &&& v@[k].color == old(v)@[k].color
                &&& v@[k].normal.view_tuple() == spec_smooth_normal(*t, hs, k)
            } by {
                if k < i {
                    assert(v@[k] == pre[k]);
                } else {
                    assert(v@[k] == vert);
                    assert(pre[k] == old(v)@[k]);
                }
            }
        }
        i += 1;
    }
}


impl TerrainMesh {
    /// Generates the mesh of a height field: one vertex per sample with
    /// centered position, normalized-height color and shaded normal;
    /// wireframe edge pairs along rows then columns; and two triangles
    /// per quad in a fixed winding. A grid without samples gives an
    /// empty mesh, not an error.
    #[verifier::loop_isolation(false)]
    pub fn from_terrain(
        terrain: &TerrainData,
        height_scale: i64,
        shading: ShadingMode,
        scheme: ColorScheme,
    ) -> (m: TerrainMesh)
        requires
            terrain.wf(),
            terrain.width <= MAX_DIM,
            terrain.points@.len() <= MAX_DIM,
            terrain.samples_within(HEIGHT_LIMIT as int),
            -MAX_HEIGHT_SCALE <= height_scale <= MAX_HEIGHT_SCALE,
            scheme.wf(),
        ensures
            m.wf(),
            terrain.width == 0 || terrain.height == 0 ==> {
                &&& m.vertices@.len() == 0
                &&& m.wireframe_indices@.len() == 0
                &&& m.triangle_indices@.len() == 0
            },
            terrain.width > 0 && terrain.height > 0 ==> {
                let w = terrain.width as int;
                let h = terrain.height as int;
                &&& m.vertices@.len() == w * h
                &&& m.wireframe_indices@.len() == 2 * (h * (w - 1) + w * (h - 1))
                &&& m.triangle_indices@.len() == 6 * ((w - 1) * (h - 1))
                &&& forall|i: int|
                    0 <= i < m.vertices@.len() ==> {
                        let z = i / w;
                        let x = i % w;
                        &&& (#[trigger] m.vertices@[i]).position.x == spec_pos_x(*terrain, x)
                        &&& m.vertices@[i].position.y == spec_pos_y(
                            *terrain, height_scale, z, x)
                        &&& m.vertices@[i].position.z == spec_pos_z(*terrain, z)
                        &&& m.vertices@[i].color.view_tuple() == spec_vertex_color(
                            *terrain, scheme, z, x)
                        &&& m.vertices@[i].normal.view_tuple() == spec_vertex_normal(
                            *terrain, height_scale, shading, z, x)
                    }
                &&& forall|e: int|
                    0 <= e < h * (w - 1) ==> {
                        let z = e / (w - 1);
                        let x = e % (w - 1);
                        #[trigger] m.wireframe_indices@[2 * e] == z * w + x
                            && m.wireframe_indices@[2 * e + 1] == z * w + x + 1
                    }
                &&& forall|e: int|
                    0 <= e < w * (h - 1) ==> {
                        let z = e / w;
                        let x = e % w;
                        #[trigger] m.wireframe_indices@[2 * (h * (w - 1)) + 2 * e] == z * w + x
                            && m.wireframe_indices@[2 * (h * (w - 1)) + 2 * e + 1]
                                == (z + 1) * w + x
                    }
                &&& forall|q: int|
                    0 <= q < (w - 1) * (h - 1) ==> {
                        let qz = q / (w - 1);
                        let qx = q % (w - 1);
                        &&& #[trigger] m.triangle_indices@[6 * q] == qz * w + qx
                        &&& m.triangle_indices@[6 * q + 1] == (qz + 1) * w + qx
                        &&& m.triangle_indices@[6 * q + 2] == qz * w + qx + 1
                        &&& m.triangle_indices@[6 * q + 3] == qz * w + qx + 1
                        &&& m.triangle_indices@[6 * q + 4] == (qz + 1) * w + qx
                        &&& m.triangle_indices@[6 * q + 5] == (qz + 1) * w + qx + 1
                    }
                &&& forall|k: int|
                    0 <= k < m.wireframe_indices@.len()
                        ==> #[trigger] m.wireframe_indices@[k] < m.vertices@.len()
                &&& forall|k: int|
                    0 <= k < m.triangle_indices@.len()
                        ==> #[trigger] m.triangle_indices@[k] < m.vertices@.len()
            },
    {
        if terrain.width == 0 || terrain.height == 0 {
            return TerrainMesh {
                vertices: Vec::new(),
                wireframe_indices: Vec::new(),
                triangle_indices: Vec::new(),
            };
        }
        let mut vertices = build_vertices(terrain, height_scale, scheme);
        match shading {
            ShadingMode::Flat => set_normals_flat(terrain, height_scale, &mut vertices),
            ShadingMode::Smooth => set_normals_smooth(terrain, height_scale, &mut vertices),
        }
        let wireframe_indices = build_wireframe(terrain.width, terrain.height);
        let triangle_indices = build_triangles(terrain.width, terrain.height);
        proof {
            let w = terrain.width as int;
            assert forall|i: int| 0 <= i < vertices@.len() implies {
                let z = i / w;
                let x = i % w;
                (#[trigger] vertices@[i]).normal.view_tuple() == spec_vertex_normal(
                    *terrain, height_scale, shading, z, x)
            } by {
                vstd::arithmetic::div_mod::lemma_fundamental_div_mod(i, w);
                assert((i / w) * w + i % w == i) by (nonlinear_arith)
                    requires w * (i / w) + i % w == i;
            }
        }
        TerrainMesh { vertices, wireframe_indices, triangle_indices }
    }
}

} // verus!
