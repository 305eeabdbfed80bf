//! Orbital camera: spherical coordinates around a look-at target,
//! producing view and projection matrices.
//!
//! Angles are fixed-point micro-degrees and lengths micro-units. The
//! camera itself holds no trigonometry: the sines and cosines of its
//! angles, and the tangent of the half field of view, enter as
//! fixed-point arguments ([`AngleTrig`]), so every transform here is an
//! exact integer computation with an exact contract.
//!
//! Matrices are row-major, sixteen fixed-point entries, following the
//! right-handed, zero-to-one-depth convention of modern GPU pipelines.

use vstd::prelude::*;
use crate::fixed::{FixedVec3, SCALE, div_trunc, div_trunc_i128, lemma_div_trunc_bound,
    scale_mul, spec_abs, spec_normalize3, normalize_dir};

verus! {

/// How the camera projects the scene.
#[derive(Clone, Copy, Debug, PartialEq, Eq, Structural, Default)]
pub enum ProjectionMode {
    /// Perspective projection from the field of view.
    #[default]
    Perspective,
    /// Orthographic projection sized from the orbit distance.
    Orthographic,
}

/// The sines and cosines of the camera angles, in fixed point, as the
/// caller computed them. The camera's contracts state exactly what is
/// produced for whatever values arrive here.
#[derive(Clone, Copy, Debug, PartialEq, Eq, Structural)]
pub struct AngleTrig {
    pub sin_azimuth: i64,
    pub cos_azimuth: i64,
    pub sin_elevation: i64,
    pub cos_elevation: i64,
}

impl AngleTrig {
    /// Sines and cosines lie within one unit.
    pub open spec fn wf(self) -> bool {
        &&& -SCALE <= self.sin_azimuth <= SCALE
        &&& -SCALE <= self.cos_azimuth <= SCALE
        &&& -SCALE <= self.sin_elevation <= SCALE
        &&& -SCALE <= self.cos_elevation <= SCALE
    }
}

/// Orbital camera state. Azimuth `0` looks along `+Z`; elevation is the
/// angle out of the horizontal plane. External input handling mutates
/// these fields directly and is responsible for keeping them clamped.
#[derive(Clone, Copy, Debug, PartialEq, Eq, Structural)]
pub struct Camera {
    /// Distance from the target, in micro-units.
    pub distance: i64,
    /// Horizontal rotation in micro-degrees.
    pub azimuth: i64,
    /// Vertical rotation in micro-degrees.
    pub elevation: i64,
    /// The point the camera orbits.
    pub target: FixedVec3,
    /// Vertical field of view in micro-degrees.
    pub fov: i64,
    /// Near clipping plane distance, in micro-units.
    pub near: i64,
    /// Far clipping plane distance, in micro-units.
    pub far: i64,
    /// Which projection the camera produces.
    pub projection_mode: ProjectionMode,
}

impl Camera {
    /// Operating envelope: the orbit at least one unit away and no
    /// further than a million; the near plane in front of the camera, at
    /// most half the far plane and at least one unit before it; the
    /// target within a million units — bounds under which every matrix
    /// entry below stays inside `i64`.
    pub open spec fn wf(self) -> bool {
        &&& SCALE <= self.distance <= 1_000_000_000_000
        &&& 0 < self.near
        &&& 2 * self.near <= self.far
        &&& self.near + SCALE <= self.far <= 1_000_000_000_000
        &&& -1_000_000_000_000 <= self.target.x <= 1_000_000_000_000
        &&& -1_000_000_000_000 <= self.target.y <= 1_000_000_000_000
        &&& -1_000_000_000_000 <= self.target.z <= 1_000_000_000_000
        &&& 0 < self.fov < 180_000_000
    }

    /// A camera looking at the origin from 50 units away, at 45 degrees
    /// azimuth and 30 degrees elevation, with a 60 degree field of view.
    pub fn new() -> (c: Camera)
        ensures
            c.distance == 50 * SCALE,
            c.azimuth == 45 * SCALE,
            c.elevation == 30 * SCALE,
            c.target == FixedVec3::spec_zero(),
            c.fov == 60 * SCALE,
            c.near == SCALE / 10,
            c.far == 1000 * SCALE,
            c.projection_mode == ProjectionMode::Perspective,
            c.wf(),
    {
        Camera {
            distance: 50_000_000,
            azimuth: 45_000_000,
            elevation: 30_000_000,
            target: FixedVec3::zero(),
            fov: 60_000_000,
            near: 100_000,
            far: 1_000_000_000,
            projection_mode: ProjectionMode::Perspective,
        }
    }

    /// The world-space eye position determined by the orbit state:
    /// `target + distance * (cos_el*sin_az, sin_el, cos_el*cos_az)`,
    /// with each fixed-point product rounded toward zero.
    pub open spec fn spec_eye_position(self, trig: AngleTrig) -> (int, int, int) {
        let hx = div_trunc(trig.cos_elevation * trig.sin_azimuth, SCALE as int);
        let hz = div_trunc(trig.cos_elevation * trig.cos_azimuth, SCALE as int);
        (
            self.target.x + div_trunc(self.distance * hx, SCALE as int),
            self.target.y + div_trunc(self.distance * trig.sin_elevation, SCALE as int),
            self.target.z + div_trunc(self.distance * hz, SCALE as int),
        )
    }

    /// Computes the eye position from the orbit state and the supplied
    /// sines and cosines.
    pub fn position(&self, trig: &AngleTrig) -> (r: FixedVec3)
        requires
            self.wf(),
            trig.wf(),
        ensures
            r.view_tuple() == self.spec_eye_position(*trig),
            -2_100_000_000_000 <= r.x <= 2_100_000_000_000,
            -2_100_000_000_000 <= r.y <= 2_100_000_000_000,
            -2_100_000_000_000 <= r.z <= 2_100_000_000_000,
    {
        proof {
            lemma_trig_product_bounds(*self, *trig);
        }
        let hx = scale_mul(trig.cos_elevation, trig.sin_azimuth);
        let hz = scale_mul(trig.cos_elevation, trig.cos_azimuth);
        let dx = scale_mul(self.distance, hx);
        let dy = scale_mul(self.distance, trig.sin_elevation);
        let dz = scale_mul(self.distance, hz);
        FixedVec3 { x: self.target.x + dx, y: self.target.y + dy, z: self.target.z + dz }
    }

    /// Switches to the isometric preset: orthographic projection, 45
    /// degrees azimuth, and the classic isometric elevation
    /// `atan(1/sqrt(2))`, about 35.264 degrees, here in micro-degrees.
    /// Everything else is left as it was.
    pub fn set_isometric(&mut self)
        ensures
            final(self).projection_mode == ProjectionMode::Orthographic,
            final(self).azimuth == 45_000_000,
            final(self).elevation == 35_264_390,
            final(self).distance == old(self).distance,
            final(self).target == old(self).target,
            final(self).fov == old(self).fov,
            final(self).near == old(self).near,
            final(self).far == old(self).far,
    {
        self.projection_mode = ProjectionMode::Orthographic;
        self.azimuth = 45_000_000;
        self.elevation = 35_264_390;
    }
}

/// The scaled trigonometric products of the orbit stay within the orbit
/// distance, so the eye keeps within about twice the operating range.
proof fn lemma_trig_product_bounds(cam: Camera, trig: AngleTrig)
    requires
        cam.wf(),
        trig.wf(),
    ensures
        spec_abs(div_trunc(trig.cos_elevation * trig.sin_azimuth, SCALE as int)) <= SCALE as int,
        spec_abs(div_trunc(trig.cos_elevation * trig.cos_azimuth, SCALE as int)) <= SCALE as int,
        spec_abs(div_trunc(
            cam.distance * div_trunc(trig.cos_elevation * trig.sin_azimuth, SCALE as int),
            SCALE as int,
        )) <= 1_000_000_000_000,
        spec_abs(div_trunc(cam.distance * trig.sin_elevation, SCALE as int))
            <= 1_000_000_000_000,
        spec_abs(div_trunc(
            cam.distance * div_trunc(trig.cos_elevation * trig.cos_azimuth, SCALE as int),
            SCALE as int,
        )) <= 1_000_000_000_000,
{
    let s = SCALE as int;
    assert(spec_abs(trig.cos_elevation * trig.sin_azimuth) <= s * s) by (nonlinear_arith)
        requires
            -s <= trig.cos_elevation <= s,
            -s <= trig.sin_azimuth <= s;
    lemma_div_trunc_bound(trig.cos_elevation * trig.sin_azimuth, s, s);
    assert(spec_abs(trig.cos_elevation * trig.cos_azimuth) <= s * s) by (nonlinear_arith)
        requires
            -s <= trig.cos_elevation <= s,
            -s <= trig.cos_azimuth <= s;
    lemma_div_trunc_bound(trig.cos_elevation * trig.cos_azimuth, s, s);
    let hx = div_trunc(trig.cos_elevation * trig.sin_azimuth, s);
    let hz = div_trunc(trig.cos_elevation * trig.cos_azimuth, s);
    assert(spec_abs(cam.distance * hx) <= 1_000_000_000_000 * s) by (nonlinear_arith)
        requires
            spec_abs(hx) <= s,
            SCALE <= cam.distance <= 1_000_000_000_000;
    lemma_div_trunc_bound(cam.distance * hx, s, 1_000_000_000_000);
    assert(spec_abs(cam.distance * trig.sin_elevation) <= 1_000_000_000_000 * s)
        by (nonlinear_arith)
        requires
            -s <= trig.sin_elevation <= s,
            SCALE <= cam.distance <= 1_000_000_000_000;
    lemma_div_trunc_bound(cam.distance * trig.sin_elevation, s, 1_000_000_000_000);
    assert(spec_abs(cam.distance * hz) <= 1_000_000_000_000 * s) by (nonlinear_arith)
        requires
            spec_abs(hz) <= s,
            SCALE <= cam.distance <= 1_000_000_000_000;
    lemma_div_trunc_bound(cam.distance * hz, s, 1_000_000_000_000);
}


/// A row-major 4-by-4 fixed-point matrix: entry `(row, col)` sits at
/// `m[4 * row + col]`.
pub struct Mat4F {
    pub m: Vec<i64>,
}

impl Mat4F {
    /// Sixteen entries.
    pub open spec fn wf(self) -> bool {
        self.m@.len() == 16
    }
}

/// The entries as unbounded integers.
pub open spec fn ints(s: Seq<i64>) -> Seq<int> {
    s.map_values(|x: i64| x as int)
}

/// Scaled dot product of two fixed-point vectors.
pub open spec fn spec_dot3_scaled(a: (int, int, int), b: (int, int, int)) -> int {
    div_trunc(a.0 * b.0 + a.1 * b.1 + a.2 * b.2, SCALE as int)
}

/// Scaled cross product of two fixed-point vectors.
pub open spec fn spec_cross3_scaled(a: (int, int, int), b: (int, int, int)) -> (int, int, int) {
    (
        div_trunc(a.1 * b.2 - a.2 * b.1, SCALE as int),
        div_trunc(a.2 * b.0 - a.0 * b.2, SCALE as int),
        div_trunc(a.0 * b.1 - a.1 * b.0, SCALE as int),
    )
}

/// One entry of a fixed-point matrix product: the row-by-column dot,
/// brought back down by one factor of [`SCALE`].
pub open spec fn spec_mat_entry(a: Seq<int>, b: Seq<int>, i: int, j: int) -> int {
    div_trunc(
        a[4 * i] * b[j] + a[4 * i + 1] * b[4 + j] + a[4 * i + 2] * b[8 + j] + a[4 * i + 3] * b[12
            + j],
        SCALE as int,
    )
}

impl Camera {
    /// The right-handed look-at view matrix of the camera: rows are the
    /// side, up and negated forward axes with their eye translations,
    /// exactly as a right-handed Y-up look-at builds them, in fixed
    /// point. A degenerate forward direction falls back to `-Z`, a
    /// degenerate side direction (looking straight up or down) to `+X`.
    pub open spec fn spec_view_matrix(self, trig: AngleTrig) -> Seq<int> {
        let eye = self.spec_eye_position(trig);
        let v = (self.target.x - eye.0, self.target.y - eye.1, self.target.z - eye.2);
        let f = if v == (0int, 0int, 0int) {
            (0int, 0int, -(SCALE as int))
        } else {
            spec_normalize3(v)
        };
        let sd = (-f.2, 0int, f.0);
        let s = if sd == (0int, 0int, 0int) {
            (SCALE as int, 0int, 0int)
        } else {
            spec_normalize3(sd)
        };
        let u = spec_cross3_scaled(s, f);
        seq![
            s.0, s.1, s.2, -spec_dot3_scaled(eye, s),
            u.0, u.1, u.2, -spec_dot3_scaled(eye, u),
            -f.0, -f.1, -f.2, spec_dot3_scaled(eye, f),
            0, 0, 0, SCALE as int,
        ]
    }

    /// The projection matrix of the camera under its current mode, for
    /// the given viewport aspect ratio and tangent of half the vertical
    /// field of view (both fixed point): the right-handed,
    /// zero-to-one-depth forms. Orthographic sizing comes from the
    /// orbit distance: the half-height is half the distance.
    pub open spec fn spec_projection_matrix(self, aspect: i64, tan_half_fov: i64) -> Seq<int> {
        match self.projection_mode {
            ProjectionMode::Perspective => {
                let hh = div_trunc((SCALE as int) * (SCALE as int), tan_half_fov as int);
                let xx = div_trunc(hh * (SCALE as int), aspect as int);
                let zz = -div_trunc(self.far * (SCALE as int), self.far - self.near);
                let tz = -div_trunc(self.far * self.near, self.far - self.near);
                seq![
                    xx, 0, 0, 0,
                    0, hh, 0, 0,
                    0, 0, zz, tz,
                    0, 0, -(SCALE as int), 0,
                ]
            },
            ProjectionMode::Orthographic => {
                let hh2 = div_trunc(self.distance as int, 2);
                let hw = div_trunc(hh2 * (aspect as int), SCALE as int);
                let xx = div_trunc((SCALE as int) * (SCALE as int), hw);
                let yy = div_trunc((SCALE as int) * (SCALE as int), hh2);
                let zz = -div_trunc((SCALE as int) * (SCALE as int), self.far - self.near);
                let tz = -div_trunc(self.near * (SCALE as int), self.far - self.near);
                seq![
                    xx, 0, 0, 0,
                    0, yy, 0, 0,
                    0, 0, zz, tz,
                    0, 0, 0, SCALE as int,
                ]
            },
        }
    }

    /// The combined transform: projection times view, entry by entry in
    /// fixed-point arithmetic.
    pub open spec fn spec_view_projection_matrix(
        self,
        trig: AngleTrig,
        aspect: i64,
        tan_half_fov: i64,
    ) -> Seq<int> {
        let p = self.spec_projection_matrix(aspect, tan_half_fov);
        let v = self.spec_view_matrix(trig);
        Seq::new(16, |k: int| spec_mat_entry(p, v, k / 4, k % 4))
    }

    /// Builds the view matrix (world to camera) from the orbit state and
    /// the supplied sines and cosines.
    pub fn build_view_matrix(&self, trig: &AngleTrig) -> (m: Mat4F)
        requires
            self.wf(),
            trig.wf(),
        ensures
            m.wf(),
            forall|k: int| 0 <= k < 16 ==> ints(m.m@)[k] == self.spec_view_matrix(*trig)[k],
            forall|k: int|
                0 <= k < 16 ==> -20_000_000_000_000 <= #[trigger] m.m@[k] <= 20_000_000_000_000,
    {
        let eye = self.position(trig);
        let vx = self.target.x - eye.x;
        let vy = self.target.y - eye.y;
        let vz = self.target.z - eye.z;
        let f: FixedVec3 = if vx == 0 && vy == 0 && vz == 0 {
            FixedVec3 { x: 0, y: 0, z: -SCALE }
        } else {
            normalize_dir(FixedVec3 { x: vx, y: vy, z: vz })
        };
        let s: FixedVec3 = if f.z == 0 && f.x == 0 {
            FixedVec3 { x: SCALE, y: 0, z: 0 }
        } else {
            normalize_dir(FixedVec3 { x: -f.z, y: 0, z: f.x })
        };
        let u = cross3_scaled(s, f);
        let ds = dot3_scaled(eye, s);
        let du = dot3_scaled(eye, u);
        let df = dot3_scaled(eye, f);
        let mut m: Vec<i64> = Vec::new();
        m.push(s.x);
        m.push(s.y);
        m.push(s.z);
        m.push(-ds);
        m.push(u.x);
        m.push(u.y);
        m.push(u.z);
        m.push(-du);
        m.push(-f.x);
        m.push(-f.y);
        m.push(-f.z);
        m.push(df);
        m.push(0);
        m.push(0);
        m.push(0);
        m.push(SCALE);
        let r = Mat4F { m };
        proof {
            assert forall|k: int| 0 <= k < 16 implies ints(r.m@)[k]
                == self.spec_view_matrix(*trig)[k] by {
                assert(ints(r.m@)[k] == r.m@[k]);
            }
        }
        r
    }

    /// Builds the projection matrix for the given aspect ratio and
    /// tangent of half the field of view (used only in perspective
    /// mode), both fixed point.
    pub fn build_projection_matrix(&self, aspect: i64, tan_half_fov: i64) -> (m: Mat4F)
        requires
            self.wf(),
            10_000 <= aspect <= 100_000_000,
            1_000 <= tan_half_fov <= 1_000_000_000_000,
        ensures
            m.wf(),
            forall|k: int|
                0 <= k < 16 ==> ints(m.m@)[k] == self.spec_projection_matrix(
                    aspect, tan_half_fov)[k],
            forall|k: int|
                0 <= k < 16 ==> -2_000_000_000_000 <= #[trigger] m.m@[k] <= 2_000_000_000_000,
            -100_000_000_000 <= m.m@[0] <= 100_000_000_000,
            -1_000_000_000 <= m.m@[5] <= 1_000_000_000,
            -2_000_000 <= m.m@[10] <= 2_000_000,
            m.m@[1] == 0 && m.m@[2] == 0 && m.m@[3] == 0 && m.m@[4] == 0,
            m.m@[6] == 0 && m.m@[7] == 0 && m.m@[8] == 0 && m.m@[9] == 0,
            m.m@[12] == 0 && m.m@[13] == 0,
            -SCALE <= m.m@[14] <= 0,
            0 <= m.m@[15] <= SCALE,
    {
        let mut m: Vec<i64> = Vec::new();
        match self.projection_mode {
            ProjectionMode::Perspective => {
                proof {
                    lemma_div_trunc_bound(
                        (SCALE as int) * (SCALE as int), tan_half_fov as int, 1_000_000_000);
                }
                let hh = crate::fixed::fixed_div(SCALE, tan_half_fov);
                proof {
                    assert(spec_abs(hh * (SCALE as int)) <= 100_000_000_000 * (aspect as int))
                        by (nonlinear_arith)
                        requires spec_abs(hh as int) <= 1_000_000_000, 10_000 <= aspect;
                    lemma_div_trunc_bound(hh * (SCALE as int), aspect as int, 100_000_000_000);
                }
                let xx = crate::fixed::fixed_div(hh, aspect);
                proof {
                    assert(spec_abs(self.far * (SCALE as int))
                        <= 2 * (SCALE as int) * (self.far - self.near)) by (nonlinear_arith)
                        requires
                            0 < self.near,
                            2 * self.near <= self.far;
                    lemma_div_trunc_bound(
                        self.far * (SCALE as int), self.far - self.near, 2 * SCALE as int);
                }
                let zz = -crate::fixed::fixed_div(self.far, self.far - self.near);
                proof {
                    assert(spec_abs(self.far * self.near)
                        <= (2 * self.near) * (self.far - self.near)) by (nonlinear_arith)
                        requires
                            0 < self.near,
                            2 * self.near <= self.far;
                    lemma_div_trunc_bound(
                        self.far * self.near, self.far - self.near, 2 * self.near);
                    assert(spec_abs(self.far * self.near)
                        <= 1_000_000_000_000_000_000_000_000) by (nonlinear_arith)
                        requires
                            0 < self.near <= 1_000_000_000_000,
                            0 < self.far <= 1_000_000_000_000;
                }
                let tzq = div_trunc_i128(
                    (self.far as i128) * (self.near as i128),
                    (self.far - self.near) as u64,
                );
                let tz = -(tzq as i64);
                m.push(xx);
                m.push(0);
                m.push(0);
                m.push(0);
                m.push(0);
                m.push(hh);
                m.push(0);
                m.push(0);
                m.push(0);
                m.push(0);
                m.push(zz);
                m.push(tz);
                m.push(0);
                m.push(0);
                m.push(-SCALE);
                m.push(0);
            },
            ProjectionMode::Orthographic => {
                let hh2 = ((self.distance as u64) / 2) as i64;
                proof {
                    assert(hh2 == div_trunc(self.distance as int, 2));
                    assert(hh2 >= 500_000);
                    assert(spec_abs(hh2 * (aspect as int))
                        <= 50_000_000_000_000 * (SCALE as int)) by (nonlinear_arith)
                        requires 0 <= hh2 <= 500_000_000_000, 0 < aspect <= 100_000_000;
                    lemma_div_trunc_bound(
                        hh2 * (aspect as int), SCALE as int, 50_000_000_000_000);
                    assert(hh2 * (aspect as int) >= 5_000_000_000) by (nonlinear_arith)
                        requires hh2 >= 500_000, aspect >= 10_000;
                    assert(div_trunc(hh2 * (aspect as int), SCALE as int) >= 5_000) by {
                        vstd::arithmetic::div_mod::lemma_div_is_ordered(
                            5_000_000_000, hh2 * (aspect as int), SCALE as int);
                    }
                }
                let hw = scale_mul(hh2, aspect);
                proof {
                    assert((SCALE as int) * (SCALE as int) <= 200_000_000 * (hw as int))
                        by (nonlinear_arith)
                        requires hw >= 5_000;
                    lemma_div_trunc_bound((SCALE as int) * (SCALE as int), hw as int, 200_000_000);
                    assert((SCALE as int) * (SCALE as int) <= 2_000_000 * (hh2 as int))
                        by (nonlinear_arith)
                        requires hh2 >= 500_000;
                    lemma_div_trunc_bound((SCALE as int) * (SCALE as int), hh2 as int, 2_000_000);
                    lemma_div_trunc_bound(
                        (SCALE as int) * (SCALE as int), self.far - self.near, SCALE as int);
                    assert(self.near * (SCALE as int) <= (SCALE as int) * (self.far - self.near))
                        by (nonlinear_arith)
                        requires self.near <= self.far - self.near;
                    lemma_div_trunc_bound(
                        self.near * (SCALE as int), self.far - self.near, SCALE as int);
                }
                let xx = crate::fixed::fixed_div(SCALE, hw);
                let yy = crate::fixed::fixed_div(SCALE, hh2);
                let zz = -crate::fixed::fixed_div(SCALE, self.far - self.near);
                let tz = -crate::fixed::fixed_div(self.near, self.far - self.near);
                m.push(xx);
                m.push(0);
                m.push(0);
                m.push(0);
                m.push(0);
                m.push(yy);
                m.push(0);
                m.push(0);
                m.push(0);
                m.push(0);
                m.push(zz);
                m.push(tz);
                m.push(0);
                m.push(0);
                m.push(0);
                m.push(SCALE);
            },
        }
        let r = Mat4F { m };
        proof {
            assert forall|k: int| 0 <= k < 16 implies ints(r.m@)[k]
                == self.spec_projection_matrix(aspect, tan_half_fov)[k] by {
                assert(ints(r.m@)[k] == r.m@[k]);
            }
        }
        r
    }

    /// Builds the combined view-projection transform, the matrix handed
    /// to a renderer.
    pub fn build_view_projection_matrix(
        &self,
        trig: &AngleTrig,
        aspect: i64,
        tan_half_fov: i64,
    ) -> (m: Mat4F)
        requires
            self.wf(),
            trig.wf(),
            10_000 <= aspect <= 100_000_000,
            1_000 <= tan_half_fov <= 1_000_000_000_000,
        ensures
            m.wf(),
            forall|k: int|
                0 <= k < 16 ==> ints(m.m@)[k] == self.spec_view_projection_matrix(
                    *trig, aspect, tan_half_fov)[k],
    {
        let v = self.build_view_matrix(trig);
        let p = self.build_projection_matrix(aspect, tan_half_fov);
        proof {
            let ps = ints(p.m@);
            let vs = ints(v.m@);
            let vv = self.spec_view_matrix(*trig);
            assert forall|i: int, j: int| 0 <= i < 4 && 0 <= j < 4 implies
                -0x7fff_ffff_ffff_ffff <= #[trigger] spec_mat_entry(ps, vs, i, j)
                    <= 0x7fff_ffff_ffff_ffff by {
                assert(ps[4 * i] == p.m@[4 * i] && ps[4 * i + 1] == p.m@[4 * i + 1]
                    && ps[4 * i + 2] == p.m@[4 * i + 2] && ps[4 * i + 3] == p.m@[4 * i + 3]);
                assert(vs[j] == v.m@[j] && vs[4 + j] == v.m@[4 + j] && vs[8 + j] == v.m@[8 + j]
                    && vs[12 + j] == v.m@[12 + j]);
                if j < 3 {
                    assert(ints(v.m@)[12 + j] == vv[12 + j]);
                    assert(vs[12 + j] == 0);
                } else {
                    assert(ints(v.m@)[15] == vv[15]);
                    assert(vs[15] == SCALE as int);
                }
                let total = ps[4 * i] * vs[j] + ps[4 * i + 1] * vs[4 + j]
                    + ps[4 * i + 2] * vs[8 + j] + ps[4 * i + 3] * vs[12 + j];
                if i == 0 {
                    assert(ps[1] == 0 && ps[2] == 0 && ps[3] == 0);
                    assert(ps[1] * vs[4 + j] == 0 && ps[2] * vs[8 + j] == 0
                        && ps[3] * vs[12 + j] == 0) by (nonlinear_arith)
                        requires ps[1] == 0 && ps[2] == 0 && ps[3] == 0;
                    assert(spec_abs(ps[0] * vs[j]) <= 100_000_000_000 * 20_000_000_000_000)
                        by (nonlinear_arith)
                        requires
                            spec_abs(ps[0]) <= 100_000_000_000,
                            spec_abs(vs[j]) <= 20_000_000_000_000;
                } else if i == 1 {
                    assert(ps[4] == 0 && ps[6] == 0 && ps[7] == 0);
                    assert(ps[4] * vs[j] == 0 && ps[6] * vs[8 + j] == 0
                        && ps[7] * vs[12 + j] == 0) by (nonlinear_arith)
                        requires ps[4] == 0 && ps[6] == 0 && ps[7] == 0;
                    assert(spec_abs(ps[5] * vs[4 + j]) <= 1_000_000_000 * 20_000_000_000_000)
                        by (nonlinear_arith)
                        requires
                            spec_abs(ps[5]) <= 1_000_000_000,
                            spec_abs(vs[4 + j]) <= 20_000_000_000_000;
                } else if i == 2 {
                    assert(ps[8] == 0 && ps[9] == 0);
                    assert(ps[8] * vs[j] == 0 && ps[9] * vs[4 + j] == 0) by (nonlinear_arith)
                        requires ps[8] == 0 && ps[9] == 0;
                    assert(spec_abs(ps[10] * vs[8 + j]) <= 2_000_000 * 20_000_000_000_000)
                        by (nonlinear_arith)
                        requires
                            spec_abs(ps[10]) <= 2_000_000,
                            spec_abs(vs[8 + j]) <= 20_000_000_000_000;
                    assert(spec_abs(ps[11] * vs[12 + j])
                        <= 2_000_000_000_000 * (SCALE as int)) by (nonlinear_arith)
                        requires
                            spec_abs(ps[11]) <= 2_000_000_000_000,
                            spec_abs(vs[12 + j]) <= SCALE as int;
                } else {
                    assert(ps[12] == 0 && ps[13] == 0);
                    assert(ps[12] * vs[j] == 0 && ps[13] * vs[4 + j] == 0) by (nonlinear_arith)
                        requires ps[12] == 0 && ps[13] == 0;
                    assert(spec_abs(ps[14] * vs[8 + j]) <= (SCALE as int) * 20_000_000_000_000)
                        by (nonlinear_arith)
                        requires
                            spec_abs(ps[14]) <= SCALE as int,
                            spec_abs(vs[8 + j]) <= 20_000_000_000_000;
                    assert(spec_abs(ps[15] * vs[12 + j]) <= (SCALE as int) * (SCALE as int))
                        by (nonlinear_arith)
                        requires
                            spec_abs(ps[15]) <= SCALE as int,
                            spec_abs(vs[12 + j]) <= SCALE as int;
                }
                lemma_div_trunc_bound(total, SCALE as int, 0x7fff_ffff_ffff_ffff);
            }
        }
        let r = mat_mul(&p, &v);
        proof {
            assert forall|k: int| 0 <= k < 16 implies ints(r.m@)[k]
                == self.spec_view_projection_matrix(*trig, aspect, tan_half_fov)[k] by {
                assert(ints(r.m@)[k] == r.m@[k]);
                assert(r.m@[4 * (k / 4) + (k % 4)] == r.m@[k]) by {
                    vstd::arithmetic::div_mod::lemma_fundamental_div_mod(k, 4);
                }
                assert(spec_mat_entry(ints(p.m@), ints(v.m@), k / 4, k % 4) == spec_mat_entry(
                    self.spec_projection_matrix(aspect, tan_half_fov),
                    self.spec_view_matrix(*trig),
                    k / 4,
                    k % 4,
                ));
            }
        }
        r
    }
}

/// Scaled cross product of two near-unit fixed-point vectors.
fn cross3_scaled(a: FixedVec3, b: FixedVec3) -> (r: FixedVec3)
    requires
        -SCALE <= a.x <= SCALE,
        -SCALE <= a.y <= SCALE,
        -SCALE <= a.z <= SCALE,
        -SCALE <= b.x <= SCALE,
        -SCALE <= b.y <= SCALE,
        -SCALE <= b.z <= SCALE,
    ensures
        r.view_tuple() == spec_cross3_scaled(a.view_tuple(), b.view_tuple()),
        -2 * SCALE <= r.x <= 2 * SCALE,
        -2 * SCALE <= r.y <= 2 * SCALE,
        -2 * SCALE <= r.z <= 2 * SCALE,
{
    proof {
        lemma_cross_bounds(a.view_tuple(), b.view_tuple());
        let s = SCALE as int;
        assert(spec_abs((a.y as int) * (b.z as int)) <= s * s
            && spec_abs((a.z as int) * (b.y as int)) <= s * s
            && spec_abs((a.z as int) * (b.x as int)) <= s * s
            && spec_abs((a.x as int) * (b.z as int)) <= s * s
            && spec_abs((a.x as int) * (b.y as int)) <= s * s
            && spec_abs((a.y as int) * (b.x as int)) <= s * s) by (nonlinear_arith)
            requires
                -s <= a.x <= s, -s <= a.y <= s, -s <= a.z <= s,
                -s <= b.x <= s, -s <= b.y <= s, -s <= b.z <= s;
    }
    let cx = (a.y as i128) * (b.z as i128) - (a.z as i128) * (b.y as i128);
    let cy = (a.z as i128) * (b.x as i128) - (a.x as i128) * (b.z as i128);
    let cz = (a.x as i128) * (b.y as i128) - (a.y as i128) * (b.x as i128);
    let rx = div_trunc_i128(cx, 1_000_000);
    let ry = div_trunc_i128(cy, 1_000_000);
    let rz = div_trunc_i128(cz, 1_000_000);
    FixedVec3 { x: rx as i64, y: ry as i64, z: rz as i64 }
}

/// Cross products of near-unit vectors stay within two units per
/// component.
proof fn lemma_cross_bounds(a: (int, int, int), b: (int, int, int))
    requires
        -SCALE <= a.0 <= SCALE,
        -SCALE <= a.1 <= SCALE,
        -SCALE <= a.2 <= SCALE,
        -SCALE <= b.0 <= SCALE,
        -SCALE <= b.1 <= SCALE,
        -SCALE <= b.2 <= SCALE,
    ensures
        spec_abs(spec_cross3_scaled(a, b).0) <= 2 * SCALE as int,
        spec_abs(spec_cross3_scaled(a, b).1) <= 2 * SCALE as int,
        spec_abs(spec_cross3_scaled(a, b).2) <= 2 * SCALE as int,
{
    let s = SCALE as int;
    assert(spec_abs(a.1 * b.2 - a.2 * b.1) <= 2 * s * s) by (nonlinear_arith)
        requires
            -s <= a.1 <= s, -s <= a.2 <= s, -s <= b.1 <= s, -s <= b.2 <= s;
    lemma_div_trunc_bound(a.1 * b.2 - a.2 * b.1, s, 2 * s);
    assert(spec_abs(a.2 * b.0 - a.0 * b.2) <= 2 * s * s) by (nonlinear_arith)
        requires
            -s <= a.0 <= s, -s <= a.2 <= s, -s <= b.0 <= s, -s <= b.2 <= s;
    lemma_div_trunc_bound(a.2 * b.0 - a.0 * b.2, s, 2 * s);
    assert(spec_abs(a.0 * b.1 - a.1 * b.0) <= 2 * s * s) by (nonlinear_arith)
        requires
            -s <= a.0 <= s, -s <= a.1 <= s, -s <= b.0 <= s, -s <= b.1 <= s;
    lemma_div_trunc_bound(a.0 * b.1 - a.1 * b.0, s, 2 * s);
}

/// Scaled dot product of an eye position with a near-unit axis.
fn dot3_scaled(a: FixedVec3, b: FixedVec3) -> (r: i64)
    requires
        -3_000_000_000_000 <= a.x <= 3_000_000_000_000,
        -3_000_000_000_000 <= a.y <= 3_000_000_000_000,
        -3_000_000_000_000 <= a.z <= 3_000_000_000_000,
        -2 * SCALE <= b.x <= 2 * SCALE,
        -2 * SCALE <= b.y <= 2 * SCALE,
        -2 * SCALE <= b.z <= 2 * SCALE,
    ensures
        r == spec_dot3_scaled(a.view_tuple(), b.view_tuple()),
        -18_000_000_000_000 <= r <= 18_000_000_000_000,
{
    proof {
        let s = 2 * SCALE as int;
        assert(spec_abs((a.x as int) * (b.x as int)) <= 3_000_000_000_000 * s)
            by (nonlinear_arith)
            requires -3_000_000_000_000 <= a.x <= 3_000_000_000_000, -s <= b.x <= s;
        assert(spec_abs((a.y as int) * (b.y as int)) <= 3_000_000_000_000 * s)
            by (nonlinear_arith)
            requires -3_000_000_000_000 <= a.y <= 3_000_000_000_000, -s <= b.y <= s;
        assert(spec_abs((a.z as int) * (b.z as int)) <= 3_000_000_000_000 * s)
            by (nonlinear_arith)
            requires -3_000_000_000_000 <= a.z <= 3_000_000_000_000, -s <= b.z <= s;
        lemma_div_trunc_bound(
            (a.x as int) * (b.x as int) + (a.y as int) * (b.y as int)
                + (a.z as int) * (b.z as int),
            SCALE as int,
            18_000_000_000_000,
        );
    }
    let p = (a.x as i128) * (b.x as i128) + (a.y as i128) * (b.y as i128)
        + (a.z as i128) * (b.z as i128);
    let q = div_trunc_i128(p, 1_000_000);
    q as i64
}

/// Fixed-point product of two matrices, entry by entry.
fn mat_mul(a: &Mat4F, b: &Mat4F) -> (r: Mat4F)
    requires
        a.wf(),
        b.wf(),
        forall|k: int|
            0 <= k < 16 ==> -1_000_000_000_000_000_000 <= #[trigger] a.m@[k]
                <= 1_000_000_000_000_000_000,
        forall|k: int|
            0 <= k < 16 ==> -1_000_000_000_000_000_000 <= #[trigger] b.m@[k]
                <= 1_000_000_000_000_000_000,
        forall|i: int, j: int|
            0 <= i < 4 && 0 <= j < 4 ==> -0x7fff_ffff_ffff_ffff <= #[trigger] spec_mat_entry(
                ints(a.m@), ints(b.m@), i, j) <= 0x7fff_ffff_ffff_ffff,
    ensures
        r.wf(),
        forall|i: int, j: int|
            0 <= i < 4 && 0 <= j < 4 ==> #[trigger] r.m@[4 * i + j] == spec_mat_entry(
                ints(a.m@), ints(b.m@), i, j),
{
    let mut m: Vec<i64> = Vec::new();
    let mut i: usize = 0;
    while i < 4
        invariant
            0 <= i <= 4,
            m@.len() == 4 * i,
            a.wf(),
            b.wf(),
            forall|k: int|
                0 <= k < 16 ==> -1_000_000_000_000_000_000 <= #[trigger] a.m@[k]
                    <= 1_000_000_000_000_000_000,
            forall|k: int|
                0 <= k < 16 ==> -1_000_000_000_000_000_000 <= #[trigger] b.m@[k]
                    <= 1_000_000_000_000_000_000,
            forall|i2: int, j2: int|
                0 <= i2 < 4 && 0 <= j2 < 4 ==> -0x7fff_ffff_ffff_ffff
                    <= #[trigger] spec_mat_entry(ints(a.m@), ints(b.m@), i2, j2)
                    <= 0x7fff_ffff_ffff_ffff,
            forall|i2: int, j2: int|
                0 <= i2 < i && 0 <= j2 < 4 ==> #[trigger] m@[4 * i2 + j2] == spec_mat_entry(
                    ints(a.m@), ints(b.m@), i2, j2),
        decreases 4 - i,
    {
        let mut j: usize = 0;
        while j < 4
            invariant
                0 <= i < 4,
                0 <= j <= 4,
                m@.len() == 4 * i + j,
                a.wf(),
                b.wf(),
                forall|k: int|
                    0 <= k < 16 ==> -1_000_000_000_000_000_000 <= #[trigger] a.m@[k]
                        <= 1_000_000_000_000_000_000,
                forall|k: int|
                    0 <= k < 16 ==> -1_000_000_000_000_000_000 <= #[trigger] b.m@[k]
                        <= 1_000_000_000_000_000_000,
                forall|i2: int, j2: int|
                    0 <= i2 < 4 && 0 <= j2 < 4 ==> -0x7fff_ffff_ffff_ffff
                        <= #[trigger] spec_mat_entry(ints(a.m@), ints(b.m@), i2, j2)
                        <= 0x7fff_ffff_ffff_ffff,
                forall|i2: int, j2: int|
                    0 <= i2 < 4 && 0 <= j2 < 4 && 4 * i2 + j2 < 4 * i + j
                        ==> #[trigger] m@[4 * i2 + j2] == spec_mat_entry(
                        ints(a.m@), ints(b.m@), i2, j2),
            decreases 4 - j,
        {
            proof {
                let big = 1_000_000_000_000_000_000int;
                assert(spec_abs((a.m@[4 * i] as int) * (b.m@[j as int] as int)) <= big * big)
                    by (nonlinear_arith)
                    requires
                        spec_abs(a.m@[4 * i] as int) <= big,
                        spec_abs(b.m@[j as int] as int) <= big;
                assert(spec_abs((a.m@[4 * i + 1] as int) * (b.m@[4 + j] as int)) <= big * big)
                    by (nonlinear_arith)
                    requires
                        spec_abs(a.m@[4 * i + 1] as int) <= big,
                        spec_abs(b.m@[4 + j] as int) <= big;
                assert(spec_abs((a.m@[4 * i + 2] as int) * (b.m@[8 + j] as int)) <= big * big)
                    by (nonlinear_arith)
                    requires
                        spec_abs(a.m@[4 * i + 2] as int) <= big,
                        spec_abs(b.m@[8 + j] as int) <= big;
                assert(spec_abs((a.m@[4 * i + 3] as int) * (b.m@[12 + j] as int)) <= big * big)
                    by (nonlinear_arith)
                    requires
                        spec_abs(a.m@[4 * i + 3] as int) <= big,
                        spec_abs(b.m@[12 + j] as int) <= big;
            }
            let p: i128 = (a.m[4 * i] as i128) * (b.m[j] as i128)
                + (a.m[4 * i + 1] as i128) * (b.m[4 + j] as i128)
                + (a.m[4 * i + 2] as i128) * (b.m[8 + j] as i128)
                + (a.m[4 * i + 3] as i128) * (b.m[12 + j] as i128);
            proof {
                assert(spec_mat_entry(ints(a.m@), ints(b.m@), i as int, j as int)
                    == div_trunc(p as int, SCALE as int)) by {
                    assert(ints(a.m@)[4 * i] == a.m@[4 * i]);
                    assert(ints(a.m@)[4 * i + 1] == a.m@[4 * i + 1]);
                    assert(ints(a.m@)[4 * i + 2] == a.m@[4 * i + 2]);
                    assert(ints(a.m@)[4 * i + 3] == a.m@[4 * i + 3]);
                    assert(ints(b.m@)[j as int] == b.m@[j as int]);
                    assert(ints(b.m@)[4 + j] == b.m@[4 + j]);
                    assert(ints(b.m@)[8 + j] == b.m@[8 + j]);
                    assert(ints(b.m@)[12 + j] == b.m@[12 + j]);
                }
            }
            let e = div_trunc_i128(p, 1_000_000);
            let ghost pre = m@;
            m.push(e as i64);
            proof {
                assert forall|i2: int, j2: int|
                    0 <= i2 < 4 && 0 <= j2 < 4 && 4 * i2 + j2 < 4 * i + j + 1
                        implies #[trigger] m@[4 * i2 + j2] == spec_mat_entry(
                        ints(a.m@), ints(b.m@), i2, j2) by {
                    if 4 * i2 + j2 < 4 * i + j {
                        assert(m@[4 * i2 + j2] == pre[4 * i2 + j2]);
                    } else {
                        assert(i2 == i && j2 == j);
                        assert(m@[4 * i2 + j2] == e as i64);
                    }
                }
            }
            j += 1;
        }
        i += 1;
    }
    Mat4F { m }
}

} // verus!
