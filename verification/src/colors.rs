//! Color schemes: pure maps from normalized height to RGB.
//!
//! A normalized height `t` lives in the fixed-point unit interval
//! `[0, SCALE]`; each scheme clamps it there and then interpolates
//! linearly inside a segment, with the segment-local parameter
//! `s = (t - segment_start) * SCALE / segment_width`. The built-in
//! schemes divide non-negative values, where floor division and
//! truncation agree; the custom gradient's channels may interpolate
//! downward and round toward zero.

use vstd::prelude::*;
use crate::fixed::{SCALE, spec_clamp01, clamp01, div_trunc};

verus! {

/// An RGB color with fixed-point channels; `SCALE` is full intensity.
#[derive(Clone, Copy, Debug, PartialEq, Eq, Structural)]
pub struct Rgb {
    pub r: i64,
    pub g: i64,
    pub b: i64,
}

impl Rgb {
    /// Every channel lies in the unit interval `[0, SCALE]`.
    pub open spec fn wf(self) -> bool {
        &&& 0 <= self.r <= SCALE
        &&& 0 <= self.g <= SCALE
        &&& 0 <= self.b <= SCALE
    }

    /// The channels as a triple of unbounded integers.
    pub open spec fn view_tuple(self) -> (int, int, int) {
        (self.r as int, self.g as int, self.b as int)
    }
}

/// Available color schemes for terrain rendering.
#[derive(Clone, Copy, Debug, PartialEq, Eq, Structural, Default)]
pub enum ColorScheme {
    /// Natural terrain colors: blue (water) → cyan → green → brown → white (snow).
    #[default]
    Terrain,
    /// Scientific heatmap: blue (cold/low) → cyan → green → yellow → red (hot/high).
    Heatmap,
    /// Single color with intensity based on height.
    Monochrome,
    /// A user-supplied gradient through three explicit stops: `low` at the
    /// bottom, `mid` halfway up, `high` at the top.
    Custom { low: Rgb, mid: Rgb, high: Rgb },
}

impl ColorScheme {
    /// A scheme is well formed when its custom stops (if any) are colors
    /// of the unit cube.
    pub open spec fn wf(self) -> bool {
        match self {
            ColorScheme::Custom { low, mid, high } => low.wf() && mid.wf() && high.wf(),
            _ => true,
        }
    }
}

/// Terrain segment `[0, 0.3)`: blue to cyan.
pub open spec fn spec_terrain_blue_cyan(s: int) -> (int, int, int) {
    (0, s / 2, 800_000 + s / 5)
}

/// Terrain segment `[0.3, 0.5)`: cyan to green.
pub open spec fn spec_terrain_cyan_green(s: int) -> (int, int, int) {
    (s / 5, 500_000 + s * 3 / 10, 1_000_000 - s * 3 / 5)
}

/// Terrain segment `[0.5, 0.8)`: green to brown.
pub open spec fn spec_terrain_green_brown(s: int) -> (int, int, int) {
    (200_000 + s * 2 / 5, 800_000 - s * 2 / 5, 400_000 - s * 3 / 10)
}

/// Terrain segment `[0.8, 1.0]`: brown to white.
pub open spec fn spec_terrain_brown_white(s: int) -> (int, int, int) {
    (600_000 + s * 2 / 5, 400_000 + s * 3 / 5, 100_000 + s * 9 / 10)
}

/// Natural terrain gradient on a clamped `t`.
pub open spec fn spec_terrain_color(t: int) -> (int, int, int) {
    if t < 300_000 {
        spec_terrain_blue_cyan(t * 1_000_000 / 300_000)
    } else if t < 500_000 {
        spec_terrain_cyan_green((t - 300_000) * 1_000_000 / 200_000)
    } else if t < 800_000 {
        spec_terrain_green_brown((t - 500_000) * 1_000_000 / 300_000)
    } else {
        spec_terrain_brown_white((t - 800_000) * 1_000_000 / 200_000)
    }
}

/// Heatmap segment `[0, 0.25)`: blue to cyan.
pub open spec fn spec_heatmap_blue_cyan(s: int) -> (int, int, int) {
    (0, s, 1_000_000)
}

/// Heatmap segment `[0.25, 0.5)`: cyan to green.
pub open spec fn spec_heatmap_cyan_green(s: int) -> (int, int, int) {
    (0, 1_000_000, 1_000_000 - s)
}

/// Heatmap segment `[0.5, 0.75)`: green to yellow.
pub open spec fn spec_heatmap_green_yellow(s: int) -> (int, int, int) {
    (s, 1_000_000, 0)
}

/// Heatmap segment `[0.75, 1.0]`: yellow to red.
pub open spec fn spec_heatmap_yellow_red(s: int) -> (int, int, int) {
    (1_000_000, 1_000_000 - s, 0)
}

/// Scientific heatmap on a clamped `t`; the four segments are a quarter
/// wide, so the local parameter is exactly `4 * (t - segment_start)`.
pub open spec fn spec_heatmap_color(t: int) -> (int, int, int) {
    if t < 250_000 {
        spec_heatmap_blue_cyan(t * 4)
    } else if t < 500_000 {
        spec_heatmap_cyan_green((t - 250_000) * 4)
    } else if t < 750_000 {
        spec_heatmap_green_yellow((t - 500_000) * 4)
    } else {
        spec_heatmap_yellow_red((t - 750_000) * 4)
    }
}

/// Grayscale on a clamped `t`: `v = 0.1 + 0.9 t`, never fully black or white.
pub open spec fn spec_monochrome_color(t: int) -> (int, int, int) {
    let v = 100_000 + t * 9 / 10;
    (v, v, v)
}

/// One linearly interpolated channel of the custom gradient.
pub open spec fn spec_lerp_channel(ca: int, cb: int, s: int) -> int {
    ca + div_trunc((cb - ca) * s, SCALE as int)
}

/// Custom three-stop gradient on a clamped `t`: `low` to `mid` over the
/// bottom half, `mid` to `high` over the top half.
pub open spec fn spec_custom_color(low: Rgb, mid: Rgb, high: Rgb, t: int) -> (int, int, int) {
    if t < 500_000 {
        let s = t * 2;
        (
            spec_lerp_channel(low.r as int, mid.r as int, s),
            spec_lerp_channel(low.g as int, mid.g as int, s),
            spec_lerp_channel(low.b as int, mid.b as int, s),
        )
    } else {
        let s = (t - 500_000) * 2;
        (
            spec_lerp_channel(mid.r as int, high.r as int, s),
            spec_lerp_channel(mid.g as int, high.g as int, s),
            spec_lerp_channel(mid.b as int, high.b as int, s),
        )
    }
}

/// Normalized height to RGB: clamp to the unit interval, then apply the
/// scheme's gradient.
pub open spec fn spec_height_to_color(t: int, scheme: ColorScheme) -> (int, int, int) {
    let tc = spec_clamp01(t);
    match scheme {
        ColorScheme::Terrain => spec_terrain_color(tc),
        ColorScheme::Heatmap => spec_heatmap_color(tc),
        ColorScheme::Monochrome => spec_monochrome_color(tc),
        ColorScheme::Custom { low, mid, high } => spec_custom_color(low, mid, high, tc),
    }
}

/// Clamping is idempotent, so the color of any `t` equals the color of
/// its clamp: values outside the unit interval saturate to the boundary
/// color.
pub proof fn lemma_height_to_color_clamp(t: int, scheme: ColorScheme)
    ensures
        spec_height_to_color(t, scheme) == spec_height_to_color(spec_clamp01(t), scheme),
{
}

/// The terrain gradient is continuous: at every internal segment
/// boundary, the lower segment evaluated at a full local parameter equals
/// the upper segment at zero.
pub proof fn lemma_terrain_color_continuous()
    ensures
        spec_terrain_blue_cyan(SCALE as int) == spec_terrain_cyan_green(0),
        spec_terrain_cyan_green(SCALE as int) == spec_terrain_green_brown(0),
        spec_terrain_green_brown(SCALE as int) == spec_terrain_brown_white(0),
{
}

/// The heatmap gradient is continuous across its three internal segment
/// boundaries, in the same sense as the terrain gradient.
pub proof fn lemma_heatmap_color_continuous()
    ensures
        spec_heatmap_blue_cyan(SCALE as int) == spec_heatmap_cyan_green(0),
        spec_heatmap_cyan_green(SCALE as int) == spec_heatmap_green_yellow(0),
        spec_heatmap_green_yellow(SCALE as int) == spec_heatmap_yellow_red(0),
{
}

/// Divides a scaled segment offset by the segment width, entirely in
/// non-negative machine arithmetic.
fn segment_param(offset: i64, seg_width: u64) -> (s: i64)
    requires
        0 <= offset,
        offset as int * 1_000_000 <= u64::MAX,
        seg_width > 0,
        offset <= seg_width,
    ensures
        s == offset * 1_000_000 / (seg_width as int),
        0 <= s <= SCALE,
{
    let n: u64 = (offset as u64) * 1_000_000;
    let q: u64 = n / seg_width;
    proof {
        vstd::arithmetic::div_mod::lemma_div_is_ordered(
            n as int, seg_width as int * 1_000_000, seg_width as int);
        vstd::arithmetic::div_mod::lemma_div_multiples_vanish(
            1_000_000, seg_width as int);
    }
    q as i64
}

/// Natural terrain gradient: blue → cyan → green → brown → white.
fn terrain_color(t: i64) -> (c: Rgb)
    requires
        0 <= t <= SCALE,
    ensures
        c.view_tuple() == spec_terrain_color(t as int),
        c.wf(),
{
    if t < 300_000 {
        let s = segment_param(t, 300_000);
        let su = s as u64;
        Rgb { r: 0, g: (su / 2) as i64, b: 800_000 + (su / 5) as i64 }
    } else if t < 500_000 {
        let s = segment_param(t - 300_000, 200_000);
        let su = s as u64;
        Rgb {
            r: (su / 5) as i64,
            g: 500_000 + (su * 3 / 10) as i64,
            b: 1_000_000 - (su * 3 / 5) as i64,
        }
    } else if t < 800_000 {
        let s = segment_param(t - 500_000, 300_000);
        let su = s as u64;
        Rgb {
            r: 200_000 + (su * 2 / 5) as i64,
            g: 800_000 - (su * 2 / 5) as i64,
            b: 400_000 - (su * 3 / 10) as i64,
        }
    } else {
        let s = segment_param(t - 800_000, 200_000);
        let su = s as u64;
        Rgb {
            r: 600_000 + (su * 2 / 5) as i64,
            g: 400_000 + (su * 3 / 5) as i64,
            b: 100_000 + (su * 9 / 10) as i64,
        }
    }
}

/// Scientific heatmap: blue → cyan → green → yellow → red.
fn heatmap_color(t: i64) -> (c: Rgb)
    requires
        0 <= t <= SCALE,
    ensures
        c.view_tuple() == spec_heatmap_color(t as int),
        c.wf(),
{
    if t < 250_000 {
        Rgb { r: 0, g: t * 4, b: 1_000_000 }
    } else if t < 500_000 {
        Rgb { r: 0, g: 1_000_000, b: 1_000_000 - (t - 250_000) * 4 }
    } else if t < 750_000 {
        Rgb { r: (t - 500_000) * 4, g: 1_000_000, b: 0 }
    } else {
        Rgb { r: 1_000_000, g: 1_000_000 - (t - 750_000) * 4, b: 0 }
    }
}

/// Grayscale based on height.
fn monochrome_color(t: i64) -> (c: Rgb)
    requires
        0 <= t <= SCALE,
    ensures
        c.view_tuple() == spec_monochrome_color(t as int),
        c.wf(),
{
    let v = 100_000 + ((t as u64) * 9 / 10) as i64;
    Rgb { r: v, g: v, b: v }
}

/// One channel of the custom gradient, linearly between `ca` and `cb`.
fn lerp_channel(ca: i64, cb: i64, s: i64) -> (r: i64)
    requires
        0 <= ca <= SCALE,
        0 <= cb <= SCALE,
        0 <= s <= SCALE,
    ensures
        r == spec_lerp_channel(ca as int, cb as int, s as int),
        0 <= r <= SCALE,
{
    proof {
        assert(-1_000_000_000_000 <= (cb - ca) * s <= 1_000_000_000_000) by (nonlinear_arith)
            requires
                -1_000_000 <= cb - ca <= 1_000_000,
                0 <= s <= 1_000_000;
        if cb >= ca {
            assert((cb - ca) * s <= (cb - ca) * 1_000_000) by (nonlinear_arith)
                requires 0 <= cb - ca, s <= 1_000_000;
            assert(0 <= (cb - ca) * s) by (nonlinear_arith)
                requires 0 <= cb - ca, 0 <= s;
            assert(div_trunc((cb - ca) * s, 1_000_000) <= cb - ca) by {
                vstd::arithmetic::div_mod::lemma_div_is_ordered(
                    (cb - ca) * s, (cb - ca) * 1_000_000, 1_000_000);
                vstd::arithmetic::div_mod::lemma_div_multiples_vanish(
                    cb as int - ca as int, 1_000_000);
            }
        } else {
            assert((ca - cb) * s <= (ca - cb) * 1_000_000) by (nonlinear_arith)
                requires 0 <= ca - cb, s <= 1_000_000;
            assert(0 <= (ca - cb) * s) by (nonlinear_arith)
                requires 0 <= ca - cb, 0 <= s;
            assert((cb - ca) * s == -((ca - cb) * s)) by (nonlinear_arith);
            assert(div_trunc((cb - ca) * s, 1_000_000) >= -(ca - cb)) by {
                vstd::arithmetic::div_mod::lemma_div_is_ordered(
                    (ca - cb) * s, (ca - cb) * 1_000_000, 1_000_000);
                vstd::arithmetic::div_mod::lemma_div_multiples_vanish(
                    ca as int - cb as int, 1_000_000);
            }
        }
    }
    let d = crate::fixed::scale_mul(cb - ca, s);
    ca + d
}

/// Custom gradient through three stops.
fn custom_color(low: Rgb, mid: Rgb, high: Rgb, t: i64) -> (c: Rgb)
    requires
        low.wf(),
        mid.wf(),
        high.wf(),
        0 <= t <= SCALE,
    ensures
        c.view_tuple() == spec_custom_color(low, mid, high, t as int),
        c.wf(),
{
    if t < 500_000 {
        let s = t * 2;
        Rgb {
            r: lerp_channel(low.r, mid.r, s),
            g: lerp_channel(low.g, mid.g, s),
            b: lerp_channel(low.b, mid.b, s),
        }
    } else {
        let s = (t - 500_000) * 2;
        Rgb {
            r: lerp_channel(mid.r, high.r, s),
            g: lerp_channel(mid.g, high.g, s),
            b: lerp_channel(mid.b, high.b, s),
        }
    }
}

/// Converts a normalized height to an RGB color: `t` is clamped to the
/// unit interval (values outside saturate to the boundary color) and then
/// mapped through the chosen scheme's gradient.
pub fn height_to_color(t: i64, scheme: ColorScheme) -> (c: Rgb)
    requires
        scheme.wf(),
    ensures
        c.view_tuple() == spec_height_to_color(t as int, scheme),
        c.wf(),
{
    let tc = clamp01(t);
    match scheme {
        ColorScheme::Terrain => terrain_color(tc),
        ColorScheme::Heatmap => heatmap_color(tc),
        ColorScheme::Monochrome => monochrome_color(tc),
        ColorScheme::Custom { low, mid, high } => custom_color(low, mid, high, tc),
    }
}

} // verus!
