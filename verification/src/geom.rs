//! Fixed-point geometry shared by the turtle interpreter, the viewport
//! fitter and the rasterizer.
//!
//! A heading is an index into a caller-supplied direction table whose
//! entries are unit vectors scaled by `UNIT` (65536). Positions are held in
//! subpixels, `SUBPIXELS` (256) to the pixel, as `i64` values; all scaling
//! is exact integer multiply-then-divide.

use vstd::arithmetic::div_mod::lemma_div_is_ordered;
use vstd::arithmetic::div_mod::lemma_fundamental_div_mod;
use vstd::arithmetic::div_mod::lemma_fundamental_div_mod_converse;
use vstd::prelude::*;

verus! {

/// Fixed-point denominator of a direction-table entry: an entry holds a
/// unit vector with both components multiplied by `UNIT`.
pub const UNIT: i64 = 65536;

/// Subpixels per pixel: positions carry this much sub-pixel precision.
pub const SUBPIXELS: i64 = 256;

/// Largest scale (subpixels advanced per `Move`) the pipeline works with.
pub const SCALE_MAX: i64 = 0x100_0000;

/// Largest origin coordinate magnitude (in subpixels) the pipeline works
/// with.
pub const ORIGIN_MAX: i64 = 0x2000_0000_0000;

/// Largest command-sequence length the rendering pipeline works with.
pub const MAX_COMMANDS: usize = 0x10_0000;

/// Largest direction-table length the rendering pipeline works with.
pub const MAX_DIRS: usize = 0x10_0000;

/// Largest pixel-coordinate magnitude the rasterizer works with; rounding
/// saturates here, as a float-to-integer cast saturates at the type bounds.
pub const PIXEL_MAX: i32 = 0x2000_0000;

/// A direction table is valid when it is non-empty, not over-long, and each
/// entry's components have magnitude at most `UNIT`.
pub open spec fn valid_dirs(dirs: Seq<(i32, i32)>) -> bool {
    &&& 1 <= dirs.len() <= MAX_DIRS
    &&& forall|i: int|
        0 <= i < dirs.len() ==> -UNIT <= (#[trigger] dirs[i]).0 <= UNIT && -UNIT <= dirs[i].1
            <= UNIT
}

/// `v * scale / UNIT`, truncated toward zero: the exact fixed-point scaling
/// of a signed quantity by a non-negative factor.
pub open spec fn scaled(v: int, scale: int) -> int {
    if v >= 0 {
        (v * scale) / (UNIT as int)
    } else {
        -(((-v) * scale) / (UNIT as int))
    }
}

/// Scaling by a non-negative factor keeps the magnitude under
/// `bound * scale / UNIT` whenever `v` is under `bound`.
pub proof fn lemma_scaled_bound(v: int, scale: int, bound: int)
    requires
        0 <= scale,
        -bound <= v <= bound,
    ensures
        -((bound * scale) / (UNIT as int)) <= scaled(v, scale) <= (bound * scale) / (
        UNIT as int),
{
    if v >= 0 {
        assert(v * scale <= bound * scale) by (nonlinear_arith)
            requires
                0 <= scale,
                v <= bound,
        ;
        assert(0 <= v * scale) by (nonlinear_arith)
            requires
                0 <= scale,
                0 <= v,
        ;
        lemma_div_is_ordered(v * scale, bound * scale, UNIT as int);
        lemma_div_is_ordered(0, v * scale, UNIT as int);
    } else {
        assert((-v) * scale <= bound * scale) by (nonlinear_arith)
            requires
                0 <= scale,
                -v <= bound,
        ;
        assert(0 <= (-v) * scale) by (nonlinear_arith)
            requires
                0 <= scale,
                0 <= -v,
        ;
        lemma_div_is_ordered((-v) * scale, bound * scale, UNIT as int);
        lemma_div_is_ordered(0, (-v) * scale, UNIT as int);
    }
}

/// Truncation loses less than one unit: the scaled value, brought back to
/// the numerator's units, stays within one `UNIT` of the exact product.
pub proof fn lemma_scaled_error(v: int, scale: int)
    requires
        0 <= scale,
    ensures
        v * scale - UNIT < UNIT as int * scaled(v, scale),
        UNIT as int * scaled(v, scale) < v * scale + UNIT,
{
    let u = UNIT as int;
    if v >= 0 {
        let q = (v * scale) / u;
        lemma_fundamental_div_mod(v * scale, u);
        vstd::arithmetic::div_mod::lemma_mod_bound(v * scale, u);
        assert(u * q == v * scale - (v * scale) % u);
    } else {
        let q = ((-v) * scale) / u;
        lemma_fundamental_div_mod((-v) * scale, u);
        vstd::arithmetic::div_mod::lemma_mod_bound((-v) * scale, u);
        assert((-v) * scale == -(v * scale)) by (nonlinear_arith);
        assert(u * q == -(v * scale) - ((-v) * scale) % u);
        assert(u * (-q) == -(u * q)) by (nonlinear_arith);
    }
}

/// Multiplying by `UNIT` and scaling back down by `UNIT` returns the scale:
/// the scaling of a full unit is exact.
pub proof fn lemma_scaled_unit(scale: int)
    requires
        0 <= scale,
    ensures
        (UNIT as int * scale) / (UNIT as int) == scale,
{
    lemma_fundamental_div_mod_converse(UNIT as int * scale, UNIT as int, scale, 0);
}

/// Exact fixed-point scaling: `v * scale / UNIT`, truncated toward zero.
pub fn scale_fixed(v: i64, scale: i64) -> (r: i64)
    requires
        -0x10_0000_0000 <= v <= 0x10_0000_0000,
        0 <= scale <= SCALE_MAX,
    ensures
        r == scaled(v as int, scale as int),
{
    if v >= 0 {
        proof {
            assert(v as int * scale as int <= 0x10_0000_0000 * 0x100_0000) by (nonlinear_arith)
                requires
                    0 <= v <= 0x10_0000_0000,
                    0 <= scale <= 0x100_0000,
            ;
        }
        let prod: u64 = (v as u64) * (scale as u64);
        proof {
            lemma_div_is_ordered(prod as int, 0x1000_0000_0000_0000, UNIT as int);
        }
        (prod / (UNIT as u64)) as i64
    } else {
        proof {
            assert((-v) as int * scale as int <= 0x10_0000_0000 * 0x100_0000) by (nonlinear_arith)
                requires
                    0 <= -v <= 0x10_0000_0000,
                    0 <= scale <= 0x100_0000,
            ;
        }
        let prod: u64 = ((-v) as u64) * (scale as u64);
        proof {
            lemma_div_is_ordered(prod as int, 0x1000_0000_0000_0000, UNIT as int);
        }
        -((prod / (UNIT as u64)) as i64)
    }
}

/// `(h + delta)` wrapped into `[0, n)`: the Euclidean remainder modulo one
/// full turn of `n` heading steps.
pub open spec fn wrap_spec(h: int, delta: int, n: int) -> int {
    (h + delta) % n
}

/// Wraps a heading after a turn of `delta` steps back into the direction
/// table's range.
pub fn wrap_heading(h: usize, delta: i32, n: usize) -> (r: usize)
    requires
        1 <= n <= MAX_DIRS,
        h < n,
    ensures
        r == wrap_spec(h as int, delta as int, n as int),
        r < n,
{
    let t: i64 = h as i64 + delta as i64;
    let nn: i64 = n as i64;
    if t >= 0 {
        let r = ((t as u64) % (nn as u64)) as usize;
        r
    } else {
        let m: u64 = ((-t) as u64) % (nn as u64);
        proof {
            let a = -(t as int);
            let nni = nn as int;
            let q = a / nni;
            let rem = a % nni;
            lemma_fundamental_div_mod(a, nni);
            vstd::arithmetic::div_mod::lemma_mod_bound(a, nni);
            assert(t as int == (-q) * nni + (-rem)) by (nonlinear_arith)
                requires
                    -(t as int) == nni * q + rem,
            ;
            if rem == 0 {
                lemma_fundamental_div_mod_converse(t as int, nni, -q, 0);
            } else {
                assert(t as int == (-q - 1) * nni + (nni - rem)) by (nonlinear_arith)
                    requires
                        t as int == (-q) * nni + (-rem),
                ;
                lemma_fundamental_div_mod_converse(t as int, nni, -q - 1, nni - rem);
            }
        }
        if m == 0 {
            0
        } else {
            n - (m as usize)
        }
    }
}

/// A subpixel coordinate rounded to the nearest pixel (ties toward positive
/// infinity), saturated to the rasterizer's coordinate range.
pub open spec fn round_px_spec(v: int) -> int {
    let q = (v + SUBPIXELS as int / 2) / SUBPIXELS as int;
    if q < -PIXEL_MAX as int {
        -PIXEL_MAX as int
    } else if q > PIXEL_MAX as int {
        PIXEL_MAX as int
    } else {
        q
    }
}

/// Rounds a subpixel coordinate to its pixel, saturating at the
/// rasterizer's coordinate bounds.
pub fn round_px(v: i64) -> (r: i32)
    requires
        -0x4000_0000_0000_0000 <= v <= 0x4000_0000_0000_0000,
    ensures
        r == round_px_spec(v as int),
{
    let w: i64 = v + SUBPIXELS / 2;
    if w >= 0 {
        let q: u64 = (w as u64) / (SUBPIXELS as u64);
        if q > PIXEL_MAX as u64 {
            PIXEL_MAX
        } else {
            q as i32
        }
    } else {
        let m: u64 = (-w) as u64;
        let q: u64 = m / (SUBPIXELS as u64);
        let rem: u64 = m % (SUBPIXELS as u64);
        proof {
            let a = -(w as int);
            let qq = a / (SUBPIXELS as int);
            lemma_fundamental_div_mod(a, SUBPIXELS as int);
            if a % (SUBPIXELS as int) == 0 {
                lemma_fundamental_div_mod_converse(w as int, SUBPIXELS as int, -qq, 0);
            } else {
                lemma_fundamental_div_mod_converse(
                    w as int,
                    SUBPIXELS as int,
                    -qq - 1,
                    SUBPIXELS as int - a % (SUBPIXELS as int),
                );
            }
        }
        let neg: i64 = if rem == 0 {
            -(q as i64)
        } else {
            -(q as i64) - 1
        };
        if neg < -PIXEL_MAX as i64 {
            -PIXEL_MAX
        } else {
            neg as i32
        }
    }
}

/// A fixed mapping from turtle space onto the canvas: subpixels advanced
/// per `Move`, and the subpixel position the pen starts from.
#[derive(Clone, Copy, PartialEq, Eq, Structural, Debug)]
pub struct Viewport {
    pub scale: i64,
    pub ox: i64,
    pub oy: i64,
}

/// The bounds within which the rendering pipeline works: a non-negative
/// scale and an origin of moderate magnitude, so positions stay in range.
pub open spec fn valid_viewport(vp: Viewport) -> bool {
    &&& 0 <= vp.scale <= SCALE_MAX
    &&& -ORIGIN_MAX <= vp.ox <= ORIGIN_MAX
    &&& -ORIGIN_MAX <= vp.oy <= ORIGIN_MAX
}

/// One line segment emitted by the turtle, in subpixel coordinates.
#[derive(Clone, Copy, PartialEq, Eq, Structural, Debug)]
pub struct Segment {
    pub x0: i64,
    pub y0: i64,
    pub x1: i64,
    pub y1: i64,
}

impl View for Segment {
    type V = (int, int, int, int);

    open spec fn view(&self) -> (int, int, int, int) {
        (self.x0 as int, self.y0 as int, self.x1 as int, self.y1 as int)
    }
}

} // verus!
