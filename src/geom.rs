use vstd::prelude::*;

verus! {

/// Coordinates are fixed-point numbers: one pixel is this many sub-pixel units.
pub const SUBPIXEL: i64 = 65536;

/// Half a pixel, in sub-pixel units.
pub const HALF_PIXEL: i64 = 32768;

/// Saturates an integer to the range of `i64`.
pub open spec fn clamp64(v: int) -> i64 {
    if v < i64::MIN {
        i64::MIN
    } else if v > i64::MAX {
        i64::MAX
    } else {
        v as i64
    }
}

fn saturate(v: i128) -> (r: i64)
    ensures
        r == clamp64(v as int),
{
    if v < i64::MIN as i128 {
        i64::MIN
    } else if v > i64::MAX as i128 {
        i64::MAX
    } else {
        v as i64
    }
}

/// Rounds a sub-pixel coordinate to the nearest pixel, halves away from zero.
pub open spec fn round_px(v: int) -> int {
    if v >= 0 {
        (v + HALF_PIXEL) / (SUBPIXEL as int)
    } else {
        -((-v + HALF_PIXEL) / (SUBPIXEL as int))
    }
}

/// Rounds a sub-pixel coordinate to the nearest pixel.
pub fn round_to_pixel(v: i64) -> (r: i128)
    ensures
        r == round_px(v as int),
{
    let w = v as i128;
    if w >= 0 {
        let q = (w + HALF_PIXEL as i128).checked_div_euclid(SUBPIXEL as i128);
        q.unwrap()
    } else {
        let q = (-w + HALF_PIXEL as i128).checked_div_euclid(SUBPIXEL as i128);
        -q.unwrap()
    }
}

/// Scales `v` by `num / den`, rounding down and saturating.
pub open spec fn scale(v: i64, num: i64, den: i64) -> i64 {
    clamp64((v * num) / (den as int))
}

/// Scales a sub-pixel coordinate by the ratio `num / den`.
pub fn scale_coord(v: i64, num: i64, den: i64) -> (r: i64)
    requires
        den > 0,
    ensures
        r == scale(v, num, den),
{
    let vi = v as i128;
    let ni = num as i128;
    proof {
        assert(-0x4000_0000_0000_0000_0000_0000_0000_0000 <= vi * ni <= 0x4000_0000_0000_0000_0000_0000_0000_0000)
            by (nonlinear_arith)
            requires
                -0x8000_0000_0000_0000 <= vi <= 0x7fff_ffff_ffff_ffff,
                -0x8000_0000_0000_0000 <= ni <= 0x7fff_ffff_ffff_ffff,
        ;
    }
    let p = vi * ni;
    let q = p.checked_div_euclid(den as i128);
    proof {
        let a = p as int;
        let d = den as int;
        assert(-0x4000_0000_0000_0000_0000_0000_0000_0000 <= a / d <= 0x4000_0000_0000_0000_0000_0000_0000_0000)
            by (nonlinear_arith)
            requires
                -0x4000_0000_0000_0000_0000_0000_0000_0000 <= a <= 0x4000_0000_0000_0000_0000_0000_0000_0000,
                d >= 1,
        ;
    }
    saturate(q.unwrap())
}

/// A point in device space, in sub-pixel units.
#[derive(Clone, Copy, Debug, PartialEq, Eq, Structural)]
pub struct Point {
    pub x: i64,
    pub y: i64,
}

/// An affine map: `x' = (sx * x + kx * y) / SUBPIXEL + tx` and
/// `y' = (ky * x + sy * y) / SUBPIXEL + ty`. The four factors are fixed-point
/// numbers in units of `1 / SUBPIXEL`; the offsets are in sub-pixel units.
#[derive(Clone, Copy, Debug, PartialEq, Eq, Structural)]
pub struct Transform {
    pub sx: i32,
    pub ky: i32,
    pub kx: i32,
    pub sy: i32,
    pub tx: i64,
    pub ty: i64,
}

/// One coordinate of an affine map, rounded down and saturated.
pub open spec fn affine(a: int, b: int, x: int, y: int, t: int) -> i64 {
    clamp64((a * x + b * y) / (SUBPIXEL as int) + t)
}

fn affine_coord(a: i32, b: i32, x: i64, y: i64, t: i64) -> (r: i64)
    ensures
        r == affine(a as int, b as int, x as int, y as int, t as int),
{
    proof {
        let (ai, bi, xi, yi) = (a as int, b as int, x as int, y as int);
        assert(-0x4000_0000_0000_0000_0000_0000 <= ai * xi <= 0x4000_0000_0000_0000_0000_0000)
            by (nonlinear_arith)
            requires
                -0x8000_0000 <= ai <= 0x7fff_ffff,
                -0x8000_0000_0000_0000 <= xi <= 0x7fff_ffff_ffff_ffff,
        ;
        assert(-0x4000_0000_0000_0000_0000_0000 <= bi * yi <= 0x4000_0000_0000_0000_0000_0000)
            by (nonlinear_arith)
            requires
                -0x8000_0000 <= bi <= 0x7fff_ffff,
                -0x8000_0000_0000_0000 <= yi <= 0x7fff_ffff_ffff_ffff,
        ;
    }
    let s = (a as i128) * (x as i128) + (b as i128) * (y as i128);
    let q = s.checked_div_euclid(SUBPIXEL as i128);
    proof {
        let si = s as int;
        assert(-0x8000_0000_0000_0000_0000_0000 <= si / 65536 <= 0x8000_0000_0000_0000_0000_0000)
            by (nonlinear_arith)
            requires
                -0x8000_0000_0000_0000_0000_0000 <= si <= 0x8000_0000_0000_0000_0000_0000,
        ;
    }
    saturate(q.unwrap() + t as i128)
}

impl Transform {
    /// The identity map.
    pub open spec fn is_identity_spec(self) -> bool {
        self.sx == SUBPIXEL && self.sy == SUBPIXEL && self.kx == 0 && self.ky == 0 && self.tx == 0
            && self.ty == 0
    }

    pub fn identity() -> (t: Transform)
        ensures
            t.is_identity_spec(),
    {
        Transform { sx: 65536, ky: 0, kx: 0, sy: 65536, tx: 0, ty: 0 }
    }

    pub fn is_identity(&self) -> (r: bool)
        ensures
            r == self.is_identity_spec(),
    {
        self.sx == 65536 && self.sy == 65536 && self.kx == 0 && self.ky == 0 && self.tx == 0
            && self.ty == 0
    }

    /// Where this map sends `p`.
    pub open spec fn apply_spec(self, p: Point) -> Point {
        Point {
            x: affine(self.sx as int, self.kx as int, p.x as int, p.y as int, self.tx as int),
            y: affine(self.ky as int, self.sy as int, p.x as int, p.y as int, self.ty as int),
        }
    }

    pub fn apply(&self, p: Point) -> (r: Point)
        ensures
            r == self.apply_spec(p),
    {
        Point {
            x: affine_coord(self.sx, self.kx, p.x, p.y, self.tx),
            y: affine_coord(self.ky, self.sy, p.x, p.y, self.ty),
        }
    }
}

/// The identity map leaves every point where it is.
pub proof fn lemma_identity_fixes(t: Transform, p: Point)
    requires
        t.is_identity_spec(),
    ensures
        t.apply_spec(p) == p,
{
    let (x, y) = (p.x as int, p.y as int);
    assert((65536 * x + 0 * y) / 65536 == x) by (nonlinear_arith);
    assert((0 * x + 65536 * y) / 65536 == y) by (nonlinear_arith);
}

/// Scaling by `d / d` leaves a coordinate as it is.
pub proof fn lemma_scale_by_one(v: i64, d: i64)
    requires
        d > 0,
    ensures
        scale(v, d, d) == v,
{
    let (a, b) = (v as int, d as int);
    assert((a * b) / b == a) by (nonlinear_arith)
        requires
            b > 0,
    ;
}

} // verus!
