//! Planar integer geometry: the vector type, squared distances, and the
//! floor square root and cube root that the physics passes build on.

use vstd::prelude::*;

verus! {

/// Largest argument the root finders accept (two to the 126th power).
pub const ROOT_ARG_LIMIT: u128 = 0x4000_0000_0000_0000_0000_0000_0000_0000;

/// A planar vector with integer components (kilometres, or kilometres per
/// second when it stands for a velocity).
#[derive(Clone, Copy, PartialEq, Eq, Structural, Debug)]
pub struct Vec2 {
    pub x: i64,
    pub y: i64,
}

/// Absolute value of a mathematical integer.
pub open spec fn abs_val(x: int) -> int {
    if x < 0 {
        -x
    } else {
        x
    }
}

/// A magnitude `mag` carrying the sign of `s` (zero and positive `s` keep
/// the magnitude as it is).
pub open spec fn with_sign(s: int, mag: int) -> int {
    if s < 0 {
        -mag
    } else {
        mag
    }
}

/// `x` saturated into the symmetric interval `[-bound, bound]`.
pub open spec fn clamped(x: int, bound: int) -> int {
    if x < -bound {
        -bound
    } else if x > bound {
        bound
    } else {
        x
    }
}

pub open spec fn square(x: int) -> int {
    x * x
}

pub open spec fn cube(x: int) -> int {
    x * x * x
}

/// Squared Euclidean distance between two points.
pub open spec fn dist_sq(a: Vec2, b: Vec2) -> int {
    square(b.x - a.x) + square(b.y - a.y)
}

/// `r` is the floor of the square root of `n`.
pub open spec fn is_sqrt_floor(n: int, r: int) -> bool {
    &&& 0 <= r
    &&& square(r) <= n
    &&& n < square(r + 1)
}

/// The floor of the square root of a nonnegative integer.
pub open spec fn sqrt_floor(n: int) -> int {
    choose|r: int| is_sqrt_floor(n, r)
}

/// `r` is the floor of the cube root of `n`.
pub open spec fn is_cbrt_floor(n: int, r: int) -> bool {
    &&& 0 <= r
    &&& cube(r) <= n
    &&& n < cube(r + 1)
}

/// The floor of the cube root of a nonnegative integer.
pub open spec fn cbrt_floor(n: int) -> int {
    choose|r: int| is_cbrt_floor(n, r)
}

/// The floor square root is unique, so any witness pins `sqrt_floor`.
pub proof fn lemma_sqrt_floor_unique(n: int, r: int)
    requires
        is_sqrt_floor(n, r),
    ensures
        sqrt_floor(n) == r,
{
    let c = choose|c: int| is_sqrt_floor(n, c);
    assert(is_sqrt_floor(n, c));
    assert(c == r) by (nonlinear_arith)
        requires
            is_sqrt_floor(n, r),
            is_sqrt_floor(n, c),
    {
        assert(c * c <= n < (r + 1) * (r + 1));
        assert(r * r <= n < (c + 1) * (c + 1));
    }
}

/// The floor cube root is unique, so any witness pins `cbrt_floor`.
pub proof fn lemma_cbrt_floor_unique(n: int, r: int)
    requires
        is_cbrt_floor(n, r),
    ensures
        cbrt_floor(n) == r,
{
    let c = choose|c: int| is_cbrt_floor(n, c);
    assert(is_cbrt_floor(n, c));
    assert(c == r) by (nonlinear_arith)
        requires
            is_cbrt_floor(n, r),
            is_cbrt_floor(n, c),
    {
        assert(c * c * c <= n < (r + 1) * (r + 1) * (r + 1));
        assert(r * r * r <= n < (c + 1) * (c + 1) * (c + 1));
    }
}

/// Every nonnegative integer has a floor square root, so `sqrt_floor`
/// denotes a genuine root.
pub proof fn lemma_sqrt_floor_exists(n: int)
    requires
        0 <= n,
    ensures
        is_sqrt_floor(n, sqrt_floor(n)),
    decreases n,
{
    if n == 0 {
        assert(is_sqrt_floor(0, 0));
    } else {
        lemma_sqrt_floor_exists(n - 1);
        let p = sqrt_floor(n - 1);
        if n < square(p + 1) {
            assert(is_sqrt_floor(n, p));
        } else {
            assert(is_sqrt_floor(n, p + 1)) by (nonlinear_arith)
                requires
                    is_sqrt_floor(n - 1, p),
                    square(p + 1) <= n,
            {
                assert(n == (p + 1) * (p + 1));
            }
        }
    }
}

/// Every nonnegative integer has a floor cube root, so `cbrt_floor`
/// denotes a genuine root.
pub proof fn lemma_cbrt_floor_exists(n: int)
    requires
        0 <= n,
    ensures
        is_cbrt_floor(n, cbrt_floor(n)),
    decreases n,
{
    if n == 0 {
        assert(is_cbrt_floor(0, 0));
    } else {
        lemma_cbrt_floor_exists(n - 1);
        let p = cbrt_floor(n - 1);
        if n < cube(p + 1) {
            assert(is_cbrt_floor(n, p));
        } else {
            assert(is_cbrt_floor(n, p + 1)) by (nonlinear_arith)
                requires
                    is_cbrt_floor(n - 1, p),
                    cube(p + 1) <= n,
            {
                assert(n == (p + 1) * (p + 1) * (p + 1));
            }
        }
    }
}

/// A squared distance is a sum of two squares, so it is never negative,
/// and bounded coordinates bound it.
pub proof fn lemma_dist_sq_range(a: Vec2, b: Vec2, l: int)
    by (nonlinear_arith)
    requires
        0 <= l,
        abs_val(a.x as int) <= l,
        abs_val(a.y as int) <= l,
        abs_val(b.x as int) <= l,
        abs_val(b.y as int) <= l,
    ensures
        0 <= dist_sq(a, b) <= 8 * l * l,
{
}

/// No component of a vector is longer than the vector itself: a squared
/// component below a squared length bounds the component by that length.
pub proof fn lemma_component_le_length(dc: int, d: int)
    by (nonlinear_arith)
    requires
        0 <= d,
        square(dc) < square(d + 1),
    ensures
        abs_val(dc) <= d,
{
}

/// Floor square root, by binary search.
pub fn isqrt(n: u128) -> (r: u64)
    requires
        n < ROOT_ARG_LIMIT,
    ensures
        is_sqrt_floor(n as int, r as int),
        r == sqrt_floor(n as int),
{
    let mut lo: u64 = 0;
    let mut hi: u64 = 0x8000_0000_0000_0000;
    proof {
        assert(square(hi as int) == ROOT_ARG_LIMIT) by (nonlinear_arith)
            requires
                hi == 0x8000_0000_0000_0000u64,
        ;
    }
    while lo + 1 < hi
        invariant
            lo < hi,
            hi <= 0x8000_0000_0000_0000u64,
            square(lo as int) <= n as int,
            (n as int) < square(hi as int),
        decreases hi - lo,
    {
        let mid: u64 = lo + (hi - lo) / 2;
        proof {
            assert((mid as int) * (mid as int) < ROOT_ARG_LIMIT) by (nonlinear_arith)
                requires
                    mid < 0x8000_0000_0000_0000u64,
            ;
        }
        if (mid as u128) * (mid as u128) <= n {
            lo = mid;
        } else {
            hi = mid;
        }
    }
    proof {
        lemma_sqrt_floor_unique(n as int, lo as int);
    }
    lo
}

/// Floor cube root, by binary search.
pub fn icbrt(n: u128) -> (r: u64)
    requires
        n < ROOT_ARG_LIMIT,
    ensures
        is_cbrt_floor(n as int, r as int),
        r == cbrt_floor(n as int),
{
    let mut lo: u64 = 0;
    let mut hi: u64 = 0x400_0000_0000;
    proof {
        assert(cube(hi as int) == ROOT_ARG_LIMIT) by (nonlinear_arith)
            requires
                hi == 0x400_0000_0000u64,
        ;
    }
    while lo + 1 < hi
        invariant
            lo < hi,
            hi <= 0x400_0000_0000u64,
            cube(lo as int) <= n as int,
            (n as int) < cube(hi as int),
        decreases hi - lo,
    {
        let mid: u64 = lo + (hi - lo) / 2;
        proof {
            assert((mid as int) * (mid as int) < ROOT_ARG_LIMIT && (mid as int) * (mid as int)
                * (mid as int) < ROOT_ARG_LIMIT) by (nonlinear_arith)
                requires
                    mid < 0x400_0000_0000u64,
            ;
        }
        let sq: u128 = (mid as u128) * (mid as u128);
        if sq * (mid as u128) <= n {
            lo = mid;
        } else {
            hi = mid;
        }
    }
    proof {
        lemma_cbrt_floor_unique(n as int, lo as int);
    }
    lo
}

/// Squared distance between two points whose components are small enough
/// that the squares cannot overflow.
pub fn dist_sq_exec(a: Vec2, b: Vec2) -> (r: u128)
    requires
        abs_val(a.x as int) <= 0x4000_0000,
        abs_val(a.y as int) <= 0x4000_0000,
        abs_val(b.x as int) <= 0x4000_0000,
        abs_val(b.y as int) <= 0x4000_0000,
    ensures
        r as int == dist_sq(a, b),
{
    let dx: i64 = b.x - a.x;
    let dy: i64 = b.y - a.y;
    proof {
        assert((dx as int) * (dx as int) + (dy as int) * (dy as int) <= 0x8000_0000_0000_0000int
            && 0 <= (dx as int) * (dx as int) && 0 <= (dy as int) * (dy as int)) by (nonlinear_arith)
            requires
                abs_val(dx as int) <= 0x8000_0000int,
                abs_val(dy as int) <= 0x8000_0000int,
        ;
    }
    let sx: i128 = (dx as i128) * (dx as i128);
    let sy: i128 = (dy as i128) * (dy as i128);
    (sx as u128) + (sy as u128)
}

/// Saturate a wide intermediate into `[-bound, bound]`.
pub fn clamp_to_i64(x: i128, bound: i64) -> (r: i64)
    requires
        0 <= bound,
    ensures
        r as int == clamped(x as int, bound as int),
{
    if x < -(bound as i128) {
        -bound
    } else if x > bound as i128 {
        bound
    } else {
        x as i64
    }
}

} // verus!
