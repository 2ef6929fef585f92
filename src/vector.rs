//! Fixed-point 3D vectors and the speed limit that every velocity obeys.

use vstd::arithmetic::div_mod::{lemma_div_is_ordered, lemma_div_multiples_vanish, lemma_fundamental_div_mod};
use vstd::prelude::*;

verus! {

/// Milli-units per unit of distance: a coordinate of `SCALE` is one unit.
pub const SCALE: i64 = 1000;

/// The largest speed an agent may have, in milli-units per tick.
pub const MAX_SPEED: i64 = 1000;

/// A point or a displacement, each coordinate in milli-units.
#[derive(Clone, Copy, Debug, PartialEq, Eq, Structural)]
pub struct IVec3 {
    pub x: i64,
    pub y: i64,
    pub z: i64,
}

impl IVec3 {
    pub open spec fn view(&self) -> (int, int, int) {
        (self.x as int, self.y as int, self.z as int)
    }

    pub fn new(x: i64, y: i64, z: i64) -> (r: IVec3)
        ensures
            r@ == (x as int, y as int, z as int),
    {
        IVec3 { x, y, z }
    }

    pub fn zero() -> (r: IVec3)
        ensures
            r@ == (0int, 0int, 0int),
    {
        IVec3 { x: 0, y: 0, z: 0 }
    }

    pub fn is_zero(&self) -> (r: bool)
        ensures
            r == (self@ == (0int, 0int, 0int)),
    {
        self.x == 0 && self.y == 0 && self.z == 0
    }
}

/// Component-wise sum.
pub open spec fn vadd(a: (int, int, int), b: (int, int, int)) -> (int, int, int) {
    (a.0 + b.0, a.1 + b.1, a.2 + b.2)
}

/// Component-wise difference.
pub open spec fn vsub(a: (int, int, int), b: (int, int, int)) -> (int, int, int) {
    (a.0 - b.0, a.1 - b.1, a.2 - b.2)
}

/// The squared Euclidean length.
pub open spec fn norm_sq(t: (int, int, int)) -> int {
    t.0 * t.0 + t.1 * t.1 + t.2 * t.2
}

/// Division rounding toward zero, as integer division does in Rust.
pub open spec fn trunc_div(n: int, d: int) -> int {
    if n >= 0 {
        n / d
    } else {
        -((-n) / d)
    }
}

/// `r` is the smallest non-negative integer whose square is at least `n`.
pub open spec fn is_ceil_sqrt(n: int, r: int) -> bool {
    r >= 0 && r * r >= n && (r == 0 || (r - 1) * (r - 1) < n)
}

/// The ceiling of the square root of `n`.
pub open spec fn ceil_sqrt(n: int) -> int {
    choose|r: int| is_ceil_sqrt(n, r)
}

/// A velocity limited to `MAX_SPEED`: unchanged when it is no faster,
/// otherwise each component scaled by `MAX_SPEED / ceil_sqrt(|v|^2)`,
/// rounded toward zero, which keeps the direction up to rounding.
pub open spec fn clamp_speed(t: (int, int, int)) -> (int, int, int) {
    let l = norm_sq(t);
    if l <= MAX_SPEED * MAX_SPEED {
        t
    } else {
        let s = ceil_sqrt(l);
        (
            trunc_div(t.0 * MAX_SPEED, s),
            trunc_div(t.1 * MAX_SPEED, s),
            trunc_div(t.2 * MAX_SPEED, s),
        )
    }
}

/// Every non-negative integer has a ceiling square root.
pub proof fn lemma_ceil_sqrt(n: int)
    requires
        n >= 0,
    ensures
        is_ceil_sqrt(n, ceil_sqrt(n)),
    decreases n,
{
    if n == 0 {
        assert(is_ceil_sqrt(0, 0));
    } else {
        lemma_ceil_sqrt(n - 1);
        let r = ceil_sqrt(n - 1);
        if r * r >= n {
            assert(is_ceil_sqrt(n, r));
        } else {
            assert((r + 1) * (r + 1) >= n) by (nonlinear_arith)
                requires
                    r * r >= n - 1,
                    r >= 0,
            ;
            assert(is_ceil_sqrt(n, r + 1));
        }
    }
}

/// The ceiling square root is unique.
pub proof fn lemma_ceil_sqrt_unique(n: int, r: int)
    requires
        n >= 0,
        is_ceil_sqrt(n, r),
    ensures
        r == ceil_sqrt(n),
{
    lemma_ceil_sqrt(n);
    let c = ceil_sqrt(n);
    if r < c {
        assert(r * r <= (c - 1) * (c - 1)) by (nonlinear_arith)
            requires
                0 <= r <= c - 1,
        ;
    } else if c < r {
        assert(c * c <= (r - 1) * (r - 1)) by (nonlinear_arith)
            requires
                0 <= c <= r - 1,
        ;
    }
}

proof fn lemma_square_monotone(a: int, b: int)
    requires
        0 <= a <= b,
    ensures
        a * a <= b * b,
{
    assert(a * a <= b * b) by (nonlinear_arith)
        requires
            0 <= a <= b,
    ;
}

/// A quotient rounded toward zero, times the divisor, is no larger than the dividend in absolute value.
proof fn lemma_trunc_div_square(n: int, d: int)
    requires
        d > 0,
    ensures
        trunc_div(n, d) * trunc_div(n, d) * (d * d) <= n * n,
{
    let m = if n >= 0 { n } else { -n };
    lemma_fundamental_div_mod(m, d);
    let q = m / d;
    assert(0 <= q * d <= m) by (nonlinear_arith)
        requires
            m == d * q + m % d,
            0 <= m % d < d,
            m >= 0,
            d > 0,
    ;
    lemma_square_monotone(q * d, m);
    let t = trunc_div(n, d);
    assert(t == q || t == -q);
    assert(t * t * (d * d) == (q * d) * (q * d)) by (nonlinear_arith)
        requires
            t == q || t == -q,
    ;
    assert(n * n == m * m) by (nonlinear_arith)
        requires
            m == n || m == -n,
    ;
}

/// A clamped velocity is never faster than `MAX_SPEED`.
pub proof fn lemma_clamp_speed_bounded(t: (int, int, int))
    ensures
        norm_sq(clamp_speed(t)) <= MAX_SPEED * MAX_SPEED,
{
    let l = norm_sq(t);
    if l > MAX_SPEED * MAX_SPEED {
        assert(l >= 0) by (nonlinear_arith)
            requires
                l == t.0 * t.0 + t.1 * t.1 + t.2 * t.2,
        ;
        lemma_ceil_sqrt(l);
        let s = ceil_sqrt(l);
        assert(s > 0) by (nonlinear_arith)
            requires
                s >= 0,
                s * s >= l,
                l > 0,
        ;
        let m = MAX_SPEED as int;
        let c = clamp_speed(t);
        lemma_trunc_div_square(t.0 * m, s);
        lemma_trunc_div_square(t.1 * m, s);
        lemma_trunc_div_square(t.2 * m, s);
        let ss = s * s;
        let mm = m * m;
        let (a0, a1, a2) = (c.0 * c.0, c.1 * c.1, c.2 * c.2);
        assert((t.0 * m) * (t.0 * m) == (t.0 * t.0) * mm) by (nonlinear_arith)
            requires
                mm == m * m,
        ;
        assert((t.1 * m) * (t.1 * m) == (t.1 * t.1) * mm) by (nonlinear_arith)
            requires
                mm == m * m,
        ;
        assert((t.2 * m) * (t.2 * m) == (t.2 * t.2) * mm) by (nonlinear_arith)
            requires
                mm == m * m,
        ;
        assert((a0 + a1 + a2) * ss == a0 * ss + a1 * ss + a2 * ss) by (nonlinear_arith);
        assert(l * mm == (t.0 * t.0) * mm + (t.1 * t.1) * mm + (t.2 * t.2) * mm) by (nonlinear_arith)
            requires
                l == t.0 * t.0 + t.1 * t.1 + t.2 * t.2,
        ;
        assert(norm_sq(c) * (s * s) <= l * (m * m));
        assert(norm_sq(c) <= m * m) by (nonlinear_arith)
            requires
                norm_sq(c) * (s * s) <= l * (m * m),
                l <= s * s,
                s > 0,
        ;
    }
}

/// The ceiling of the square root of `n`, by bisection.
pub fn ceil_sqrt_u128(n: u128) -> (r: u128)
    ensures
        is_ceil_sqrt(n as int, r as int),
        r <= 0x1_0000_0000_0000_0000u128,
{
    if n == 0 {
        return 0;
    }
    let mut lo: u128 = 0;
    let mut hi: u128 = 0x1_0000_0000_0000_0000;
    assert(hi * hi > n);
    while hi - lo > 1
        invariant
            lo < hi <= 0x1_0000_0000_0000_0000u128,
            lo * lo < n,
            n <= hi * hi,
        decreases hi - lo,
    {
        let mid = lo + (hi - lo) / 2;
        assert(mid * mid < 0x1_0000_0000_0000_0000_0000_0000_0000_0000int) by (nonlinear_arith)
            requires
                0 <= mid < 0x1_0000_0000_0000_0000int,
        ;
        if mid * mid >= n {
            hi = mid;
        } else {
            lo = mid;
        }
    }
    hi
}

/// The squared length, exact for every `IVec3`.
pub fn length_sq(v: IVec3) -> (r: u128)
    ensures
        r == norm_sq(v@),
{
    let x = v.x as i128;
    let y = v.y as i128;
    let z = v.z as i128;
    assert(0 <= x * x <= 0x4000_0000_0000_0000_0000_0000_0000_0000int) by (nonlinear_arith)
        requires
            -0x8000_0000_0000_0000int <= x <= 0x7fff_ffff_ffff_ffffint,
    ;
    assert(0 <= y * y <= 0x4000_0000_0000_0000_0000_0000_0000_0000int) by (nonlinear_arith)
        requires
            -0x8000_0000_0000_0000int <= y <= 0x7fff_ffff_ffff_ffffint,
    ;
    assert(0 <= z * z <= 0x4000_0000_0000_0000_0000_0000_0000_0000int) by (nonlinear_arith)
        requires
            -0x8000_0000_0000_0000int <= z <= 0x7fff_ffff_ffff_ffffint,
    ;
    ((x * x) as u128) + ((y * y) as u128) + ((z * z) as u128)
}

/// One component scaled by `MAX_SPEED / s`, rounded toward zero.
fn scale_component(c: i64, s: u128) -> (r: i64)
    requires
        0 < s <= 0x1_0000_0000_0000_0000u128,
        c * c <= s * s,
    ensures
        r == trunc_div(c * MAX_SPEED, s as int),
{
    let m = MAX_SPEED as i128;
    let d = s as i128;
    let mag: i128 = if c >= 0 { c as i128 } else { -(c as i128) };
    assert(mag * mag == c * c) by (nonlinear_arith)
        requires
            mag == c || mag == -c,
    ;
    assert(mag <= d) by (nonlinear_arith)
        requires
            mag * mag <= d * d,
            mag >= 0,
            d > 0,
    ;
    let num = mag * m;
    proof {
        lemma_div_is_ordered(num as int, d * m, d as int);
        lemma_div_multiples_vanish(m as int, d as int);
    }
    let q = num / d;
    assert(q <= m);
    if c >= 0 {
        q as i64
    } else {
        (-q) as i64
    }
}

/// `v` limited to `MAX_SPEED` (see `clamp_speed`).
pub fn clamp_magnitude(v: IVec3) -> (r: IVec3)
    ensures
        r@ == clamp_speed(v@),
        norm_sq(r@) <= MAX_SPEED * MAX_SPEED,
{
    proof {
        lemma_clamp_speed_bounded(v@);
    }
    let l = length_sq(v);
    if l <= (MAX_SPEED as u128) * (MAX_SPEED as u128) {
        v
    } else {
        let s = ceil_sqrt_u128(l);
        proof {
            lemma_ceil_sqrt_unique(l as int, s as int);
            let (x, y, z) = v@;
            assert(x * x <= s * s && y * y <= s * s && z * z <= s * s) by (nonlinear_arith)
                requires
                    x * x + y * y + z * z <= s * s,
            ;
        }
        IVec3 { x: scale_component(v.x, s), y: scale_component(v.y, s), z: scale_component(v.z, s) }
    }
}

} // verus!
