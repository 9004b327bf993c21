use vstd::prelude::*;
use vstd::arithmetic::div_mod::{lemma_fundamental_div_mod, lemma_mod_bound};

verus! {

/// Length of a unit heading in fixed-point units.
pub const UNIT: i64 = 1024;

/// Vectors whose components are both below this are scaled up by it before
/// normalisation, so that the integer square root is large enough to be precise.
pub const SMALL: i64 = 1048576;

/// Largest magnitude of a component that `normalize` accepts.
pub const MAX_COMPONENT: i64 = 0x1000_0000_0000_0000;

/// A 2D vector of fixed-point integer components.
#[derive(Clone, Copy, PartialEq, Eq, Structural, Debug)]
pub struct Vec2 {
    pub x: i64,
    pub y: i64,
}

pub open spec fn abs(a: int) -> int {
    if a >= 0 { a } else { -a }
}

/// Division rounding toward zero, as Rust's integer division does.
pub open spec fn tdiv(a: int, d: int) -> int {
    if a >= 0 { a / d } else { -((-a) / d) }
}

pub open spec fn norm2(x: int, y: int) -> int {
    x * x + y * y
}

pub open spec fn dot(ax: int, ay: int, bx: int, by: int) -> int {
    ax * bx + ay * by
}

pub open spec fn is_floor_sqrt(n: int, r: int) -> bool {
    0 <= r && r * r <= n && n < (r + 1) * (r + 1)
}

/// The largest integer whose square does not exceed `n`.
pub open spec fn floor_sqrt(n: int) -> int {
    choose|r: int| is_floor_sqrt(n, r)
}

/// The factor a vector is scaled by before it is normalised.
pub open spec fn prescale(x: int, y: int) -> int {
    if abs(x) < SMALL && abs(y) < SMALL { SMALL as int } else { 1 }
}

/// The length used to normalise `(x, y)`.
pub open spec fn scaled_len(x: int, y: int) -> int {
    let k = prescale(x, y);
    floor_sqrt(norm2(k * x, k * y))
}

/// One component of the normalised vector.
pub open spec fn unit_component(c: int, x: int, y: int) -> int {
    tdiv(prescale(x, y) * c * UNIT, scaled_len(x, y))
}

/// The direction of `v` as a heading of length `UNIT`, or `None` for the zero vector.
pub open spec fn unit_of(v: Vec2) -> Option<Vec2> {
    if v.x == 0 && v.y == 0 {
        None
    } else {
        Some(
            Vec2 {
                x: unit_component(v.x as int, v.x as int, v.y as int) as i64,
                y: unit_component(v.y as int, v.x as int, v.y as int) as i64,
            },
        )
    }
}

/// A heading of length `UNIT` within the rounding of integer normalisation:
/// its squared length exceeds `UNIT * UNIT` by at most 2, and rounding each
/// component away from zero by one makes it longer than `UNIT`.
pub open spec fn near_unit(h: Vec2) -> bool {
    &&& norm2(h.x as int, h.y as int) <= UNIT * UNIT + 2
    &&& norm2(abs(h.x as int) + 1, abs(h.y as int) + 1) > UNIT * UNIT
    &&& abs(h.x as int) <= UNIT
    &&& abs(h.y as int) <= UNIT
}

pub open spec fn bounded(v: Vec2, m: int) -> bool {
    abs(v.x as int) <= m && abs(v.y as int) <= m
}

pub proof fn lemma_floor_sqrt_unique(n: int, r: int)
    requires
        is_floor_sqrt(n, r),
    ensures
        floor_sqrt(n) == r,
{
    let s = floor_sqrt(n);
    assert(is_floor_sqrt(n, s));
    if s < r {
        assert((s + 1) * (s + 1) <= r * r) by (nonlinear_arith)
            requires
                0 <= s,
                s + 1 <= r,
        ;
    } else if r < s {
        assert((r + 1) * (r + 1) <= s * s) by (nonlinear_arith)
            requires
                0 <= r,
                r + 1 <= s,
        ;
    }
}

proof fn lemma_div_bounds(n: int, d: int)
    requires
        0 <= n,
        0 < d,
    ensures
        0 <= n / d,
        (n / d) * d <= n,
        n < (n / d + 1) * d,
{
    lemma_fundamental_div_mod(n, d);
    lemma_mod_bound(n, d);
    let q = n / d;
    assert(q * d == d * q && (q + 1) * d == d * q + d) by (nonlinear_arith);
    assert(0 <= q) by (nonlinear_arith)
        requires
            d * q > -d,
            d > 0,
    ;
}

/// Division toward zero keeps the sign and divides the magnitude.
pub proof fn lemma_abs_tdiv(c: int, d: int)
    requires
        0 < d,
    ensures
        abs(tdiv(c, d)) == abs(c) / d,
        c >= 0 ==> tdiv(c, d) >= 0,
        c <= 0 ==> tdiv(c, d) <= 0,
{
    lemma_div_bounds(abs(c), d);
}

proof fn lemma_square_le(a: int, b: int)
    requires
        0 <= a <= b,
    ensures
        a * a <= b * b,
{
    assert(a * a <= b * b) by (nonlinear_arith)
        requires
            0 <= a <= b,
    ;
}

proof fn lemma_square_lt(a: int, b: int)
    requires
        0 <= a < b,
    ensures
        a * a < b * b,
{
    assert(a * a < b * b) by (nonlinear_arith)
        requires
            0 <= a < b,
    ;
}

/// Facts about one component `c` of a vector of squared length `n`, normalised by
/// `len = floor_sqrt(n)`: with `q = |c| * UNIT / len`, bounds on `q` and its square.
proof fn lemma_component(c: int, n: int, len: int)
    requires
        is_floor_sqrt(n, len),
        len > 0,
        c * c <= n,
    ensures
        ({
            let q = abs(c) * UNIT / len;
            &&& 0 <= q <= UNIT
            &&& q * q * (len * len) <= c * c * (UNIT * UNIT)
            &&& (q + 1) * (q + 1) * (len * len) > c * c * (UNIT * UNIT)
        }),
{
    let a = abs(c);
    let u = UNIT as int;
    assert(a * a == c * c) by (nonlinear_arith)
        requires
            a == abs(c),
    ;
    lemma_div_bounds(a * u, len);
    let q = a * u / len;
    if a > len {
        lemma_square_le(len + 1, a);
    }
    assert(a * u <= len * u) by (nonlinear_arith)
        requires
            0 <= a <= len,
            u > 0,
    ;
    assert(q <= u) by (nonlinear_arith)
        requires
            q * len <= len * u,
            len > 0,
    ;
    assert(q * len <= a * u);
    lemma_square_le(q * len, a * u);
    assert(q * q * (len * len) == (q * len) * (q * len)) by (nonlinear_arith);
    assert(c * c * (u * u) == (a * u) * (a * u)) by (nonlinear_arith)
        requires
            a * a == c * c,
    ;
    lemma_square_lt(a * u, (q + 1) * len);
    assert((q + 1) * (q + 1) * (len * len) == ((q + 1) * len) * ((q + 1) * len))
        by (nonlinear_arith);
}

/// The bounds that make a normalised vector `near_unit`.
proof fn lemma_unit_parts(x: int, y: int, len: int)
    requires
        norm2(x, y) >= SMALL * SMALL,
        is_floor_sqrt(norm2(x, y), len),
    ensures
        len >= SMALL,
        ({
            let hx = tdiv(x * UNIT, len);
            let hy = tdiv(y * UNIT, len);
            &&& abs(hx) <= UNIT
            &&& abs(hy) <= UNIT
            &&& norm2(hx, hy) <= UNIT * UNIT + 2
            &&& norm2(abs(hx) + 1, abs(hy) + 1) > UNIT * UNIT
            &&& (x >= 0 ==> hx >= 0) && (x <= 0 ==> hx <= 0)
            &&& (y >= 0 ==> hy >= 0) && (y <= 0 ==> hy <= 0)
        }),
{
    let n = norm2(x, y);
    let u = UNIT as int;
    let s = SMALL as int;
    if len < s {
        lemma_square_le(len + 1, s);
    }
    assert(x * x >= 0 && y * y >= 0) by (nonlinear_arith);
    lemma_component(x, n, len);
    lemma_component(y, n, len);
    let hx = tdiv(x * u, len);
    let hy = tdiv(y * u, len);
    lemma_abs_tdiv(x * u, len);
    lemma_abs_tdiv(y * u, len);
    assert(abs(x * u) == abs(x) * u) by (nonlinear_arith)
        requires
            u > 0,
    ;
    assert(abs(y * u) == abs(y) * u) by (nonlinear_arith)
        requires
            u > 0,
    ;
    assert(x >= 0 ==> x * u >= 0) by (nonlinear_arith)
        requires
            u > 0,
    ;
    assert(x <= 0 ==> x * u <= 0) by (nonlinear_arith)
        requires
            u > 0,
    ;
    assert(y >= 0 ==> y * u >= 0) by (nonlinear_arith)
        requires
            u > 0,
    ;
    assert(y <= 0 ==> y * u <= 0) by (nonlinear_arith)
        requires
            u > 0,
    ;
    let qa = abs(x) * u / len;
    let qb = abs(y) * u / len;
    assert(abs(hx) == qa && abs(hy) == qb);
    assert(hx * hx == qa * qa && hy * hy == qb * qb) by (nonlinear_arith)
        requires
            abs(hx) == qa,
            abs(hy) == qb,
    ;
    let l2 = len * len;
    // upper bound
    assert((qa * qa + qb * qb) * l2 <= n * (u * u)) by (nonlinear_arith)
        requires
            qa * qa * l2 <= x * x * (u * u),
            qb * qb * l2 <= y * y * (u * u),
            n == x * x + y * y,
    ;
    assert(n * (u * u) < (len + 1) * (len + 1) * (u * u)) by (nonlinear_arith)
        requires
            n < (len + 1) * (len + 1),
            u > 0,
    ;
    assert(qa * qa + qb * qb <= u * u + 2) by (nonlinear_arith)
        requires
            (qa * qa + qb * qb) * (len * len) < (len + 1) * (len + 1) * (u * u),
            u * u == 1048576,
            len >= 1048576,
    ;
    // lower bound
    assert(((qa + 1) * (qa + 1) + (qb + 1) * (qb + 1)) * l2 > n * (u * u)) by (nonlinear_arith)
        requires
            (qa + 1) * (qa + 1) * l2 > x * x * (u * u),
            (qb + 1) * (qb + 1) * l2 > y * y * (u * u),
            n == x * x + y * y,
    ;
    assert((qa + 1) * (qa + 1) + (qb + 1) * (qb + 1) > u * u) by (nonlinear_arith)
        requires
            ((qa + 1) * (qa + 1) + (qb + 1) * (qb + 1)) * (len * len) > n * (u * u),
            len * len <= n,
            len > 0,
            u > 0,
    ;
}

/// Rounds `a / d` toward zero.
pub fn div_toward_zero(a: i128, d: i128) -> (r: i128)
    requires
        d > 0,
        a > i128::MIN,
    ensures
        r == tdiv(a as int, d as int),
{
    if a >= 0 {
        a / d
    } else {
        let q = (-a) / d;
        -q
    }
}

/// The integer square root of `n`.
pub fn isqrt(n: u128) -> (r: u128)
    requires
        n < 0x4000_0000_0000_0000_0000_0000_0000_0000,
    ensures
        is_floor_sqrt(n as int, r as int),
{
    let mut lo: u128 = 0;
    let mut hi: u128 = 0x8000_0000_0000_0000;
    assert(hi * hi == 0x4000_0000_0000_0000_0000_0000_0000_0000) by (nonlinear_arith)
        requires
            hi == 0x8000_0000_0000_0000u128,
    ;
    while hi - lo > 1
        invariant
            lo < hi <= 0x8000_0000_0000_0000,
            lo * lo <= n,
            n < hi * hi,
        decreases hi - lo,
    {
        let mid = lo + (hi - lo) / 2;
        assert(mid * mid <= 0x4000_0000_0000_0000_0000_0000_0000_0000) by (nonlinear_arith)
            requires
                mid <= 0x8000_0000_0000_0000,
        ;
        if mid * mid <= n {
            lo = mid;
        } else {
            hi = mid;
        }
    }
    lo
}

/// Nonzero components of `h` and `v` agree in sign, and `h` is not zero: so
/// `h` points along `v`.
proof fn lemma_points_along(hx: int, hy: int, vx: int, vy: int)
    requires
        (vx >= 0 ==> hx >= 0) && (vx <= 0 ==> hx <= 0),
        (vy >= 0 ==> hy >= 0) && (vy <= 0 ==> hy <= 0),
        hx != 0 || hy != 0,
    ensures
        dot(hx, hy, vx, vy) > 0,
{
    assert(hx * vx >= 0 && hy * vy >= 0 && (hx * vx > 0 || hy * vy > 0)) by (nonlinear_arith)
        requires
            (vx >= 0 ==> hx >= 0) && (vx <= 0 ==> hx <= 0),
            (vy >= 0 ==> hy >= 0) && (vy <= 0 ==> hy <= 0),
            hx != 0 || hy != 0,
    ;
}

proof fn lemma_floor_sqrt_exists(n: int)
    requires
        0 <= n,
    ensures
        is_floor_sqrt(n, floor_sqrt(n)),
    decreases n,
{
    if n == 0 {
        assert(is_floor_sqrt(0, 0));
    } else {
        lemma_floor_sqrt_exists(n - 1);
        let r = floor_sqrt(n - 1);
        if (r + 1) * (r + 1) <= n {
            assert((r + 2) * (r + 2) > n) by (nonlinear_arith)
                requires
                    (r + 1) * (r + 1) <= n,
                    n - 1 < (r + 1) * (r + 1),
                    r >= 0,
            ;
            assert(is_floor_sqrt(n, r + 1));
        } else {
            assert(is_floor_sqrt(n, r));
        }
    }
}

/// A nonzero vector has a direction: `unit_of` gives a heading of unit length
/// that points along it.
pub proof fn lemma_unit_of(v: Vec2)
    requires
        bounded(v, MAX_COMPONENT as int),
        v.x != 0 || v.y != 0,
    ensures
        unit_of(v) matches Some(h) && near_unit(h) && dot(h.x as int, h.y as int, v.x as int, v.y as int) > 0,
        norm2(prescale(v.x as int, v.y as int) * v.x, prescale(v.x as int, v.y as int) * v.y) >= SMALL
            * SMALL,
{
    let vx = v.x as int;
    let vy = v.y as int;
    let k = prescale(vx, vy);
    let sx = k * vx;
    let sy = k * vy;
    assert(abs(sx) >= SMALL || abs(sy) >= SMALL) by (nonlinear_arith)
        requires
            k == 1 ==> (abs(vx) >= SMALL || abs(vy) >= SMALL),
            k == SMALL ==> (vx != 0 || vy != 0),
            k == 1 || k == SMALL,
            sx == k * vx,
            sy == k * vy,
            SMALL > 0,
    ;
    assert(norm2(sx, sy) >= SMALL * SMALL) by (nonlinear_arith)
        requires
            abs(sx) >= SMALL || abs(sy) >= SMALL,
            SMALL > 0,
    ;
    let n = norm2(sx, sy);
    lemma_floor_sqrt_exists(n);
    let len = floor_sqrt(n);
    lemma_unit_parts(sx, sy, len);
    assert(sx * UNIT == k * vx * UNIT && sy * UNIT == k * vy * UNIT) by (nonlinear_arith)
        requires
            sx == k * vx,
            sy == k * vy,
    ;
    let hx = tdiv(sx * UNIT, len);
    let hy = tdiv(sy * UNIT, len);
    assert((sx >= 0 <==> vx >= 0) && (sx <= 0 <==> vx <= 0) && (sy >= 0 <==> vy >= 0) && (sy <= 0
        <==> vy <= 0)) by (nonlinear_arith)
        requires
            sx == k * vx,
            sy == k * vy,
            k > 0,
    ;
    if hx == 0 && hy == 0 {
        assert(norm2(1, 1) == 2);
    }
    lemma_points_along(hx, hy, vx, vy);
    let h = unit_of(v).unwrap();
    assert(h.x == hx && h.y == hy);
}

/// The direction of `v` as a heading of length `UNIT`; `None` for the zero vector.
pub fn normalize(v: Vec2) -> (r: Option<Vec2>)
    requires
        bounded(v, MAX_COMPONENT as int),
    ensures
        r == unit_of(v),
        r is None <==> (v.x == 0 && v.y == 0),
        r matches Some(h) ==> near_unit(h) && dot(h.x as int, h.y as int, v.x as int, v.y as int) > 0,
{
    if v.x == 0 && v.y == 0 {
        return None;
    }
    proof {
        lemma_unit_of(v);
    }
    let small: i128 = SMALL as i128;
    let vx: i128 = v.x as i128;
    let vy: i128 = v.y as i128;
    let k: i128 = if -small < vx && vx < small && -small < vy && vy < small {
        small
    } else {
        1
    };
    assert(k == prescale(vx as int, vy as int));
    proof {
        assert(abs(k * vx) <= MAX_COMPONENT && abs(k * vy) <= MAX_COMPONENT) by (nonlinear_arith)
            requires
                k == 1 || (k == SMALL && abs(vx as int) < SMALL && abs(vy as int) < SMALL),
                abs(vx as int) <= MAX_COMPONENT,
                abs(vy as int) <= MAX_COMPONENT,
                SMALL == 0x10_0000,
                MAX_COMPONENT == 0x1000_0000_0000_0000,
        ;
    }
    let sx: i128 = k * vx;
    let sy: i128 = k * vy;
    proof {
        assert(0 <= sx * sx <= MAX_COMPONENT * MAX_COMPONENT && 0 <= sy * sy <= MAX_COMPONENT
            * MAX_COMPONENT) by (nonlinear_arith)
            requires
                abs(sx as int) <= MAX_COMPONENT,
                abs(sy as int) <= MAX_COMPONENT,
        ;
        assert(abs(sx * UNIT) <= MAX_COMPONENT * UNIT && abs(sy * UNIT) <= MAX_COMPONENT * UNIT)
            by (nonlinear_arith)
            requires
                abs(sx as int) <= MAX_COMPONENT,
                abs(sy as int) <= MAX_COMPONENT,
        ;
        assert(sx * UNIT == k * vx * UNIT && sy * UNIT == k * vy * UNIT) by (nonlinear_arith)
            requires
                sx == k * vx,
                sy == k * vy,
        ;
    }
    let n: u128 = (sx * sx + sy * sy) as u128;
    let len: u128 = isqrt(n);
    proof {
        lemma_floor_sqrt_unique(n as int, len as int);
        if len >= 0x4000_0000_0000_0000 {
            lemma_square_le(0x4000_0000_0000_0000, len as int);
        }
        lemma_unit_parts(sx as int, sy as int, len as int);
    }
    let hx: i128 = div_toward_zero(sx * (UNIT as i128), len as i128);
    let hy: i128 = div_toward_zero(sy * (UNIT as i128), len as i128);
    Some(Vec2 { x: hx as i64, y: hy as i64 })
}

} // verus!
