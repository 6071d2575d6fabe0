//! Fixed-point points, velocities and the integer square root they need.

use vstd::prelude::*;

verus! {

/// A position or offset, each coordinate in thousandths of a world unit.
#[derive(Clone, Copy, Debug, PartialEq, Eq, Structural)]
pub struct Point {
    pub x: i32,
    pub y: i32,
    pub z: i32,
}

/// A linear velocity, each component in thousandths of a world unit per second.
#[derive(Clone, Copy, Debug, PartialEq, Eq, Structural)]
pub struct Velocity {
    pub x: i64,
    pub y: i64,
    pub z: i64,
}

impl Velocity {
    /// The square of the speed in the horizontal plane.
    pub open spec fn planar_sq(self) -> int {
        self.x * self.x + self.z * self.z
    }
}

/// Whether `r` is the square root of `n` rounded down.
pub open spec fn is_sqrt_floor(n: nat, r: nat) -> bool {
    r * r <= n < (r + 1) * (r + 1)
}

/// The largest `r` with `r * r <= n`.
pub open spec fn sqrt_floor(n: nat) -> nat {
    choose|r: nat| is_sqrt_floor(n, r)
}

/// Squares are monotone on the naturals.
pub proof fn lemma_square_monotone(a: nat, b: nat)
    requires
        a <= b,
    ensures
        a * a <= b * b,
{
    assert(a * a <= b * b) by (nonlinear_arith)
        requires
            a <= b,
    ;
}

/// At most one natural number lies in the square-root window of `n`.
pub proof fn lemma_sqrt_unique(n: nat, r: nat, s: nat)
    requires
        is_sqrt_floor(n, r),
        is_sqrt_floor(n, s),
    ensures
        r == s,
{
    if r < s {
        lemma_square_monotone(r + 1, s);
    } else if s < r {
        lemma_square_monotone(s + 1, r);
    }
}

/// Whoever finds a number in the square-root window of `n` has found `sqrt_floor(n)`.
pub proof fn lemma_sqrt_floor_is(n: nat, r: nat)
    requires
        is_sqrt_floor(n, r),
    ensures
        sqrt_floor(n) == r,
{
    let s = sqrt_floor(n);
    lemma_sqrt_unique(n, r, s);
}

/// Every natural number has a square root rounded down.
pub proof fn lemma_sqrt_floor_exists(n: nat)
    ensures
        is_sqrt_floor(n, sqrt_floor(n)),
    decreases n,
{
    if n == 0 {
        let zero: nat = 0;
        assert(zero * zero <= 0 < (zero + 1) * (zero + 1)) by (nonlinear_arith)
            requires
                zero == 0,
        ;
        assert(is_sqrt_floor(0, zero));
    } else {
        lemma_sqrt_floor_exists((n - 1) as nat);
        let r = sqrt_floor((n - 1) as nat);
        if n < (r + 1) * (r + 1) {
            assert(is_sqrt_floor(n, r));
        } else {
            assert(n == (r + 1) * (r + 1));
            assert((r + 1) * (r + 1) < (r + 2) * (r + 2)) by (nonlinear_arith);
            assert(is_sqrt_floor(n, r + 1));
        }
    }
}

/// Integer square root of a 128-bit number, rounded down.
pub fn isqrt(n: u128) -> (r: u64)
    ensures
        r == sqrt_floor(n as nat),
        is_sqrt_floor(n as nat, r as nat),
{
    let mut lo: u128 = 0;
    let mut hi: u128 = 0x1_0000_0000_0000_0000;
    assert(hi * hi > n) by (nonlinear_arith)
        requires
            hi == 0x1_0000_0000_0000_0000u128,
            n <= u128::MAX,
    ;
    while hi - lo > 1
        invariant
            lo < hi <= 0x1_0000_0000_0000_0000,
            lo * lo <= n < hi * hi,
        decreases hi - lo,
    {
        let mid: u128 = lo + (hi - lo) / 2;
        assert(mid * mid <= 0xffff_ffff_ffff_ffff * 0xffff_ffff_ffff_ffff) by (nonlinear_arith)
            requires
                mid <= 0xffff_ffff_ffff_ffff,
        ;
        if mid * mid <= n {
            lo = mid;
        } else {
            hi = mid;
        }
    }
    proof {
        lemma_sqrt_floor_is(n as nat, lo as nat);
    }
    lo as u64
}

/// Squared straight-line distance between two points.
pub open spec fn dist_sq(a: Point, b: Point) -> int {
    (b.x - a.x) * (b.x - a.x) + (b.y - a.y) * (b.y - a.y) + (b.z - a.z) * (b.z - a.z)
}

/// Squared distance between two points, measured in the horizontal plane only.
pub open spec fn planar_dist_sq(a: Point, b: Point) -> int {
    (b.x - a.x) * (b.x - a.x) + (b.z - a.z) * (b.z - a.z)
}

/// The square of a coordinate difference fits comfortably in 128 bits.
pub proof fn lemma_square_bound(d: int)
    requires
        -0x1_0000_0000 < d < 0x1_0000_0000,
    ensures
        0 <= d * d <= 0xffff_ffff * 0xffff_ffff,
{
    assert(0 <= d * d <= 0xffff_ffff * 0xffff_ffff) by (nonlinear_arith)
        requires
            -0x1_0000_0000 < d < 0x1_0000_0000,
    ;
}

/// The absolute value of a signed number.
pub fn magnitude(d: i64) -> (m: u64)
    ensures
        m == if d >= 0 { d as int } else { -d },
{
    if d >= 0 {
        d as u64
    } else {
        (-(d + 1)) as u64 + 1
    }
}

/// The square of the difference of two coordinates.
pub fn square_diff(a: i32, b: i32) -> (r: u128)
    ensures
        r == (b - a) * (b - a),
        r <= 0xffff_ffff * 0xffff_ffff,
{
    let d: i64 = b as i64 - a as i64;
    let m: u128 = magnitude(d) as u128;
    proof {
        lemma_square_bound(d as int);
        assert(m * m == d * d) by (nonlinear_arith)
            requires
                m == d || m == -d,
        ;
    }
    m * m
}

/// Squared straight-line distance between two points.
pub fn distance_squared(a: Point, b: Point) -> (r: u128)
    ensures
        r == dist_sq(a, b),
{
    square_diff(a.x, b.x) + square_diff(a.y, b.y) + square_diff(a.z, b.z)
}

/// Squared horizontal distance between two points.
pub fn planar_distance_squared(a: Point, b: Point) -> (r: u128)
    ensures
        r == planar_dist_sq(a, b),
{
    square_diff(a.x, b.x) + square_diff(a.z, b.z)
}

/// The greatest speed that [`heading`] takes: fifty times the longest tick.
pub const MAX_SPEED: u64 = 0x40_0000_0000;

/// One component of a velocity of magnitude `speed` along an offset: the
/// component `d` of the offset, times `speed`, divided by the offset's length,
/// which is the root of `len_sq`; rounded toward zero, and zero for a zero
/// offset.
///
/// The quotient `|d| * speed / sqrt(len_sq)` rounded down is the root, rounded
/// down, of `d * d * speed * speed / len_sq` rounded down;
/// [`lemma_scaled_component_exact`] says so without roots.
pub open spec fn scaled_component(d: int, len_sq: int, speed: int) -> int {
    if len_sq <= 0 {
        0
    } else {
        let m = sqrt_floor((((d * d) * (speed * speed)) / len_sq) as nat) as int;
        if d >= 0 {
            m
        } else {
            -m
        }
    }
}

/// A rescaled component `v` is the exact quotient rounded toward zero: it
/// points the way of `d`, and `|v| <= |d| * speed / sqrt(len_sq) < |v| + 1`,
/// written here in squares.
pub proof fn lemma_scaled_component_exact(d: int, len_sq: int, speed: int)
    requires
        0 < len_sq,
        0 <= speed,
    ensures
        ({
            let v = scaled_component(d, len_sq, speed);
            &&& d >= 0 ==> v >= 0
            &&& d <= 0 ==> v <= 0
            &&& (v * v) * len_sq <= (d * d) * (speed * speed)
            &&& (d * d) * (speed * speed) < ((v * v) + 2 * (if v >= 0 { v } else { -v }) + 1)
                * len_sq
        }),
{
    let n = (d * d) * (speed * speed);
    assert(0 <= n) by (nonlinear_arith)
        requires
            n == (d * d) * (speed * speed),
    ;
    let q = n / len_sq;
    vstd::arithmetic::div_mod::lemma_fundamental_div_mod(n, len_sq);
    vstd::arithmetic::div_mod::lemma_mod_bound(n, len_sq);
    assert(0 <= q && q * len_sq <= n < (q + 1) * len_sq) by (nonlinear_arith)
        requires
            n == len_sq * q + (n % len_sq),
            0 <= n % len_sq < len_sq,
            0 <= n,
            0 < len_sq,
    ;
    lemma_sqrt_floor_exists(q as nat);
    let m = sqrt_floor(q as nat) as int;
    assert(m * m <= q < (m + 1) * (m + 1));
    assert((m * m) * len_sq <= n) by (nonlinear_arith)
        requires
            m * m <= q,
            q * len_sq <= n,
            0 < len_sq,
    ;
    assert(n < ((m * m) + 2 * m + 1) * len_sq) by (nonlinear_arith)
        requires
            q + 1 <= (m + 1) * (m + 1),
            n < (q + 1) * len_sq,
            0 < len_sq,
    ;
    if d == 0 {
        assert(n == 0) by (nonlinear_arith)
            requires
                n == (d * d) * (speed * speed),
                d == 0,
        ;
        assert(m == 0) by (nonlinear_arith)
            requires
                (m * m) * len_sq <= n,
                n == 0,
                0 < len_sq,
                0 <= m,
        ;
    }
    let v = scaled_component(d, len_sq, speed);
    assert(v * v == m * m) by (nonlinear_arith)
        requires
            v == m || v == -m,
    ;
}

/// No rescaled component of an offset is faster than the speed.
pub proof fn lemma_scaled_component_bound(d: int, len_sq: int, speed: int)
    requires
        d * d <= len_sq,
        0 <= speed,
    ensures
        -speed <= scaled_component(d, len_sq, speed) <= speed,
        d >= 0 ==> scaled_component(d, len_sq, speed) >= 0,
        d <= 0 ==> scaled_component(d, len_sq, speed) <= 0,
{
    if len_sq > 0 {
        lemma_scaled_component_exact(d, len_sq, speed);
        let v = scaled_component(d, len_sq, speed);
        let m = if v >= 0 { v } else { -v };
        assert(m * m == v * v && 0 <= d * d) by (nonlinear_arith)
            requires
                m == v || m == -v,
        ;
        assert(m <= speed) by (nonlinear_arith)
            requires
                (m * m) * len_sq <= (d * d) * (speed * speed),
                0 <= d * d <= len_sq,
                0 < len_sq,
                0 <= m,
                0 <= speed,
        ;
    }
}

/// The two horizontal components of a rescaled offset are together no faster
/// than the speed.
pub proof fn lemma_scaled_speed_capped(dx: int, dz: int, len_sq: int, speed: int)
    requires
        dx * dx + dz * dz <= len_sq,
        0 <= speed,
    ensures
        ({
            let vx = scaled_component(dx, len_sq, speed);
            let vz = scaled_component(dz, len_sq, speed);
            vx * vx + vz * vz <= speed * speed
        }),
{
    let vx = scaled_component(dx, len_sq, speed);
    let vz = scaled_component(dz, len_sq, speed);
    if len_sq > 0 {
        lemma_scaled_component_exact(dx, len_sq, speed);
        lemma_scaled_component_exact(dz, len_sq, speed);
        let a = vx * vx;
        let b = vz * vz;
        let p = dx * dx;
        let q = dz * dz;
        let s = speed * speed;
        assert(0 <= a && 0 <= b && 0 <= p && 0 <= q && 0 <= s) by (nonlinear_arith)
            requires
                a == vx * vx,
                b == vz * vz,
                p == dx * dx,
                q == dz * dz,
                s == speed * speed,
        ;
        assert(a + b <= s) by (nonlinear_arith)
            requires
                a * len_sq <= p * s,
                b * len_sq <= q * s,
                p + q <= len_sq,
                0 < len_sq,
                0 <= a,
                0 <= b,
                0 <= p,
                0 <= q,
                0 <= s,
        ;
    } else {
        assert(vx * vx + vz * vz == 0) by (nonlinear_arith)
            requires
                vx == 0,
                vz == 0,
        ;
        assert(0 <= speed * speed) by (nonlinear_arith);
    }
}

/// Rescaled in the plane, a non-zero offset gives the speed to within the
/// rounding of its two components: it falls short by less than two.
pub proof fn lemma_scaled_speed_reached(dx: int, dz: int, speed: int)
    requires
        0 < dx * dx + dz * dz,
        2 <= speed,
    ensures
        ({
            let vx = scaled_component(dx, dx * dx + dz * dz, speed);
            let vz = scaled_component(dz, dx * dx + dz * dz, speed);
            (speed - 2) * (speed - 2) <= vx * vx + vz * vz
        }),
{
    let len_sq = dx * dx + dz * dz;
    let vx = scaled_component(dx, len_sq, speed);
    let vz = scaled_component(dz, len_sq, speed);
    lemma_scaled_component_exact(dx, len_sq, speed);
    lemma_scaled_component_exact(dz, len_sq, speed);
    lemma_scaled_speed_capped(dx, dz, len_sq, speed);
    let a: int = if vx >= 0 { vx } else { -vx };
    let b: int = if vz >= 0 { vz } else { -vz };
    let p = dx * dx;
    let q = dz * dz;
    let s = speed * speed;
    assert(a * a == vx * vx && b * b == vz * vz) by (nonlinear_arith)
        requires
            a == vx || a == -vx,
            b == vz || b == -vz,
    ;
    assert(0 <= p && 0 <= q && 0 <= s) by (nonlinear_arith)
        requires
            p == dx * dx,
            q == dz * dz,
            s == speed * speed,
    ;
    // Both components rounded up together exceed the speed.
    assert(s < (a * a + 2 * a + 1) + (b * b + 2 * b + 1)) by (nonlinear_arith)
        requires
            p * s < (a * a + 2 * a + 1) * len_sq,
            q * s < (b * b + 2 * b + 1) * len_sq,
            p + q == len_sq,
            0 < len_sq,
            0 <= p,
            0 <= q,
            0 <= s,
    ;
    // Rounded down they cannot both be nearly the whole speed.
    assert(a + b <= 2 * speed - 3 || speed < 4) by (nonlinear_arith)
        requires
            a * a + b * b <= speed * speed,
            0 <= a,
            0 <= b,
            2 <= speed,
    ;
    if speed >= 4 {
        assert((speed - 2) * (speed - 2) <= a * a + b * b) by (nonlinear_arith)
            requires
                s == speed * speed,
                s < (a * a + 2 * a + 1) + (b * b + 2 * b + 1),
                a + b <= 2 * speed - 3,
        ;
    } else {
        assert((speed - 2) * (speed - 2) <= a * a + b * b) by (nonlinear_arith)
            requires
                s == speed * speed,
                s < (a * a + 2 * a + 1) + (b * b + 2 * b + 1),
                2 <= speed < 4,
                0 <= a,
                0 <= b,
        ;
    }
}

/// `a * b / s` rounded down, for factors whose product does not fit a word.
pub fn mul_div(a: u128, b: u128, s: u128) -> (q: u128)
    requires
        a <= s,
        0 < s < 0x4_0000_0000_0000_0000,
        b <= 0x1000_0000_0000_0000_0000,
    ensures
        q == (a * b) / (s as int),
        q <= b,
{
    let split: u128 = 0x40_0000_0000;
    let hi: u128 = b / 0x40_0000_0000;
    let lo: u128 = b % 0x40_0000_0000;
    proof {
        vstd::arithmetic::div_mod::lemma_fundamental_div_mod(b as int, split as int);
        vstd::arithmetic::div_mod::lemma_mod_bound(b as int, split as int);
        assert(split * hi == hi * split) by (nonlinear_arith);
        if hi > split {
            assert(hi * split >= 0x40_0000_0001 * 0x40_0000_0000) by (nonlinear_arith)
                requires
                    hi >= 0x40_0000_0001,
                    split == 0x40_0000_0000u128,
            ;
        }
    }
    assert(b == hi * split + lo && hi <= 0x40_0000_0000 && lo < 0x40_0000_0000);
    assert(a * hi <= 0x4_0000_0000_0000_0000 * 0x40_0000_0000 && a * lo
        <= 0x4_0000_0000_0000_0000 * 0x40_0000_0000) by (nonlinear_arith)
        requires
            a < 0x4_0000_0000_0000_0000,
            hi <= 0x40_0000_0000,
            lo < 0x40_0000_0000,
    ;
    let top: u128 = a * hi;
    let q1: u128 = top / s;
    let r1: u128 = top % s;
    proof {
        vstd::arithmetic::div_mod::lemma_fundamental_div_mod(top as int, s as int);
        vstd::arithmetic::div_mod::lemma_mod_bound(top as int, s as int);
        assert(s * q1 == q1 * s) by (nonlinear_arith);
    }
    assert(top == q1 * s + r1 && r1 < s);
    assert(r1 * split <= 0x4_0000_0000_0000_0000 * 0x40_0000_0000) by (nonlinear_arith)
        requires
            r1 < 0x4_0000_0000_0000_0000,
            split == 0x40_0000_0000u128,
    ;
    let rest: u128 = r1 * split + a * lo;
    let q2: u128 = rest / s;
    let r2: u128 = rest % s;
    proof {
        vstd::arithmetic::div_mod::lemma_fundamental_div_mod(rest as int, s as int);
        vstd::arithmetic::div_mod::lemma_mod_bound(rest as int, s as int);
        assert(s * q2 == q2 * s) by (nonlinear_arith);
    }
    assert(rest == q2 * s + r2 && r2 < s);
    let ghost total: int = q1 * split + q2;
    assert(a * b == total * s + r2) by (nonlinear_arith)
        requires
            b == hi * split + lo,
            split == 0x40_0000_0000u128,
            top == a * hi,
            top == q1 * s + r1,
            rest == r1 * split + a * lo,
            rest == q2 * s + r2,
            total == q1 * split + q2,
    ;
    proof {
        vstd::arithmetic::div_mod::lemma_fundamental_div_mod_converse(
            a * b,
            s as int,
            total,
            r2 as int,
        );
        assert(total <= b) by (nonlinear_arith)
            requires
                a * b == total * s + r2,
                0 <= r2,
                a <= s,
                0 < s,
                0 <= b,
                0 <= a,
        ;
    }
    q1 * split + q2
}

/// Rescales one offset component; see [`scaled_component`].
pub fn scale_component(d: i64, len_sq: u128, speed: u64) -> (r: i64)
    requires
        d * d <= len_sq < 0x4_0000_0000_0000_0000,
        speed <= MAX_SPEED,
    ensures
        r == scaled_component(d as int, len_sq as int, speed as int),
        -speed <= r <= speed,
{
    proof {
        lemma_scaled_component_bound(d as int, len_sq as int, speed as int);
    }
    if len_sq == 0 {
        return 0;
    }
    let m: u128 = magnitude(d) as u128;
    assert(m * m == d * d) by (nonlinear_arith)
        requires
            m == d || m == -d,
    ;
    assert(m < 0x2_0000_0000) by (nonlinear_arith)
        requires
            m * m < 0x4_0000_0000_0000_0000,
            0 <= m,
    ;
    assert(m * m <= 0x2_0000_0000 * 0x2_0000_0000) by (nonlinear_arith)
        requires
            0 <= m < 0x2_0000_0000,
    ;
    let fast: u128 = speed as u128;
    assert(fast * fast <= 0x1000_0000_0000_0000_0000) by (nonlinear_arith)
        requires
            fast <= 0x40_0000_0000,
    ;
    let q: u128 = mul_div(m * m, fast * fast, len_sq);
    let v: u64 = isqrt(q);
    assert(v <= speed) by {
        assert(scaled_component(d as int, len_sq as int, speed as int) == if d >= 0 {
            v as int
        } else {
            -(v as int)
        });
    }
    if d >= 0 {
        v as i64
    } else {
        -(v as i64)
    }
}

/// The horizontal velocity that heads from `from` toward `to` at `speed`.
///
/// With `planar` the horizontal offset is normalised, so the result has the
/// magnitude `speed` to within rounding. Without it the whole offset is
/// normalised and its horizontal part is kept, so the result is no faster
/// than `speed` and slower the steeper the offset.
pub open spec fn heading_velocity(from: Point, to: Point, planar: bool, speed: int) -> (int, int) {
    let len_sq = if planar { planar_dist_sq(from, to) } else { dist_sq(from, to) };
    (
        scaled_component(to.x - from.x, len_sq, speed),
        scaled_component(to.z - from.z, len_sq, speed),
    )
}

/// A heading is never faster than the speed, and in the plane it reaches the
/// speed to within two, unless the horizontal offset is zero.
pub proof fn lemma_heading_speed(from: Point, to: Point, planar: bool, speed: int)
    requires
        0 <= speed,
    ensures
        ({
            let v = heading_velocity(from, to, planar, speed);
            &&& v.0 * v.0 + v.1 * v.1 <= speed * speed
            &&& -speed <= v.0 <= speed
            &&& -speed <= v.1 <= speed
            &&& planar && planar_dist_sq(from, to) > 0 && speed >= 2 ==> (speed - 2) * (speed - 2)
                <= v.0 * v.0 + v.1 * v.1
        }),
{
    let dx = to.x - from.x;
    let dy = to.y - from.y;
    let dz = to.z - from.z;
    assert(0 <= dx * dx && 0 <= dy * dy && 0 <= dz * dz) by (nonlinear_arith);
    let len_sq = if planar { planar_dist_sq(from, to) } else { dist_sq(from, to) };
    lemma_scaled_speed_capped(dx, dz, len_sq, speed);
    lemma_scaled_component_bound(dx, len_sq, speed);
    lemma_scaled_component_bound(dz, len_sq, speed);
    if planar && len_sq > 0 && speed >= 2 {
        lemma_scaled_speed_reached(dx, dz, speed);
    }
}

/// Computes [`heading_velocity`].
pub fn heading(from: Point, to: Point, planar: bool, speed: u64) -> (r: (i64, i64))
    requires
        speed <= MAX_SPEED,
    ensures
        (r.0 as int, r.1 as int) == heading_velocity(from, to, planar, speed as int),
        r.0 * r.0 + r.1 * r.1 <= speed * speed,
        planar && planar_dist_sq(from, to) > 0 && speed >= 2 ==> (speed - 2) * (speed - 2) <= r.0
            * r.0 + r.1 * r.1,
        -speed <= r.0 <= speed,
        -speed <= r.1 <= speed,
{
    let dx: i64 = to.x as i64 - from.x as i64;
    let dz: i64 = to.z as i64 - from.z as i64;
    let sx: u128 = square_diff(from.x, to.x);
    let sy: u128 = square_diff(from.y, to.y);
    let sz: u128 = square_diff(from.z, to.z);
    let len_sq: u128 = if planar { sx + sz } else { sx + sy + sz };
    proof {
        lemma_heading_speed(from, to, planar, speed as int);
    }
    (scale_component(dx, len_sq, speed), scale_component(dz, len_sq, speed))
}

} // verus!
