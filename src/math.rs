use vstd::prelude::*;

verus! {

/// The largest absolute value of a scene coordinate, of a ray direction's
/// component and of a sphere radius; it keeps every product of the
/// intersection test within `i128`.
pub const COORD_LIMIT: i128 = 16_777_216;

/// A vector of three integer components, in grid units of the scene.
#[derive(Clone, Copy, Debug, PartialEq, Eq, Structural)]
pub struct Vec3 {
    pub x: i128,
    pub y: i128,
    pub z: i128,
}

pub open spec fn abs(v: int) -> int {
    if v < 0 { -v } else { v }
}

/// Every component lies in `[-m, m]`.
pub open spec fn bounded(v: Vec3, m: int) -> bool {
    abs(v.x as int) <= m && abs(v.y as int) <= m && abs(v.z as int) <= m
}

pub open spec fn vadd(a: Vec3, b: Vec3) -> Vec3 {
    Vec3 { x: (a.x + b.x) as i128, y: (a.y + b.y) as i128, z: (a.z + b.z) as i128 }
}

pub open spec fn vsub(a: Vec3, b: Vec3) -> Vec3 {
    Vec3 { x: (a.x - b.x) as i128, y: (a.y - b.y) as i128, z: (a.z - b.z) as i128 }
}

pub open spec fn vscale(a: Vec3, k: int) -> Vec3 {
    Vec3 { x: (a.x * k) as i128, y: (a.y * k) as i128, z: (a.z * k) as i128 }
}

pub open spec fn vdot(a: Vec3, b: Vec3) -> int {
    a.x * b.x + a.y * b.y + a.z * b.z
}

pub open spec fn fits(v: int) -> bool {
    i128::MIN <= v <= i128::MAX
}

/// Fixed-point one for the components of a normalized vector.
pub const UNIT: i128 = 65536;

/// `a / d` rounded towards zero.
pub open spec fn div_trunc(a: int, d: int) -> int {
    if a >= 0 { a / d } else { -((-a) / d) }
}

fn div_toward_zero(a: i128, d: i128) -> (q: i128)
    requires
        0 < d,
        abs(a as int) <= 0x1000_0000_0000_0000,
    ensures
        q == div_trunc(a as int, d as int),
{
    proof {
        assert(abs(a as int) / (d as int) <= abs(a as int)) by (nonlinear_arith)
            requires 0 < d, 0 <= abs(a as int);
        assert(abs(a as int) / (d as int) >= 0) by (nonlinear_arith)
            requires 0 < d, 0 <= abs(a as int);
    }
    if a >= 0 {
        a / d
    } else {
        -((-a) / d)
    }
}

/// `s` is the integer square root of `n`.
pub open spec fn is_isqrt(n: int, s: int) -> bool {
    0 <= s && s * s <= n < (s + 1) * (s + 1)
}

/// The integer square root of `n` (the largest `s` with `s * s <= n`).
pub open spec fn isqrt(n: int) -> int {
    choose|s: int| is_isqrt(n, s)
}

pub proof fn lemma_mul_bound(x: int, y: int, mx: int, my: int)
    requires
        abs(x) <= mx,
        abs(y) <= my,
    ensures
        abs(x * y) <= mx * my,
{
    assert(abs(x * y) == abs(x) * abs(y)) by (nonlinear_arith);
    assert(abs(x) * abs(y) <= mx * my) by (nonlinear_arith)
        requires abs(x) <= mx, abs(y) <= my, 0 <= abs(x), 0 <= abs(y);
}

pub proof fn lemma_dot_bound(a: Vec3, b: Vec3, ma: int, mb: int)
    requires
        bounded(a, ma),
        bounded(b, mb),
    ensures
        abs(vdot(a, b)) <= 3 * (ma * mb),
{
    lemma_mul_bound(a.x as int, b.x as int, ma, mb);
    lemma_mul_bound(a.y as int, b.y as int, ma, mb);
    lemma_mul_bound(a.z as int, b.z as int, ma, mb);
}

/// A square root, when there is one, is the only one.
pub proof fn lemma_isqrt_unique(n: int, s: int)
    requires
        is_isqrt(n, s),
    ensures
        isqrt(n) == s,
{
    let t = isqrt(n);
    assert(is_isqrt(n, t));
    if t < s {
        assert((t + 1) * (t + 1) <= s * s) by (nonlinear_arith)
            requires 0 <= t, t + 1 <= s;
    } else if s < t {
        assert((s + 1) * (s + 1) <= t * t) by (nonlinear_arith)
            requires 0 <= s, s + 1 <= t;
    }
}

/// Every non-negative integer has an integer square root.
pub proof fn lemma_isqrt_exists(n: int)
    requires
        0 <= n,
    ensures
        is_isqrt(n, isqrt(n)),
    decreases n,
{
    if n == 0 {
        assert(is_isqrt(0, 0));
    } else {
        lemma_isqrt_exists(n - 1);
        let s = isqrt(n - 1);
        if (s + 1) * (s + 1) <= n {
            assert((s + 2) * (s + 2) > n) by (nonlinear_arith)
                requires (s + 1) * (s + 1) > n - 1, 0 <= s;
            assert(is_isqrt(n, s + 1));
        } else {
            assert(is_isqrt(n, s));
        }
    }
}

/// The integer square root of `n` rounded up (the least `s >= 0` with
/// `n <= s * s`).
pub open spec fn ceil_sqrt(n: int) -> int {
    if isqrt(n) * isqrt(n) == n { isqrt(n) } else { isqrt(n) + 1 }
}

/// `s` is the square root of `n` rounded up.
pub open spec fn is_ceil_sqrt(n: int, s: int) -> bool {
    0 <= s && n <= s * s && (s == 0 || (s - 1) * (s - 1) < n)
}

pub proof fn lemma_ceil_sqrt(n: int)
    requires
        0 <= n,
    ensures
        is_ceil_sqrt(n, ceil_sqrt(n)),
        isqrt(n) <= ceil_sqrt(n) <= isqrt(n) + 1,
{
    lemma_isqrt_exists(n);
    let f = isqrt(n);
    if f * f == n {
        if f > 0 {
            assert((f - 1) * (f - 1) < f * f) by (nonlinear_arith)
                requires f > 0;
        }
    } else {
        assert(f * f < n);
    }
}

impl Vec3 {
    pub fn new(x: i128, y: i128, z: i128) -> (v: Vec3)
        ensures
            v == (Vec3 { x, y, z }),
    {
        Vec3 { x, y, z }
    }

    pub fn add(self, o: Vec3) -> (v: Vec3)
        requires
            fits(self.x + o.x),
            fits(self.y + o.y),
            fits(self.z + o.z),
        ensures
            v == vadd(self, o),
    {
        Vec3 { x: self.x + o.x, y: self.y + o.y, z: self.z + o.z }
    }

    pub fn sub(self, o: Vec3) -> (v: Vec3)
        requires
            fits(self.x - o.x),
            fits(self.y - o.y),
            fits(self.z - o.z),
        ensures
            v == vsub(self, o),
    {
        Vec3 { x: self.x - o.x, y: self.y - o.y, z: self.z - o.z }
    }

    pub fn mul(self, k: i128) -> (v: Vec3)
        requires
            fits(self.x * k),
            fits(self.y * k),
            fits(self.z * k),
        ensures
            v == vscale(self, k as int),
    {
        Vec3 { x: self.x * k, y: self.y * k, z: self.z * k }
    }

    /// The dot product; components up to 2^60 in absolute value.
    pub fn dot(&self, o: &Vec3) -> (d: i128)
        requires
            bounded(*self, 0x1000_0000_0000_0000),
            bounded(*o, 0x1000_0000_0000_0000),
        ensures
            d == vdot(*self, *o),
    {
        proof {
            lemma_mul_bound(self.x as int, o.x as int, 0x1000_0000_0000_0000, 0x1000_0000_0000_0000);
            lemma_mul_bound(self.y as int, o.y as int, 0x1000_0000_0000_0000, 0x1000_0000_0000_0000);
            lemma_mul_bound(self.z as int, o.z as int, 0x1000_0000_0000_0000, 0x1000_0000_0000_0000);
        }
        self.x * o.x + self.y * o.y + self.z * o.z
    }

    pub fn magnitude_squared(&self) -> (d: i128)
        requires
            bounded(*self, 0x1000_0000_0000_0000),
        ensures
            d == vdot(*self, *self),
            d >= 0,
    {
        proof {
            assert(self.x * self.x >= 0) by (nonlinear_arith);
            assert(self.y * self.y >= 0) by (nonlinear_arith);
            assert(self.z * self.z >= 0) by (nonlinear_arith);
        }
        self.dot(self)
    }
}

impl Vec3 {
    /// The length, rounded down; components up to 2^50 in absolute value.
    pub fn magnitude(&self) -> (m: i128)
        requires
            bounded(*self, 0x4_0000_0000_0000),
        ensures
            m == isqrt(vdot(*self, *self)),
            is_isqrt(vdot(*self, *self), m as int),
    {
        proof {
            lemma_dot_bound(*self, *self, 0x4_0000_0000_0000, 0x4_0000_0000_0000);
        }
        let sq = self.magnitude_squared();
        isqrt_exec(sq)
    }
}

impl Vec3 {
    /// This vector scaled to length [UNIT], each component rounded towards
    /// zero; the zero vector, which has no direction, stays zero.
    pub fn normalized(&self) -> (n: Vec3)
        requires
            bounded(*self, 0x100_0000_0000),
        ensures
            vdot(*self, *self) == 0 ==> n == *self,
            vdot(*self, *self) != 0 ==> n == (Vec3 {
                x: div_trunc(self.x * UNIT, isqrt(vdot(*self, *self))) as i128,
                y: div_trunc(self.y * UNIT, isqrt(vdot(*self, *self))) as i128,
                z: div_trunc(self.z * UNIT, isqrt(vdot(*self, *self))) as i128,
            }),
    {
        let m = self.magnitude();
        proof {
            let n = vdot(*self, *self);
            assert(m == 0 <==> n == 0) by (nonlinear_arith)
                requires 0 <= m, m * m <= n, n < (m + 1) * (m + 1);
        }
        if m == 0 {
            proof {
                assert(self.x * self.x >= 0 && self.y * self.y >= 0 && self.z * self.z >= 0) by (nonlinear_arith);
                assert(self.x * self.x == 0 ==> self.x == 0) by (nonlinear_arith);
                assert(self.y * self.y == 0 ==> self.y == 0) by (nonlinear_arith);
                assert(self.z * self.z == 0 ==> self.z == 0) by (nonlinear_arith);
            }
            return Vec3::new(0, 0, 0);
        }
        proof {
            lemma_mul_bound(self.x as int, UNIT as int, 0x100_0000_0000, UNIT as int);
            lemma_mul_bound(self.y as int, UNIT as int, 0x100_0000_0000, UNIT as int);
            lemma_mul_bound(self.z as int, UNIT as int, 0x100_0000_0000, UNIT as int);
        }
        Vec3::new(
            div_toward_zero(self.x * UNIT, m),
            div_toward_zero(self.y * UNIT, m),
            div_toward_zero(self.z * UNIT, m),
        )
    }
}

/// A half-line: the points `origin + direction * t` for `t >= 0`.
#[derive(Clone, Copy, Debug, PartialEq, Eq, Structural)]
pub struct Ray {
    pub origin: Vec3,
    pub direction: Vec3,
}

impl Ray {
    pub fn new(origin: Vec3, direction: Vec3) -> (r: Ray)
        ensures
            r == (Ray { origin, direction }),
    {
        Ray { origin, direction }
    }

    /// Origin and direction stay within [COORD_LIMIT].
    pub open spec fn wf(&self) -> bool {
        bounded(self.origin, COORD_LIMIT as int) && bounded(self.direction, COORD_LIMIT as int)
    }

    /// The point at parameter `t` (any integer, negative included).
    pub fn at(&self, t: i128) -> (p: Vec3)
        requires
            self.wf(),
            abs(t as int) <= COORD_LIMIT,
        ensures
            p == vadd(self.origin, vscale(self.direction, t as int)),
    {
        proof {
            lemma_mul_bound(self.direction.x as int, t as int, COORD_LIMIT as int, COORD_LIMIT as int);
            lemma_mul_bound(self.direction.y as int, t as int, COORD_LIMIT as int, COORD_LIMIT as int);
            lemma_mul_bound(self.direction.z as int, t as int, COORD_LIMIT as int, COORD_LIMIT as int);
        }
        self.origin.add(self.direction.mul(t))
    }

    pub fn origin(&self) -> (v: Vec3)
        ensures
            v == self.origin,
    {
        self.origin
    }

    pub fn direction(&self) -> (v: Vec3)
        ensures
            v == self.direction,
    {
        self.direction
    }
}

/// The integer square root rounded up.
pub fn ceil_sqrt_exec(n: i128) -> (s: i128)
    requires
        0 <= n < 0x100_0000_0000_0000_0000_0000_0000,
    ensures
        s == ceil_sqrt(n as int),
        is_ceil_sqrt(n as int, s as int),
        s <= 0x10_0000_0000_0000,
{
    let f = isqrt_exec(n);
    proof {
        lemma_ceil_sqrt(n as int);
    }
    if f * f == n {
        f
    } else {
        f + 1
    }
}

/// The integer square root, by bisection.
pub fn isqrt_exec(n: i128) -> (s: i128)
    requires
        0 <= n < 0x100_0000_0000_0000_0000_0000_0000,
    ensures
        is_isqrt(n as int, s as int),
        s == isqrt(n as int),
        s < 0x10_0000_0000_0000,
{
    let mut lo: i128 = 0;
    let mut hi: i128 = 0x10_0000_0000_0000;
    assert(hi * hi == 0x100_0000_0000_0000_0000_0000_0000) by (nonlinear_arith)
        requires hi == 0x10_0000_0000_0000;
    while hi - lo > 1
        invariant
            0 <= lo < hi <= 0x10_0000_0000_0000,
            lo * lo <= n,
            n < hi * hi,
        decreases hi - lo,
    {
        let mid: i128 = lo + (hi - lo) / 2;
        assert(mid * mid <= 0x10_0000_0000_0000 * 0x10_0000_0000_0000) by (nonlinear_arith)
            requires 0 <= mid <= 0x10_0000_0000_0000;
        if mid * mid <= n {
            lo = mid;
        } else {
            hi = mid;
        }
    }
    assert(hi == lo + 1);
    proof {
        lemma_isqrt_unique(n as int, lo as int);
    }
    lo
}

} // verus!
