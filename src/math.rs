//! Fixed-point vector arithmetic.
//!
//! A coordinate is an integer count of raw units, `SCALE` raw units making one
//! world unit. Every component of a well-formed vector lies within
//! `[-LIMIT, LIMIT]`; operations saturate to that range.
use vstd::prelude::*;

verus! {

/// Raw units per world unit.
pub const SCALE: i64 = 4096;

/// Largest magnitude of a vector component, in raw units.
pub const LIMIT: i64 = 16777216;

/// Largest magnitude of a scalar factor handed to `Vec3::scale`.
pub const FACTOR_LIMIT: i128 = 0x1_0000_0000_0000_0000_0000;

pub open spec fn clamp(v: int) -> int {
    if v < -LIMIT {
        -LIMIT as int
    } else if v > LIMIT {
        LIMIT as int
    } else {
        v
    }
}

/// Division rounding toward zero, as Rust's `/` does on signed integers.
pub open spec fn tdiv(a: int, b: int) -> int {
    if a >= 0 {
        a / b
    } else {
        -((-a) / b)
    }
}

/// `r` is the floor of the square root of `n`.
pub open spec fn is_root(n: int, r: int) -> bool {
    0 <= r && r * r <= n && n < (r + 1) * (r + 1)
}

pub open spec fn sqrt_floor(n: int) -> int {
    choose|r: int| is_root(n, r)
}

pub proof fn lemma_root_unique(n: int, a: int, b: int)
    requires
        is_root(n, a),
        is_root(n, b),
    ensures
        a == b,
{
    if a < b {
        assert((a + 1) * (a + 1) <= b * b) by (nonlinear_arith)
            requires
                0 <= a,
                a + 1 <= b,
        ;
    } else if b < a {
        assert((b + 1) * (b + 1) <= a * a) by (nonlinear_arith)
            requires
                0 <= b,
                b + 1 <= a,
        ;
    }
}

pub proof fn lemma_sqrt_floor(n: int, r: int)
    requires
        is_root(n, r),
    ensures
        sqrt_floor(n) == r,
{
    let c = sqrt_floor(n);
    assert(is_root(n, c));
    lemma_root_unique(n, c, r);
}

/// The square root of a perfect square is exact.
pub proof fn lemma_sqrt_square(x: int)
    requires
        0 <= x,
    ensures
        sqrt_floor(x * x) == x,
{
    assert((x + 1) * (x + 1) == x * x + 2 * x + 1) by (nonlinear_arith);
    lemma_sqrt_floor(x * x, x);
}

pub proof fn lemma_mul_bound(a: int, b: int, ba: int, bb: int)
    requires
        -ba <= a <= ba,
        -bb <= b <= bb,
    ensures
        -(ba * bb) <= a * b <= ba * bb,
{
    assert(-(ba * bb) <= a * b <= ba * bb) by (nonlinear_arith)
        requires
            -ba <= a <= ba,
            -bb <= b <= bb,
    ;
}

/// Truncated division loses magnitude: `tdiv(a, l)^2 * l^2 <= a^2`.
pub proof fn lemma_tdiv_square(a: int, l: int)
    requires
        l > 0,
    ensures
        tdiv(a, l) * tdiv(a, l) * (l * l) <= a * a,
{
    let q = tdiv(a, l);
    let m = if a >= 0 { a } else { -a };
    let qm = if q >= 0 { q } else { -q };
    assert(0 <= (m / l) * l <= m) by (nonlinear_arith)
        requires
            m >= 0,
            l > 0,
    ;
    assert(qm == m / l);
    assert(qm * l <= m);
    assert(q * q * (l * l) == (qm * l) * (qm * l)) by (nonlinear_arith)
        requires
            qm == q || qm == -q,
    ;
    assert((qm * l) * (qm * l) <= m * m) by (nonlinear_arith)
        requires
            0 <= qm * l <= m,
    ;
    assert(m * m == a * a) by (nonlinear_arith)
        requires
            m == a || m == -a,
    ;
}

/// Normalizing a non-zero vector gives a length below `SCALE + 1`.
pub proof fn lemma_normalize_length(a: Vec3, len: int)
    requires
        a.wf(),
        dot(a, a) > 0,
        is_root(dot(a, a) * SCALE * SCALE, len),
    ensures
        normalize(a) == vec3(
            tdiv(a.x * SCALE * SCALE, len),
            tdiv(a.y * SCALE * SCALE, len),
            tdiv(a.z * SCALE * SCALE, len),
        ),
        dot(normalize(a), normalize(a)) < (SCALE + 1) * (SCALE + 1),
{
    let s = SCALE as int;
    let sq = s * s;
    let d = dot(a, a);
    lemma_sqrt_floor(d * s * s, len);
    let (qx, qy, qz) = (tdiv(a.x * sq, len), tdiv(a.y * sq, len), tdiv(a.z * sq, len));
    assert(len >= s) by (nonlinear_arith)
        requires
            d >= 1,
            d * s * s < (len + 1) * (len + 1),
            len >= 0,
            s > 0,
    ;
    lemma_tdiv_square(a.x * sq, len);
    lemma_tdiv_square(a.y * sq, len);
    lemma_tdiv_square(a.z * sq, len);
    let ll = len * len;
    let e = qx * qx + qy * qy + qz * qz;
    assert(e * ll <= d * sq * sq) by (nonlinear_arith)
        requires
            qx * qx * ll <= (a.x * sq) * (a.x * sq),
            qy * qy * ll <= (a.y * sq) * (a.y * sq),
            qz * qz * ll <= (a.z * sq) * (a.z * sq),
            e == qx * qx + qy * qy + qz * qz,
            d == a.x * a.x + a.y * a.y + a.z * a.z,
    ;
    assert(e >= 0) by (nonlinear_arith)
        requires
            e == qx * qx + qy * qy + qz * qz,
    ;
    assert(e < (s + 1) * (s + 1)) by (nonlinear_arith)
        requires
            e * ll <= d * sq * sq,
            d * sq < (len + 1) * (len + 1),
            sq == s * s,
            ll == len * len,
            len >= s,
            s > 0,
            e >= 0,
    ;
    assert(qx * qx <= e && qy * qy <= e && qz * qz <= e) by (nonlinear_arith)
        requires
            e == qx * qx + qy * qy + qz * qz,
    ;
    assert(-LIMIT <= qx <= LIMIT && -LIMIT <= qy <= LIMIT && -LIMIT <= qz <= LIMIT) by (nonlinear_arith)
        requires
            qx * qx < (s + 1) * (s + 1),
            qy * qy < (s + 1) * (s + 1),
            qz * qz < (s + 1) * (s + 1),
            s == 4096,
            LIMIT == 16777216,
    ;
}

/// Floor of the square root, by bisection.
pub fn isqrt(n: u128) -> (r: u128)
    requires
        n < 0x4000_0000_0000_0000_0000_0000_0000_0000,
    ensures
        r == sqrt_floor(n as int),
        is_root(n as int, r as int),
{
    let mut lo: u128 = 0;
    let mut hi: u128 = 0x8000_0000_0000_0000;
    assert(0x8000_0000_0000_0000u128 * 0x8000_0000_0000_0000u128 == 0x4000_0000_0000_0000_0000_0000_0000_0000u128);
    while hi - lo > 1
        invariant
            lo < hi <= 0x8000_0000_0000_0000,
            lo * lo <= n,
            n < hi * hi,
        decreases hi - lo,
    {
        let mid: u128 = lo + (hi - lo) / 2;
        assert(mid * mid <= 0x8000_0000_0000_0000u128 * 0x8000_0000_0000_0000u128) by (nonlinear_arith)
            requires
                mid <= 0x8000_0000_0000_0000u128,
        ;
        if mid * mid <= n {
            lo = mid;
        } else {
            hi = mid;
        }
    }
    assert(hi == lo + 1);
    proof {
        lemma_sqrt_floor(n as int, lo as int);
    }
    lo
}

pub fn div_trunc(a: i128, b: i128) -> (r: i128)
    requires
        a > i128::MIN,
        b > 0,
    ensures
        r == tdiv(a as int, b as int),
        a >= 0 ==> 0 <= r <= a,
        a < 0 ==> a <= r <= 0,
{
    proof {
        if a >= 0 {
            assert(a / b <= a) by (nonlinear_arith)
                requires
                    a >= 0,
                    b >= 1,
            ;
        } else {
            assert((-a) / (b as int) <= -a) by (nonlinear_arith)
                requires
                    a < 0,
                    b >= 1,
            ;
        }
    }
    if a >= 0 {
        a / b
    } else {
        -((-a) / b)
    }
}

pub fn clamp_limit(v: i128) -> (r: i64)
    ensures
        r == clamp(v as int),
{
    if v < -(LIMIT as i128) {
        -LIMIT
    } else if v > LIMIT as i128 {
        LIMIT
    } else {
        v as i64
    }
}

/// A point, direction or color in fixed point.
#[derive(Clone, Copy, Debug, PartialEq, Eq)]
pub struct Vec3 {
    pub x: i64,
    pub y: i64,
    pub z: i64,
}

/// A screen coordinate in fixed point.
#[derive(Clone, Copy, Debug, PartialEq, Eq)]
pub struct Vec2 {
    pub x: i64,
    pub y: i64,
}

/// The vector with the given components, each saturated to `[-LIMIT, LIMIT]`.
pub open spec fn vec3(x: int, y: int, z: int) -> Vec3 {
    Vec3 { x: clamp(x) as i64, y: clamp(y) as i64, z: clamp(z) as i64 }
}

/// Scalar product, in square raw units.
pub open spec fn dot(a: Vec3, b: Vec3) -> int {
    a.x * b.x + a.y * b.y + a.z * b.z
}

pub open spec fn vadd(a: Vec3, b: Vec3) -> Vec3 {
    vec3(a.x + b.x, a.y + b.y, a.z + b.z)
}

pub open spec fn vsub(a: Vec3, b: Vec3) -> Vec3 {
    vec3(a.x - b.x, a.y - b.y, a.z - b.z)
}

pub open spec fn neg(a: Vec3) -> Vec3 {
    vec3(-a.x, -a.y, -a.z)
}

/// `a` times the fixed-point factor `s` (`SCALE` stands for one).
pub open spec fn scale(a: Vec3, s: int) -> Vec3 {
    vec3(tdiv(a.x * s, SCALE as int), tdiv(a.y * s, SCALE as int), tdiv(a.z * s, SCALE as int))
}

pub open spec fn cross(a: Vec3, b: Vec3) -> Vec3 {
    vec3(
        tdiv(a.y * b.z - a.z * b.y, SCALE as int),
        tdiv(a.z * b.x - a.x * b.z, SCALE as int),
        tdiv(a.x * b.y - a.y * b.x, SCALE as int),
    )
}

/// Euclidean length in raw units, rounded down.
pub open spec fn length(a: Vec3) -> int {
    sqrt_floor(dot(a, a))
}

/// `a` scaled to length `SCALE`; the zero vector stays zero. The divisor is
/// the length in units of `1 / SCALE` raw units, so short vectors lose no
/// precision to rounding of their length.
pub open spec fn normalize(a: Vec3) -> Vec3 {
    let len = sqrt_floor(dot(a, a) * SCALE * SCALE);
    if len == 0 {
        vec3(0, 0, 0)
    } else {
        vec3(
            tdiv(a.x * SCALE * SCALE, len),
            tdiv(a.y * SCALE * SCALE, len),
            tdiv(a.z * SCALE * SCALE, len),
        )
    }
}

/// `p + t d` for the fixed-point factor `t`, saturated once at the end.
pub open spec fn along(p: Vec3, d: Vec3, t: int) -> Vec3 {
    vec3(
        p.x + tdiv(d.x * t, SCALE as int),
        p.y + tdiv(d.y * t, SCALE as int),
        p.z + tdiv(d.z * t, SCALE as int),
    )
}

/// Mirror image of direction `d` about a surface with unit normal `n`:
/// `d - 2 n (d . n)`.
pub open spec fn reflect_spec(d: Vec3, n: Vec3) -> Vec3 {
    along(d, n, -2 * tdiv(dot(d, n), SCALE as int))
}

impl Vec3 {
    pub open spec fn wf(self) -> bool {
        -LIMIT <= self.x <= LIMIT && -LIMIT <= self.y <= LIMIT && -LIMIT <= self.z <= LIMIT
    }

    pub fn new(x: i64, y: i64, z: i64) -> (r: Vec3)
        ensures
            r == vec3(x as int, y as int, z as int),
            r.wf(),
    {
        Vec3 { x: clamp_limit(x as i128), y: clamp_limit(y as i128), z: clamp_limit(z as i128) }
    }

    /// The vector with components given in whole world units.
    pub fn units(x: i32, y: i32, z: i32) -> (r: Vec3)
        ensures
            r == vec3(x * SCALE, y * SCALE, z * SCALE),
            r.wf(),
    {
        Vec3::new(x as i64 * SCALE, y as i64 * SCALE, z as i64 * SCALE)
    }

    pub fn zero() -> (r: Vec3)
        ensures
            r == vec3(0, 0, 0),
            r.wf(),
    {
        Vec3 { x: 0, y: 0, z: 0 }
    }

    pub fn dot(&self, o: &Vec3) -> (r: i128)
        requires
            self.wf(),
            o.wf(),
        ensures
            r == dot(*self, *o),
            -3 * 0x1_0000_0000_0000 <= r <= 3 * 0x1_0000_0000_0000,
    {
        proof {
            lemma_mul_bound(self.x as int, o.x as int, LIMIT as int, LIMIT as int);
            lemma_mul_bound(self.y as int, o.y as int, LIMIT as int, LIMIT as int);
            lemma_mul_bound(self.z as int, o.z as int, LIMIT as int, LIMIT as int);
        }
        self.x as i128 * o.x as i128 + self.y as i128 * o.y as i128 + self.z as i128 * o.z as i128
    }

    pub fn add(&self, o: &Vec3) -> (r: Vec3)
        ensures
            r == vadd(*self, *o),
            r.wf(),
    {
        Vec3 {
            x: clamp_limit(self.x as i128 + o.x as i128),
            y: clamp_limit(self.y as i128 + o.y as i128),
            z: clamp_limit(self.z as i128 + o.z as i128),
        }
    }

    pub fn sub(&self, o: &Vec3) -> (r: Vec3)
        ensures
            r == vsub(*self, *o),
            r.wf(),
    {
        Vec3 {
            x: clamp_limit(self.x as i128 - o.x as i128),
            y: clamp_limit(self.y as i128 - o.y as i128),
            z: clamp_limit(self.z as i128 - o.z as i128),
        }
    }

    pub fn neg(&self) -> (r: Vec3)
        ensures
            r == neg(*self),
            r.wf(),
    {
        Vec3 {
            x: clamp_limit(-(self.x as i128)),
            y: clamp_limit(-(self.y as i128)),
            z: clamp_limit(-(self.z as i128)),
        }
    }

    pub fn scale(&self, s: i128) -> (r: Vec3)
        requires
            self.wf(),
            -FACTOR_LIMIT <= s <= FACTOR_LIMIT,
        ensures
            r == scale(*self, s as int),
            r.wf(),
    {
        proof {
            lemma_mul_bound(self.x as int, s as int, LIMIT as int, FACTOR_LIMIT as int);
            lemma_mul_bound(self.y as int, s as int, LIMIT as int, FACTOR_LIMIT as int);
            lemma_mul_bound(self.z as int, s as int, LIMIT as int, FACTOR_LIMIT as int);
        }
        Vec3 {
            x: clamp_limit(div_trunc(self.x as i128 * s, SCALE as i128)),
            y: clamp_limit(div_trunc(self.y as i128 * s, SCALE as i128)),
            z: clamp_limit(div_trunc(self.z as i128 * s, SCALE as i128)),
        }
    }

    pub fn cross(&self, o: &Vec3) -> (r: Vec3)
        requires
            self.wf(),
            o.wf(),
        ensures
            r == cross(*self, *o),
            r.wf(),
    {
        proof {
            lemma_mul_bound(self.x as int, o.x as int, LIMIT as int, LIMIT as int);
            lemma_mul_bound(self.x as int, o.y as int, LIMIT as int, LIMIT as int);
            lemma_mul_bound(self.x as int, o.z as int, LIMIT as int, LIMIT as int);
            lemma_mul_bound(self.y as int, o.x as int, LIMIT as int, LIMIT as int);
            lemma_mul_bound(self.y as int, o.y as int, LIMIT as int, LIMIT as int);
            lemma_mul_bound(self.y as int, o.z as int, LIMIT as int, LIMIT as int);
            lemma_mul_bound(self.z as int, o.x as int, LIMIT as int, LIMIT as int);
            lemma_mul_bound(self.z as int, o.y as int, LIMIT as int, LIMIT as int);
            lemma_mul_bound(self.z as int, o.z as int, LIMIT as int, LIMIT as int);
        }
        let (ax, ay, az) = (self.x as i128, self.y as i128, self.z as i128);
        let (bx, by, bz) = (o.x as i128, o.y as i128, o.z as i128);
        Vec3 {
            x: clamp_limit(div_trunc(ay * bz - az * by, SCALE as i128)),
            y: clamp_limit(div_trunc(az * bx - ax * bz, SCALE as i128)),
            z: clamp_limit(div_trunc(ax * by - ay * bx, SCALE as i128)),
        }
    }

    pub fn length(&self) -> (r: i128)
        requires
            self.wf(),
        ensures
            r == length(*self),
            0 <= r <= 2 * LIMIT,
    {
        let d = self.dot(self);
        assert(d >= 0) by (nonlinear_arith)
            requires
                d == self.x * self.x + self.y * self.y + self.z * self.z,
        ;
        let r = isqrt(d as u128);
        assert(r <= 2 * LIMIT) by (nonlinear_arith)
            requires
                r * r <= d,
                d <= 3 * LIMIT * LIMIT,
                r >= 0,
                LIMIT > 0,
        ;
        r as i128
    }

    pub fn normalize(&self) -> (r: Vec3)
        requires
            self.wf(),
        ensures
            r == normalize(*self),
            r.wf(),
            dot(*self, *self) > 0 ==> dot(r, r) < (SCALE + 1) * (SCALE + 1),
    {
        let d = self.dot(self);
        assert(d >= 0) by (nonlinear_arith)
            requires
                d == self.x * self.x + self.y * self.y + self.z * self.z,
        ;
        let dd = d as u128;
        assert(dd * 0x100_0000 <= 3 * 0x1_0000_0000_0000 * 0x100_0000) by (nonlinear_arith)
            requires
                dd <= 3 * 0x1_0000_0000_0000,
        ;
        let len = isqrt(dd * 0x100_0000);
        proof {
            let sq: int = SCALE * SCALE;
            lemma_mul_bound(self.x as int, sq, LIMIT as int, sq);
            lemma_mul_bound(self.y as int, sq, LIMIT as int, sq);
            lemma_mul_bound(self.z as int, sq, LIMIT as int, sq);
            assert(len < 0x1_0000_0000_0000_0000) by (nonlinear_arith)
                requires
                    len * len <= dd * sq,
                    dd <= 3 * 0x1_0000_0000_0000,
                    sq == 0x100_0000,
            ;
        }
        if len == 0 {
            Vec3::zero()
        } else {
            proof {
                assert(dot(*self, *self) > 0) by (nonlinear_arith)
                    requires
                        len * len <= dd * 0x100_0000,
                        len > 0,
                        dd == dot(*self, *self),
                ;
                lemma_normalize_length(*self, len as int);
            }
            let sq = (SCALE * SCALE) as i128;
            let len = len as i128;
            Vec3 {
                x: clamp_limit(div_trunc(self.x as i128 * sq, len)),
                y: clamp_limit(div_trunc(self.y as i128 * sq, len)),
                z: clamp_limit(div_trunc(self.z as i128 * sq, len)),
            }
        }
    }

    /// `self + t d`, saturated once at the end.
    pub fn along(&self, d: &Vec3, t: i128) -> (r: Vec3)
        requires
            self.wf(),
            d.wf(),
            -FACTOR_LIMIT <= t <= FACTOR_LIMIT,
        ensures
            r == along(*self, *d, t as int),
            r.wf(),
    {
        proof {
            lemma_mul_bound(d.x as int, t as int, LIMIT as int, FACTOR_LIMIT as int);
            lemma_mul_bound(d.y as int, t as int, LIMIT as int, FACTOR_LIMIT as int);
            lemma_mul_bound(d.z as int, t as int, LIMIT as int, FACTOR_LIMIT as int);
        }
        Vec3 {
            x: clamp_limit(self.x as i128 + div_trunc(d.x as i128 * t, SCALE as i128)),
            y: clamp_limit(self.y as i128 + div_trunc(d.y as i128 * t, SCALE as i128)),
            z: clamp_limit(self.z as i128 + div_trunc(d.z as i128 * t, SCALE as i128)),
        }
    }
}

impl Vec2 {
    pub open spec fn wf(self) -> bool {
        -LIMIT <= self.x <= LIMIT && -LIMIT <= self.y <= LIMIT
    }

    pub fn new(x: i64, y: i64) -> (r: Vec2)
        ensures
            r.x == clamp(x as int),
            r.y == clamp(y as int),
            r.wf(),
    {
        Vec2 { x: clamp_limit(x as i128), y: clamp_limit(y as i128) }
    }
}

/// Mirror image of `incident` about a surface with unit normal `surface_normal`.
pub fn reflect(incident: Vec3, surface_normal: Vec3) -> (r: Vec3)
    requires
        incident.wf(),
        surface_normal.wf(),
    ensures
        r == reflect_spec(incident, surface_normal),
        r.wf(),
{
    let d = incident.dot(&surface_normal);
    let dn = div_trunc(d, SCALE as i128);
    assert(-0x3_0000_0000_0000 <= dn <= 0x3_0000_0000_0000);
    let t: i128 = 0 - 2 * dn;
    incident.along(&surface_normal, t)
}

} // verus!
