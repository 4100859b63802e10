//! Surfaces that rays can strike.
use vstd::prelude::*;

use crate::math::{
    along, div_trunc, dot, isqrt, lemma_mul_bound, normalize, sqrt_floor, tdiv, vsub, Vec3,
    LIMIT, SCALE,
};
use crate::Ray;

verus! {

/// Where a ray strikes a surface: `t` is the distance along the ray in
/// multiples of its direction (`SCALE` stands for one direction length).
#[derive(Clone, Copy, Debug, PartialEq, Eq)]
pub struct RayHit {
    pub t: i128,
    pub position: Vec3,
    pub surface_normal: Vec3,
}

#[derive(Clone, Copy, Debug, PartialEq, Eq)]
pub struct Sphere {
    pub position: Vec3,
    pub radius: i64,
}

/// A renderable surface.
#[derive(Clone, Copy, Debug, PartialEq, Eq)]
pub enum Intersectable {
    Sphere(Sphere),
}

impl RayHit {
    pub open spec fn wf(self) -> bool {
        self.t > 0 && self.position.wf() && self.surface_normal.wf()
    }
}

/// The ray's origin relative to the sphere's center, exact (not saturated).
pub open spec fn local_origin(s: Sphere, ray: Ray) -> (int, int, int) {
    (
        ray.position.x - s.position.x,
        ray.position.y - s.position.y,
        ray.position.z - s.position.z,
    )
}

/// `o . d`, with `o` the exact local origin and `d` the ray's direction.
pub open spec fn o_dot_d(s: Sphere, ray: Ray) -> int {
    let o = local_origin(s, ray);
    o.0 * ray.direction.x + o.1 * ray.direction.y + o.2 * ray.direction.z
}

/// `o . o`, with `o` the exact local origin.
pub open spec fn o_dot_o(s: Sphere, ray: Ray) -> int {
    let o = local_origin(s, ray);
    o.0 * o.0 + o.1 * o.1 + o.2 * o.2
}

/// Coefficients of `i t^2 + j t + k = 0`, whose roots are where the ray
/// meets the sphere.
pub open spec fn quad_i(ray: Ray) -> int {
    dot(ray.direction, ray.direction)
}

pub open spec fn quad_j(s: Sphere, ray: Ray) -> int {
    2 * o_dot_d(s, ray)
}

pub open spec fn quad_k(s: Sphere, ray: Ray) -> int {
    o_dot_o(s, ray) - s.radius * s.radius
}

pub open spec fn discriminant(s: Sphere, ray: Ray) -> int {
    quad_j(s, ray) * quad_j(s, ray) - 4 * quad_i(ray) * quad_k(s, ray)
}

/// The nearer root, in fixed point.
pub open spec fn near_root(s: Sphere, ray: Ray) -> int {
    tdiv((-quad_j(s, ray) - sqrt_floor(discriminant(s, ray))) * SCALE, 2 * quad_i(ray))
}

/// The farther root, in fixed point.
pub open spec fn far_root(s: Sphere, ray: Ray) -> int {
    tdiv((-quad_j(s, ray) + sqrt_floor(discriminant(s, ray))) * SCALE, 2 * quad_i(ray))
}

/// The hit at the nearer root, when the ray meets the sphere there in front
/// of its origin. A ray starting inside the sphere, or pointing away from
/// it, has no hit. Nor has one whose nearer root is under `1 / SCALE` of the
/// direction's length: it truncates to `t = 0` and counts as a miss.
pub open spec fn sphere_hit(s: Sphere, ray: Ray) -> Option<RayHit> {
    if quad_i(ray) == 0 || discriminant(s, ray) < 0 || near_root(s, ray) <= 0 {
        None
    } else {
        let t = near_root(s, ray);
        let p = along(ray.position, ray.direction, t);
        Some(RayHit { t: t as i128, position: p, surface_normal: normalize(vsub(p, s.position)) })
    }
}

impl Sphere {
    pub open spec fn wf(self) -> bool {
        self.position.wf() && 0 < self.radius <= LIMIT
    }

    pub fn new(position: Vec3, radius: i64) -> (r: Sphere)
        requires
            position.wf(),
            0 < radius <= LIMIT,
        ensures
            r == (Sphere { position, radius }),
            r.wf(),
    {
        Sphere { position, radius }
    }

    pub fn intersects(&self, ray: &Ray) -> (r: Option<RayHit>)
        requires
            self.wf(),
            ray.wf(),
        ensures
            r == sphere_hit(*self, *ray),
            r matches Some(h) ==> h.wf(),
    {
        let ox = ray.position.x as i128 - self.position.x as i128;
        let oy = ray.position.y as i128 - self.position.y as i128;
        let oz = ray.position.z as i128 - self.position.z as i128;
        let (dx, dy, dz) = (ray.direction.x as i128, ray.direction.y as i128, ray.direction.z as i128);
        let i = ray.direction.dot(&ray.direction);
        // The offset's components lie within 2 * LIMIT = 2^25 and the
        // direction's within 2^24, so |o . d| <= 3 * 2^49, |o . o| <= 3 * 2^50
        // and the discriminant stays below 2^108.
        proof {
            let l: int = LIMIT as int;
            lemma_mul_bound(ox as int, dx as int, 2 * l, l);
            lemma_mul_bound(oy as int, dy as int, 2 * l, l);
            lemma_mul_bound(oz as int, dz as int, 2 * l, l);
            lemma_mul_bound(ox as int, ox as int, 2 * l, 2 * l);
            lemma_mul_bound(oy as int, oy as int, 2 * l, 2 * l);
            lemma_mul_bound(oz as int, oz as int, 2 * l, 2 * l);
            lemma_mul_bound(self.radius as int, self.radius as int, l, l);
        }
        let od = ox * dx + oy * dy + oz * dz;
        let oo = ox * ox + oy * oy + oz * oz;
        let rr = self.radius as i128 * self.radius as i128;
        let j = 2 * od;
        let k = oo - rr;
        proof {
            let sq: int = 0x1_0000_0000_0000;
            lemma_mul_bound(j as int, j as int, 12 * sq, 12 * sq);
            lemma_mul_bound(i as int, k as int, 3 * sq, 13 * sq);
        }
        let discriminant = j * j - 4 * (i * k);
        assert(discriminant == crate::objects::discriminant(*self, *ray)) by (nonlinear_arith)
            requires
                discriminant == j * j - 4 * (i * k),
                j == quad_j(*self, *ray),
                i == quad_i(*ray),
                k == quad_k(*self, *ray),
        ;
        if i == 0 || discriminant < 0 {
            return None;
        }
        let s = isqrt(discriminant as u128);
        assert(s <= 0x100_0000_0000_0000) by (nonlinear_arith)
            requires
                s * s <= discriminant,
                discriminant <= 300 * 0x1_0000_0000_0000_0000_0000_0000,
                s >= 0,
        ;
        assert(i >= 1) by (nonlinear_arith)
            requires
                i == ray.direction.x * ray.direction.x + ray.direction.y * ray.direction.y
                    + ray.direction.z * ray.direction.z,
                i != 0,
        ;
        let t = div_trunc((-j - s as i128) * SCALE as i128, 2 * i);
        assert(-0x40_0000_0000_0000_0000 <= t <= 0x40_0000_0000_0000_0000) by {
            let a = (-j - s as i128) * SCALE as i128;
            assert(-0x40_0000_0000_0000_0000 <= a <= 0x40_0000_0000_0000_0000);
            if a >= 0 {
                assert(a / (2 * i) <= a) by (nonlinear_arith)
                    requires
                        a >= 0,
                        i >= 1,
                ;
            } else {
                assert((-a) / (2 * i) <= -a) by (nonlinear_arith)
                    requires
                        a < 0,
                        i >= 1,
                ;
            }
        }
        if t <= 0 {
            return None;
        }
        let position = ray.position.along(&ray.direction, t);
        let surface_normal = position.sub(&self.position).normalize();
        Some(RayHit { t, position, surface_normal })
    }
}

impl Intersectable {
    pub open spec fn wf(self) -> bool {
        match self {
            Intersectable::Sphere(s) => s.wf(),
        }
    }

    pub open spec fn hit(self, ray: Ray) -> Option<RayHit> {
        match self {
            Intersectable::Sphere(s) => sphere_hit(s, ray),
        }
    }

    pub fn intersects(&self, ray: &Ray) -> (r: Option<RayHit>)
        requires
            self.wf(),
            ray.wf(),
        ensures
            r == self.hit(*ray),
            r matches Some(h) ==> h.wf(),
    {
        match self {
            Intersectable::Sphere(s) => s.intersects(ray),
        }
    }
}

impl Default for Sphere {
    /// The unit sphere at the origin.
    fn default() -> (r: Sphere)
        ensures
            r == (Sphere { position: Vec3 { x: 0, y: 0, z: 0 }, radius: SCALE }),
    {
        Sphere { position: Vec3::zero(), radius: SCALE }
    }
}

} // verus!
