//! Properties of the renderer, proved from the contracts' models.
use vstd::prelude::*;

use crate::math::{dot, lemma_sqrt_square, sqrt_floor, tdiv, LIMIT, SCALE};
use crate::objects::{
    discriminant, far_root, local_origin, near_root, o_dot_d, o_dot_o, quad_i, quad_j, quad_k,
    sphere_hit, Sphere,
};
use crate::math::{vadd, vec3};
use crate::objects::Intersectable;
use crate::{
    black, frame, light_spec, lit, nearest, pack, pixel_spec, ray_color_spec, raycast_spec,
    shadow_ray, sky, Camera, Ray, RayHit, RayPayload, Scene,
};

verus! {

/// With no bounces left a ray is black, whatever the ray and the scene.
pub proof fn lemma_depth_zero_black(ray: Ray, scene: &Scene, prior: Option<RayPayload>)
    ensures
        ray_color_spec(ray, scene, 0, prior) == black(),
{
}

/// A scene without objects is hit by no ray.
pub proof fn lemma_raycast_empty(ray: Ray, scene: &Scene)
    requires
        scene.objects@.len() == 0,
    ensures
        raycast_spec(ray, scene) is None,
{
}

/// A scene without objects renders every pixel in the sky color.
pub proof fn lemma_empty_scene_sky(camera: Camera, scene: &Scene, w: nat, h: nat)
    requires
        scene.objects@.len() == 0,
    ensures
        frame(camera, scene, w, h).len() == w * h,
        forall|i: int| 0 <= i < w * h ==> #[trigger] frame(camera, scene, w, h)[i] == pack(sky()),
{
    assert forall|i: int| 0 <= i < w * h implies #[trigger] frame(camera, scene, w, h)[i] == pack(sky()) by {
        let x = i % (w as int);
        let y = i / (w as int);
        assert(frame(camera, scene, w, h)[i] == pixel_spec(camera, scene, x, y, w as int, h as int));
    }
}

/// Rendering twice with the same camera, scene and size gives the same
/// pixels.
pub proof fn lemma_render_idempotent(
    camera: Camera,
    scene: &Scene,
    w: nat,
    h: nat,
    first: Seq<u32>,
    second: Seq<u32>,
)
    requires
        first == frame(camera, scene, w, h),
        second == frame(camera, scene, w, h),
    ensures
        first == second,
{
}

/// A ray whose line passes farther from the sphere's center than its radius
/// (`|o|^2 |d|^2 - (o.d)^2 > r^2 |d|^2`, with `o` the origin relative to the
/// center) has a negative discriminant and misses.
pub proof fn lemma_miss(s: Sphere, ray: Ray)
    requires
        ({
            let d = ray.direction;
            o_dot_o(s, ray) * dot(d, d) - o_dot_d(s, ray) * o_dot_d(s, ray) > s.radius * s.radius
                * dot(d, d)
        }),
    ensures
        discriminant(s, ray) < 0,
        sphere_hit(s, ray) is None,
{
    let d = ray.direction;
    let (oo, dd, od, rr) = (o_dot_o(s, ray), dot(d, d), o_dot_d(s, ray), s.radius * s.radius);
    assert(discriminant(s, ray) == 4 * (od * od - dd * (oo - rr))) by (nonlinear_arith)
        requires
            discriminant(s, ray) == quad_j(s, ray) * quad_j(s, ray) - 4 * quad_i(ray) * quad_k(
                s,
                ray,
            ),
            quad_j(s, ray) == 2 * od,
            quad_i(ray) == dd,
            quad_k(s, ray) == oo - rr,
    ;
    assert(od * od - dd * (oo - rr) < 0) by (nonlinear_arith)
        requires
            oo * dd - od * od > rr * dd,
    ;
}

/// A ray whose line just touches the sphere (`|o|^2 |d|^2 - (o.d)^2 =
/// r^2 |d|^2`) has a zero discriminant, and its two roots coincide.
pub proof fn lemma_tangent(s: Sphere, ray: Ray)
    requires
        dot(ray.direction, ray.direction) > 0,
        ({
            let d = ray.direction;
            o_dot_o(s, ray) * dot(d, d) - o_dot_d(s, ray) * o_dot_d(s, ray) == s.radius * s.radius
                * dot(d, d)
        }),
    ensures
        discriminant(s, ray) == 0,
        near_root(s, ray) == far_root(s, ray),
        near_root(s, ray) == tdiv(-quad_j(s, ray) * SCALE, 2 * quad_i(ray)),
{
    let d = ray.direction;
    let (oo, dd, od, rr) = (o_dot_o(s, ray), dot(d, d), o_dot_d(s, ray), s.radius * s.radius);
    assert(discriminant(s, ray) == 4 * (od * od - dd * (oo - rr))) by (nonlinear_arith)
        requires
            discriminant(s, ray) == quad_j(s, ray) * quad_j(s, ray) - 4 * quad_i(ray) * quad_k(
                s,
                ray,
            ),
            quad_j(s, ray) == 2 * od,
            quad_i(ray) == dd,
            quad_k(s, ray) == oo - rr,
    ;
    assert(od * od - dd * (oo - rr) == 0) by (nonlinear_arith)
        requires
            oo * dd - od * od == rr * dd,
    ;
    lemma_sqrt_square(0);
    assert(sqrt_floor(0) == 0);
}

/// A ray aimed at the center of a sphere, starting `k` direction lengths
/// before it with a direction of unit length, meets the sphere at distance
/// `k - r` (in fixed point: `k * SCALE - radius`).
pub proof fn lemma_through_center(s: Sphere, ray: Ray, k: int)
    requires
        s.wf(),
        dot(ray.direction, ray.direction) == SCALE * SCALE,
        k * SCALE > s.radius,
        k <= LIMIT,
        local_origin(s, ray) == (-k * ray.direction.x, -k * ray.direction.y, -k * ray.direction.z),
    ensures
        near_root(s, ray) == k * SCALE - s.radius,
        sphere_hit(s, ray) matches Some(h) && h.t == k * SCALE - s.radius,
{
    let o = local_origin(s, ray);
    let d = ray.direction;
    let (ox, oy, oz) = (o.0, o.1, o.2);
    let ss = SCALE as int;
    let r = s.radius as int;
    let dd = dot(d, d);
    assert(o_dot_d(s, ray) == -k * dd) by (nonlinear_arith)
        requires
            ox == -k * d.x,
            oy == -k * d.y,
            oz == -k * d.z,
            o_dot_d(s, ray) == ox * d.x + oy * d.y + oz * d.z,
            dd == d.x * d.x + d.y * d.y + d.z * d.z,
    ;
    assert(ox * ox == k * k * (d.x * d.x)) by (nonlinear_arith)
        requires
            ox == -k * d.x,
    ;
    assert(oy * oy == k * k * (d.y * d.y)) by (nonlinear_arith)
        requires
            oy == -k * d.y,
    ;
    assert(oz * oz == k * k * (d.z * d.z)) by (nonlinear_arith)
        requires
            oz == -k * d.z,
    ;
    let kk = k * k;
    assert(kk * (d.x * d.x + d.y * d.y + d.z * d.z) == kk * (d.x * d.x) + kk * (d.y * d.y) + kk * (d.z
        * d.z)) by (nonlinear_arith);
    assert(o_dot_o(s, ray) == kk * dd);
    let j = quad_j(s, ray);
    let i = quad_i(ray);
    let q = quad_k(s, ray);
    assert(j * j == 4 * (kk * dd) * dd) by (nonlinear_arith)
        requires
            j == 2 * (-k * dd),
            kk == k * k,
    ;
    assert(4 * i * q == 4 * (kk * dd) * dd - 4 * dd * (r * r)) by (nonlinear_arith)
        requires
            i == dd,
            q == kk * dd - r * r,
    ;
    assert(4 * dd * (r * r) == (2 * ss * r) * (2 * ss * r)) by (nonlinear_arith)
        requires
            dd == ss * ss,
    ;
    assert(discriminant(s, ray) == (2 * ss * r) * (2 * ss * r));
    lemma_sqrt_square(2 * ss * r);
    let num = (-quad_j(s, ray) - sqrt_floor(discriminant(s, ray))) * ss;
    let den = 2 * quad_i(ray);
    assert(num == (k * ss - r) * den) by (nonlinear_arith)
        requires
            num == (-quad_j(s, ray) - 2 * ss * r) * ss,
            quad_j(s, ray) == 2 * (-k * dd),
            den == 2 * dd,
            dd == ss * ss,
    ;
    assert(num / den == k * ss - r) by (nonlinear_arith)
        requires
            num == (k * ss - r) * den,
            den > 0,
    ;
    assert(quad_i(ray) != 0);
    assert(num >= 0) by (nonlinear_arith)
        requires
            num == (k * ss - r) * den,
            den > 0,
            k * ss - r > 0,
    ;
}

/// What the nearest-hit search finds among the first `n` objects: nothing
/// exactly when none of them is hit; otherwise a hit of object `hit_obj` no
/// farther than any other object's hit and strictly nearer than the hit of
/// every earlier object, so that the first of equally near objects wins.
pub proof fn lemma_nearest_is_least(ray: Ray, objs: Seq<Intersectable>, n: int)
    requires
        0 <= n <= objs.len(),
        n <= usize::MAX,
        forall|m: int|
            0 <= m < n ==> (#[trigger] objs[m].hit(ray) matches Some(h) ==> h.t < i128::MAX),
    ensures
        nearest(ray, objs, n) is None <==> (forall|m: int|
            0 <= m < n ==> (#[trigger] objs[m].hit(ray)) is None),
        nearest(ray, objs, n) matches Some(p) ==> {
            &&& 0 <= p.hit_obj < n
            &&& objs[p.hit_obj as int].hit(ray) == Some(p.ray_hit)
            &&& forall|m: int|
                0 <= m < n ==> (#[trigger] objs[m].hit(ray) matches Some(h) ==> p.ray_hit.t
                    <= h.t)
            &&& forall|m: int|
                0 <= m < p.hit_obj ==> (#[trigger] objs[m].hit(ray) matches Some(h)
                    ==> p.ray_hit.t < h.t)
        },
    decreases n,
{
    if n > 0 {
        lemma_nearest_is_least(ray, objs, n - 1);
        let prev = nearest(ray, objs, n - 1);
        if let Some(h) = objs[n - 1].hit(ray) {
            if (h.t as int) < crate::best_t(prev) {
                let p = RayPayload { hit_obj: (n - 1) as usize, ray_hit: h };
                assert(nearest(ray, objs, n) == Some(p));
                assert(p.hit_obj as int == n - 1);
            }
        }
    }
}

/// With a single light, a point whose ray toward the light meets an object
/// gets no light; once nothing stands in the way, it gets the light's full
/// contribution.
pub proof fn lemma_shadow(hit: RayHit, scene: &Scene)
    requires
        scene.lights@.len() == 1,
        scene.lights@[0].light_on_spec(hit.position, hit.surface_normal).wf(),
    ensures
        raycast_spec(shadow_ray(hit, scene.lights@[0]), scene) is Some ==> light_spec(hit, scene)
            == vec3(0, 0, 0),
        raycast_spec(shadow_ray(hit, scene.lights@[0]), scene) is None ==> light_spec(hit, scene)
            == scene.lights@[0].light_on_spec(hit.position, hit.surface_normal),
{
    assert(lit(hit, scene, 0) == vec3(0, 0, 0));
    let c = scene.lights@[0].light_on_spec(hit.position, hit.surface_normal);
    assert(vadd(vec3(0, 0, 0), c) == c);
}

/// Adding an object that the ray from `hit` toward the scene's only light
/// meets puts `hit` in shadow: a lit point goes dark, and removing the object
/// again restores the light.
pub proof fn lemma_blocker_casts_shadow(hit: RayHit, scene: &Scene, scene_b: &Scene, b: Intersectable)
    requires
        scene.lights@.len() == 1,
        scene_b.lights@ == scene.lights@,
        scene_b.objects@ == scene.objects@.push(b),
        scene_b.objects@.len() <= usize::MAX,
        scene.lights@[0].light_on_spec(hit.position, hit.surface_normal).wf(),
        raycast_spec(shadow_ray(hit, scene.lights@[0]), scene) is None,
        b.hit(shadow_ray(hit, scene.lights@[0])) matches Some(h) && h.t < i128::MAX,
        forall|m: int|
            0 <= m < scene_b.objects@.len() ==> (#[trigger] scene_b.objects@[m].hit(
                shadow_ray(hit, scene.lights@[0]),
            ) matches Some(h) ==> h.t < i128::MAX),
    ensures
        light_spec(hit, scene_b) == vec3(0, 0, 0),
        light_spec(hit, scene) == scene.lights@[0].light_on_spec(hit.position, hit.surface_normal),
{
    let l = scene.lights@[0];
    let r = shadow_ray(hit, l);
    let objs = scene_b.objects@;
    let n = objs.len() as int;
    assert(objs[n - 1] == b);
    assert(objs[n - 1].hit(r) is Some);
    lemma_nearest_is_least(r, objs, n);
    assert(scene_b.lights@[0] == l);
    lemma_shadow(hit, scene);
    lemma_shadow(hit, scene_b);
}

} // verus!
