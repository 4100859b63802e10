//! A ray tracer in fixed-point arithmetic: camera rays, nearest-hit search
//! over spheres, direct lighting with hard shadows, mirror reflection to a
//! bounded depth, and packing of colors into 24-bit pixels.
use vstd::prelude::*;

pub mod lemmas;
pub mod lights;
pub mod math;
pub mod objects;

use crate::lights::LightEmitting;
use crate::math::{
    along, clamp, clamp_limit, cross, div_trunc, dot, normalize, reflect, reflect_spec, scale, tdiv, vadd,
    vec3, Vec2, Vec3, LIMIT, SCALE,
};
use crate::objects::{Intersectable, RayHit};
use vstd::arithmetic::div_mod::lemma_fundamental_div_mod_converse;

verus! {

/// Offset, in raw units per unit of direction, that moves a secondary ray
/// off the surface it starts on (about a thousandth of a world unit).
pub const EPSILON: i128 = 4;

/// The fixed-point one half: every bounce keeps half the light.
pub const HALF: i128 = 2048;

/// Bounces traced for each pixel.
pub const DEPTH: u32 = 2;

/// A half-line: `direction` need not have unit length.
#[derive(Clone, Copy, Debug, PartialEq, Eq)]
pub struct Ray {
    pub position: Vec3,
    pub direction: Vec3,
}

impl Ray {
    pub open spec fn wf(self) -> bool {
        self.position.wf() && self.direction.wf()
    }

    pub fn new(position: Vec3, direction: Vec3) -> (r: Ray)
        ensures
            r == (Ray { position, direction }),
    {
        Ray { position, direction }
    }
}

/// A hit together with the index, in the scene's objects, of what was hit.
#[derive(Clone, Copy, Debug, PartialEq, Eq)]
pub struct RayPayload {
    pub hit_obj: usize,
    pub ray_hit: RayHit,
}

#[derive(Clone, Copy, Debug, PartialEq, Eq)]
pub struct Camera {
    pub position: Vec3,
    pub forward: Vec3,
    pub up: Vec3,
}

/// The world: surfaces and lights, read only while rendering.
pub struct Scene {
    pub objects: Vec<Intersectable>,
    pub lights: Vec<LightEmitting>,
}

pub open spec fn sky() -> Vec3 {
    Vec3 { x: (70 * SCALE) as i64, y: (180 * SCALE) as i64, z: (245 * SCALE) as i64 }
}

pub open spec fn black() -> Vec3 {
    Vec3 { x: 0, y: 0, z: 0 }
}

/// The ray through screen point `uv`: toward the target `forward` one unit
/// ahead, `uv.y` down along `up`, `uv.x` along `up x forward`. The direction
/// is that offset from the position, computed exactly and saturated once.
pub open spec fn camera_ray(c: Camera, uv: Vec2) -> Ray {
    let right = cross(c.up, c.forward);
    let s = SCALE as int;
    Ray {
        position: c.position,
        direction: vec3(
            c.forward.x - tdiv(c.up.x * uv.y, s) + tdiv(right.x * uv.x, s),
            c.forward.y - tdiv(c.up.y * uv.y, s) + tdiv(right.y * uv.x, s),
            c.forward.z - tdiv(c.up.z * uv.y, s) + tdiv(right.z * uv.x, s),
        ),
    }
}

impl Camera {
    pub open spec fn wf(self) -> bool {
        self.position.wf() && self.forward.wf() && self.up.wf()
    }

    /// A camera looking along `forward`, which should be non-zero.
    pub fn new(position: Vec3, forward: Vec3) -> (r: Camera)
        requires
            position.wf(),
            forward.wf(),
        ensures
            r.position == position,
            r.forward == normalize(forward),
            dot(forward, forward) > 0 ==> dot(r.forward, r.forward) < (SCALE + 1) * (SCALE + 1),
            r.up == vec3(0, SCALE as int, 0),
            r.wf(),
    {
        Camera { position, forward: forward.normalize(), up: Vec3::new(0, SCALE, 0) }
    }

    pub fn ray(&self, uv: Vec2) -> (r: Ray)
        requires
            self.wf(),
            uv.wf(),
        ensures
            r == camera_ray(*self, uv),
            r.wf(),
    {
        let right = self.up.cross(&self.forward);
        let (u, v) = (uv.x as i128, uv.y as i128);
        let s = SCALE as i128;
        proof {
            let l = LIMIT as int;
            crate::math::lemma_mul_bound(self.up.x as int, v as int, l, l);
            crate::math::lemma_mul_bound(self.up.y as int, v as int, l, l);
            crate::math::lemma_mul_bound(self.up.z as int, v as int, l, l);
            crate::math::lemma_mul_bound(right.x as int, u as int, l, l);
            crate::math::lemma_mul_bound(right.y as int, u as int, l, l);
            crate::math::lemma_mul_bound(right.z as int, u as int, l, l);
        }
        let dx = self.forward.x as i128 - div_trunc(self.up.x as i128 * v, s) + div_trunc(right.x as i128 * u, s);
        let dy = self.forward.y as i128 - div_trunc(self.up.y as i128 * v, s) + div_trunc(right.y as i128 * u, s);
        let dz = self.forward.z as i128 - div_trunc(self.up.z as i128 * v, s) + div_trunc(right.z as i128 * u, s);
        Ray {
            position: self.position,
            direction: Vec3 { x: clamp_limit(dx), y: clamp_limit(dy), z: clamp_limit(dz) },
        }
    }
}

impl Scene {
    pub open spec fn wf(&self) -> bool {
        &&& forall|i: int| 0 <= i < self.objects@.len() ==> (#[trigger] self.objects@[i]).wf()
        &&& forall|i: int| 0 <= i < self.lights@.len() ==> (#[trigger] self.lights@[i]).wf()
    }

    pub fn new() -> (r: Scene)
        ensures
            r.objects@.len() == 0,
            r.lights@.len() == 0,
            r.wf(),
    {
        Scene { objects: Vec::new(), lights: Vec::new() }
    }
}

impl Default for Scene {
    fn default() -> (r: Scene)
        ensures
            r.objects@.len() == 0,
            r.lights@.len() == 0,
    {
        Scene::new()
    }
}

pub open spec fn best_t(p: Option<RayPayload>) -> int {
    match p {
        Some(q) => q.ray_hit.t as int,
        None => i128::MAX as int,
    }
}

/// The nearest hit among the first `n` objects; on equal distances the
/// earlier object wins.
pub open spec fn nearest(ray: Ray, objs: Seq<Intersectable>, n: int) -> Option<RayPayload>
    decreases n,
{
    if n <= 0 {
        None
    } else {
        let prev = nearest(ray, objs, n - 1);
        match objs[n - 1].hit(ray) {
            Some(h) => if (h.t as int) < best_t(prev) {
                Some(RayPayload { hit_obj: (n - 1) as usize, ray_hit: h })
            } else {
                prev
            },
            None => prev,
        }
    }
}

pub open spec fn raycast_spec(ray: Ray, scene: &Scene) -> Option<RayPayload> {
    nearest(ray, scene.objects@, scene.objects@.len() as int)
}

/// The ray from a hit toward light `l`, nudged off the surface.
pub open spec fn shadow_ray(hit: RayHit, l: LightEmitting) -> Ray {
    let d = l.dir_from_spec(hit.position);
    Ray { position: along(hit.position, d, EPSILON as int), direction: d }
}

/// Light from the first `n` lights of the scene that reaches `hit`
/// unobstructed.
pub open spec fn lit(hit: RayHit, scene: &Scene, n: int) -> Vec3
    decreases n,
{
    if n <= 0 {
        vec3(0, 0, 0)
    } else {
        let prev = lit(hit, scene, n - 1);
        let l = scene.lights@[n - 1];
        if raycast_spec(shadow_ray(hit, l), scene) is None {
            vadd(prev, l.light_on_spec(hit.position, hit.surface_normal))
        } else {
            prev
        }
    }
}

pub open spec fn light_spec(hit: RayHit, scene: &Scene) -> Vec3 {
    lit(hit, scene, scene.lights@.len() as int)
}

/// The ray reflected at a hit, nudged off the surface.
pub open spec fn bounce(ray: Ray, hit: RayHit) -> Ray {
    let d = reflect_spec(ray.direction, hit.surface_normal);
    Ray { position: along(hit.position, d, EPSILON as int), direction: d }
}

/// Color seen along `ray` with `depth` bounces left. A reflected ray that
/// escapes the scene sees the direct light of the surface it left.
pub open spec fn ray_color_spec(ray: Ray, scene: &Scene, depth: nat, prior: Option<RayPayload>) -> Vec3
    decreases depth,
{
    if depth == 0 {
        black()
    } else {
        match raycast_spec(ray, scene) {
            Some(p) => if depth == 1 {
                scale(light_spec(p.ray_hit, scene), HALF as int)
            } else {
                scale(
                    ray_color_spec(bounce(ray, p.ray_hit), scene, (depth - 1) as nat, Some(p)),
                    HALF as int,
                )
            },
            None => match prior {
                Some(q) => light_spec(q.ray_hit, scene),
                None => sky(),
            },
        }
    }
}

/// A fixed-point color channel as an 8-bit value, clamped to `[0, 255]`.
pub open spec fn channel(c: int) -> int {
    let v = tdiv(255 * c, SCALE as int);
    if v < 0 {
        0
    } else if v > 255 {
        255
    } else {
        v
    }
}

pub open spec fn pack(c: Vec3) -> u32 {
    (channel(c.x as int) * 65536 + channel(c.y as int) * 256 + channel(c.z as int)) as u32
}

/// Screen coordinate of pixel `(x, y)`: centered on the origin, the
/// horizontal axis stretched by the aspect ratio.
pub open spec fn screen_uv(x: int, y: int, w: int, h: int) -> Vec2 {
    let u = x * SCALE / w - SCALE / 2;
    let v = y * SCALE / h - SCALE / 2;
    Vec2 { x: clamp(tdiv(u * w, h)) as i64, y: clamp(v) as i64 }
}

pub open spec fn pixel_spec(camera: Camera, scene: &Scene, x: int, y: int, w: int, h: int) -> u32 {
    pack(ray_color_spec(camera_ray(camera, screen_uv(x, y, w, h)), scene, DEPTH as nat, None))
}

/// The image of `scene`, `w` by `h` pixels, row by row from the top left.
pub open spec fn frame(camera: Camera, scene: &Scene, w: nat, h: nat) -> Seq<u32> {
    Seq::new(w * h, |i: int| pixel_spec(camera, scene, i % (w as int), i / (w as int), w as int, h as int))
}

fn sky_color() -> (r: Vec3)
    ensures
        r == sky(),
        r.wf(),
{
    Vec3 { x: 70 * SCALE, y: 180 * SCALE, z: 245 * SCALE }
}

/// The nearest object that `ray` hits, if any.
pub fn raycast(ray: &Ray, scene: &Scene) -> (r: Option<RayPayload>)
    requires
        ray.wf(),
        scene.wf(),
    ensures
        r == raycast_spec(*ray, scene),
        r matches Some(p) ==> p.ray_hit.wf() && p.hit_obj < scene.objects@.len(),
{
    let mut closest_hit: Option<RayPayload> = None;
    let mut min_t: i128 = i128::MAX;
    let mut idx: usize = 0;
    while idx < scene.objects.len()
        invariant
            scene.wf(),
            ray.wf(),
            idx <= scene.objects@.len(),
            closest_hit == nearest(*ray, scene.objects@, idx as int),
            min_t == best_t(closest_hit),
            closest_hit matches Some(p) ==> p.ray_hit.wf() && p.hit_obj < idx,
        decreases scene.objects@.len() - idx,
    {
        if let Some(hit) = scene.objects[idx].intersects(ray) {
            if hit.t < min_t {
                min_t = hit.t;
                closest_hit = Some(RayPayload { hit_obj: idx, ray_hit: hit });
            }
        }
        idx += 1;
    }
    closest_hit
}

/// Sum of the light that reaches `rayhit` from each light not blocked by
/// any object.
pub fn light(rayhit: &RayHit, scene: &Scene) -> (r: Vec3)
    requires
        rayhit.wf(),
        scene.wf(),
    ensures
        r == light_spec(*rayhit, scene),
        r.wf(),
{
    let mut cumulative_light = Vec3::zero();
    let mut idx: usize = 0;
    while idx < scene.lights.len()
        invariant
            scene.wf(),
            rayhit.wf(),
            idx <= scene.lights@.len(),
            cumulative_light == lit(*rayhit, scene, idx as int),
            cumulative_light.wf(),
        decreases scene.lights@.len() - idx,
    {
        let l = &scene.lights[idx];
        let to_light = l.dir_from(&rayhit.position);
        let los_ray = Ray { position: rayhit.position.along(&to_light, EPSILON), direction: to_light };
        if raycast(&los_ray, scene).is_none() {
            cumulative_light = cumulative_light.add(&l.light_on(&rayhit.position, &rayhit.surface_normal));
        }
        idx += 1;
    }
    cumulative_light
}

/// Color seen along `ray` with `depth` bounces left; `prev_result` is the
/// hit that the ray was reflected from, if any.
pub fn ray_color(ray: &Ray, scene: &Scene, depth: u32, prev_result: Option<RayPayload>) -> (r: Vec3)
    requires
        ray.wf(),
        scene.wf(),
        prev_result matches Some(q) ==> q.ray_hit.wf(),
    ensures
        r == ray_color_spec(*ray, scene, depth as nat, prev_result),
        r.wf(),
        depth == 0 ==> r == black(),
    decreases depth,
{
    if depth == 0 {
        return Vec3::zero();
    }
    if let Some(ray_result) = raycast(ray, scene) {
        let reflect_direction = reflect(ray.direction, ray_result.ray_hit.surface_normal);
        let new_ray = Ray {
            position: ray_result.ray_hit.position.along(&reflect_direction, EPSILON),
            direction: reflect_direction,
        };
        if depth == 1 {
            return light(&ray_result.ray_hit, scene).scale(HALF);
        } else {
            return ray_color(&new_ray, scene, depth - 1, Some(ray_result)).scale(HALF);
        }
    }
    match prev_result {
        Some(ray_payload) => light(&ray_payload.ray_hit, scene),
        None => sky_color(),
    }
}

fn channel_exec(c: i64) -> (r: i128)
    requires
        -LIMIT <= c <= LIMIT,
    ensures
        r == channel(c as int),
        0 <= r <= 255,
{
    let v = div_trunc(255 * c as i128, SCALE as i128);
    if v < 0 {
        0
    } else if v > 255 {
        255
    } else {
        v
    }
}

/// Packs three 8-bit channels, red highest.
fn rgb(r: i128, g: i128, b: i128) -> (p: u32)
    requires
        0 <= r <= 255,
        0 <= g <= 255,
        0 <= b <= 255,
    ensures
        p == r * 65536 + g * 256 + b,
{
    (r * 65536 + g * 256 + b) as u32
}

/// A color as a packed 24-bit pixel, each channel clamped to `[0, 255]`.
pub fn rgb_vec(color: Vec3) -> (r: u32)
    requires
        color.wf(),
    ensures
        r == pack(color),
        r < 0x100_0000,
{
    rgb(channel_exec(color.x), channel_exec(color.y), channel_exec(color.z))
}

fn screen_coord(x: usize, y: usize, w: usize, h: usize) -> (r: Vec2)
    requires
        x < w,
        y < h,
    ensures
        r == screen_uv(x as int, y as int, w as int, h as int),
        r.wf(),
{
    let u = (x as i128 * SCALE as i128) / w as i128 - (SCALE / 2) as i128;
    let v = (y as i128 * SCALE as i128) / h as i128 - (SCALE / 2) as i128;
    assert(0 <= u + SCALE / 2 <= SCALE) by (nonlinear_arith)
        requires
            u + SCALE / 2 == (x * SCALE) / (w as int),
            x < w,
    ;
    assert(0 <= v + SCALE / 2 <= SCALE) by (nonlinear_arith)
        requires
            v + SCALE / 2 == (y * SCALE) / (h as int),
            y < h,
    ;
    proof {
        crate::math::lemma_mul_bound(u as int, w as int, 2048, usize::MAX as int);
    }
    Vec2 { x: clamp_limit(div_trunc(u * w as i128, h as i128)), y: clamp_limit(v) }
}

fn pixel(camera: &Camera, scene: &Scene, uv: Vec2) -> (r: u32)
    requires
        camera.wf(),
        scene.wf(),
        uv.wf(),
    ensures
        r == pack(ray_color_spec(camera_ray(*camera, uv), scene, DEPTH as nat, None)),
{
    let color = ray_color(&camera.ray(uv), scene, DEPTH, None);
    rgb_vec(color)
}

/// Renders `scene` at `size.0` by `size.1` pixels, row by row from the top
/// left.
pub fn render(camera: &Camera, scene: &Scene, size: (usize, usize)) -> (r: Vec<u32>)
    requires
        camera.wf(),
        scene.wf(),
        size.0 * size.1 <= usize::MAX,
    ensures
        r@ == frame(*camera, scene, size.0 as nat, size.1 as nat),
{
    let (size_x, size_y) = size;
    let mut buffer: Vec<u32> = Vec::new();
    let mut y: usize = 0;
    while y < size_y
        invariant
            camera.wf(),
            scene.wf(),
            size_x * size_y <= usize::MAX,
            y <= size_y,
            buffer@.len() == y * size_x,
            forall|k: int|
                0 <= k < buffer@.len() ==> buffer@[k] == pixel_spec(
                    *camera,
                    scene,
                    k % (size_x as int),
                    k / (size_x as int),
                    size_x as int,
                    size_y as int,
                ),
        decreases size_y - y,
    {
        let mut x: usize = 0;
        while x < size_x
            invariant
                camera.wf(),
                scene.wf(),
                size_x * size_y <= usize::MAX,
                y < size_y,
                x <= size_x,
                buffer@.len() == y * size_x + x,
                forall|k: int|
                    0 <= k < buffer@.len() ==> buffer@[k] == pixel_spec(
                        *camera,
                        scene,
                        k % (size_x as int),
                        k / (size_x as int),
                        size_x as int,
                        size_y as int,
                    ),
            decreases size_x - x,
        {
            let uv = screen_coord(x, y, size_x, size_y);
            let p = pixel(camera, scene, uv);
            proof {
                lemma_fundamental_div_mod_converse(
                    buffer@.len() as int,
                    size_x as int,
                    y as int,
                    x as int,
                );
            }
            buffer.push(p);
            x += 1;
        }
        assert((y + 1) * size_x == y * size_x + size_x) by (nonlinear_arith);
        y += 1;
    }
    assert(buffer@.len() == size_x * size_y) by (nonlinear_arith)
        requires
            buffer@.len() == y * size_x,
            y == size_y,
    ;
    assert(buffer@ =~= frame(*camera, scene, size_x as nat, size_y as nat));
    buffer
}

} // verus!
