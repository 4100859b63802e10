use rust_ray_tracer::lights::{DirectionalLight, LightEmitting, PointLight};
use rust_ray_tracer::math::{isqrt, reflect, Vec2, Vec3, LIMIT, SCALE};
use rust_ray_tracer::objects::{Intersectable, RayHit, Sphere};
use rust_ray_tracer::{light, ray_color, raycast, render, rgb_vec, Camera, Ray, Scene};

const SKY_PIXEL: u32 = 0xFF_FFFF;

fn unit_sphere() -> Intersectable {
    Intersectable::Sphere(Sphere::default())
}

#[test]
fn ray_through_center_hits_near_face() {
    let ray = Ray::new(Vec3::units(0, 0, 4), Vec3::units(0, 0, -1));
    let hit = Sphere::default().intersects(&ray).unwrap();
    assert_eq!(hit.t, 3 * SCALE as i128);
    assert_eq!(hit.position, Vec3::units(0, 0, 1));
    assert_eq!(hit.surface_normal, Vec3::units(0, 0, 1));
}

#[test]
fn ray_through_center_from_other_side() {
    let ray = Ray::new(Vec3::units(-7, 0, 0), Vec3::units(1, 0, 0));
    let sphere = Sphere::new(Vec3::units(0, 0, 0), 2 * SCALE);
    let hit = sphere.intersects(&ray).unwrap();
    assert_eq!(hit.t, 5 * SCALE as i128);
    assert_eq!(hit.surface_normal, Vec3::units(-1, 0, 0));
}

#[test]
fn ray_passing_wide_misses() {
    let ray = Ray::new(Vec3::units(0, 2, 4), Vec3::units(0, 0, -1));
    assert_eq!(Sphere::default().intersects(&ray), None);
}

#[test]
fn tangent_ray_touches_once() {
    let ray = Ray::new(Vec3::units(0, 1, 4), Vec3::units(0, 0, -1));
    let hit = Sphere::default().intersects(&ray).unwrap();
    assert_eq!(hit.t, 4 * SCALE as i128);
    assert_eq!(hit.position, Vec3::units(0, 1, 0));
    assert_eq!(hit.surface_normal, Vec3::units(0, 1, 0));
}

#[test]
fn sphere_behind_ray_is_not_hit() {
    let ray = Ray::new(Vec3::units(0, 0, 4), Vec3::units(0, 0, 1));
    assert_eq!(Sphere::default().intersects(&ray), None);
}

#[test]
fn ray_from_inside_sphere_is_not_hit() {
    let ray = Ray::new(Vec3::units(0, 0, 0), Vec3::units(0, 0, 1));
    assert_eq!(Sphere::default().intersects(&ray), None);
}

#[test]
fn zero_direction_is_not_hit() {
    let ray = Ray::new(Vec3::units(0, 0, 4), Vec3::zero());
    assert_eq!(Sphere::default().intersects(&ray), None);
}

#[test]
fn raycast_takes_nearest_object() {
    let mut scene = Scene::new();
    scene.objects.push(Intersectable::Sphere(Sphere::new(Vec3::units(0, 0, -5), SCALE)));
    scene.objects.push(unit_sphere());
    let ray = Ray::new(Vec3::units(0, 0, 4), Vec3::units(0, 0, -1));
    let payload = raycast(&ray, &scene).unwrap();
    assert_eq!(payload.hit_obj, 1);
    assert_eq!(payload.ray_hit.t, 3 * SCALE as i128);
}

#[test]
fn raycast_equal_distance_keeps_first() {
    let mut scene = Scene::new();
    scene.objects.push(unit_sphere());
    scene.objects.push(unit_sphere());
    let ray = Ray::new(Vec3::units(0, 0, 4), Vec3::units(0, 0, -1));
    assert_eq!(raycast(&ray, &scene).unwrap().hit_obj, 0);
}

#[test]
fn raycast_empty_scene_misses() {
    let scene = Scene::new();
    let ray = Ray::new(Vec3::units(0, 0, 4), Vec3::units(0, 0, -1));
    assert!(raycast(&ray, &scene).is_none());
}

fn top_of_unit_sphere() -> RayHit {
    RayHit { t: 1, position: Vec3::units(0, 1, 0), surface_normal: Vec3::units(0, 1, 0) }
}

#[test]
fn blocked_light_casts_shadow() {
    let mut scene = Scene::new();
    scene.objects.push(unit_sphere());
    scene.objects.push(Intersectable::Sphere(Sphere::new(Vec3::units(0, 3, 0), SCALE)));
    scene.lights.push(LightEmitting::Directional(DirectionalLight::default()));
    assert_eq!(light(&top_of_unit_sphere(), &scene), Vec3::zero());
    scene.objects.pop();
    assert_eq!(light(&top_of_unit_sphere(), &scene), Vec3::new(SCALE, SCALE, SCALE));
}

#[test]
fn lights_add_up() {
    let mut scene = Scene::new();
    scene.objects.push(unit_sphere());
    scene.lights.push(LightEmitting::Directional(DirectionalLight::default()));
    scene.lights.push(LightEmitting::Point(PointLight {
        position: Vec3::units(0, 10, 0),
        power: Vec3::new(SCALE, 0, 0),
    }));
    assert_eq!(light(&top_of_unit_sphere(), &scene), Vec3::new(2 * SCALE, SCALE, SCALE));
}

#[test]
fn surface_facing_away_gets_no_light() {
    let light_source = DirectionalLight::default();
    let lit = light_source.light_on(&Vec3::units(0, -1, 0), &Vec3::units(0, -1, 0));
    assert_eq!(lit, Vec3::zero());
    let lit = light_source.light_on(&Vec3::units(0, 1, 0), &Vec3::units(0, 1, 0));
    assert_eq!(lit, Vec3::new(SCALE, SCALE, SCALE));
}

#[test]
fn light_directions() {
    let directional = LightEmitting::Directional(DirectionalLight::default());
    assert_eq!(directional.dir_from(&Vec3::units(5, 5, 5)), Vec3::units(0, 1, 0));
    let point = LightEmitting::Point(PointLight { position: Vec3::units(0, 0, 3), power: Vec3::zero() });
    assert_eq!(point.dir_from(&Vec3::units(0, 0, -2)), Vec3::units(0, 0, 1));
}

#[test]
fn depth_zero_is_black() {
    let mut scene = Scene::new();
    scene.objects.push(unit_sphere());
    scene.lights.push(LightEmitting::Directional(DirectionalLight::default()));
    let ray = Ray::new(Vec3::units(0, 0, 4), Vec3::units(0, 0, -1));
    assert_eq!(ray_color(&ray, &scene, 0, None), Vec3::zero());
    let ray = Ray::new(Vec3::units(0, 0, 4), Vec3::units(0, 0, 1));
    assert_eq!(ray_color(&ray, &scene, 0, None), Vec3::zero());
}

#[test]
fn missed_primary_ray_sees_sky() {
    let scene = Scene::new();
    let ray = Ray::new(Vec3::units(0, 0, 4), Vec3::units(0, 0, -1));
    assert_eq!(ray_color(&ray, &scene, 2, None), Vec3::units(70, 180, 245));
}

#[test]
fn escaped_reflection_sees_lit_surface() {
    let mut scene = Scene::new();
    scene.objects.push(unit_sphere());
    scene.lights.push(LightEmitting::Directional(DirectionalLight::default()));
    // Straight down onto the top of the sphere: the reflection goes back up.
    let ray = Ray::new(Vec3::units(0, 4, 0), Vec3::units(0, -1, 0));
    assert_eq!(ray_color(&ray, &scene, 2, None), Vec3::new(SCALE / 2, SCALE / 2, SCALE / 2));
    assert_eq!(ray_color(&ray, &scene, 1, None), Vec3::new(SCALE / 2, SCALE / 2, SCALE / 2));
}

#[test]
fn empty_scene_renders_sky() {
    let camera = Camera::new(Vec3::units(0, 0, 4), Vec3::units(0, 0, -1));
    let scene = Scene::new();
    let frame = render(&camera, &scene, (3, 2));
    assert_eq!(frame, vec![SKY_PIXEL; 6]);
}

#[test]
fn render_zero_size_is_empty() {
    let camera = Camera::new(Vec3::units(0, 0, 4), Vec3::units(0, 0, -1));
    let scene = Scene::new();
    assert!(render(&camera, &scene, (0, 5)).is_empty());
    assert!(render(&camera, &scene, (5, 0)).is_empty());
}

fn demo_scene() -> Scene {
    let mut scene = Scene::default();
    scene.objects.push(unit_sphere());
    scene.lights.push(LightEmitting::Directional(DirectionalLight::default()));
    scene
}

#[test]
fn small_render_shows_sphere() {
    let camera = Camera::new(Vec3::units(0, 0, 4), Vec3::units(0, 0, -1));
    let scene = demo_scene();
    let frame = render(&camera, &scene, (4, 4));
    assert_eq!(frame.len(), 16);
    for corner in [0, 3, 12, 15] {
        assert_eq!(frame[corner], SKY_PIXEL);
    }
    for center in [6, 9, 10] {
        assert_ne!(frame[center], SKY_PIXEL);
    }
    assert!(frame.iter().all(|p| *p < 0x100_0000));
}

#[test]
fn render_twice_is_identical() {
    let camera = Camera::new(Vec3::units(0, 0, 4), Vec3::units(0, 0, -1));
    let mut scene = demo_scene();
    scene.objects.push(Intersectable::Sphere(Sphere::new(Vec3::new(2 * SCALE, SCALE / 2, -SCALE), SCALE)));
    let first = render(&camera, &scene, (8, 6));
    let second = render(&camera, &scene, (8, 6));
    assert_eq!(first, second);
}

#[test]
fn pixel_packing_clamps_channels() {
    assert_eq!(rgb_vec(Vec3::new(SCALE, SCALE / 2, 0)), 0xFF_7F00);
    assert_eq!(rgb_vec(Vec3::new(-SCALE, 3 * SCALE, SCALE / 4)), 0x00_FF3F);
    assert_eq!(rgb_vec(Vec3::units(70, 180, 245)), SKY_PIXEL);
}

#[test]
fn reflect_mirrors_about_normal() {
    let r = reflect(Vec3::new(SCALE, -SCALE, 0), Vec3::units(0, 1, 0));
    assert_eq!(r, Vec3::new(SCALE, SCALE, 0));
}

#[test]
fn vector_operations() {
    let a = Vec3::units(3, 4, 0);
    assert_eq!(a.dot(&a), 25 * (SCALE as i128) * (SCALE as i128));
    assert_eq!(a.length(), 5 * SCALE as i128);
    assert_eq!(a.normalize(), Vec3::new(2457, 3276, 0));
    assert_eq!(Vec3::zero().normalize(), Vec3::zero());
    assert_eq!(Vec3::units(0, 1, 0).cross(&Vec3::units(0, 0, -1)), Vec3::units(-1, 0, 0));
    assert_eq!(a.scale(SCALE as i128 / 2), Vec3::new(3 * SCALE / 2, 2 * SCALE, 0));
    assert_eq!(a.add(&a).sub(&a), a);
    assert_eq!(a.neg(), Vec3::units(-3, -4, 0));
    assert_eq!(Vec3::new(i64::MAX, i64::MIN, 7), Vec3::new(LIMIT, -LIMIT, 7));
}

#[test]
fn integer_square_root() {
    assert_eq!(isqrt(0), 0);
    assert_eq!(isqrt(10), 3);
    assert_eq!(isqrt(16), 4);
    assert_eq!(isqrt(u64::MAX as u128), 0xFFFF_FFFF);
}

#[test]
fn camera_normalizes_forward_and_aims_rays() {
    let camera = Camera::new(Vec3::units(0, 0, 4), Vec3::units(0, 0, -5));
    assert_eq!(camera.forward, Vec3::units(0, 0, -1));
    assert_eq!(camera.up, Vec3::units(0, 1, 0));
    let ray = camera.ray(Vec2::new(0, 0));
    assert_eq!(ray.position, Vec3::units(0, 0, 4));
    assert_eq!(ray.direction, Vec3::units(0, 0, -1));
    let ray = camera.ray(Vec2::new(SCALE / 2, SCALE / 2));
    assert_eq!(ray.direction, Vec3::new(-SCALE / 2, -SCALE / 2, -SCALE));
}

#[test]
fn far_apart_ray_and_sphere_keep_exact_offset() {
    let sphere = Sphere::new(Vec3::units(100, 0, 0), SCALE);
    let ray = Ray::new(Vec3::units(-4096, 0, 0), Vec3::units(1, 0, 0));
    let hit = sphere.intersects(&ray).unwrap();
    assert_eq!(hit.t, 4195 * SCALE as i128);
    assert_eq!(hit.position, Vec3::units(99, 0, 0));
    assert_eq!(hit.surface_normal, Vec3::units(-1, 0, 0));
}

#[test]
fn far_apart_line_that_misses_is_a_miss() {
    let sphere = Sphere::new(Vec3::new(LIMIT, 0, 0), 15099494);
    let ray = Ray::new(Vec3::new(-LIMIT, 0, 0), Vec3::new(SCALE, SCALE, 0));
    assert_eq!(sphere.intersects(&ray), None);
}

#[test]
fn camera_at_edge_of_range_keeps_direction() {
    let camera = Camera::new(Vec3::new(LIMIT, 0, 0), Vec3::units(1, 0, 0));
    let ray = camera.ray(Vec2::new(0, 0));
    assert_eq!(ray.position, Vec3::new(LIMIT, 0, 0));
    assert_eq!(ray.direction, Vec3::units(1, 0, 0));
}

#[test]
fn reflect_large_vector_flips_normal_component() {
    let r = reflect(Vec3::new(LIMIT, -LIMIT, 0), Vec3::units(0, 1, 0));
    assert_eq!(r, Vec3::new(LIMIT, LIMIT, 0));
    assert_eq!(reflect(r, Vec3::units(0, 1, 0)), Vec3::new(LIMIT, -LIMIT, 0));
}

#[test]
fn normalize_short_vector_has_unit_length() {
    let camera = Camera::new(Vec3::zero(), Vec3::new(1, 1, 0));
    assert_eq!(camera.forward, Vec3::new(2896, 2896, 0));
    let n = Vec3::new(0, 3, 4).normalize();
    assert_eq!(n, Vec3::new(0, 2457, 3276));
}

#[test]
fn tiny_sphere_gets_unit_normal() {
    let sphere = Sphere::new(Vec3::zero(), 2);
    let ray = Ray::new(Vec3::new(0, 0, 10), Vec3::new(0, 0, -SCALE));
    let hit = sphere.intersects(&ray).unwrap();
    assert_eq!(hit.surface_normal, Vec3::units(0, 0, 1));
}
