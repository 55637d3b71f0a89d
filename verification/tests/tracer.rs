//! Scenario tests for the tracer: intersection, scene scan, materials,
//! camera and the integrator. One whole unit is 65536 raw steps.

use ray_tracer::camera::Camera;
use ray_tracer::color_utils::write_color;
use ray_tracer::fixed::{fx_div, fx_mul, fx_sqrt, FX_ONE};
use ray_tracer::hittable::HitRecord;
use ray_tracer::hittable_list::HittableList;
use ray_tracer::integrator::ray_color;
use ray_tracer::material::{Dielectric, Lambertian, Material, Metal};
use ray_tracer::ray::Ray;
use ray_tracer::sphere::Sphere;
use ray_tracer::vec3::{Color, Vec3};

fn gray() -> Material {
    Material::Lambertian(Lambertian { albedo: Vec3::new(FX_ONE / 2, FX_ONE / 2, FX_ONE / 2) })
}

fn white_diffuse() -> Material {
    Material::Lambertian(Lambertian { albedo: Vec3::new(FX_ONE, FX_ONE, FX_ONE) })
}

#[test]
fn test_fixed_point_basics() {
    assert_eq!(fx_mul(2 * FX_ONE, 3 * FX_ONE), 6 * FX_ONE);
    assert_eq!(fx_mul(3, 3), 0, "products below one grid step truncate to zero");
    assert_eq!(fx_mul(-2 * FX_ONE, 3 * FX_ONE), -6 * FX_ONE);
    assert_eq!(fx_div(3 * FX_ONE, 2 * FX_ONE), 3 * FX_ONE / 2);
    assert_eq!(fx_div(-3 * FX_ONE, 2 * FX_ONE), -3 * FX_ONE / 2);
    assert_eq!(fx_sqrt(4 * FX_ONE), 2 * FX_ONE);
    assert_eq!(fx_sqrt(2 * FX_ONE), 92681, "sqrt(2) rounded down on the grid");
    assert_eq!(fx_sqrt(0), 0);
}

#[test]
fn test_sphere_hit_head_on() {
    // A ray aimed straight at a sphere's center from outside: one
    // accepted root, normal back toward the origin, front face.
    let s = Sphere { center: Vec3::new(0, 0, -2 * FX_ONE), radius: FX_ONE, material: gray() };
    let r = Ray { origin: Vec3::new(0, 0, 0), direction: Vec3::new(0, 0, -FX_ONE) };
    let h = s.hit(&r, 66, 1000 * FX_ONE).expect("head-on ray must hit");
    assert_eq!(h.t, FX_ONE);
    assert!(h.front_face);
    assert_eq!(h.normal, Vec3::new(0, 0, FX_ONE));
    assert_eq!(h.p, Vec3::new(0, 0, -FX_ONE));
}

#[test]
fn test_sphere_hit_miss() {
    // Parallel direction, offset beyond the radius: no intersection.
    let s = Sphere { center: Vec3::new(0, 0, -2 * FX_ONE), radius: FX_ONE, material: gray() };
    let r = Ray { origin: Vec3::new(3 * FX_ONE, 0, 0), direction: Vec3::new(0, 0, -FX_ONE) };
    assert!(s.hit(&r, 66, 1000 * FX_ONE).is_none());
}

#[test]
fn test_sphere_hit_open_interval() {
    // The window is open at both ends: a root exactly at t_min is
    // rejected (the far root may then be taken), one exactly at t_max is
    // rejected too.
    let s = Sphere { center: Vec3::new(0, 0, -2 * FX_ONE), radius: FX_ONE, material: gray() };
    let r = Ray { origin: Vec3::new(0, 0, 0), direction: Vec3::new(0, 0, -FX_ONE) };
    // Roots lie at t = 1.0 and t = 3.0.
    let far = s.hit(&r, FX_ONE, 1000 * FX_ONE).expect("the far root is in range");
    assert_eq!(far.t, 3 * FX_ONE);
    assert!(!far.front_face, "the far root is the inside of the shell");
    assert!(s.hit(&r, FX_ONE, 3 * FX_ONE).is_none(), "both roots sit on the window edges");
    assert!(s.hit(&r, 66, FX_ONE).is_none(), "near root exactly at t_max");
}

#[test]
fn test_sphere_negative_radius_flips_normal() {
    // A negative radius keeps the same geometry but flips the outward
    // normal: the head-on hit is now a back face.
    let s = Sphere { center: Vec3::new(0, 0, -2 * FX_ONE), radius: -FX_ONE, material: gray() };
    let r = Ray { origin: Vec3::new(0, 0, 0), direction: Vec3::new(0, 0, -FX_ONE) };
    let h = s.hit(&r, 66, 1000 * FX_ONE).expect("geometry unchanged");
    assert_eq!(h.t, FX_ONE);
    assert!(!h.front_face);
    assert_eq!(h.normal, Vec3::new(0, 0, FX_ONE));
}

#[test]
fn test_scene_nearest_of_two_spheres() {
    // Two overlapping spheres along one ray: the nearer hit wins in
    // either insertion order.
    let near =
        Sphere { center: Vec3::new(0, 0, -2 * FX_ONE), radius: FX_ONE, material: white_diffuse() };
    let far = Sphere { center: Vec3::new(0, 0, -3 * FX_ONE), radius: FX_ONE, material: gray() };
    let r = Ray { origin: Vec3::new(0, 0, 0), direction: Vec3::new(0, 0, -FX_ONE) };

    let mut scene_a = HittableList::new();
    scene_a.add(near);
    scene_a.add(far);
    let mut scene_b = HittableList::new();
    scene_b.add(far);
    scene_b.add(near);

    let ha = scene_a.hit(&r, 66, 1000 * FX_ONE).expect("must hit");
    let hb = scene_b.hit(&r, 66, 1000 * FX_ONE).expect("must hit");
    assert_eq!(ha.t, FX_ONE);
    assert_eq!(hb.t, FX_ONE);
    assert_eq!(ha.material, white_diffuse());
    assert_eq!(hb.material, white_diffuse());
}

#[test]
fn test_scene_empty_misses() {
    let scene = HittableList::new();
    let r = Ray { origin: Vec3::new(0, 0, 0), direction: Vec3::new(0, 0, -FX_ONE) };
    assert!(scene.hit(&r, 66, 1000 * FX_ONE).is_none());
}

fn head_on_record(material: Material) -> (Ray, HitRecord) {
    let r = Ray { origin: Vec3::new(0, 0, 0), direction: Vec3::new(0, 0, -FX_ONE) };
    let rec = HitRecord {
        p: Vec3::new(0, 0, -FX_ONE),
        normal: Vec3::new(0, 0, FX_ONE),
        t: FX_ONE,
        front_face: true,
        material,
    };
    (r, rec)
}

#[test]
fn test_lambertian_attenuation_is_albedo() {
    // A diffuse surface never amplifies a channel: the attenuation is
    // exactly the albedo, and it always scatters.
    let albedo = Vec3::new(FX_ONE / 4, FX_ONE / 2, FX_ONE);
    let lam = Lambertian { albedo };
    let (r, rec) = head_on_record(Material::Lambertian(lam));
    for _ in 0..50 {
        let (att, sc) = lam.scatter(&r, &rec).expect("diffuse always scatters");
        assert_eq!(att, albedo);
        assert_eq!(sc.origin, rec.p);
        assert!(sc.direction.x.abs() <= 4 * FX_ONE);
        assert!(!sc.direction.near_zero());
    }
}

#[test]
fn test_metal_mirror_head_on() {
    // A polished metal struck head-on reflects the ray straight back:
    // the exact negation of the unit incoming direction.
    let albedo = Vec3::new(FX_ONE, FX_ONE / 2, FX_ONE / 4);
    let met = Metal { albedo, fuzz: 0 };
    let (r, rec) = head_on_record(Material::Metal(met));
    let (att, sc) = met.scatter(&r, &rec).expect("head-on mirror scatters");
    assert_eq!(att, albedo);
    assert_eq!(sc.direction, Vec3::new(0, 0, FX_ONE));
    assert_eq!(sc.origin, rec.p);
}

#[test]
fn test_reflect_head_on_negates() {
    let n = Vec3::new(0, 0, FX_ONE);
    let d = Vec3::new(0, 0, -FX_ONE);
    assert_eq!(Vec3::reflect(&d, &n), Vec3::new(0, 0, FX_ONE));
    let n2 = Vec3::new(FX_ONE, 0, 0);
    let d2 = Vec3::new(-FX_ONE, 0, 0);
    assert_eq!(Vec3::reflect(&d2, &n2), n2);
}

#[test]
fn test_refract_straight_through() {
    // Head-on transmission is undeflected whatever the ratio of indices.
    let n = Vec3::new(0, 0, FX_ONE);
    let d = Vec3::new(0, 0, -FX_ONE);
    assert_eq!(Vec3::refract(&d, &n, FX_ONE), d);
    assert_eq!(Vec3::refract(&d, &n, 3 * FX_ONE / 2), d);
}

#[test]
fn test_dielectric_attenuation_identity() {
    // Glass absorbs nothing: the attenuation is the identity color.
    let die = Dielectric { ir: 3 * FX_ONE / 2 };
    let (r, rec) = head_on_record(Material::Dielectric(die));
    for _ in 0..50 {
        let (att, sc) = die.scatter(&r, &rec).expect("glass always scatters");
        assert_eq!(att, Vec3::new(FX_ONE, FX_ONE, FX_ONE));
        assert_eq!(sc.origin, rec.p);
    }
}

#[test]
fn test_dielectric_total_internal_reflection() {
    // Leaving glass at 45 degrees with index 1.5: Snell has no solution,
    // so the direction is the mirror direction, deterministically.
    let die = Dielectric { ir: 3 * FX_ONE / 2 };
    let r = Ray { origin: Vec3::new(0, 0, 0), direction: Vec3::new(FX_ONE, 0, -FX_ONE) };
    let rec = HitRecord {
        p: Vec3::new(FX_ONE, 0, -FX_ONE),
        normal: Vec3::new(0, 0, FX_ONE),
        t: FX_ONE,
        front_face: false,
        material: Material::Dielectric(die),
    };
    let expected = {
        let ud = r.direction.unit_vector();
        Vec3::reflect(&ud, &rec.normal)
    };
    for _ in 0..50 {
        let (_, sc) = die.scatter(&r, &rec).expect("glass always scatters");
        assert_eq!(sc.direction, expected, "total internal reflection is deterministic");
        assert!(sc.direction.z > 0, "reflected back into the glass side");
    }
}

fn test_camera() -> Camera {
    Camera::new(
        Vec3::new(0, 0, 0),
        Vec3::new(0, 0, -FX_ONE),
        Vec3::new(0, FX_ONE, 0),
        FX_ONE,            // tan of half the vertical field of view: 90 degrees
        3 * FX_ONE / 2,    // aspect ratio 1.5
        0,                 // no aperture: no depth of field
        FX_ONE,            // focus distance 1
    )
}

#[test]
fn test_camera_zero_aperture_origin_is_eye() {
    // With a zero aperture the ray origin is exactly the eye point, on
    // every draw.
    let cam = test_camera();
    for i in 0..40 {
        let s = (i * FX_ONE) / 40;
        let ray = cam.get_ray(s, FX_ONE - s);
        assert_eq!(ray.origin, Vec3::new(0, 0, 0));
        assert!(ray.direction.z < 0, "camera looks toward negative z");
    }
}

#[test]
fn test_camera_center_ray_points_at_target() {
    let cam = test_camera();
    let ray = cam.get_ray(FX_ONE / 2, FX_ONE / 2);
    // The center of the viewport is straight ahead, up to grid error.
    assert!(ray.direction.x.abs() <= 2);
    assert!(ray.direction.y.abs() <= 2);
    assert!((ray.direction.z + FX_ONE).abs() <= 2);
}

#[test]
fn test_integrator_depth_zero_is_black() {
    // The depth budget bounds the recursion: with none left, no light is
    // gathered, whatever the scene holds.
    let mut scene = HittableList::new();
    scene.add(Sphere {
        center: Vec3::new(0, 0, -FX_ONE),
        radius: FX_ONE / 2,
        material: white_diffuse(),
    });
    let r = Ray { origin: Vec3::new(0, 0, 0), direction: Vec3::new(0, 0, -FX_ONE) };
    assert_eq!(ray_color(&r, &scene, 0), Vec3::new(0, 0, 0));
    assert_eq!(ray_color(&r, &scene, -3), Vec3::new(0, 0, 0));
    let empty = HittableList::new();
    assert_eq!(ray_color(&r, &empty, 0), Vec3::new(0, 0, 0));
}

#[test]
fn test_integrator_miss_is_sky_gradient() {
    let scene = HittableList::new();
    // Straight up: pure sky blue.
    let up = Ray { origin: Vec3::new(0, 0, 0), direction: Vec3::new(0, FX_ONE, 0) };
    assert_eq!(ray_color(&up, &scene, 8), Vec3::new(FX_ONE / 2, 45875, FX_ONE));
    // Straight down: pure white.
    let down = Ray { origin: Vec3::new(0, 0, 0), direction: Vec3::new(0, -FX_ONE, 0) };
    assert_eq!(ray_color(&down, &scene, 8), Vec3::new(FX_ONE, FX_ONE, FX_ONE));
    // Horizontal: the halfway blend.
    let flat = Ray { origin: Vec3::new(0, 0, 0), direction: Vec3::new(FX_ONE, 0, 0) };
    let c = ray_color(&flat, &scene, 8);
    assert_eq!(c, Vec3::new(49152, 55705, FX_ONE));
}

#[test]
fn test_render_small_image() {
    // End to end: one diffuse white sphere of radius 0.5 at (0,0,-1)
    // under the sky, 2 samples per pixel, depth 1. Every pixel resolves
    // to channels inside the 8-bit range, strictly between pure sky blue
    // and pure black where the sphere is shaded.
    let mut scene = HittableList::new();
    scene.add(Sphere {
        center: Vec3::new(0, 0, -FX_ONE),
        radius: FX_ONE / 2,
        material: white_diffuse(),
    });
    let cam = test_camera();
    let samples: i32 = 2;
    let width: i64 = 4;
    let height: i64 = 3;
    for j in 0..height {
        for i in 0..width {
            let mut pixel = Color::new_empty();
            for k in 0..samples as i64 {
                let s = (i * FX_ONE + k * FX_ONE / 2) / (width - 1);
                let t = (j * FX_ONE + k * FX_ONE / 2) / (height - 1);
                let ray = cam.get_ray(s.min(FX_ONE), t.min(FX_ONE));
                let c = ray_color(&ray, &scene, 1);
                assert!(0 <= c.x && c.x <= FX_ONE);
                assert!(0 <= c.y && c.y <= FX_ONE);
                assert!(0 <= c.z && c.z <= FX_ONE);
                pixel.add_assign(c);
            }
            let (r8, g8, b8) = write_color(&pixel, samples);
            // u8 already bounds the channels; the blue channel dominates
            // under this sky.
            assert!(b8 >= g8 && g8 >= r8 || pixel.x == pixel.y && pixel.y == pixel.z);
        }
    }
}

#[test]
fn test_write_color_formula() {
    // avg 1.0 -> sqrt 1.0 -> clamped just below full scale -> 255;
    // avg 0.25 -> sqrt 0.5 -> 128; avg 0 -> 0.
    let c = Vec3::new(FX_ONE, FX_ONE / 4, 0);
    assert_eq!(write_color(&c, 1), (255, 128, 0));
    // Averaging over 4 samples divides first: 4.0/4 -> 1.0 -> 255.
    let d = Vec3::new(4 * FX_ONE, FX_ONE, 0);
    assert_eq!(write_color(&d, 4), (255, 128, 0));
}

#[test]
fn test_hit_record_face_normal() {
    let mut rec = HitRecord::new(&Vec3::new(0, 0, -FX_ONE), FX_ONE, gray());
    let outward = Vec3::new(0, 0, FX_ONE);
    let from_outside = Ray { origin: Vec3::new(0, 0, 0), direction: Vec3::new(0, 0, -FX_ONE) };
    rec.set_face_normal(&from_outside, &outward);
    assert!(rec.front_face);
    assert_eq!(rec.normal, outward);
    let from_inside = Ray { origin: Vec3::new(0, 0, -FX_ONE), direction: Vec3::new(0, 0, FX_ONE) };
    rec.set_face_normal(&from_inside, &outward);
    assert!(!rec.front_face);
    assert_eq!(rec.normal, Vec3::new(0, 0, -FX_ONE));
}
