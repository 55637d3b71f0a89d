//! Vector algebra on the fixed-point grid. One whole unit is 65536 raw
//! steps, so 2.0 is written `2 * FX_ONE`.

use ray_tracer::fixed::FX_ONE;
use ray_tracer::vec3::Vec3;

#[test]
fn test_vec3_add() {
    let v1: Vec3 = Vec3::new(2 * FX_ONE, 2 * FX_ONE, 2 * FX_ONE);
    let v2: Vec3 = Vec3::new(FX_ONE, 2 * FX_ONE, 3 * FX_ONE);
    assert_eq!(v1.add(v2), Vec3::new(3 * FX_ONE, 4 * FX_ONE, 5 * FX_ONE));
    assert_eq!(v1.add(v2), Vec3::new(3 * FX_ONE, 4 * FX_ONE, 5 * FX_ONE));
    assert_eq!(v1, Vec3::new(2 * FX_ONE, 2 * FX_ONE, 2 * FX_ONE));
    assert_eq!(v2, Vec3::new(FX_ONE, 2 * FX_ONE, 3 * FX_ONE));
}

#[test]
fn test_vec3_add_assign() {
    let mut v1: Vec3 = Vec3::new(2 * FX_ONE, 2 * FX_ONE, 2 * FX_ONE);
    let v2: Vec3 = Vec3::new(FX_ONE, 2 * FX_ONE, 3 * FX_ONE);
    v1.add_assign(v2);
    assert_eq!(v1, Vec3::new(3 * FX_ONE, 4 * FX_ONE, 5 * FX_ONE));
    assert_eq!(v2, Vec3::new(FX_ONE, 2 * FX_ONE, 3 * FX_ONE));
}

#[test]
fn test_vec3_sub() {
    let v1: Vec3 = Vec3::new(2 * FX_ONE, 2 * FX_ONE, 2 * FX_ONE);
    let v2: Vec3 = Vec3::new(FX_ONE, 2 * FX_ONE, 3 * FX_ONE);
    assert_eq!(v1.sub(v2), Vec3::new(FX_ONE, 0, -FX_ONE));
    assert_eq!(v1, Vec3::new(2 * FX_ONE, 2 * FX_ONE, 2 * FX_ONE));
    assert_eq!(v2, Vec3::new(FX_ONE, 2 * FX_ONE, 3 * FX_ONE));
}

#[test]
fn test_vec3_sub_assign() {
    let mut v1: Vec3 = Vec3::new(2 * FX_ONE, 2 * FX_ONE, 2 * FX_ONE);
    let v2: Vec3 = Vec3::new(FX_ONE, 2 * FX_ONE, 3 * FX_ONE);
    v1.sub_assign(v2);
    assert_eq!(v1, Vec3::new(FX_ONE, 0, -FX_ONE));
    assert_eq!(v2, Vec3::new(FX_ONE, 2 * FX_ONE, 3 * FX_ONE));
}

#[test]
fn test_vec3_mul() {
    let v1: Vec3 = Vec3::new(2 * FX_ONE, 2 * FX_ONE, 2 * FX_ONE);
    let v2: Vec3 = Vec3::new(FX_ONE, 2 * FX_ONE, 3 * FX_ONE);
    assert_eq!(v1.scale(2 * FX_ONE), Vec3::new(4 * FX_ONE, 4 * FX_ONE, 4 * FX_ONE));
    assert_eq!(v1.scale(2 * FX_ONE), Vec3::new(4 * FX_ONE, 4 * FX_ONE, 4 * FX_ONE));
    assert_eq!(v1.dot(v2), 12 * FX_ONE);
    assert_eq!(v1.cross(v2), Vec3::new(2 * FX_ONE, -4 * FX_ONE, 2 * FX_ONE));

    assert_eq!(v1, Vec3::new(2 * FX_ONE, 2 * FX_ONE, 2 * FX_ONE));
    assert_eq!(v2, Vec3::new(FX_ONE, 2 * FX_ONE, 3 * FX_ONE));
}

#[test]
fn test_vec3_mul_assign() {
    let mut v1: Vec3 = Vec3::new(2 * FX_ONE, 2 * FX_ONE, 2 * FX_ONE);
    v1.mul_assign(2 * FX_ONE);
    assert_eq!(v1, Vec3::new(4 * FX_ONE, 4 * FX_ONE, 4 * FX_ONE));
}

#[test]
fn test_vec3_div() {
    let v1: Vec3 = Vec3::new(2 * FX_ONE, 2 * FX_ONE, 2 * FX_ONE);
    assert_eq!(v1.div(2 * FX_ONE), Vec3::new(FX_ONE, FX_ONE, FX_ONE));
    assert_eq!(v1, Vec3::new(2 * FX_ONE, 2 * FX_ONE, 2 * FX_ONE));
}

#[test]
fn test_vec3_div_assign() {
    let mut v1: Vec3 = Vec3::new(2 * FX_ONE, 2 * FX_ONE, 2 * FX_ONE);
    v1.div_assign(2 * FX_ONE);
    assert_eq!(v1, Vec3::new(FX_ONE, FX_ONE, FX_ONE));
}

#[test]
fn test_vec3_algebra_laws_on_values() {
    // Commutativity of addition and dot product, cross antisymmetry, and
    // a vector cancelling its negation.
    let a = Vec3::new(3 * FX_ONE, -2 * FX_ONE, 7 * FX_ONE);
    let b = Vec3::new(-5 * FX_ONE, FX_ONE, 2 * FX_ONE);
    assert_eq!(a.add(b), b.add(a));
    assert_eq!(a.dot(b), b.dot(a));
    assert_eq!(a.cross(b), b.cross(a).neg());
    assert_eq!(a.add(a.neg()), Vec3::new(0, 0, 0));
}

#[test]
fn test_vec3_unit_vector_length() {
    // |unit(v)| is 1 within grid tolerance for a nonzero v.
    let v = Vec3::new(3 * FX_ONE, 4 * FX_ONE, 0);
    let u = v.unit_vector();
    assert_eq!(u, Vec3::new(39321, 52428, 0));
    let ls = u.length_squared();
    assert!((ls - FX_ONE).abs() <= 8, "unit length squared was {ls}");
    let w = Vec3::new(-17, 964, 123456789).unit_vector();
    let ls2 = w.length_squared();
    assert!((ls2 - FX_ONE).abs() <= 8, "unit length squared was {ls2}");
}

#[test]
fn test_vec3_near_zero() {
    // A vector whose squared length truncates to zero carries no
    // direction at this resolution.
    assert!(Vec3::new(1, 0, 0).near_zero());
    assert!(Vec3::new(0, 0, 0).near_zero());
    assert!(!Vec3::new(FX_ONE, 0, 0).near_zero());
    assert!(!Vec3::new(0, -300, 0).near_zero());
}

#[test]
fn test_vec3_random_varies() {
    // The uniform source actually draws: 50 samples of a component in
    // [0, 1) cannot all coincide.
    let first = Vec3::random().x;
    let mut saw_other = false;
    for _ in 0..50 {
        if Vec3::random().x != first {
            saw_other = true;
        }
    }
    assert!(saw_other, "the random source returned one value 51 times");
}

#[test]
fn test_vec3_random_ranges() {
    // The sampling helpers stay inside their stated ranges; this would
    // fail if the uniform source ignored its bounds.
    for _ in 0..200 {
        let r = Vec3::random();
        assert!(0 <= r.x && r.x < FX_ONE);
        assert!(0 <= r.y && r.y < FX_ONE);
        assert!(0 <= r.z && r.z < FX_ONE);
        let rr = Vec3::random_range(-3 * FX_ONE, 5 * FX_ONE);
        assert!(-3 * FX_ONE <= rr.x && rr.x < 5 * FX_ONE);
        let b = Vec3::random_in_unit_sphere();
        let ls = b.length_squared();
        assert!(1 <= ls && ls < FX_ONE);
        let u = Vec3::random_unit_vector();
        assert!((u.length_squared() - FX_ONE).abs() <= 64);
        let d = Vec3::random_in_unit_disk();
        assert_eq!(d.z, 0);
        assert!(d.length_squared() < FX_ONE);
    }
}
