use oakland_raders::geometry::isqrt_u128;
use oakland_raders::Color;
use oakland_raders::Pt;
use oakland_raders::Ray;
use oakland_raders::Sphere;
use oakland_raders::Vec3;

#[test]
fn magnitude() {
    let v = Vec3::new(3, 4, -12);
    assert_eq!(v.mag(), 13);
}

#[test]
fn unit_vector() {
    // The unit direction comes back in thousandths: 0.6 is 600.
    let v = Vec3::new(3, -4, 0);
    assert_eq!(v.unit(), Vec3::new(600, -800, 0));
}

#[test]
fn dot_product() {
    let v1 = Vec3::new(1, 3, -5);
    let v2 = Vec3::new(4, -2, -1);
    assert_eq!(v1.dot(&v2), 3);
}

#[test]
fn geometry_ray_hits_sphere() {
    let sphere = Sphere::new(Vec3::new(3, 4, 8), 1);
    let ray = Ray::from_origin(Vec3::new(1, 1, 2));
    assert!(sphere.intersects(&ray));
    assert_eq!(sphere.intersects_at(&ray).len(), 2);
}

#[test]
fn geometry_ray_misses_sphere() {
    let sphere = Sphere::new(Vec3::new(3, 4, 8), 1);
    let ray = Ray::from_origin(Vec3::new(2, 1, 2));
    assert!(!sphere.intersects(&ray));
    assert_eq!(sphere.intersects_at(&ray).len(), 0);
}

#[test]
fn lib_ray_hits_sphere() {
    let sphere = Sphere::new(Pt::new(3, 4, 8), 1);
    let ray = Ray::from_origin(Pt::new(1, 1, 2));
    assert!(sphere.intersects(&ray));
}

#[test]
fn lib_ray_misses_sphere() {
    let sphere = Sphere::new(Pt::new(3, 4, 8), 1);
    let ray = Ray::from_origin(Pt::new(2, 1, 2));
    assert!(!sphere.intersects(&ray));
}

#[test]
fn hit_point_values() {
    // S = 6, d.c = 23, |c|^2 = 89, disc = 23^2 - 6*88 = 1, sqrt = 1:
    // near root 22/6, far root 24/6, truncated component-wise.
    let sphere = Sphere::new(Vec3::new(3, 4, 8), 1);
    let ray = Ray::from_origin(Vec3::new(1, 1, 2));
    let pts = sphere.intersects_at(&ray);
    assert_eq!(pts[0], Vec3::new(3, 3, 7));
    assert_eq!(pts[1], Vec3::new(4, 4, 8));
}

#[test]
fn tangent_ray_single_point() {
    // disc = 20^2 - 25 * 16 = 0: one point, scaled by the component sum
    // (3 + 0 + 4) / 25.
    let sphere = Sphere::new(Vec3::new(0, 0, 5), 3);
    let ray = Ray::from_origin(Vec3::new(3, 0, 4));
    assert!(sphere.intersects(&ray));
    let pts = sphere.intersects_at(&ray);
    assert_eq!(pts.len(), 1);
    assert_eq!(pts[0], Vec3::new(0, 0, 1));
}

#[test]
fn unit_vector_truncates_toward_zero() {
    // |(1,2,2)| = 3: thirds truncate toward zero in either sign.
    assert_eq!(Vec3::new(1, 2, 2).unit(), Vec3::new(333, 666, 666));
    assert_eq!(Vec3::new(-1, -2, -2).unit(), Vec3::new(-333, -666, -666));
}

#[test]
fn sphere_behind_origin_has_negative_roots() {
    // disc = 25 - (25 - 9) = 9, sqrt = 3: roots -8 and -2, nearest root first.
    let sphere = Sphere::new(Vec3::new(0, 0, -5), 3);
    let ray = Ray::from_origin(Vec3::new(0, 0, 1));
    assert!(sphere.intersects(&ray));
    let pts = sphere.intersects_at(&ray);
    assert_eq!(pts.len(), 2);
    assert_eq!(pts[0], Vec3::new(0, 0, -8));
    assert_eq!(pts[1], Vec3::new(0, 0, -2));
}

#[test]
fn magnitude_rounds_down() {
    assert_eq!(Vec3::new(1, 1, 1).mag(), 1);
    assert_eq!(Vec3::zero().mag(), 0);
}

#[test]
fn integer_square_root() {
    assert_eq!(isqrt_u128(0), 0);
    assert_eq!(isqrt_u128(10), 3);
    assert_eq!(isqrt_u128(169), 13);
    assert_eq!(isqrt_u128(1_000_000_000_000_000_000_000_000 - 1), 999_999_999_999);
}

#[test]
fn vector_algebra() {
    let a = Vec3::new(1, -2, 3);
    let b = Vec3::new(10, 20, -30);
    assert_eq!(a.add(&b), Vec3::new(11, 18, -27));
    assert_eq!(a.sub(&b), Vec3::new(-9, -22, 33));
    assert_eq!(a.scaled(-4), Vec3::new(-4, 8, -12));
    assert_eq!(Vec3::infinity(), Vec3::new(i64::MAX, i64::MAX, i64::MAX));
}

#[test]
fn ray_reflection() {
    // Reflect a down-right direction about the vertical axis: the standard
    // bounce d' = d - 2 (d . n) n with n = (0, 1, 0).
    let incoming = Ray::from_origin(Vec3::new(1, -1, 0));
    let axis = Ray::new(Vec3::zero(), Vec3::new(0, 1, 0));
    let reflected = incoming.reflected(&axis);
    assert_eq!(reflected.o, Vec3::new(0, 1, 0));
    assert_eq!(reflected.dir, Vec3::new(1, 1, 0));
}

#[test]
fn sphere_attributes() {
    let mut s = Sphere::new(Vec3::new(0, 0, 10), 2);
    assert_eq!(s.color, Color::new(255, 255, 255));
    assert_eq!(s.get_luminosity(), 10);
    assert_eq!(s.specular, 255);
    assert_eq!(s.diffuse, 255);
    s.set_color(Color::new(1, 2, 3));
    s.set_lum(77);
    s.set_spec(8);
    s.set_diff(9);
    assert_eq!(s.color, Color::new(1, 2, 3));
    assert_eq!(s.get_luminosity(), 77);
    assert_eq!(s.specular, 8);
    assert_eq!(s.diffuse, 9);
    assert_eq!(s.c, Vec3::new(0, 0, 10));
    assert_eq!(s.r, 2);
}
