//! Sphere intersection: hits, misses, and range exclusion.

use ray_tracer::fixed::T_LIMIT;
use ray_tracer::hittable_object::{HitRecord, HittableObject};
use ray_tracer::ray::Ray;
use ray_tracer::sphere::Sphere;
use ray_tracer::vec3::Vec3;

#[test]
fn test_sphere_creation() {
    let center = Vec3 { x: 0, y: 0, z: 0 };
    let radius = 10000;
    let sphere = Sphere { center, radius };

    assert_eq!(sphere.center, center);
    assert_eq!(sphere.radius, radius);
}

#[test]
fn test_sphere_hit() {
    // A unit sphere at the origin, hit from (0,0,-3) along +z: t == 2.0,
    // point (0,0,-1), outward-facing normal (0,0,-1).
    let sphere = Sphere { center: Vec3::new(0, 0, 0), radius: 10000 };

    let ray = Ray { origin: Vec3::new(0, 0, -30000), direction: Vec3::new(0, 0, 10000) };
    let t_min = 0;
    let t_max = T_LIMIT;
    let mut record = HitRecord::default();

    let hit = sphere.hit(ray, t_min, t_max, &mut record);

    assert!(hit);
    assert_eq!(record.t, 20000);
    assert_eq!(record.point, Vec3::new(0, 0, -10000));
    assert_eq!(record.normal, Vec3::new(0, 0, -10000));
    assert!(record.front_face);
}

#[test]
fn test_sphere_no_hit() {
    // The same sphere with the ray pointing away yields no hit, and the
    // record is left untouched.
    let sphere = Sphere { center: Vec3::new(0, 0, 0), radius: 10000 };
    let ray = Ray { origin: Vec3::new(0, 0, -30000), direction: Vec3::new(0, 0, -10000) };
    let mut record = HitRecord::default();

    let hit = sphere.hit(ray, 1, T_LIMIT, &mut record);

    assert!(!hit);
    assert_eq!(record, HitRecord::default());
}

#[test]
fn test_range_exclusion() {
    // The geometric intersection at t == 2.0 is outside [0, 1] and outside
    // [2.5, 4.0] (the far root, t == 4.0, is on the boundary and counts),
    // so the first range reports no hit.
    let sphere = Sphere { center: Vec3::new(0, 0, 0), radius: 10000 };
    let ray = Ray { origin: Vec3::new(0, 0, -30000), direction: Vec3::new(0, 0, 10000) };

    let mut record = HitRecord::default();
    assert!(!sphere.hit(ray, 0, 10000, &mut record));
    assert_eq!(record, HitRecord::default());

    // Between the two roots the far root (t == 4.0, the back surface) is
    // reported instead.
    let mut record = HitRecord::default();
    assert!(sphere.hit(ray, 25000, T_LIMIT, &mut record));
    assert_eq!(record.t, 40000);
    assert!(!record.front_face);
    assert_eq!(record.normal, Vec3::new(0, 0, -10000));
}
