//! Ray evaluation and closest-hit resolution over a scene.

use ray_tracer::fixed::T_LIMIT;
use ray_tracer::hitable_list::HitableList;
use ray_tracer::hittable_object::HitRecord;
use ray_tracer::ray::Ray;
use ray_tracer::sphere::Sphere;
use ray_tracer::vec3::Vec3;

#[test]
fn test_ray_at_zero_is_origin() {
    let ray = Ray { origin: Vec3::new(10000, 20000, 30000), direction: Vec3::new(10000, -20000, 5000) };
    assert_eq!(ray.at(0), ray.origin());
}

#[test]
fn test_ray_at_is_affine() {
    // At whole parameter units the point advances by exactly the direction.
    let ray = Ray { origin: Vec3::new(10000, 20000, 30000), direction: Vec3::new(10000, -20000, 5000) };
    assert_eq!(ray.at(10000), Vec3::new(20000, 0, 35000));
    assert_eq!(ray.at(20000), Vec3::new(30000, -20000, 40000));
    assert_eq!(ray.at(-10000), Vec3::new(0, 40000, 25000));
    assert_eq!(ray.direction(), Vec3::new(10000, -20000, 5000));
}

#[test]
fn test_scene_closest_hit_order_independent() {
    // Two overlapping spheres along one ray: the nearer surface (of the
    // first sphere, at t == 2.0) is reported in either insertion order.
    let near = Sphere { center: Vec3::new(0, 0, 0), radius: 10000 };
    let far = Sphere { center: Vec3::new(0, 0, 10000), radius: 10000 };
    let ray = Ray { origin: Vec3::new(0, 0, -30000), direction: Vec3::new(0, 0, 10000) };

    let mut world_a: HitableList<Sphere> = HitableList::new();
    world_a.add(near);
    world_a.add(far);
    let mut rec_a = HitRecord::default();
    assert!(world_a.hit(&ray, 0, T_LIMIT, &mut rec_a));

    let mut world_b: HitableList<Sphere> = HitableList::new();
    world_b.add(far);
    world_b.add(near);
    let mut rec_b = HitRecord::default();
    assert!(world_b.hit(&ray, 0, T_LIMIT, &mut rec_b));

    assert_eq!(rec_a.t, 20000);
    assert_eq!(rec_a, rec_b);
    assert_eq!(rec_a.point, Vec3::new(0, 0, -10000));
    assert_eq!(rec_a.normal, Vec3::new(0, 0, -10000));
}

#[test]
fn test_empty_scene_reports_no_hit() {
    let world: HitableList<Sphere> = HitableList::new();
    let ray = Ray { origin: Vec3::new(0, 0, 0), direction: Vec3::new(0, 0, -10000) };
    let mut rec = HitRecord::default();
    assert!(!world.hit(&ray, 0, T_LIMIT, &mut rec));
    assert_eq!(rec, HitRecord::default());
}

#[test]
fn test_scene_narrows_range_to_closest() {
    // A member behind an already-found hit is not reported.
    let blocker = Sphere { center: Vec3::new(0, 0, 0), radius: 10000 };
    let behind = Sphere { center: Vec3::new(0, 0, 200000), radius: 10000 };
    let ray = Ray { origin: Vec3::new(0, 0, -30000), direction: Vec3::new(0, 0, 10000) };

    let mut world: HitableList<Sphere> = HitableList::new();
    world.add(behind);
    world.add(blocker);
    let mut rec = HitRecord::default();
    assert!(world.hit(&ray, 0, T_LIMIT, &mut rec));
    assert_eq!(rec.t, 20000);
}

#[test]
fn test_scene_clear_and_len() {
    let mut world: HitableList<Sphere> = HitableList::new();
    assert_eq!(world.objects.len(), 0);
    world.add(Sphere { center: Vec3::new(0, 0, 0), radius: 10000 });
    assert_eq!(world.objects.len(), 1);
    world.clear();
    assert_eq!(world.objects.len(), 0);
}
