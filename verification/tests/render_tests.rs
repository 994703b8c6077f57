//! The render loop: per-ray colors, determinism, and the background
//! gradient.

use ray_tracer::hitable_list::HitableList;
use ray_tracer::ray::Ray;
use ray_tracer::sphere::Sphere;
use ray_tracer::vec3::Vec3;
use ray_tracer::{get_image, ray_color, render_image, Camera};

fn test_camera() -> Camera {
    // A 4.0 x 2.0 viewport one unit in front of the origin.
    let origin = Vec3::new(0, 0, 0);
    let horizontal = Vec3::new(40000, 0, 0);
    let vertical = Vec3::new(0, 20000, 0);
    let lower_left_corner = Vec3::new(-20000, -10000, -10000);
    Camera { origin, horizontal, vertical, lower_left_corner }
}

#[test]
fn test_ray_color_hit_maps_normal() {
    // A ray straight into a sphere half a unit away: normal (0,0,1), so the
    // red and green bytes are 0.5 * 255.999 truncated and blue saturates.
    let mut world: HitableList<Sphere> = HitableList::new();
    world.add(Sphere { center: Vec3::new(0, 0, -10000), radius: 5000 });
    let ray = Ray { origin: Vec3::new(0, 0, 0), direction: Vec3::new(0, 0, -10000) };
    let color = ray_color(&ray, &world);
    assert_eq!(color, vec![127, 127, 255, 255]);
}

#[test]
fn test_ray_color_background_extremes() {
    // Straight up: pure sky blue.  Straight down: pure white.
    let world: HitableList<Sphere> = HitableList::new();
    let up = Ray { origin: Vec3::new(0, 0, 0), direction: Vec3::new(0, 10000, 0) };
    assert_eq!(ray_color(&up, &world), vec![127, 179, 255, 255]);
    let down = Ray { origin: Vec3::new(0, 0, 0), direction: Vec3::new(0, -10000, 0) };
    assert_eq!(ray_color(&down, &world), vec![255, 255, 255, 255]);
}

#[test]
fn test_render_deterministic() {
    // Rendering the same camera, scene and dimensions twice yields
    // byte-identical output.
    let mut world: HitableList<Sphere> = HitableList::new();
    world.add(Sphere { center: Vec3::new(0, 0, -10000), radius: 5000 });
    world.add(Sphere { center: Vec3::new(0, -1005000, -10000), radius: 1000000 });
    let a = render_image(8, 4, test_camera(), &world);
    let b = render_image(8, 4, test_camera(), &world);
    assert_eq!(a.len(), 4 * 8 * 4);
    assert_eq!(a, b);
    let c = get_image(8, 4, test_camera(), &world);
    assert_eq!(a, c);
}

/// Floor division, as the library's specifications use it.
fn df(a: i128, b: i128) -> i128 {
    a.div_euclid(b)
}

/// The square root rounded toward zero, recomputed independently.
fn slow_isqrt(n: i128) -> i128 {
    let mut r: i128 = 0;
    while (r + 1) * (r + 1) <= n {
        r += 1;
    }
    r
}

#[test]
fn test_background_gradient() {
    // With no primitives, every pixel equals the analytic gradient formula
    // for its ray, recomputed here from scratch, and every channel is a
    // byte.
    let world: HitableList<Sphere> = HitableList::new();
    let w: u32 = 4;
    let h: u32 = 3;
    let cam = test_camera();
    let image = render_image(w, h, cam, &world);
    assert_eq!(image.len(), (4 * w * h) as usize);

    let scale: i128 = 10000;
    for col in 0..h {
        for row in 0..w {
            let u = df(row as i128 * scale, w as i128);
            let v = df(col as i128 * scale, h as i128);
            // direction = lower_left + u*horizontal + v*vertical - origin
            let dx = -20000 + df(u * 40000, scale);
            let dy = -10000 + df(v * 20000, scale);
            let dz = -10000i128;
            let len = slow_isqrt(dx * dx + dy * dy + dz * dz);
            let uy = df(dy * scale, len);
            let t = df(uy + scale, 2);
            let white = [scale, scale, scale];
            let sky = [scale / 2, 7 * scale / 10, scale];
            let base = (4 * ((h - 1 - col) * w + row)) as usize;
            for k in 0..3 {
                let c = df((scale - t) * white[k], scale) + df(t * sky[k], scale);
                let expect = df(c * 255999, 1000 * scale);
                assert!((0..=255).contains(&expect));
                assert_eq!(image[base + k] as i128, expect);
            }
            assert_eq!(image[base + 3], 255);
        }
    }
}
