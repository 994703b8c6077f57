//! The sphere primitive and its quadratic intersection algorithm.

use vstd::prelude::*;
use vstd::arithmetic::div_mod::lemma_div_is_ordered;
use crate::fixed::{
    SCALE, COORD_LIMIT, T_LIMIT, fmul, sqrt_floor, isqrt_u128,
    div_floor_i128, lemma_div_bounds, lemma_sqrt_floor_exists, lemma_sqrt_floor_lt,
    lemma_sqrt_floor_square, lemma_mul_mag, lemma_fmul_mag,
};
use crate::vec3::{
    Vec3, vadd, vsub, vneg, vdiv, vscale, vdot_raw, vls_raw, bounded, vfits,
    lemma_dot_raw_bounded,
};
use crate::ray::{Ray, ray_at, ray_wf};
use crate::hittable_object::{HitRecord, HitModel, HittableObject, record_matches};

verus! {

/// A sphere: a center and a radius.
#[derive(Clone, Copy, Debug, PartialEq, Eq, Structural)]
pub struct Sphere {
    pub center: Vec3,
    pub radius: i64,
}

/// The ray origin relative to the sphere center.
pub open spec fn sphere_oc(s: Sphere, ray: Ray) -> (int, int, int) {
    vsub(ray.origin@, s.center@)
}

/// Leading coefficient of the intersection quadratic.
pub open spec fn quad_a(ray: Ray) -> int {
    vls_raw(ray.direction@)
}

/// Half the linear coefficient of the intersection quadratic.
pub open spec fn quad_half_b(s: Sphere, ray: Ray) -> int {
    vdot_raw(sphere_oc(s, ray), ray.direction@)
}

/// Constant coefficient of the intersection quadratic.
pub open spec fn quad_c(s: Sphere, ray: Ray) -> int {
    vls_raw(sphere_oc(s, ray)) - (s.radius as int) * (s.radius as int)
}

/// Discriminant of the intersection quadratic; negative exactly when the
/// ray's line misses the sphere.
pub open spec fn discriminant(s: Sphere, ray: Ray) -> int {
    quad_half_b(s, ray) * quad_half_b(s, ray) - quad_a(ray) * quad_c(s, ray)
}

/// The rounded square root of the discriminant.
pub open spec fn sqrt_disc(s: Sphere, ray: Ray) -> int {
    sqrt_floor(discriminant(s, ray))
}

/// The smaller root of the intersection quadratic, as a fixed-point ray
/// parameter.
pub open spec fn root_near(s: Sphere, ray: Ray) -> int {
    ((-quad_half_b(s, ray) - sqrt_disc(s, ray)) * SCALE) / quad_a(ray)
}

/// The larger root of the intersection quadratic, as a fixed-point ray
/// parameter.
pub open spec fn root_far(s: Sphere, ray: Ray) -> int {
    ((-quad_half_b(s, ray) + sqrt_disc(s, ray)) * SCALE) / quad_a(ray)
}

/// The nearest root within `[t_min, t_max]`: the smaller root if it lies in
/// the range, else the larger root if it does, else nothing.
pub open spec fn chosen_root(s: Sphere, ray: Ray, t_min: int, t_max: int) -> Option<int> {
    if discriminant(s, ray) < 0 {
        None
    } else if t_min <= root_near(s, ray) && root_near(s, ray) <= t_max {
        Some(root_near(s, ray))
    } else if t_min <= root_far(s, ray) && root_far(s, ray) <= t_max {
        Some(root_far(s, ray))
    } else {
        None
    }
}

/// The outward surface normal at a point of the sphere: the offset from the
/// center divided by the radius.
pub open spec fn sphere_outward_normal(s: Sphere, point: (int, int, int)) -> (int, int, int) {
    vdiv(vsub(point, s.center@), s.radius as int)
}

/// The full hit model at parameter `t`: the point, the normal oriented
/// against the ray, and the face flag.
pub open spec fn sphere_model_at(s: Sphere, ray: Ray, t: int) -> HitModel {
    let point = ray_at(ray.origin@, ray.direction@, t);
    let onorm = sphere_outward_normal(s, point);
    let ff = vdot_raw(ray.direction@, onorm) < 0;
    (t, point, if ff { onorm } else { vneg(onorm) }, ff)
}

/// The hit reported by a sphere over `[t_min, t_max]`.
pub open spec fn sphere_hit_model(s: Sphere, ray: Ray, t_min: int, t_max: int) -> Option<
    HitModel,
> {
    match chosen_root(s, ray, t_min, t_max) {
        Some(t) => Some(sphere_model_at(s, ray, t)),
        None => None,
    }
}

/// When the discriminant is nonnegative the two roots are ordered.
pub proof fn lemma_roots_ordered(s: Sphere, ray: Ray)
    requires
        ray_wf(ray),
        discriminant(s, ray) >= 0,
    ensures
        quad_a(ray) >= 1,
        sqrt_disc(s, ray) >= 0,
        root_near(s, ray) <= root_far(s, ray),
{
    lemma_sqrt_floor_exists(discriminant(s, ray) as nat);
    let sd = sqrt_disc(s, ray);
    let hb = quad_half_b(s, ray);
    assert((-hb - sd) * SCALE <= (-hb + sd) * SCALE) by (nonlinear_arith)
        requires sd >= 0, SCALE == 10000i64;
    lemma_div_is_ordered((-hb - sd) * SCALE, (-hb + sd) * SCALE, quad_a(ray));
}

impl HittableObject for Sphere {
    /// Spheres accepted by the intersection pipeline: bounded center and a
    /// positive bounded radius.
    open spec fn wf(&self) -> bool {
        &&& bounded(self.center@, COORD_LIMIT as int)
        &&& 1 <= self.radius <= COORD_LIMIT
    }

    open spec fn hit_model(&self, ray: Ray, t_min: int, t_max: int) -> Option<HitModel> {
        sphere_hit_model(*self, ray, t_min, t_max)
    }

    proof fn lemma_hit_model_in_range(&self, ray: Ray, t_min: int, t_max: int) {
    }

    proof fn lemma_hit_model_narrow(&self, ray: Ray, t_min: int, c: int, t_max: int) {
        if discriminant(*self, ray) >= 0 {
            lemma_roots_ordered(*self, ray);
        }
    }

    fn hit(&self, ray: Ray, t_min: i64, t_max: i64, hit_record: &mut HitRecord) -> (b: bool) {
        let oc: Vec3 = ray.origin().sub(self.center);
        let dir: Vec3 = ray.direction();
        proof {
            lemma_dot_raw_bounded(dir@, dir@, COORD_LIMIT as int, COORD_LIMIT as int);
            lemma_dot_raw_bounded(oc@, dir@, 2 * COORD_LIMIT as int, COORD_LIMIT as int);
            lemma_dot_raw_bounded(oc@, oc@, 2 * COORD_LIMIT as int, 2 * COORD_LIMIT as int);
            lemma_mul_mag(self.radius as int, self.radius as int, COORD_LIMIT as int,
                COORD_LIMIT as int);
        }
        let a: i128 = Vec3::dot_wide(dir, dir);
        let half_b: i128 = Vec3::dot_wide(oc, dir);
        let c: i128 = Vec3::dot_wide(oc, oc) - (self.radius as i128) * (self.radius as i128);
        proof {
            lemma_mul_mag(half_b as int, half_b as int, 0x600_0000_0000_0000,
                0x600_0000_0000_0000);
            lemma_mul_mag(a as int, c as int, 0x300_0000_0000_0000, 0xD00_0000_0000_0000);
        }
        let disc: i128 = half_b * half_b - a * c;
        if disc < 0 {
            return false;
        }
        proof {
            lemma_sqrt_floor_lt(disc as int, 0x2000_0000_0000_0000);
            lemma_sqrt_floor_exists(disc as nat);
        }
        let sqrtd: i128 = isqrt_u128(disc as u128) as i128;
        let num_near: i128 = -half_b - sqrtd;
        proof {
            lemma_mul_mag(num_near as int, SCALE as int, 0x4000_0000_0000_0000, 10000);
        }
        let mut root: i128 = div_floor_i128(num_near * (SCALE as i128), a);
        if root < t_min as i128 || (t_max as i128) < root {
            let num_far: i128 = -half_b + sqrtd;
            proof {
                lemma_mul_mag(num_far as int, SCALE as int, 0x4000_0000_0000_0000, 10000);
            }
            root = div_floor_i128(num_far * (SCALE as i128), a);
            if root < t_min as i128 || root > t_max as i128 {
                return false;
            }
        }
        proof {
            assert(chosen_root(*self, ray, t_min as int, t_max as int) == Some(root as int));
        }
        let t: i64 = root as i64;
        proof {
            lemma_point_fits(ray, t as int);
        }
        hit_record.t = t;
        hit_record.point = ray.at(t);
        proof {
            lemma_outward_fits(*self, ray, t as int);
        }
        let outward_normal: Vec3 = hit_record.point.sub(self.center).div(self.radius);
        hit_record.set_face_noraml(ray, outward_normal);
        true
    }
}

/// A ray fired along the axis from distance `d` straight at the center of a
/// sphere of radius `r < d` hits at parameter `d - r`, at the point at
/// distance `r` from the center, with the normal opposing the ray and
/// `front_face` true.
pub proof fn lemma_sphere_direct_hit(s: Sphere, ray: Ray, t_min: int, t_max: int, d: int)
    requires
        1 <= s.radius,
        s.radius < d,
        ray.origin@ == vsub(s.center@, (0int, 0int, d)),
        ray.direction@ == (0int, 0int, SCALE as int),
        t_min <= d - s.radius <= t_max,
    ensures
        sphere_hit_model(s, ray, t_min, t_max) == Some(
            (
                d - s.radius,
                vadd(s.center@, (0int, 0int, -(s.radius as int))),
                (0int, 0int, -(SCALE as int)),
                true,
            ),
        ),
        vls_raw(
            vsub(vadd(s.center@, (0int, 0int, -(s.radius as int))), s.center@),
        ) == (s.radius as int) * (s.radius as int),
{
    let sc = SCALE as int;
    let r = s.radius as int;
    vstd::arithmetic::div_mod::lemma_div_of0(sc);
    vstd::arithmetic::div_mod::lemma_div_of0(r);
    assert(sphere_oc(s, ray) == (0int, 0int, -d));
    let a = quad_a(ray);
    let hb = quad_half_b(s, ray);
    let c = quad_c(s, ray);
    assert(a == sc * sc && hb == -d * sc && c == d * d - r * r) by (nonlinear_arith)
        requires
            a == 0 * 0 + 0 * 0 + sc * sc,
            hb == 0 * 0 + 0 * 0 + (-d) * sc,
            c == 0 * 0 + 0 * 0 + (-d) * (-d) - r * r;
    assert(discriminant(s, ray) == (sc * r) * (sc * r) && sc * r >= sc) by (nonlinear_arith)
        requires
            discriminant(s, ray) == hb * hb - a * c,
            a == sc * sc,
            hb == -d * sc,
            c == d * d - r * r,
            r >= 1,
            sc == 10000;
    lemma_sqrt_floor_square(sc * r);
    assert(sqrt_disc(s, ray) == sc * r);
    assert((-hb - sqrt_disc(s, ray)) * sc == (sc * sc) * (d - r)) by (nonlinear_arith)
        requires hb == -d * sc, sqrt_disc(s, ray) == sc * r, sc == 10000;
    vstd::arithmetic::div_mod::lemma_div_multiples_vanish(d - r, sc * sc);
    assert(sc * sc > 0) by (nonlinear_arith)
        requires sc == 10000;
    assert(root_near(s, ray) == d - r);
    assert(chosen_root(s, ray, t_min, t_max) == Some(d - r));
    let t = d - r;
    assert(fmul(t, 0) == 0);
    assert(t * sc == sc * t) by (nonlinear_arith);
    vstd::arithmetic::div_mod::lemma_div_multiples_vanish(t, sc);
    assert(fmul(t, sc) == t);
    let point = ray_at(ray.origin@, ray.direction@, t);
    assert(point == vadd(s.center@, (0int, 0int, -r)));
    let pc = vsub(point, s.center@);
    assert(pc == (0int, 0int, -r));
    assert(0 * sc == 0 && (-r) * sc == r * (-sc)) by (nonlinear_arith);
    vstd::arithmetic::div_mod::lemma_div_multiples_vanish(-sc, r);
    assert(sphere_outward_normal(s, point) == (0int, 0int, -sc));
    assert(vdot_raw(ray.direction@, (0int, 0int, -sc)) == sc * (-sc)) by (nonlinear_arith)
        requires ray.direction@ == (0int, 0int, sc);
    assert(sc * (-sc) < 0) by (nonlinear_arith)
        requires sc == 10000;
    assert(vls_raw(pc) == r * r) by (nonlinear_arith)
        requires pc == (0int, 0int, -r);
}

/// A ray that starts outside the sphere and points away from it reports no
/// hit over any range of positive parameters.
pub proof fn lemma_sphere_miss(s: Sphere, ray: Ray, t_min: int, t_max: int)
    requires
        ray_wf(ray),
        0 < t_min,
        vdot_raw(sphere_oc(s, ray), ray.direction@) >= 0,
        vls_raw(sphere_oc(s, ray)) > (s.radius as int) * (s.radius as int),
    ensures
        sphere_hit_model(s, ray, t_min, t_max) is None,
{
    if discriminant(s, ray) >= 0 {
        lemma_roots_ordered(s, ray);
        let a = quad_a(ray);
        let hb = quad_half_b(s, ray);
        let c = quad_c(s, ray);
        let sd = sqrt_disc(s, ray);
        lemma_sqrt_floor_exists(discriminant(s, ray) as nat);
        assert(sd < hb) by (nonlinear_arith)
            requires
                sd * sd <= discriminant(s, ray),
                discriminant(s, ray) == hb * hb - a * c,
                a >= 1,
                c >= 1,
                sd >= 0,
                hb >= 0;
        assert((-hb + sd) * SCALE <= 0) by (nonlinear_arith)
            requires sd < hb, SCALE == 10000i64;
        lemma_div_bounds((-hb + sd) * SCALE, a);
        assert(root_far(s, ray) <= 0);
        assert(root_near(s, ray) <= 0);
        assert(chosen_root(s, ray, t_min, t_max) is None);
    }
}

/// The point of a bounded ray at a bounded parameter fits in the vector
/// components.
pub proof fn lemma_point_fits(ray: Ray, t: int)
    requires
        ray_wf(ray),
        -T_LIMIT <= t <= T_LIMIT,
    ensures
        vfits(vscale(t, ray.direction@)),
        vfits(ray_at(ray.origin@, ray.direction@, t)),
        bounded(ray_at(ray.origin@, ray.direction@, t), 0x8000_0000_0000),
{
    let d = ray.direction@;
    lemma_mul_mag(t, d.0, T_LIMIT as int, COORD_LIMIT as int);
    lemma_mul_mag(t, d.1, T_LIMIT as int, COORD_LIMIT as int);
    lemma_mul_mag(t, d.2, T_LIMIT as int, COORD_LIMIT as int);
    lemma_fmul_mag(t, d.0, 0x800_0000_0000_0000);
    lemma_fmul_mag(t, d.1, 0x800_0000_0000_0000);
    lemma_fmul_mag(t, d.2, 0x800_0000_0000_0000);
    vstd::arithmetic::div_mod::lemma_fundamental_div_mod_converse_div(
        0x800_0000_0000_0000, 10000, 57646075230342, 3488);
}

/// The outward normal of a well-formed sphere at the hit point fits in the
/// vector components.
pub proof fn lemma_outward_fits(s: Sphere, ray: Ray, t: int)
    requires
        s.wf(),
        ray_wf(ray),
        -T_LIMIT <= t <= T_LIMIT,
    ensures
        vfits(vsub(ray_at(ray.origin@, ray.direction@, t), s.center@)),
        vfits(vdiv(vsub(ray_at(ray.origin@, ray.direction@, t), s.center@), s.radius as int)),
        bounded(
            vdiv(vsub(ray_at(ray.origin@, ray.direction@, t), s.center@), s.radius as int),
            0x4000_0000_0000_0000,
        ),
{
    lemma_point_fits(ray, t);
    let pc = vsub(ray_at(ray.origin@, ray.direction@, t), s.center@);
    lemma_mul_mag(pc.0, SCALE as int, 0x8100_0000_0000, 10000);
    lemma_mul_mag(pc.1, SCALE as int, 0x8100_0000_0000, 10000);
    lemma_mul_mag(pc.2, SCALE as int, 0x8100_0000_0000, 10000);
    lemma_div_bounds(pc.0 * SCALE, s.radius as int);
    lemma_div_bounds(pc.1 * SCALE, s.radius as int);
    lemma_div_bounds(pc.2 * SCALE, s.radius as int);
}

} // verus!

