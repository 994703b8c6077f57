//! The hit record and the capability contract implemented by primitives.

use vstd::prelude::*;
use crate::fixed::T_LIMIT;
use crate::ray::{Ray, ray_wf};
use crate::vec3::{Vec3, vneg, vfits, vdot_raw, bounded};

verus! {

/// Where and how a ray meets a surface.
#[derive(Clone, Copy, Debug, PartialEq, Eq, Structural)]
pub struct HitRecord {
    pub point: Vec3,
    pub normal: Vec3,
    pub t: i64,
    pub front_face: bool,
}

/// Mathematical model of a hit: parameter, point, oriented normal, and
/// whether the ray struck the surface from the outside.
pub type HitModel = (int, (int, int, int), (int, int, int), bool);

/// The record carries exactly the values of the model.
pub open spec fn record_matches(rec: HitRecord, m: HitModel) -> bool {
    &&& rec.t as int == m.0
    &&& rec.point@ == m.1
    &&& rec.normal@ == m.2
    &&& rec.front_face == m.3
}

impl HitRecord {
    /// Orients `outward_normal` against the incoming ray: the stored normal
    /// always points toward the side the ray came from, and `front_face`
    /// records whether that side is the outside of the surface.
    pub fn set_face_noraml(&mut self, ray: Ray, outward_normal: Vec3)
        requires
            bounded(ray.direction@, 0x4000_0000_0000_0000),
            bounded(outward_normal@, 0x4000_0000_0000_0000),
            vfits(vneg(outward_normal@)),
        ensures
            final(self).front_face == (vdot_raw(ray.direction@, outward_normal@) < 0),
            final(self).normal@ == if final(self).front_face {
                outward_normal@
            } else {
                vneg(outward_normal@)
            },
            final(self).point == old(self).point,
            final(self).t == old(self).t,
    {
        let d: i128 = Vec3::dot_wide(ray.direction(), outward_normal);
        self.front_face = d < 0;
        if self.front_face {
            self.normal = outward_normal;
        } else {
            self.normal = outward_normal.neg();
        }
    }
}

impl Default for HitRecord {
    /// The all-zero record, used as scratch space before the first hit.
    fn default() -> (r: Self)
        ensures
            r.point@ == (0int, 0int, 0int),
            r.normal@ == (0int, 0int, 0int),
            r.t == 0,
            r.front_face == false,
    {
        HitRecord {
            point: Vec3 { x: 0, y: 0, z: 0 },
            normal: Vec3 { x: 0, y: 0, z: 0 },
            t: 0,
            front_face: false,
        }
    }
}

/// The capability contract of a primitive: report the nearest surface
/// crossing within a parameter range.
pub trait HittableObject: Sized {
    /// The primitives on which `hit` is defined.
    spec fn wf(&self) -> bool;

    /// Mathematical model of the intersection test: the hit reported for a
    /// ray over the parameter range `[t_min, t_max]`, if any.
    spec fn hit_model(&self, ray: Ray, t_min: int, t_max: int) -> Option<HitModel>;

    /// A reported hit always lies within the queried range.
    proof fn lemma_hit_model_in_range(&self, ray: Ray, t_min: int, t_max: int)
        requires
            self.wf(),
            ray_wf(ray),
        ensures
            self.hit_model(ray, t_min, t_max) is Some ==> t_min
                <= self.hit_model(ray, t_min, t_max)->Some_0.0 <= t_max,
    ;

    /// Narrowing the far end of the range keeps exactly the hits that lie
    /// within the narrowed range.
    proof fn lemma_hit_model_narrow(&self, ray: Ray, t_min: int, c: int, t_max: int)
        requires
            self.wf(),
            ray_wf(ray),
            t_min <= c <= t_max,
        ensures
            self.hit_model(ray, t_min, c) == (match self.hit_model(ray, t_min, t_max) {
                Some(m) => if m.0 <= c {
                    Some(m)
                } else {
                    None
                },
                None => None,
            }),
    ;

    /// Tests the ray against the primitive over `[t_min, t_max]`.  On a hit,
    /// fills `hit_record` with the model of the nearest valid crossing and
    /// returns true; otherwise leaves `hit_record` unchanged and returns
    /// false.
    fn hit(&self, ray: Ray, t_min: i64, t_max: i64, hit_record: &mut HitRecord) -> (b: bool)
        requires
            self.wf(),
            ray_wf(ray),
            -T_LIMIT <= t_min,
            t_max <= T_LIMIT,
        ensures
            b == (self.hit_model(ray, t_min as int, t_max as int) is Some),
            b ==> record_matches(
                *final(hit_record),
                self.hit_model(ray, t_min as int, t_max as int)->Some_0,
            ),
            !b ==> *final(hit_record) == *old(hit_record),
    ;
}

} // verus!
