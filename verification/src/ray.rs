//! Rays: an origin, a direction, and parametric point evaluation.

use vstd::prelude::*;
use vstd::arithmetic::div_mod::{lemma_div_multiples_vanish, lemma_div_of0};
use crate::fixed::{SCALE, COORD_LIMIT};
use crate::vec3::{Vec3, vadd, vscale, vfits, bounded, vls_raw};

verus! {

/// A half-line: all points `origin + t * direction`.
#[derive(Clone, Copy, Debug, PartialEq, Eq, Structural)]
pub struct Ray {
    pub origin: Vec3,
    pub direction: Vec3,
}

/// The point of the ray at parameter `t`.
pub open spec fn ray_at(origin: (int, int, int), direction: (int, int, int), t: int) -> (
    int,
    int,
    int,
) {
    vadd(origin, vscale(t, direction))
}

/// Rays accepted by the intersection pipeline: componentwise bounded, with a
/// direction of nonzero length.
pub open spec fn ray_wf(ray: Ray) -> bool {
    &&& bounded(ray.origin@, COORD_LIMIT as int)
    &&& bounded(ray.direction@, COORD_LIMIT as int)
    &&& vls_raw(ray.direction@) >= 1
}

impl Ray {
    /// The ray's origin.
    pub fn origin(&self) -> (r: Vec3)
        ensures
            r == self.origin,
    {
        self.origin
    }

    /// The ray's direction.
    pub fn direction(&self) -> (r: Vec3)
        ensures
            r == self.direction,
    {
        self.direction
    }

    /// The point at parameter `t` along the ray.
    pub fn at(&self, t: i64) -> (r: Vec3)
        requires
            vfits(vscale(t as int, self.direction@)),
            vfits(ray_at(self.origin@, self.direction@, t as int)),
        ensures
            r@ == ray_at(self.origin@, self.direction@, t as int),
    {
        self.origin.add(self.direction.scale(t))
    }
}

/// The ray's point at parameter zero is its origin.
pub proof fn lemma_ray_at_zero(origin: (int, int, int), direction: (int, int, int))
    ensures
        ray_at(origin, direction, 0) == origin,
{
    lemma_div_of0(SCALE as int);
    assert(0 * direction.0 == 0 && 0 * direction.1 == 0 && 0 * direction.2 == 0)
        by (nonlinear_arith);
}

/// The ray's point is affine in the parameter: at a whole number `k` of
/// parameter units the point is exactly the origin plus `k` times the
/// direction.
pub proof fn lemma_ray_at_affine(origin: (int, int, int), direction: (int, int, int), k: int)
    ensures
        ray_at(origin, direction, k * SCALE) == vadd(
            origin,
            (k * direction.0, k * direction.1, k * direction.2),
        ),
{
    lemma_div_multiples_vanish(k * direction.0, SCALE as int);
    lemma_div_multiples_vanish(k * direction.1, SCALE as int);
    lemma_div_multiples_vanish(k * direction.2, SCALE as int);
    assert((k * SCALE) * direction.0 == (SCALE as int) * (k * direction.0)
        && (k * SCALE) * direction.1 == (SCALE as int) * (k * direction.1)
        && (k * SCALE) * direction.2 == (SCALE as int) * (k * direction.2)) by (nonlinear_arith);
}

/// A vector with integer components is zero exactly when its squared length
/// is below one.
pub proof fn lemma_nonzero_vls(a: (int, int, int))
    requires
        a != (0int, 0int, 0int),
    ensures
        vls_raw(a) >= 1,
{
    assert(a.0 != 0 || a.1 != 0 || a.2 != 0);
    assert(vls_raw(a) >= 1) by (nonlinear_arith)
        requires a.0 != 0 || a.1 != 0 || a.2 != 0;
}

} // verus!
