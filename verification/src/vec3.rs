//! 3D vector algebra over fixed-point scalars.

use vstd::prelude::*;
use vstd::arithmetic::div_mod::{lemma_div_is_ordered, lemma_div_multiples_vanish};
use crate::fixed::{
    SCALE, fits_i64, fmul, mul_fp, div_floor_i128, sqrt_floor, is_sqrt_floor, isqrt_u128,
    lemma_div_bounds, lemma_sqrt_floor_exists, lemma_sqrt_floor_monotone, lemma_sqrt_floor_lt,
    lemma_sqrt_floor_square, lemma_mul_mag, lemma_mul_i64_bounds,
};

verus! {

/// A vector of three fixed-point components.
#[derive(Clone, Copy, Debug, PartialEq, Eq, Structural)]
pub struct Vec3 {
    pub x: i64,
    pub y: i64,
    pub z: i64,
}

impl View for Vec3 {
    type V = (int, int, int);

    open spec fn view(&self) -> (int, int, int) {
        (self.x as int, self.y as int, self.z as int)
    }
}

/// Every component has magnitude at most `m`.
pub open spec fn bounded(a: (int, int, int), m: int) -> bool {
    &&& -m <= a.0 <= m
    &&& -m <= a.1 <= m
    &&& -m <= a.2 <= m
}

/// Every component fits in an `i64`.
pub open spec fn vfits(a: (int, int, int)) -> bool {
    fits_i64(a.0) && fits_i64(a.1) && fits_i64(a.2)
}

/// Componentwise sum.
pub open spec fn vadd(a: (int, int, int), b: (int, int, int)) -> (int, int, int) {
    (a.0 + b.0, a.1 + b.1, a.2 + b.2)
}

/// Componentwise difference.
pub open spec fn vsub(a: (int, int, int), b: (int, int, int)) -> (int, int, int) {
    (a.0 - b.0, a.1 - b.1, a.2 - b.2)
}

/// Componentwise negation.
pub open spec fn vneg(a: (int, int, int)) -> (int, int, int) {
    (-a.0, -a.1, -a.2)
}

/// Componentwise fixed-point product.
pub open spec fn vmul(a: (int, int, int), b: (int, int, int)) -> (int, int, int) {
    (fmul(a.0, b.0), fmul(a.1, b.1), fmul(a.2, b.2))
}

/// Fixed-point product with the scalar `s`.
pub open spec fn vscale(s: int, a: (int, int, int)) -> (int, int, int) {
    (fmul(s, a.0), fmul(s, a.1), fmul(s, a.2))
}

/// Fixed-point quotient by the scalar `s`.
pub open spec fn vdiv(a: (int, int, int), s: int) -> (int, int, int) {
    ((a.0 * SCALE) / s, (a.1 * SCALE) / s, (a.2 * SCALE) / s)
}

/// Unscaled inner product: `SCALE * SCALE` times the real inner product.
pub open spec fn vdot_raw(a: (int, int, int), b: (int, int, int)) -> int {
    a.0 * b.0 + a.1 * b.1 + a.2 * b.2
}

/// Fixed-point inner product.
pub open spec fn vdot(a: (int, int, int), b: (int, int, int)) -> int {
    vdot_raw(a, b) / (SCALE as int)
}

/// Fixed-point squared length.
pub open spec fn vls(a: (int, int, int)) -> int {
    (a.0 * a.0 + a.1 * a.1 + a.2 * a.2) / (SCALE as int)
}

/// Unscaled squared length: `SCALE * SCALE` times the real squared length.
pub open spec fn vls_raw(a: (int, int, int)) -> int {
    vdot_raw(a, a)
}

/// Fixed-point length.
pub open spec fn vlen(a: (int, int, int)) -> int {
    sqrt_floor(vls_raw(a))
}

/// The unit vector of `a`: `a` divided by its length.
pub open spec fn vunit(a: (int, int, int)) -> (int, int, int) {
    vdiv(a, vlen(a))
}

/// Fixed-point cross product.
pub open spec fn vcross(a: (int, int, int), b: (int, int, int)) -> (int, int, int) {
    (
        fmul(a.1, b.2) - fmul(a.2, b.1),
        fmul(a.2, b.0) - fmul(a.0, b.2),
        fmul(a.0, b.1) - fmul(a.1, b.0),
    )
}

/// Inputs on which the cross product is computed without overflow.
pub open spec fn cross_fits(a: (int, int, int), b: (int, int, int)) -> bool {
    &&& fits_i64(fmul(a.1, b.2)) && fits_i64(fmul(a.2, b.1))
    &&& fits_i64(fmul(a.2, b.0)) && fits_i64(fmul(a.0, b.2))
    &&& fits_i64(fmul(a.0, b.1)) && fits_i64(fmul(a.1, b.0))
    &&& vfits(vcross(a, b))
}

impl Vec3 {
    /// Builds the vector with the given fixed-point components.
    pub fn new(x: i64, y: i64, z: i64) -> (r: Vec3)
        ensures
            r@ == (x as int, y as int, z as int),
    {
        Vec3 { x, y, z }
    }

    /// Componentwise vector sum.
    pub fn add(self, other: Vec3) -> (r: Vec3)
        requires
            vfits(vadd(self@, other@)),
        ensures
            r@ == vadd(self@, other@),
    {
        Vec3 { x: self.x + other.x, y: self.y + other.y, z: self.z + other.z }
    }

    /// In-place componentwise accumulation.
    pub fn add_assign(&mut self, other: Vec3)
        requires
            vfits(vadd(old(self)@, other@)),
        ensures
            final(self)@ == vadd(old(self)@, other@),
    {
        *self = Vec3 { x: self.x + other.x, y: self.y + other.y, z: self.z + other.z };
    }

    /// Componentwise vector difference.
    pub fn sub(self, other: Vec3) -> (r: Vec3)
        requires
            vfits(vsub(self@, other@)),
        ensures
            r@ == vsub(self@, other@),
    {
        Vec3 { x: self.x - other.x, y: self.y - other.y, z: self.z - other.z }
    }

    /// Componentwise negation.
    pub fn neg(self) -> (r: Vec3)
        requires
            vfits(vneg(self@)),
        ensures
            r@ == vneg(self@),
    {
        Vec3 { x: -self.x, y: -self.y, z: -self.z }
    }

    /// Componentwise fixed-point product.
    pub fn mul(self, other: Vec3) -> (r: Vec3)
        requires
            vfits(vmul(self@, other@)),
        ensures
            r@ == vmul(self@, other@),
    {
        Vec3 {
            x: mul_fp(self.x, other.x),
            y: mul_fp(self.y, other.y),
            z: mul_fp(self.z, other.z),
        }
    }

    /// Fixed-point product with a scalar.
    pub fn scale(self, s: i64) -> (r: Vec3)
        requires
            vfits(vscale(s as int, self@)),
        ensures
            r@ == vscale(s as int, self@),
    {
        Vec3 { x: mul_fp(s, self.x), y: mul_fp(s, self.y), z: mul_fp(s, self.z) }
    }

    /// In-place fixed-point product with a scalar.
    pub fn mul_assign(&mut self, s: i64)
        requires
            vfits(vscale(s as int, old(self)@)),
        ensures
            final(self)@ == vscale(s as int, old(self)@),
    {
        *self = Vec3 { x: mul_fp(s, self.x), y: mul_fp(s, self.y), z: mul_fp(s, self.z) };
    }

    /// Fixed-point quotient by a scalar.
    pub fn div(self, s: i64) -> (r: Vec3)
        requires
            s != 0,
            s != i64::MIN,
            vfits(vdiv(self@, s as int)),
        ensures
            r@ == vdiv(self@, s as int),
    {
        Vec3 {
            x: Self::div_comp(self.x, s),
            y: Self::div_comp(self.y, s),
            z: Self::div_comp(self.z, s),
        }
    }

    /// In-place fixed-point quotient by a scalar.
    pub fn div_assign(&mut self, s: i64)
        requires
            s != 0,
            s != i64::MIN,
            vfits(vdiv(old(self)@, s as int)),
        ensures
            final(self)@ == vdiv(old(self)@, s as int),
    {
        *self = Vec3 {
            x: Self::div_comp(self.x, s),
            y: Self::div_comp(self.y, s),
            z: Self::div_comp(self.z, s),
        };
    }

    /// One component of the fixed-point quotient by a scalar.
    fn div_comp(x: i64, s: i64) -> (r: i64)
        requires
            s != 0,
            s != i64::MIN,
            fits_i64((x as int * SCALE) / s as int),
        ensures
            r == (x as int * SCALE) / s as int,
    {
        proof {
            lemma_mul_i64_bounds(x as int, SCALE as int);
        }
        let p: i128 = (x as i128) * (SCALE as i128);
        let q: i128 = if s > 0 {
            div_floor_i128(p, s as i128)
        } else {
            proof {
                lemma_euclid_negative_divisor(p as int, s as int);
            }
            -div_floor_i128(p, -(s as i128))
        };
        q as i64
    }

    /// Fixed-point inner product.
    pub fn dot(u: Vec3, v: Vec3) -> (r: i64)
        requires
            bounded(u@, 0x4000_0000_0000_0000),
            bounded(v@, 0x4000_0000_0000_0000),
            fits_i64(vdot(u@, v@)),
        ensures
            r == vdot(u@, v@),
    {
        let raw: i128 = Self::dot_wide(u, v);
        proof {
            lemma_div_bounds(raw as int, SCALE as int);
        }
        let q: i128 = div_floor_i128(raw, SCALE as i128);
        q as i64
    }

    /// Unscaled inner product, exact in an `i128`.
    pub fn dot_wide(u: Vec3, v: Vec3) -> (r: i128)
        requires
            bounded(u@, 0x4000_0000_0000_0000),
            bounded(v@, 0x4000_0000_0000_0000),
        ensures
            r == vdot_raw(u@, v@),
            -0x3000_0000_0000_0000_0000_0000_0000_0000 <= r
                <= 0x3000_0000_0000_0000_0000_0000_0000_0000,
    {
        proof {
            let m = 0x4000_0000_0000_0000int;
            lemma_mul_mag(u@.0, v@.0, m, m);
            lemma_mul_mag(u@.1, v@.1, m, m);
            lemma_mul_mag(u@.2, v@.2, m, m);
        }
        (u.x as i128) * (v.x as i128) + (u.y as i128) * (v.y as i128)
            + (u.z as i128) * (v.z as i128)
    }

    /// Fixed-point cross product.
    pub fn cross(u: Vec3, v: Vec3) -> (r: Vec3)
        requires
            cross_fits(u@, v@),
        ensures
            r@ == vcross(u@, v@),
    {
        Vec3 {
            x: mul_fp(u.y, v.z) - mul_fp(u.z, v.y),
            y: mul_fp(u.z, v.x) - mul_fp(u.x, v.z),
            z: mul_fp(u.x, v.y) - mul_fp(u.y, v.x),
        }
    }

    /// Fixed-point squared length.
    pub fn length_squared(self) -> (r: i64)
        requires
            bounded(self@, 0x4000_0000_0000_0000),
            fits_i64(vls(self@)),
        ensures
            r == vls(self@),
    {
        proof {
            assert(vls(self@) == vdot(self@, self@));
        }
        Self::dot(self, self)
    }

    /// Fixed-point length, rounded toward zero.
    pub fn length(self) -> (r: i64)
        requires
            bounded(self@, 0x4000_0000_0000_0000),
        ensures
            r == vlen(self@),
            0 <= r,
            vls_raw(self@) >= 1 ==> r >= 1,
    {
        let raw: i128 = Self::dot_wide(self, self);
        proof {
            lemma_vls_raw_nonneg(self@);
            lemma_sqrt_floor_lt(raw as int, 0x8000_0000_0000_0000int);
            lemma_sqrt_floor_exists(raw as nat);
            if vls_raw(self@) >= 1 {
                assert(is_sqrt_floor(raw as int, sqrt_floor(raw as int)));
                assert(sqrt_floor(raw as int) >= 1) by (nonlinear_arith)
                    requires
                        raw >= 1,
                        is_sqrt_floor(raw as int, sqrt_floor(raw as int));
            }
        }
        let r: u128 = isqrt_u128(raw as u128);
        r as i64
    }

    /// The unit vector: the vector divided by its own length.
    pub fn get_unit_vector(vec: Vec3) -> (r: Vec3)
        requires
            bounded(vec@, 0x4000_0000_0000_0000),
            vls_raw(vec@) >= 1,
        ensures
            r@ == vunit(vec@),
            bounded(r@, SCALE as int),
    {
        let len: i64 = vec.length();
        proof {
            lemma_unit_bounded(vec@);
        }
        vec.div(len)
    }

    /// Normalizes the vector in place.
    pub fn unit_vector(&mut self)
        requires
            bounded(old(self)@, 0x4000_0000_0000_0000),
            vls_raw(old(self)@) >= 1,
        ensures
            final(self)@ == vunit(old(self)@),
            bounded(final(self)@, SCALE as int),
    {
        *self = Self::get_unit_vector(*self);
    }
}

/// Componentwise bounds give a bound on the unscaled inner product.
pub proof fn lemma_dot_raw_bounded(a: (int, int, int), b: (int, int, int), m: int, m2: int)
    requires
        bounded(a, m),
        bounded(b, m2),
        0 <= m,
        0 <= m2,
    ensures
        -(3 * (m * m2)) <= vdot_raw(a, b) <= 3 * (m * m2),
{
    lemma_mul_mag(a.0, b.0, m, m2);
    lemma_mul_mag(a.1, b.1, m, m2);
    lemma_mul_mag(a.2, b.2, m, m2);
}

/// A squared length is never negative.
pub proof fn lemma_vls_raw_nonneg(a: (int, int, int))
    ensures
        vls_raw(a) >= 0,
        a.0 * a.0 <= vls_raw(a),
        a.1 * a.1 <= vls_raw(a),
        a.2 * a.2 <= vls_raw(a),
{
    assert(a.0 * a.0 >= 0 && a.1 * a.1 >= 0 && a.2 * a.2 >= 0) by (nonlinear_arith);
}

/// Each component of a unit vector has magnitude at most `SCALE`, and the
/// quotient by the length fits in an `i64`.
pub proof fn lemma_unit_bounded(a: (int, int, int))
    requires
        bounded(a, 0x4000_0000_0000_0000),
        vls_raw(a) >= 1,
    ensures
        vlen(a) >= 1,
        bounded(vunit(a), SCALE as int),
        vfits(vunit(a)),
{
    lemma_vls_raw_nonneg(a);
    let n = vls_raw(a);
    lemma_sqrt_floor_exists(n as nat);
    let len = vlen(a);
    assert(len >= 1) by (nonlinear_arith)
        requires n >= 1, is_sqrt_floor(n, len);
    lemma_unit_comp_bounded(a.0, n, len);
    lemma_unit_comp_bounded(a.1, n, len);
    lemma_unit_comp_bounded(a.2, n, len);
}

/// One component of a unit vector has magnitude at most `SCALE`.
proof fn lemma_unit_comp_bounded(x: int, n: int, len: int)
    requires
        x * x <= n,
        n >= 1,
        is_sqrt_floor(n, len),
        len == sqrt_floor(n),
        1 <= len,
    ensures
        -(SCALE as int) <= (x * SCALE) / len <= SCALE as int,
{
    let ax = if x >= 0 { x } else { -x };
    lemma_sqrt_floor_square(ax);
    assert(ax * ax == x * x) by (nonlinear_arith)
        requires ax == x || ax == -x;
    lemma_sqrt_floor_monotone(ax * ax, n);
    assert(ax <= len);
    assert(x * SCALE <= len * SCALE && -(len * SCALE) <= x * SCALE) by (nonlinear_arith)
        requires -len <= x <= len, SCALE == 10000i64;
    lemma_div_is_ordered(x * SCALE, len * SCALE, len);
    lemma_div_is_ordered(-(len * SCALE), x * SCALE, len);
    lemma_div_multiples_vanish(SCALE as int, len);
    lemma_div_multiples_vanish(-(SCALE as int), len);
    assert(len * (SCALE as int) == SCALE * len && len * (-(SCALE as int)) == -(len * SCALE))
        by (nonlinear_arith);
}

/// Euclidean division by a negative divisor is the negated quotient by its
/// magnitude.
proof fn lemma_euclid_negative_divisor(x: int, s: int)
    requires
        s < 0,
    ensures
        x / s == -(x / (-s)),
{
    vstd::arithmetic::div_mod::lemma_fundamental_div_mod(x, -s);
    vstd::arithmetic::div_mod::lemma_fundamental_div_mod(x, s);
    vstd::arithmetic::div_mod::lemma_mod_bound(x, -s);
    let q = x / (-s);
    let r = x % (-s);
    let y = x / s;
    let r2 = x % s;
    assert(0 <= r2 < -s);
    assert(y == -q) by (nonlinear_arith)
        requires
            s < 0,
            x == (-s) * q + r,
            x == s * y + r2,
            0 <= r < -s,
            0 <= r2 < -s;
}

/// Adding a vector and then subtracting it returns the original vector.
pub proof fn lemma_add_sub_cancel(a: (int, int, int), b: (int, int, int))
    ensures
        vsub(vadd(a, b), b) == a,
{
}

/// The inner product of a vector with itself is its squared length.
pub proof fn lemma_dot_self_is_length_squared(a: (int, int, int))
    ensures
        vdot(a, a) == vls(a),
{
}

/// The cross product is antisymmetric.
pub proof fn lemma_cross_antisymmetric(a: (int, int, int), b: (int, int, int))
    ensures
        vcross(a, b) == vneg(vcross(b, a)),
{
    assert(a.1 * b.2 == b.2 * a.1 && a.2 * b.1 == b.1 * a.2 && a.2 * b.0 == b.0 * a.2
        && a.0 * b.2 == b.2 * a.0 && a.0 * b.1 == b.1 * a.0 && a.1 * b.0 == b.0 * a.1)
        by (nonlinear_arith);
}

} // verus!
