//! Hit records, scatter results, and the random unit vector.

use vstd::prelude::*;

use crate::fx::{Fx, SCALE, absi, lemma_tdiv_bound, lemma_isqrt, is_isqrt};
use crate::material::Material;
use crate::ray::{Ray, RayV};
use crate::rng::random_symmetric_scalar;
use crate::vec3::{Vec3, Color, V3, v3_neg, dot_v, len_sq_v, len_v, unit_v, lemma_len_sq_v_nonneg};

verus! {

/// What a material hands back when it scatters a ray.
pub struct ScatterInfo {
    pub attenuation: Color,
    pub scattered: Ray,
}

/// A successful intersection: the point, the re-oriented normal, the
/// material met, the ray parameter, and which side the ray came from.
pub struct HitRecord {
    pub point: Vec3,
    pub normal: Vec3,
    pub material: Material,
    pub t: Fx,
    pub front_face: bool,
}

/// Mathematical image of a hit record.
pub ghost struct HitV {
    pub point: V3,
    pub normal: V3,
    pub material: Material,
    pub t: int,
    pub front_face: bool,
}

/// The image of a hit record.
pub open spec fn rec_v(r: HitRecord) -> HitV {
    HitV {
        point: r.point@,
        normal: r.normal@,
        material: r.material,
        t: r.t.v(),
        front_face: r.front_face,
    }
}

/// The image of an optional hit record.
pub open spec fn opt_rec_v(r: Option<HitRecord>) -> Option<HitV> {
    match r {
        None => None,
        Some(h) => Some(rec_v(h)),
    }
}

/// The front-face flag for a ray direction and an outward normal.
pub open spec fn front_face_v(dir: V3, outward: V3) -> bool {
    dot_v(dir, outward) < 0
}

/// The stored normal after re-orientation: it opposes the ray direction.
pub open spec fn face_normal_v(dir: V3, outward: V3) -> V3 {
    if front_face_v(dir, outward) {
        outward
    } else {
        v3_neg(outward)
    }
}

impl HitRecord {
    /// Record which side the ray came from and orient the normal against
    /// the ray direction.
    pub fn set_face_normal(&mut self, ray: &Ray, outward_normal: Vec3)
        ensures
            final(self).front_face == front_face_v(ray@.dir, outward_normal@),
            final(self).normal@ == face_normal_v(ray@.dir, outward_normal@),
            final(self).point == old(self).point,
            final(self).material == old(self).material,
            final(self).t == old(self).t,
    {
        self.front_face = ray.direction().dot(&outward_normal).raw < 0;
        self.normal = if self.front_face {
            outward_normal
        } else {
            outward_normal.neg()
        };
    }
}

/// A random vector of length close to one: a rejection-sampled point in
/// the unit ball, normalized.  Whatever the generator returns, every
/// component is within two raw units of the unit range (the truncation of
/// the squared length, then of the division, can push a component just
/// past one); the fallback when every draw is rejected is the exact unit
/// vector along positive z.
pub fn random_unit_vector() -> (r: Vec3)
    ensures
        absi(r@.x) <= SCALE as int + 2,
        absi(r@.y) <= SCALE as int + 2,
        absi(r@.z) <= SCALE as int + 2,
{
    let mut tries: usize = 0;
    while tries < 16
        invariant
            tries <= 16,
        decreases 16 - tries,
    {
        let p = Vec3::new(
            random_symmetric_scalar(),
            random_symmetric_scalar(),
            random_symmetric_scalar(),
        );
        let sq = p.length_squared();
        if sq.raw >= 16384 && sq.raw <= 65536 {
            let u = p.unit_vector();
            proof {
                lemma_unit_components_bounded(p@);
            }
            return u;
        }
        tries = tries + 1;
    }
    Vec3::new(Fx::zero(), Fx::zero(), Fx::one())
}

/// Normalizing a vector of unit-range components and length at least one
/// half keeps every component within two raw units of the unit range.
proof fn lemma_unit_components_bounded(a: V3)
    requires
        absi(a.x) <= SCALE as int,
        absi(a.y) <= SCALE as int,
        absi(a.z) <= SCALE as int,
        16384 <= len_sq_v(a) <= SCALE as int,
    ensures
        absi(unit_v(a).x) <= SCALE as int + 2,
        absi(unit_v(a).y) <= SCALE as int + 2,
        absi(unit_v(a).z) <= SCALE as int + 2,
{
    let s = SCALE as int;
    let n = len_sq_v(a) * s;
    lemma_isqrt(n);
    let len = len_v(a);
    assert(is_isqrt(n, len));
    assert(len >= 32768) by (nonlinear_arith)
        requires
            is_isqrt(n, len),
            n >= 16384 * 65536,
    ;
    lemma_component_square_within(a.x, len_sq_v(a), a);
    lemma_component_square_within(a.y, len_sq_v(a), a);
    lemma_component_square_within(a.z, len_sq_v(a), a);
    lemma_unit_component_bound(a.x, len, len_sq_v(a));
    lemma_unit_component_bound(a.y, len, len_sq_v(a));
    lemma_unit_component_bound(a.z, len, len_sq_v(a));
}

/// Each squared component contributes to the squared length without
/// clamping, so it is bounded by the squared length.
proof fn lemma_component_square_within(x: int, lensq: int, a: V3)
    requires
        absi(a.x) <= SCALE as int,
        absi(a.y) <= SCALE as int,
        absi(a.z) <= SCALE as int,
        x == a.x || x == a.y || x == a.z,
        lensq == len_sq_v(a),
    ensures
        crate::fx::mul_v(x, x) <= lensq,
{
    lemma_square_within_unit(a.x);
    lemma_square_within_unit(a.y);
    lemma_square_within_unit(a.z);
}

/// The fixed-point square of a unit-range scalar lies in the unit range.
proof fn lemma_square_within_unit(x: int)
    requires
        absi(x) <= SCALE as int,
    ensures
        0 <= crate::fx::mul_v(x, x) <= SCALE as int,
{
    let ax = absi(x);
    vstd::arithmetic::mul::lemma_mul_cancels_negatives(x, x);
    assert(crate::fx::mul_v(x, x) == crate::fx::mul_v(ax, ax));
    crate::fx::lemma_mul_v_unit(ax, ax);
}

/// One component of the normalized vector stays within two raw units of
/// the unit range: the squared length collects the truncated square of
/// the component, so the component's magnitude exceeds the length by at
/// most one raw unit, and the final truncated division adds at most one
/// more.
proof fn lemma_unit_component_bound(x: int, len: int, lensq: int)
    requires
        absi(x) <= SCALE as int,
        crate::fx::mul_v(x, x) <= lensq,
        is_isqrt(lensq * (SCALE as int), len),
        32768 <= len,
    ensures
        absi(crate::fx::div_v(x, len)) <= SCALE as int + 2,
{
    let s = SCALE as int;
    let n = lensq * s;
    let ax = absi(x);
    vstd::arithmetic::mul::lemma_mul_cancels_negatives(x, x);
    assert(x * x == ax * ax);
    vstd::arithmetic::mul::lemma_mul_nonnegative(ax, ax);
    assert(crate::fx::tdiv(x * x, s) == (x * x) / s);
    vstd::arithmetic::mul::lemma_mul_inequality(ax, s, ax);
    vstd::arithmetic::mul::lemma_mul_inequality(ax, s, s);
    vstd::arithmetic::mul::lemma_mul_is_commutative(s, ax);
    vstd::arithmetic::div_mod::lemma_div_is_ordered(x * x, s * s, s);
    vstd::arithmetic::div_mod::lemma_div_multiples_vanish(s, s);
    vstd::arithmetic::div_mod::lemma_div_pos_is_pos(x * x, s);
    assert(crate::fx::mul_v(x, x) == (x * x) / s);
    vstd::arithmetic::div_mod::lemma_remainder(x * x, s);
    assert(x * x <= ((x * x) / s) * s + s - 1);
    vstd::arithmetic::mul::lemma_mul_inequality((x * x) / s, lensq, s);
    assert(x * x <= n + s - 1);
    assert(absi(x) <= len + 1) by (nonlinear_arith)
        requires
            x * x <= n + s - 1,
            n < (len + 1) * (len + 1),
            s == 65536,
            len >= 32768,
    ;
    assert(absi(x * s) <= (s + 2) * absi(len)) by (nonlinear_arith)
        requires
            absi(x) <= len + 1,
            s == 65536,
            len >= 32768,
    ;
    lemma_tdiv_bound(x * s, len, s + 2);
}

} // verus!
