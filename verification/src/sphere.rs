//! Spheres: quadratic intersection and bounding boxes.

use vstd::prelude::*;

use crate::aabb::{AABB, AabbV, aabb_wf, sur_v};
use crate::fx::{
    Fx, SCALE, MAXR, clip, absi, add_v, sub_v, neg_v, mul_v, div_v, sqrt_v, tdiv, is_isqrt, isqrt,
    lemma_isqrt, lemma_mul_v_nonneg,
};
use crate::material::Material;
use crate::ray::{Ray, RayV, ray_at_v};
use crate::types::{HitRecord, HitV, rec_v, opt_rec_v, front_face_v, face_normal_v};
use crate::vec3::{
    Vec3, V3, v3_add, v3_sub, v3_neg, v3_divs, dot_v, len_sq_v, lemma_len_sq_v_nonneg,
    lemma_sq_nonneg,
};

verus! {

/// A sphere with a center, a (possibly negative) radius, and a material.
#[derive(Clone, Copy, Debug)]
pub struct Sphere {
    pub center: Vec3,
    pub radius: Fx,
    pub material: Material,
}

/// The root the intersection routine selects: the nearer root of the
/// quadratic if it lies within `[tmin, tmax]`, else the farther root if
/// that one does, else nothing.  Built from the half-b form of the
/// quadratic exactly as the executable code computes it.
pub open spec fn sphere_root_v(s: Sphere, rv: RayV, tmin: int, tmax: int) -> Option<int> {
    let oc = v3_sub(rv.orig, s.center@);
    let a = len_sq_v(rv.dir);
    let half_b = dot_v(oc, rv.dir);
    let c = sub_v(len_sq_v(oc), mul_v(s.radius.v(), s.radius.v()));
    let disc = sub_v(mul_v(half_b, half_b), mul_v(a, c));
    if disc < 0 {
        None
    } else {
        let sqrtd = sqrt_v(disc);
        let root1 = div_v(sub_v(neg_v(half_b), sqrtd), a);
        if tmin <= root1 && root1 <= tmax {
            Some(root1)
        } else {
            let root2 = div_v(add_v(neg_v(half_b), sqrtd), a);
            if tmin <= root2 && root2 <= tmax {
                Some(root2)
            } else {
                None
            }
        }
    }
}

/// The hit record a sphere produces for a chosen root: the point reached,
/// the outward normal scaled by the radius, re-oriented by the front-face
/// convention.
pub open spec fn sphere_rec_v(s: Sphere, rv: RayV, t: int) -> HitV {
    let point = ray_at_v(rv, t);
    let outward = v3_divs(v3_sub(point, s.center@), s.radius.v());
    HitV {
        point,
        normal: face_normal_v(rv.dir, outward),
        material: s.material,
        t,
        front_face: front_face_v(rv.dir, outward),
    }
}

/// What `Sphere::hit` returns.
pub open spec fn sphere_hit_v(s: Sphere, rv: RayV, tmin: int, tmax: int) -> Option<HitV> {
    match sphere_root_v(s, rv, tmin, tmax) {
        None => None,
        Some(t) => Some(sphere_rec_v(s, rv, t)),
    }
}

/// The box of a sphere: center plus and minus the absolute radius, so a
/// negative radius still yields a well-formed box.
pub open spec fn sphere_box_v(s: Sphere) -> AabbV {
    let ar = clip(absi(s.radius.v()));
    AabbV {
        min: V3 {
            x: sub_v(s.center@.x, ar),
            y: sub_v(s.center@.y, ar),
            z: sub_v(s.center@.z, ar),
        },
        max: V3 {
            x: add_v(s.center@.x, ar),
            y: add_v(s.center@.y, ar),
            z: add_v(s.center@.z, ar),
        },
    }
}

/// A sphere's box is always well-formed.
pub proof fn lemma_sphere_box_wf(s: Sphere)
    ensures
        aabb_wf(sphere_box_v(s)),
{
}

/// Any root the intersection selects lies within the queried interval.
pub proof fn lemma_sphere_hit_t_range(s: Sphere, rv: RayV, tmin: int, tmax: int)
    ensures
        sphere_hit_v(s, rv, tmin, tmax) matches Some(h) ==> tmin <= h.t <= tmax,
{
}

/// A ray that starts strictly outside a sphere and points away from it on
/// every axis reports no intersection for any positive query interval.
/// "Strictly outside" and "away" are read off the computed quantities:
/// the squared distance from origin to center exceeds the squared radius,
/// and on each axis the product of the center-to-origin offset with the
/// direction component is nonnegative.  A direction whose squared length
/// rounds to zero is excluded: it carries no usable heading.
pub proof fn lemma_ray_away_misses(s: Sphere, rv: RayV, tmin: int, tmax: int)
    requires
        len_sq_v(v3_sub(rv.orig, s.center@)) > mul_v(s.radius.v(), s.radius.v()),
        0 <= mul_v(v3_sub(rv.orig, s.center@).x, rv.dir.x),
        0 <= mul_v(v3_sub(rv.orig, s.center@).y, rv.dir.y),
        0 <= mul_v(v3_sub(rv.orig, s.center@).z, rv.dir.z),
        0 < len_sq_v(rv.dir),
        0 < tmin,
    ensures
        sphere_hit_v(s, rv, tmin, tmax) is None,
{
    let st = SCALE as int;
    let oc = v3_sub(rv.orig, s.center@);
    let a = len_sq_v(rv.dir);
    let half_b = dot_v(oc, rv.dir);
    let c = sub_v(len_sq_v(oc), mul_v(s.radius.v(), s.radius.v()));
    let disc = sub_v(mul_v(half_b, half_b), mul_v(a, c));
    assert(0 <= half_b);
    lemma_sq_nonneg(s.radius.v());
    lemma_len_sq_v_nonneg(oc);
    assert(0 < c);
    lemma_mul_v_nonneg(a, c);
    lemma_sq_nonneg(half_b);
    assert(disc <= mul_v(half_b, half_b));
    if disc >= 0 {
        let sqrtd = sqrt_v(disc);
        assert(0 <= sqrtd && sqrtd <= half_b) by {
            if disc > 0 {
                lemma_isqrt(disc * st);
                assert(is_isqrt(disc * st, sqrtd));
                let hb2 = half_b * half_b;
                vstd::arithmetic::mul::lemma_mul_nonnegative(half_b, half_b);
                assert(tdiv(hb2, st) == hb2 / st);
                vstd::arithmetic::div_mod::lemma_div_pos_is_pos(hb2, st);
                assert(mul_v(half_b, half_b) <= hb2 / st);
                vstd::arithmetic::mul::lemma_mul_inequality(disc, mul_v(half_b, half_b), st);
                vstd::arithmetic::mul::lemma_mul_inequality(mul_v(half_b, half_b), hb2 / st, st);
                vstd::arithmetic::div_mod::lemma_remainder_lower(hb2, st);
                assert(disc * st <= hb2);
                assert(sqrtd <= half_b) by (nonlinear_arith)
                    requires
                        is_isqrt(disc * st, sqrtd),
                        disc * st <= half_b * half_b,
                        0 <= half_b,
                ;
            }
        };
        let num1 = sub_v(neg_v(half_b), sqrtd);
        let num2 = add_v(neg_v(half_b), sqrtd);
        assert(num1 <= 0);
        assert(num2 <= 0);
        let root1 = div_v(num1, a);
        let root2 = div_v(num2, a);
        assert(root1 <= 0) by {
            vstd::arithmetic::mul::lemma_mul_unary_negation(-num1, st);
            vstd::arithmetic::mul::lemma_mul_nonnegative(-num1, st);
            crate::fx::lemma_tdiv_nonpos(num1 * st, a);
        };
        assert(root2 <= 0) by {
            vstd::arithmetic::mul::lemma_mul_unary_negation(-num2, st);
            vstd::arithmetic::mul::lemma_mul_nonnegative(-num2, st);
            crate::fx::lemma_tdiv_nonpos(num2 * st, a);
        };
        assert(root1 < tmin);
        assert(root2 < tmin);
    }
}

/// The nearest-root law along an axis: for a unit ray down the negative
/// z axis and a sphere centered a distance `dist` along it, the
/// intersection reports the nearer root `dist - r`, within two raw units
/// (the square root of the truncated squared radius can fall short of the
/// radius by that much).  The radius must be at least a quarter unit for
/// the bound, and the query interval must cover the root.
pub proof fn lemma_unit_axis_ray_nearest_root(
    s: Sphere,
    rv: RayV,
    dist: int,
    tmin: int,
    tmax: int,
)
    requires
        rv.dir == (V3 { x: 0, y: 0, z: -(SCALE as int) }),
        s.center@.x == rv.orig.x,
        s.center@.y == rv.orig.y,
        s.center@.z == sub_v(rv.orig.z, dist),
        16385 <= s.radius.v() < dist,
        dist <= 0x400000000,
        -0x10000000000 <= rv.orig.z <= 0x10000000000,
        0 < tmin <= dist - s.radius.v(),
        dist - s.radius.v() + 2 <= tmax,
    ensures
        sphere_hit_v(s, rv, tmin, tmax) is Some,
        sphere_hit_v(s, rv, tmin, tmax) matches Some(h) ==> dist - s.radius.v() <= h.t <= dist
            - s.radius.v() + 2,
{
    let sc = SCALE as int;
    let r = s.radius.v();
    let oc = v3_sub(rv.orig, s.center@);
    assert(oc.x == 0 && oc.y == 0 && oc.z == dist);

    // products of zero components vanish
    vstd::arithmetic::div_mod::lemma_div_of0(sc);
    assert(tdiv(0, sc) == 0int / sc);
    assert(mul_v(0, 0) == 0);

    // the direction has unit squared length
    vstd::arithmetic::mul::lemma_mul_cancels_negatives(sc, sc);
    crate::fx::lemma_mul_v_one(sc);
    assert(mul_v(-sc, -sc) == sc);
    assert(len_sq_v(rv.dir) == sc);

    // the half-b term is exactly minus the distance
    crate::fx::lemma_mul_v_neg_one(dist);
    assert(dot_v(oc, rv.dir) == -dist);

    // the squared offset and squared radius, truncated
    let m_d = mul_v(dist, dist);
    let m_r = mul_v(r, r);
    vstd::arithmetic::mul::lemma_mul_nonnegative(dist, dist);
    vstd::arithmetic::mul::lemma_mul_nonnegative(r, r);
    assert(tdiv(dist * dist, sc) == (dist * dist) / sc);
    assert(tdiv(r * r, sc) == (r * r) / sc);
    assert(dist * dist <= 0x400000000 * 0x400000000) by (nonlinear_arith)
        requires
            0 <= dist <= 0x400000000,
    ;
    vstd::arithmetic::div_mod::lemma_div_is_ordered(
        dist * dist,
        0x400000000int * 0x400000000int,
        sc,
    );
    vstd::arithmetic::div_mod::lemma_div_pos_is_pos(dist * dist, sc);
    vstd::arithmetic::div_mod::lemma_div_pos_is_pos(r * r, sc);
    assert(r * r <= dist * dist) by (nonlinear_arith)
        requires
            0 < r < dist,
    ;
    vstd::arithmetic::div_mod::lemma_div_is_ordered(r * r, dist * dist, sc);
    assert(m_d == (dist * dist) / sc);
    assert(m_r == (r * r) / sc);
    assert(len_sq_v(oc) == m_d);

    // the discriminant collapses to the truncated squared radius
    let c = sub_v(m_d, m_r);
    assert(c == m_d - m_r);
    vstd::arithmetic::mul::lemma_mul_cancels_negatives(dist, dist);
    assert(mul_v(-dist, -dist) == m_d);
    vstd::arithmetic::mul::lemma_mul_is_commutative(sc, c);
    crate::fx::lemma_mul_v_one(c);
    assert(mul_v(sc, c) == c);
    let disc = sub_v(mul_v(-dist, -dist), mul_v(sc, c));
    assert(disc == m_r);

    // the square root lands within two units below the radius
    assert(16385 * 16385 <= r * r) by (nonlinear_arith)
        requires
            16385 <= r,
    ;
    vstd::arithmetic::div_mod::lemma_div_is_ordered(16385int * 16385int, r * r, sc);
    assert(m_r >= (16385int * 16385int) / sc);
    assert(m_r > 0);
    lemma_isqrt(m_r * sc);
    let sqrtd = sqrt_v(m_r);
    assert(is_isqrt(m_r * sc, sqrtd));
    vstd::arithmetic::div_mod::lemma_remainder_lower(r * r, sc);
    vstd::arithmetic::div_mod::lemma_remainder(r * r, sc);
    assert(m_r * sc <= r * r);
    assert(m_r * sc > r * r - sc);
    assert(sqrtd <= r) by (nonlinear_arith)
        requires
            is_isqrt(m_r * sc, sqrtd),
            m_r * sc <= r * r,
            0 <= r,
    ;
    assert((r - 2) * (r - 2) < m_r * sc) by (nonlinear_arith)
        requires
            m_r * sc > r * r - sc,
            r >= 16385,
            sc == 65536,
    ;
    assert(sqrtd >= r - 2) by (nonlinear_arith)
        requires
            is_isqrt(m_r * sc, sqrtd),
            (r - 2) * (r - 2) < m_r * sc,
            r >= 16385,
    ;

    // the nearer root is the distance minus the root, exactly
    let num1 = sub_v(neg_v(-dist), sqrtd);
    assert(num1 == dist - sqrtd);
    crate::fx::lemma_mul_v_one(num1);
    assert(div_v(num1, sc) == clip(tdiv(num1 * sc, sc)));
    assert(div_v(num1, sc) == num1);
    assert(tmin <= num1 <= tmax);
}

impl Sphere {
    /// A sphere from center, radius and material.
    pub fn new(center: Vec3, radius: Fx, material: Material) -> (r: Sphere)
        ensures
            r.center == center,
            r.radius == radius,
            r.material == material,
    {
        Sphere { center, radius, material }
    }

    /// Solve the quadratic for the ray-sphere intersection and report the
    /// nearest root within `[t_min, t_max]`, with the front-face oriented
    /// normal.
    pub fn hit(&self, ray: &Ray, t_min: Fx, t_max: Fx) -> (r: Option<HitRecord>)
        ensures
            opt_rec_v(r) == sphere_hit_v(*self, ray@, t_min.v(), t_max.v()),
    {
        let oc = ray.origin().sub(self.center);
        let a = ray.direction().length_squared();
        let half_b = oc.dot(&ray.direction());
        let c = oc.length_squared().sub(self.radius.mul(self.radius));

        let discriminant = half_b.mul(half_b).sub(a.mul(c));
        if discriminant.raw < 0 {
            return None;
        }

        let sqrtd = discriminant.sqrt();
        let mut root = half_b.neg().sub(sqrtd).div(a);
        if root.lt(t_min) || t_max.lt(root) {
            root = half_b.neg().add(sqrtd).div(a);
            if root.lt(t_min) || t_max.lt(root) {
                return None;
            }
        }

        let t = root;
        let point = ray.at(t);
        let outward_normal = point.sub(self.center).div(self.radius);
        let mut rec = HitRecord {
            point,
            normal: outward_normal,
            material: self.material,
            t,
            front_face: false,
        };
        rec.set_face_normal(ray, outward_normal);

        Some(rec)
    }

    /// The bounding box: center offset by the absolute radius on every
    /// axis.
    pub fn bounding_box(&self, _time0: Fx, _time1: Fx) -> (r: AABB)
        ensures
            r@ == sphere_box_v(*self),
    {
        let ar = self.radius.abs();
        let radius_vec = Vec3::new(ar, ar, ar);
        AABB::new(self.center.sub(radius_vec), self.center.add(radius_vec))
    }
}

} // verus!
