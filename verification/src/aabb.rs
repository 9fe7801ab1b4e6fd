//! Axis-aligned bounding boxes with the slab intersection test.

use vstd::prelude::*;

use crate::fx::{Fx, SCALE, div_v, mul_v, sub_v, min_v, max_v};
use crate::ray::{Ray, RayV};
use crate::vec3::{Vec3, V3, idx3};

verus! {

/// Mathematical image of a box: the two corner vectors.
pub ghost struct AabbV {
    pub min: V3,
    pub max: V3,
}

/// An axis-aligned bounding box.
#[derive(Clone, Copy, Debug)]
pub struct AABB {
    minimum: Vec3,
    maximum: Vec3,
}

/// A well-formed box has its minimum corner at or below its maximum corner
/// on every axis.
pub open spec fn aabb_wf(b: AabbV) -> bool {
    b.min.x <= b.max.x && b.min.y <= b.max.y && b.min.z <= b.max.z
}

/// `outer` contains `inner`: every corner of `inner` lies within `outer`
/// on every axis.
pub open spec fn aabb_contains(outer: AabbV, inner: AabbV) -> bool {
    &&& outer.min.x <= inner.min.x && inner.max.x <= outer.max.x
    &&& outer.min.y <= inner.min.y && inner.max.y <= outer.max.y
    &&& outer.min.z <= inner.min.z && inner.max.z <= outer.max.z
}

/// The smallest box around two boxes: component-wise minimum of minima and
/// maximum of maxima.
pub open spec fn sur_v(a: AabbV, b: AabbV) -> AabbV {
    AabbV {
        min: V3 {
            x: min_v(a.min.x, b.min.x),
            y: min_v(a.min.y, b.min.y),
            z: min_v(a.min.z, b.min.z),
        },
        max: V3 {
            x: max_v(a.max.x, b.max.x),
            y: max_v(a.max.y, b.max.y),
            z: max_v(a.max.z, b.max.z),
        },
    }
}

/// The reciprocal of the ray direction on one axis; a zero component
/// saturates, standing in for an IEEE infinity.
pub open spec fn axis_inv(rv: RayV, a: int) -> int {
    div_v(SCALE as int, idx3(rv.dir, a))
}

/// Slab entry parameter computed from the minimum corner on one axis.
pub open spec fn axis_t0(b: AabbV, rv: RayV, a: int) -> int {
    mul_v(sub_v(idx3(b.min, a), idx3(rv.orig, a)), axis_inv(rv, a))
}

/// Slab exit parameter computed from the maximum corner on one axis.
pub open spec fn axis_t1(b: AabbV, rv: RayV, a: int) -> int {
    mul_v(sub_v(idx3(b.max, a), idx3(rv.orig, a)), axis_inv(rv, a))
}

/// The lower slab bound on one axis, after orienting for the ray direction.
pub open spec fn axis_lo(b: AabbV, rv: RayV, a: int) -> int {
    if axis_inv(rv, a) < 0 {
        axis_t1(b, rv, a)
    } else {
        axis_t0(b, rv, a)
    }
}

/// The upper slab bound on one axis, after orienting for the ray direction.
pub open spec fn axis_hi(b: AabbV, rv: RayV, a: int) -> int {
    if axis_inv(rv, a) < 0 {
        axis_t0(b, rv, a)
    } else {
        axis_t1(b, rv, a)
    }
}

/// The slab test from axis `a` on, with the running interval
/// `[tmin, tmax]`: intersect with each axis's slab interval and fail as
/// soon as the interval empties.
pub open spec fn slab_from(b: AabbV, rv: RayV, a: int, tmin: int, tmax: int) -> bool
    decreases 3 - a,
{
    if a >= 3 {
        true
    } else {
        let lo = max_v(axis_lo(b, rv, a), tmin);
        let hi = min_v(axis_hi(b, rv, a), tmax);
        if hi <= lo {
            false
        } else {
            slab_from(b, rv, a + 1, lo, hi)
        }
    }
}

/// Whether a ray meets a box within the parameter interval `[tmin, tmax]`.
pub open spec fn aabb_hit_v(b: AabbV, rv: RayV, tmin: int, tmax: int) -> bool {
    slab_from(b, rv, 0, tmin, tmax)
}

/// The lower end of the intersection of all three axis intervals with
/// `tmin`, as the brute-force formulation computes it.
pub open spec fn interval_lo(b: AabbV, rv: RayV, tmin: int) -> int {
    max_v(max_v(max_v(axis_lo(b, rv, 0), axis_lo(b, rv, 1)), axis_lo(b, rv, 2)), tmin)
}

/// The upper end of the intersection of all three axis intervals with
/// `tmax`.
pub open spec fn interval_hi(b: AabbV, rv: RayV, tmax: int) -> int {
    min_v(min_v(min_v(axis_hi(b, rv, 0), axis_hi(b, rv, 1)), axis_hi(b, rv, 2)), tmax)
}

/// The fail-fast slab test agrees with the brute-force per-axis interval
/// check: the ray meets the box exactly when the intersection of the three
/// axis intervals with `[tmin, tmax]` is nonempty.
pub proof fn lemma_slab_is_interval_check(b: AabbV, rv: RayV, tmin: int, tmax: int)
    ensures
        aabb_hit_v(b, rv, tmin, tmax) <==> interval_lo(b, rv, tmin) < interval_hi(b, rv, tmax),
{
    let m1 = max_v(axis_lo(b, rv, 0), tmin);
    let x1 = min_v(axis_hi(b, rv, 0), tmax);
    let m2 = max_v(axis_lo(b, rv, 1), m1);
    let x2 = min_v(axis_hi(b, rv, 1), x1);
    let m3 = max_v(axis_lo(b, rv, 2), m2);
    let x3 = min_v(axis_hi(b, rv, 2), x2);
    assert(slab_from(b, rv, 3, m3, x3) == true);
    assert(slab_from(b, rv, 2, m2, x2) == (m3 < x3));
    assert(slab_from(b, rv, 1, m1, x1) == ((m2 < x2) && (m3 < x3)));
    assert(slab_from(b, rv, 0, tmin, tmax) == ((m1 < x1) && (m2 < x2) && (m3 < x3)));
    assert(m3 < x3 ==> (m1 < x1) && (m2 < x2));
    assert(m3 == interval_lo(b, rv, tmin));
    assert(x3 == interval_hi(b, rv, tmax));
}

impl View for AABB {
    type V = AabbV;

    closed spec fn view(&self) -> AabbV {
        AabbV { min: self.minimum@, max: self.maximum@ }
    }
}

impl AABB {
    /// Build a box from its two corners.
    pub fn new(minimum: Vec3, maximum: Vec3) -> (r: AABB)
        ensures
            r@ == (AabbV { min: minimum@, max: maximum@ }),
    {
        AABB { minimum, maximum }
    }

    /// The minimum corner.
    pub fn min(&self) -> (r: Vec3)
        ensures
            r@ == self@.min,
    {
        self.minimum
    }

    /// The maximum corner.
    pub fn max(&self) -> (r: Vec3)
        ensures
            r@ == self@.max,
    {
        self.maximum
    }

    /// The slab test: whether `ray` meets this box within `[t_min, t_max]`.
    pub fn hit(&self, ray: &Ray, t_min: Fx, t_max: Fx) -> (r: bool)
        ensures
            r == aabb_hit_v(self@, ray@, t_min.v(), t_max.v()),
    {
        let mut tmin = t_min;
        let mut tmax = t_max;
        for a in 0..3usize
            invariant
                aabb_hit_v(self@, ray@, t_min.v(), t_max.v()) == slab_from(
                    self@,
                    ray@,
                    a as int,
                    tmin.v(),
                    tmax.v(),
                ),
        {
            let inv_d = Fx::one().div(ray.direction().get(a));
            let t0 = self.minimum.get(a).sub(ray.origin().get(a)).mul(inv_d);
            let t1 = self.maximum.get(a).sub(ray.origin().get(a)).mul(inv_d);
            let (lo, hi) = if inv_d.raw < 0 {
                (t1, t0)
            } else {
                (t0, t1)
            };
            let new_tmin = lo.max(tmin);
            let new_tmax = hi.min(tmax);
            if new_tmax.raw <= new_tmin.raw {
                return false;
            }
            tmin = new_tmin;
            tmax = new_tmax;
        }
        true
    }

    /// The smallest box containing both given boxes.
    pub fn surrounding_box(box0: &AABB, box1: &AABB) -> (r: AABB)
        ensures
            r@ == sur_v(box0@, box1@),
    {
        let small = Vec3::new(
            box0.min().x().min(box1.min().x()),
            box0.min().y().min(box1.min().y()),
            box0.min().z().min(box1.min().z()),
        );
        let big = Vec3::new(
            box0.max().x().max(box1.max().x()),
            box0.max().y().max(box1.max().y()),
            box0.max().z().max(box1.max().z()),
        );
        AABB::new(small, big)
    }
}

/// The surrounding box of two well-formed boxes contains both of them, and
/// is itself well-formed: every corner of each input lies within it on
/// every axis.
pub proof fn lemma_surrounding_box_contains(a: AabbV, b: AabbV)
    requires
        aabb_wf(a),
        aabb_wf(b),
    ensures
        aabb_wf(sur_v(a, b)),
        aabb_contains(sur_v(a, b), a),
        aabb_contains(sur_v(a, b), b),
{
}

} // verus!
