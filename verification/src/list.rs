//! A flat scene container with linear-scan intersection.

use vstd::prelude::*;

use crate::aabb::{AABB, AabbV, sur_v};
use crate::bvh::{BVHNode, node_wf, node_leaves};
use crate::fx::Fx;
use crate::ray::{Ray, RayV};
use crate::sphere::{Sphere, sphere_hit_v, sphere_box_v};
use crate::types::{HitRecord, HitV, opt_rec_v};

verus! {

/// An unordered collection of spheres.
pub struct HittableList {
    pub objects: Vec<Sphere>,
}

/// The closest-hit scan from index `i` on, carrying the best hit so far
/// and the tightened upper parameter bound.
pub open spec fn scan_from(
    objs: Seq<Sphere>,
    i: int,
    rv: RayV,
    tmin: int,
    closest: int,
    best: Option<HitV>,
) -> Option<HitV>
    decreases objs.len() - i,
{
    if i < 0 || i >= objs.len() {
        best
    } else {
        match sphere_hit_v(objs[i], rv, tmin, closest) {
            Some(h) => scan_from(objs, i + 1, rv, tmin, h.t, Some(h)),
            None => scan_from(objs, i + 1, rv, tmin, closest, best),
        }
    }
}

/// What the linear scan over a whole list returns.
pub open spec fn list_hit_v(objs: Seq<Sphere>, rv: RayV, tmin: int, tmax: int) -> Option<HitV> {
    scan_from(objs, 0, rv, tmin, tmax, None)
}

/// The box folded over the tail of a list, starting from `acc`.
pub open spec fn boxes_from(objs: Seq<Sphere>, i: int, acc: AabbV) -> AabbV
    decreases objs.len() - i,
{
    if i < 0 || i >= objs.len() {
        acc
    } else {
        boxes_from(objs, i + 1, sur_v(acc, sphere_box_v(objs[i])))
    }
}

/// The box around a whole list: nothing for an empty list.
pub open spec fn list_box_v(objs: Seq<Sphere>) -> Option<AabbV> {
    if objs.len() == 0 {
        None
    } else {
        Some(boxes_from(objs, 1, sphere_box_v(objs[0])))
    }
}

impl HittableList {
    /// An empty list.
    pub fn new() -> (r: HittableList)
        ensures
            r.objects@.len() == 0,
    {
        HittableList { objects: Vec::new() }
    }

    /// Append an object.
    pub fn add(&mut self, object: Sphere)
        ensures
            final(self).objects@ == old(self).objects@.push(object),
    {
        self.objects.push(object);
    }

    /// Remove every object.
    pub fn clear(&mut self)
        ensures
            final(self).objects@.len() == 0,
    {
        self.objects.clear();
    }

    /// Scan every object and keep the closest hit: each accepted hit
    /// tightens the upper parameter bound for the rest of the scan.
    pub fn hit(&self, ray: &Ray, t_min: Fx, t_max: Fx) -> (r: Option<HitRecord>)
        ensures
            opt_rec_v(r) == list_hit_v(self.objects@, ray@, t_min.v(), t_max.v()),
    {
        let ghost whole = list_hit_v(self.objects@, ray@, t_min.v(), t_max.v());
        let mut closest_so_far = t_max;
        let mut hit_anything: Option<HitRecord> = None;
        let n: usize = self.objects.len();
        let mut i: usize = 0;
        while i < n
            invariant
                n == self.objects@.len(),
                i <= n,
                whole == scan_from(
                    self.objects@,
                    i as int,
                    ray@,
                    t_min.v(),
                    closest_so_far.v(),
                    opt_rec_v(hit_anything),
                ),
            decreases n - i,
        {
            if let Some(hit_record) = self.objects[i].hit(ray, t_min, closest_so_far) {
                closest_so_far = hit_record.t;
                hit_anything = Some(hit_record);
            }
            i = i + 1;
        }
        hit_anything
    }

    /// The box around every object, folded up with `surrounding_box`;
    /// nothing when the list is empty.
    pub fn bounding_box(&self, time0: Fx, time1: Fx) -> (r: Option<AABB>)
        ensures
            r is Some <==> self.objects@.len() > 0,
            r matches Some(bb) ==> list_box_v(self.objects@) == Some(bb@),
    {
        let n: usize = self.objects.len();
        if n == 0 {
            return None;
        }
        let mut acc: AABB = self.objects[0].bounding_box(time0, time1);
        let mut i: usize = 1;
        while i < n
            invariant
                n == self.objects@.len(),
                1 <= i <= n,
                boxes_from(self.objects@, 1, sphere_box_v(self.objects@[0])) == boxes_from(
                    self.objects@,
                    i as int,
                    acc@,
                ),
            decreases n - i,
        {
            let bb = self.objects[i].bounding_box(time0, time1);
            acc = AABB::surrounding_box(&acc, &bb);
            i = i + 1;
        }
        Some(acc)
    }

    /// Build the bounding-volume hierarchy over this list, at the fixed
    /// time interval every primitive reports its box for.  The tree is
    /// well-formed and its leaves are exactly this list's objects — every
    /// object appears at least once (a singleton partition references the
    /// same leaf twice, so a copy may appear twice, never more) and no
    /// foreign object appears.  An empty list cannot be optimized; the
    /// caller must rule it out.
    pub fn optimize(&self) -> (r: BVHNode)
        requires
            self.objects@.len() > 0,
        ensures
            node_wf(r),
            forall|s: Sphere| node_leaves(r).contains(s) <==> self.objects@.contains(s),
            forall|s: Sphere| self.objects@.to_multiset().count(s) <= #[trigger] node_leaves(
                r,
            ).to_multiset().count(s),
            forall|s: Sphere| #[trigger] node_leaves(r).to_multiset().count(s) <= 2
                * self.objects@.to_multiset().count(s),
    {
        let time0 = Fx::zero();
        let time1 = Fx::one();
        let n: usize = self.objects.len();
        let mut copied: Vec<Sphere> = Vec::new();
        let mut i: usize = 0;
        while i < n
            invariant
                n == self.objects@.len(),
                i <= n,
                copied@ == self.objects@.subrange(0, i as int),
            decreases n - i,
        {
            copied.push(self.objects[i]);
            proof {
                assert(copied@ =~= self.objects@.subrange(0, i as int + 1));
            }
            i = i + 1;
        }
        proof {
            assert(copied@ =~= self.objects@);
        }
        BVHNode::new(copied, time0, time1)
    }
}

} // verus!
