//! Rays: an origin, a direction, and parametric evaluation.

use vstd::prelude::*;

use crate::fx::Fx;
use crate::vec3::{Vec3, V3, v3_add, v3_scale};

verus! {

/// Mathematical image of a ray.
pub ghost struct RayV {
    pub orig: V3,
    pub dir: V3,
}

/// A ray `origin + direction * t`.
#[derive(Clone, Copy, Debug)]
pub struct Ray {
    origin: Vec3,
    direction: Vec3,
}

/// The point a ray reaches at parameter `t`.
pub open spec fn ray_at_v(r: RayV, t: int) -> V3 {
    v3_add(r.orig, v3_scale(r.dir, t))
}

impl View for Ray {
    type V = RayV;

    closed spec fn view(&self) -> RayV {
        RayV { orig: self.origin@, dir: self.direction@ }
    }
}

impl Ray {
    /// Build a ray from origin and direction.
    pub fn new(origin: Vec3, direction: Vec3) -> (r: Ray)
        ensures
            r@ == (RayV { orig: origin@, dir: direction@ }),
    {
        Ray { origin, direction }
    }

    /// The ray's origin.
    pub fn origin(&self) -> (r: Vec3)
        ensures
            r@ == self@.orig,
    {
        self.origin
    }

    /// The ray's direction.
    pub fn direction(&self) -> (r: Vec3)
        ensures
            r@ == self@.dir,
    {
        self.direction
    }

    /// The point reached at parameter `t`.
    pub fn at(&self, t: Fx) -> (r: Vec3)
        ensures
            r@ == ray_at_v(self@, t.v()),
    {
        self.origin.add(self.direction.scale(t))
    }
}

} // verus!
