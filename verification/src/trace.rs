//! The recursive light-transport integrator.

use vstd::prelude::*;

use crate::bvh::{BVHNode, node_hit_v};
use crate::fx::{Fx, SCALE, MAXR, add_v, sub_v, mul_v};
use crate::material::scatter_attenuation_v;
use crate::ray::{Ray, RayV};
use crate::types::{HitV, rec_v};
use crate::vec3::{Color, V3, v3_add, v3_hadamard, v3_scale, v3_zero, unit_v, lemma_hadamard_zero};
use crate::volumetric::{UniformFog, fog_trans_v, fog_scatter_v};

verus! {

/// The lower parameter bound of every surface query: the shadow-acne
/// epsilon, about one thousandth.
pub const T_EPS: i64 = 66;

/// The distance that stands in for a ray escaping to infinity when the
/// fog is applied to the background.
pub const T_FAR: i64 = 65536000;

/// The background gradient: a vertical blend from white to the sky color,
/// keyed by the normalized direction's vertical component.
pub open spec fn background_v(rv: RayV) -> V3 {
    let ud = unit_v(rv.dir);
    let t = mul_v(32768, add_v(ud.y, SCALE as int));
    v3_add(
        v3_scale(V3 { x: SCALE as int, y: SCALE as int, z: SCALE as int }, sub_v(SCALE as int, t)),
        v3_scale(V3 { x: 32768, y: 45875, z: SCALE as int }, t),
    )
}

/// The fog compositing law: the incoming color scaled by the
/// transmittance, plus the in-scattered light.
pub open spec fn composite_v(color: V3, f: UniformFog, tmin: int, tmax: int) -> V3 {
    v3_add(v3_scale(color, fog_trans_v(f, tmin, tmax)), fog_scatter_v(f, tmin, tmax))
}

/// The image of the optional fog reference.
pub open spec fn fog_v(o: Option<&UniformFog>) -> Option<UniformFog> {
    match o {
        None => None,
        Some(f) => Some(*f),
    }
}

/// What a ray that misses every surface returns: the background, run
/// through the fog over a long fixed distance when a fog is present.
pub open spec fn miss_color_v(rv: RayV, fog: Option<UniformFog>) -> V3 {
    let bg = background_v(rv);
    match fog {
        None => bg,
        Some(f) => composite_v(bg, f, 0, T_FAR as int),
    }
}

/// The pre-fog color of a surface hit: black when the material absorbed
/// the ray, else the hit material's attenuation — fixed by the material,
/// the normalized incoming direction and the stored normal — multiplied
/// component-wise into the color of the scattered ray.
pub open spec fn absorbed_or_attenuated(c: V3, h: HitV, rv: RayV) -> bool {
    c == v3_zero() || (exists|rest: V3|
        c == v3_hadamard(scatter_attenuation_v(h.material, unit_v(rv.dir), h.normal), rest))
}

/// What a surface hit returns: the pre-fog color, composited — when a fog
/// is present — with the transmittance and in-scattered light over the
/// distance to this hit.
pub open spec fn hit_color_v(out: V3, h: HitV, rv: RayV, fog: Option<UniformFog>) -> bool {
    match fog {
        None => absorbed_or_attenuated(out, h, rv),
        Some(f) => exists|c: V3|
            #![trigger composite_v(c, f, 0, h.t)]
            absorbed_or_attenuated(c, h, rv) && out == composite_v(c, f, 0, h.t),
    }
}

/// The recursive integrator: black at the depth cap; on a surface hit,
/// the scattered ray's color attenuated by the material (or black when
/// the material absorbs), composited with the fog up to the hit; on a
/// miss, the background gradient composited with the fog over a long
/// fixed distance.  At depth one the recursion below the hit is already
/// capped, so the surface contributes black exactly.
pub fn ray_color(ray: &Ray, world: &BVHNode, volumetric: Option<&UniformFog>, depth: u32) -> (r:
    Color)
    ensures
        depth == 0 ==> r@ == v3_zero(),
        depth > 0 && node_hit_v(*world, ray@, T_EPS as int, MAXR as int) is None ==> r@
            == miss_color_v(ray@, fog_v(volumetric)),
        depth > 0 ==> (node_hit_v(*world, ray@, T_EPS as int, MAXR as int) matches Some(h)
            ==> hit_color_v(r@, h, ray@, fog_v(volumetric))),
        depth == 1 ==> (node_hit_v(*world, ray@, T_EPS as int, MAXR as int) matches Some(h)
            ==> (match fog_v(volumetric) {
            None => r@ == v3_zero(),
            Some(f) => r@ == composite_v(v3_zero(), f, 0, h.t),
        })),
    decreases depth,
{
    if depth == 0 {
        return Color::new(Fx::zero(), Fx::zero(), Fx::zero());
    }

    match world.hit(ray, Fx::from_raw(T_EPS), Fx::from_raw(MAXR)) {
        Some(rec) => {
            let ghost h = rec_v(rec);
            let ghost att = scatter_attenuation_v(rec.material, unit_v(ray@.dir), rec.normal@);
            let mut color = Color::new(Fx::zero(), Fx::zero(), Fx::zero());
            match rec.material.scatter(ray, &rec) {
                Some(scatter) => {
                    let rest = ray_color(&scatter.scattered, world, volumetric, depth - 1);
                    color = scatter.attenuation.mul(rest);
                    proof {
                        assert(color@ == v3_hadamard(
                            scatter_attenuation_v(h.material, unit_v(ray@.dir), h.normal),
                            rest@,
                        ));
                        if depth == 1 {
                            lemma_hadamard_zero(att);
                        }
                    }
                },
                None => {},
            }
            proof {
                assert(absorbed_or_attenuated(color@, h, ray@));
            }
            let ghost base = color@;
            match volumetric {
                Some(medium) => {
                    let (scattered_light, transmittance) = medium.sample(ray, Fx::zero(), rec.t);
                    color = color.scale(transmittance).add(scattered_light);
                    proof {
                        assert(color@ == composite_v(base, *medium, 0, h.t));
                    }
                },
                None => {},
            }
            color
        },
        None => {
            let unit_direction = ray.direction().unit_vector();
            let t = Fx::from_raw(32768).mul(unit_direction.y().add(Fx::one()));
            let white = Color::new(Fx::one(), Fx::one(), Fx::one());
            let sky = Color::new(Fx::from_raw(32768), Fx::from_raw(45875), Fx::one());
            let background = white.scale(Fx::one().sub(t)).add(sky.scale(t));
            match volumetric {
                Some(medium) => {
                    let (scattered_light, transmittance) = medium.sample(
                        ray,
                        Fx::zero(),
                        Fx::from_raw(T_FAR),
                    );
                    background.scale(transmittance).add(scattered_light)
                },
                None => background,
            }
        },
    }
}

} // verus!
