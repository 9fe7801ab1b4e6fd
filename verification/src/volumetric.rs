//! A uniform participating medium: Beer-Lambert attenuation and
//! in-scattered light.

use vstd::prelude::*;

use crate::fx::{
    Fx, SCALE, add_v, sub_v, mul_v, div_v, tdiv, lemma_mul_v_nonneg,
};
use crate::ray::Ray;
use crate::vec3::{Color, V3, v3_scale, lemma_sq_nonneg};

verus! {

/// Uniform fog: a color and a density.
#[derive(Clone, Copy, Debug)]
pub struct UniformFog {
    pub color: Color,
    pub density: Fx,
}

/// The transmittance for optical depth `x`: a rational stand-in for
/// `exp(-x)`, namely the reciprocal of the quadratic lower series of
/// `exp(x)`.  It is exactly one at zero depth and falls toward zero as
/// the depth grows.
pub open spec fn beer_v(x: int) -> int {
    div_v(SCALE as int, add_v(add_v(SCALE as int, x), mul_v(mul_v(x, x), 32768)))
}

/// The transmittance a fog yields over a parameter interval.
pub open spec fn fog_trans_v(f: UniformFog, tmin: int, tmax: int) -> int {
    beer_v(mul_v(f.density.v(), sub_v(tmax, tmin)))
}

/// The in-scattered light a fog yields over a parameter interval.
pub open spec fn fog_scatter_v(f: UniformFog, tmin: int, tmax: int) -> V3 {
    v3_scale(f.color@, sub_v(SCALE as int, fog_trans_v(f, tmin, tmax)))
}

/// Nonnegative optical depth gives a transmittance in `[0, 1]`.
pub proof fn lemma_beer_unit(x: int)
    requires
        0 <= x,
    ensures
        0 <= beer_v(x) <= SCALE as int,
{
    let s = SCALE as int;
    lemma_sq_nonneg(x);
    lemma_mul_v_nonneg(mul_v(x, x), 32768);
    let denom = add_v(add_v(s, x), mul_v(mul_v(x, x), 32768));
    assert(s <= denom);
    vstd::arithmetic::mul::lemma_mul_nonnegative(s, s);
    assert(tdiv(s * s, denom) == (s * s) / denom);
    vstd::arithmetic::div_mod::lemma_div_pos_is_pos(s * s, denom);
    vstd::arithmetic::div_mod::lemma_div_is_ordered_by_denominator(s * s, s, denom);
    vstd::arithmetic::div_mod::lemma_div_multiples_vanish(s, s);
}

/// Beer-Lambert attenuation for a density over a distance.
pub fn calculate_beer_lambert_attenuation(density: Fx, distance: Fx) -> (r: Fx)
    ensures
        r.v() == beer_v(mul_v(density.v(), distance.v())),
        0 <= mul_v(density.v(), distance.v()) ==> 0 <= r.v() <= SCALE as int,
{
    let x = density.mul(distance);
    let half_sq = x.mul(x).mul(Fx::from_raw(32768));
    let denom = Fx::one().add(x).add(half_sq);
    proof {
        if 0 <= x.v() {
            lemma_beer_unit(x.v());
        }
    }
    Fx::one().div(denom)
}

impl UniformFog {
    /// A fog from its color and density.
    pub fn new(color: Color, density: Fx) -> (r: UniformFog)
        ensures
            r.color == color,
            r.density == density,
    {
        UniformFog { color, density }
    }

    /// Transmittance and in-scattered light over `[t_min, t_max]`: the
    /// Beer-Lambert factor for the distance, and the fog color scaled by
    /// what was absorbed.  Over a forward interval with nonnegative
    /// density the transmittance lies in `[0, 1]`.
    pub fn sample(&self, _ray: &Ray, t_min: Fx, t_max: Fx) -> (r: (Color, Fx))
        ensures
            r.1.v() == fog_trans_v(*self, t_min.v(), t_max.v()),
            r.0@ == fog_scatter_v(*self, t_min.v(), t_max.v()),
            (0 <= self.density.v() && t_min.v() <= t_max.v()) ==> 0 <= r.1.v() <= SCALE as int,
    {
        let distance = t_max.sub(t_min);
        proof {
            if 0 <= self.density.v() && t_min.v() <= t_max.v() {
                lemma_mul_v_nonneg(self.density.v(), distance.v());
            }
        }
        let transmittance = calculate_beer_lambert_attenuation(self.density, distance);
        let scattered_light = self.color.scale(Fx::one().sub(transmittance));
        (scattered_light, transmittance)
    }
}

} // verus!
