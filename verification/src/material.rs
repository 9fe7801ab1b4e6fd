//! The closed set of materials and their scattering behavior.
//!
//! Each material's deterministic core takes the random draw as an
//! argument and has an exact contract; the public `scatter` methods make
//! the draw and state what holds whatever was drawn.

use vstd::prelude::*;

use crate::fx::{
    Fx, SCALE, add_v, sub_v, mul_v, div_v, sqrt_v, min_v,
    lemma_mul_v_nonneg, lemma_mul_v_unit, lemma_mul_v_mono, lemma_mul_v_one,
};
use crate::ray::Ray;
use crate::rng::random_unit_scalar;
use crate::types::{HitRecord, ScatterInfo, random_unit_vector};
use crate::vec3::{
    Vec3, Color, V3, v3_add, v3_neg, v3_scale, dot_v, len_sq_v, unit_v, reflect_v, refract_v,
};

verus! {

/// A diffuse material.
#[derive(Clone, Copy, Debug)]
pub struct Lambertian {
    pub albedo: Color,
}

/// A metallic material with a Schlick-style Fresnel term.
#[derive(Clone, Copy, Debug)]
pub struct Metal {
    pub base_color: Color,
    pub reflectivity: Fx,
    pub metallicness: Fx,
    pub roughness: Fx,
}

/// A clear refracting material.
#[derive(Clone, Copy, Debug)]
pub struct Dielectric {
    pub ir: Fx,
}

/// The closed set of materials.
#[derive(Clone, Copy, Debug)]
pub enum Material {
    Lambertian(Lambertian),
    Metal(Metal),
    Dielectric(Dielectric),
}

/// A raw value clamped into `[0, 1]`.
pub open spec fn clamp01_v(a: int) -> int {
    if a < 0 {
        0
    } else if a > SCALE as int {
        SCALE as int
    } else {
        a
    }
}

/// All three components lie in `[0, 1]`.
pub open spec fn unit01_v3(c: V3) -> bool {
    &&& 0 <= c.x <= SCALE as int
    &&& 0 <= c.y <= SCALE as int
    &&& 0 <= c.z <= SCALE as int
}

/// All three components are nonnegative.
pub open spec fn nonneg_v3(c: V3) -> bool {
    0 <= c.x && 0 <= c.y && 0 <= c.z
}

/// A material is well-formed when its colors and unit parameters lie in
/// `[0, 1]`.
pub open spec fn material_wf(m: Material) -> bool {
    match m {
        Material::Lambertian(l) => unit01_v3(l.albedo@),
        Material::Metal(mt) => {
            &&& unit01_v3(mt.base_color@)
            &&& 0 <= mt.reflectivity.v() <= SCALE as int
            &&& 0 <= mt.metallicness.v() <= SCALE as int
            &&& 0 <= mt.roughness.v() <= SCALE as int
        },
        Material::Dielectric(_) => true,
    }
}

/// Pure white: the attenuation of a dielectric.
pub open spec fn white_v() -> V3 {
    V3 { x: SCALE as int, y: SCALE as int, z: SCALE as int }
}

/// The fixed reflectance tint of a non-metal surface (0.04 per channel).
pub open spec fn tint_v() -> V3 {
    V3 { x: 2621, y: 2621, z: 2621 }
}

/// Fifth power, multiplied up exactly as the executable code does.
pub open spec fn pow5_v(t: int) -> int {
    mul_v(mul_v(mul_v(t, t), mul_v(t, t)), t)
}

/// Schlick's approximation with base reflectance `r0` at cosine `cos`.
pub open spec fn fresnel_v(r0: int, cos: int) -> int {
    add_v(r0, mul_v(sub_v(SCALE as int, r0), pow5_v(sub_v(SCALE as int, cos))))
}

/// Schlick reflectance with the base derived from a refraction ratio.
pub open spec fn reflectance_v(cos: int, ref_idx: int) -> int {
    let q = div_v(sub_v(SCALE as int, ref_idx), add_v(SCALE as int, ref_idx));
    fresnel_v(mul_v(q, q), cos)
}

/// The metal/non-metal color blend keyed by metallicness.
pub open spec fn mix_color_v(met: int, base: V3) -> V3 {
    v3_add(v3_scale(tint_v(), sub_v(SCALE as int, met)), v3_scale(base, met))
}

/// The diffuse scatter direction: normal plus the random unit vector,
/// falling back to the normal itself when the sum degenerates to zero.
pub open spec fn lambertian_dir_v(n: V3, rv: V3) -> V3 {
    let d = v3_add(n, rv);
    if len_sq_v(d) < 1 {
        n
    } else {
        d
    }
}

/// The metal scatter direction: the mirror reflection, perturbed by
/// roughness when the surface is rough.
pub open spec fn metal_dir_v(m: Metal, ud: V3, n: V3, rv: V3) -> V3 {
    let refl = reflect_v(ud, n);
    if m.roughness.v() > 0 {
        v3_add(refl, v3_scale(rv, m.roughness.v()))
    } else {
        refl
    }
}

/// The metal attenuation: the blended color scaled by the Fresnel term at
/// the incidence angle.
pub open spec fn metal_attenuation_v(m: Metal, ud: V3, n: V3) -> V3 {
    let cos = min_v(dot_v(v3_neg(ud), n), SCALE as int);
    v3_scale(mix_color_v(m.metallicness.v(), m.base_color@), fresnel_v(m.reflectivity.v(), cos))
}

/// The attenuation any material hands back when it scatters: the albedo
/// for a diffuse surface, the blended Fresnel-scaled color for a metal,
/// white for glass.  It depends only on the material, the normalized
/// incoming direction and the stored normal, never on the random draw.
pub open spec fn scatter_attenuation_v(m: Material, ud: V3, n: V3) -> V3 {
    match m {
        Material::Lambertian(l) => l.albedo@,
        Material::Metal(mt) => metal_attenuation_v(mt, ud, n),
        Material::Dielectric(_) => white_v(),
    }
}

/// The dielectric scatter direction: total internal reflection or a
/// stochastic Schlick choice between reflection and refraction.
pub open spec fn dielectric_dir_v(ir: int, front: bool, ud: V3, n: V3, draw: int) -> V3 {
    let ratio = if front {
        div_v(SCALE as int, ir)
    } else {
        ir
    };
    let cos = min_v(dot_v(v3_neg(ud), n), SCALE as int);
    let sin = sqrt_v(sub_v(SCALE as int, mul_v(cos, cos)));
    let cannot_refract = mul_v(ratio, sin) > SCALE as int;
    if cannot_refract || reflectance_v(cos, ratio) > draw {
        reflect_v(ud, n)
    } else {
        refract_v(ud, n, ratio)
    }
}

/// Clamp a scalar into `[0, 1]`.
fn clamp01(a: Fx) -> (r: Fx)
    ensures
        r.v() == clamp01_v(a.v()),
{
    if a.raw < 0 {
        Fx::zero()
    } else if a.raw > SCALE {
        Fx::one()
    } else {
        a
    }
}

impl Lambertian {
    /// A diffuse material with the given albedo.
    pub fn new(albedo: Color) -> (r: Lambertian)
        ensures
            r.albedo == albedo,
    {
        Lambertian { albedo }
    }

    /// The deterministic scatter for a given random unit vector: the
    /// attenuation equals the albedo exactly, for any hit record and any
    /// draw.
    pub fn scatter_with(&self, rec: &HitRecord, rv: Vec3) -> (r: ScatterInfo)
        ensures
            r.attenuation == self.albedo,
            r.scattered@.orig == rec.point@,
            r.scattered@.dir == lambertian_dir_v(rec.normal@, rv@),
    {
        let mut scatter_direction = rec.normal.add(rv);
        if scatter_direction.length_squared().raw < 1 {
            scatter_direction = rec.normal;
        }
        ScatterInfo { attenuation: self.albedo, scattered: Ray::new(rec.point, scatter_direction) }
    }

    /// Scatter with a fresh random unit vector; diffuse surfaces always
    /// scatter and attenuate by the albedo.
    pub fn scatter(&self, _ray_in: &Ray, rec: &HitRecord) -> (r: Option<ScatterInfo>)
        ensures
            r.is_some(),
            r matches Some(sc) ==> sc.attenuation == self.albedo,
            r matches Some(sc) ==> sc.scattered@.orig == rec.point@,
    {
        let rv = random_unit_vector();
        Some(self.scatter_with(rec, rv))
    }
}

impl Metal {
    /// A metal with default reflectivity 0.9 and full metallicness.
    pub fn new(base_color: Color, roughness: Fx) -> (r: Metal)
        ensures
            r.base_color == base_color,
            r.roughness.v() == clamp01_v(roughness.v()),
            r.reflectivity.v() == 58982,
            r.metallicness.v() == SCALE as int,
    {
        Self::with_params(base_color, roughness, Fx::from_raw(58982), Fx::one())
    }

    /// A metal with every parameter given; unit parameters are clamped
    /// into `[0, 1]`.
    pub fn with_params(base_color: Color, roughness: Fx, reflectivity: Fx, metallicness: Fx) -> (r:
        Metal)
        ensures
            r.base_color == base_color,
            r.roughness.v() == clamp01_v(roughness.v()),
            r.reflectivity.v() == clamp01_v(reflectivity.v()),
            r.metallicness.v() == clamp01_v(metallicness.v()),
    {
        Metal {
            base_color,
            reflectivity: clamp01(reflectivity),
            metallicness: clamp01(metallicness),
            roughness: clamp01(roughness),
        }
    }

    /// Schlick's approximation with this metal's base reflectance.
    fn fresnel(&self, cos_theta: Fx) -> (r: Fx)
        ensures
            r.v() == fresnel_v(self.reflectivity.v(), cos_theta.v()),
    {
        let t = Fx::one().sub(cos_theta);
        let p2 = t.mul(t);
        let p5 = p2.mul(p2).mul(t);
        self.reflectivity.add(Fx::one().sub(self.reflectivity).mul(p5))
    }

    /// Blend the fixed non-metal tint with the base color by metallicness.
    fn mix_color(&self, pure_metal: Color) -> (r: Color)
        ensures
            r@ == mix_color_v(self.metallicness.v(), pure_metal@),
    {
        let dielectric = Color::new(Fx::from_raw(2621), Fx::from_raw(2621), Fx::from_raw(2621));
        dielectric.scale(Fx::one().sub(self.metallicness)).add(pure_metal.scale(self.metallicness))
    }

    /// The deterministic scatter for a given random unit vector.  The ray
    /// is absorbed exactly when the perturbed reflection points into the
    /// surface; when the ray came from the front side of a well-formed
    /// metal, any scattered attenuation lies in `[0, 1]` per channel.
    pub fn scatter_with(&self, ray_in: &Ray, rec: &HitRecord, rv: Vec3) -> (r: Option<ScatterInfo>)
        ensures
            r.is_some() <==> dot_v(
                metal_dir_v(*self, unit_v(ray_in@.dir), rec.normal@, rv@),
                rec.normal@,
            ) > 0,
            r matches Some(sc) ==> {
                &&& sc.scattered@.dir == metal_dir_v(*self, unit_v(ray_in@.dir), rec.normal@, rv@)
                &&& sc.scattered@.orig == rec.point@
                &&& sc.attenuation@ == metal_attenuation_v(*self, unit_v(ray_in@.dir), rec.normal@)
            },
            r matches Some(sc) ==> (material_wf(Material::Metal(*self)) ==> nonneg_v3(
                sc.attenuation@,
            )),
            r matches Some(sc) ==> ((material_wf(Material::Metal(*self)) && 0 <= dot_v(
                v3_neg(unit_v(ray_in@.dir)),
                rec.normal@,
            )) ==> unit01_v3(sc.attenuation@)),
    {
        let unit_direction = ray_in.direction().unit_vector();
        let cos_theta = unit_direction.neg().dot(&rec.normal).min(Fx::one());
        let reflection_probability = self.fresnel(cos_theta);
        let reflected = unit_direction.reflect(&rec.normal);
        let scattered_direction = if self.roughness.raw > 0 {
            reflected.add(rv.scale(self.roughness))
        } else {
            reflected
        };
        if scattered_direction.dot(&rec.normal).raw > 0 {
            proof {
                if material_wf(Material::Metal(*self)) {
                    lemma_metal_attenuation_bounds(
                        *self,
                        unit_v(ray_in@.dir),
                        rec.normal@,
                    );
                }
            }
            let attenuation = self.mix_color(self.base_color).scale(reflection_probability);
            Some(
                ScatterInfo {
                    scattered: Ray::new(rec.point, scattered_direction),
                    attenuation,
                },
            )
        } else {
            None
        }
    }

    /// Scatter with a fresh random unit vector; what is stated holds for
    /// every draw.  A smooth metal does not consult the draw: it is owed
    /// a scatter whenever the mirror reflection leaves the surface.
    pub fn scatter(&self, ray_in: &Ray, rec: &HitRecord) -> (r: Option<ScatterInfo>)
        ensures
            (self.roughness.v() == 0 && dot_v(
                reflect_v(unit_v(ray_in@.dir), rec.normal@),
                rec.normal@,
            ) > 0) ==> r.is_some(),
            r matches Some(sc) ==> {
                &&& sc.scattered@.orig == rec.point@
                &&& sc.attenuation@ == metal_attenuation_v(*self, unit_v(ray_in@.dir), rec.normal@)
            },
            r matches Some(sc) ==> (material_wf(Material::Metal(*self)) ==> nonneg_v3(
                sc.attenuation@,
            )),
            r matches Some(sc) ==> ((material_wf(Material::Metal(*self)) && 0 <= dot_v(
                v3_neg(unit_v(ray_in@.dir)),
                rec.normal@,
            )) ==> unit01_v3(sc.attenuation@)),
    {
        let rv = random_unit_vector();
        self.scatter_with(ray_in, rec, rv)
    }
}

impl Dielectric {
    /// A clear material with the given refractive index.
    pub fn new(ir: Fx) -> (r: Dielectric)
        ensures
            r.ir == ir,
    {
        Dielectric { ir }
    }

    /// Schlick's reflectance approximation for a refraction ratio.
    fn reflectance(cosine: Fx, ref_idx: Fx) -> (r: Fx)
        ensures
            r.v() == reflectance_v(cosine.v(), ref_idx.v()),
    {
        let q = Fx::one().sub(ref_idx).div(Fx::one().add(ref_idx));
        let r0 = q.mul(q);
        let t = Fx::one().sub(cosine);
        let p2 = t.mul(t);
        let p5 = p2.mul(p2).mul(t);
        r0.add(Fx::one().sub(r0).mul(p5))
    }

    /// The deterministic scatter for a given uniform draw: glass always
    /// scatters, attenuates white, and bends the ray exactly as the
    /// direction spec says.
    pub fn scatter_with(&self, ray_in: &Ray, rec: &HitRecord, draw: Fx) -> (r: ScatterInfo)
        ensures
            r.attenuation@ == white_v(),
            r.scattered@.orig == rec.point@,
            r.scattered@.dir == dielectric_dir_v(
                self.ir.v(),
                rec.front_face,
                unit_v(ray_in@.dir),
                rec.normal@,
                draw.v(),
            ),
    {
        let refraction_ratio = if rec.front_face {
            Fx::one().div(self.ir)
        } else {
            self.ir
        };
        let unit_direction = ray_in.direction().unit_vector();
        let cos_theta = unit_direction.neg().dot(&rec.normal).min(Fx::one());
        let sin_theta = Fx::one().sub(cos_theta.mul(cos_theta)).sqrt();
        let cannot_refract = refraction_ratio.mul(sin_theta).raw > SCALE;
        let direction = if cannot_refract || Self::reflectance(cos_theta, refraction_ratio).raw
            > draw.raw {
            unit_direction.reflect(&rec.normal)
        } else {
            unit_direction.refract(&rec.normal, refraction_ratio)
        };
        ScatterInfo {
            scattered: Ray::new(rec.point, direction),
            attenuation: Color::new(Fx::one(), Fx::one(), Fx::one()),
        }
    }

    /// Scatter with a fresh uniform draw; glass always scatters and never
    /// tints.
    pub fn scatter(&self, ray_in: &Ray, rec: &HitRecord) -> (r: Option<ScatterInfo>)
        ensures
            r.is_some(),
            r matches Some(sc) ==> sc.attenuation@ == white_v(),
            r matches Some(sc) ==> sc.scattered@.orig == rec.point@,
    {
        let draw = random_unit_scalar();
        Some(self.scatter_with(ray_in, rec, draw))
    }
}

impl Material {
    /// Dispatch scattering to the concrete material.  Diffuse surfaces
    /// and glass always scatter; a smooth metal scatters exactly when its
    /// mirror reflection leaves the surface; and whenever a scatter comes
    /// back, its attenuation and origin are fixed by the material and the
    /// hit alone.
    pub fn scatter(&self, ray_in: &Ray, rec: &HitRecord) -> (r: Option<ScatterInfo>)
        ensures
            r matches Some(sc) ==> sc.scattered@.orig == rec.point@,
            self is Lambertian ==> r.is_some(),
            self is Dielectric ==> r.is_some(),
            self matches Material::Metal(m) ==> ((m.roughness.v() == 0 && dot_v(
                reflect_v(unit_v(ray_in@.dir), rec.normal@),
                rec.normal@,
            ) > 0) ==> r.is_some()),
            r matches Some(sc) ==> sc.attenuation@ == scatter_attenuation_v(
                *self,
                unit_v(ray_in@.dir),
                rec.normal@,
            ),
            r matches Some(sc) ==> (material_wf(*self) ==> nonneg_v3(sc.attenuation@)),
    {
        match self {
            Material::Lambertian(l) => l.scatter(ray_in, rec),
            Material::Metal(m) => m.scatter(ray_in, rec),
            Material::Dielectric(d) => d.scatter(ray_in, rec),
        }
    }
}

/// With a matching refractive index the glass does not bend a head-on
/// ray: for a unit incoming direction met exactly by the opposing normal,
/// the scattered direction equals the incoming one, whatever was drawn.
pub proof fn lemma_dielectric_matched_head_on(ud: V3, draw: int)
    requires
        dot_v(ud, ud) == SCALE as int,
        crate::fx::absi(ud.x) <= SCALE as int,
        crate::fx::absi(ud.y) <= SCALE as int,
        crate::fx::absi(ud.z) <= SCALE as int,
        0 <= draw < SCALE as int,
    ensures
        dielectric_dir_v(SCALE as int, true, ud, v3_neg(ud), draw) == ud,
{
    let s = SCALE as int;
    let n = v3_neg(ud);
    assert(n.x == -ud.x && n.y == -ud.y && n.z == -ud.z);

    // The computed cosine is exactly one.
    vstd::arithmetic::mul::lemma_mul_cancels_negatives(ud.x, ud.x);
    vstd::arithmetic::mul::lemma_mul_cancels_negatives(ud.y, ud.y);
    vstd::arithmetic::mul::lemma_mul_cancels_negatives(ud.z, ud.z);
    assert(dot_v(v3_neg(ud), n) == dot_v(ud, ud));
    let cos = min_v(dot_v(v3_neg(ud), n), s);
    assert(cos == s);

    // The refraction ratio is exactly one.
    vstd::arithmetic::div_mod::lemma_div_multiples_vanish(s, s);
    assert(crate::fx::tdiv(s * s, s) == (s * s) / s);
    assert(div_v(s, s) == s);
    let ratio = div_v(s, s);

    // The sine is zero, so refraction is geometrically possible.
    assert(mul_v(cos, cos) == s);
    assert(sub_v(s, mul_v(cos, cos)) == 0);
    assert(sqrt_v(0) == 0);
    vstd::arithmetic::div_mod::lemma_div_of0(s);
    vstd::arithmetic::div_mod::lemma_div_of0(2 * s);
    assert(mul_v(ratio, 0) == 0);

    // The Schlick reflectance vanishes, so any draw refracts.
    assert(div_v(sub_v(s, s), add_v(s, s)) == 0);
    assert(mul_v(0, 0) == 0);
    assert(pow5_v(sub_v(s, cos)) == 0);
    assert(mul_v(sub_v(s, 0), 0) == 0);
    assert(reflectance_v(cos, ratio) == 0);

    // The refracted direction collapses to the incoming one.
    crate::fx::lemma_mul_v_one(n.x);
    crate::fx::lemma_mul_v_one(n.y);
    crate::fx::lemma_mul_v_one(n.z);
    assert(v3_scale(n, s) == n);
    let zero3 = v3_add(ud, v3_scale(n, cos));
    assert(zero3 == (V3 { x: 0, y: 0, z: 0 }));
    let perp = v3_scale(zero3, ratio);
    assert(perp == (V3 { x: 0, y: 0, z: 0 }));
    assert(len_sq_v(perp) == 0);
    assert(crate::fx::clip(crate::fx::absi(sub_v(s, 0))) == s);
    crate::fx::lemma_isqrt(s * s);
    crate::fx::lemma_isqrt_unique(s * s, crate::fx::isqrt(s * s), s);
    assert(sqrt_v(s) == s);
    crate::fx::lemma_mul_v_neg_one(n.x);
    crate::fx::lemma_mul_v_neg_one(n.y);
    crate::fx::lemma_mul_v_neg_one(n.z);
    assert(v3_scale(n, crate::fx::neg_v(s)) == ud);
    assert(refract_v(ud, n, ratio) == ud);
}

/// For a well-formed metal the attenuation channels are never negative,
/// and lie in `[0, 1]` whenever the unit incoming direction meets the
/// stored normal from the front.
proof fn lemma_metal_attenuation_bounds(m: Metal, ud: V3, n: V3)
    requires
        material_wf(Material::Metal(m)),
    ensures
        nonneg_v3(metal_attenuation_v(m, ud, n)),
        0 <= dot_v(v3_neg(ud), n) ==> unit01_v3(metal_attenuation_v(m, ud, n)),
{
    let s = SCALE as int;
    let cos = min_v(dot_v(v3_neg(ud), n), s);
    let r0 = m.reflectivity.v();
    let met = m.metallicness.v();
    let fres = fresnel_v(r0, cos);
    lemma_fresnel_nonneg(r0, cos);
    if 0 <= dot_v(v3_neg(ud), n) {
        lemma_fresnel_unit(r0, cos);
    }
    lemma_mix_channel(m.base_color@.x, met, fres);
    lemma_mix_channel(m.base_color@.y, met, fres);
    lemma_mix_channel(m.base_color@.z, met, fres);
}

/// The Fresnel term is nonnegative whenever the base reflectance is.
proof fn lemma_fresnel_nonneg(r0: int, cos: int)
    requires
        0 <= r0 <= SCALE as int,
        cos <= SCALE as int,
    ensures
        0 <= fresnel_v(r0, cos),
{
    let s = SCALE as int;
    let t = sub_v(s, cos);
    assert(0 <= t);
    lemma_pow5_nonneg(t);
    lemma_mul_v_nonneg(sub_v(s, r0), pow5_v(t));
}

/// The fifth power of a nonnegative scalar is nonnegative.
proof fn lemma_pow5_nonneg(t: int)
    requires
        0 <= t,
    ensures
        0 <= pow5_v(t),
{
    lemma_mul_v_nonneg(t, t);
    lemma_mul_v_nonneg(mul_v(t, t), mul_v(t, t));
    lemma_mul_v_nonneg(mul_v(mul_v(t, t), mul_v(t, t)), t);
}

/// With a front-side cosine, the Fresnel term stays in `[0, 1]`.
proof fn lemma_fresnel_unit(r0: int, cos: int)
    requires
        0 <= r0 <= SCALE as int,
        0 <= cos <= SCALE as int,
    ensures
        0 <= fresnel_v(r0, cos) <= SCALE as int,
{
    let s = SCALE as int;
    let t = sub_v(s, cos);
    assert(0 <= t <= s);
    let p2 = mul_v(t, t);
    lemma_mul_v_unit(t, t);
    let p4 = mul_v(p2, p2);
    lemma_mul_v_unit(p2, p2);
    let p5 = mul_v(p4, t);
    lemma_mul_v_unit(p4, t);
    lemma_mul_v_unit(sub_v(s, r0), p5);
    lemma_fresnel_nonneg(r0, cos);
}

/// One channel of the blended, Fresnel-scaled attenuation stays in
/// `[0, 1]` when the inputs do.
proof fn lemma_mix_channel(basec: int, met: int, fres: int)
    requires
        0 <= basec <= SCALE as int,
        0 <= met <= SCALE as int,
        0 <= fres,
    ensures
        0 <= mul_v(add_v(mul_v(2621, sub_v(SCALE as int, met)), mul_v(basec, met)), fres),
        fres <= SCALE as int ==> mul_v(
            add_v(mul_v(2621, sub_v(SCALE as int, met)), mul_v(basec, met)),
            fres,
        ) <= SCALE as int,
{
    let s = SCALE as int;
    let a1 = mul_v(2621, sub_v(s, met));
    let a2 = mul_v(basec, met);
    lemma_mul_v_nonneg(2621, sub_v(s, met));
    lemma_mul_v_nonneg(basec, met);
    lemma_mul_v_mono(2621, s, sub_v(s, met));
    lemma_mul_v_mono(basec, s, met);
    vstd::arithmetic::mul::lemma_mul_is_commutative(s, sub_v(s, met));
    vstd::arithmetic::mul::lemma_mul_is_commutative(s, met);
    lemma_mul_v_one(sub_v(s, met));
    lemma_mul_v_one(met);
    assert(a1 <= s - met);
    assert(a2 <= met);
    let mixc = add_v(a1, a2);
    assert(0 <= mixc <= s);
    lemma_mul_v_nonneg(mixc, fres);
    if fres <= s {
        lemma_mul_v_unit(mixc, fres);
    }
}

} // verus!
