//! Three-component fixed-point vectors and colors.
//!
//! Every operation has an exact contract over `V3`, the mathematical image
//! of a vector (its three raw values), expressed with the scalar spec
//! functions of `fx`.

use vstd::prelude::*;

use crate::fx::{
    Fx, SCALE, MAXR, clip, absi, add_v, sub_v, neg_v, mul_v, div_v, sqrt_v, min_v,
    lemma_mul_v_nonneg,
};

verus! {

/// Mathematical image of a vector: the three raw scalar values.
pub ghost struct V3 {
    pub x: int,
    pub y: int,
    pub z: int,
}

/// A vector of three fixed-point scalars.
#[derive(Clone, Copy, Debug, PartialEq, Eq, Structural)]
pub struct Vec3 {
    pub x: Fx,
    pub y: Fx,
    pub z: Fx,
}

/// Colors are vectors whose components are the red, green and blue channels.
pub type Color = Vec3;

/// The zero vector.
pub open spec fn v3_zero() -> V3 {
    V3 { x: 0, y: 0, z: 0 }
}

/// Component-wise saturating sum.
pub open spec fn v3_add(a: V3, b: V3) -> V3 {
    V3 { x: add_v(a.x, b.x), y: add_v(a.y, b.y), z: add_v(a.z, b.z) }
}

/// Component-wise saturating difference.
pub open spec fn v3_sub(a: V3, b: V3) -> V3 {
    V3 { x: sub_v(a.x, b.x), y: sub_v(a.y, b.y), z: sub_v(a.z, b.z) }
}

/// Component-wise negation.
pub open spec fn v3_neg(a: V3) -> V3 {
    V3 { x: neg_v(a.x), y: neg_v(a.y), z: neg_v(a.z) }
}

/// Scaling by a scalar raw value.
pub open spec fn v3_scale(a: V3, t: int) -> V3 {
    V3 { x: mul_v(a.x, t), y: mul_v(a.y, t), z: mul_v(a.z, t) }
}

/// Component-wise (Hadamard) product.
pub open spec fn v3_hadamard(a: V3, b: V3) -> V3 {
    V3 { x: mul_v(a.x, b.x), y: mul_v(a.y, b.y), z: mul_v(a.z, b.z) }
}

/// Component-wise division by a scalar raw value.
pub open spec fn v3_divs(a: V3, t: int) -> V3 {
    V3 { x: div_v(a.x, t), y: div_v(a.y, t), z: div_v(a.z, t) }
}

/// Dot product, accumulated left to right as the executable code does.
pub open spec fn dot_v(a: V3, b: V3) -> int {
    add_v(add_v(mul_v(a.x, b.x), mul_v(a.y, b.y)), mul_v(a.z, b.z))
}

/// Cross product.
pub open spec fn cross_v(a: V3, b: V3) -> V3 {
    V3 {
        x: sub_v(mul_v(a.y, b.z), mul_v(a.z, b.y)),
        y: sub_v(mul_v(a.z, b.x), mul_v(a.x, b.z)),
        z: sub_v(mul_v(a.x, b.y), mul_v(a.y, b.x)),
    }
}

/// Squared length.
pub open spec fn len_sq_v(a: V3) -> int {
    dot_v(a, a)
}

/// Length: the fixed-point square root of the squared length.
pub open spec fn len_v(a: V3) -> int {
    sqrt_v(len_sq_v(a))
}

/// Normalization: division of each component by the length.
pub open spec fn unit_v(a: V3) -> V3 {
    v3_divs(a, len_v(a))
}

/// Mirror reflection about a normal.
pub open spec fn reflect_v(a: V3, n: V3) -> V3 {
    v3_sub(a, v3_scale(n, add_v(dot_v(a, n), dot_v(a, n))))
}

/// Snell refraction of `a` about normal `n` with refraction ratio `ratio`.
pub open spec fn refract_v(a: V3, n: V3, ratio: int) -> V3 {
    let cos_theta = min_v(dot_v(v3_neg(a), n), SCALE as int);
    let perp = v3_scale(v3_add(a, v3_scale(n, cos_theta)), ratio);
    let par_scale = neg_v(sqrt_v(clip(absi(sub_v(SCALE as int, len_sq_v(perp))))));
    v3_add(perp, v3_scale(n, par_scale))
}

/// Component selection: 0 is x, 1 is y, 2 is z.
pub open spec fn idx3(a: V3, i: int) -> int {
    if i == 0 {
        a.x
    } else if i == 1 {
        a.y
    } else {
        a.z
    }
}

/// One color channel of the 8-bit image encoding: the raw value clamped to
/// just below one, then mapped onto 0..=255.
pub open spec fn rgb_of(c: int) -> int {
    let cl = if c < 0 {
        0
    } else if c > 65535 {
        65535
    } else {
        c
    };
    cl / 256
}

impl View for Vec3 {
    type V = V3;

    open spec fn view(&self) -> V3 {
        V3 { x: self.x.v(), y: self.y.v(), z: self.z.v() }
    }
}

impl Vec3 {
    /// Build a vector from its components.
    pub fn new(x: Fx, y: Fx, z: Fx) -> (r: Vec3)
        ensures
            r@ == (V3 { x: x.v(), y: y.v(), z: z.v() }),
    {
        Vec3 { x, y, z }
    }

    /// The x component.
    pub fn x(&self) -> (r: Fx)
        ensures
            r.v() == self@.x,
    {
        self.x
    }

    /// The y component.
    pub fn y(&self) -> (r: Fx)
        ensures
            r.v() == self@.y,
    {
        self.y
    }

    /// The z component.
    pub fn z(&self) -> (r: Fx)
        ensures
            r.v() == self@.z,
    {
        self.z
    }

    /// Component access by axis index: 0 is x, 1 is y, 2 is z.
    pub fn get(&self, index: usize) -> (r: Fx)
        requires
            index < 3,
        ensures
            r.v() == idx3(self@, index as int),
    {
        match index {
            0 => self.x,
            1 => self.y,
            _ => self.z,
        }
    }

    /// Component-wise sum.
    pub fn add(self, other: Vec3) -> (r: Vec3)
        ensures
            r@ == v3_add(self@, other@),
    {
        Vec3 { x: self.x.add(other.x), y: self.y.add(other.y), z: self.z.add(other.z) }
    }

    /// Component-wise difference.
    pub fn sub(self, other: Vec3) -> (r: Vec3)
        ensures
            r@ == v3_sub(self@, other@),
    {
        Vec3 { x: self.x.sub(other.x), y: self.y.sub(other.y), z: self.z.sub(other.z) }
    }

    /// Component-wise negation.
    pub fn neg(self) -> (r: Vec3)
        ensures
            r@ == v3_neg(self@),
    {
        Vec3 { x: self.x.neg(), y: self.y.neg(), z: self.z.neg() }
    }

    /// Scaling by a scalar.
    pub fn scale(self, t: Fx) -> (r: Vec3)
        ensures
            r@ == v3_scale(self@, t.v()),
    {
        Vec3 { x: self.x.mul(t), y: self.y.mul(t), z: self.z.mul(t) }
    }

    /// Component-wise (Hadamard) product.
    pub fn mul(self, other: Vec3) -> (r: Vec3)
        ensures
            r@ == v3_hadamard(self@, other@),
    {
        Vec3 { x: self.x.mul(other.x), y: self.y.mul(other.y), z: self.z.mul(other.z) }
    }

    /// Component-wise division by a scalar.
    pub fn div(self, t: Fx) -> (r: Vec3)
        ensures
            r@ == v3_divs(self@, t.v()),
    {
        Vec3 { x: self.x.div(t), y: self.y.div(t), z: self.z.div(t) }
    }

    /// Dot product.
    pub fn dot(&self, other: &Vec3) -> (r: Fx)
        ensures
            r.v() == dot_v(self@, other@),
    {
        self.x.mul(other.x).add(self.y.mul(other.y)).add(self.z.mul(other.z))
    }

    /// Cross product.
    pub fn cross(&self, other: &Vec3) -> (r: Vec3)
        ensures
            r@ == cross_v(self@, other@),
    {
        Vec3 {
            x: self.y.mul(other.z).sub(self.z.mul(other.y)),
            y: self.z.mul(other.x).sub(self.x.mul(other.z)),
            z: self.x.mul(other.y).sub(self.y.mul(other.x)),
        }
    }

    /// Squared length; never negative.
    pub fn length_squared(&self) -> (r: Fx)
        ensures
            r.v() == len_sq_v(self@),
            r.v() >= 0,
    {
        proof {
            lemma_len_sq_v_nonneg(self@);
        }
        self.dot(self)
    }

    /// Length.
    pub fn length(&self) -> (r: Fx)
        ensures
            r.v() == len_v(self@),
            r.v() >= 0,
    {
        let sq = self.length_squared();
        proof {
            if sq.v() > 0 {
                crate::fx::lemma_isqrt(sq.v() * (SCALE as int));
            }
        }
        sq.sqrt()
    }

    /// The vector scaled to unit length; a zero vector saturates instead.
    pub fn unit_vector(&self) -> (r: Vec3)
        ensures
            r@ == unit_v(self@),
    {
        let len = self.length();
        self.div(len)
    }

    /// Mirror reflection about `normal`.
    pub fn reflect(&self, normal: &Vec3) -> (r: Vec3)
        ensures
            r@ == reflect_v(self@, normal@),
    {
        let d = self.dot(normal);
        self.sub(normal.scale(d.add(d)))
    }

    /// Snell refraction about `normal` with ratio of refractive indices
    /// `etai_over_etat`.
    pub fn refract(&self, normal: &Vec3, etai_over_etat: Fx) -> (r: Vec3)
        ensures
            r@ == refract_v(self@, normal@, etai_over_etat.v()),
    {
        let cos_theta = self.neg().dot(normal).min(Fx::one());
        let r_out_perp = self.add(normal.scale(cos_theta)).scale(etai_over_etat);
        let par_scale = Fx::one().sub(r_out_perp.length_squared()).abs().sqrt().neg();
        r_out_perp.add(normal.scale(par_scale))
    }

    /// The color channels encoded as bytes for an 8-bit image.
    pub fn to_rgb(&self) -> (r: (u8, u8, u8))
        ensures
            r.0 as int == rgb_of(self@.x),
            r.1 as int == rgb_of(self@.y),
            r.2 as int == rgb_of(self@.z),
    {
        (rgb_channel(self.x), rgb_channel(self.y), rgb_channel(self.z))
    }
}

/// Encode one channel: clamp just below one, then map onto 0..=255.
fn rgb_channel(c: Fx) -> (r: u8)
    ensures
        r as int == rgb_of(c.v()),
{
    let cl: i64 = if c.raw < 0 {
        0
    } else if c.raw > 65535 {
        65535
    } else {
        c.raw
    };
    ((cl as u64) / 256) as u8
}

/// The component-wise product with the zero vector is the zero vector.
pub proof fn lemma_hadamard_zero(a: V3)
    ensures
        v3_hadamard(a, v3_zero()) == v3_zero(),
{
    vstd::arithmetic::mul::lemma_mul_by_zero_is_zero(a.x);
    vstd::arithmetic::mul::lemma_mul_by_zero_is_zero(a.y);
    vstd::arithmetic::mul::lemma_mul_by_zero_is_zero(a.z);
    vstd::arithmetic::div_mod::lemma_div_of0(SCALE as int);
    assert(crate::fx::tdiv(0, SCALE as int) == 0int / (SCALE as int));
}

/// A squared scalar is nonnegative.
pub proof fn lemma_sq_nonneg(a: int)
    ensures
        0 <= mul_v(a, a),
{
    if a >= 0 {
        lemma_mul_v_nonneg(a, a);
    } else {
        vstd::arithmetic::mul::lemma_mul_cancels_negatives(a, a);
        lemma_mul_v_nonneg(-a, -a);
        assert(mul_v(a, a) == mul_v(-a, -a));
    }
}

/// A squared length is nonnegative.
pub proof fn lemma_len_sq_v_nonneg(a: V3)
    ensures
        0 <= len_sq_v(a),
{
    lemma_sq_nonneg(a.x);
    lemma_sq_nonneg(a.y);
    lemma_sq_nonneg(a.z);
}

} // verus!
