//! Saturating fixed-point scalars with 16 fractional bits.
//!
//! A scalar is an `i64` raw value interpreted as `raw / SCALE`.  Every
//! operation clamps its mathematical result into `[-MAXR, MAXR]`, so no
//! operation can overflow or panic; division by zero saturates with the
//! sign of the dividend, which plays the role IEEE infinities play in the
//! floating-point formulation of the slab test.

use vstd::prelude::*;

verus! {

use vstd::arithmetic::div_mod::{
    lemma_div_pos_is_pos,
    lemma_div_is_ordered,
    lemma_div_multiples_vanish,
    lemma_div_of0,
};
use vstd::arithmetic::mul::{
    lemma_mul_inequality,
    lemma_mul_nonnegative,
    lemma_mul_is_commutative,
    lemma_mul_unary_negation,
};

/// Number of raw units per 1.0; also the raw value of `Fx::one()`.
pub const SCALE: i64 = 65536;

/// Largest representable raw magnitude; results saturate here.
pub const MAXR: i64 = 9223372036854775807;

/// A fixed-point scalar: the represented value is `raw / SCALE`.
#[derive(Clone, Copy, Debug, PartialEq, Eq, Structural)]
pub struct Fx {
    pub raw: i64,
}

/// Clamp a mathematical integer into the representable raw range.
pub open spec fn clip(v: int) -> int {
    if v > MAXR as int {
        MAXR as int
    } else if v < -(MAXR as int) {
        -(MAXR as int)
    } else {
        v
    }
}

/// Absolute value of a mathematical integer.
pub open spec fn absi(v: int) -> int {
    if v < 0 {
        -v
    } else {
        v
    }
}

/// Division of `p` by `q`, rounding toward zero; 0 when `q == 0`.
pub open spec fn tdiv(p: int, q: int) -> int {
    if q == 0 {
        0
    } else if (p < 0) <==> (q < 0) {
        absi(p) / absi(q)
    } else {
        -(absi(p) / absi(q))
    }
}

/// Raw value of the saturating sum.
pub open spec fn add_v(a: int, b: int) -> int {
    clip(a + b)
}

/// Raw value of the saturating difference.
pub open spec fn sub_v(a: int, b: int) -> int {
    clip(a - b)
}

/// Raw value of the negation.
pub open spec fn neg_v(a: int) -> int {
    clip(-a)
}

/// Raw value of the fixed-point product: the wide product rescaled,
/// rounded toward zero, then clamped.
pub open spec fn mul_v(a: int, b: int) -> int {
    clip(tdiv(a * b, SCALE as int))
}

/// Raw value of the fixed-point quotient.  A zero divisor saturates with
/// the sign of the dividend, standing in for the IEEE infinity the
/// floating-point slab test relies on.
pub open spec fn div_v(a: int, b: int) -> int {
    if b == 0 {
        if a >= 0 {
            MAXR as int
        } else {
            -(MAXR as int)
        }
    } else {
        clip(tdiv(a * (SCALE as int), b))
    }
}

/// `r` is the integer square root of `n`.
pub open spec fn is_isqrt(n: int, r: int) -> bool {
    0 <= r && r * r <= n && n < (r + 1) * (r + 1)
}

/// The integer square root, as chosen by its characteristic property.
pub open spec fn isqrt(n: int) -> int {
    choose|r: int| is_isqrt(n, r)
}

/// Raw value of the fixed-point square root: nonpositive inputs map to 0.
pub open spec fn sqrt_v(a: int) -> int {
    if a <= 0 {
        0
    } else {
        isqrt(a * (SCALE as int))
    }
}

/// The lesser raw value.
pub open spec fn min_v(a: int, b: int) -> int {
    if a < b {
        a
    } else {
        b
    }
}

/// The greater raw value.
pub open spec fn max_v(a: int, b: int) -> int {
    if a > b {
        a
    } else {
        b
    }
}

/// An integer square root exists for every nonnegative integer.
pub proof fn lemma_isqrt_exists(n: int) -> (r: int)
    requires
        n >= 0,
    ensures
        is_isqrt(n, r),
    decreases n,
{
    if n == 0 {
        assert(is_isqrt(0, 0)) by (nonlinear_arith);
        0
    } else {
        let p = lemma_isqrt_exists(n - 1);
        if n < (p + 1) * (p + 1) {
            assert(is_isqrt(n, p));
            p
        } else {
            assert((p + 1) * (p + 1) <= n);
            assert(n < (p + 2) * (p + 2)) by (nonlinear_arith)
                requires
                    is_isqrt(n - 1, p),
                    n >= (p + 1) * (p + 1),
            ;
            assert(is_isqrt(n, p + 1));
            p + 1
        }
    }
}

/// The integer square root is unique.
pub proof fn lemma_isqrt_unique(n: int, r1: int, r2: int)
    by (nonlinear_arith)
    requires
        is_isqrt(n, r1),
        is_isqrt(n, r2),
    ensures
        r1 == r2,
{
}

/// `isqrt(n)` itself satisfies the characteristic property.
pub proof fn lemma_isqrt(n: int)
    requires
        n >= 0,
    ensures
        is_isqrt(n, isqrt(n)),
{
    let r = lemma_isqrt_exists(n);
    assert(is_isqrt(n, r));
}

impl Fx {
    /// The raw value as a mathematical integer; contracts speak of this.
    pub open spec fn v(self) -> int {
        self.raw as int
    }

    /// The scalar 0.
    pub fn zero() -> (r: Fx)
        ensures
            r.v() == 0,
    {
        Fx { raw: 0 }
    }

    /// The scalar 1.
    pub fn one() -> (r: Fx)
        ensures
            r.v() == SCALE as int,
    {
        Fx { raw: SCALE }
    }

    /// Build a scalar from a raw value.
    pub fn from_raw(raw: i64) -> (r: Fx)
        ensures
            r.v() == raw as int,
    {
        Fx { raw }
    }

    /// Saturating addition.
    pub fn add(self, other: Fx) -> (r: Fx)
        ensures
            r.v() == add_v(self.v(), other.v()),
    {
        let s: i128 = self.raw as i128 + other.raw as i128;
        Fx { raw: clip_exec(s) }
    }

    /// Saturating subtraction.
    pub fn sub(self, other: Fx) -> (r: Fx)
        ensures
            r.v() == sub_v(self.v(), other.v()),
    {
        let s: i128 = self.raw as i128 - other.raw as i128;
        Fx { raw: clip_exec(s) }
    }

    /// Saturating negation.
    pub fn neg(self) -> (r: Fx)
        ensures
            r.v() == neg_v(self.v()),
    {
        let s: i128 = -(self.raw as i128);
        Fx { raw: clip_exec(s) }
    }

    /// The lesser of two scalars.
    pub fn min(self, other: Fx) -> (r: Fx)
        ensures
            r.v() == min_v(self.v(), other.v()),
    {
        if self.raw < other.raw {
            self
        } else {
            other
        }
    }

    /// The greater of two scalars.
    pub fn max(self, other: Fx) -> (r: Fx)
        ensures
            r.v() == max_v(self.v(), other.v()),
    {
        if self.raw > other.raw {
            self
        } else {
            other
        }
    }

    /// Absolute value, saturating.
    pub fn abs(self) -> (r: Fx)
        ensures
            r.v() == clip(absi(self.v())),
    {
        if self.raw < 0 {
            self.neg()
        } else {
            self
        }
    }

    /// Strictly less than.
    pub fn lt(self, other: Fx) -> (r: bool)
        ensures
            r == (self.v() < other.v()),
    {
        self.raw < other.raw
    }

    /// Less than or equal.
    pub fn le(self, other: Fx) -> (r: bool)
        ensures
            r == (self.v() <= other.v()),
    {
        self.raw <= other.raw
    }
}

impl Fx {
    /// Fixed-point multiplication: rescaled wide product, rounded toward
    /// zero, saturating.
    pub fn mul(self, other: Fx) -> (r: Fx)
        ensures
            r.v() == mul_v(self.v(), other.v()),
    {
        proof {
            assert(-0x40000000000000000000000000000000 <= self.raw as int * other.raw as int
                <= 0x40000000000000000000000000000000) by (nonlinear_arith)
                requires
                    -0x8000000000000000 <= self.raw as int <= 0x7fffffffffffffff,
                    -0x8000000000000000 <= other.raw as int <= 0x7fffffffffffffff,
            ;
        }
        let p: i128 = (self.raw as i128) * (other.raw as i128);
        let q: i128 = tdiv_exec(p, 65536i128);
        Fx { raw: clip_exec(q) }
    }

    /// Fixed-point division; a zero divisor saturates with the sign of the
    /// dividend.
    pub fn div(self, other: Fx) -> (r: Fx)
        ensures
            r.v() == div_v(self.v(), other.v()),
    {
        if other.raw == 0 {
            if self.raw >= 0 {
                Fx { raw: MAXR }
            } else {
                Fx { raw: -MAXR }
            }
        } else {
            let p: i128 = (self.raw as i128) * 65536i128;
            let q: i128 = tdiv_exec(p, other.raw as i128);
            Fx { raw: clip_exec(q) }
        }
    }

    /// Fixed-point square root: the greatest representable scalar whose
    /// square does not exceed the argument; nonpositive arguments give 0.
    pub fn sqrt(self) -> (r: Fx)
        ensures
            r.v() == sqrt_v(self.v()),
    {
        if self.raw <= 0 {
            return Fx { raw: 0 };
        }
        let n: u128 = (self.raw as u128) * (SCALE as u128);
        let ghost ni: int = n as int;
        let mut lo: u128 = 0;
        let mut hi: u128 = 0x10000000000;  // 2^40; its square exceeds every n
        proof {
            assert(hi as int * hi as int > ni);
        }
        while lo + 1 < hi
            invariant
                ni == n as int,
                lo < hi,
                hi <= 0x10000000000,
                lo as int * lo as int <= ni,
                ni < hi as int * hi as int,
            decreases hi - lo,
        {
            let mid: u128 = lo + (hi - lo) / 2;
            proof {
                assert(mid < hi);
                assert(mid as int * mid as int <= 0x10000000000 * 0x10000000000)
                    by (nonlinear_arith)
                    requires
                        0 <= mid as int <= 0x10000000000,
                ;
            }
            let sq: u128 = mid * mid;
            proof {
                assert(sq as int == mid as int * mid as int);
            }
            if sq <= n {
                lo = mid;
            } else {
                hi = mid;
            }
        }
        proof {
            assert(is_isqrt(ni, lo as int));
            lemma_isqrt(ni);
            lemma_isqrt_unique(ni, lo as int, isqrt(ni));
        }
        Fx { raw: lo as i64 }
    }
}

/// Truncating (toward-zero) division on wide intermediates.
fn tdiv_exec(p: i128, q: i128) -> (r: i128)
    requires
        -0x40000000000000000000000000000000 <= p <= 0x40000000000000000000000000000000,
        q != 0,
        -0x40000000000000000000000000000000 <= q <= 0x40000000000000000000000000000000,
    ensures
        r as int == tdiv(p as int, q as int),
{
    let pn: bool = p < 0;
    let qn: bool = q < 0;
    let pa: u128 = if pn {
        (-p) as u128
    } else {
        p as u128
    };
    let qa: u128 = if qn {
        (-q) as u128
    } else {
        q as u128
    };
    let ua: u128 = pa / qa;
    proof {
        assert(pa as int / qa as int <= pa as int) by (nonlinear_arith)
            requires
                qa as int >= 1,
                pa as int >= 0,
        ;
        assert(pa as int / qa as int >= 0) by (nonlinear_arith)
            requires
                qa as int >= 1,
                pa as int >= 0,
        ;
    }
    let s: i128 = ua as i128;
    if pn != qn {
        -s
    } else {
        s
    }
}

/// A product of nonnegative scalars is nonnegative.
pub proof fn lemma_mul_v_nonneg(a: int, b: int)
    requires
        0 <= a,
        0 <= b,
    ensures
        0 <= mul_v(a, b),
{
    lemma_mul_nonnegative(a, b);
    lemma_div_pos_is_pos(a * b, SCALE as int);
}

/// Multiplying a nonnegative scalar by a factor at most one does not
/// increase it.
pub proof fn lemma_mul_v_unit(a: int, b: int)
    requires
        0 <= a <= MAXR as int,
        0 <= b <= SCALE as int,
    ensures
        0 <= mul_v(a, b) <= a,
{
    let s = SCALE as int;
    lemma_mul_nonnegative(a, b);
    lemma_div_pos_is_pos(a * b, s);
    lemma_mul_inequality(b, s, a);
    lemma_mul_is_commutative(a, b);
    lemma_mul_is_commutative(a, s);
    lemma_div_is_ordered(a * b, a * s, s);
    lemma_div_multiples_vanish(a, s);
}

/// The fixed-point product is monotone in a nonnegative first factor.
pub proof fn lemma_mul_v_mono(a: int, a2: int, b: int)
    requires
        0 <= a <= a2,
        0 <= b,
    ensures
        mul_v(a, b) <= mul_v(a2, b),
{
    let s = SCALE as int;
    lemma_mul_inequality(a, a2, b);
    lemma_mul_nonnegative(a, b);
    lemma_mul_nonnegative(a2, b);
    lemma_div_is_ordered(a * b, a2 * b, s);
}

/// Multiplying by one is the identity on representable raw values.
pub proof fn lemma_mul_v_one(a: int)
    requires
        -(MAXR as int) <= a <= MAXR as int,
    ensures
        mul_v(a, SCALE as int) == a,
{
    let s = SCALE as int;
    if a >= 0 {
        lemma_mul_is_commutative(a, s);
        lemma_div_multiples_vanish(a, s);
        assert(tdiv(a * s, s) == (a * s) / s);
    } else {
        lemma_mul_unary_negation(a, s);
        lemma_mul_is_commutative(-a, s);
        lemma_div_multiples_vanish(-a, s);
        assert(absi(a * s) == (-a) * s);
        assert(tdiv(a * s, s) == -(((-a) * s) / s));
    }
}

/// Negating one factor negates the fixed-point product exactly.
pub proof fn lemma_mul_v_neg(a: int, b: int)
    ensures
        mul_v(-a, b) == -mul_v(a, b),
{
    let s = SCALE as int;
    lemma_mul_unary_negation(a, b);
    assert(absi((-a) * b) == absi(a * b));
    if a * b == 0 {
        lemma_div_of0(s);
        assert(tdiv((-a) * b, s) == 0 == tdiv(a * b, s));
    } else {
        assert(tdiv((-a) * b, s) == -tdiv(a * b, s));
    }
    assert(clip(-tdiv(a * b, s)) == -clip(tdiv(a * b, s)));
}

/// Multiplying by minus one negates a representable raw value exactly.
pub proof fn lemma_mul_v_neg_one(a: int)
    requires
        -(MAXR as int) <= a <= MAXR as int,
    ensures
        mul_v(a, -(SCALE as int)) == -a,
{
    let s = SCALE as int;
    lemma_mul_unary_negation(a, s);
    assert(a * (-s) == (-a) * s);
    lemma_mul_v_neg(a, s);
    assert(mul_v(a, -s) == mul_v(-a, s));
    lemma_mul_v_one(a);
}

/// Dividing a nonpositive value by a positive one never yields a positive
/// result.
pub proof fn lemma_tdiv_nonpos(p: int, q: int)
    requires
        p <= 0,
        0 < q,
    ensures
        tdiv(p, q) <= 0,
{
    if p == 0 {
        lemma_div_of0(q);
        assert(tdiv(0, q) == 0int / q);
    } else {
        lemma_div_pos_is_pos(-p, q);
    }
}

/// The truncating quotient is bounded by any multiple that dominates the
/// dividend.
pub proof fn lemma_tdiv_bound(p: int, q: int, k: int)
    requires
        q != 0,
        0 <= k,
        absi(p) <= k * absi(q),
    ensures
        absi(tdiv(p, q)) <= k,
{
    lemma_div_pos_is_pos(absi(p), absi(q));
    lemma_div_is_ordered(absi(p), k * absi(q), absi(q));
    lemma_mul_is_commutative(k, absi(q));
    lemma_div_multiples_vanish(k, absi(q));
}

/// Clamp a wide intermediate into the representable raw range.
fn clip_exec(v: i128) -> (r: i64)
    ensures
        r as int == clip(v as int),
{
    if v > MAXR as i128 {
        MAXR
    } else if v < -(MAXR as i128) {
        -MAXR
    } else {
        v as i64
    }
}

} // verus!
