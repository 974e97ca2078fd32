//! Exact scalar arithmetic for the simulation.
//!
//! Reward-like quantities (means, standard deviations, rewards, estimates)
//! are fixed-point numbers: an `i64` holding the real value scaled by
//! `FX_ONE` (2^32). Every stored scalar is kept in the range
//! `[-FX_LIM, FX_LIM]`, so that sums and products stay representable.
//!
//! Value estimates are exact fractions (`Frac`), compared by cross
//! multiplication in `i128`, which never overflows for `i64` parts. Ties in
//! an argmax are therefore decided by exact equality of the represented
//! values, never by a tolerance.

use vstd::prelude::*;

verus! {

/// The fixed-point unit: an `i64` scalar `x` stands for the real `x / FX_ONE`.
pub const FX_ONE: i64 = 0x1_0000_0000;

/// Magnitude bound on every stored scalar (about 1024 in real terms).
pub const FX_LIM: i64 = 0x400_0000_0000;

/// Magnitude bound on a standard-normal deviate fed to the simulation
/// (about 64 in real terms; a Gaussian draw beyond that has no practical
/// probability, and the bound keeps all products representable).
pub const Z_LIM: i64 = 0x40_0000_0000;

/// A scalar within the representable range.
pub open spec fn fx_wf(x: i64) -> bool {
    -FX_LIM <= x <= FX_LIM
}

/// A deviate within the accepted range.
pub open spec fn z_wf(x: i64) -> bool {
    -Z_LIM <= x <= Z_LIM
}

/// Clamping an arbitrary integer into `[-FX_LIM, FX_LIM]`.
pub open spec fn clamp_fx_spec(x: int) -> int {
    if x < -FX_LIM {
        -FX_LIM as int
    } else if x > FX_LIM {
        FX_LIM as int
    } else {
        x
    }
}

/// Clamping an arbitrary integer into `[-Z_LIM, Z_LIM]`.
pub open spec fn clamp_z_spec(x: int) -> int {
    if x < -Z_LIM {
        -Z_LIM as int
    } else if x > Z_LIM {
        Z_LIM as int
    } else {
        x
    }
}

/// Decides whether a scalar lies in the representable range.
pub fn fx_wf_exec(x: i64) -> (r: bool)
    ensures
        r == fx_wf(x),
{
    -FX_LIM <= x && x <= FX_LIM
}

/// Brings a scalar into the representable range.
pub fn clamp_fx(x: i64) -> (r: i64)
    ensures
        r == clamp_fx_spec(x as int),
        fx_wf(r),
{
    if x < -FX_LIM {
        -FX_LIM
    } else if x > FX_LIM {
        FX_LIM
    } else {
        x
    }
}

/// Brings a deviate into the accepted range.
pub fn clamp_z(x: i64) -> (r: i64)
    ensures
        r == clamp_z_spec(x as int),
        z_wf(r),
{
    if x < -Z_LIM {
        -Z_LIM
    } else if x > Z_LIM {
        Z_LIM
    } else {
        x
    }
}

/// An exact rational: the real number `num / den`, with `den > 0`.
#[derive(Clone, Copy, Debug)]
pub struct Frac {
    pub num: i64,
    pub den: i64,
}

impl Frac {
    pub open spec fn wf(self) -> bool {
        0 < self.den
    }

    /// The fraction standing for a fixed-point scalar.
    pub open spec fn from_fx_spec(x: i64) -> Frac {
        Frac { num: x, den: FX_ONE }
    }

    /// Wraps a fixed-point scalar as an exact fraction.
    pub fn from_fx(x: i64) -> (r: Frac)
        ensures
            r == Frac::from_fx_spec(x),
            r.wf(),
    {
        Frac { num: x, den: FX_ONE }
    }
}

/// `a <= b` as real numbers, for fractions with positive denominators.
pub open spec fn frac_le(a: Frac, b: Frac) -> bool {
    a.num * b.den <= b.num * a.den
}

/// `a < b` as real numbers, for fractions with positive denominators.
pub open spec fn frac_lt(a: Frac, b: Frac) -> bool {
    a.num * b.den < b.num * a.den
}

/// `a == b` as real numbers, for fractions with positive denominators.
pub open spec fn frac_eq(a: Frac, b: Frac) -> bool {
    a.num * b.den == b.num * a.den
}

/// The product of two `i64` values always fits in an `i128`.
proof fn lemma_i64_prod_fits(x: i64, y: i64)
    by (nonlinear_arith)
    ensures
        i128::MIN <= x * y <= i128::MAX,
{
}

/// Decides `a <= b` exactly, by cross multiplication.
pub fn frac_le_exec(a: &Frac, b: &Frac) -> (r: bool)
    ensures
        r == frac_le(*a, *b),
{
    proof {
        lemma_i64_prod_fits(a.num, b.den);
        lemma_i64_prod_fits(b.num, a.den);
    }
    (a.num as i128) * (b.den as i128) <= (b.num as i128) * (a.den as i128)
}

/// Decides `a < b` exactly, by cross multiplication.
pub fn frac_lt_exec(a: &Frac, b: &Frac) -> (r: bool)
    ensures
        r == frac_lt(*a, *b),
{
    proof {
        lemma_i64_prod_fits(a.num, b.den);
        lemma_i64_prod_fits(b.num, a.den);
    }
    (a.num as i128) * (b.den as i128) < (b.num as i128) * (a.den as i128)
}

/// Decides `a == b` (as real values) exactly, by cross multiplication.
pub fn frac_eq_exec(a: &Frac, b: &Frac) -> (r: bool)
    ensures
        r == frac_eq(*a, *b),
{
    proof {
        lemma_i64_prod_fits(a.num, b.den);
        lemma_i64_prod_fits(b.num, a.den);
    }
    (a.num as i128) * (b.den as i128) == (b.num as i128) * (a.den as i128)
}

/// Division of integers rounded toward zero, for a positive divisor.
pub open spec fn div_trunc(p: int, q: int) -> int {
    if p >= 0 {
        p / q
    } else {
        -((-p) / q)
    }
}

/// The product of two magnitudes below 2^63 fits in a `u128`.
proof fn lemma_u64_prod_fits(x: u128, y: u128)
    by (nonlinear_arith)
    requires
        x <= 0x8000_0000_0000_0000,
        y <= 0x8000_0000_0000_0000,
    ensures
        x * y <= u128::MAX,
{
}

/// The fixed-point product of a scalar and a deviate: the real product,
/// truncated toward zero to the fixed-point grid and clamped into range.
pub open spec fn fx_mul_spec(a: i64, z: i64) -> int {
    clamp_fx_spec(div_trunc(a * z, FX_ONE as int))
}

/// Multiplies two fixed-point scalars exactly, truncating toward zero and
/// clamping into the representable range.
pub fn fx_mul(a: i64, z: i64) -> (r: i64)
    ensures
        r == fx_mul_spec(a, z),
        fx_wf(r),
{
    let neg: bool = (a < 0) != (z < 0);
    let ma: u128 = if a >= 0 {
        a as u128
    } else {
        (-(a as i128)) as u128
    };
    let mz: u128 = if z >= 0 {
        z as u128
    } else {
        (-(z as i128)) as u128
    };
    proof {
        lemma_u64_prod_fits(ma, mz);
    }
    let q: u128 = (ma * mz) / (FX_ONE as u128);
    proof {
        assert(ma == if a >= 0 { a as int } else { -(a as int) });
        assert(mz == if z >= 0 { z as int } else { -(z as int) });
        assert(ma * mz == if a * z >= 0 { a * z } else { -(a * z) } && (neg ==> a * z <= 0)
            && (!neg ==> a * z >= 0)) by (nonlinear_arith)
            requires
                ma == (if a >= 0 { a as int } else { -(a as int) }),
                mz == (if z >= 0 { z as int } else { -(z as int) }),
                neg == ((a < 0) != (z < 0));
    }
    let mag: i64 = if q > (FX_LIM as u128) {
        FX_LIM
    } else {
        q as i64
    };
    if neg {
        -mag
    } else {
        mag
    }
}

/// The floor of the base-two logarithm (by convention 0 when `t < 2`).
pub open spec fn log2_spec(t: u64) -> nat
    decreases t,
{
    if t < 2 {
        0
    } else {
        1 + log2_spec(t / 2)
    }
}

/// Two raised to the given power.
spec fn pow_two(k: nat) -> int
    decreases k,
{
    if k == 0 {
        1int
    } else {
        2 * pow_two((k - 1) as nat)
    }
}

/// A value below `2^k` has a base-two logarithm below `k`.
proof fn lemma_log2_under(t: u64, k: nat)
    requires
        1 <= k,
        (t as int) < pow_two(k),
    ensures
        log2_spec(t) < k,
    decreases k,
{
    if t >= 2 {
        assert(pow_two(1) == 2) by {
            reveal_with_fuel(pow_two, 2);
        }
        assert(((t / 2) as int) < pow_two((k - 1) as nat));
        lemma_log2_under(t / 2, (k - 1) as nat);
    }
}

/// Computes the floor of the base-two logarithm.
pub fn floor_log2(t: u64) -> (r: u64)
    ensures
        r == log2_spec(t),
        r <= 63,
    decreases t,
{
    proof {
        assert(pow_two(64) == 0x1_0000_0000_0000_0000) by {
            reveal_with_fuel(pow_two, 65);
        }
        lemma_log2_under(t, 64);
    }
    if t < 2 {
        0
    } else {
        1 + floor_log2(t / 2)
    }
}

/// `r` is the floor of the square root of `x`.
pub open spec fn is_sqrt_floor(x: int, r: int) -> bool {
    0 <= r && r * r <= x && x < (r + 1) * (r + 1)
}

/// The floor of the square root.
pub open spec fn sqrt_floor(x: int) -> int {
    choose|r: int| is_sqrt_floor(x, r)
}

/// The floor of the square root is unique, so any witness is the one
/// `sqrt_floor` names.
pub proof fn lemma_sqrt_floor_unique(x: int, r: int)
    requires
        is_sqrt_floor(x, r),
    ensures
        r == sqrt_floor(x),
{
    let w = sqrt_floor(x);
    assert(is_sqrt_floor(x, w));
    assert(r == w) by (nonlinear_arith)
        requires
            is_sqrt_floor(x, r),
            is_sqrt_floor(x, w);
}

/// The conversion of an exact fraction onto the fixed-point grid: the
/// value scaled by `FX_ONE`, truncated toward zero and clamped.
pub open spec fn frac_to_fx_spec(f: Frac) -> int {
    clamp_fx_spec(div_trunc(f.num * FX_ONE, f.den as int))
}

/// Rounds an exact fraction onto the fixed-point grid, toward zero, and
/// clamps it into the representable range.
pub fn frac_to_fx(f: &Frac) -> (r: i64)
    requires
        f.wf(),
    ensures
        r == frac_to_fx_spec(*f),
        fx_wf(r),
{
    let neg: bool = f.num < 0;
    let mn: u128 = if f.num >= 0 {
        f.num as u128
    } else {
        (-(f.num as i128)) as u128
    };
    proof {
        lemma_u64_prod_fits(mn, FX_ONE as u128);
    }
    let scaled: u128 = mn * (FX_ONE as u128);
    let q: u128 = scaled / (f.den as u128);
    proof {
        assert(mn == if f.num >= 0 { f.num as int } else { -(f.num as int) });
        assert(mn * (FX_ONE as int) == if f.num * FX_ONE >= 0 { f.num * FX_ONE } else { -(f.num
            * FX_ONE) } && (neg ==> f.num * FX_ONE <= 0) && (!neg ==> f.num * FX_ONE >= 0))
            by (nonlinear_arith)
            requires
                mn == (if f.num >= 0 { f.num as int } else { -(f.num as int) }),
                neg == (f.num < 0),
                FX_ONE > 0;
    }
    let mag: i64 = if q > (FX_LIM as u128) {
        FX_LIM
    } else {
        q as i64
    };
    if neg {
        -mag
    } else {
        mag
    }
}

/// The integer square root: the greatest `r` with `r * r <= x`.
pub fn isqrt_u128(x: u128) -> (r: u128)
    requires
        x < 0x4000_0000_0000_0000_0000_0000_0000_0000,
    ensures
        r * r <= x,
        x < (r + 1) * (r + 1),
{
    let mut lo: u128 = 0;
    let mut hi: u128 = 0x8000_0000_0000_0000;
    proof {
        assert(hi * hi == 0x4000_0000_0000_0000_0000_0000_0000_0000u128) by (nonlinear_arith)
            requires
                hi == 0x8000_0000_0000_0000u128;
    }
    while lo + 1 < hi
        invariant
            lo < hi <= 0x8000_0000_0000_0000,
            lo * lo <= x,
            x < hi * hi,
        decreases hi - lo,
    {
        let mid: u128 = lo + (hi - lo) / 2;
        proof {
            lemma_u64_prod_fits(mid, mid);
        }
        if mid * mid <= x {
            lo = mid;
        } else {
            hi = mid;
        }
    }
    lo
}

/// The order on well-formed fractions is transitive.
pub proof fn lemma_frac_le_trans(a: Frac, b: Frac, c: Frac)
    by (nonlinear_arith)
    requires
        a.wf(),
        b.wf(),
        c.wf(),
        frac_le(a, b),
        frac_le(b, c),
    ensures
        frac_le(a, c),
{
}

/// Strict order and equality refine the total order.
pub proof fn lemma_frac_lt_le(a: Frac, b: Frac)
    ensures
        frac_lt(a, b) ==> frac_le(a, b) && !frac_le(b, a),
        frac_eq(a, b) ==> frac_le(a, b) && frac_le(b, a),
        !frac_lt(a, b) ==> frac_le(b, a),
        frac_le(a, b) && frac_le(b, a) ==> frac_eq(a, b),
{
}

} // verus!
