//! Exact interpretation of IEEE 754 binary32 bit patterns.
//!
//! Every timed quantity of a song (beat, duration, frequency, volume) is
//! carried as its 32-bit pattern, exactly as the persistence format stores
//! it.  The model every contract speaks of is the pattern's exact value,
//! scaled by 2^149 so that every finite pattern becomes an integer.
//! Comparisons and sums on that model are exact: they introduce no rounding.

use vstd::prelude::*;
use vstd::arithmetic::power2::*;
use vstd::arithmetic::mul::*;
use crate::wide::{Wide, wval, wide_limit, lemma_limb_powers, wide_from_u64, wide_from_shifted, wide_is_zero, wide_le, wide_lt, wide_add, wide_sub, wide_from_u128, wide_shl128, wide_mul_u64};

verus! {

/// The exact quantity a 32-bit pattern stands for: not-a-number, an
/// infinity, or a finite value given as the real quantity times 2^149.
pub ghost enum Val {
    Nan,
    NegInf,
    PosInf,
    Fin(int),
}

/// Decomposition of a pattern: sign, biased exponent, fraction field.
pub open spec fn bits_sign(b: u32) -> bool {
    b >= 0x8000_0000
}

pub open spec fn bits_exp(b: u32) -> int {
    (b as int / 0x80_0000) % 0x100
}

pub open spec fn bits_frac(b: u32) -> int {
    b as int % 0x80_0000
}

/// The exact value of a 32-bit pattern, scaled by 2^149.
pub open spec fn val_of_bits(b: u32) -> Val {
    if bits_exp(b) == 255 {
        if bits_frac(b) != 0 {
            Val::Nan
        } else if bits_sign(b) {
            Val::NegInf
        } else {
            Val::PosInf
        }
    } else {
        let mag: int = if bits_exp(b) == 0 {
            bits_frac(b)
        } else {
            (0x80_0000 + bits_frac(b)) * pow2((bits_exp(b) - 1) as nat)
        };
        Val::Fin(if bits_sign(b) { -mag } else { mag })
    }
}

/// Ordering of exact values, with the comparison conventions of IEEE 754:
/// nothing compares with not-a-number, and the two zeros are one value.
pub open spec fn val_le(a: Val, b: Val) -> bool {
    match (a, b) {
        (Val::Nan, _) => false,
        (_, Val::Nan) => false,
        (Val::NegInf, _) => true,
        (_, Val::PosInf) => true,
        (Val::PosInf, _) => false,
        (_, Val::NegInf) => false,
        (Val::Fin(x), Val::Fin(y)) => x <= y,
    }
}

pub open spec fn val_lt(a: Val, b: Val) -> bool {
    match (a, b) {
        (Val::Nan, _) => false,
        (_, Val::Nan) => false,
        (Val::NegInf, Val::NegInf) => false,
        (Val::NegInf, _) => true,
        (Val::PosInf, _) => false,
        (_, Val::PosInf) => true,
        (_, Val::NegInf) => false,
        (Val::Fin(x), Val::Fin(y)) => x < y,
    }
}

/// Exact addition: opposite infinities and not-a-number give not-a-number,
/// an infinity absorbs any finite value, finite values add without rounding.
pub open spec fn val_plus(a: Val, b: Val) -> Val {
    match (a, b) {
        (Val::Nan, _) => Val::Nan,
        (_, Val::Nan) => Val::Nan,
        (Val::PosInf, Val::NegInf) => Val::Nan,
        (Val::NegInf, Val::PosInf) => Val::Nan,
        (Val::PosInf, _) => Val::PosInf,
        (_, Val::PosInf) => Val::PosInf,
        (Val::NegInf, _) => Val::NegInf,
        (_, Val::NegInf) => Val::NegInf,
        (Val::Fin(x), Val::Fin(y)) => Val::Fin(x + y),
    }
}

/// An exact value at run time.  A finite value is a sign with a `Wide`
/// magnitude (the real quantity times 2^149).
#[derive(Clone, Copy, PartialEq, Eq, Structural, Debug)]
pub enum Scalar {
    Nan,
    NegInf,
    PosInf,
    Finite { negative: bool, magnitude: Wide },
}

/// The value a `Scalar` stands for.
pub open spec fn sval(s: Scalar) -> Val {
    match s {
        Scalar::Nan => Val::Nan,
        Scalar::NegInf => Val::NegInf,
        Scalar::PosInf => Val::PosInf,
        Scalar::Finite { negative, magnitude } => Val::Fin(
            if negative {
                -wval(magnitude)
            } else {
                wval(magnitude)
            },
        ),
    }
}

/// Magnitude of a finite scalar; zero for the others.
pub open spec fn mag_of(s: Scalar) -> int {
    match s {
        Scalar::Finite { negative, magnitude } => wval(magnitude),
        _ => 0,
    }
}

/// Zero carries a positive sign, so equal values are equal `Scalar`s.
pub open spec fn scalar_canonical(s: Scalar) -> bool {
    match s {
        Scalar::Finite { negative, magnitude } => wval(magnitude) == 0 ==> !negative,
        _ => true,
    }
}

/// The exact value of a 32-bit pattern.  Every finite pattern's magnitude
/// stays below 2^277.
pub fn scalar_from_bits(b: u32) -> (r: Scalar)
    ensures
        sval(r) == val_of_bits(b),
        scalar_canonical(r),
        mag_of(r) < pow2(277),
{
    proof {
        lemma2_to64();
        lemma_pow2_strictly_increases(23, 277);
    }
    let sign: bool = b >= 0x8000_0000;
    let exp: u32 = (b / 0x80_0000) % 0x100;
    let frac: u32 = b % 0x80_0000;
    if exp == 255 {
        if frac != 0 {
            Scalar::Nan
        } else if sign {
            Scalar::NegInf
        } else {
            Scalar::PosInf
        }
    } else if exp == 0 {
        Scalar::Finite { negative: sign && frac > 0, magnitude: wide_from_u64(frac as u64) }
    } else {
        let m: u64 = 0x80_0000 + frac as u64;
        let mag = wide_from_shifted(m, exp - 1);
        proof {
            lemma_pow2_pos((exp - 1) as nat);
            lemma_mul_strictly_positive(m as int, pow2((exp - 1) as nat) as int);
            if exp - 1 < 253 {
                lemma_pow2_strictly_increases((exp - 1) as nat, 253);
            }
            lemma_mul_upper_bound(m as int, 0xff_ffffint, pow2((exp - 1) as nat) as int, pow2(253) as int);
            lemma2_to64();
            lemma_pow2_adds(24, 253);
            assert(pow2(24) * pow2(253) == 0x100_0000 * pow2(253)) by (nonlinear_arith)
                requires pow2(24) == 0x100_0000int,
            ;
        }
        Scalar::Finite { negative: sign, magnitude: mag }
    }
}

/// `a <= b` on exact values.
pub fn scalar_le(a: &Scalar, b: &Scalar) -> (r: bool)
    ensures
        r == val_le(sval(*a), sval(*b)),
{
    match (a, b) {
        (Scalar::Nan, _) => false,
        (_, Scalar::Nan) => false,
        (Scalar::NegInf, _) => true,
        (_, Scalar::PosInf) => true,
        (Scalar::PosInf, _) => false,
        (_, Scalar::NegInf) => false,
        (
            Scalar::Finite { negative: na, magnitude: ma },
            Scalar::Finite { negative: nb, magnitude: mb },
        ) => {
            if *na && !*nb {
                true
            } else if !*na && *nb {
                wide_is_zero(ma) && wide_is_zero(mb)
            } else if *na {
                wide_le(mb, ma)
            } else {
                wide_le(ma, mb)
            }
        },
    }
}

/// `a < b` on exact values.
pub fn scalar_lt(a: &Scalar, b: &Scalar) -> (r: bool)
    ensures
        r == val_lt(sval(*a), sval(*b)),
{
    !scalar_le(b, a) && !matches!(a, Scalar::Nan) && !matches!(b, Scalar::Nan)
}

/// Exact sum of two scalars.  The bound on the operands' magnitudes keeps
/// the sum well inside what a `Wide` can hold.
pub fn scalar_plus(a: &Scalar, b: &Scalar) -> (r: Scalar)
    requires
        mag_of(*a) < pow2(318),
        mag_of(*b) < pow2(318),
    ensures
        sval(r) == val_plus(sval(*a), sval(*b)),
        scalar_canonical(r),
        mag_of(r) <= mag_of(*a) + mag_of(*b),
{
    proof {
        lemma_pow2_adds(318, 1);
        lemma2_to64();
        lemma_pow2_strictly_increases(319, 320);
        lemma_limb_powers();
    }
    match (a, b) {
        (Scalar::Nan, _) => Scalar::Nan,
        (_, Scalar::Nan) => Scalar::Nan,
        (Scalar::PosInf, Scalar::NegInf) => Scalar::Nan,
        (Scalar::NegInf, Scalar::PosInf) => Scalar::Nan,
        (Scalar::PosInf, _) => Scalar::PosInf,
        (_, Scalar::PosInf) => Scalar::PosInf,
        (Scalar::NegInf, _) => Scalar::NegInf,
        (_, Scalar::NegInf) => Scalar::NegInf,
        (
            Scalar::Finite { negative: na, magnitude: ma },
            Scalar::Finite { negative: nb, magnitude: mb },
        ) => {
            if *na == *nb {
                let m = wide_add(ma, mb);
                let z = wide_is_zero(&m);
                Scalar::Finite { negative: *na && !z, magnitude: m }
            } else if wide_le(mb, ma) {
                let m = wide_sub(ma, mb);
                let z = wide_is_zero(&m);
                Scalar::Finite { negative: *na && !z, magnitude: m }
            } else {
                let m = wide_sub(mb, ma);
                Scalar::Finite { negative: *nb, magnitude: m }
            }
        },
    }
}

/// Concrete value of the scale factor 2^149.
pub proof fn lemma_pow2_149()
    ensures
        pow2(149) == 0x20_0000_0000_0000_0000_0000_0000_0000_0000_0000int,
{
    lemma2_to64();
    lemma_limb_powers();
    lemma_pow2_adds(128, 21);
    assert(pow2(128) * pow2(21) == 0x1_0000_0000_0000_0000_0000_0000_0000_0000int * 0x20_0000int)
        by (nonlinear_arith)
        requires
            pow2(128) == 0x1_0000_0000_0000_0000_0000_0000_0000_0000int,
            pow2(21) == 0x20_0000int,
    ;
}

/// A magnitude below 2^278 times a denominator below 2^40 stays below 2^320.
pub proof fn lemma_mag_den_fits(mag: int, den: int)
    requires
        0 <= mag < pow2(278),
        0 <= den < pow2(40),
    ensures
        mag * den < wide_limit(),
{
    lemma_pow2_adds(278, 40);
    lemma_pow2_pos(278);
    lemma_pow2_pos(40);
    lemma_mul_upper_bound(mag, pow2(278) as int - 1, den, pow2(40) as int - 1);
    assert((pow2(278) - 1) * (pow2(40) - 1) < pow2(278) * pow2(40)) by (nonlinear_arith)
        requires
            pow2(278) >= 1,
            pow2(40) >= 1,
    ;
    lemma_pow2_strictly_increases(318, 320);
    lemma_limb_powers();
}

/// `v <= num / den`, for a nonnegative rational with positive denominator.
pub open spec fn val_le_rat(v: Val, num: int, den: int) -> bool {
    match v {
        Val::Nan => false,
        Val::NegInf => true,
        Val::PosInf => false,
        Val::Fin(m) => m * den <= num * pow2(149),
    }
}

/// `num / den < v`, for a nonnegative rational with positive denominator.
pub open spec fn rat_lt_val(num: int, den: int, v: Val) -> bool {
    match v {
        Val::Nan => false,
        Val::NegInf => false,
        Val::PosInf => true,
        Val::Fin(m) => num * pow2(149) < m * den,
    }
}

/// `num * 2^149` as a `Wide`.
pub fn wide_num_scaled(num: u128) -> (r: Wide)
    ensures
        wval(r) == num * pow2(149),
{
    let w = wide_from_u128(num);
    let w2 = wide_shl128(&w);
    let r = wide_mul_u64(&w2, 0x20_0000);
    proof {
        lemma_pow2_149();
    }
    r
}

/// Whether the scalar is at most `num / den`.  The denominator bound keeps
/// the cross product inside a `Wide`.
pub fn scalar_le_rat(s: &Scalar, num: u128, den: u64) -> (r: bool)
    requires
        1 <= den,
        den < pow2(40),
        mag_of(*s) < pow2(278),
    ensures
        r == val_le_rat(sval(*s), num as int, den as int),
{
    match s {
        Scalar::Nan => false,
        Scalar::NegInf => true,
        Scalar::PosInf => false,
        Scalar::Finite { negative, magnitude } => {
            proof {
                lemma_mag_den_fits(wval(*magnitude), den as int);
                lemma_mul_nonnegative(wval(*magnitude), den as int);
                lemma_mul_nonnegative(num as int, pow2(149) as int);
                lemma_mul_unary_negation(wval(*magnitude), den as int);
            }
            if *negative {
                true
            } else {
                let lhs = wide_mul_u64(magnitude, den);
                let rhs = wide_num_scaled(num);
                wide_le(&lhs, &rhs)
            }
        },
    }
}

/// Whether `num / den` is strictly below the scalar.
pub fn rat_lt_scalar(num: u128, den: u64, s: &Scalar) -> (r: bool)
    requires
        1 <= den,
        den < pow2(40),
        mag_of(*s) < pow2(278),
    ensures
        r == rat_lt_val(num as int, den as int, sval(*s)),
{
    match s {
        Scalar::Nan => false,
        Scalar::NegInf => false,
        Scalar::PosInf => true,
        Scalar::Finite { negative, magnitude } => {
            proof {
                lemma_mag_den_fits(wval(*magnitude), den as int);
                lemma_mul_nonnegative(wval(*magnitude), den as int);
                lemma_mul_nonnegative(num as int, pow2(149) as int);
                lemma_mul_unary_negation(wval(*magnitude), den as int);
            }
            if *negative {
                false
            } else {
                let lhs = wide_num_scaled(num);
                let rhs = wide_mul_u64(magnitude, den);
                wide_lt(&lhs, &rhs)
            }
        },
    }
}

} // verus!
