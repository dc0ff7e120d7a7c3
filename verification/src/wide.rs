//! Fixed-width 320-bit unsigned integers.
//!
//! Beat times in this crate are interpreted exactly: every finite IEEE 754
//! binary32 quantity, scaled by 2^149, is an integer below 2^278, and the
//! sums and small products of such quantities that the song logic needs stay
//! below 2^320.  A `Wide` holds such an integer in five 64-bit limbs.

use vstd::prelude::*;
use vstd::arithmetic::power2::*;
use vstd::arithmetic::mul::*;
use vstd::arithmetic::div_mod::*;

verus! {

/// Base of one limb, 2^64.
pub const LIMB_BASE: u128 = 0x1_0000_0000_0000_0000;

/// An unsigned integer below 2^320; five 64-bit limbs, least significant first.
#[derive(Clone, Copy, PartialEq, Eq, Structural, Debug)]
pub struct Wide {
    pub l0: u64,
    pub l1: u64,
    pub l2: u64,
    pub l3: u64,
    pub l4: u64,
}

/// The integer a `Wide` stands for.
pub open spec fn wval(w: Wide) -> int {
    w.l0 + w.l1 * 0x1_0000_0000_0000_0000int
        + w.l2 * 0x1_0000_0000_0000_0000_0000_0000_0000_0000int
        + w.l3 * 0x1_0000_0000_0000_0000_0000_0000_0000_0000_0000_0000_0000_0000int
        + w.l4 * 0x1_0000_0000_0000_0000_0000_0000_0000_0000_0000_0000_0000_0000_0000_0000_0000_0000int
}

/// 2^320, one past the largest value a `Wide` can hold.
pub open spec fn wide_limit() -> int {
    0x1_0000_0000_0000_0000_0000_0000_0000_0000_0000_0000_0000_0000_0000_0000_0000_0000_0000_0000_0000_0000int
}

pub fn wide_zero() -> (r: Wide)
    ensures
        wval(r) == 0,
{
    Wide { l0: 0, l1: 0, l2: 0, l3: 0, l4: 0 }
}

pub fn wide_from_u64(x: u64) -> (r: Wide)
    ensures
        wval(r) == x,
{
    Wide { l0: x, l1: 0, l2: 0, l3: 0, l4: 0 }
}

pub fn wide_from_u128(x: u128) -> (r: Wide)
    ensures
        wval(r) == x,
        r.l2 == 0 && r.l3 == 0 && r.l4 == 0,
{
    proof {
        lemma_fundamental_div_mod(x as int, LIMB_BASE as int);
    }
    Wide {
        l0: (x % LIMB_BASE) as u64,
        l1: (x / LIMB_BASE) as u64,
        l2: 0,
        l3: 0,
        l4: 0,
    }
}

pub fn wide_is_zero(w: &Wide) -> (r: bool)
    ensures
        r == (wval(*w) == 0),
{
    w.l0 == 0 && w.l1 == 0 && w.l2 == 0 && w.l3 == 0 && w.l4 == 0
}

/// True when the value fits in one limb; its low limb is then the value.
pub fn wide_fits_u64(w: &Wide) -> (r: bool)
    ensures
        r == (wval(*w) <= u64::MAX),
{
    w.l1 == 0 && w.l2 == 0 && w.l3 == 0 && w.l4 == 0
}

pub fn wide_lt(a: &Wide, b: &Wide) -> (r: bool)
    ensures
        r == (wval(*a) < wval(*b)),
{
    if a.l4 != b.l4 {
        a.l4 < b.l4
    } else if a.l3 != b.l3 {
        a.l3 < b.l3
    } else if a.l2 != b.l2 {
        a.l2 < b.l2
    } else if a.l1 != b.l1 {
        a.l1 < b.l1
    } else {
        a.l0 < b.l0
    }
}

pub fn wide_le(a: &Wide, b: &Wide) -> (r: bool)
    ensures
        r == (wval(*a) <= wval(*b)),
{
    !wide_lt(b, a)
}

pub fn wide_add(a: &Wide, b: &Wide) -> (r: Wide)
    requires
        wval(*a) + wval(*b) < wide_limit(),
    ensures
        wval(r) == wval(*a) + wval(*b),
{
    let s0: u128 = a.l0 as u128 + b.l0 as u128;
    let r0: u64 = (s0 % LIMB_BASE) as u64;
    let c0: u64 = (s0 / LIMB_BASE) as u64;
    let s1: u128 = a.l1 as u128 + b.l1 as u128 + c0 as u128;
    let r1: u64 = (s1 % LIMB_BASE) as u64;
    let c1: u64 = (s1 / LIMB_BASE) as u64;
    let s2: u128 = a.l2 as u128 + b.l2 as u128 + c1 as u128;
    let r2: u64 = (s2 % LIMB_BASE) as u64;
    let c2: u64 = (s2 / LIMB_BASE) as u64;
    let s3: u128 = a.l3 as u128 + b.l3 as u128 + c2 as u128;
    let r3: u64 = (s3 % LIMB_BASE) as u64;
    let c3: u64 = (s3 / LIMB_BASE) as u64;
    let s4: u128 = a.l4 as u128 + b.l4 as u128 + c3 as u128;
    let r4: u64 = (s4 % LIMB_BASE) as u64;
    let c4: u64 = (s4 / LIMB_BASE) as u64;
    let r = Wide { l0: r0, l1: r1, l2: r2, l3: r3, l4: r4 };
    proof {
        lemma_fundamental_div_mod(s0 as int, LIMB_BASE as int);
        lemma_fundamental_div_mod(s1 as int, LIMB_BASE as int);
        lemma_fundamental_div_mod(s2 as int, LIMB_BASE as int);
        lemma_fundamental_div_mod(s3 as int, LIMB_BASE as int);
        lemma_fundamental_div_mod(s4 as int, LIMB_BASE as int);
        assert(wval(r) + c4 * wide_limit() == wval(*a) + wval(*b));
    }
    r
}

pub fn wide_sub(a: &Wide, b: &Wide) -> (r: Wide)
    requires
        wval(*b) <= wval(*a),
    ensures
        wval(r) == wval(*a) - wval(*b),
{
    let (r0, w0): (u64, u64) = if a.l0 >= b.l0 {
        (a.l0 - b.l0, 0)
    } else {
        ((LIMB_BASE + a.l0 as u128 - b.l0 as u128) as u64, 1)
    };
    let d1: u128 = b.l1 as u128 + w0 as u128;
    let (r1, w1): (u64, u64) = if a.l1 as u128 >= d1 {
        ((a.l1 as u128 - d1) as u64, 0)
    } else {
        ((LIMB_BASE + a.l1 as u128 - d1) as u64, 1)
    };
    let d2: u128 = b.l2 as u128 + w1 as u128;
    let (r2, w2): (u64, u64) = if a.l2 as u128 >= d2 {
        ((a.l2 as u128 - d2) as u64, 0)
    } else {
        ((LIMB_BASE + a.l2 as u128 - d2) as u64, 1)
    };
    let d3: u128 = b.l3 as u128 + w2 as u128;
    let (r3, w3): (u64, u64) = if a.l3 as u128 >= d3 {
        ((a.l3 as u128 - d3) as u64, 0)
    } else {
        ((LIMB_BASE + a.l3 as u128 - d3) as u64, 1)
    };
    let d4: u128 = b.l4 as u128 + w3 as u128;
    let (r4, w4): (u64, u64) = if a.l4 as u128 >= d4 {
        ((a.l4 as u128 - d4) as u64, 0)
    } else {
        ((LIMB_BASE + a.l4 as u128 - d4) as u64, 1)
    };
    let r = Wide { l0: r0, l1: r1, l2: r2, l3: r3, l4: r4 };
    proof {
        assert(wval(r) == wval(*a) - wval(*b) + w4 * wide_limit());
        assert(w4 == 0);
    }
    r
}

/// 2^e as an executable value, for exponents below one limb's width.
pub fn pow2_u64(e: u32) -> (r: u64)
    requires
        e <= 63,
    ensures
        r == pow2(e as nat),
{
    proof {
        lemma2_to64();
    }
    let mut r: u64 = 1;
    let mut i: u32 = 0;
    while i < e
        invariant
            i <= e <= 63,
            r == pow2(i as nat),
        decreases e - i,
    {
        proof {
            lemma_pow2_strictly_increases(i as nat, 63);
            lemma2_to64_rest();
            lemma_pow2_adds(i as nat, 1);
            lemma2_to64();
        }
        r = r * 2;
        i = i + 1;
    }
    r
}

/// Concrete values of the powers of two at the limb boundaries.
pub proof fn lemma_limb_powers()
    ensures
        pow2(64) == 0x1_0000_0000_0000_0000int,
        pow2(128) == 0x1_0000_0000_0000_0000_0000_0000_0000_0000int,
        pow2(192) == 0x1_0000_0000_0000_0000_0000_0000_0000_0000_0000_0000_0000_0000int,
        pow2(256) == 0x1_0000_0000_0000_0000_0000_0000_0000_0000_0000_0000_0000_0000_0000_0000_0000_0000int,
        pow2(320) == wide_limit(),
{
    lemma2_to64();
    lemma_pow2_adds(64, 64);
    assert(pow2(128) == 0x1_0000_0000_0000_0000_0000_0000_0000_0000int);
    lemma_pow2_adds(128, 64);
    assert(pow2(192) == 0x1_0000_0000_0000_0000_0000_0000_0000_0000_0000_0000_0000_0000int);
    lemma_pow2_adds(192, 64);
    assert(pow2(256) == pow2(192) * pow2(64));
    assert(pow2(192) * pow2(64) == 0x1_0000_0000_0000_0000_0000_0000_0000_0000_0000_0000_0000_0000int * pow2(64))
        by (nonlinear_arith)
        requires pow2(192) == 0x1_0000_0000_0000_0000_0000_0000_0000_0000_0000_0000_0000_0000int,
    ;
    lemma_pow2_adds(256, 64);
    assert(pow2(320) == pow2(256) * pow2(64));
    assert(pow2(256) * pow2(64) == 0x1_0000_0000_0000_0000_0000_0000_0000_0000_0000_0000_0000_0000_0000_0000_0000_0000int * pow2(64))
        by (nonlinear_arith)
        requires pow2(256) == 0x1_0000_0000_0000_0000_0000_0000_0000_0000_0000_0000_0000_0000_0000_0000_0000_0000int,
    ;
}

/// `m * 2^e` as a `Wide`.  The largest use has `m` below 2^24 and `e`
/// at most 253, so the result is far below 2^320.
pub fn wide_from_shifted(m: u64, e: u32) -> (r: Wide)
    requires
        e < 256,
    ensures
        wval(r) == m * pow2(e as nat),
{
    let q: u32 = e / 64;
    let sh: u32 = e % 64;
    let p: u64 = pow2_u64(sh);
    proof {
        lemma_mul_upper_bound(m as int, 0xffff_ffff_ffff_ffffint, p as int, 0xffff_ffff_ffff_ffffint);
    }
    let t: u128 = m as u128 * p as u128;
    let lo: u64 = (t % LIMB_BASE) as u64;
    let hi: u64 = (t / LIMB_BASE) as u64;
    proof {
        lemma_fundamental_div_mod(t as int, LIMB_BASE as int);
        lemma_fundamental_div_mod(e as int, 64);
        lemma2_to64();
        lemma_limb_powers();
        lemma_pow2_adds(sh as nat, (e - sh) as nat);
        lemma_mul_is_associative(m as int, pow2(sh as nat) as int, pow2((e - sh) as nat) as int);
        assert(m * pow2(e as nat) == t * pow2((e - sh) as nat));
        lemma_div_is_ordered(e as int, 255, 64);
        assert(q <= 3);
        assert(q == 0 ==> e - sh == 0);
        assert(q == 1 ==> e - sh == 64);
        assert(q == 2 ==> e - sh == 128);
        assert(q == 3 ==> e - sh == 192);
    }
    let r: Wide = if q == 0 {
        Wide { l0: lo, l1: hi, l2: 0, l3: 0, l4: 0 }
    } else if q == 1 {
        Wide { l0: 0, l1: lo, l2: hi, l3: 0, l4: 0 }
    } else if q == 2 {
        Wide { l0: 0, l1: 0, l2: lo, l3: hi, l4: 0 }
    } else {
        Wide { l0: 0, l1: 0, l2: 0, l3: lo, l4: hi }
    };
    proof {
        if q == 0 {
            assert(wval(r) == t * 1int);
        } else if q == 1 {
            assert(wval(r) == t * 0x1_0000_0000_0000_0000int);
        } else if q == 2 {
            assert(wval(r) == t * 0x1_0000_0000_0000_0000_0000_0000_0000_0000int);
        } else {
            assert(wval(r) == t * 0x1_0000_0000_0000_0000_0000_0000_0000_0000_0000_0000_0000_0000int);
        }
    }
    r
}

/// Multiply by a single limb.
pub fn wide_mul_u64(a: &Wide, k: u64) -> (r: Wide)
    requires
        wval(*a) * k < wide_limit(),
    ensures
        wval(r) == wval(*a) * k,
{
    proof {
        lemma_mul_upper_bound(a.l0 as int, 0xffff_ffff_ffff_ffffint, k as int, 0xffff_ffff_ffff_ffffint);
        lemma_mul_upper_bound(a.l1 as int, 0xffff_ffff_ffff_ffffint, k as int, 0xffff_ffff_ffff_ffffint);
        lemma_mul_upper_bound(a.l2 as int, 0xffff_ffff_ffff_ffffint, k as int, 0xffff_ffff_ffff_ffffint);
        lemma_mul_upper_bound(a.l3 as int, 0xffff_ffff_ffff_ffffint, k as int, 0xffff_ffff_ffff_ffffint);
        lemma_mul_upper_bound(a.l4 as int, 0xffff_ffff_ffff_ffffint, k as int, 0xffff_ffff_ffff_ffffint);
    }
    let t0: u128 = a.l0 as u128 * k as u128;
    let r0: u64 = (t0 % LIMB_BASE) as u64;
    let c0: u64 = (t0 / LIMB_BASE) as u64;
    let t1: u128 = a.l1 as u128 * k as u128 + c0 as u128;
    let r1: u64 = (t1 % LIMB_BASE) as u64;
    let c1: u64 = (t1 / LIMB_BASE) as u64;
    let t2: u128 = a.l2 as u128 * k as u128 + c1 as u128;
    let r2: u64 = (t2 % LIMB_BASE) as u64;
    let c2: u64 = (t2 / LIMB_BASE) as u64;
    let t3: u128 = a.l3 as u128 * k as u128 + c2 as u128;
    let r3: u64 = (t3 % LIMB_BASE) as u64;
    let c3: u64 = (t3 / LIMB_BASE) as u64;
    let t4: u128 = a.l4 as u128 * k as u128 + c3 as u128;
    let r4: u64 = (t4 % LIMB_BASE) as u64;
    let c4: u64 = (t4 / LIMB_BASE) as u64;
    let r = Wide { l0: r0, l1: r1, l2: r2, l3: r3, l4: r4 };
    proof {
        lemma_fundamental_div_mod(t0 as int, LIMB_BASE as int);
        lemma_fundamental_div_mod(t1 as int, LIMB_BASE as int);
        lemma_fundamental_div_mod(t2 as int, LIMB_BASE as int);
        lemma_fundamental_div_mod(t3 as int, LIMB_BASE as int);
        lemma_fundamental_div_mod(t4 as int, LIMB_BASE as int);
        assert(wval(*a) * k == a.l0 * k
            + (a.l1 * k) * 0x1_0000_0000_0000_0000int
            + (a.l2 * k) * 0x1_0000_0000_0000_0000_0000_0000_0000_0000int
            + (a.l3 * k) * 0x1_0000_0000_0000_0000_0000_0000_0000_0000_0000_0000_0000_0000int
            + (a.l4 * k) * 0x1_0000_0000_0000_0000_0000_0000_0000_0000_0000_0000_0000_0000_0000_0000_0000_0000int)
            by (nonlinear_arith);
        assert(wval(r) + c4 * wide_limit() == wval(*a) * k);
    }
    r
}

/// Euclidean division by a single limb: quotient and remainder.
#[verifier::rlimit(100)]
pub fn wide_div_u64(a: &Wide, d: u64) -> (r: (Wide, u64))
    requires
        1 <= d,
    ensures
        wval(r.0) * d + r.1 == wval(*a),
        r.1 < d,
{
    let q4: u64 = a.l4 / d;
    let m4: u64 = a.l4 % d;
    let cur3: u128 = m4 as u128 * LIMB_BASE + a.l3 as u128;
    proof {
        lemma_multiply_divide_lt(cur3 as int, d as int, LIMB_BASE as int);
    }
    let q3: u64 = (cur3 / d as u128) as u64;
    let m3: u64 = (cur3 % d as u128) as u64;
    let cur2: u128 = m3 as u128 * LIMB_BASE + a.l2 as u128;
    proof {
        lemma_multiply_divide_lt(cur2 as int, d as int, LIMB_BASE as int);
    }
    let q2: u64 = (cur2 / d as u128) as u64;
    let m2: u64 = (cur2 % d as u128) as u64;
    let cur1: u128 = m2 as u128 * LIMB_BASE + a.l1 as u128;
    proof {
        lemma_multiply_divide_lt(cur1 as int, d as int, LIMB_BASE as int);
    }
    let q1: u64 = (cur1 / d as u128) as u64;
    let m1: u64 = (cur1 % d as u128) as u64;
    let cur0: u128 = m1 as u128 * LIMB_BASE + a.l0 as u128;
    proof {
        lemma_multiply_divide_lt(cur0 as int, d as int, LIMB_BASE as int);
    }
    let q0: u64 = (cur0 / d as u128) as u64;
    let m0: u64 = (cur0 % d as u128) as u64;
    let q = Wide { l0: q0, l1: q1, l2: q2, l3: q3, l4: q4 };
    proof {
        lemma_fundamental_div_mod(a.l4 as int, d as int);
        lemma_fundamental_div_mod(cur3 as int, d as int);
        lemma_fundamental_div_mod(cur2 as int, d as int);
        lemma_fundamental_div_mod(cur1 as int, d as int);
        lemma_fundamental_div_mod(cur0 as int, d as int);
        assert((q0 + q1 * 0x1_0000_0000_0000_0000int
            + q2 * 0x1_0000_0000_0000_0000_0000_0000_0000_0000int
            + q3 * 0x1_0000_0000_0000_0000_0000_0000_0000_0000_0000_0000_0000_0000int
            + q4 * 0x1_0000_0000_0000_0000_0000_0000_0000_0000_0000_0000_0000_0000_0000_0000_0000_0000int) * d
            == q0 * d
            + (q1 * d) * 0x1_0000_0000_0000_0000int
            + (q2 * d) * 0x1_0000_0000_0000_0000_0000_0000_0000_0000int
            + (q3 * d) * 0x1_0000_0000_0000_0000_0000_0000_0000_0000_0000_0000_0000_0000int
            + (q4 * d) * 0x1_0000_0000_0000_0000_0000_0000_0000_0000_0000_0000_0000_0000_0000_0000_0000_0000int)
            by (nonlinear_arith);
        assert(a.l4 as int == d * (a.l4 as int / d as int) + a.l4 as int % d as int);
        assert(cur3 as int == d * (cur3 as int / d as int) + cur3 as int % d as int);
        assert(cur2 as int == d * (cur2 as int / d as int) + cur2 as int % d as int);
        assert(cur1 as int == d * (cur1 as int / d as int) + cur1 as int % d as int);
        assert(cur0 as int == d * (cur0 as int / d as int) + cur0 as int % d as int);
        lemma_mul_is_commutative(d as int, q4 as int);
        lemma_mul_is_commutative(d as int, q3 as int);
        lemma_mul_is_commutative(d as int, q2 as int);
        lemma_mul_is_commutative(d as int, q1 as int);
        lemma_mul_is_commutative(d as int, q0 as int);
        assert(a.l4 == q4 * d + m4);
        assert(cur3 == q3 * d + m3);
        assert(cur2 == q2 * d + m2);
        assert(cur1 == q1 * d + m1);
        assert(cur0 == q0 * d + m0);
        assert(m0 < d);
        assert(wval(q) * d + m0 == wval(*a));
    }
    (q, m0)
}

/// Multiply by 2^128, that is, move every limb up by two places.
pub fn wide_shl128(a: &Wide) -> (r: Wide)
    requires
        a.l3 == 0,
        a.l4 == 0,
    ensures
        wval(r) == wval(*a) * 0x1_0000_0000_0000_0000_0000_0000_0000_0000int,
{
    Wide { l0: 0, l1: 0, l2: a.l0, l3: a.l1, l4: a.l2 }
}

/// Divide by 2^128 rounding down, that is, move every limb down by two places.
pub fn wide_shr128(a: &Wide) -> (r: Wide)
    ensures
        wval(r) == wval(*a) / 0x1_0000_0000_0000_0000_0000_0000_0000_0000int,
{
    let r = Wide { l0: a.l2, l1: a.l3, l2: a.l4, l3: 0, l4: 0 };
    proof {
        lemma_fundamental_div_mod_converse(
            wval(*a),
            0x1_0000_0000_0000_0000_0000_0000_0000_0000int,
            wval(r),
            a.l0 + a.l1 * 0x1_0000_0000_0000_0000int,
        );
    }
    r
}

} // verus!
