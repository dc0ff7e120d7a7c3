//! Little-endian byte layout helpers shared by the song format codec and
//! the waveform container header.

use vstd::prelude::*;
use vstd::arithmetic::div_mod::*;

verus! {

/// The two little-endian bytes of a 16-bit value.
pub open spec fn u16_le(x: u16) -> Seq<u8> {
    seq![(x as int % 256) as u8, (x as int / 256) as u8]
}

/// The four little-endian bytes of a 32-bit value.
pub open spec fn u32_le(x: u32) -> Seq<u8> {
    seq![
        (x as int % 256) as u8,
        ((x as int / 256) % 256) as u8,
        ((x as int / 0x1_0000) % 256) as u8,
        (x as int / 0x100_0000) as u8,
    ]
}

/// The 16-bit two's-complement image of a signed sample.
pub open spec fn u16_of_i16(x: i16) -> u16 {
    if x >= 0 {
        x as u16
    } else {
        (x + 0x1_0000) as u16
    }
}

/// The two little-endian bytes of a signed 16-bit sample.
pub open spec fn i16_le(x: i16) -> Seq<u8> {
    u16_le(u16_of_i16(x))
}

/// Append the two little-endian bytes of `x`.
pub fn push_u16_le(v: &mut Vec<u8>, x: u16)
    ensures
        final(v)@ == old(v)@ + u16_le(x),
{
    v.push((x % 256) as u8);
    v.push((x / 256) as u8);
    proof {
        assert(v@ =~= old(v)@ + u16_le(x));
    }
}

/// Append the four little-endian bytes of `x`.
pub fn push_u32_le(v: &mut Vec<u8>, x: u32)
    ensures
        final(v)@ == old(v)@ + u32_le(x),
{
    v.push((x % 256) as u8);
    v.push((x / 256 % 256) as u8);
    v.push((x / 0x1_0000 % 256) as u8);
    v.push((x / 0x100_0000) as u8);
    proof {
        assert(v@ =~= old(v)@ + u32_le(x));
    }
}

/// Append the two little-endian bytes of a signed sample.
pub fn push_i16_le(v: &mut Vec<u8>, x: i16)
    ensures
        final(v)@ == old(v)@ + i16_le(x),
{
    let u: u16 = if x >= 0 {
        x as u16
    } else {
        ((x as i32) + 0x1_0000) as u16
    };
    push_u16_le(v, u);
}

/// The 16-bit value whose little-endian bytes are `b0` then `b1`.
pub fn u16_from_le(b0: u8, b1: u8) -> (r: u16)
    ensures
        r == b0 + 256 * (b1 as int),
        u16_le(r) == seq![b0, b1],
{
    let r: u16 = b0 as u16 + 256 * (b1 as u16);
    proof {
        assert(u16_le(r) =~= seq![b0, b1]);
    }
    r
}

/// The 32-bit value whose little-endian bytes are `b0` through `b3`.
pub fn u32_from_le(b0: u8, b1: u8, b2: u8, b3: u8) -> (r: u32)
    ensures
        r == b0 + 256 * (b1 as int) + 0x1_0000 * (b2 as int) + 0x100_0000 * (b3 as int),
        u32_le(r) == seq![b0, b1, b2, b3],
{
    let r: u32 = b0 as u32 + 256 * (b1 as u32) + 0x1_0000 * (b2 as u32) + 0x100_0000 * (b3 as u32);
    proof {
        let q1: int = b1 + 256 * (b2 as int) + 0x1_0000 * (b3 as int);
        let q2: int = b2 + 256 * (b3 as int);
        lemma_fundamental_div_mod_converse(r as int, 256, q1, b0 as int);
        lemma_fundamental_div_mod_converse(q1, 256, q2, b1 as int);
        lemma_fundamental_div_mod_converse(q2, 256, b3 as int, b2 as int);
        lemma_fundamental_div_mod_converse(r as int, 0x1_0000, q2, b0 + 256 * (b1 as int));
        lemma_fundamental_div_mod_converse(
            r as int,
            0x100_0000,
            b3 as int,
            b0 + 256 * (b1 as int) + 0x1_0000 * (b2 as int),
        );
        assert(u32_le(r) =~= seq![b0, b1, b2, b3]);
    }
    r
}

} // verus!
