//! A single pitched, timed event.

use vstd::prelude::*;
use vstd::arithmetic::power2::*;
use crate::scalar::{
    Scalar, Val, val_of_bits, val_le, val_lt, val_plus, val_le_rat, rat_lt_val, sval, mag_of,
    scalar_canonical, scalar_from_bits, scalar_le, scalar_lt, scalar_plus, scalar_le_rat,
    rat_lt_scalar,
};

verus! {

/// One pitched event inside a part.  Each field carries the 32-bit pattern
/// of the binary32 quantity it names, exactly as the song format stores it;
/// the contracts speak of the exact values behind the patterns.
#[derive(Clone, Copy, PartialEq, Eq, Structural, Debug)]
pub struct Note {
    /// Pattern of the beat the note starts on.
    pub beat: u32,
    /// Pattern of its length in beats.
    pub duration: u32,
    /// Pattern of its pitch in cycles per second.
    pub frequency: u32,
    /// Pattern of its loudness, meant to lie between zero and one.
    pub volume: u32,
}

/// Pattern of the quantity one.
pub const ONE_BITS: u32 = 0x3f80_0000;

/// The one construction failure: a loudness that compares above one.
#[derive(Clone, Copy, PartialEq, Eq, Structural, Debug)]
pub struct InvalidVolume;

/// The exact beat the note ends on: its start plus its length, without
/// rounding.
pub open spec fn note_end_val(n: Note) -> Val {
    val_plus(val_of_bits(n.beat), val_of_bits(n.duration))
}

/// Whether the note sounds at beat `q`: at or after its start and strictly
/// before its end.
pub open spec fn note_plays_at(n: Note, q: Val) -> bool {
    val_le(val_of_bits(n.beat), q) && val_lt(q, note_end_val(n))
}

/// Whether the note sounds at the rational beat `num / den`.
pub open spec fn note_plays_at_rat(n: Note, num: int, den: int) -> bool {
    val_le_rat(val_of_bits(n.beat), num, den) && rat_lt_val(num, den, note_end_val(n))
}

/// Whether a loudness pattern compares above one.  A negative or
/// not-a-number loudness does not, and is accepted as the original
/// format admits it.
pub open spec fn volume_above_one(v: u32) -> bool {
    val_lt(val_of_bits(ONE_BITS), val_of_bits(v))
}

impl Note {
    /// A note from its four patterns, rejected exactly when the loudness
    /// compares above one.
    pub fn new(beat: u32, duration: u32, frequency: u32, volume: u32) -> (r: Result<
        Note,
        InvalidVolume,
    >)
        ensures
            r is Ok <==> !volume_above_one(volume),
            r is Ok ==> r == Result::<Note, InvalidVolume>::Ok(
                Note { beat, duration, frequency, volume },
            ),
    {
        let one = scalar_from_bits(ONE_BITS);
        let vol = scalar_from_bits(volume);
        if scalar_lt(&one, &vol) {
            Err(InvalidVolume)
        } else {
            Ok(Note { beat, duration, frequency, volume })
        }
    }

    /// The exact beat the note ends on.
    pub fn end_beat(&self) -> (r: Scalar)
        ensures
            sval(r) == note_end_val(*self),
            scalar_canonical(r),
            mag_of(r) < pow2(278),
    {
        proof {
            lemma_pow2_strictly_increases(277, 318);
            lemma_pow2_unfold(278);
        }
        let b = scalar_from_bits(self.beat);
        let d = scalar_from_bits(self.duration);
        scalar_plus(&b, &d)
    }

    /// Whether the note sounds at the exact beat `q`.
    pub fn plays_at_val(&self, q: &Scalar) -> (r: bool)
        ensures
            r == note_plays_at(*self, sval(*q)),
    {
        let b = scalar_from_bits(self.beat);
        let end = self.end_beat();
        scalar_le(&b, q) && scalar_lt(q, &end)
    }

    /// Whether the note sounds at the beat whose pattern is `beat`.
    pub fn plays_at(&self, beat: u32) -> (r: bool)
        ensures
            r == note_plays_at(*self, val_of_bits(beat)),
    {
        let q = scalar_from_bits(beat);
        self.plays_at_val(&q)
    }

    /// Whether the note sounds at the rational beat `num / den`.
    pub fn plays_at_rat(&self, num: u128, den: u64) -> (r: bool)
        requires
            1 <= den,
            den < pow2(40),
        ensures
            r == note_plays_at_rat(*self, num as int, den as int),
    {
        proof {
            lemma_pow2_strictly_increases(277, 278);
        }
        let b = scalar_from_bits(self.beat);
        let end = self.end_beat();
        scalar_le_rat(&b, num, den) && rat_lt_scalar(num, den, &end)
    }
}

/// A note never sounds at the exact beat it ends on: its play window is
/// half open, closed at the start and open at the end.
pub proof fn lemma_note_silent_at_end(n: Note, q: Val)
    requires
        q == note_end_val(n),
    ensures
        !note_plays_at(n, q),
{
}

} // verus!
