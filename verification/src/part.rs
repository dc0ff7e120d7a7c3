//! A named voice: an insertion-ordered list of notes, at most one of which
//! sounds at any beat.

use vstd::prelude::*;
use vstd::arithmetic::power2::*;
use crate::note::{Note, note_end_val, note_plays_at, note_plays_at_rat};
use crate::scalar::{
    Scalar, Val, val_of_bits, val_lt, sval, mag_of, scalar_canonical, scalar_from_bits, scalar_lt,
};

verus! {

/// A named voice of a song.
#[derive(PartialEq, Eq, Debug)]
pub struct Part {
    /// The voice's name, as the bytes the song format stores.
    pub name: Vec<u8>,
    /// Its notes, in insertion order.
    pub notes: Vec<Note>,
}

pub ghost struct PartView {
    pub name: Seq<u8>,
    pub notes: Seq<Note>,
}

impl View for Part {
    type V = PartView;

    open spec fn view(&self) -> PartView {
        PartView { name: self.name@, notes: self.notes@ }
    }
}

/// The placement failure: a note whose boundaries land inside another
/// note's play window.
#[derive(Clone, Copy, PartialEq, Eq, Structural, Debug)]
pub struct OverlapError;

/// Whether an already placed note keeps `n` out: `n` starts or ends
/// strictly inside `existing`'s play window.  The check mirrors the
/// placement rule exactly; a note that swallows an existing note whole
/// without touching its boundaries is not caught by it.
pub open spec fn note_blocks(existing: Note, n: Note) -> bool {
    note_plays_at(existing, val_of_bits(n.beat)) || note_plays_at(existing, note_end_val(n))
}

pub open spec fn some_note_blocks(notes: Seq<Note>, n: Note) -> bool {
    exists|i: int| 0 <= i < notes.len() && note_blocks(#[trigger] notes[i], n)
}

/// The exact end of the latest-ending note, `0` for an empty list; a
/// not-a-number end never wins the comparison, as in the source ordering.
pub open spec fn part_duration_val(notes: Seq<Note>) -> Val
    decreases notes.len(),
{
    if notes.len() == 0 {
        Val::Fin(0)
    } else {
        let prev = part_duration_val(notes.drop_last());
        let last = note_end_val(notes.last());
        if val_lt(prev, last) {
            last
        } else {
            prev
        }
    }
}

impl Part {
    /// An empty voice under the given name.
    pub fn new(name: Vec<u8>) -> (r: Part)
        ensures
            r@.name == name@,
            r@.notes == Seq::<Note>::empty(),
    {
        let r = Part { name, notes: Vec::new() };
        proof {
            assert(r@.notes =~= Seq::<Note>::empty());
        }
        r
    }

    /// The first note, in insertion order, sounding at the beat whose
    /// pattern is `beat`; nothing when no note sounds there.
    pub fn has_note_at_beat(&self, beat: u32) -> (r: Option<usize>)
        ensures
            match r {
                Some(i) => i < self@.notes.len() && note_plays_at(
                    self@.notes[i as int],
                    val_of_bits(beat),
                ) && forall|j: int|
                    0 <= j < i ==> !note_plays_at(#[trigger] self@.notes[j], val_of_bits(beat)),
                None => forall|j: int|
                    0 <= j < self@.notes.len() ==> !note_plays_at(
                        #[trigger] self@.notes[j],
                        val_of_bits(beat),
                    ),
            },
    {
        let q = scalar_from_bits(beat);
        let mut i: usize = 0;
        while i < self.notes.len()
            invariant
                i <= self@.notes.len(),
                sval(q) == val_of_bits(beat),
                forall|j: int|
                    0 <= j < i ==> !note_plays_at(#[trigger] self@.notes[j], val_of_bits(beat)),
            decreases self@.notes.len() - i,
        {
            if self.notes[i].plays_at_val(&q) {
                return Some(i);
            }
            i = i + 1;
        }
        None
    }

    /// The first note, in insertion order, sounding at the rational beat
    /// `num / den`; nothing when no note sounds there.
    pub fn has_note_at_rat(&self, num: u128, den: u64) -> (r: Option<usize>)
        requires
            1 <= den,
            den < pow2(40),
        ensures
            match r {
                Some(i) => i < self@.notes.len() && note_plays_at_rat(
                    self@.notes[i as int],
                    num as int,
                    den as int,
                ) && forall|j: int|
                    0 <= j < i ==> !note_plays_at_rat(
                        #[trigger] self@.notes[j],
                        num as int,
                        den as int,
                    ),
                None => forall|j: int|
                    0 <= j < self@.notes.len() ==> !note_plays_at_rat(
                        #[trigger] self@.notes[j],
                        num as int,
                        den as int,
                    ),
            },
    {
        let mut i: usize = 0;
        while i < self.notes.len()
            invariant
                1 <= den,
                den < pow2(40),
                i <= self@.notes.len(),
                forall|j: int|
                    0 <= j < i ==> !note_plays_at_rat(
                        #[trigger] self@.notes[j],
                        num as int,
                        den as int,
                    ),
            decreases self@.notes.len() - i,
        {
            if self.notes[i].plays_at_rat(num, den) {
                return Some(i);
            }
            i = i + 1;
        }
        None
    }

    /// Place a note.  Placement fails exactly when the note's start or its
    /// exact end lands inside some already placed note's play window; on
    /// success the note goes to the end of the list.
    pub fn add_note(&mut self, note: Note) -> (r: Result<(), OverlapError>)
        ensures
            r is Ok <==> !some_note_blocks(old(self)@.notes, note),
            r is Ok ==> final(self)@.name == old(self)@.name && final(self)@.notes == old(
                self,
            )@.notes.push(note),
            r is Err ==> final(self)@ == old(self)@,
    {
        let end = note.end_beat();
        let mut i: usize = 0;
        while i < self.notes.len()
            invariant
                i <= self@.notes.len(),
                self == old(self),
                forall|j: int| 0 <= j < i ==> !note_blocks(#[trigger] self@.notes[j], note),
                sval(end) == note_end_val(note),
            decreases self@.notes.len() - i,
        {
            let existing = self.notes[i];
            if existing.plays_at(note.beat) || existing.plays_at_val(&end) {
                return Err(OverlapError);
            }
            i = i + 1;
        }
        self.notes.push(note);
        Ok(())
    }

    /// The exact beat the voice falls silent: the largest note end under
    /// the exact order, `0` when the voice is empty.
    pub fn duration(&self) -> (r: Scalar)
        ensures
            sval(r) == part_duration_val(self@.notes),
            scalar_canonical(r),
            mag_of(r) < pow2(278),
    {
        proof {
            lemma_pow2_pos(278);
        }
        let mut acc = scalar_from_bits(0);
        let mut i: usize = 0;
        proof {
            assert(self@.notes.subrange(0, 0) =~= Seq::<Note>::empty());
        }
        while i < self.notes.len()
            invariant
                i <= self@.notes.len(),
                sval(acc) == part_duration_val(self@.notes.subrange(0, i as int)),
                scalar_canonical(acc),
                mag_of(acc) < pow2(278),
            decreases self@.notes.len() - i,
        {
            let end = self.notes[i].end_beat();
            if scalar_lt(&acc, &end) {
                acc = end;
            }
            proof {
                let sub = self@.notes.subrange(0, i + 1);
                assert(sub.drop_last() =~= self@.notes.subrange(0, i as int));
                assert(sub.last() == self@.notes[i as int]);
            }
            i = i + 1;
        }
        proof {
            assert(self@.notes.subrange(0, self@.notes.len() as int) =~= self@.notes);
        }
        acc
    }
}

impl Default for Part {
    /// The demonstration melody: three notes over the first three beats.
    fn default() -> (r: Part)
        ensures
            r@.name == seq![77u8, 101u8, 108u8, 111u8, 100u8, 121u8],
            r@.notes == seq![
                (Note {
                    beat: 0u32,
                    duration: 0x3f80_0000u32,
                    frequency: 0x43dc_0000u32,
                    volume: 0x3f00_0000u32,
                }),
                (Note {
                    beat: 0x3f80_0000u32,
                    duration: 0x3f80_0000u32,
                    frequency: 0x43dc_0000u32,
                    volume: 0x3f00_0000u32,
                }),
                (Note {
                    beat: 0x4000_0000u32,
                    duration: 0x3f80_0000u32,
                    frequency: 0x4392_feb8u32,
                    volume: 0x3f00_0000u32,
                }),
            ],
    {
        let r = Part {
            name: vec![77u8, 101, 108, 111, 100, 121],
            notes: vec![
                Note {
                    beat: 0,
                    duration: 0x3f80_0000,
                    frequency: 0x43dc_0000,
                    volume: 0x3f00_0000,
                },
                Note {
                    beat: 0x3f80_0000,
                    duration: 0x3f80_0000,
                    frequency: 0x43dc_0000,
                    volume: 0x3f00_0000,
                },
                Note {
                    beat: 0x4000_0000,
                    duration: 0x3f80_0000,
                    frequency: 0x4392_feb8,
                    volume: 0x3f00_0000,
                },
            ],
        };
        proof {
            assert(r@.name =~= seq![77u8, 101u8, 108u8, 111u8, 100u8, 121u8]);
            assert(r@.notes =~= seq![
                (Note {
                    beat: 0u32,
                    duration: 0x3f80_0000u32,
                    frequency: 0x43dc_0000u32,
                    volume: 0x3f00_0000u32,
                }),
                (Note {
                    beat: 0x3f80_0000u32,
                    duration: 0x3f80_0000u32,
                    frequency: 0x43dc_0000u32,
                    volume: 0x3f00_0000u32,
                }),
                (Note {
                    beat: 0x4000_0000u32,
                    duration: 0x3f80_0000u32,
                    frequency: 0x4392_feb8u32,
                    volume: 0x3f00_0000u32,
                }),
            ]);
        }
        r
    }
}

/// The duration of a list of notes is, in the exact order, not below any
/// note's end, and is either zero or itself one of the note ends.
pub proof fn lemma_part_duration_is_max(notes: Seq<Note>)
    ensures
        forall|i: int|
            0 <= i < notes.len() ==> !val_lt(
                part_duration_val(notes),
                note_end_val(#[trigger] notes[i]),
            ),
        part_duration_val(notes) == Val::Fin(0) || exists|i: int|
            0 <= i < notes.len() && part_duration_val(notes) == note_end_val(#[trigger] notes[i]),
    decreases notes.len(),
{
    if notes.len() > 0 {
        lemma_part_duration_is_max(notes.drop_last());
        let prev = part_duration_val(notes.drop_last());
        let last = note_end_val(notes.last());
        assert(notes.last() == notes[notes.len() - 1]);
        assert(forall|i: int| 0 <= i < notes.len() - 1 ==> notes.drop_last()[i] == notes[i]);
    }
}

} // verus!
