//! The binary song format: a self-describing, length-prefixed,
//! little-endian encoding of notes, parts and songs, with a defensive
//! decoder that checks every length before it reads.

use vstd::prelude::*;
use vstd::slice::{slice_index_get, slice_subrange};
use crate::bytes::{u16_le, u32_le, push_u16_le, push_u32_le};
use crate::note::Note;
use crate::part::{Part, PartView};
use crate::song::{Song, SongView};

verus! {

/// A failure of encoding: a field that cannot fit its length prefix.
#[derive(Clone, Copy, PartialEq, Eq, Structural, Debug)]
pub enum EncodeError {
    /// A name longer than a 16-bit length field can say.
    NameTooLong,
    /// More notes in one part than a 16-bit count can say.
    TooManyNotes,
    /// More parts in one song than a 16-bit count can say.
    TooManyParts,
    /// One part's encoding longer than its 16-bit size field can say.
    PartTooLarge,
}

/// The sixteen bytes of one note: its four patterns, little-endian.
pub open spec fn note_bytes(n: Note) -> Seq<u8> {
    u32_le(n.beat) + u32_le(n.duration) + u32_le(n.frequency) + u32_le(n.volume)
}

/// The notes of a part, encoded one after the other.
pub open spec fn notes_bytes(s: Seq<Note>) -> Seq<u8>
    decreases s.len(),
{
    if s.len() == 0 {
        Seq::empty()
    } else {
        note_bytes(s[0]) + notes_bytes(s.skip(1))
    }
}

pub proof fn lemma_notes_bytes_push(s: Seq<Note>, n: Note)
    ensures
        notes_bytes(s.push(n)) == notes_bytes(s) + note_bytes(n),
    decreases s.len(),
{
    if s.len() == 0 {
        assert(s.push(n)[0] == n);
        assert(s.push(n).skip(1) =~= Seq::<Note>::empty());
        assert(notes_bytes(s.push(n).skip(1)) =~= Seq::<u8>::empty());
        assert(notes_bytes(s) =~= Seq::<u8>::empty());
        assert(notes_bytes(s.push(n)) =~= notes_bytes(s) + note_bytes(n));
    } else {
        lemma_notes_bytes_push(s.skip(1), n);
        assert(s.push(n).skip(1) =~= s.skip(1).push(n));
        assert(s.push(n)[0] == s[0]);
        assert(notes_bytes(s.push(n)) == note_bytes(s[0]) + notes_bytes(s.skip(1).push(n)));
        assert(notes_bytes(s.push(n)) =~= notes_bytes(s) + note_bytes(n));
    }
}

/// Why a part alone cannot encode, if it cannot.
pub open spec fn part_err(p: PartView) -> Option<EncodeError> {
    if p.name.len() > 0xffff {
        Some(EncodeError::NameTooLong)
    } else if p.notes.len() > 0xffff {
        Some(EncodeError::TooManyNotes)
    } else {
        None
    }
}

/// The encoding of one part: name length, name bytes, note count, notes.
pub open spec fn part_bytes(p: PartView) -> Seq<u8> {
    u16_le(p.name.len() as u16) + p.name + u16_le(p.notes.len() as u16) + notes_bytes(p.notes)
}

/// Why a part cannot stand inside a song's encoding, if it cannot: its
/// own failure, or an encoding too large for the size field before it.
pub open spec fn song_part_err(p: PartView) -> Option<EncodeError> {
    match part_err(p) {
        Some(e) => Some(e),
        None => if part_bytes(p).len() > 0xffff {
            Some(EncodeError::PartTooLarge)
        } else {
            None
        },
    }
}

/// The parts of a song, each preceded by its 16-bit encoded size.
pub open spec fn parts_bytes(s: Seq<Part>) -> Seq<u8>
    decreases s.len(),
{
    if s.len() == 0 {
        Seq::empty()
    } else {
        u16_le(part_bytes(s[0]@).len() as u16) + part_bytes(s[0]@) + parts_bytes(s.skip(1))
    }
}

#[verifier::rlimit(50)]
pub proof fn lemma_parts_bytes_push(s: Seq<Part>, p: Part)
    ensures
        parts_bytes(s.push(p)) == parts_bytes(s) + u16_le(part_bytes(p@).len() as u16)
            + part_bytes(p@),
    decreases s.len(),
{
    if s.len() == 0 {
        assert(s.push(p)[0] == p);
        assert(s.push(p).skip(1) =~= Seq::<Part>::empty());
        assert(parts_bytes(s.push(p).skip(1)) =~= Seq::<u8>::empty());
        assert(parts_bytes(s) =~= Seq::<u8>::empty());
        assert(parts_bytes(s.push(p)) =~= parts_bytes(s) + u16_le(part_bytes(p@).len() as u16)
            + part_bytes(p@));
    } else {
        lemma_parts_bytes_push(s.skip(1), p);
        assert(s.push(p).skip(1) =~= s.skip(1).push(p));
        assert(s.push(p)[0] == s[0]);
        assert(parts_bytes(s.push(p)) == u16_le(part_bytes(s[0]@).len() as u16)
            + part_bytes(s[0]@) + parts_bytes(s.skip(1).push(p)));
        assert(parts_bytes(s.push(p)) =~= parts_bytes(s) + u16_le(part_bytes(p@).len() as u16)
            + part_bytes(p@));
    }
}

/// The first reason, in part order, that some part cannot stand in the
/// song's encoding; nothing when all parts can.
pub open spec fn first_bad_part(s: Seq<Part>) -> Option<EncodeError>
    decreases s.len(),
{
    if s.len() == 0 {
        None
    } else {
        match song_part_err(s[0]@) {
            Some(e) => Some(e),
            None => first_bad_part(s.skip(1)),
        }
    }
}

pub proof fn lemma_first_bad_part_char(s: Seq<Part>)
    ensures
        match first_bad_part(s) {
            None => forall|j: int| 0 <= j < s.len() ==> song_part_err(#[trigger] s[j]@) is None,
            Some(e) => exists|i: int|
                0 <= i < s.len() && song_part_err(#[trigger] s[i]@) == Some(e) && forall|j: int|
                    0 <= j < i ==> song_part_err(#[trigger] s[j]@) is None,
        },
    decreases s.len(),
{
    if s.len() > 0 && song_part_err(s[0]@) is None {
        let rest = s.skip(1);
        lemma_first_bad_part_char(rest);
        assert(forall|k: int| 1 <= k < s.len() ==> #[trigger] s[k] == rest[k - 1]);
        match first_bad_part(rest) {
            Option::None => {},
            Option::Some(e) => {
                let i = choose|i: int|
                    0 <= i < rest.len() && song_part_err(#[trigger] rest[i]@) == Some(e) && forall|
                        j: int,
                    | 0 <= j < i ==> song_part_err(#[trigger] rest[j]@) is None;
                assert(song_part_err(s[i + 1]@) == Some(e));
                assert(forall|j: int| 0 <= j < i + 1 ==> song_part_err(#[trigger] s[j]@) is None);
            },
        }
    }
}

/// Whether the whole song fits the format's length and count fields.
pub open spec fn song_encodable(s: SongView) -> bool {
    s.name.len() <= 0xffff && s.parts.len() <= 0xffff && first_bad_part(s.parts) is None
}

/// The encoding of a song: name length, name bytes, tempo, part count,
/// then each part behind its size field.
pub open spec fn song_bytes(s: SongView) -> Seq<u8> {
    u16_le(s.name.len() as u16) + s.name + u16_le(s.bpm) + u16_le(s.parts.len() as u16)
        + parts_bytes(s.parts)
}

/// The first reason a song cannot encode, in the order the checks run.
pub open spec fn song_encode_err(s: SongView) -> EncodeError {
    if s.name.len() > 0xffff {
        EncodeError::NameTooLong
    } else if s.parts.len() > 0xffff {
        EncodeError::TooManyParts
    } else {
        match first_bad_part(s.parts) {
            Some(e) => e,
            None => EncodeError::NameTooLong,
        }
    }
}

/// A failure of decoding: a buffer too short at some field boundary.
/// Each boundary has its own kind, and decoding stops at the first.
#[derive(Clone, Copy, PartialEq, Eq, Structural, Debug)]
pub enum DecodeError {
    /// Too few bytes for a name's length field.
    MissingNameLen,
    /// Too few bytes for the name the length field announced.
    MissingName,
    /// Too few bytes for the tempo field.
    MissingTempo,
    /// Too few bytes for a count field.
    MissingCount,
    /// Too few bytes for a part's size field.
    MissingPartLen,
    /// Too few bytes for the part its size field announced.
    MissingPart,
    /// Too few bytes for a note inside a part.
    MissingNote,
    /// A note decoded alone from other than exactly sixteen bytes.
    NoteLengthMismatch,
}

/// The 16-bit value at byte offset `i`, little-endian.
pub open spec fn u16_at(d: Seq<u8>, i: int) -> u16 {
    (d[i] + 256 * d[i + 1]) as u16
}

/// The 32-bit value at byte offset `i`, little-endian.
pub open spec fn u32_at(d: Seq<u8>, i: int) -> u32 {
    (d[i] + 256 * d[i + 1] + 0x1_0000 * d[i + 2] + 0x100_0000 * d[i + 3]) as u32
}

/// The note whose sixteen bytes start at offset `i`.
pub open spec fn note_at(d: Seq<u8>, i: int) -> Note {
    Note {
        beat: u32_at(d, i),
        duration: u32_at(d, i + 4),
        frequency: u32_at(d, i + 8),
        volume: u32_at(d, i + 12),
    }
}

/// What decoding a standalone note yields: the sixteen bytes, exactly.
pub open spec fn decode_note_spec(d: Seq<u8>) -> Result<Note, DecodeError> {
    if d.len() != 16 {
        Err(DecodeError::NoteLengthMismatch)
    } else {
        Ok(note_at(d, 0))
    }
}

/// What decoding `n` consecutive notes from the front of `d` yields.
pub open spec fn decode_notes_spec(d: Seq<u8>, n: int) -> Result<Seq<Note>, DecodeError>
    decreases n,
{
    if n <= 0 {
        Ok(Seq::empty())
    } else if d.len() < 16 {
        Err(DecodeError::MissingNote)
    } else {
        match decode_notes_spec(d.skip(16), n - 1) {
            Err(e) => Err(e),
            Ok(rest) => Ok(seq![note_at(d, 0)] + rest),
        }
    }
}

/// What decoding a part yields: every length is checked before any read,
/// and bytes beyond the announced notes are ignored.
pub open spec fn decode_part_spec(d: Seq<u8>) -> Result<PartView, DecodeError> {
    if d.len() < 2 {
        Err(DecodeError::MissingNameLen)
    } else {
        let nl = u16_at(d, 0) as int;
        if d.len() < 2 + nl {
            Err(DecodeError::MissingName)
        } else if d.len() < 4 + nl {
            Err(DecodeError::MissingCount)
        } else {
            let n = u16_at(d, 2 + nl) as int;
            match decode_notes_spec(d.skip(4 + nl), n) {
                Err(e) => Err(e),
                Ok(notes) => Ok(PartView { name: d.subrange(2, 2 + nl), notes }),
            }
        }
    }
}

/// What decoding `n` size-prefixed parts from the front of `d` yields.
pub open spec fn decode_parts_spec(d: Seq<u8>, n: int) -> Result<Seq<PartView>, DecodeError>
    decreases n,
{
    if n <= 0 {
        Ok(Seq::empty())
    } else if d.len() < 2 {
        Err(DecodeError::MissingPartLen)
    } else {
        let size = u16_at(d, 0) as int;
        if d.len() < 2 + size {
            Err(DecodeError::MissingPart)
        } else {
            match decode_part_spec(d.subrange(2, 2 + size)) {
                Err(e) => Err(e),
                Ok(p) => match decode_parts_spec(d.skip(2 + size), n - 1) {
                    Err(e) => Err(e),
                    Ok(rest) => Ok(seq![p] + rest),
                },
            }
        }
    }
}

/// A decoded song, as the plain data the bytes carry.
pub ghost struct SongData {
    pub name: Seq<u8>,
    pub bpm: u16,
    pub parts: Seq<PartView>,
}

/// The same data a built song carries.
pub open spec fn song_data_of(s: SongView) -> SongData {
    SongData { name: s.name, bpm: s.bpm, parts: s.parts.map_values(|p: Part| p@) }
}

/// What decoding a song yields: every length is checked before any read,
/// and bytes beyond the announced parts are ignored.
pub open spec fn decode_song_spec(d: Seq<u8>) -> Result<SongData, DecodeError> {
    if d.len() < 2 {
        Err(DecodeError::MissingNameLen)
    } else {
        let nl = u16_at(d, 0) as int;
        if d.len() < 2 + nl {
            Err(DecodeError::MissingName)
        } else if d.len() < 4 + nl {
            Err(DecodeError::MissingTempo)
        } else if d.len() < 6 + nl {
            Err(DecodeError::MissingCount)
        } else {
            let n = u16_at(d, 4 + nl) as int;
            match decode_parts_spec(d.skip(6 + nl), n) {
                Err(e) => Err(e),
                Ok(parts) => Ok(
                    SongData { name: d.subrange(2, 2 + nl), bpm: u16_at(d, 2 + nl), parts },
                ),
            }
        }
    }
}

impl Note {
    /// The sixteen bytes of this note.  Encoding a note alone never fails.
    pub fn serialize(&self) -> (r: Result<Vec<u8>, EncodeError>)
        ensures
            r matches Ok(b) && b@ == note_bytes(*self),
    {
        let mut v: Vec<u8> = Vec::new();
        push_u32_le(&mut v, self.beat);
        push_u32_le(&mut v, self.duration);
        push_u32_le(&mut v, self.frequency);
        push_u32_le(&mut v, self.volume);
        proof {
            assert(v@ =~= note_bytes(*self));
        }
        Ok(v)
    }
}

impl Part {
    /// The encoding of this part.  Fails exactly when the name or the
    /// note count cannot fit its 16-bit field.
    pub fn serialize(&self) -> (r: Result<Vec<u8>, EncodeError>)
        ensures
            r is Ok <==> part_err(self@) is None,
            r matches Ok(b) ==> b@ == part_bytes(self@),
            r matches Err(e) ==> Some(e) == part_err(self@),
    {
        if self.name.len() > 0xffff {
            return Err(EncodeError::NameTooLong);
        }
        if self.notes.len() > 0xffff {
            return Err(EncodeError::TooManyNotes);
        }
        let mut v: Vec<u8> = Vec::new();
        push_u16_le(&mut v, self.name.len() as u16);
        let mut i: usize = 0;
        while i < self.name.len()
            invariant
                i <= self@.name.len(),
                self@.name.len() <= 0xffff,
                v@ == u16_le(self@.name.len() as u16) + self@.name.subrange(0, i as int),
            decreases self@.name.len() - i,
        {
            v.push(self.name[i]);
            proof {
                assert(v@ =~= u16_le(self@.name.len() as u16) + self@.name.subrange(0, i + 1));
            }
            i = i + 1;
        }
        proof {
            assert(self@.name.subrange(0, self@.name.len() as int) =~= self@.name);
        }
        push_u16_le(&mut v, self.notes.len() as u16);
        proof {
            assert(self@.notes.subrange(0, 0) =~= Seq::<Note>::empty());
            assert(v@ =~= u16_le(self@.name.len() as u16) + self@.name + u16_le(
                self@.notes.len() as u16,
            ) + notes_bytes(self@.notes.subrange(0, 0)));
        }
        let mut j: usize = 0;
        while j < self.notes.len()
            invariant
                j <= self@.notes.len(),
                self@.notes.len() <= 0xffff,
                self@.name.len() <= 0xffff,
                v@ == u16_le(self@.name.len() as u16) + self@.name + u16_le(
                    self@.notes.len() as u16,
                ) + notes_bytes(self@.notes.subrange(0, j as int)),
            decreases self@.notes.len() - j,
        {
            let nb = match self.notes[j].serialize() {
                Ok(b) => b,
                Err(_) => {
                    proof {
                        assert(false);
                    }
                    Vec::new()
                },
            };
            let mut k: usize = 0;
            while k < nb.len()
                invariant
                    k <= nb@.len(),
                    v@ == u16_le(self@.name.len() as u16) + self@.name + u16_le(
                        self@.notes.len() as u16,
                    ) + notes_bytes(self@.notes.subrange(0, j as int)) + nb@.subrange(0, k as int),
                decreases nb@.len() - k,
            {
                v.push(nb[k]);
                proof {
                    assert(v@ =~= u16_le(self@.name.len() as u16) + self@.name + u16_le(
                        self@.notes.len() as u16,
                    ) + notes_bytes(self@.notes.subrange(0, j as int)) + nb@.subrange(0, k + 1));
                }
                k = k + 1;
            }
            proof {
                assert(nb@.subrange(0, nb@.len() as int) =~= nb@);
                lemma_notes_bytes_push(self@.notes.subrange(0, j as int), self@.notes[j as int]);
                assert(self@.notes.subrange(0, j as int).push(self@.notes[j as int])
                    =~= self@.notes.subrange(0, j + 1));
                assert(v@ =~= u16_le(self@.name.len() as u16) + self@.name + u16_le(
                    self@.notes.len() as u16,
                ) + notes_bytes(self@.notes.subrange(0, j + 1)));
            }
            j = j + 1;
        }
        proof {
            assert(self@.notes.subrange(0, self@.notes.len() as int) =~= self@.notes);
        }
        Ok(v)
    }
}

impl Song {
    /// The encoding of this song.  Fails exactly when its own name, its
    /// part count, or one of its parts cannot fit the format's fields,
    /// with the first such failure in checking order.
    pub fn serialize(&self) -> (r: Result<Vec<u8>, EncodeError>)
        ensures
            r is Ok <==> song_encodable(self@),
            r matches Ok(b) ==> b@ == song_bytes(self@),
            r matches Err(e) ==> !song_encodable(self@) && e == song_encode_err(self@),
    {
        if self.name.len() > 0xffff {
            proof {
                lemma_first_bad_part_char(self@.parts);
            }
            return Err(EncodeError::NameTooLong);
        }
        if self.parts.len() > 0xffff {
            proof {
                lemma_first_bad_part_char(self@.parts);
            }
            return Err(EncodeError::TooManyParts);
        }
        let mut v: Vec<u8> = Vec::new();
        push_u16_le(&mut v, self.name.len() as u16);
        let mut i: usize = 0;
        while i < self.name.len()
            invariant
                i <= self@.name.len(),
                self@.name.len() <= 0xffff,
                v@ == u16_le(self@.name.len() as u16) + self@.name.subrange(0, i as int),
            decreases self@.name.len() - i,
        {
            v.push(self.name[i]);
            proof {
                assert(v@ =~= u16_le(self@.name.len() as u16) + self@.name.subrange(0, i + 1));
            }
            i = i + 1;
        }
        proof {
            assert(self@.name.subrange(0, self@.name.len() as int) =~= self@.name);
        }
        push_u16_le(&mut v, self.bpm);
        push_u16_le(&mut v, self.parts.len() as u16);
        proof {
            assert(self@.parts.subrange(0, 0) =~= Seq::<Part>::empty());
            assert(v@ =~= u16_le(self@.name.len() as u16) + self@.name + u16_le(self@.bpm)
                + u16_le(self@.parts.len() as u16) + parts_bytes(self@.parts.subrange(0, 0)));
        }
        let mut p: usize = 0;
        while p < self.parts.len()
            invariant
                p <= self@.parts.len(),
                self@.name.len() <= 0xffff,
                self@.parts.len() <= 0xffff,
                forall|t: int| 0 <= t < p ==> song_part_err(#[trigger] self@.parts[t]@) is None,
                v@ == u16_le(self@.name.len() as u16) + self@.name + u16_le(self@.bpm) + u16_le(
                    self@.parts.len() as u16,
                ) + parts_bytes(self@.parts.subrange(0, p as int)),
            decreases self@.parts.len() - p,
        {
            proof {
                lemma_first_bad_part_char(self@.parts);
            }
            let pb = match self.parts[p].serialize() {
                Ok(b) => b,
                Err(e) => {
                    return Err(e);
                },
            };
            if pb.len() > 0xffff {
                return Err(EncodeError::PartTooLarge);
            }
            push_u16_le(&mut v, pb.len() as u16);
            let mut k: usize = 0;
            while k < pb.len()
                invariant
                    k <= pb@.len(),
                    v@ == u16_le(self@.name.len() as u16) + self@.name + u16_le(self@.bpm)
                        + u16_le(self@.parts.len() as u16) + parts_bytes(
                        self@.parts.subrange(0, p as int),
                    ) + u16_le(pb@.len() as u16) + pb@.subrange(0, k as int),
                decreases pb@.len() - k,
            {
                v.push(pb[k]);
                proof {
                    assert(v@ =~= u16_le(self@.name.len() as u16) + self@.name + u16_le(self@.bpm)
                        + u16_le(self@.parts.len() as u16) + parts_bytes(
                        self@.parts.subrange(0, p as int),
                    ) + u16_le(pb@.len() as u16) + pb@.subrange(0, k + 1));
                }
                k = k + 1;
            }
            proof {
                assert(pb@.subrange(0, pb@.len() as int) =~= pb@);
                lemma_parts_bytes_push(self@.parts.subrange(0, p as int), self@.parts[p as int]);
                assert(self@.parts.subrange(0, p as int).push(self@.parts[p as int])
                    =~= self@.parts.subrange(0, p + 1));
                assert(v@ =~= u16_le(self@.name.len() as u16) + self@.name + u16_le(self@.bpm)
                    + u16_le(self@.parts.len() as u16) + parts_bytes(
                    self@.parts.subrange(0, p + 1),
                ));
            }
            p = p + 1;
        }
        proof {
            assert(self@.parts.subrange(0, self@.parts.len() as int) =~= self@.parts);
            lemma_first_bad_part_char(self@.parts);
        }
        Ok(v)
    }
}

/// The 16-bit value at byte offset `off` of the buffer.
fn read_u16_at(data: &[u8], off: usize) -> (r: u16)
    requires
        off + 2 <= data@.len(),
    ensures
        r == u16_at(data@, off as int),
{
    let _n: usize = data.len();
    crate::bytes::u16_from_le(*slice_index_get(data, off), *slice_index_get(data, off + 1))
}

/// The note whose sixteen bytes start at offset `off` of the buffer.
fn read_note_at(data: &[u8], off: usize) -> (r: Note)
    requires
        off + 16 <= data@.len(),
    ensures
        r == note_at(data@, off as int),
{
    let _n: usize = data.len();
    let beat = crate::bytes::u32_from_le(
        *slice_index_get(data, off),
        *slice_index_get(data, off + 1),
        *slice_index_get(data, off + 2),
        *slice_index_get(data, off + 3),
    );
    let duration = crate::bytes::u32_from_le(
        *slice_index_get(data, off + 4),
        *slice_index_get(data, off + 5),
        *slice_index_get(data, off + 6),
        *slice_index_get(data, off + 7),
    );
    let frequency = crate::bytes::u32_from_le(
        *slice_index_get(data, off + 8),
        *slice_index_get(data, off + 9),
        *slice_index_get(data, off + 10),
        *slice_index_get(data, off + 11),
    );
    let volume = crate::bytes::u32_from_le(
        *slice_index_get(data, off + 12),
        *slice_index_get(data, off + 13),
        *slice_index_get(data, off + 14),
        *slice_index_get(data, off + 15),
    );
    Note { beat, duration, frequency, volume }
}

impl Note {
    /// A note from exactly sixteen bytes; any other length is refused.
    pub fn deserialize(data: &[u8]) -> (r: Result<Note, DecodeError>)
        ensures
            r == decode_note_spec(data@),
    {
        if data.len() != 16 {
            return Err(DecodeError::NoteLengthMismatch);
        }
        Ok(read_note_at(data, 0))
    }
}

impl Part {
    /// A part from the front of a buffer.  Every length is checked
    /// before any read; the first insufficiency is the error.  Bytes
    /// beyond the announced notes are ignored.
    #[verifier::rlimit(100)]
    pub fn deserialize(data: &[u8]) -> (r: Result<Part, DecodeError>)
        ensures
            ({
                let sp = decode_part_spec(data@);
                match r {
                    Ok(p) => sp == Result::<PartView, DecodeError>::Ok(p@),
                    Err(e) => sp == Result::<PartView, DecodeError>::Err(e),
                }
            }),
    {
        if data.len() < 2 {
            return Err(DecodeError::MissingNameLen);
        }
        let name_len = read_u16_at(data, 0) as usize;
        if data.len() < 2 + name_len {
            return Err(DecodeError::MissingName);
        }
        let mut name: Vec<u8> = Vec::new();
        let mut i: usize = 0;
        while i < name_len
            invariant
                i <= name_len,
                2 + name_len <= data@.len(),
                data@.len() <= usize::MAX,
                name@ == data@.subrange(2, 2 + i as int),
            decreases name_len - i,
        {
            name.push(*slice_index_get(data, 2 + i));
            proof {
                assert(name@ =~= data@.subrange(2, 2 + (i + 1)));
            }
            i = i + 1;
        }
        if data.len() < 4 + name_len {
            return Err(DecodeError::MissingCount);
        }
        let num = read_u16_at(data, 2 + name_len) as usize;
        let start: usize = 4 + name_len;
        let mut notes: Vec<Note> = Vec::new();
        let mut k: usize = 0;
        let mut off: usize = start;
        proof {
            assert(Seq::<Note>::empty() + decode_notes_spec(
                data@.skip(start as int),
                num as int,
            )->Ok_0 =~= decode_notes_spec(data@.skip(start as int), num as int)->Ok_0);
        }
        while k < num
            invariant
                k <= num,
                off == start + 16 * k,
                start == 4 + name_len,
                start <= data@.len(),
                off <= data@.len(),
                data@.len() <= usize::MAX,
                name_len == u16_at(data@, 0),
                num == u16_at(data@, 2 + name_len as int),
                notes@.len() == k,
                ({
                    let whole = decode_notes_spec(data@.skip(start as int), num as int);
                    match decode_notes_spec(data@.skip(off as int), num - k) {
                        Ok(rest) => whole == Result::<Seq<Note>, DecodeError>::Ok(notes@ + rest),
                        Err(e) => whole == Result::<Seq<Note>, DecodeError>::Err(e),
                    }
                }),
            decreases num - k,
        {
            if data.len() - off < 16 {
                proof {
                    assert(data@.skip(off as int).len() < 16);
                }
                return Err(DecodeError::MissingNote);
            }
            let n = read_note_at(data, off);
            proof {
                let cur = data@.skip(off as int);
                assert(cur.len() >= 16);
                assert(note_at(cur, 0) == note_at(data@, off as int)) by {
                    assert(cur[0] == data@[off as int]);
                    assert(cur[1] == data@[off as int + 1]);
                    assert(cur[2] == data@[off as int + 2]);
                    assert(cur[3] == data@[off as int + 3]);
                    assert(cur[4] == data@[off as int + 4]);
                    assert(cur[5] == data@[off as int + 5]);
                    assert(cur[6] == data@[off as int + 6]);
                    assert(cur[7] == data@[off as int + 7]);
                    assert(cur[8] == data@[off as int + 8]);
                    assert(cur[9] == data@[off as int + 9]);
                    assert(cur[10] == data@[off as int + 10]);
                    assert(cur[11] == data@[off as int + 11]);
                    assert(cur[12] == data@[off as int + 12]);
                    assert(cur[13] == data@[off as int + 13]);
                    assert(cur[14] == data@[off as int + 14]);
                    assert(cur[15] == data@[off as int + 15]);
                }
                assert(cur.skip(16) =~= data@.skip(off as int + 16));
                match decode_notes_spec(data@.skip(off as int + 16), num - k - 1) {
                    Result::Ok(rest) => {
                        assert(notes@.push(n) + rest =~= notes@ + (seq![note_at(cur, 0)] + rest));
                    },
                    Result::Err(e) => {},
                }
            }
            notes.push(n);
            off = off + 16;
            k = k + 1;
        }
        proof {
            assert(decode_notes_spec(data@.skip(off as int), 0)
                == Result::<Seq<Note>, DecodeError>::Ok(Seq::empty()));
            assert(notes@ + Seq::<Note>::empty() =~= notes@);
        }
        Ok(Part { name, notes })
    }
}

impl Song {
    /// A song from the front of a buffer.  Every length is checked
    /// before any read; the first insufficiency, at whatever nesting
    /// depth, is the error, and no partial song comes back.  Bytes
    /// beyond the announced parts are ignored.
    #[verifier::rlimit(100)]
    pub fn deserialize(data: &[u8]) -> (r: Result<Song, DecodeError>)
        ensures
            ({
                let sp = decode_song_spec(data@);
                match r {
                    Ok(song) => sp == Result::<SongData, DecodeError>::Ok(song_data_of(song@)),
                    Err(e) => sp == Result::<SongData, DecodeError>::Err(e),
                }
            }),
    {
        if data.len() < 2 {
            return Err(DecodeError::MissingNameLen);
        }
        let name_len = read_u16_at(data, 0) as usize;
        if data.len() < 2 + name_len {
            return Err(DecodeError::MissingName);
        }
        let mut name: Vec<u8> = Vec::new();
        let mut i: usize = 0;
        while i < name_len
            invariant
                i <= name_len,
                2 + name_len <= data@.len(),
                data@.len() <= usize::MAX,
                name@ == data@.subrange(2, 2 + i as int),
            decreases name_len - i,
        {
            name.push(*slice_index_get(data, 2 + i));
            proof {
                assert(name@ =~= data@.subrange(2, 2 + (i + 1)));
            }
            i = i + 1;
        }
        if data.len() < 4 + name_len {
            return Err(DecodeError::MissingTempo);
        }
        let bpm = read_u16_at(data, 2 + name_len);
        if data.len() < 6 + name_len {
            return Err(DecodeError::MissingCount);
        }
        let num = read_u16_at(data, 4 + name_len) as usize;
        let start: usize = 6 + name_len;
        let mut parts: Vec<Part> = Vec::new();
        let mut k: usize = 0;
        let mut off: usize = start;
        proof {
            assert(parts@.map_values(|p: Part| p@) =~= Seq::<PartView>::empty());
            assert(Seq::<PartView>::empty() + decode_parts_spec(
                data@.skip(start as int),
                num as int,
            )->Ok_0 =~= decode_parts_spec(data@.skip(start as int), num as int)->Ok_0);
        }
        while k < num
            invariant
                k <= num,
                start <= off <= data@.len(),
                start == 6 + name_len,
                data@.len() <= usize::MAX,
                name_len == u16_at(data@, 0),
                bpm == u16_at(data@, 2 + name_len as int),
                num == u16_at(data@, 4 + name_len as int),
                parts@.len() == k,
                ({
                    let whole = decode_parts_spec(data@.skip(start as int), num as int);
                    match decode_parts_spec(data@.skip(off as int), num - k) {
                        Ok(rest) => whole == Result::<Seq<PartView>, DecodeError>::Ok(
                            parts@.map_values(|p: Part| p@) + rest,
                        ),
                        Err(e) => whole == Result::<Seq<PartView>, DecodeError>::Err(e),
                    }
                }),
            decreases num - k,
        {
            if data.len() - off < 2 {
                proof {
                    assert(data@.skip(off as int).len() < 2);
                }
                return Err(DecodeError::MissingPartLen);
            }
            let size = read_u16_at(data, off) as usize;
            proof {
                let cur = data@.skip(off as int);
                assert(cur[0] == data@[off as int]);
                assert(cur[1] == data@[off as int + 1]);
                assert(u16_at(cur, 0) == u16_at(data@, off as int));
            }
            if data.len() - off < 2 + size {
                proof {
                    assert(data@.skip(off as int).len() < 2 + size);
                }
                return Err(DecodeError::MissingPart);
            }
            let pb = slice_subrange(data, off + 2, off + 2 + size);
            proof {
                let cur = data@.skip(off as int);
                assert(pb@ =~= cur.subrange(2, 2 + size as int));
            }
            let p = match Part::deserialize(pb) {
                Ok(p) => p,
                Err(e) => {
                    return Err(e);
                },
            };
            proof {
                let cur = data@.skip(off as int);
                assert(cur.skip(2 + size as int) =~= data@.skip(off as int + 2 + size as int));
                match decode_parts_spec(data@.skip(off as int + 2 + size as int), num - k - 1) {
                    Result::Ok(rest) => {
                        assert((parts@.push(p)).map_values(|q: Part| q@) =~= parts@.map_values(
                            |q: Part| q@,
                        ).push(p@));
                        assert(parts@.map_values(|q: Part| q@).push(p@) + rest
                            =~= parts@.map_values(|q: Part| q@) + (seq![p@] + rest));
                    },
                    Result::Err(e) => {},
                }
            }
            parts.push(p);
            off = off + 2 + size;
            k = k + 1;
        }
        proof {
            assert(decode_parts_spec(data@.skip(off as int), 0)
                == Result::<Seq<PartView>, DecodeError>::Ok(Seq::empty()));
            assert(parts@.map_values(|p: Part| p@) + Seq::<PartView>::empty() =~= parts@.map_values(
                |p: Part| p@,
            ));
        }
        Ok(Song { name, bpm, parts })
    }
}

proof fn lemma_u16_recompose(x: u16)
    ensures
        x == x as int % 256 + 256 * (x as int / 256),
        x as int / 256 < 256,
{
    vstd::arithmetic::div_mod::lemma_fundamental_div_mod(x as int, 256);
}

proof fn lemma_u32_recompose(x: u32)
    ensures
        x == x as int % 256 + 256 * ((x as int / 256) % 256) + 0x1_0000 * ((x as int / 0x1_0000)
            % 256) + 0x100_0000 * (x as int / 0x100_0000),
        x as int / 0x100_0000 < 256,
{
    vstd::arithmetic::div_mod::lemma_fundamental_div_mod(x as int, 256);
    vstd::arithmetic::div_mod::lemma_fundamental_div_mod(x as int / 256, 256);
    vstd::arithmetic::div_mod::lemma_fundamental_div_mod(x as int / 0x1_0000, 256);
    vstd::arithmetic::div_mod::lemma_div_denominator(x as int, 256, 256);
    vstd::arithmetic::div_mod::lemma_div_denominator(x as int, 0x1_0000, 256);
}

/// Reading sixteen bytes that are a note's encoding gives that note back.
proof fn lemma_note_at_bytes(d: Seq<u8>, i: int, n: Note)
    requires
        0 <= i,
        i + 16 <= d.len(),
        d.subrange(i, i + 16) == note_bytes(n),
    ensures
        note_at(d, i) == n,
{
    let nb = note_bytes(n);
    assert(forall|j: int| 0 <= j < 16 ==> d[i + j] == #[trigger] nb[j]) by {
        assert(forall|j: int| 0 <= j < 16 ==> #[trigger] nb[j] == d.subrange(i, i + 16)[j]);
    }
    lemma_u32_recompose(n.beat);
    lemma_u32_recompose(n.duration);
    lemma_u32_recompose(n.frequency);
    lemma_u32_recompose(n.volume);
    assert(d[i + 0] == nb[0] && d[i + 1] == nb[1] && d[i + 2] == nb[2] && d[i + 3] == nb[3]);
    assert(d[i + 4] == nb[4] && d[i + 5] == nb[5] && d[i + 6] == nb[6] && d[i + 7] == nb[7]);
    assert(d[i + 8] == nb[8] && d[i + 9] == nb[9] && d[i + 10] == nb[10] && d[i + 11] == nb[11]);
    assert(d[i + 12] == nb[12] && d[i + 13] == nb[13] && d[i + 14] == nb[14] && d[i + 15]
        == nb[15]);
    assert(note_at(d, i).beat == n.beat);
    assert(note_at(d, i).duration == n.duration);
    assert(note_at(d, i).frequency == n.frequency);
    assert(note_at(d, i).volume == n.volume);
}

/// A list of notes encodes to sixteen bytes each.
pub proof fn lemma_notes_bytes_len(s: Seq<Note>)
    ensures
        notes_bytes(s).len() == 16 * s.len(),
    decreases s.len(),
{
    if s.len() > 0 {
        lemma_notes_bytes_len(s.skip(1));
    }
}

/// Decoding an encoded list of notes gives the list back.
#[verifier::rlimit(100)]
#[verifier::spinoff_prover]
proof fn lemma_notes_round_trip(s: Seq<Note>)
    ensures
        decode_notes_spec(notes_bytes(s), s.len() as int) == Result::<
            Seq<Note>,
            DecodeError,
        >::Ok(s),
    decreases s.len(),
{
    let d = notes_bytes(s);
    if s.len() == 0 {
        assert(decode_notes_spec(d, 0) == Result::<Seq<Note>, DecodeError>::Ok(Seq::empty()));
        assert(s =~= Seq::<Note>::empty());
    } else {
        lemma_notes_bytes_len(s);
        lemma_notes_bytes_len(s.skip(1));
        assert(d.len() >= 16);
        assert(d.subrange(0, 16) =~= note_bytes(s[0]));
        lemma_note_at_bytes(d, 0, s[0]);
        assert(d.skip(16) =~= notes_bytes(s.skip(1)));
        lemma_notes_round_trip(s.skip(1));
        assert(seq![note_at(d, 0)] + s.skip(1) =~= s);
    }
}

/// Decoding an encoded part gives the part back.
#[verifier::rlimit(100)]
#[verifier::spinoff_prover]
proof fn lemma_part_round_trip(p: PartView)
    requires
        part_err(p) is None,
    ensures
        decode_part_spec(part_bytes(p)) == Result::<PartView, DecodeError>::Ok(p),
{
    let d = part_bytes(p);
    let nl = p.name.len() as int;
    let num = p.notes.len() as int;
    lemma_notes_bytes_len(p.notes);
    lemma_u16_recompose(p.name.len() as u16);
    lemma_u16_recompose(p.notes.len() as u16);
    assert(d.len() == 4 + nl + 16 * num);
    assert(d[0] == u16_le(p.name.len() as u16)[0]);
    assert(d[1] == u16_le(p.name.len() as u16)[1]);
    assert(u16_at(d, 0) == p.name.len() as u16);
    assert(d[2 + nl] == u16_le(p.notes.len() as u16)[0]);
    assert(d[3 + nl] == u16_le(p.notes.len() as u16)[1]);
    assert(u16_at(d, 2 + nl) == p.notes.len() as u16);
    assert(d.subrange(2, 2 + nl) =~= p.name);
    assert(d.skip(4 + nl) =~= notes_bytes(p.notes));
    lemma_notes_round_trip(p.notes);
    assert(decode_part_spec(d) == Result::<PartView, DecodeError>::Ok(
        PartView { name: d.subrange(2, 2 + nl), notes: p.notes },
    ));
}

/// Decoding an encoded list of size-prefixed parts gives the parts back.
#[verifier::rlimit(100)]
#[verifier::spinoff_prover]
proof fn lemma_parts_round_trip(s: Seq<Part>)
    requires
        forall|i: int| 0 <= i < s.len() ==> song_part_err(#[trigger] s[i]@) is None,
    ensures
        decode_parts_spec(parts_bytes(s), s.len() as int) == Result::<
            Seq<PartView>,
            DecodeError,
        >::Ok(s.map_values(|p: Part| p@)),
    decreases s.len(),
{
    let d = parts_bytes(s);
    if s.len() == 0 {
        assert(s.map_values(|p: Part| p@) =~= Seq::<PartView>::empty());
    } else {
        let pb = part_bytes(s[0]@);
        let size = pb.len() as int;
        assert(song_part_err(s[0]@) is None);
        assert(size <= 0xffff);
        lemma_u16_recompose(pb.len() as u16);
        assert(d[0] == u16_le(pb.len() as u16)[0]);
        assert(d[1] == u16_le(pb.len() as u16)[1]);
        assert(u16_at(d, 0) == pb.len() as u16);
        assert(d.len() >= 2 + size);
        assert(d.subrange(2, 2 + size) =~= pb);
        lemma_part_round_trip(s[0]@);
        assert(d.skip(2 + size) =~= parts_bytes(s.skip(1)));
        assert(forall|i: int| 0 <= i < s.len() - 1 ==> #[trigger] s.skip(1)[i] == s[i + 1]);
        lemma_parts_round_trip(s.skip(1));
        assert(seq![s[0]@] + s.skip(1).map_values(|p: Part| p@) =~= s.map_values(|p: Part| p@));
    }
}

/// Round trip: decoding the encoding of any song that fits the format's
/// length and count fields gives back the same name, the same tempo, and
/// every part's name and every note's four patterns, bit for bit.
#[verifier::rlimit(100)]
#[verifier::spinoff_prover]
pub proof fn lemma_song_round_trip(s: SongView)
    requires
        song_encodable(s),
    ensures
        decode_song_spec(song_bytes(s)) == Result::<SongData, DecodeError>::Ok(song_data_of(s)),
{
    let d = song_bytes(s);
    let nl = s.name.len() as int;
    lemma_u16_recompose(s.name.len() as u16);
    lemma_u16_recompose(s.bpm);
    lemma_u16_recompose(s.parts.len() as u16);
    assert(d.len() == 6 + nl + parts_bytes(s.parts).len());
    assert(d[0] == u16_le(s.name.len() as u16)[0]);
    assert(d[1] == u16_le(s.name.len() as u16)[1]);
    assert(u16_at(d, 0) == s.name.len() as u16);
    assert(d[2 + nl] == u16_le(s.bpm)[0]);
    assert(d[3 + nl] == u16_le(s.bpm)[1]);
    assert(u16_at(d, 2 + nl) == s.bpm);
    assert(d[4 + nl] == u16_le(s.parts.len() as u16)[0]);
    assert(d[5 + nl] == u16_le(s.parts.len() as u16)[1]);
    assert(u16_at(d, 4 + nl) == s.parts.len() as u16);
    assert(d.subrange(2, 2 + nl) =~= s.name);
    assert(d.skip(6 + nl) =~= parts_bytes(s.parts));
    lemma_first_bad_part_char(s.parts);
    lemma_parts_round_trip(s.parts);
}

} // verus!
