//! A named collection of parts with a tempo: duration, sample counting,
//! and the mixing half of audio compilation.

use vstd::prelude::*;
use vstd::arithmetic::power2::*;
use vstd::arithmetic::mul::*;
use vstd::arithmetic::div_mod::*;
use crate::note::{Note, note_plays_at_rat};
use crate::part::{Part, PartView, part_duration_val, lemma_part_duration_is_max};
use crate::scalar::{
    Scalar, Val, val_lt, sval, mag_of, scalar_canonical, scalar_from_bits, scalar_lt,
    lemma_mag_den_fits,
};
use crate::bytes::{i16_le, push_i16_le};
use crate::wav::{wav_header_bytes, spec_wav_header};
use crate::wide::{Wide, wval, wide_limit, wide_mul_u64, wide_div_u64, wide_shr128, wide_fits_u64};

verus! {

/// A song: a named, insertion-ordered collection of parts and a tempo in
/// beats per minute.
#[derive(PartialEq, Eq, Debug)]
pub struct Song {
    /// The song's name, as the bytes the song format stores.
    pub name: Vec<u8>,
    /// Tempo in beats per minute.
    pub bpm: u16,
    /// The voices, in insertion order.
    pub parts: Vec<Part>,
}

pub ghost struct SongView {
    pub name: Seq<u8>,
    pub bpm: u16,
    pub parts: Seq<Part>,
}

impl View for Song {
    type V = SongView;

    open spec fn view(&self) -> SongView {
        SongView { name: self.name@, bpm: self.bpm, parts: self.parts@ }
    }
}

/// The exact duration in beats of a list of parts: the largest part
/// duration under the exact order, `0` when there are no parts.
pub open spec fn song_duration_val(parts: Seq<Part>) -> Val
    decreases parts.len(),
{
    if parts.len() == 0 {
        Val::Fin(0)
    } else {
        let prev = song_duration_val(parts.drop_last());
        let last = part_duration_val(parts.last()@.notes);
        if val_lt(prev, last) {
            last
        } else {
            prev
        }
    }
}

impl Song {
    /// An empty song under the given name and tempo.
    pub fn new(name: Vec<u8>, bpm: u16) -> (r: Song)
        ensures
            r@.name == name@,
            r@.bpm == bpm,
            r@.parts == Seq::<Part>::empty(),
    {
        let r = Song { name, bpm, parts: Vec::new() };
        proof {
            assert(r@.parts =~= Seq::<Part>::empty());
        }
        r
    }

    /// The exact beat the song falls silent: the largest part duration
    /// under the exact order, `0` when the song has no parts.
    pub fn duration(&self) -> (r: Scalar)
        ensures
            sval(r) == song_duration_val(self@.parts),
            scalar_canonical(r),
            mag_of(r) < pow2(278),
    {
        proof {
            lemma_pow2_pos(278);
        }
        let mut acc = scalar_from_bits(0);
        let mut i: usize = 0;
        proof {
            assert(self@.parts.subrange(0, 0) =~= Seq::<Part>::empty());
        }
        while i < self.parts.len()
            invariant
                i <= self@.parts.len(),
                sval(acc) == song_duration_val(self@.parts.subrange(0, i as int)),
                scalar_canonical(acc),
                mag_of(acc) < pow2(278),
            decreases self@.parts.len() - i,
        {
            let d = self.parts[i].duration();
            if scalar_lt(&acc, &d) {
                acc = d;
            }
            proof {
                let sub = self@.parts.subrange(0, i + 1);
                assert(sub.drop_last() =~= self@.parts.subrange(0, i as int));
                assert(sub.last() == self@.parts[i as int]);
            }
            i = i + 1;
        }
        proof {
            assert(self@.parts.subrange(0, self@.parts.len() as int) =~= self@.parts);
        }
        acc
    }
}

impl Default for Song {
    /// The demonstration song: the default melody over a bass line, at a
    /// tempo of 120 beats per minute.
    fn default() -> (r: Song)
        ensures
            r@.name == seq![68u8, 101u8, 109u8, 111u8, 32u8, 83u8, 111u8, 110u8, 103u8],
            r@.bpm == 120,
            r@.parts.len() == 2,
            r@.parts[0]@.name == seq![77u8, 101u8, 108u8, 111u8, 100u8, 121u8],
            r@.parts[0]@.notes == seq![
                (Note {
                    beat: 0u32,
                    duration: 0x3f80_0000u32,
                    frequency: 0x43dc_0000u32,
                    volume: 0x3f00_0000u32,
                }),
                (Note {
                    beat: 0x3f80_0000u32,
                    duration: 0x3f80_0000u32,
                    frequency: 0x43dc_0000u32,
                    volume: 0x3f00_0000u32,
                }),
                (Note {
                    beat: 0x4000_0000u32,
                    duration: 0x3f80_0000u32,
                    frequency: 0x4392_feb8u32,
                    volume: 0x3f00_0000u32,
                }),
            ],
            r@.parts[1]@.name == seq![98u8, 97u8, 115u8, 101u8],
            r@.parts[1]@.notes == seq![
                (Note {
                    beat: 0u32,
                    duration: 0x3f80_0000u32,
                    frequency: 0x4392_feb8u32,
                    volume: 0x3e80_0000u32,
                }),
                (Note {
                    beat: 0x3f80_0000u32,
                    duration: 0x3f00_0000u32,
                    frequency: 0x4392_feb8u32,
                    volume: 0x3e80_0000u32,
                }),
                (Note {
                    beat: 0x3fc0_0000u32,
                    duration: 0x3fc0_0000u32,
                    frequency: 0x4316_0000u32,
                    volume: 0x3e80_0000u32,
                }),
            ],
    {
        let melody = Part::default();
        let base = Part {
            name: vec![98u8, 97, 115, 101],
            notes: vec![
                Note {
                    beat: 0,
                    duration: 0x3f80_0000,
                    frequency: 0x4392_feb8,
                    volume: 0x3e80_0000,
                },
                Note {
                    beat: 0x3f80_0000,
                    duration: 0x3f00_0000,
                    frequency: 0x4392_feb8,
                    volume: 0x3e80_0000,
                },
                Note {
                    beat: 0x3fc0_0000,
                    duration: 0x3fc0_0000,
                    frequency: 0x4316_0000,
                    volume: 0x3e80_0000,
                },
            ],
        };
        let r = Song {
            name: vec![68u8, 101, 109, 111, 32, 83, 111, 110, 103],
            bpm: 120,
            parts: vec![melody, base],
        };
        proof {
            assert(r@.name =~= seq![68u8, 101u8, 109u8, 111u8, 32u8, 83u8, 111u8, 110u8, 103u8]);
            assert(r@.parts[1]@.name =~= seq![98u8, 97u8, 115u8, 101u8]);
            assert(r@.parts[1]@.notes =~= seq![
                (Note {
                    beat: 0u32,
                    duration: 0x3f80_0000u32,
                    frequency: 0x4392_feb8u32,
                    volume: 0x3e80_0000u32,
                }),
                (Note {
                    beat: 0x3f80_0000u32,
                    duration: 0x3f00_0000u32,
                    frequency: 0x4392_feb8u32,
                    volume: 0x3e80_0000u32,
                }),
                (Note {
                    beat: 0x3fc0_0000u32,
                    duration: 0x3fc0_0000u32,
                    frequency: 0x4316_0000u32,
                    volume: 0x3e80_0000u32,
                }),
            ]);
        }
        r
    }
}

/// A failure of audio compilation.
#[derive(Clone, Copy, PartialEq, Eq, Structural, Debug)]
pub enum CompileError {
    /// The tempo is zero, so beats never pass and no sample count exists.
    ZeroTempo,
    /// The song is too long for its sample count to fit a machine word.
    TooLong,
}

/// The number of samples a song of exact scaled duration `m`, tempo `bpm`
/// and sample rate `rate` compiles to: the floor of the exact product
/// `(m / 2^149) / bpm * 60 * rate`.
pub open spec fn exact_sample_count(m: int, bpm: int, rate: int) -> int {
    (m * (60 * rate)) / (bpm * pow2(149))
}

impl Song {
    /// How many samples the song compiles to: the floor of its duration in
    /// seconds times the sample rate, computed exactly.  Fails when the
    /// tempo is zero, and when the count does not fit a machine word
    /// (also when the duration is infinite).
    pub fn sample_count(&self, options: &crate::wav::WavOptions) -> (r: Result<usize, CompileError>)
        ensures
            ({
                let dur = song_duration_val(self@.parts);
                match r {
                    Ok(c) => self@.bpm >= 1 && (dur matches Val::Fin(m) && c
                        == exact_sample_count(m, self@.bpm as int, options.sample_rate as int)),
                    Err(e) => (e == CompileError::ZeroTempo <==> self@.bpm == 0) && (self@.bpm >= 1
                        ==> dur == Val::PosInf || (dur matches Val::Fin(m) && exact_sample_count(
                        m,
                        self@.bpm as int,
                        options.sample_rate as int,
                    ) > usize::MAX)),
                }
            }),
    {
        if self.bpm == 0 {
            return Err(CompileError::ZeroTempo);
        }
        let dur = self.duration();
        proof {
            lemma_song_duration_shape(self@.parts);
        }
        match dur {
            Scalar::Finite { negative, magnitude } => {
                if negative {
                    proof {
                        assert(false);
                    }
                    Err(CompileError::TooLong)
                } else {
                    let k: u64 = 60 * (options.sample_rate as u64);
                    proof {
                        lemma2_to64_rest();
                        lemma_pow2_strictly_increases(38, 40);
                        lemma_mag_den_fits(wval(magnitude), k as int);
                    }
                    let num = wide_mul_u64(&magnitude, k);
                    let q1 = wide_shr128(&num);
                    let (q2, r2) = wide_div_u64(&q1, 0x20_0000);
                    let (q3, r3) = wide_div_u64(&q2, self.bpm as u64);
                    proof {
                        lemma_fundamental_div_mod_converse(
                            wval(q1),
                            0x20_0000,
                            wval(q2),
                            r2 as int,
                        );
                        lemma_fundamental_div_mod_converse(
                            wval(q2),
                            self.bpm as int,
                            wval(q3),
                            r3 as int,
                        );
                        lemma_div_denominator(
                            wval(num),
                            0x1_0000_0000_0000_0000_0000_0000_0000_0000int,
                            0x20_0000,
                        );
                        lemma_div_denominator(
                            wval(num),
                            0x20_0000_0000_0000_0000_0000_0000_0000_0000_0000int,
                            self.bpm as int,
                        );
                        crate::scalar::lemma_pow2_149();
                        assert(self@.bpm * pow2(149) == self@.bpm
                            * 0x20_0000_0000_0000_0000_0000_0000_0000_0000_0000int)
                            by (nonlinear_arith)
                            requires
                                pow2(149) == 0x20_0000_0000_0000_0000_0000_0000_0000_0000_0000int,
                        ;
                        assert(wval(magnitude) * (k as int) == wval(magnitude) * (60
                            * options.sample_rate as int)) by (nonlinear_arith)
                            requires
                                k == 60 * options.sample_rate as int,
                        ;
                    }
                    if wide_fits_u64(&q3) {
                        let c64: u64 = q3.l0;
                        if c64 <= (usize::MAX as u64) {
                            Ok(c64 as usize)
                        } else {
                            Err(CompileError::TooLong)
                        }
                    } else {
                        Err(CompileError::TooLong)
                    }
                }
            },
            Scalar::PosInf => Err(CompileError::TooLong),
            _ => {
                proof {
                    assert(false);
                }
                Err(CompileError::TooLong)
            },
        }
    }
}

/// One sounding note in a mix plan: which part, and which note of it.
#[derive(Clone, Copy, PartialEq, Eq, Structural, Debug)]
pub struct NoteAt {
    pub part: usize,
    pub note: usize,
}

/// The first note, in insertion order, sounding at the rational beat
/// `num / den`.
pub open spec fn first_sounding(notes: Seq<Note>, num: int, den: int) -> Option<int>
    decreases notes.len(),
{
    if notes.len() == 0 {
        None
    } else if note_plays_at_rat(notes[0], num, den) {
        Some(0)
    } else {
        match first_sounding(notes.subrange(1, notes.len() as int), num, den) {
            None => None,
            Some(j) => Some(j + 1),
        }
    }
}

/// `first_sounding` names the least sounding index, and nothing else.
pub proof fn lemma_first_sounding_char(notes: Seq<Note>, num: int, den: int)
    ensures
        match first_sounding(notes, num, den) {
            None => forall|j: int|
                0 <= j < notes.len() ==> !note_plays_at_rat(#[trigger] notes[j], num, den),
            Some(j) => 0 <= j < notes.len() && note_plays_at_rat(notes[j], num, den) && forall|
                k: int,
            |
                0 <= k < j ==> !note_plays_at_rat(#[trigger] notes[k], num, den),
        },
    decreases notes.len(),
{
    if notes.len() > 0 && !note_plays_at_rat(notes[0], num, den) {
        let rest = notes.subrange(1, notes.len() as int);
        lemma_first_sounding_char(rest, num, den);
        assert(forall|k: int| 1 <= k < notes.len() ==> #[trigger] notes[k] == rest[k - 1]);
    }
}

/// The notes sounding at the rational beat `num / den`: at most one entry
/// per part, in part order, each naming the first sounding note of its
/// part.
pub open spec fn spec_row(parts: Seq<Part>, num: int, den: int) -> Seq<NoteAt>
    decreases parts.len(),
{
    if parts.len() == 0 {
        Seq::empty()
    } else {
        let rest = spec_row(parts.drop_last(), num, den);
        match first_sounding(parts.last()@.notes, num, den) {
            None => rest,
            Some(j) => rest.push(
                NoteAt { part: (parts.len() - 1) as usize, note: j as usize },
            ),
        }
    }
}

impl Song {
    /// The mix plan of the song: for the sample at index `s`, which lies
    /// at the exact beat `s * bpm / (60 * rate)`, the notes sounding
    /// there, at most one per part, in part order.  Fails exactly as
    /// `sample_count` does.
    pub fn compile_plan(&self, options: &crate::wav::WavOptions) -> (r: Result<
        Vec<Vec<NoteAt>>,
        CompileError,
    >)
        ensures
            ({
                let dur = song_duration_val(self@.parts);
                match r {
                    Ok(plan) => self@.bpm >= 1 && (dur matches Val::Fin(m) && plan@.len()
                        == exact_sample_count(m, self@.bpm as int, options.sample_rate as int))
                        && forall|s: int|
                        0 <= s < plan@.len() ==> #[trigger] plan@[s]@ == spec_row(
                            self@.parts,
                            s * self@.bpm,
                            60 * options.sample_rate as int,
                        ),
                    Err(e) => (e == CompileError::ZeroTempo <==> self@.bpm == 0) && (self@.bpm >= 1
                        ==> dur == Val::PosInf || (dur matches Val::Fin(m) && exact_sample_count(
                        m,
                        self@.bpm as int,
                        options.sample_rate as int,
                    ) > usize::MAX)),
                }
            }),
    {
        let count = self.sample_count(options)?;
        let mut plan: Vec<Vec<NoteAt>> = Vec::new();
        let den: u64 = 60 * (options.sample_rate as u64);
        if den == 0 {
            proof {
                let m = song_duration_val(self@.parts)->Fin_0;
                lemma_mul_by_zero_is_zero(m);
                lemma_pow2_pos(149);
                lemma_mul_strictly_positive(self@.bpm as int, pow2(149) as int);
                lemma_div_of0((self@.bpm * pow2(149)) as int);
            }
            return Ok(plan);
        }
        proof {
            lemma2_to64_rest();
            lemma_pow2_strictly_increases(38, 40);
        }
        let mut s: usize = 0;
        while s < count
            invariant
                s <= count,
                plan@.len() == s,
                1 <= den < pow2(40),
                den == 60 * options.sample_rate as int,
                forall|t: int|
                    0 <= t < s ==> #[trigger] plan@[t]@ == spec_row(
                        self@.parts,
                        t * self@.bpm,
                        60 * options.sample_rate as int,
                    ),
            decreases count - s,
        {
            proof {
                lemma_mul_upper_bound(
                    s as int,
                    0xffff_ffff_ffff_ffffint,
                    self.bpm as int,
                    0xffffint,
                );
            }
            let num: u128 = (s as u128) * (self.bpm as u128);
            let mut row: Vec<NoteAt> = Vec::new();
            let mut p: usize = 0;
            proof {
                assert(self@.parts.subrange(0, 0) =~= Seq::<Part>::empty());
            }
            while p < self.parts.len()
                invariant
                    p <= self@.parts.len(),
                    1 <= den < pow2(40),
                    row@ == spec_row(self@.parts.subrange(0, p as int), num as int, den as int),
                decreases self@.parts.len() - p,
            {
                let hit = self.parts[p].has_note_at_rat(num, den);
                proof {
                    let sub = self@.parts.subrange(0, p + 1);
                    assert(sub.drop_last() =~= self@.parts.subrange(0, p as int));
                    assert(sub.last() == self@.parts[p as int]);
                    lemma_first_sounding_char(
                        self@.parts[p as int]@.notes,
                        num as int,
                        den as int,
                    );
                }
                match hit {
                    Some(j) => {
                        row.push(NoteAt { part: p, note: j });
                    },
                    None => {},
                }
                p = p + 1;
            }
            proof {
                assert(self@.parts.subrange(0, self@.parts.len() as int) =~= self@.parts);
            }
            plan.push(row);
            s = s + 1;
        }
        Ok(plan)
    }

    /// Mix per-sample amplitude groups into samples: each sample is the
    /// wrapping sum, in group order, of its group's amplitudes.  Overflow
    /// wraps around; the choice of wrapping over saturation is deliberate
    /// and pinned by the tests.
    pub fn compile_parts_into_samples(&self, amplitudes: &Vec<Vec<i16>>) -> (r: Vec<i16>)
        ensures
            r@.len() == amplitudes@.len(),
            forall|i: int| 0 <= i < r@.len() ==> #[trigger] r@[i] == mix_sum(amplitudes@[i]@),
    {
        let mut samples: Vec<i16> = Vec::new();
        let mut i: usize = 0;
        while i < amplitudes.len()
            invariant
                i <= amplitudes@.len(),
                samples@.len() == i,
                forall|t: int|
                    0 <= t < i ==> #[trigger] samples@[t] == mix_sum(amplitudes@[t]@),
            decreases amplitudes@.len() - i,
        {
            let group = &amplitudes[i];
            let mut acc: i16 = 0;
            let mut j: usize = 0;
            proof {
                assert(group@.subrange(0, 0) =~= Seq::<i16>::empty());
            }
            while j < group.len()
                invariant
                    j <= group@.len(),
                    acc == mix_sum(group@.subrange(0, j as int)),
                decreases group@.len() - j,
            {
                proof {
                    let sub = group@.subrange(0, j + 1);
                    assert(sub.drop_last() =~= group@.subrange(0, j as int));
                    assert(sub.last() == group@[j as int]);
                }
                acc = acc.wrapping_add(group[j]);
                j = j + 1;
            }
            proof {
                assert(group@.subrange(0, group@.len() as int) =~= group@);
            }
            samples.push(acc);
            i = i + 1;
        }
        samples
    }

    /// The samples as raw bytes: each sample's two little-endian bytes,
    /// in sample order.
    pub fn compile_parts_into_bytes(&self, samples: &Vec<i16>) -> (r: Vec<u8>)
        ensures
            r@ == samples_bytes(samples@),
            r@.len() == 2 * samples@.len(),
    {
        let mut bytes: Vec<u8> = Vec::new();
        let mut i: usize = 0;
        proof {
            assert(samples@.subrange(0, 0) =~= Seq::<i16>::empty());
        }
        while i < samples.len()
            invariant
                i <= samples@.len(),
                bytes@ == samples_bytes(samples@.subrange(0, i as int)),
                bytes@.len() == 2 * i,
            decreases samples@.len() - i,
        {
            proof {
                let sub = samples@.subrange(0, i + 1);
                assert(sub.drop_last() =~= samples@.subrange(0, i as int));
                assert(sub.last() == samples@[i as int]);
            }
            push_i16_le(&mut bytes, samples[i]);
            i = i + 1;
        }
        proof {
            assert(samples@.subrange(0, samples@.len() as int) =~= samples@);
        }
        bytes
    }
}

/// The samples that mixing a list of amplitude groups yields.
pub open spec fn mixed_samples(rows: Seq<Vec<i16>>) -> Seq<i16> {
    Seq::new(rows.len(), |i: int| mix_sum(rows[i]@))
}

impl Song {
    /// The complete content of a waveform file for the given amplitude
    /// groups: the 44-byte header sized for the sample bytes, then each
    /// mixed sample's two little-endian bytes.  Fails exactly when the
    /// sample bytes outgrow the header's 32-bit size field.
    pub fn wav_file_bytes(&self, options: &crate::wav::WavOptions, amplitudes: &Vec<Vec<i16>>)
        -> (r: Result<Vec<u8>, CompileError>)
        requires
            options.sample_rate * options.num_channels * 16 <= u32::MAX,
            options.num_channels * 16 <= u16::MAX,
        ensures
            match r {
                Ok(b) => 2 * amplitudes@.len() <= u32::MAX - 36 && b@ == wav_header_bytes(
                    spec_wav_header((2 * amplitudes@.len()) as u32, *options),
                ) + samples_bytes(mixed_samples(amplitudes@)),
                Err(e) => e == CompileError::TooLong && 2 * amplitudes@.len() > u32::MAX - 36,
            },
    {
        let samples = self.compile_parts_into_samples(amplitudes);
        proof {
            assert(samples@ =~= mixed_samples(amplitudes@));
        }
        let data = self.compile_parts_into_bytes(&samples);
        if data.len() > (u32::MAX - 36) as usize {
            return Err(CompileError::TooLong);
        }
        let header = crate::wav::WavHeader::new(data.len() as u32, options);
        let mut out = header.as_bytes();
        let mut i: usize = 0;
        while i < data.len()
            invariant
                i <= data@.len(),
                out@ == wav_header_bytes(header) + data@.subrange(0, i as int),
            decreases data@.len() - i,
        {
            out.push(data[i]);
            proof {
                assert(out@ =~= wav_header_bytes(header) + data@.subrange(0, i + 1));
            }
            i = i + 1;
        }
        proof {
            assert(data@.subrange(0, data@.len() as int) =~= data@);
            assert(header == spec_wav_header(data@.len() as u32, *options));
        }
        Ok(out)
    }
}

/// The wrapping sum, in order, of a group of amplitudes.
pub open spec fn mix_sum(s: Seq<i16>) -> i16
    decreases s.len(),
{
    if s.len() == 0 {
        0
    } else {
        vstd::wrapping::i16_specs::wrapping_add(mix_sum(s.drop_last()), s.last())
    }
}

/// The little-endian bytes of a sample list, in sample order.
pub open spec fn samples_bytes(s: Seq<i16>) -> Seq<u8>
    decreases s.len(),
{
    if s.len() == 0 {
        Seq::empty()
    } else {
        samples_bytes(s.drop_last()) + i16_le(s.last())
    }
}

/// The duration of a song is, in the exact order, not below any part's
/// duration, and is either zero or itself one of the part durations; a
/// song with no parts, or all of whose parts are empty, has duration zero.
pub proof fn lemma_song_duration_is_max(parts: Seq<Part>)
    ensures
        forall|i: int|
            0 <= i < parts.len() ==> !val_lt(
                song_duration_val(parts),
                part_duration_val(#[trigger] parts[i]@.notes),
            ),
        song_duration_val(parts) == Val::Fin(0) || exists|i: int|
            0 <= i < parts.len() && song_duration_val(parts) == part_duration_val(
                #[trigger] parts[i]@.notes,
            ),
    decreases parts.len(),
{
    if parts.len() > 0 {
        lemma_song_duration_is_max(parts.drop_last());
        assert(parts.last() == parts[parts.len() - 1]);
        assert(forall|i: int| 0 <= i < parts.len() - 1 ==> parts.drop_last()[i] == parts[i]);
    }
}

/// The duration is never not-a-number, never negative, and never minus
/// infinity: it is a nonnegative finite value or plus infinity.
pub proof fn lemma_song_duration_shape(parts: Seq<Part>)
    ensures
        song_duration_val(parts) == Val::PosInf || (song_duration_val(parts) matches Val::Fin(m)
            && m >= 0),
    decreases parts.len(),
{
    if parts.len() > 0 {
        lemma_song_duration_shape(parts.drop_last());
    }
}

} // verus!
