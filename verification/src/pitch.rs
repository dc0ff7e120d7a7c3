//! Note-name parsing: a letter, an optional accidental, and an octave
//! digit name a pitch, whose frequency pattern comes from a base table
//! with the octave added onto the binary32 exponent — an exact doubling
//! per octave.

use vstd::prelude::*;
use vstd::slice::slice_index_get;

verus! {

/// A pitch alteration: a semitone up or down.
#[derive(Clone, Copy, PartialEq, Eq, Structural, Debug)]
pub enum Accidental {
    Sharp,
    Flat,
}

/// What `Accidental::from_char` yields: `b` flattens, `#` sharpens.
pub open spec fn accidental_of(c: char) -> Option<Accidental> {
    if c == 'b' {
        Some(Accidental::Flat)
    } else if c == '#' {
        Some(Accidental::Sharp)
    } else {
        None
    }
}

impl Accidental {
    pub fn from_char(c: char) -> (r: Option<Accidental>)
        ensures
            r == accidental_of(c),
    {
        match c {
            'b' => Some(Accidental::Flat),
            '#' => Some(Accidental::Sharp),
            _ => None,
        }
    }
}

/// The frequency pattern of a named pitch in the lowest octave, when the
/// name exists: `B#`, `Cb`, `E#` and `Fb` do not.
pub open spec fn base_freq_bits(letter: char, acc: Option<Accidental>) -> Option<u32> {
    if letter == 'a' || letter == 'A' {
        match acc {
            Some(Accidental::Flat) => Some(0x41cf_ae14u32),
            Some(Accidental::Sharp) => Some(0x41e9_1eb8u32),
            None => Some(0x41dc_0000u32),
        }
    } else if letter == 'b' || letter == 'B' {
        match acc {
            Some(Accidental::Flat) => Some(0x41e9_1eb8u32),
            Some(Accidental::Sharp) => None,
            None => Some(0x41f6_f5c3u32),
        }
    } else if letter == 'c' || letter == 'C' {
        match acc {
            Some(Accidental::Flat) => None,
            Some(Accidental::Sharp) => Some(0x420a_999au32),
            None => Some(0x4202_cccdu32),
        }
    } else if letter == 'd' || letter == 'D' {
        match acc {
            Some(Accidental::Flat) => Some(0x420a_999au32),
            Some(Accidental::Sharp) => Some(0x421b_8f5cu32),
            None => Some(0x4212_d70au32),
        }
    } else if letter == 'e' || letter == 'E' {
        match acc {
            Some(Accidental::Flat) => Some(0x421b_7ae1u32),
            Some(Accidental::Sharp) => None,
            None => Some(0x4224_cccdu32),
        }
    } else if letter == 'f' || letter == 'F' {
        match acc {
            Some(Accidental::Flat) => None,
            Some(Accidental::Sharp) => Some(0x4239_0000u32),
            None => Some(0x422e_999au32),
        }
    } else if letter == 'g' || letter == 'G' {
        match acc {
            Some(Accidental::Flat) => Some(0x4239_0000u32),
            Some(Accidental::Sharp) => Some(0x424f_a3d7u32),
            None => Some(0x4244_0000u32),
        }
    } else {
        None
    }
}

/// The octave a digit names, when the character is a digit.
pub open spec fn digit_of(c: char) -> Option<int> {
    if '0' <= c && c <= '9' {
        Some(c as int - 48)
    } else {
        None
    }
}

/// The frequency pattern a full name yields: a base pattern looked up by
/// letter and accidental, doubled once per octave by adding the octave
/// onto the binary32 exponent field.  Octaves outside one through seven,
/// missing characters, and unknown names yield nothing.  Characters past
/// the octave digit are ignored.
pub open spec fn spec_freq_from_chars(s: Seq<char>) -> Option<u32> {
    if s.len() < 2 {
        None
    } else {
        match accidental_of(s[1]) {
            Some(a) => if s.len() < 3 {
                None
            } else {
                freq_of(base_freq_bits(s[0], Some(a)), digit_of(s[2]))
            },
            None => freq_of(base_freq_bits(s[0], None), digit_of(s[1])),
        }
    }
}

/// A base pattern raised by an octave in range; nothing otherwise.
pub open spec fn freq_of(base: Option<u32>, octave: Option<int>) -> Option<u32> {
    match (base, octave) {
        (Some(b), Some(o)) => if 1 <= o && o <= 7 {
            Some((b + o * 0x80_0000) as u32)
        } else {
            None
        },
        _ => None,
    }
}

/// The frequency pattern of a pitch name such as `A4` or `C#6`: a letter,
/// an optional accidental, and an octave digit between one and seven.
pub fn freq_from_str(note: &[char]) -> (r: Option<u32>)
    ensures
        r == spec_freq_from_chars(note@),
{
    if note.len() < 2 {
        return None;
    }
    let letter: char = *slice_index_get(note, 0);
    let second: char = *slice_index_get(note, 1);
    let accidental = Accidental::from_char(second);
    let octave_char: char = match accidental {
        Some(_) => {
            if note.len() < 3 {
                return None;
            }
            *slice_index_get(note, 2)
        },
        None => second,
    };
    let octave: u32 = if '0' <= octave_char && octave_char <= '9' {
        octave_char as u32 - 48
    } else {
        return None;
    };
    if octave < 1 || octave > 7 {
        return None;
    }
    let base: u32 = match base_bits(letter, accidental) {
        Some(b) => b,
        None => {
            return None;
        },
    };
    Some(base + octave * 0x80_0000)
}

/// The base table as executable lookup.
fn base_bits(letter: char, acc: Option<Accidental>) -> (r: Option<u32>)
    ensures
        r == base_freq_bits(letter, acc),
        r matches Some(b) ==> b <= 0x424f_a3d7,
{
    match letter {
        'a' | 'A' => match acc {
            Some(Accidental::Flat) => Some(0x41cf_ae14),
            Some(Accidental::Sharp) => Some(0x41e9_1eb8),
            None => Some(0x41dc_0000),
        },
        'b' | 'B' => match acc {
            Some(Accidental::Flat) => Some(0x41e9_1eb8),
            Some(Accidental::Sharp) => None,
            None => Some(0x41f6_f5c3),
        },
        'c' | 'C' => match acc {
            Some(Accidental::Flat) => None,
            Some(Accidental::Sharp) => Some(0x420a_999a),
            None => Some(0x4202_cccd),
        },
        'd' | 'D' => match acc {
            Some(Accidental::Flat) => Some(0x420a_999a),
            Some(Accidental::Sharp) => Some(0x421b_8f5c),
            None => Some(0x4212_d70a),
        },
        'e' | 'E' => match acc {
            Some(Accidental::Flat) => Some(0x421b_7ae1),
            Some(Accidental::Sharp) => None,
            None => Some(0x4224_cccd),
        },
        'f' | 'F' => match acc {
            Some(Accidental::Flat) => None,
            Some(Accidental::Sharp) => Some(0x4239_0000),
            None => Some(0x422e_999a),
        },
        'g' | 'G' => match acc {
            Some(Accidental::Flat) => Some(0x4239_0000),
            Some(Accidental::Sharp) => Some(0x424f_a3d7),
            None => Some(0x4244_0000),
        },
        _ => None,
    }
}

} // verus!
