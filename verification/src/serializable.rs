//! The common surface of everything the song format can persist.
//!
//! The trait carries no contract of its own: each implementing type's
//! inherent `serialize` and `deserialize` state the exact bytes, and the
//! trait methods forward to them for callers that write against the
//! interface alone.

use vstd::prelude::*;
use crate::codec::{EncodeError, DecodeError};
use crate::note::Note;
use crate::part::Part;
use crate::song::Song;

verus! {

pub trait Serializable where Self: core::marker::Sized {
    fn serialize(&self) -> Result<Vec<u8>, EncodeError>;

    fn deserialize(data: &[u8]) -> Result<Self, DecodeError>;
}

impl Serializable for Note {
    fn serialize(&self) -> Result<Vec<u8>, EncodeError> {
        Note::serialize(self)
    }

    fn deserialize(data: &[u8]) -> Result<Note, DecodeError> {
        Note::deserialize(data)
    }
}

impl Serializable for Part {
    fn serialize(&self) -> Result<Vec<u8>, EncodeError> {
        Part::serialize(self)
    }

    fn deserialize(data: &[u8]) -> Result<Part, DecodeError> {
        Part::deserialize(data)
    }
}

impl Serializable for Song {
    fn serialize(&self) -> Result<Vec<u8>, EncodeError> {
        Song::serialize(self)
    }

    fn deserialize(data: &[u8]) -> Result<Song, DecodeError> {
        Song::deserialize(data)
    }
}

} // verus!
