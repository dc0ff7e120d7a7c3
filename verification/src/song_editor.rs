//! The in-memory working set of songs the editing front end acts on.

use vstd::prelude::*;
use crate::song::Song;
use crate::codec::{DecodeError, decode_song_spec, song_data_of};

verus! {

/// The songs loaded in this session, starting from one demonstration
/// song.  The front end reads files and hands their bytes here; this
/// working set itself never touches the file system.
pub struct SongEditor {
    pub loaded_songs: Vec<Song>,
}

impl SongEditor {
    /// A working set holding the demonstration song alone.
    pub fn new() -> (r: SongEditor)
        ensures
            r.loaded_songs@.len() == 1,
            r.loaded_songs@[0]@.name == seq![
                68u8, 101u8, 109u8, 111u8, 32u8, 83u8, 111u8, 110u8, 103u8,
            ],
            r.loaded_songs@[0]@.bpm == 120,
            r.loaded_songs@[0]@.parts.len() == 2,
            r.loaded_songs@[0]@.parts[0]@.name == seq![77u8, 101u8, 108u8, 111u8, 100u8, 121u8],
            r.loaded_songs@[0]@.parts[0]@.notes.len() == 3,
            r.loaded_songs@[0]@.parts[1]@.name == seq![98u8, 97u8, 115u8, 101u8],
            r.loaded_songs@[0]@.parts[1]@.notes.len() == 3,
    {
        SongEditor { loaded_songs: vec![Song::default()] }
    }

    /// Decode a song from already-read file bytes and add it to the
    /// working set.  On any decode failure the working set is unchanged
    /// and the failure comes back; no partial song is kept.
    pub fn load_song(&mut self, data: &[u8]) -> (r: Result<(), DecodeError>)
        ensures
            match r {
                Ok(()) => final(self).loaded_songs@.len() == old(self).loaded_songs@.len() + 1
                    && (forall|i: int|
                    0 <= i < old(self).loaded_songs@.len() ==> final(self).loaded_songs@[i] == old(
                        self,
                    ).loaded_songs@[i]) && decode_song_spec(data@) == Result::<
                    crate::codec::SongData,
                    DecodeError,
                >::Ok(song_data_of(final(self).loaded_songs@.last()@)),
                Err(e) => final(self).loaded_songs@ == old(self).loaded_songs@ && decode_song_spec(
                    data@,
                ) == Result::<crate::codec::SongData, DecodeError>::Err(e),
            },
    {
        match Song::deserialize(data) {
            Ok(song) => {
                self.loaded_songs.push(song);
                Ok(())
            },
            Err(e) => Err(e),
        }
    }
}

} // verus!
