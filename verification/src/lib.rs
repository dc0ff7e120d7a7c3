//! A multi-track song editor core: notes, parts and songs with exact
//! beat-time arithmetic, a compact binary persistence format, and
//! audio-sample compilation toward a standard waveform container.
//!
//! Every timed quantity is carried as the 32-bit pattern the song format
//! stores, and interpreted exactly: `wide` holds 320-bit integers, and
//! `scalar` builds from them the exact value of any binary32 pattern,
//! scaled by 2^149.  On that model `note`, `part` and `song` state and
//! prove the play-window, placement, duration and sample-count rules;
//! `codec` proves the byte format round-trips; `wav` lays out the
//! waveform header; `pitch` names frequencies; `song_editor` keeps the
//! session's working set; and `choice` carries menu actions for the
//! unverified front end.
#![allow(unused_imports)]

pub mod wide;
pub mod bytes;
pub mod scalar;
pub mod note;
pub mod part;
pub mod song;
pub mod wav;
pub mod codec;
pub mod pitch;
pub mod song_editor;
pub mod choice;
pub mod serializable;

use vstd::prelude::*;

verus! {

} // verus!
