use song_maker::note::{InvalidVolume, Note};
use song_maker::part::{OverlapError, Part};
use song_maker::scalar::{scalar_from_bits, Scalar};
use song_maker::song::{CompileError, NoteAt, Song};
use song_maker::song_editor::SongEditor;
use song_maker::wav::{WavHeader, WavOptions};

fn bits(x: f32) -> u32 {
    x.to_bits()
}

fn note(beat: f32, duration: f32, frequency: f32, volume: f32) -> Note {
    Note::new(bits(beat), bits(duration), bits(frequency), bits(volume)).unwrap()
}

/// The sine oscillator, as the front end computes it: amplitude of a note
/// at an absolute time in seconds.
fn amplitude(n: &Note, time: f32) -> i16 {
    ((time * 2.0 * std::f32::consts::PI * f32::from_bits(n.frequency)).sin()
        * f32::from_bits(n.volume)
        * 32767.0) as i16
}

#[test]
fn volume_above_one_is_rejected() {
    assert_eq!(
        Note::new(bits(0.0), bits(1.0), bits(440.0), bits(1.5)),
        Err(InvalidVolume)
    );
    assert!(Note::new(bits(0.0), bits(1.0), bits(440.0), bits(1.0)).is_ok());
    // Negative and not-a-number loudness are let through, as the original
    // format admits them.
    assert!(Note::new(bits(0.0), bits(1.0), bits(440.0), bits(-0.5)).is_ok());
    assert!(Note::new(bits(0.0), bits(1.0), bits(440.0), bits(f32::NAN)).is_ok());
}

#[test]
fn plays_at_is_half_open() {
    let n = note(1.5, 0.5, 440.0, 0.5);
    assert!(n.plays_at(bits(1.5)));
    assert!(n.plays_at(bits(1.75)));
    assert!(n.plays_at(bits(1.9999999)));
    assert!(!n.plays_at(bits(2.0)), "silent exactly at its end beat");
    assert!(!n.plays_at(bits(1.0)));
    assert!(!n.plays_at(bits(2.5)));
    assert!(!n.plays_at(bits(f32::NAN)));
}

#[test]
fn add_note_rejects_contained_note() {
    let mut p = Part::new(b"p".to_vec());
    p.add_note(note(0.0, 1.0, 440.0, 0.5)).unwrap();
    assert_eq!(p.add_note(note(0.5, 0.1, 330.0, 0.5)), Err(OverlapError));
    assert_eq!(p.notes.len(), 1);
}

#[test]
fn add_note_accepts_disjoint_notes_in_any_order() {
    let mut p = Part::new(b"p".to_vec());
    p.add_note(note(2.0, 1.0, 440.0, 0.5)).unwrap();
    p.add_note(note(0.0, 1.0, 330.0, 0.5)).unwrap();
    // Starting exactly where an earlier note ends is fine: windows are
    // open at their right end.
    p.add_note(note(3.0, 1.0, 220.0, 0.5)).unwrap();
    assert_eq!(p.notes.len(), 3);
    // Ending exactly where an earlier note starts is caught: windows are
    // closed at their left end, and the new note's end lands on it.
    assert_eq!(p.add_note(note(1.0, 1.0, 220.0, 0.5)), Err(OverlapError));
}

#[test]
fn add_note_boundary_rejections() {
    let mut p = Part::new(b"p".to_vec());
    p.add_note(note(0.0, 1.0, 440.0, 0.5)).unwrap();
    // Starts inside an existing window.
    assert_eq!(p.add_note(note(0.9, 5.0, 330.0, 0.5)), Err(OverlapError));
    // Ends inside an existing window.
    assert_eq!(p.add_note(note(-1.0, 1.5, 330.0, 0.5)), Err(OverlapError));
}

#[test]
fn add_note_check_is_asymmetric_by_design() {
    // A note that swallows an existing one whole, without its own
    // boundaries landing inside the existing window, slips through: the
    // check mirrors the original placement rule faithfully.
    let mut p = Part::new(b"p".to_vec());
    p.add_note(note(1.0, 1.0, 440.0, 0.5)).unwrap();
    assert!(p.add_note(note(0.0, 3.0, 330.0, 0.5)).is_ok());
}

#[test]
fn has_note_at_beat_finds_first_match() {
    let mut p = Part::new(b"p".to_vec());
    p.add_note(note(0.0, 1.0, 440.0, 0.5)).unwrap();
    p.add_note(note(2.0, 1.0, 330.0, 0.5)).unwrap();
    assert_eq!(p.has_note_at_beat(bits(0.5)), Some(0));
    assert_eq!(p.has_note_at_beat(bits(2.0)), Some(1));
    assert_eq!(p.has_note_at_beat(bits(1.5)), None);
}

#[test]
fn durations_take_the_latest_end() {
    let mut p = Part::new(b"p".to_vec());
    assert_eq!(p.duration(), scalar_from_bits(bits(0.0)));
    p.add_note(note(0.0, 1.0, 440.0, 0.5)).unwrap();
    p.add_note(note(2.0, 1.0, 330.0, 0.5)).unwrap();
    assert_eq!(p.duration(), scalar_from_bits(bits(3.0)));

    let mut song = Song::new(b"s".to_vec(), 120);
    assert_eq!(song.duration(), scalar_from_bits(bits(0.0)));
    song.parts.push(p);
    let mut shorter = Part::new(b"q".to_vec());
    shorter.add_note(note(0.0, 2.0, 220.0, 0.5)).unwrap();
    song.parts.push(shorter);
    assert_eq!(song.duration(), scalar_from_bits(bits(3.0)));
}

#[test]
fn demo_song_duration_is_three_beats() {
    let editor = SongEditor::new();
    assert_eq!(editor.loaded_songs.len(), 1);
    let demo = &editor.loaded_songs[0];
    assert_eq!(demo.bpm, 120);
    assert_eq!(demo.name, b"Demo Song".to_vec());
    assert_eq!(demo.parts.len(), 2);
    assert_eq!(demo.parts[0].name, b"Melody".to_vec());
    assert_eq!(demo.parts[1].name, b"base".to_vec());
    assert_eq!(demo.duration(), scalar_from_bits(bits(3.0)));
}

#[test]
fn sample_count_follows_the_exact_formula() {
    // One beat at 120 beats per minute is half a second; at 44100
    // samples per second that is 22050 samples.
    let mut p = Part::new(b"lead".to_vec());
    p.add_note(note(0.0, 1.0, 440.0, 0.25)).unwrap();
    let mut song = Song::new(b"s".to_vec(), 120);
    song.parts.push(p);
    let opts = WavOptions::new(44100, 1, 16);
    assert_eq!(song.sample_count(&opts), Ok(22050));

    // An empty song has no samples; a zero tempo has no sample count.
    assert_eq!(Song::new(b"e".to_vec(), 120).sample_count(&opts), Ok(0));
    assert_eq!(song_with_bpm(0).sample_count(&opts), Err(CompileError::ZeroTempo));

    // Three beats at 60 beats per minute, 8 samples per second.
    let mut slow = song_with_bpm(60);
    slow.parts[0].add_note(note(1.0, 2.0, 220.0, 0.25)).unwrap();
    assert_eq!(slow.sample_count(&WavOptions::new(8, 1, 16)), Ok(24));
}

fn song_with_bpm(bpm: u16) -> Song {
    let mut p = Part::new(b"lead".to_vec());
    p.add_note(note(0.0, 1.0, 440.0, 0.25)).unwrap();
    let mut song = Song::new(b"s".to_vec(), bpm);
    song.parts.push(p);
    song
}

#[test]
fn degenerate_durations_never_sound() {
    // A zero-length window is empty, and a negative one is backward:
    // neither admits any beat, not even its own start.
    let zero = note(1.0, 0.0, 440.0, 0.5);
    assert!(!zero.plays_at(bits(1.0)));
    let backward = note(1.0, -0.5, 440.0, 0.5);
    assert!(!backward.plays_at(bits(1.0)));
    assert!(!backward.plays_at(bits(0.75)));
}

#[test]
fn unbounded_songs_cannot_be_compiled() {
    let opts = WavOptions::new(44100, 1, 16);
    // An infinite note end makes the duration infinite.
    let mut endless = Part::new(b"endless".to_vec());
    endless
        .add_note(note(0.0, f32::INFINITY, 440.0, 0.5))
        .unwrap();
    let mut song = Song::new(b"endless".to_vec(), 120);
    song.parts.push(endless);
    assert_eq!(song.sample_count(&opts), Err(CompileError::TooLong));

    // A finite but astronomically long song overflows the sample count.
    let mut vast = Part::new(b"vast".to_vec());
    vast.add_note(note(0.0, 1.0e30, 440.0, 0.5)).unwrap();
    let mut long_song = Song::new(b"vast".to_vec(), 120);
    long_song.parts.push(vast);
    assert_eq!(long_song.sample_count(&opts), Err(CompileError::TooLong));
}

#[test]
fn compiled_samples_match_the_oscillator() {
    let mut p = Part::new(b"lead".to_vec());
    p.add_note(note(0.0, 1.0, 440.0, 0.25)).unwrap();
    let mut song = Song::new(b"s".to_vec(), 120);
    song.parts.push(p);
    let opts = WavOptions::new(44100, 1, 16);
    let plan = song.compile_plan(&opts).unwrap();
    assert_eq!(plan.len(), 22050);
    // Every sample of this half second has the one note sounding.
    assert_eq!(plan[0], vec![NoteAt { part: 0, note: 0 }]);
    assert_eq!(plan[22049], vec![NoteAt { part: 0, note: 0 }]);

    let rows: Vec<Vec<i16>> = plan
        .iter()
        .enumerate()
        .map(|(i, row)| {
            let time = i as f32 / 44100.0;
            row.iter()
                .map(|at| amplitude(&song.parts[at.part].notes[at.note], time))
                .collect()
        })
        .collect();
    let samples = song.compile_parts_into_samples(&rows);
    assert_eq!(samples.len(), 22050);
    // At time zero the sine is zero.
    assert_eq!(samples[0], 0);
    // Near a quarter period of 440 cycles per second the amplitude is
    // near its peak, a quarter of the sample ceiling.
    let quarter = 44100 / (4 * 440);
    assert!(samples[quarter] > 8100 && samples[quarter] <= 8192);
}

#[test]
fn simultaneous_parts_mix_additively() {
    let mut lead = Part::new(b"lead".to_vec());
    lead.add_note(note(0.0, 1.0, 440.0, 0.25)).unwrap();
    let mut bass = Part::new(b"bass".to_vec());
    bass.add_note(note(0.0, 1.0, 110.0, 0.25)).unwrap();
    let mut song = Song::new(b"duet".to_vec(), 120);
    song.parts.push(lead);
    song.parts.push(bass);
    let opts = WavOptions::new(8000, 1, 16);
    let plan = song.compile_plan(&opts).unwrap();
    assert_eq!(plan.len(), 4000);
    // Both parts sound on every sample of the half second, in part order.
    assert_eq!(
        plan[123],
        vec![NoteAt { part: 0, note: 0 }, NoteAt { part: 1, note: 0 }]
    );
    let rows: Vec<Vec<i16>> = plan
        .iter()
        .enumerate()
        .map(|(i, row)| {
            let time = i as f32 / 8000.0;
            row.iter()
                .map(|at| amplitude(&song.parts[at.part].notes[at.note], time))
                .collect()
        })
        .collect();
    let samples = song.compile_parts_into_samples(&rows);
    let t = 123.0f32 / 8000.0;
    let lead_amp = amplitude(&song.parts[0].notes[0], t);
    let bass_amp = amplitude(&song.parts[1].notes[0], t);
    assert_eq!(samples[123], lead_amp.wrapping_add(bass_amp));
}

#[test]
fn mixing_sums_parts_and_wraps() {
    let song = Song::new(b"s".to_vec(), 120);
    let rows: Vec<Vec<i16>> = vec![
        vec![100, -30],
        vec![],
        vec![i16::MAX, 1],
        vec![i16::MIN, -1],
    ];
    let samples = song.compile_parts_into_samples(&rows);
    assert_eq!(samples, vec![70, 0, i16::MIN, i16::MAX]);
}

#[test]
fn sample_bytes_are_little_endian_pairs() {
    let song = Song::new(b"s".to_vec(), 120);
    let bytes = song.compile_parts_into_bytes(&vec![-1i16, 258, 0]);
    assert_eq!(bytes, vec![0xff, 0xff, 2, 1, 0, 0]);
}

#[test]
fn wav_file_content_is_header_then_samples() {
    let song = Song::new(b"w".to_vec(), 120);
    let rows: Vec<Vec<i16>> = vec![vec![5, 5], vec![-1]];
    let content = song.wav_file_bytes(&WavOptions::default(), &rows).unwrap();
    assert_eq!(content.len(), 44 + 4);
    assert_eq!(&content[0..4], b"RIFF");
    // The size fields count the four sample bytes.
    assert_eq!(&content[4..8], &40u32.to_le_bytes());
    assert_eq!(&content[40..44], &4u32.to_le_bytes());
    // Then the mixed samples, little-endian: 10 and -1.
    assert_eq!(&content[44..48], &[10, 0, 0xff, 0xff]);
}

#[test]
fn wav_header_lays_out_forty_four_bytes() {
    let opts = WavOptions::default();
    assert_eq!(opts.sample_rate, 44100);
    assert_eq!(opts.num_channels, 1);
    assert_eq!(opts.bits_per_sample, 16);
    let header = WavHeader::new(1000, &opts);
    let bytes = header.as_bytes();
    assert_eq!(bytes.len(), 44);
    let mut expected: Vec<u8> = Vec::new();
    expected.extend(b"RIFF");
    expected.extend(1036u32.to_le_bytes());
    expected.extend(b"WAVE");
    expected.extend(b"fmt ");
    expected.extend(16u32.to_le_bytes());
    expected.extend(1u16.to_le_bytes());
    expected.extend(1u16.to_le_bytes());
    expected.extend(44100u32.to_le_bytes());
    expected.extend(88200u32.to_le_bytes());
    expected.extend(2u16.to_le_bytes());
    expected.extend(16u16.to_le_bytes());
    expected.extend(b"data");
    expected.extend(1000u32.to_le_bytes());
    assert_eq!(bytes, expected);
}

#[test]
fn editor_loads_serialized_songs() {
    let mut editor = SongEditor::new();
    let demo_bytes = editor.loaded_songs[0].serialize().unwrap();
    editor.load_song(&demo_bytes).unwrap();
    assert_eq!(editor.loaded_songs.len(), 2);
    assert_eq!(editor.loaded_songs[1].name, editor.loaded_songs[0].name);

    let before = editor.loaded_songs.len();
    assert!(editor.load_song(&[9]).is_err());
    assert_eq!(editor.loaded_songs.len(), before);
}
