use song_maker::codec::DecodeError;
use song_maker::serializable::Serializable;
use song_maker::note::Note;
use song_maker::part::Part;
use song_maker::song::Song;

fn bits(x: f32) -> u32 {
    x.to_bits()
}

fn note(beat: f32, duration: f32, frequency: f32, volume: f32) -> Note {
    Note::new(bits(beat), bits(duration), bits(frequency), bits(volume)).unwrap()
}

#[test]
fn note_encodes_to_sixteen_bytes_and_back() {
    let n = note(1.5, 0.5, 293.99, 0.5);
    let encoded = n.serialize().unwrap();
    assert_eq!(encoded.len(), 16);
    let mut expected: Vec<u8> = Vec::new();
    expected.extend(1.5f32.to_le_bytes());
    expected.extend(0.5f32.to_le_bytes());
    expected.extend(293.99f32.to_le_bytes());
    expected.extend(0.5f32.to_le_bytes());
    assert_eq!(encoded, expected);
    let back = Note::deserialize(&encoded).unwrap();
    assert_eq!(back, n);
    assert_eq!(f32::from_bits(back.beat), 1.5);
    assert_eq!(f32::from_bits(back.duration), 0.5);
    assert_eq!(f32::from_bits(back.frequency), 293.99);
    assert_eq!(f32::from_bits(back.volume), 0.5);
}

#[test]
fn note_rejects_wrong_length() {
    assert_eq!(Note::deserialize(&[0u8; 15]), Err(DecodeError::NoteLengthMismatch));
    assert_eq!(Note::deserialize(&[0u8; 17]), Err(DecodeError::NoteLengthMismatch));
    assert_eq!(Note::deserialize(&[]), Err(DecodeError::NoteLengthMismatch));
}

#[test]
fn song_round_trip_reproduces_everything() {
    let mut melody = Part::new("Caf\u{e9} \u{266a}".as_bytes().to_vec());
    melody.add_note(note(0.0, 1.0, 440.0, 0.5)).unwrap();
    melody.add_note(note(1.0, 0.5, 293.99, 0.25)).unwrap();
    let empty_part = Part::new(Vec::new());
    let mut song = Song::new("unicode \u{1f3b5} name".as_bytes().to_vec(), 96);
    song.parts.push(melody);
    song.parts.push(empty_part);
    let encoded = song.serialize().unwrap();
    let back = Song::deserialize(&encoded).unwrap();
    assert_eq!(back.name, song.name);
    assert_eq!(back.bpm, song.bpm);
    assert_eq!(back.parts.len(), 2);
    assert_eq!(back.parts[0].name, song.parts[0].name);
    assert_eq!(back.parts[0].notes, song.parts[0].notes);
    assert_eq!(back.parts[1].name, song.parts[1].name);
    assert!(back.parts[1].notes.is_empty());
}

#[test]
fn song_round_trip_with_empty_name_and_no_parts() {
    let song = Song::new(Vec::new(), 1);
    let encoded = song.serialize().unwrap();
    assert_eq!(encoded, vec![0, 0, 1, 0, 0, 0]);
    let back = Song::deserialize(&encoded).unwrap();
    assert_eq!(back.name, song.name);
    assert_eq!(back.bpm, 1);
    assert!(back.parts.is_empty());
}

#[test]
fn song_round_trip_keeps_odd_patterns_bit_exact() {
    // A negative-zero beat, a not-a-number duration and an infinite
    // frequency survive the trip bit for bit.
    let odd = Note::new(bits(-0.0), 0x7fc0_0001, bits(f32::INFINITY), bits(-2.5)).unwrap();
    let mut p = Part::new(b"odd".to_vec());
    p.notes.push(odd);
    let mut song = Song::new(b"odd song".to_vec(), 7);
    song.parts.push(p);
    let encoded = song.serialize().unwrap();
    let back = Song::deserialize(&encoded).unwrap();
    assert_eq!(back.parts[0].notes[0].beat, bits(-0.0));
    assert_eq!(back.parts[0].notes[0].duration, 0x7fc0_0001);
    assert_eq!(back.parts[0].notes[0].frequency, bits(f32::INFINITY));
    assert_eq!(back.parts[0].notes[0].volume, bits(-2.5));
}

#[test]
fn decode_short_name_buffer_is_a_length_error() {
    // The header says ten name bytes; only three follow.
    let data = vec![10u8, 0, b'a', b'b', b'c'];
    assert_eq!(Song::deserialize(&data), Err(DecodeError::MissingName));
    assert_eq!(Part::deserialize(&data), Err(DecodeError::MissingName));
}

#[test]
fn decode_errors_name_each_boundary() {
    assert_eq!(Song::deserialize(&[5]), Err(DecodeError::MissingNameLen));
    assert_eq!(Song::deserialize(&[1, 0, b'x']), Err(DecodeError::MissingTempo));
    assert_eq!(Song::deserialize(&[1, 0, b'x', 120, 0]), Err(DecodeError::MissingCount));
    assert_eq!(
        Song::deserialize(&[1, 0, b'x', 120, 0, 1, 0]),
        Err(DecodeError::MissingPartLen)
    );
    assert_eq!(
        Song::deserialize(&[1, 0, b'x', 120, 0, 1, 0, 9, 0]),
        Err(DecodeError::MissingPart)
    );
    // A part whose note count announces more notes than there are bytes.
    assert_eq!(Part::deserialize(&[0, 0, 1, 0]), Err(DecodeError::MissingNote));
    assert_eq!(Part::deserialize(&[0]), Err(DecodeError::MissingNameLen));
    assert_eq!(Part::deserialize(&[0, 0]), Err(DecodeError::MissingCount));
}

#[test]
fn decode_ignores_trailing_bytes() {
    let song = Song::new(b"tail".to_vec(), 88);
    let mut encoded = song.serialize().unwrap();
    encoded.extend([1, 2, 3]);
    let back = Song::deserialize(&encoded).unwrap();
    assert_eq!(back.name, song.name);
    assert_eq!(back.bpm, 88);
}

#[test]
fn serialize_rejects_oversize_name() {
    let song = Song::new(vec![b'x'; 70000], 100);
    assert_eq!(song.serialize(), Err(song_maker::codec::EncodeError::NameTooLong));
    let part = Part::new(vec![b'y'; 65536]);
    assert_eq!(part.serialize(), Err(song_maker::codec::EncodeError::NameTooLong));
}

#[test]
fn serializable_trait_round_trips() {
    let n = note(0.0, 1.0, 440.0, 1.0);
    let b = Serializable::serialize(&n).unwrap();
    let back: Note = Serializable::deserialize(&b).unwrap();
    assert_eq!(back, n);
}
