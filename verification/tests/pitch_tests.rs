use song_maker::choice::Choice;
use song_maker::pitch::{freq_from_str, Accidental};

fn chars(s: &str) -> Vec<char> {
    s.chars().collect()
}

#[test]
fn accidental_characters() {
    assert_eq!(Accidental::from_char('b'), Some(Accidental::Flat));
    assert_eq!(Accidental::from_char('#'), Some(Accidental::Sharp));
    assert_eq!(Accidental::from_char('x'), None);
    assert_eq!(Accidental::from_char('4'), None);
}

#[test]
fn named_pitches_double_per_octave() {
    // A4 is the 440 cycles-per-second reference: 27.5 doubled four times.
    assert_eq!(freq_from_str(&chars("A4")), Some(440.0f32.to_bits()));
    assert_eq!(freq_from_str(&chars("a4")), Some(440.0f32.to_bits()));
    assert_eq!(freq_from_str(&chars("A1")), Some((27.5f32 * 2.0).to_bits()));
    assert_eq!(freq_from_str(&chars("C#6")), Some((34.65f32 * 64.0).to_bits()));
    assert_eq!(freq_from_str(&chars("Ab2")), Some((25.96f32 * 4.0).to_bits()));
    assert_eq!(freq_from_str(&chars("G7")), Some((49.0f32 * 128.0).to_bits()));
}

#[test]
fn unknown_names_yield_nothing() {
    assert_eq!(freq_from_str(&chars("B#4")), None);
    assert_eq!(freq_from_str(&chars("Cb4")), None);
    assert_eq!(freq_from_str(&chars("E#2")), None);
    assert_eq!(freq_from_str(&chars("Fb2")), None);
    assert_eq!(freq_from_str(&chars("H4")), None);
}

#[test]
fn octaves_outside_one_to_seven_yield_nothing() {
    assert_eq!(freq_from_str(&chars("A0")), None);
    assert_eq!(freq_from_str(&chars("A8")), None);
    assert_eq!(freq_from_str(&chars("A#0")), None);
    assert_eq!(freq_from_str(&chars("A#8")), None);
}

#[test]
fn malformed_names_yield_nothing() {
    assert_eq!(freq_from_str(&chars("")), None);
    assert_eq!(freq_from_str(&chars("A")), None);
    assert_eq!(freq_from_str(&chars("A#")), None);
    assert_eq!(freq_from_str(&chars("Ax")), None);
    // Characters past the octave digit are ignored, as in the original.
    assert_eq!(freq_from_str(&chars("A4zzz")), Some(440.0f32.to_bits()));
}

#[test]
fn choices_run_their_callback() {
    let double = Choice::new(String::from("double it"), |x: u32| (x * 2, x % 2 == 0));
    assert_eq!(double.prompt, "double it");
    let (value, was_even) = double.call(21);
    assert_eq!(value, 42);
    assert!(!was_even);
}
