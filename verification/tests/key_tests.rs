use pitch::key::Accidental;
use pitch::key::MusicalNote;
use pitch::key::NoteLetter;
use pitch::key::PianoKey;

#[test]
fn same_pitch() {
    assert!(
        MusicalNote::new(NoteLetter::A, Some(Accidental::Sharp), 0)
            .is_same_pitch_as(&MusicalNote::new(NoteLetter::B, Some(Accidental::Flat), 0))
    )
}

#[test]
fn as_note() {
    // As0
    assert_eq!(
        PianoKey::new(2).unwrap().as_note(Accidental::Sharp),
        MusicalNote::new(NoteLetter::A, Some(Accidental::Sharp), 0)
    );

    // Bb0
    assert_eq!(
        PianoKey::new(2).unwrap().as_note(Accidental::Flat),
        MusicalNote::new(NoteLetter::B, Some(Accidental::Flat), 0)
    );

    // C4
    assert_eq!(
        PianoKey::new(40).unwrap().as_note(Accidental::Sharp),
        MusicalNote::new(NoteLetter::C, None, 4)
    );

    // Make sure naturals return the same for both preferences
    assert_eq!(
        PianoKey::new(40).unwrap().as_note(Accidental::Sharp),
        PianoKey::new(40).unwrap().as_note(Accidental::Flat),
    );
}

#[test]
fn as_key() {
    assert_eq!(
        MusicalNote::new(NoteLetter::C, None, 4).as_key(),
        PianoKey::new(40)
    );

    assert_eq!(
        MusicalNote::new(NoteLetter::A, None, 0).as_key(),
        PianoKey::new(1)
    );

    assert_eq!(
        MusicalNote::new(NoteLetter::A, Some(Accidental::Sharp), 0).as_key(),
        PianoKey::new(2)
    );
    assert_eq!(
        MusicalNote::new(NoteLetter::B, Some(Accidental::Flat), 0).as_key(),
        PianoKey::new(2)
    );

    assert_eq!(
        MusicalNote::new(NoteLetter::A, None, 1).as_key(),
        PianoKey::new(13)
    );

    assert_eq!(MusicalNote::new(NoteLetter::C, None, 0).as_key(), None);
}

#[test]
fn key_range() {
    assert_eq!(PianoKey::new(0), None);
    assert_eq!(PianoKey::new(89), None);
    assert_eq!(PianoKey::new(1).unwrap().number(), 1);
    assert_eq!(PianoKey::new(88).unwrap().number(), 88);
}

#[test]
fn all_keys_highest_first() {
    let keys = PianoKey::all();
    assert_eq!(keys.len(), 88);
    assert_eq!(keys[0].number(), 88);
    assert_eq!(keys[87].number(), 1);
}

#[test]
fn concert_pitch_reference_points() {
    // A4 is 440 Hz exactly; A0 27.5 Hz; C8 4186.009 Hz.
    assert_eq!(PianoKey::new(49).unwrap().concert_pitch(), 440_000);
    assert_eq!(PianoKey::new(1).unwrap().concert_pitch(), 27_500);
    assert_eq!(PianoKey::new(88).unwrap().concert_pitch(), 4_186_009);
}

#[test]
fn concert_pitch_round_trip_all_keys() {
    for n in 1u8..=88 {
        let key = PianoKey::new(n).unwrap();
        assert_eq!(PianoKey::from_concert_pitch(key.concert_pitch()), Some(key));
    }
}

#[test]
fn from_concert_pitch_rounds_to_nearest_semitone() {
    // A flat-ish 430.66 Hz still rounds to A4.
    assert_eq!(PianoKey::from_concert_pitch(430_664), PianoKey::new(49));
    // Far outside the piano's range on both sides.
    assert_eq!(PianoKey::from_concert_pitch(10_000), None);
    assert_eq!(PianoKey::from_concert_pitch(10_000_000), None);
    assert_eq!(PianoKey::from_concert_pitch(0), None);
}

#[test]
fn naturals_ignore_preference() {
    for n in 1u8..=88 {
        let key = PianoKey::new(n).unwrap();
        if key.is_white() {
            assert_eq!(key.as_note(Accidental::Sharp), key.as_note(Accidental::Flat));
        } else {
            assert!(key.as_note(Accidental::Sharp) != key.as_note(Accidental::Flat));
        }
    }
}

#[test]
fn flat_spelling_keeps_the_octave() {
    // G#1 / Ab1 are the same key (12); both spellings stay in octave 1
    // and map back to the key.
    let key = PianoKey::new(12).unwrap();
    assert_eq!(
        key.as_note(Accidental::Sharp),
        MusicalNote::new(NoteLetter::G, Some(Accidental::Sharp), 1)
    );
    assert_eq!(
        key.as_note(Accidental::Flat),
        MusicalNote::new(NoteLetter::A, Some(Accidental::Flat), 1)
    );
    assert!(key
        .as_note(Accidental::Sharp)
        .is_same_pitch_as(&key.as_note(Accidental::Flat)));
}

#[test]
fn note_round_trip_all_keys() {
    // The note a key is written as denotes that key's pitch, under
    // either preference.
    for n in 1u8..=88 {
        let key = PianoKey::new(n).unwrap();
        assert_eq!(key.as_note(Accidental::Sharp).as_key(), Some(key));
        assert_eq!(key.as_note(Accidental::Flat).as_key(), Some(key));
    }
}

#[test]
fn white_and_black_keys() {
    // A0 is white, A#0 black.
    assert!(PianoKey::new(1).unwrap().is_white());
    assert!(PianoKey::new(2).unwrap().is_black());
    // Middle C.
    assert!(PianoKey::new(40).unwrap().is_white());
    let whites = (1u8..=88)
        .filter(|&n| PianoKey::new(n).unwrap().is_white())
        .count();
    assert_eq!(whites, 52);
}

#[test]
fn semitone_offsets() {
    assert_eq!(NoteLetter::C.semitone(), 0);
    assert_eq!(NoteLetter::B.semitone(), 11);
    assert_eq!(Accidental::Sharp.semitone_delta(), 1);
    assert_eq!(Accidental::Flat.semitone_delta(), -1);
    let note = MusicalNote::new(NoteLetter::E, Some(Accidental::Flat), 2);
    assert_eq!(note.semitone_offset(), 3);
    assert_eq!(note.semitone(), 27);
    assert_eq!(note.letter(), NoteLetter::E);
    assert_eq!(note.accidental(), Some(Accidental::Flat));
    assert_eq!(note.octave(), 2);
}
