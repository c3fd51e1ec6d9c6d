use pitch::key::PianoKey;
use pitch::midi::MidiCommand;
use pitch::midi::MidiNote;
use pitch::presses::KeyPress;
use pitch::presses::KeyPresses;
use pitch::scheduler::NoteScheduler;
use pitch::scheduler::SessionState;

fn single_key(number: u8, presses: &[(u64, u64)]) -> Vec<(PianoKey, KeyPresses)> {
    let key = PianoKey::new(number).unwrap();
    let mut set = KeyPresses::new();
    for &(start, duration) in presses {
        set.add(KeyPress::new(start, duration, 1));
    }
    vec![(key, set)]
}

#[test]
fn single_press_emits_one_on_off_pair() {
    // A4 pressed at 0 ms for 500 ms, played from epoch 1000: exactly
    // one note-on at 1000 and one note-off at 1500, in that order.
    let notes = single_key(49, &[(0, 500)]);
    let mut session = NoteScheduler::play(&notes, 1000);
    assert!(matches!(session.state(), SessionState::Scheduled));
    assert_eq!(session.next_deadline(), Some(1000));

    let a4 = MidiNote::new(69);
    assert_eq!(session.step(), Some(MidiCommand::NoteOn(a4, 127)));
    assert_eq!(session.notes_played(), 1);
    assert!(matches!(session.state(), SessionState::Playing));
    assert_eq!(session.next_deadline(), Some(1500));

    assert_eq!(session.step(), Some(MidiCommand::NoteOff(a4, 127)));
    assert_eq!(session.next_deadline(), None);

    assert_eq!(session.step(), None);
    assert!(matches!(session.state(), SessionState::Finished));
}

#[test]
fn overlapping_presses_extend_the_sounding_note() {
    // Two overlapping presses of the same key, (0, 300) and (100,
    // 400): one note-on, no second note-on while the note sounds, and
    // a single note-off at the later off-time 500.
    let notes = single_key(49, &[(0, 300), (100, 400)]);
    assert_eq!(notes[0].1.len(), 2);
    let mut session = NoteScheduler::play(&notes, 0);
    let a4 = MidiNote::new(69);

    assert_eq!(session.step(), Some(MidiCommand::NoteOn(a4, 127)));
    // The second play deadline (at 100) fires before the pending off
    // (at 300), finds the note sounding, and emits nothing.
    assert_eq!(session.next_deadline(), Some(100));
    assert_eq!(session.step(), None);
    assert_eq!(session.notes_played(), 2);
    // The off deadline was pushed out to 100 + 400 = 500.
    assert_eq!(session.next_deadline(), Some(500));
    assert_eq!(session.step(), Some(MidiCommand::NoteOff(a4, 127)));
    assert_eq!(session.step(), None);
    assert!(matches!(session.state(), SessionState::Finished));
}

#[test]
fn deadlines_fire_in_order_across_keys() {
    let low = PianoKey::new(1).unwrap();
    let high = PianoKey::new(88).unwrap();
    let mut first = KeyPresses::new();
    first.add(KeyPress::new(0, 50, 1));
    let mut second = KeyPresses::new();
    second.add(KeyPress::new(10, 50, 1));
    let notes = vec![(low, first), (high, second)];
    let mut session = NoteScheduler::play(&notes, 0);

    assert_eq!(
        session.step(),
        Some(MidiCommand::NoteOn(MidiNote::new(21), 127))
    );
    assert_eq!(
        session.step(),
        Some(MidiCommand::NoteOn(MidiNote::new(108), 127))
    );
    assert_eq!(
        session.step(),
        Some(MidiCommand::NoteOff(MidiNote::new(21), 127))
    );
    assert_eq!(
        session.step(),
        Some(MidiCommand::NoteOff(MidiNote::new(108), 127))
    );
    assert_eq!(session.step(), None);
}

#[test]
fn cancel_mid_playback_flushes_every_sounding_note() {
    // Three keys start sounding; cancelling mid-playback must still
    // deliver a note-off for each note that received its note-on.
    let mut notes = Vec::new();
    for number in [30u8, 40, 50] {
        let mut set = KeyPresses::new();
        set.add(KeyPress::new(0, 1000, 1));
        notes.push((PianoKey::new(number).unwrap(), set));
    }
    let mut session = NoteScheduler::play(&notes, 0);
    let mut turned_on = Vec::new();
    for _ in 0..3 {
        match session.step() {
            Some(MidiCommand::NoteOn(note, 127)) => turned_on.push(note.as_u8()),
            other => panic!("expected a note-on, got {:?}", other),
        }
    }
    assert_eq!(session.pending_on_count(), 0);
    assert_eq!(session.pending_off_count(), 3);

    session.cancel();
    assert!(matches!(session.state(), SessionState::Cancelled));
    // Cancellation drops no pending note-off.
    assert_eq!(session.pending_off_count(), 3);

    let mut turned_off = Vec::new();
    for command in session.flush() {
        match command {
            MidiCommand::NoteOff(note, 127) => turned_off.push(note.as_u8()),
            other => panic!("expected a note-off, got {:?}", other),
        }
    }
    turned_on.sort();
    turned_off.sort();
    assert_eq!(turned_on, turned_off);
    assert_eq!(session.pending_off_count(), 0);
}

#[test]
fn cancel_stops_future_note_ons() {
    let notes = single_key(49, &[(0, 100), (500, 100)]);
    let mut session = NoteScheduler::play(&notes, 0);
    assert_eq!(
        session.step(),
        Some(MidiCommand::NoteOn(MidiNote::new(69), 127))
    );
    session.cancel();
    assert_eq!(session.pending_on_count(), 0);
    // Only the pending note-off remains.
    let flushed = session.flush();
    assert_eq!(
        flushed,
        vec![MidiCommand::NoteOff(MidiNote::new(69), 127)]
    );
    assert_eq!(session.notes_played(), 1);
}

#[test]
fn command_bytes() {
    let note = MidiNote::new(69);
    assert_eq!(note.as_u8(), 69);
    assert_eq!(
        MidiNote::from_piano_key(PianoKey::new(49).unwrap()).as_u8(),
        69
    );
    assert_eq!(
        MidiCommand::NoteOn(note, 127).to_bytes(),
        [0b1001_0000, 69, 127]
    );
    assert_eq!(
        MidiCommand::NoteOff(note, 64).to_bytes(),
        [0b1000_0000, 69, 64]
    );
    assert_eq!(
        MidiCommand::AllSoundOff.to_bytes(),
        [0b1011_0000, 0b0111_1000, 0]
    );
    assert_eq!(
        MidiCommand::PitchBendChange(0x1234).to_bytes(),
        [0b1110_0000, 0x34, 0x24]
    );
}
