//! Note numbers and the raw three-byte commands sent to the output
//! device.
//!
//! A piano key `k` in `[1, 88]` plays as note number `k + 20`, so the
//! 88 keys sit at note numbers 21 through 108 of the 7-bit note-number
//! space.

use vstd::prelude::*;

verus! {

use crate::key::PianoKey;

/// A 7-bit note number.
#[derive(Debug, Clone, Copy, PartialEq, Eq, Structural, PartialOrd, Ord, Hash)]
pub struct MidiNote(u8);

impl MidiNote {
    /// The note number.
    pub closed spec fn num(self) -> int {
        self.0 as int
    }

    /// A note number is 7 bits wide.
    pub open spec fn wf(self) -> bool {
        self.num() < 128
    }

    /// Wrap a 7-bit note number.
    pub fn new(number: u8) -> (r: Self)
        requires
            number < 128,
        ensures
            r.num() == number,
            r.wf(),
    {
        MidiNote(number)
    }

    /// The note sounding the given piano key: note number `key + 20`.
    pub fn from_piano_key(key: PianoKey) -> (r: Self)
        requires
            key.wf(),
        ensures
            r.num() == key.num() + 20,
            r.wf(),
    {
        MidiNote(key.number() + 20)
    }

    /// The note number as a byte.
    pub fn as_u8(&self) -> (r: u8)
        ensures
            r == self.num(),
    {
        self.0
    }
}

/// A command for the output device, each three bytes on the wire.
#[derive(Debug, Clone, Copy, PartialEq, Eq, Structural, PartialOrd, Ord, Hash)]
pub enum MidiCommand {
    /// Start sounding a note, with a 7-bit velocity.
    NoteOn(MidiNote, u8),
    /// Stop sounding a note, with a 7-bit velocity.
    NoteOff(MidiNote, u8),
    /// Silence everything.
    AllSoundOff,
    /// Bend pitch by a 14-bit amount.
    PitchBendChange(u16),
}

impl MidiCommand {
    /// The three bytes of this command on the wire: a status byte and
    /// two data bytes. Pitch-bend amounts are split into their low and
    /// high 7 bits.
    pub fn to_bytes(self) -> (r: [u8; 3])
        ensures
            r@.len() == 3,
            match self {
                MidiCommand::NoteOn(note, velocity) => r@[0] == 0x90u8 && r@[1] == note.num()
                    && r@[2] == velocity,
                MidiCommand::NoteOff(note, velocity) => r@[0] == 0x80u8 && r@[1] == note.num()
                    && r@[2] == velocity,
                MidiCommand::AllSoundOff => r@[0] == 0xb0u8 && r@[1] == 0x78u8 && r@[2] == 0u8,
                MidiCommand::PitchBendChange(change) => r@[0] == 0xe0u8 && r@[1]
                    == change as int % 128 && r@[2] == change as int / 128 % 128,
            },
    {
        match self {
            MidiCommand::NoteOn(note, velocity) => [0x90, note.as_u8(), velocity],
            MidiCommand::NoteOff(note, velocity) => [0x80, note.as_u8(), velocity],
            MidiCommand::AllSoundOff => [0xb0, 0x78, 0x00],
            MidiCommand::PitchBendChange(change) => [
                0xe0,
                (change % 128) as u8,
                (change / 128 % 128) as u8,
            ],
        }
    }
}

/// A command for the playback engine.
#[derive(Debug, Clone, Copy, PartialEq, Eq, Structural, Hash)]
pub enum MidiThreadCommand {
    /// Sound a note for the given number of milliseconds.
    PlayNote(MidiNote, u64),
}

} // verus!
