//! Piano keys, musical notes, and concert-pitch conversion.
//!
//! A piano key is an integer in `[1, 88]` (1 = A0, 88 = C8). Concert
//! pitch follows twelve-tone equal temperament around A4 = 440 Hz:
//! key `k` sounds at `440 * 2^((k - 49) / 12)` Hz. Frequencies are
//! handled in millihertz, so the irrational pitches and the semitone
//! boundaries between keys become fixed integer tables.

use vstd::prelude::*;

verus! {


/// A note letter of the western scale.
#[derive(Clone, Copy, Debug, PartialEq, Eq, Structural, Hash)]
pub enum NoteLetter {
    A,
    B,
    C,
    D,
    E,
    F,
    G,
}

impl NoteLetter {
    /// The semitone within the octave (counted from C) that this letter names.
    pub open spec fn semitone_spec(self) -> int {
        match self {
            NoteLetter::C => 0,
            NoteLetter::D => 2,
            NoteLetter::E => 4,
            NoteLetter::F => 5,
            NoteLetter::G => 7,
            NoteLetter::A => 9,
            NoteLetter::B => 11,
        }
    }

    /// The semitone in the octave that this note represents.
    pub fn semitone(&self) -> (r: u8)
        ensures
            r as int == self.semitone_spec(),
    {
        match self {
            NoteLetter::C => 0,
            NoteLetter::D => 2,
            NoteLetter::E => 4,
            NoteLetter::F => 5,
            NoteLetter::G => 7,
            NoteLetter::A => 9,
            NoteLetter::B => 11,
        }
    }
}

/// A sharp or flat mark on a note.
#[derive(Clone, Copy, Debug, PartialEq, Eq, Structural, Hash)]
pub enum Accidental {
    Sharp,
    Flat,
}

impl Accidental {
    /// The semitone change represented by this accidental.
    pub open spec fn semitone_delta_spec(self) -> int {
        match self {
            Accidental::Sharp => 1,
            Accidental::Flat => -1,
        }
    }

    /// The semitone change represented by this accidental.
    pub fn semitone_delta(&self) -> (r: i8)
        ensures
            r as int == self.semitone_delta_spec(),
    {
        match self {
            Accidental::Sharp => 1,
            Accidental::Flat => -1,
        }
    }
}

/// A named note: letter, optional accidental, and octave.
#[derive(Clone, Copy, Debug, Hash)]
pub struct MusicalNote {
    pub letter: NoteLetter,
    pub accidental: Option<Accidental>,
    pub octave: u8,
}

impl PartialEq for MusicalNote {
    fn eq(&self, other: &Self) -> (r: bool) {
        let same_accidental = match (self.accidental, other.accidental) {
            (None, None) => true,
            (Some(a), Some(b)) => a == b,
            _ => false,
        };
        self.letter == other.letter && same_accidental && self.octave == other.octave
    }
}

impl vstd::std_specs::cmp::PartialEqSpecImpl for MusicalNote {
    open spec fn obeys_eq_spec() -> bool {
        true
    }

    open spec fn eq_spec(&self, other: &Self) -> bool {
        self.letter == other.letter && self.accidental == other.accidental
            && self.octave == other.octave
    }
}

impl MusicalNote {
    pub fn new(letter: NoteLetter, accidental: Option<Accidental>, octave: u8) -> (r: Self)
        ensures
            r == (MusicalNote { letter, accidental, octave }),
    {
        MusicalNote { letter, accidental, octave }
    }

    /// Get the musical note's letter.
    pub fn letter(&self) -> (r: NoteLetter)
        ensures
            r == self.letter,
    {
        self.letter
    }

    /// Get the musical note's accidental.
    pub fn accidental(&self) -> (r: Option<Accidental>)
        ensures
            r == self.accidental,
    {
        self.accidental
    }

    /// Get the musical note's octave.
    pub fn octave(&self) -> (r: u8)
        ensures
            r == self.octave,
    {
        self.octave
    }

    /// The amount of semitones this note is off from its octave.
    pub open spec fn semitone_offset_spec(self) -> int {
        self.letter.semitone_spec() + match self.accidental {
            Some(a) => a.semitone_delta_spec(),
            None => 0,
        }
    }

    /// Get the amount of semitones this note is off from its octave.
    pub fn semitone_offset(&self) -> (r: i8)
        ensures
            r as int == self.semitone_offset_spec(),
    {
        self.letter.semitone() as i8 + match self.accidental {
            Some(a) => a.semitone_delta(),
            None => 0,
        }
    }

    /// Check if two notes represent the same pitch, even if they are
    /// written with different letters or accidentals.
    pub fn is_same_pitch_as(&self, other: &Self) -> (r: bool)
        ensures
            r == (self.octave == other.octave && self.semitone_offset_spec()
                == other.semitone_offset_spec()),
    {
        self.octave == other.octave && self.semitone_offset() == other.semitone_offset()
    }

    /// The twelve-tone equal temperament semitone from C0.
    pub open spec fn semitone_from_c0_spec(self) -> int {
        12 * self.octave + self.semitone_offset_spec()
    }

    /// Get the twelve-tone equal temperament semitone from C0.
    pub fn semitone(&self) -> (r: u8)
        requires
            0 <= self.semitone_from_c0_spec() <= 255,
        ensures
            r as int == self.semitone_from_c0_spec(),
    {
        (self.octave as i32 * 12 + self.semitone_offset() as i32) as u8
    }

    /// The piano key sounding this note, if it lies on the 88-key piano.
    pub fn as_key(&self) -> (r: Option<PianoKey>)
        ensures
            match r {
                Some(k) => self.octave <= 8 && 9 <= self.semitone_from_c0_spec() <= 96
                    && k.num() == self.semitone_from_c0_spec() - 8,
                None => !(self.octave <= 8 && 9 <= self.semitone_from_c0_spec() <= 96),
            },
    {
        if self.octave > 8 {
            return None;
        }
        let semitone: i32 = self.octave as i32 * 12 + self.semitone_offset() as i32;
        if 9 <= semitone && semitone <= 96 {
            Some(PianoKey((semitone - 8) as u8))
        } else {
            None
        }
    }
}

/// An integer piano key in the range 1 - 88.
#[derive(Clone, Copy, Debug, PartialEq, Eq, Structural, Hash)]
pub struct PianoKey(u8);

/// Concert pitch of piano key `k`, in millihertz: `440000 * 2^((k - 49) / 12)`
/// rounded to the nearest integer. Zero outside `[1, 88]`.
pub open spec fn pitch_mhz(k: int) -> int {
    if k == 1 {
        27500
    } else if k == 2 {
        29135
    } else if k == 3 {
        30868
    } else if k == 4 {
        32703
    } else if k == 5 {
        34648
    } else if k == 6 {
        36708
    } else if k == 7 {
        38891
    } else if k == 8 {
        41203
    } else if k == 9 {
        43654
    } else if k == 10 {
        46249
    } else if k == 11 {
        48999
    } else if k == 12 {
        51913
    } else if k == 13 {
        55000
    } else if k == 14 {
        58270
    } else if k == 15 {
        61735
    } else if k == 16 {
        65406
    } else if k == 17 {
        69296
    } else if k == 18 {
        73416
    } else if k == 19 {
        77782
    } else if k == 20 {
        82407
    } else if k == 21 {
        87307
    } else if k == 22 {
        92499
    } else if k == 23 {
        97999
    } else if k == 24 {
        103826
    } else if k == 25 {
        110000
    } else if k == 26 {
        116541
    } else if k == 27 {
        123471
    } else if k == 28 {
        130813
    } else if k == 29 {
        138591
    } else if k == 30 {
        146832
    } else if k == 31 {
        155563
    } else if k == 32 {
        164814
    } else if k == 33 {
        174614
    } else if k == 34 {
        184997
    } else if k == 35 {
        195998
    } else if k == 36 {
        207652
    } else if k == 37 {
        220000
    } else if k == 38 {
        233082
    } else if k == 39 {
        246942
    } else if k == 40 {
        261626
    } else if k == 41 {
        277183
    } else if k == 42 {
        293665
    } else if k == 43 {
        311127
    } else if k == 44 {
        329628
    } else if k == 45 {
        349228
    } else if k == 46 {
        369994
    } else if k == 47 {
        391995
    } else if k == 48 {
        415305
    } else if k == 49 {
        440000
    } else if k == 50 {
        466164
    } else if k == 51 {
        493883
    } else if k == 52 {
        523251
    } else if k == 53 {
        554365
    } else if k == 54 {
        587330
    } else if k == 55 {
        622254
    } else if k == 56 {
        659255
    } else if k == 57 {
        698456
    } else if k == 58 {
        739989
    } else if k == 59 {
        783991
    } else if k == 60 {
        830609
    } else if k == 61 {
        880000
    } else if k == 62 {
        932328
    } else if k == 63 {
        987767
    } else if k == 64 {
        1046502
    } else if k == 65 {
        1108731
    } else if k == 66 {
        1174659
    } else if k == 67 {
        1244508
    } else if k == 68 {
        1318510
    } else if k == 69 {
        1396913
    } else if k == 70 {
        1479978
    } else if k == 71 {
        1567982
    } else if k == 72 {
        1661219
    } else if k == 73 {
        1760000
    } else if k == 74 {
        1864655
    } else if k == 75 {
        1975533
    } else if k == 76 {
        2093005
    } else if k == 77 {
        2217461
    } else if k == 78 {
        2349318
    } else if k == 79 {
        2489016
    } else if k == 80 {
        2637020
    } else if k == 81 {
        2793826
    } else if k == 82 {
        2959955
    } else if k == 83 {
        3135963
    } else if k == 84 {
        3322438
    } else if k == 85 {
        3520000
    } else if k == 86 {
        3729310
    } else if k == 87 {
        3951066
    } else if k == 88 {
        4186009
    } else {
        0
    }
}

/// Lower frequency boundary of piano key `k` in millihertz: the pitch a
/// quarter tone below the key, `440000 * 2^((2k - 99) / 24)` rounded to the
/// nearest integer. A frequency maps to key `k` exactly when it lies in
/// `[key_lower_mhz(k), key_lower_mhz(k + 1))`. Zero outside `[1, 89]`.
pub open spec fn key_lower_mhz(k: int) -> int {
    if k == 1 {
        26717
    } else if k == 2 {
        28306
    } else if k == 3 {
        29989
    } else if k == 4 {
        31772
    } else if k == 5 {
        33661
    } else if k == 6 {
        35663
    } else if k == 7 {
        37784
    } else if k == 8 {
        40030
    } else if k == 9 {
        42411
    } else if k == 10 {
        44933
    } else if k == 11 {
        47605
    } else if k == 12 {
        50435
    } else if k == 13 {
        53434
    } else if k == 14 {
        56612
    } else if k == 15 {
        59978
    } else if k == 16 {
        63544
    } else if k == 17 {
        67323
    } else if k == 18 {
        71326
    } else if k == 19 {
        75567
    } else if k == 20 {
        80061
    } else if k == 21 {
        84822
    } else if k == 22 {
        89865
    } else if k == 23 {
        95209
    } else if k == 24 {
        100870
    } else if k == 25 {
        106869
    } else if k == 26 {
        113223
    } else if k == 27 {
        119956
    } else if k == 28 {
        127089
    } else if k == 29 {
        134646
    } else if k == 30 {
        142652
    } else if k == 31 {
        151135
    } else if k == 32 {
        160122
    } else if k == 33 {
        169643
    } else if k == 34 {
        179731
    } else if k == 35 {
        190418
    } else if k == 36 {
        201741
    } else if k == 37 {
        213737
    } else if k == 38 {
        226446
    } else if k == 39 {
        239912
    } else if k == 40 {
        254178
    } else if k == 41 {
        269292
    } else if k == 42 {
        285305
    } else if k == 43 {
        302270
    } else if k == 44 {
        320244
    } else if k == 45 {
        339286
    } else if k == 46 {
        359461
    } else if k == 47 {
        380836
    } else if k == 48 {
        403482
    } else if k == 49 {
        427474
    } else if k == 50 {
        452893
    } else if k == 51 {
        479823
    } else if k == 52 {
        508355
    } else if k == 53 {
        538584
    } else if k == 54 {
        570609
    } else if k == 55 {
        604540
    } else if k == 56 {
        640487
    } else if k == 57 {
        678573
    } else if k == 58 {
        718923
    } else if k == 59 {
        761672
    } else if k == 60 {
        806964
    } else if k == 61 {
        854948
    } else if k == 62 {
        905786
    } else if k == 63 {
        959647
    } else if k == 64 {
        1016710
    } else if k == 65 {
        1077167
    } else if k == 66 {
        1141219
    } else if k == 67 {
        1209079
    } else if k == 68 {
        1280975
    } else if k == 69 {
        1357146
    } else if k == 70 {
        1437846
    } else if k == 71 {
        1523344
    } else if k == 72 {
        1613927
    } else if k == 73 {
        1709896
    } else if k == 74 {
        1811572
    } else if k == 75 {
        1919294
    } else if k == 76 {
        2033421
    } else if k == 77 {
        2154334
    } else if k == 78 {
        2282438
    } else if k == 79 {
        2418158
    } else if k == 80 {
        2561950
    } else if k == 81 {
        2714291
    } else if k == 82 {
        2875691
    } else if k == 83 {
        3046689
    } else if k == 84 {
        3227854
    } else if k == 85 {
        3419792
    } else if k == 86 {
        3623144
    } else if k == 87 {
        3838587
    } else if k == 88 {
        4066841
    } else if k == 89 {
        4308668
    } else {
        0
    }
}

/// Smallest key at or above `k` whose upper boundary lies above `f`
/// (the nearest-semitone rounding scan, clamped at key 88).
pub open spec fn key_scan(f: int, k: int) -> int
    decreases 88 - k,
{
    if k >= 88 || f < key_lower_mhz(k + 1) {
        k
    } else {
        key_scan(f, k + 1)
    }
}

/// The piano key whose semitone is nearest to frequency `f` (millihertz),
/// or `None` when `f` rounds to a semitone outside the 88-key range.
pub open spec fn key_from_mhz(f: int) -> Option<int> {
    if key_lower_mhz(1) <= f < key_lower_mhz(89) {
        Some(key_scan(f, 1))
    } else {
        None
    }
}

impl PianoKey {
    /// The key's number, 1 (A0) through 88 (C8).
    pub closed spec fn num(self) -> int {
        self.0 as int
    }

    /// A well-formed key lies on the piano.
    pub open spec fn wf(self) -> bool {
        1 <= self.num() <= 88
    }

    /// All the piano keys from highest to lowest.
    pub fn all() -> (r: Vec<PianoKey>)
        ensures
            r@.len() == 88,
            forall|i: int| 0 <= i < 88 ==> (#[trigger] r@[i]).num() == 88 - i,
    {
        let mut keys: Vec<PianoKey> = Vec::new();
        let mut k: u8 = 88;
        while k >= 1
            invariant
                k <= 88,
                keys@.len() == 88 - k,
                forall|i: int| 0 <= i < keys@.len() ==> (#[trigger] keys@[i]).num() == 88 - i,
            decreases k,
        {
            keys.push(PianoKey(k));
            k = k - 1;
        }
        keys
    }

    /// The key numbered `key`, if `key` lies in `[1, 88]`.
    pub fn new(key: u8) -> (r: Option<PianoKey>)
        ensures
            match r {
                Some(p) => 1 <= key <= 88 && p.num() == key,
                None => key == 0 || key > 88,
            },
    {
        if 1 <= key && key <= 88 {
            Some(PianoKey(key))
        } else {
            None
        }
    }

    /// The key's number, 1 through 88.
    pub fn number(&self) -> (r: u8)
        ensures
            r as int == self.num(),
    {
        self.0
    }

    /// Semitone offset of this key within its octave, counted from C.
    pub open spec fn note_offset(self) -> int {
        (self.num() + 8) % 12
    }

    /// Octave of this key, counted so that the octave starts at C.
    pub open spec fn octave_spec(self) -> int {
        (self.num() + 8) / 12
    }

    /// The note this key sounds, written with the given accidental
    /// preference. Keys on a natural semitone ignore the preference.
    pub open spec fn as_note_spec(self, preference: Accidental) -> MusicalNote {
        let o = self.note_offset();
        let octave = self.octave_spec() as u8;
        if o == 0 {
            MusicalNote { letter: NoteLetter::C, accidental: None, octave }
        } else if o == 1 {
            match preference {
                Accidental::Sharp => MusicalNote {
                    letter: NoteLetter::C,
                    accidental: Some(Accidental::Sharp),
                    octave,
                },
                Accidental::Flat => MusicalNote {
                    letter: NoteLetter::D,
                    accidental: Some(Accidental::Flat),
                    octave,
                },
            }
        } else if o == 2 {
            MusicalNote { letter: NoteLetter::D, accidental: None, octave }
        } else if o == 3 {
            match preference {
                Accidental::Sharp => MusicalNote {
                    letter: NoteLetter::D,
                    accidental: Some(Accidental::Sharp),
                    octave,
                },
                Accidental::Flat => MusicalNote {
                    letter: NoteLetter::E,
                    accidental: Some(Accidental::Flat),
                    octave,
                },
            }
        } else if o == 4 {
            MusicalNote { letter: NoteLetter::E, accidental: None, octave }
        } else if o == 5 {
            MusicalNote { letter: NoteLetter::F, accidental: None, octave }
        } else if o == 6 {
            match preference {
                Accidental::Sharp => MusicalNote {
                    letter: NoteLetter::F,
                    accidental: Some(Accidental::Sharp),
                    octave,
                },
                Accidental::Flat => MusicalNote {
                    letter: NoteLetter::G,
                    accidental: Some(Accidental::Flat),
                    octave,
                },
            }
        } else if o == 7 {
            MusicalNote { letter: NoteLetter::G, accidental: None, octave }
        } else if o == 8 {
            match preference {
                Accidental::Sharp => MusicalNote {
                    letter: NoteLetter::G,
                    accidental: Some(Accidental::Sharp),
                    octave,
                },
                Accidental::Flat => MusicalNote {
                    letter: NoteLetter::A,
                    accidental: Some(Accidental::Flat),
                    octave,
                },
            }
        } else if o == 9 {
            MusicalNote { letter: NoteLetter::A, accidental: None, octave }
        } else if o == 10 {
            match preference {
                Accidental::Sharp => MusicalNote {
                    letter: NoteLetter::A,
                    accidental: Some(Accidental::Sharp),
                    octave,
                },
                Accidental::Flat => MusicalNote {
                    letter: NoteLetter::B,
                    accidental: Some(Accidental::Flat),
                    octave,
                },
            }
        } else {
            MusicalNote { letter: NoteLetter::B, accidental: None, octave }
        }
    }

    /// The note this key sounds under the given accidental preference.
    pub fn as_note(&self, preference: Accidental) -> (r: MusicalNote)
        requires
            self.wf(),
        ensures
            r == self.as_note_spec(preference),
    {
        // Although the piano starts with A0, the octave starts with C0.
        let key_from_c0 = self.0 + 8;
        let note_offset = key_from_c0 % 12;
        let octave = key_from_c0 / 12;
        match (note_offset, preference) {
            (0, _) => MusicalNote::new(NoteLetter::C, None, octave),
            (1, Accidental::Sharp) => MusicalNote::new(NoteLetter::C, Some(Accidental::Sharp), octave),
            (1, Accidental::Flat) => MusicalNote::new(NoteLetter::D, Some(Accidental::Flat), octave),
            (2, _) => MusicalNote::new(NoteLetter::D, None, octave),
            (3, Accidental::Sharp) => MusicalNote::new(NoteLetter::D, Some(Accidental::Sharp), octave),
            (3, Accidental::Flat) => MusicalNote::new(NoteLetter::E, Some(Accidental::Flat), octave),
            (4, _) => MusicalNote::new(NoteLetter::E, None, octave),
            (5, _) => MusicalNote::new(NoteLetter::F, None, octave),
            (6, Accidental::Sharp) => MusicalNote::new(NoteLetter::F, Some(Accidental::Sharp), octave),
            (6, Accidental::Flat) => MusicalNote::new(NoteLetter::G, Some(Accidental::Flat), octave),
            (7, _) => MusicalNote::new(NoteLetter::G, None, octave),
            (8, Accidental::Sharp) => MusicalNote::new(NoteLetter::G, Some(Accidental::Sharp), octave),
            (8, Accidental::Flat) => MusicalNote::new(NoteLetter::A, Some(Accidental::Flat), octave),
            (9, _) => MusicalNote::new(NoteLetter::A, None, octave),
            (10, Accidental::Sharp) => MusicalNote::new(NoteLetter::A, Some(Accidental::Sharp), octave),
            (10, Accidental::Flat) => MusicalNote::new(NoteLetter::B, Some(Accidental::Flat), octave),
            (_, _) => MusicalNote::new(NoteLetter::B, None, octave),
        }
    }

    /// Whether this key sounds a natural (white-key) semitone.
    pub open spec fn is_white_spec(self) -> bool {
        let o = self.note_offset();
        o == 0 || o == 2 || o == 4 || o == 5 || o == 7 || o == 9 || o == 11
    }

    /// Whether this is a white key.
    pub fn is_white(&self) -> (r: bool)
        requires
            self.wf(),
        ensures
            r == self.is_white_spec(),
    {
        let note_offset = (self.0 + 8) % 12;
        match note_offset {
            0 | 2 | 4 | 5 | 7 | 9 | 11 => true,
            _ => false,
        }
    }

    /// Whether this is a black key.
    pub fn is_black(&self) -> (r: bool)
        requires
            self.wf(),
        ensures
            r == !self.is_white_spec(),
    {
        !self.is_white()
    }

    /// Lower frequency boundary of key `k` in millihertz.
    fn key_lower(k: u8) -> (r: u64)
        ensures
            r as int == key_lower_mhz(k as int),
    {
        let k = k as u64;
        if k == 1 {
            26717u64
        } else if k == 2 {
            28306u64
        } else if k == 3 {
            29989u64
        } else if k == 4 {
            31772u64
        } else if k == 5 {
            33661u64
        } else if k == 6 {
            35663u64
        } else if k == 7 {
            37784u64
        } else if k == 8 {
            40030u64
        } else if k == 9 {
            42411u64
        } else if k == 10 {
            44933u64
        } else if k == 11 {
            47605u64
        } else if k == 12 {
            50435u64
        } else if k == 13 {
            53434u64
        } else if k == 14 {
            56612u64
        } else if k == 15 {
            59978u64
        } else if k == 16 {
            63544u64
        } else if k == 17 {
            67323u64
        } else if k == 18 {
            71326u64
        } else if k == 19 {
            75567u64
        } else if k == 20 {
            80061u64
        } else if k == 21 {
            84822u64
        } else if k == 22 {
            89865u64
        } else if k == 23 {
            95209u64
        } else if k == 24 {
            100870u64
        } else if k == 25 {
            106869u64
        } else if k == 26 {
            113223u64
        } else if k == 27 {
            119956u64
        } else if k == 28 {
            127089u64
        } else if k == 29 {
            134646u64
        } else if k == 30 {
            142652u64
        } else if k == 31 {
            151135u64
        } else if k == 32 {
            160122u64
        } else if k == 33 {
            169643u64
        } else if k == 34 {
            179731u64
        } else if k == 35 {
            190418u64
        } else if k == 36 {
            201741u64
        } else if k == 37 {
            213737u64
        } else if k == 38 {
            226446u64
        } else if k == 39 {
            239912u64
        } else if k == 40 {
            254178u64
        } else if k == 41 {
            269292u64
        } else if k == 42 {
            285305u64
        } else if k == 43 {
            302270u64
        } else if k == 44 {
            320244u64
        } else if k == 45 {
            339286u64
        } else if k == 46 {
            359461u64
        } else if k == 47 {
            380836u64
        } else if k == 48 {
            403482u64
        } else if k == 49 {
            427474u64
        } else if k == 50 {
            452893u64
        } else if k == 51 {
            479823u64
        } else if k == 52 {
            508355u64
        } else if k == 53 {
            538584u64
        } else if k == 54 {
            570609u64
        } else if k == 55 {
            604540u64
        } else if k == 56 {
            640487u64
        } else if k == 57 {
            678573u64
        } else if k == 58 {
            718923u64
        } else if k == 59 {
            761672u64
        } else if k == 60 {
            806964u64
        } else if k == 61 {
            854948u64
        } else if k == 62 {
            905786u64
        } else if k == 63 {
            959647u64
        } else if k == 64 {
            1016710u64
        } else if k == 65 {
            1077167u64
        } else if k == 66 {
            1141219u64
        } else if k == 67 {
            1209079u64
        } else if k == 68 {
            1280975u64
        } else if k == 69 {
            1357146u64
        } else if k == 70 {
            1437846u64
        } else if k == 71 {
            1523344u64
        } else if k == 72 {
            1613927u64
        } else if k == 73 {
            1709896u64
        } else if k == 74 {
            1811572u64
        } else if k == 75 {
            1919294u64
        } else if k == 76 {
            2033421u64
        } else if k == 77 {
            2154334u64
        } else if k == 78 {
            2282438u64
        } else if k == 79 {
            2418158u64
        } else if k == 80 {
            2561950u64
        } else if k == 81 {
            2714291u64
        } else if k == 82 {
            2875691u64
        } else if k == 83 {
            3046689u64
        } else if k == 84 {
            3227854u64
        } else if k == 85 {
            3419792u64
        } else if k == 86 {
            3623144u64
        } else if k == 87 {
            3838587u64
        } else if k == 88 {
            4066841u64
        } else if k == 89 {
            4308668u64
        } else {
            0u64
        }
    }

    /// The concert pitch this key sounds, in millihertz.
    pub fn concert_pitch(&self) -> (r: u64)
        requires
            self.wf(),
        ensures
            r as int == pitch_mhz(self.num()),
    {
        let k = self.0 as u64;
        if k == 1 {
            27500u64
        } else if k == 2 {
            29135u64
        } else if k == 3 {
            30868u64
        } else if k == 4 {
            32703u64
        } else if k == 5 {
            34648u64
        } else if k == 6 {
            36708u64
        } else if k == 7 {
            38891u64
        } else if k == 8 {
            41203u64
        } else if k == 9 {
            43654u64
        } else if k == 10 {
            46249u64
        } else if k == 11 {
            48999u64
        } else if k == 12 {
            51913u64
        } else if k == 13 {
            55000u64
        } else if k == 14 {
            58270u64
        } else if k == 15 {
            61735u64
        } else if k == 16 {
            65406u64
        } else if k == 17 {
            69296u64
        } else if k == 18 {
            73416u64
        } else if k == 19 {
            77782u64
        } else if k == 20 {
            82407u64
        } else if k == 21 {
            87307u64
        } else if k == 22 {
            92499u64
        } else if k == 23 {
            97999u64
        } else if k == 24 {
            103826u64
        } else if k == 25 {
            110000u64
        } else if k == 26 {
            116541u64
        } else if k == 27 {
            123471u64
        } else if k == 28 {
            130813u64
        } else if k == 29 {
            138591u64
        } else if k == 30 {
            146832u64
        } else if k == 31 {
            155563u64
        } else if k == 32 {
            164814u64
        } else if k == 33 {
            174614u64
        } else if k == 34 {
            184997u64
        } else if k == 35 {
            195998u64
        } else if k == 36 {
            207652u64
        } else if k == 37 {
            220000u64
        } else if k == 38 {
            233082u64
        } else if k == 39 {
            246942u64
        } else if k == 40 {
            261626u64
        } else if k == 41 {
            277183u64
        } else if k == 42 {
            293665u64
        } else if k == 43 {
            311127u64
        } else if k == 44 {
            329628u64
        } else if k == 45 {
            349228u64
        } else if k == 46 {
            369994u64
        } else if k == 47 {
            391995u64
        } else if k == 48 {
            415305u64
        } else if k == 49 {
            440000u64
        } else if k == 50 {
            466164u64
        } else if k == 51 {
            493883u64
        } else if k == 52 {
            523251u64
        } else if k == 53 {
            554365u64
        } else if k == 54 {
            587330u64
        } else if k == 55 {
            622254u64
        } else if k == 56 {
            659255u64
        } else if k == 57 {
            698456u64
        } else if k == 58 {
            739989u64
        } else if k == 59 {
            783991u64
        } else if k == 60 {
            830609u64
        } else if k == 61 {
            880000u64
        } else if k == 62 {
            932328u64
        } else if k == 63 {
            987767u64
        } else if k == 64 {
            1046502u64
        } else if k == 65 {
            1108731u64
        } else if k == 66 {
            1174659u64
        } else if k == 67 {
            1244508u64
        } else if k == 68 {
            1318510u64
        } else if k == 69 {
            1396913u64
        } else if k == 70 {
            1479978u64
        } else if k == 71 {
            1567982u64
        } else if k == 72 {
            1661219u64
        } else if k == 73 {
            1760000u64
        } else if k == 74 {
            1864655u64
        } else if k == 75 {
            1975533u64
        } else if k == 76 {
            2093005u64
        } else if k == 77 {
            2217461u64
        } else if k == 78 {
            2349318u64
        } else if k == 79 {
            2489016u64
        } else if k == 80 {
            2637020u64
        } else if k == 81 {
            2793826u64
        } else if k == 82 {
            2959955u64
        } else if k == 83 {
            3135963u64
        } else if k == 84 {
            3322438u64
        } else if k == 85 {
            3520000u64
        } else if k == 86 {
            3729310u64
        } else if k == 87 {
            3951066u64
        } else if k == 88 {
            4186009u64
        } else {
            0u64
        }
    }

    /// The key whose pitch is nearest to `freq` millihertz: the key `k`
    /// with `round(12 * log2(freq / 440 Hz)) + 49 == k`, or `None` when
    /// that rounded semitone falls outside the piano.
    pub fn from_concert_pitch(freq: u64) -> (r: Option<PianoKey>)
        ensures
            match r {
                Some(p) => p.wf() && key_from_mhz(freq as int) == Some(p.num()),
                None => key_from_mhz(freq as int) is None,
            },
    {
        if freq < Self::key_lower(1) || freq >= Self::key_lower(89) {
            return None;
        }
        let mut k: u8 = 1;
        while k < 88
            invariant
                1 <= k <= 88,
                key_lower_mhz(1) <= freq < key_lower_mhz(89),
                key_scan(freq as int, 1) == key_scan(freq as int, k as int),
                key_lower_mhz(k as int) <= freq,
            decreases 88 - k,
        {
            if freq < Self::key_lower(k + 1) {
                return Some(PianoKey(k));
            }
            k = k + 1;
        }
        Some(PianoKey(88))
    }
}

/// Adjacent key boundaries are strictly increasing.
#[verifier::rlimit(100)]
proof fn lemma_lower_adjacent(i: int)
    requires
        1 <= i < 89,
    ensures
        key_lower_mhz(i) < key_lower_mhz(i + 1),
{
}

/// Each key's pitch lies between its own boundaries.
#[verifier::rlimit(100)]
proof fn lemma_pitch_bracket(i: int)
    requires
        1 <= i <= 88,
    ensures
        key_lower_mhz(i) <= pitch_mhz(i) < key_lower_mhz(i + 1),
{
}

/// Key boundaries are monotone over the whole table.
proof fn lemma_lower_mono(i: int, j: int)
    requires
        1 <= i <= j <= 89,
    ensures
        key_lower_mhz(i) <= key_lower_mhz(j),
    decreases j - i,
{
    if i < j {
        lemma_lower_adjacent(i);
        lemma_lower_mono(i + 1, j);
    }
}

/// The scan from key `j` lands on the key whose boundaries bracket `f`.
proof fn lemma_scan_hits(f: int, j: int, k: int)
    requires
        1 <= j <= k <= 88,
        key_lower_mhz(k) <= f,
        f < key_lower_mhz(k + 1),
    ensures
        key_scan(f, j) == k,
    decreases k - j,
{
    if j < k {
        lemma_lower_mono(j + 1, k);
        lemma_scan_hits(f, j + 1, k);
    }
}

/// Round trip through concert pitch: converting a key to its concert
/// pitch and the pitch back to a key returns the same key, for every
/// key on the piano.
pub proof fn lemma_concert_pitch_round_trip(k: PianoKey)
    requires
        k.wf(),
    ensures
        key_from_mhz(pitch_mhz(k.num())) == Some(k.num()),
{
    lemma_pitch_bracket(k.num());
    lemma_lower_mono(1, k.num());
    lemma_lower_mono(k.num() + 1, 89);
    lemma_scan_hits(pitch_mhz(k.num()), 1, k.num());
}

/// Under either accidental preference, the note a key is written as
/// denotes that key's own pitch: the note's semitone from C0 is the
/// key's semitone from C0. (So `MusicalNote::as_key` maps the note
/// back to the same key.)
pub proof fn lemma_as_note_denotes_key(k: PianoKey, preference: Accidental)
    requires
        k.wf(),
    ensures
        k.as_note_spec(preference).semitone_from_c0_spec() == k.num() + 8,
{
    vstd::arithmetic::div_mod::lemma_fundamental_div_mod(k.num() + 8, 12);
    vstd::arithmetic::div_mod::lemma_mod_division_less_than_divisor(k.num() + 8, 12);
}

/// Keys on a natural semitone read the same under either accidental
/// preference: the note table ignores the preference for the offsets
/// 0, 2, 4, 5, 7, 9 and 11.
pub proof fn lemma_natural_note_ignores_preference(k: PianoKey)
    requires
        k.wf(),
        k.is_white_spec(),
    ensures
        k.as_note_spec(Accidental::Sharp) == k.as_note_spec(Accidental::Flat),
{
}

} // verus!
