//! Per-key sets of press intervals with touch-coalescing.
//!
//! A [`KeyPresses`] holds the presses detected for one piano key,
//! ordered by start offset. Adding a press merges it with a stored
//! interval that it touches exactly (the previous interval's end equal
//! to the new start, or the new end equal to the next interval's
//! start); intervals separated by even one millisecond stay distinct.
//! When a merge happens the louder intensity wins.

use vstd::prelude::*;

verus! {

use vstd::assert_seqs_equal;

/// One press of a piano key: start offset in milliseconds since the
/// beginning of the analysed waveform, duration in milliseconds, and
/// the detected amplitude standing in for intensity.
#[derive(Clone, Copy, Debug, PartialEq, Eq, Structural, Hash)]
pub struct KeyPress {
    /// Start offset in milliseconds.
    pub start: u64,
    /// Duration in milliseconds.
    pub duration: u64,
    /// Detected amplitude of the press.
    pub intensity: u64,
}

impl KeyPress {
    /// The first millisecond after the press: `start + duration`.
    pub open spec fn end_spec(self) -> int {
        self.start + self.duration
    }

    pub fn new(start: u64, duration: u64, intensity: u64) -> (r: Self)
        ensures
            r == (KeyPress { start, duration, intensity }),
    {
        KeyPress { start, duration, intensity }
    }

    /// The start of the keypress in milliseconds.
    pub fn start(&self) -> (r: u64)
        ensures
            r == self.start,
    {
        self.start
    }

    /// The duration of the keypress in milliseconds.
    pub fn duration(&self) -> (r: u64)
        ensures
            r == self.duration,
    {
        self.duration
    }

    /// The intensity of the keypress.
    pub fn intensity(&self) -> (r: u64)
        ensures
            r == self.intensity,
    {
        self.intensity
    }

    /// The first millisecond after the press.
    pub fn end(&self) -> (r: u64)
        requires
            self.end_spec() <= u64::MAX,
        ensures
            r == self.end_spec(),
    {
        self.start + self.duration
    }
}

/// A sequence of presses is well formed when starts strictly increase
/// and every press's end fits in a `u64` millisecond count.
pub open spec fn wf_presses(s: Seq<KeyPress>) -> bool {
    (forall|i: int, j: int|
        0 <= i < j < s.len() ==> #[trigger] s[i].start < #[trigger] s[j].start) && (forall|i: int|
        0 <= i < s.len() ==> (#[trigger] s[i]).start + s[i].duration <= u64::MAX)
}

/// Index at which a press starting at `t` would sit: the number of
/// leading presses that start strictly before `t`.
pub open spec fn insert_pos(s: Seq<KeyPress>, t: int) -> int
    decreases s.len(),
{
    if s.len() == 0 || s[0].start >= t {
        0
    } else {
        1 + insert_pos(s.skip(1), t)
    }
}

/// What adding `p` to the ordered press sequence `s` produces:
/// - if the press immediately before `t = p.start` ends exactly at `t`,
///   that press absorbs `p` (its duration grows by `p.duration`, the
///   louder intensity wins);
/// - otherwise, if `p` ends exactly at the start of the press
///   immediately after `t`, `p` absorbs that press the same way and
///   takes its place;
/// - otherwise `p` is inserted as its own interval, replacing a stored
///   press with the identical start if there is one.
pub open spec fn spec_add(s: Seq<KeyPress>, p: KeyPress) -> Seq<KeyPress> {
    let i = insert_pos(s, p.start as int);
    if i > 0 && s[i - 1].start < p.start && s[i - 1].start + s[i - 1].duration == p.start {
        s.update(
            i - 1,
            KeyPress {
                start: s[i - 1].start,
                duration: (s[i - 1].duration + p.duration) as u64,
                intensity: if s[i - 1].intensity >= p.intensity {
                    s[i - 1].intensity
                } else {
                    p.intensity
                },
            },
        )
    } else if i < s.len() && p.start + p.duration == s[i].start {
        s.remove(i).insert(
            i,
            KeyPress {
                start: p.start,
                duration: (p.duration + s[i].duration) as u64,
                intensity: if p.intensity >= s[i].intensity {
                    p.intensity
                } else {
                    s[i].intensity
                },
            },
        )
    } else if i < s.len() && s[i].start == p.start {
        s.update(i, p)
    } else {
        s.insert(i, p)
    }
}

/// Adding each press of `ps` in order, starting from `s`.
pub open spec fn spec_add_all(s: Seq<KeyPress>, ps: Seq<KeyPress>) -> Seq<KeyPress>
    decreases ps.len(),
{
    if ps.len() == 0 {
        s
    } else {
        spec_add_all(spec_add(s, ps[0]), ps.skip(1))
    }
}

/// `insert_pos` splits the sequence at `t`: everything before it
/// starts below `t`, and on an ordered sequence everything from it on
/// starts at or above `t`.
pub proof fn lemma_insert_pos_props(s: Seq<KeyPress>, t: int)
    ensures
        0 <= insert_pos(s, t) <= s.len(),
        forall|i: int| 0 <= i < insert_pos(s, t) ==> #[trigger] s[i].start < t,
        insert_pos(s, t) < s.len() ==> s[insert_pos(s, t)].start >= t,
    decreases s.len(),
{
    if s.len() == 0 || s[0].start >= t {
    } else {
        lemma_insert_pos_props(s.skip(1), t);
        assert forall|i: int| 0 <= i < insert_pos(s, t) implies #[trigger] s[i].start < t by {
            if i > 0 {
                assert(s.skip(1)[i - 1] == s[i]);
            }
        }
        if insert_pos(s, t) < s.len() {
            assert(s.skip(1)[insert_pos(s.skip(1), t)] == s[insert_pos(s, t)]);
        }
    }
}

/// A scan that stops at the first start at or above `t` lands on
/// `insert_pos`.
proof fn lemma_insert_pos_char(s: Seq<KeyPress>, t: int, j: int)
    requires
        0 <= j <= s.len(),
        forall|i: int| 0 <= i < j ==> #[trigger] s[i].start < t,
        j == s.len() || s[j].start >= t,
    ensures
        insert_pos(s, t) == j,
    decreases s.len(),
{
    if s.len() == 0 {
    } else if s[0].start >= t {
        assert(j == 0);
    } else {
        assert(s[0].start < t);
        assert(j >= 1);
        assert forall|i: int| 0 <= i < j - 1 implies #[trigger] s.skip(1)[i].start < t by {
            assert(s.skip(1)[i] == s[i + 1]);
        }
        if j < s.len() {
            assert(s.skip(1)[j - 1] == s[j]);
        }
        lemma_insert_pos_char(s.skip(1), t, j - 1);
    }
}

/// Adding a press never leaves the set empty.
pub proof fn lemma_spec_add_nonempty(s: Seq<KeyPress>, p: KeyPress)
    ensures
        spec_add(s, p).len() > 0,
        spec_add(s, p).len() >= s.len(),
{
    lemma_insert_pos_props(s, p.start as int);
    let i = insert_pos(s, p.start as int);
    if i > 0 && s[i - 1].start < p.start && s[i - 1].start + s[i - 1].duration == p.start {
    } else if i < s.len() && p.start + p.duration == s[i].start {
        s.remove_ensures(i);
        s.remove(i).insert_ensures(
            i,
            KeyPress {
                start: p.start,
                duration: (p.duration + s[i].duration) as u64,
                intensity: if p.intensity >= s[i].intensity {
                    p.intensity
                } else {
                    s[i].intensity
                },
            },
        );
    } else if i < s.len() && s[i].start == p.start {
    } else {
        s.insert_ensures(i, p);
    }
}

/// The per-key ordered set of press intervals.
#[derive(Clone, Debug)]
pub struct KeyPresses {
    presses: Vec<KeyPress>,
}

impl View for KeyPresses {
    type V = Seq<KeyPress>;

    closed spec fn view(&self) -> Seq<KeyPress> {
        self.presses@
    }
}

impl KeyPresses {
    /// Well-formed: ordered by start, every end fits.
    pub open spec fn wf(self) -> bool {
        wf_presses(self@)
    }

    /// An empty set of presses.
    pub fn new() -> (r: Self)
        ensures
            r@ == Seq::<KeyPress>::empty(),
            r.wf(),
    {
        let r = KeyPresses { presses: Vec::new() };
        proof {
            assert_seqs_equal!(r@, Seq::<KeyPress>::empty());
        }
        r
    }

    /// How many distinct intervals are stored.
    pub fn len(&self) -> (r: usize)
        ensures
            r == self@.len(),
    {
        self.presses.len()
    }

    /// The stored interval at position `i` (in increasing start order).
    pub fn get(&self, i: usize) -> (r: KeyPress)
        requires
            i < self@.len(),
        ensures
            r == self@[i as int],
    {
        self.presses[i]
    }

    /// The earliest stored interval, if any.
    pub fn first(&self) -> (r: Option<KeyPress>)
        ensures
            match r {
                Some(p) => self@.len() > 0 && p == self@[0],
                None => self@.len() == 0,
            },
    {
        if self.presses.len() > 0 {
            Some(self.presses[0])
        } else {
            None
        }
    }

    /// The latest stored interval, if any.
    pub fn last(&self) -> (r: Option<KeyPress>)
        ensures
            match r {
                Some(p) => self@.len() > 0 && p == self@[self@.len() - 1],
                None => self@.len() == 0,
            },
    {
        if self.presses.len() > 0 {
            Some(self.presses[self.presses.len() - 1])
        } else {
            None
        }
    }

    /// A copy of the stored intervals in increasing start order.
    pub fn to_vec(&self) -> (r: Vec<KeyPress>)
        ensures
            r@ == self@,
    {
        let mut out: Vec<KeyPress> = Vec::new();
        let mut i: usize = 0;
        while i < self.presses.len()
            invariant
                i <= self.presses.len(),
                out@ == self@.take(i as int),
            decreases self.presses.len() - i,
        {
            out.push(self.presses[i]);
            proof {
                assert_seqs_equal!(out@, self@.take(i + 1 as int));
            }
            i = i + 1;
        }
        proof {
            assert_seqs_equal!(self@.take(self@.len() as int), self@);
        }
        out
    }

    /// Number of stored presses that start strictly before `t`.
    fn lower_bound(&self, t: u64) -> (r: usize)
        ensures
            r <= self@.len(),
            r == insert_pos(self@, t as int),
            forall|i: int| 0 <= i < r ==> #[trigger] self@[i].start < t,
            r == self@.len() || self@[r as int].start >= t,
    {
        let mut j: usize = 0;
        while j < self.presses.len() && self.presses[j].start < t
            invariant
                j <= self@.len(),
                forall|i: int| 0 <= i < j ==> #[trigger] self@[i].start < t,
            decreases self.presses.len() - j,
        {
            j = j + 1;
        }
        proof {
            lemma_insert_pos_char(self@, t as int, j as int);
        }
        j
    }

    /// Add a press, coalescing with an exactly touching neighbour as
    /// described by [`spec_add`].
    #[verifier::rlimit(60)]
    pub fn add(&mut self, keypress: KeyPress)
        requires
            old(self).wf(),
            keypress.end_spec() <= u64::MAX,
        ensures
            final(self).wf(),
            final(self)@ == spec_add(old(self)@, keypress),
    {
        let ghost s0 = self@;
        let i = self.lower_bound(keypress.start);
        // Join with the note before this.
        if i > 0 {
            let prev = self.presses[i - 1];
            if prev.start + prev.duration == keypress.start {
                let merged = KeyPress {
                    start: prev.start,
                    duration: prev.duration + keypress.duration,
                    intensity: if prev.intensity >= keypress.intensity {
                        prev.intensity
                    } else {
                        keypress.intensity
                    },
                };
                let _ = self.presses.remove(i - 1);
                self.presses.insert(i - 1, merged);
                proof {
                    s0.remove_ensures(i - 1);
                    s0.remove(i - 1).insert_ensures(i - 1, merged);
                    assert_seqs_equal!(self@, s0.update(i - 1, merged));
                    assert(self@ == spec_add(s0, keypress));
                    assert forall|a: int, b: int| 0 <= a < b < self@.len() implies
                        #[trigger] self@[a].start < #[trigger] self@[b].start by {
                        assert(s0[a].start < s0[b].start);
                    }
                }
                return ;
            }
        }
        let mut p = keypress;
        let ghost merged_next = i < s0.len() && keypress.start + keypress.duration
            == s0[i as int].start;
        // Join with the note after this.
        if i < self.presses.len() {
            let next = self.presses[i];
            if p.start + p.duration == next.start {
                p =
                KeyPress {
                    start: p.start,
                    duration: p.duration + next.duration,
                    intensity: if p.intensity >= next.intensity {
                        p.intensity
                    } else {
                        next.intensity
                    },
                };
                let _ = self.presses.remove(i);
                self.presses.insert(i, p);
                proof {
                    s0.remove_ensures(i as int);
                    s0.remove(i as int).insert_ensures(i as int, p);
                    assert_seqs_equal!(self@, s0.remove(i as int).insert(i as int, p));
                    assert(self@ == spec_add(s0, keypress));
                    assert forall|a: int, b: int| 0 <= a < b < self@.len() implies
                        #[trigger] self@[a].start < #[trigger] self@[b].start by {
                        if b < i {
                            assert(s0[a].start < s0[b].start);
                        } else if a < i && b == i {
                            assert(s0[a].start < keypress.start);
                        } else if a == i {
                            assert(self@[b] == s0[b]);
                            assert(s0[i as int].start <= s0[b].start);
                        } else {
                            assert(self@[a] == s0[a] && self@[b] == s0[b]);
                        }
                    }
                }
                return ;
            }
        }
        if i < self.presses.len() && self.presses[i].start == p.start {
            let _ = self.presses.remove(i);
            self.presses.insert(i, p);
            proof {
                s0.remove_ensures(i as int);
                s0.remove(i as int).insert_ensures(i as int, p);
                assert_seqs_equal!(self@, s0.update(i as int, p));
                assert(self@ == spec_add(s0, keypress));
                assert forall|a: int, b: int| 0 <= a < b < self@.len() implies
                    #[trigger] self@[a].start < #[trigger] self@[b].start by {
                    assert(s0[a].start < s0[b].start);
                }
            }
        } else {
            self.presses.insert(i, p);
            proof {
                s0.insert_ensures(i as int, p);
                assert(self@ == spec_add(s0, keypress));
                assert forall|a: int, b: int| 0 <= a < b < self@.len() implies
                    #[trigger] self@[a].start < #[trigger] self@[b].start by {
                    if b < i {
                        assert(s0[a].start < s0[b].start);
                    } else if b == i {
                        assert(self@[a] == s0[a] && s0[a].start < p.start);
                    } else {
                        assert(s0.insert(i as int, p)[(b - 1) + 1] == s0[b - 1]);
                        if a < i {
                            assert(self@[a] == s0[a]);
                            assert(s0[a].start < p.start);
                            assert(p.start <= s0[b - 1].start);
                        } else if a == i {
                            assert(s0[i as int].start >= p.start && s0[i as int].start != p.start);
                            if b - 1 > i {
                                assert(s0[i as int].start < s0[b - 1].start);
                            }
                        } else {
                            assert(s0.insert(i as int, p)[(a - 1) + 1] == s0[a - 1]);
                            assert(s0[a - 1].start < s0[b - 1].start);
                        }
                    }
                }
            }
        }
    }

    /// Remove the stored interval matching `keypress`'s start and
    /// duration exactly. Returns whether such an interval existed;
    /// a mismatched duration removes nothing.
    pub fn remove(&mut self, keypress: &KeyPress) -> (r: bool)
        requires
            old(self).wf(),
        ensures
            final(self).wf(),
            ({
                let i = insert_pos(old(self)@, keypress.start as int);
                if i < old(self)@.len() && old(self)@[i].start == keypress.start && old(
                    self,
                )@[i].duration == keypress.duration {
                    r == true && final(self)@ == old(self)@.remove(i)
                } else {
                    r == false && final(self)@ == old(self)@
                }
            }),
    {
        let ghost s0 = self@;
        let i = self.lower_bound(keypress.start);
        if i < self.presses.len() {
            let stored = self.presses[i];
            if stored.start == keypress.start && stored.duration == keypress.duration {
                let _ = self.presses.remove(i);
                proof {
                    assert forall|a: int, b: int| 0 <= a < b < self@.len() implies
                        #[trigger] self@[a].start < #[trigger] self@[b].start by {
                        let a0 = if a < i { a } else { a + 1 };
                        let b0 = if b < i { b } else { b + 1 };
                        assert(self@[a] == s0[a0] && self@[b] == s0[b0]);
                        assert(s0[a0].start < s0[b0].start);
                    }
                }
                return true;
            }
        }
        false
    }
}

} // verus!
