//! The note scheduler: replays a snapshot of detected key presses as
//! timed note-on / note-off commands.
//!
//! A session is a single serialized control loop. [`NoteScheduler::play`]
//! flattens the per-key press intervals into a deadline-ordered queue
//! of play events anchored at an absolute epoch (milliseconds).
//! [`NoteScheduler::step`] then fires exactly one due deadline at a
//! time: the earliest pending play deadline or note-off deadline, play
//! deadlines first on a tie. Firing a play deadline for a note that is
//! already sounding never emits a second note-on; it only pushes the
//! note's pending off-deadline out to the maximum of the old and new
//! off-times, so overlapping presses of one key extend the sounding
//! note instead of cutting it short. [`NoteScheduler::cancel`] drops
//! the remaining play deadlines but keeps every pending off-deadline,
//! and [`NoteScheduler::flush`] emits the note-off for each of them:
//! no note is ever left stuck on.

use vstd::prelude::*;

verus! {

use vstd::assert_sets_equal;
use vstd::map::*;
use crate::key::PianoKey;
use crate::midi::MidiCommand;
use crate::midi::MidiNote;
use crate::presses::KeyPress;
use crate::presses::KeyPresses;

/// A "note on" waiting for its deadline: the absolute deadline in
/// milliseconds, the key to sound, and how long it should sound.
#[derive(Debug, Clone, Copy, PartialEq, Eq, Structural)]
pub struct ScheduledEvent {
    /// Absolute play deadline, in milliseconds.
    pub deadline: u64,
    /// The key to sound.
    pub key: PianoKey,
    /// How long the key sounds, in milliseconds.
    pub duration: u64,
}

/// A "note off" waiting for its deadline.
#[derive(Debug, Clone, Copy, PartialEq, Eq, Structural)]
pub struct PendingOff {
    /// Absolute off deadline, in milliseconds.
    pub deadline: u64,
    /// The sounding note.
    pub note: MidiNote,
}

/// Where a playback session stands.
#[derive(Debug, Clone, Copy, PartialEq, Eq, Structural)]
pub enum SessionState {
    /// Events are queued; nothing has fired yet.
    Scheduled,
    /// At least one deadline has fired.
    Playing,
    /// Every queued deadline has fired.
    Finished,
    /// The session was cancelled; only note-offs remain.
    Cancelled,
}

/// Play events are ordered by deadline.
pub open spec fn sorted_events(s: Seq<ScheduledEvent>) -> bool {
    forall|i: int, j: int|
        0 <= i < j < s.len() ==> #[trigger] s[i].deadline <= #[trigger] s[j].deadline
}

/// Pending offs are ordered by deadline.
pub open spec fn sorted_offs(s: Seq<PendingOff>) -> bool {
    forall|i: int, j: int|
        0 <= i < j < s.len() ==> #[trigger] s[i].deadline <= #[trigger] s[j].deadline
}

/// At most one pending off per note.
pub open spec fn unique_notes(s: Seq<PendingOff>) -> bool {
    forall|i: int, j: int|
        0 <= i < j < s.len() ==> (#[trigger] s[i]).note.num() != (#[trigger] s[j]).note.num()
}

/// The pending offs as a map from note number to off deadline.
pub open spec fn offs_map(s: Seq<PendingOff>) -> Map<int, int>
    decreases s.len(),
{
    if s.len() == 0 {
        Map::empty()
    } else {
        offs_map(s.skip(1)).insert(s[0].note.num(), s[0].deadline as int)
    }
}

/// The play events that one key's presses schedule: one event per
/// press, at deadline `epoch + start`, sounding for the press's
/// duration.
pub open spec fn key_events(key: PianoKey, ps: Seq<KeyPress>, epoch: int) -> Seq<ScheduledEvent> {
    ps.map_values(
        |p: KeyPress| ScheduledEvent { deadline: (epoch + p.start) as u64, key, duration: p.duration },
    )
}

/// The play events that a whole snapshot of presses schedules, key by
/// key.
pub open spec fn events_of(notes: Seq<(PianoKey, KeyPresses)>, epoch: int) -> Seq<ScheduledEvent>
    decreases notes.len(),
{
    if notes.len() == 0 {
        Seq::empty()
    } else {
        key_events(notes[0].0, notes[0].1@, epoch) + events_of(notes.skip(1), epoch)
    }
}

/// Flattening distributes over appending one key's presses.
proof fn lemma_events_of_push(notes: Seq<(PianoKey, KeyPresses)>, kv: (PianoKey, KeyPresses), epoch: int)
    ensures
        events_of(notes.push(kv), epoch) == events_of(notes, epoch) + key_events(
            kv.0,
            kv.1@,
            epoch,
        ),
    decreases notes.len(),
{
    if notes.len() == 0 {
        let k = key_events(kv.0, kv.1@, epoch);
        assert(notes.push(kv)[0] == kv);
        assert(notes.push(kv).skip(1) =~= Seq::<(PianoKey, KeyPresses)>::empty());
        assert(events_of(notes.push(kv), epoch) == k + events_of(
            notes.push(kv).skip(1),
            epoch,
        ));
        assert(events_of(notes.push(kv).skip(1), epoch) == Seq::<ScheduledEvent>::empty());
        assert(events_of(notes, epoch) == Seq::<ScheduledEvent>::empty());
        assert(k + Seq::<ScheduledEvent>::empty() =~= Seq::<ScheduledEvent>::empty() + k);
    } else {
        assert(notes.push(kv).skip(1) =~= notes.skip(1).push(kv));
        assert(notes.push(kv)[0] == notes[0]);
        lemma_events_of_push(notes.skip(1), kv, epoch);
        let a = key_events(notes[0].0, notes[0].1@, epoch);
        let b = events_of(notes.skip(1), epoch);
        let k = key_events(kv.0, kv.1@, epoch);
        assert(events_of(notes.push(kv), epoch) == a + (b + k));
        assert(a + (b + k) =~= (a + b) + k);
        assert(events_of(notes, epoch) == a + b);
    }
}

/// Inserting anywhere adds one occurrence to the multiset.
proof fn lemma_insert_to_multiset(s: Seq<ScheduledEvent>, pos: int, e: ScheduledEvent)
    requires
        0 <= pos <= s.len(),
    ensures
        s.insert(pos, e).to_multiset() == s.to_multiset().insert(e),
{
    let front = s.take(pos);
    let back = s.skip(pos);
    assert(s =~= front + back);
    assert(s.insert(pos, e) =~= front.push(e) + back);
    vstd::seq_lib::lemma_multiset_commutative(front, back);
    vstd::seq_lib::lemma_multiset_commutative(front.push(e), back);
    front.to_multiset_ensures();
    assert(s.to_multiset() == front.to_multiset().add(back.to_multiset()));
    assert(s.insert(pos, e).to_multiset() == front.push(e).to_multiset().add(back.to_multiset()));
    assert(front.push(e).to_multiset() == front.to_multiset().insert(e));
    vstd::assert_multisets_equal!(s.insert(pos, e).to_multiset(), s.to_multiset().insert(e));
}

/// On a queue with unique notes, the map holds exactly the queued
/// entries.
pub proof fn lemma_offs_map_entries(s: Seq<PendingOff>)
    requires
        unique_notes(s),
    ensures
        forall|i: int|
            0 <= i < s.len() ==> offs_map(s).contains_key((#[trigger] s[i]).note.num())
                && offs_map(s)[s[i].note.num()] == s[i].deadline,
        forall|n: int|
            offs_map(s).contains_key(n) ==> exists|i: int|
                0 <= i < s.len() && (#[trigger] s[i]).note.num() == n,
    decreases s.len(),
{
    if s.len() > 0 {
        assert forall|i: int, j: int| 0 <= i < j < s.skip(1).len() implies (#[trigger] s.skip(
            1,
        )[i]).note.num() != (#[trigger] s.skip(1)[j]).note.num() by {
            assert(s.skip(1)[i] == s[i + 1] && s.skip(1)[j] == s[j + 1]);
        }
        lemma_offs_map_entries(s.skip(1));
        assert forall|i: int| 0 <= i < s.len() implies offs_map(s).contains_key(
            (#[trigger] s[i]).note.num(),
        ) && offs_map(s)[s[i].note.num()] == s[i].deadline by {
            if i > 0 {
                assert(s.skip(1)[i - 1] == s[i]);
                assert(s[0].note.num() != s[i].note.num());
            }
        }
        assert forall|n: int| offs_map(s).contains_key(n) implies exists|i: int|
            0 <= i < s.len() && (#[trigger] s[i]).note.num() == n by {
            if n == s[0].note.num() {
                assert(s[0].note.num() == n);
            } else {
                assert(offs_map(s.skip(1)).contains_key(n));
                let w = choose|i: int|
                    0 <= i < s.skip(1).len() && (#[trigger] s.skip(1)[i]).note.num() == n;
                assert(s.skip(1)[w] == s[w + 1]);
                assert(s[w + 1].note.num() == n);
            }
        }
    }
}

/// Inserting an entry for a note not in the queue inserts its pair in
/// the map.
proof fn lemma_offs_map_insert(s: Seq<PendingOff>, pos: int, o: PendingOff)
    requires
        0 <= pos <= s.len(),
        forall|i: int| 0 <= i < s.len() ==> (#[trigger] s[i]).note.num() != o.note.num(),
    ensures
        offs_map(s.insert(pos, o)) == offs_map(s).insert(o.note.num(), o.deadline as int),
    decreases s.len(),
{
    let t = s.insert(pos, o);
    if pos == 0 {
        assert(t[0] == o);
        assert(t.skip(1) =~= s);
        assert(offs_map(t) == offs_map(s).insert(o.note.num(), o.deadline as int));
    } else {
        assert(t[0] == s[0]);
        assert(t.skip(1) =~= s.skip(1).insert(pos - 1, o));
        assert forall|i: int| 0 <= i < s.skip(1).len() implies (#[trigger] s.skip(
            1,
        )[i]).note.num() != o.note.num() by {
            assert(s.skip(1)[i] == s[i + 1]);
        }
        lemma_offs_map_insert(s.skip(1), pos - 1, o);
        assert_maps_equal!(
            offs_map(s.skip(1)).insert(o.note.num(), o.deadline as int).insert(s[0].note.num(), s[0].deadline as int),
            offs_map(s.skip(1)).insert(s[0].note.num(), s[0].deadline as int).insert(o.note.num(), o.deadline as int)
        );
        assert(offs_map(t) == offs_map(s).insert(o.note.num(), o.deadline as int));
    }
}

/// Removing an entry removes its note from the map, on a queue with
/// unique notes.
proof fn lemma_offs_map_remove(s: Seq<PendingOff>, pos: int)
    requires
        unique_notes(s),
        0 <= pos < s.len(),
    ensures
        offs_map(s.remove(pos)) == offs_map(s).remove(s[pos].note.num()),
    decreases s.len(),
{
    let t = s.remove(pos);
    lemma_offs_map_entries(s);
    assert forall|i: int, j: int| 0 <= i < j < s.skip(1).len() implies (#[trigger] s.skip(
        1,
    )[i]).note.num() != (#[trigger] s.skip(1)[j]).note.num() by {
        assert(s.skip(1)[i] == s[i + 1] && s.skip(1)[j] == s[j + 1]);
    }
    if pos == 0 {
        assert(t =~= s.skip(1));
        lemma_offs_map_entries(s.skip(1));
        assert_maps_equal!(offs_map(s.skip(1)), offs_map(s).remove(s[0].note.num()));
    } else {
        assert(t[0] == s[0]);
        assert(t.skip(1) =~= s.skip(1).remove(pos - 1));
        assert(s.skip(1)[pos - 1] == s[pos]);
        lemma_offs_map_remove(s.skip(1), pos - 1);
        assert_maps_equal!(
            offs_map(s.skip(1)).remove(s[pos].note.num()).insert(s[0].note.num(), s[0].deadline as int),
            offs_map(s.skip(1)).insert(s[0].note.num(), s[0].deadline as int).remove(s[pos].note.num())
        );
        assert(offs_map(t) == offs_map(s).remove(s[pos].note.num()));
    }
}

/// The notes a command history leaves sounding: turned on by a
/// note-on without a later note-off.
pub open spec fn live_notes(cmds: Seq<MidiCommand>) -> Set<int>
    decreases cmds.len(),
{
    if cmds.len() == 0 {
        Set::empty()
    } else {
        let rest = live_notes(cmds.drop_last());
        match cmds.last() {
            MidiCommand::NoteOn(n, _) => rest.insert(n.num()),
            MidiCommand::NoteOff(n, _) => rest.remove(n.num()),
            _ => rest,
        }
    }
}

/// One more command updates the live set accordingly.
proof fn lemma_live_notes_push(cmds: Seq<MidiCommand>, c: MidiCommand)
    ensures
        live_notes(cmds.push(c)) == (match c {
            MidiCommand::NoteOn(n, _) => live_notes(cmds).insert(n.num()),
            MidiCommand::NoteOff(n, _) => live_notes(cmds).remove(n.num()),
            _ => live_notes(cmds),
        }),
{
    assert(cmds.push(c).drop_last() =~= cmds);
    assert(cmds.push(c).last() == c);
}

/// One playback session over a snapshot of detected presses.
pub struct NoteScheduler {
    pending_on: Vec<ScheduledEvent>,
    pending_off: Vec<PendingOff>,
    notes_played: u64,
    state: SessionState,
    history: Ghost<Seq<MidiCommand>>,
}

impl NoteScheduler {
    /// The queued play events, in deadline order.
    pub closed spec fn ons(self) -> Seq<ScheduledEvent> {
        self.pending_on@
    }

    /// The pending note-offs, in deadline order.
    pub closed spec fn offs(self) -> Seq<PendingOff> {
        self.pending_off@
    }

    /// How many play deadlines have fired.
    pub closed spec fn played(self) -> int {
        self.notes_played as int
    }

    /// Where the session stands.
    pub closed spec fn state_spec(self) -> SessionState {
        self.state
    }

    /// Every command the session has emitted, in order.
    pub closed spec fn emitted(self) -> Seq<MidiCommand> {
        self.history@
    }

    /// The sounding notes and their off deadlines.
    pub open spec fn off_map(self) -> Map<int, int> {
        offs_map(self.offs())
    }

    /// The earliest pending play deadline fires next (ahead of an off
    /// deadline at the same instant).
    pub open spec fn fires_on(self) -> bool {
        self.ons().len() > 0 && (self.offs().len() == 0 || self.ons()[0].deadline
            <= self.offs()[0].deadline)
    }

    /// Well-formed session state.
    pub open spec fn wf(self) -> bool {
        sorted_events(self.ons()) && sorted_offs(self.offs()) && unique_notes(self.offs()) && (
        forall|i: int|
            0 <= i < self.ons().len() ==> (#[trigger] self.ons()[i]).key.wf()
                && self.ons()[i].deadline + self.ons()[i].duration <= u64::MAX) && (forall|i: int|
            0 <= i < self.offs().len() ==> (#[trigger] self.offs()[i]).note.wf())
            && self.played() + self.ons().len() <= u64::MAX && live_notes(self.emitted())
            == self.off_map().dom() && (self.state_spec()
            == SessionState::Scheduled ==> self.played() == 0 && self.offs().len() == 0) && (
        self.state_spec() == SessionState::Cancelled ==> self.ons().len() == 0) && (
        self.state_spec() == SessionState::Finished ==> self.ons().len() == 0
            && self.offs().len() == 0)
    }

    /// How many play deadlines have fired so far.
    pub fn notes_played(&self) -> (r: u64)
        ensures
            r == self.played(),
    {
        self.notes_played
    }

    /// Where the session stands.
    pub fn state(&self) -> (r: SessionState)
        ensures
            r == self.state_spec(),
    {
        self.state
    }

    /// How many play events are still queued.
    pub fn pending_on_count(&self) -> (r: usize)
        ensures
            r == self.ons().len(),
    {
        self.pending_on.len()
    }

    /// How many note-offs are still pending.
    pub fn pending_off_count(&self) -> (r: usize)
        ensures
            r == self.offs().len(),
    {
        self.pending_off.len()
    }

    /// Start a session: flatten every (key, presses) pair into a
    /// deadline-ordered queue of play events anchored at `epoch`
    /// (absolute milliseconds). Nothing has fired yet.
    pub fn play(notes: &Vec<(PianoKey, KeyPresses)>, epoch: u64) -> (r: NoteScheduler)
        requires
            forall|i: int|
                0 <= i < notes@.len() ==> (#[trigger] notes@[i]).0.wf() && notes@[i].1.wf() && (
                forall|j: int|
                    0 <= j < notes@[i].1@.len() ==> epoch + (#[trigger] notes@[i].1@[j]).start
                        + notes@[i].1@[j].duration <= u64::MAX),
        ensures
            r.wf(),
            r.state_spec() == SessionState::Scheduled,
            r.played() == 0,
            r.offs().len() == 0,
            r.emitted() == Seq::<MidiCommand>::empty(),
            r.ons().to_multiset() == events_of(notes@, epoch as int).to_multiset(),
            sorted_events(r.ons()),
    {
        let mut pending_on: Vec<ScheduledEvent> = Vec::new();
        let mut ki: usize = 0;
        proof {
            assert(notes@.take(0) =~= Seq::<(PianoKey, KeyPresses)>::empty());
        }
        while ki < notes.len()
            invariant
                forall|i: int|
                    0 <= i < notes@.len() ==> (#[trigger] notes@[i]).0.wf() && notes@[i].1.wf()
                        && (forall|j: int|
                        0 <= j < notes@[i].1@.len() ==> epoch + (#[trigger] notes@[i].1@[j]).start
                            + notes@[i].1@[j].duration <= u64::MAX),
                ki <= notes@.len(),
                sorted_events(pending_on@),
                pending_on@.len() == events_of(notes@.take(ki as int), epoch as int).len(),
                pending_on@.to_multiset() == events_of(notes@.take(ki as int), epoch as int)
                    .to_multiset(),
                forall|i: int|
                    0 <= i < pending_on@.len() ==> (#[trigger] pending_on@[i]).key.wf()
                        && pending_on@[i].deadline + pending_on@[i].duration <= u64::MAX,
            decreases notes@.len() - ki,
        {
            let key = notes[ki].0;
            let presses = &notes[ki].1;
            let ghost combined0 = events_of(notes@.take(ki as int), epoch as int);
            let mut pi: usize = 0;
            proof {
                assert(key_events(key, presses@.take(0), epoch as int) =~= Seq::<
                    ScheduledEvent,
                >::empty());
                assert(combined0 + key_events(key, presses@.take(0), epoch as int) =~= combined0);
            }
            while pi < presses.len()
                invariant
                    forall|i: int|
                        0 <= i < notes@.len() ==> (#[trigger] notes@[i]).0.wf()
                            && notes@[i].1.wf() && (forall|j: int|
                            0 <= j < notes@[i].1@.len() ==> epoch + (
                            #[trigger] notes@[i].1@[j]).start + notes@[i].1@[j].duration
                                <= u64::MAX),
                    ki < notes@.len(),
                    key == notes@[ki as int].0,
                    presses == &notes@[ki as int].1,
                    pi <= presses@.len(),
                    combined0 == events_of(notes@.take(ki as int), epoch as int),
                    sorted_events(pending_on@),
                    pending_on@.len() == combined0.len() + pi,
                    pending_on@.to_multiset() == (combined0 + key_events(
                        key,
                        presses@.take(pi as int),
                        epoch as int,
                    )).to_multiset(),
                    forall|i: int|
                        0 <= i < pending_on@.len() ==> (#[trigger] pending_on@[i]).key.wf()
                            && pending_on@[i].deadline + pending_on@[i].duration <= u64::MAX,
                decreases presses@.len() - pi,
            {
                let p = presses.get(pi);
                proof {
                    assert(notes@[ki as int].1@[pi as int] == p);
                }
                let ev = ScheduledEvent { deadline: epoch + p.start, key, duration: p.duration };
                let ghost before = pending_on@;
                Self::push_event(&mut pending_on, ev);
                proof {
                    let ghost target = combined0 + key_events(
                        key,
                        presses@.take(pi as int),
                        epoch as int,
                    );
                    assert(key_events(key, presses@.take(pi + 1), epoch as int) =~= key_events(
                        key,
                        presses@.take(pi as int),
                        epoch as int,
                    ).push(ev));
                    assert(combined0 + key_events(key, presses@.take(pi + 1), epoch as int)
                        =~= target.push(ev));
                    target.to_multiset_ensures();
                }
                pi = pi + 1;
            }
            proof {
                assert(presses@.take(presses@.len() as int) =~= presses@);
                assert(notes@.take(ki + 1) =~= notes@.take(ki as int).push(notes@[ki as int]));
                lemma_events_of_push(notes@.take(ki as int), notes@[ki as int], epoch as int);
                vstd::seq_lib::lemma_multiset_commutative(
                    combined0,
                    key_events(key, presses@, epoch as int),
                );
                vstd::seq_lib::lemma_multiset_commutative(
                    combined0,
                    key_events(key, presses@, epoch as int),
                );
                assert(events_of(notes@.take(ki + 1), epoch as int).to_multiset()
                    == pending_on@.to_multiset());
                events_of(notes@.take(ki + 1), epoch as int).to_multiset_ensures();
                pending_on@.to_multiset_ensures();
            }
            ki = ki + 1;
        }
        proof {
            assert(notes@.take(notes@.len() as int) =~= notes@);
            vstd::std_specs::vec::axiom_spec_len(&pending_on);
            assert(live_notes(Seq::<MidiCommand>::empty()) =~= offs_map(
                Seq::<PendingOff>::empty(),
            ).dom());
        }
        NoteScheduler {
            pending_on,
            pending_off: Vec::new(),
            notes_played: 0,
            state: SessionState::Scheduled,
            history: Ghost(Seq::empty()),
        }
    }

    /// Insert a play event at its place in the deadline order.
    fn push_event(v: &mut Vec<ScheduledEvent>, e: ScheduledEvent)
        requires
            sorted_events(old(v)@),
        ensures
            sorted_events(final(v)@),
            final(v)@.len() == old(v)@.len() + 1,
            final(v)@.to_multiset() == old(v)@.to_multiset().insert(e),
            forall|i: int|
                0 <= i < final(v)@.len() ==> #[trigger] final(v)@[i] == e || old(v)@.contains(
                    final(v)@[i],
                ),
    {
        let ghost s0 = v@;
        let mut j: usize = 0;
        while j < v.len() && v[j].deadline <= e.deadline
            invariant
                j <= v@.len(),
                forall|i: int| 0 <= i < j ==> (#[trigger] v@[i]).deadline <= e.deadline,
                v@ == s0,
            decreases v@.len() - j,
        {
            j = j + 1;
        }
        v.insert(j, e);
        proof {
            s0.insert_ensures(j as int, e);
            lemma_insert_to_multiset(s0, j as int, e);
            assert forall|a: int, b: int| 0 <= a < b < v@.len() implies #[trigger] v@[a].deadline
                <= #[trigger] v@[b].deadline by {
                if a < j && b == j {
                } else if b < j {
                    assert(v@[a] == s0[a] && v@[b] == s0[b]);
                } else if a == j {
                    assert(v@[b] == s0[b - 1]);
                    assert(s0[j as int].deadline > e.deadline || j == s0.len());
                    assert(j < s0.len() && b - 1 >= j ==> s0[j as int].deadline <= s0[b
                        - 1].deadline);
                } else if a < j {
                    assert(v@[a] == s0[a] && v@[b] == s0[b - 1]);
                    assert(b - 1 >= j);
                    assert(s0[a].deadline <= e.deadline);
                    assert(s0[j as int].deadline > e.deadline);
                    assert(s0[a].deadline <= s0[b - 1].deadline);
                } else {
                    assert(v@[a] == s0[a - 1] && v@[b] == s0[b - 1]);
                    assert(s0[a - 1].deadline <= s0[b - 1].deadline);
                }
            }
            assert forall|i: int| 0 <= i < v@.len() implies #[trigger] v@[i] == e || s0.contains(
                v@[i],
            ) by {
                if i < j {
                    assert(v@[i] == s0[i]);
                } else if i > j {
                    assert(v@[i] == s0[i - 1]);
                }
            }
        }
    }

    /// Insert a pending off at its place in the deadline order. The
    /// note must not be pending yet.
    /// Inserting at the scan position keeps the queue ordered and the
    /// notes unique.
    #[verifier::rlimit(100)]
    proof fn lemma_off_insert_props(s0: Seq<PendingOff>, j: int, o: PendingOff)
        requires
            sorted_offs(s0),
            unique_notes(s0),
            forall|i: int| 0 <= i < s0.len() ==> (#[trigger] s0[i]).note.num() != o.note.num(),
            0 <= j <= s0.len(),
            forall|i: int| 0 <= i < j ==> (#[trigger] s0[i]).deadline <= o.deadline,
            j == s0.len() || s0[j].deadline > o.deadline,
        ensures
            sorted_offs(s0.insert(j, o)),
            unique_notes(s0.insert(j, o)),
            forall|i: int|
                0 <= i < s0.insert(j, o).len() ==> #[trigger] s0.insert(j, o)[i] == o
                    || s0.contains(s0.insert(j, o)[i]),
            s0.insert(j, o)[0].deadline <= o.deadline,
            s0.len() > 0 ==> s0.insert(j, o)[0].deadline <= s0[0].deadline,
    {
        let t = s0.insert(j, o);
        s0.insert_ensures(j, o);
        assert forall|a: int, b: int| 0 <= a < b < t.len() implies #[trigger] t[a].deadline
            <= #[trigger] t[b].deadline by {
            if b < j {
                assert(t[a] == s0[a] && t[b] == s0[b]);
            } else if a < j && b == j {
                assert(t[a] == s0[a]);
            } else if a == j {
                assert(t[b] == s0[b - 1]);
                assert(b - 1 >= j && b - 1 < s0.len());
                assert(s0[j].deadline > o.deadline);
                if b - 1 > j {
                    assert(s0[j].deadline <= s0[b - 1].deadline);
                }
            } else if a < j {
                assert(t[a] == s0[a] && t[b] == s0[b - 1]);
                assert(b - 1 >= j && b - 1 < s0.len());
                assert(s0[j].deadline > o.deadline);
                if b - 1 > j {
                    assert(s0[j].deadline <= s0[b - 1].deadline);
                }
                assert(s0[a].deadline <= o.deadline);
            } else {
                assert(t[a] == s0[a - 1] && t[b] == s0[b - 1]);
                assert(s0[a - 1].deadline <= s0[b - 1].deadline);
            }
        }
        assert forall|i: int| 0 <= i < t.len() implies #[trigger] t[i] == o || s0.contains(
            t[i],
        ) by {
            if i < j {
                assert(t[i] == s0[i]);
            } else if i > j {
                assert(t[i] == s0[i - 1]);
            }
        }
        assert forall|a: int, b: int| 0 <= a < b < t.len() implies (#[trigger] t[a]).note.num()
            != (#[trigger] t[b]).note.num() by {
            if a == j {
                assert(t[b] == s0[b - 1]);
            } else if b == j {
                assert(t[a] == s0[a]);
            } else {
                let a0 = if a < j { a } else { a - 1 };
                let b0 = if b < j { b } else { b - 1 };
                assert(t[a] == s0[a0] && t[b] == s0[b0]);
            }
        }
        if j == 0 {
            assert(t[0] == o);
        } else {
            assert(t[0] == s0[0]);
        }
    }

    /// Insert a pending off at its place in the deadline order. The
    /// note must not be pending yet.
    fn push_off(v: &mut Vec<PendingOff>, o: PendingOff)
        requires
            sorted_offs(old(v)@),
            unique_notes(old(v)@),
            forall|i: int| 0 <= i < old(v)@.len() ==> (#[trigger] old(v)@[i]).note.num() != o.note.num(),
        ensures
            sorted_offs(final(v)@),
            unique_notes(final(v)@),
            final(v)@.len() == old(v)@.len() + 1,
            offs_map(final(v)@) == offs_map(old(v)@).insert(o.note.num(), o.deadline as int),
            forall|i: int|
                0 <= i < final(v)@.len() ==> #[trigger] final(v)@[i] == o || old(v)@.contains(
                    final(v)@[i],
                ),
            final(v)@[0].deadline <= o.deadline,
            old(v)@.len() > 0 ==> final(v)@[0].deadline <= old(v)@[0].deadline,
    {
        let ghost s0 = v@;
        let mut j: usize = 0;
        while j < v.len() && v[j].deadline <= o.deadline
            invariant
                j <= v@.len(),
                forall|i: int| 0 <= i < j ==> (#[trigger] v@[i]).deadline <= o.deadline,
                v@ == s0,
            decreases v@.len() - j,
        {
            j = j + 1;
        }
        v.insert(j, o);
        proof {
            Self::lemma_off_insert_props(s0, j as int, o);
            lemma_offs_map_insert(s0, j as int, o);
        }
    }

    /// The index of the pending off for `note`, if the note is
    /// sounding.
    fn find_off(&self, note: MidiNote) -> (r: Option<usize>)
        requires
            unique_notes(self.offs()),
        ensures
            match r {
                Some(j) => j < self.offs().len() && self.offs()[j as int].note.num() == note.num()
                    && self.off_map().contains_key(note.num()) && self.off_map()[note.num()]
                    == self.offs()[j as int].deadline,
                None => !self.off_map().contains_key(note.num()),
            },
    {
        proof {
            lemma_offs_map_entries(self.offs());
        }
        let mut j: usize = 0;
        while j < self.pending_off.len()
            invariant
                unique_notes(self.offs()),
                j <= self.offs().len(),
                forall|i: int| 0 <= i < j ==> (#[trigger] self.offs()[i]).note.num() != note.num(),
            decreases self.offs().len() - j,
        {
            if self.pending_off[j].note.as_u8() == note.as_u8() {
                proof {
                    lemma_offs_map_entries(self.offs());
                    assert(self.offs()[j as int].note.num() == note.num());
                    assert(offs_map(self.offs()).contains_key(self.offs()[j as int].note.num()));
                    assert(offs_map(self.offs())[self.offs()[j as int].note.num()]
                        == self.offs()[j as int].deadline);
                }
                return Some(j);
            }
            j = j + 1;
        }
        proof {
            if self.off_map().contains_key(note.num()) {
                let w = choose|i: int|
                    0 <= i < self.offs().len() && (#[trigger] self.offs()[i]).note.num()
                        == note.num();
            }
        }
        None
    }

    /// The next deadline the session is waiting for: the earlier of
    /// the first play deadline and the first off deadline, `None` when
    /// nothing is pending.
    pub fn next_deadline(&self) -> (r: Option<u64>)
        requires
            self.wf(),
        ensures
            match r {
                Some(d) => (self.ons().len() > 0 || self.offs().len() > 0) && (self.ons().len() > 0
                    ==> d <= self.ons()[0].deadline) && (self.offs().len() > 0 ==> d
                    <= self.offs()[0].deadline) && ((self.ons().len() > 0 && d
                    == self.ons()[0].deadline) || (self.offs().len() > 0 && d
                    == self.offs()[0].deadline)),
                None => self.ons().len() == 0 && self.offs().len() == 0,
            },
    {
        if self.pending_on.len() > 0 {
            let on_d = self.pending_on[0].deadline;
            if self.pending_off.len() > 0 {
                let off_d = self.pending_off[0].deadline;
                if on_d <= off_d {
                    Some(on_d)
                } else {
                    Some(off_d)
                }
            } else {
                Some(on_d)
            }
        } else if self.pending_off.len() > 0 {
            Some(self.pending_off[0].deadline)
        } else {
            None
        }
    }

    /// Fire the single earliest pending deadline.
    ///
    /// A play deadline starts its note — unless the note is already
    /// sounding, in which case nothing is emitted and the note's off
    /// deadline is pushed out to the later of the two off-times. An
    /// off deadline stops its note. With nothing pending the session
    /// is finished (a cancelled session stays cancelled) and nothing
    /// is emitted. Each fired play deadline counts once toward
    /// `notes_played`, emitted or not.
    pub fn step(&mut self) -> (r: Option<MidiCommand>)
        requires
            old(self).wf(),
        ensures
            final(self).wf(),
            final(self).emitted() == (match r {
                Some(c) => old(self).emitted().push(c),
                None => old(self).emitted(),
            }),
            ({
                let s = *old(self);
                let t = *final(self);
                if s.ons().len() == 0 && s.offs().len() == 0 {
                    r is None && t.ons() == s.ons() && t.offs() == s.offs() && t.played()
                        == s.played() && t.state_spec() == (if s.state_spec()
                        == SessionState::Cancelled {
                        SessionState::Cancelled
                    } else {
                        SessionState::Finished
                    })
                } else if s.fires_on() {
                    let e = s.ons()[0];
                    let n = e.key.num() + 20;
                    let off = e.deadline + e.duration;
                    t.ons() == s.ons().skip(1) && t.played() == s.played() + 1 && t.state_spec()
                        == SessionState::Playing && if s.off_map().contains_key(n) {
                        r is None && t.off_map() == s.off_map().insert(
                            n,
                            if s.off_map()[n] >= off {
                                s.off_map()[n]
                            } else {
                                off
                            },
                        )
                    } else {
                        (r matches Some(c) && c matches MidiCommand::NoteOn(note, vel)
                            && note.num() == n && vel == 127) && t.off_map() == s.off_map().insert(
                            n,
                            off,
                        )
                    }
                } else {
                    let o = s.offs()[0];
                    (r matches Some(c) && c matches MidiCommand::NoteOff(note, vel) && note.num()
                        == o.note.num() && vel == 127) && t.ons() == s.ons() && t.offs()
                        == s.offs().skip(1) && t.off_map() == s.off_map().remove(o.note.num())
                        && t.played() == s.played() && t.state_spec() == s.state_spec()
                }
            }),
    {
        let ghost s = *self;
        if self.pending_on.len() == 0 && self.pending_off.len() == 0 {
            match self.state {
                SessionState::Cancelled => {},
                _ => {
                    self.state = SessionState::Finished;
                },
            }
            return None;
        }
        let fire_on = self.pending_on.len() > 0 && (self.pending_off.len() == 0
            || self.pending_on[0].deadline <= self.pending_off[0].deadline);
        if fire_on {
            let e = self.pending_on.remove(0);
            proof {
                assert(self.pending_on@ =~= s.ons().skip(1));
                assert forall|a: int, b: int| 0 <= a < b < self.pending_on@.len() implies
                    #[trigger] self.pending_on@[a].deadline
                        <= #[trigger] self.pending_on@[b].deadline by {
                    assert(self.pending_on@[a] == s.ons()[a + 1]);
                    assert(self.pending_on@[b] == s.ons()[b + 1]);
                }
                assert forall|i: int| 0 <= i < self.pending_on@.len() implies (
                #[trigger] self.pending_on@[i]).key.wf() && self.pending_on@[i].deadline
                    + self.pending_on@[i].duration <= u64::MAX by {
                    assert(self.pending_on@[i] == s.ons()[i + 1]);
                }
            }
            self.notes_played = self.notes_played + 1;
            self.state = SessionState::Playing;
            let note = MidiNote::from_piano_key(e.key);
            let off_deadline = e.deadline + e.duration;
            let found = self.find_off(note);
            match found {
                Some(j) => {
                    let old_entry = self.pending_off[j];
                    let new_deadline = if old_entry.deadline >= off_deadline {
                        old_entry.deadline
                    } else {
                        off_deadline
                    };
                    proof {
                        lemma_offs_map_remove(self.pending_off@, j as int);
                    }
                    let ghost before = self.pending_off@;
                    let _ = self.pending_off.remove(j);
                    proof {
                        before.remove_ensures(j as int);
                        assert forall|a: int, b: int| 0 <= a < b < self.pending_off@.len() implies (
                        #[trigger] self.pending_off@[a]).note.num() != (
                        #[trigger] self.pending_off@[b]).note.num() by {
                            let a0 = if a < j { a } else { a + 1 };
                            let b0 = if b < j { b } else { b + 1 };
                            assert(self.pending_off@[a] == before[a0] && self.pending_off@[b]
                                == before[b0]);
                        }
                        assert forall|a: int, b: int| 0 <= a < b < self.pending_off@.len() implies
                            #[trigger] self.pending_off@[a].deadline
                                <= #[trigger] self.pending_off@[b].deadline by {
                            let a0 = if a < j { a } else { a + 1 };
                            let b0 = if b < j { b } else { b + 1 };
                            assert(self.pending_off@[a] == before[a0] && self.pending_off@[b]
                                == before[b0]);
                        }
                        assert forall|i: int| 0 <= i < self.pending_off@.len() implies (
                        #[trigger] self.pending_off@[i]).note.num() != note.num() by {
                            let i0 = if i < j { i } else { i + 1 };
                            assert(self.pending_off@[i] == before[i0]);
                        }
                    }
                    Self::push_off(
                        &mut self.pending_off,
                        PendingOff { deadline: new_deadline, note },
                    );
                    proof {
                        assert_maps_equal!(
                            s.off_map().remove(note.num()).insert(note.num(), new_deadline as int),
                            s.off_map().insert(note.num(), new_deadline as int)
                        );
                        assert forall|i: int| 0 <= i < self.pending_off@.len() implies (
                        #[trigger] self.pending_off@[i]).note.wf() by {}
                        assert(s.off_map().contains_key(note.num()));
                        assert_sets_equal!(
                            s.off_map().insert(note.num(), new_deadline as int).dom(),
                            s.off_map().dom()
                        );
                    }
                    None
                },
                None => {
                    proof {
                        lemma_offs_map_entries(self.pending_off@);
                        assert forall|i: int| 0 <= i < self.pending_off@.len() implies (
                        #[trigger] self.pending_off@[i]).note.num() != note.num() by {}
                    }
                    Self::push_off(
                        &mut self.pending_off,
                        PendingOff { deadline: off_deadline, note },
                    );
                    self.history = Ghost(self.history@.push(MidiCommand::NoteOn(note, 127)));
                    proof {
                        assert forall|i: int| 0 <= i < self.pending_off@.len() implies (
                        #[trigger] self.pending_off@[i]).note.wf() by {}
                        lemma_live_notes_push(s.emitted(), MidiCommand::NoteOn(note, 127));
                        assert_sets_equal!(
                            live_notes(self.history@),
                            self.off_map().dom()
                        );
                    }
                    Some(MidiCommand::NoteOn(note, 127))
                },
            }
        } else {
            let o = self.pending_off.remove(0);
            self.history = Ghost(self.history@.push(MidiCommand::NoteOff(o.note, 127)));
            proof {
                assert(self.pending_off@ =~= s.offs().skip(1));
                lemma_offs_map_remove(s.offs(), 0);
                assert forall|a: int, b: int| 0 <= a < b < self.pending_off@.len() implies (
                #[trigger] self.pending_off@[a]).note.num() != (
                #[trigger] self.pending_off@[b]).note.num() by {
                    assert(self.pending_off@[a] == s.offs()[a + 1] && self.pending_off@[b]
                        == s.offs()[b + 1]);
                }
                lemma_live_notes_push(s.emitted(), MidiCommand::NoteOff(o.note, 127));
                assert_sets_equal!(
                    live_notes(self.history@),
                    self.off_map().dom()
                );
            }
            Some(MidiCommand::NoteOff(o.note, 127))
        }
    }

    /// Cancel the session: no further play deadline will fire, but
    /// every pending note-off stays queued, so no sounding note is
    /// left without its note-off.
    pub fn cancel(&mut self)
        requires
            old(self).wf(),
        ensures
            final(self).wf(),
            final(self).state_spec() == SessionState::Cancelled,
            final(self).ons().len() == 0,
            final(self).offs() == old(self).offs(),
            final(self).off_map() == old(self).off_map(),
            final(self).played() == old(self).played(),
            final(self).emitted() == old(self).emitted(),
    {
        self.pending_on = Vec::new();
        self.state = SessionState::Cancelled;
    }

    /// Emit the note-off for every pending off deadline, in deadline
    /// order, leaving none pending. Meant for draining a cancelled
    /// session; every note that was sounding receives exactly one
    /// note-off.
    pub fn flush(&mut self) -> (r: Vec<MidiCommand>)
        requires
            old(self).wf(),
            old(self).state_spec() == SessionState::Cancelled,
        ensures
            final(self).wf(),
            final(self).state_spec() == SessionState::Cancelled,
            final(self).offs().len() == 0,
            final(self).off_map() == Map::<int, int>::empty(),
            final(self).played() == old(self).played(),
            final(self).emitted() == old(self).emitted() + r@,
            live_notes(final(self).emitted()) == Set::<int>::empty(),
            r@.len() == old(self).offs().len(),
            forall|i: int|
                0 <= i < r@.len() ==> (#[trigger] r@[i] matches MidiCommand::NoteOff(note, vel)
                    && note == old(self).offs()[i].note && vel == 127),
    {
        let ghost s0 = *old(self);
        let mut out: Vec<MidiCommand> = Vec::new();
        while self.pending_off.len() > 0
            invariant
                self.wf(),
                self.state_spec() == SessionState::Cancelled,
                self.played() == s0.played(),
                out@.len() + self.offs().len() == s0.offs().len(),
                self.offs() == s0.offs().skip(out@.len() as int),
                self.emitted() == s0.emitted() + out@,
                forall|i: int|
                    0 <= i < out@.len() ==> (#[trigger] out@[i] matches MidiCommand::NoteOff(
                        note,
                        vel,
                    ) && note == s0.offs()[i].note && vel == 127),
            decreases self.pending_off@.len(),
        {
            let ghost offs_before = self.offs();
            let ghost emitted_before = self.emitted();
            let o = self.pending_off.remove(0);
            self.history = Ghost(self.history@.push(MidiCommand::NoteOff(o.note, 127)));
            proof {
                assert(o == s0.offs()[out@.len() as int]);
                assert(self.pending_off@ =~= offs_before.skip(1));
                assert(self.pending_off@ =~= s0.offs().skip(out@.len() as int + 1));
                assert forall|a: int, b: int| 0 <= a < b < self.pending_off@.len() implies (
                #[trigger] self.pending_off@[a]).note.num() != (
                #[trigger] self.pending_off@[b]).note.num() by {
                    assert(self.pending_off@[a] == offs_before[a + 1] && self.pending_off@[b]
                        == offs_before[b + 1]);
                }
                lemma_offs_map_remove(offs_before, 0);
                lemma_live_notes_push(emitted_before, MidiCommand::NoteOff(o.note, 127));
                assert_sets_equal!(
                    live_notes(self.history@),
                    offs_map(self.pending_off@).dom()
                );
                assert(self.emitted() =~= s0.emitted() + out@.push(
                    MidiCommand::NoteOff(o.note, 127),
                ));
            }
            out.push(MidiCommand::NoteOff(o.note, 127));
        }
        proof {
            assert(self.offs() =~= Seq::<PendingOff>::empty());
            assert_maps_equal!(offs_map(self.offs()), Map::<int, int>::empty());
            assert_sets_equal!(live_notes(self.emitted()), Set::<int>::empty());
        }
        out
    }
}

/// No stuck notes: a session whose pending-off queue has been fully
/// drained leaves nothing sounding — every note that ever received a
/// note-on in the emitted command history has since received its
/// note-off. Since `cancel` keeps every pending off-deadline and
/// `flush` fires each of them, this holds of every cancelled and
/// flushed session, however far playback had got.
pub proof fn lemma_no_stuck_notes(s: NoteScheduler)
    requires
        s.wf(),
        s.offs().len() == 0,
    ensures
        live_notes(s.emitted()) == Set::<int>::empty(),
{
    assert(s.off_map().dom() =~= Set::<int>::empty());
}

} // verus!
