//! Free Play mirror score: pitch-accurate, rhythm simplified to quarters,
//! a sliding window of the most recent events so engraving stays fast and
//! the staff reads like a scroll.
//!
//! Grand-staff aware: each event is a chord of one or more pitches (grouped
//! upstream by arrival time); pitches below middle C land on the bass staff.

use vstd::prelude::*;
use vstd::relations::{sorted_by, total_ordering};
use crate::score::model::{Exercise, NoteDuration, ScoreNote, Staff};

verus! {

broadcast use vstd::seq_lib::group_to_multiset_ensures;

pub struct FreePlayScore;

/// The order pitches are engraved in within a chord: low to high.
pub open spec fn pitch_leq() -> spec_fn(u8, u8) -> bool {
    |a: u8, b: u8| a <= b
}

/// A chord's pitches, low to high.
pub open spec fn ascending(chord: Seq<u8>) -> Seq<u8> {
    chord.sort_by(pitch_leq())
}

/// The staff a pitch is engraved on.
pub open spec fn staff_for(midi: u8) -> Staff {
    if midi < 60 { Staff::Bass } else { Staff::Treble }
}

/// One chord's quarter notes, given its pitches in engraving order: the
/// first is the onset, each further pitch a chord member.
pub open spec fn chord_notes(pitches: Seq<u8>) -> Seq<ScoreNote> {
    Seq::new(pitches.len(), |i: int| ScoreNote {
        midi: Some(pitches[i]),
        duration: NoteDuration::Quarter,
        staff: staff_for(pitches[i]),
        chord_with_previous: i > 0,
        tied_from_previous: false,
    })
}

/// The notes of a run of chords, each chord sorted low to high. An empty
/// chord contributes nothing.
pub open spec fn mirror_notes(chords: Seq<Seq<u8>>) -> Seq<ScoreNote>
    decreases chords.len(),
{
    if chords.len() == 0 {
        Seq::empty()
    } else {
        mirror_notes(chords.drop_last()) + chord_notes(ascending(chords.last()))
    }
}

/// The most recent `WINDOW_SIZE` chords.
pub open spec fn recent(chords: Seq<Seq<u8>>) -> Seq<Seq<u8>> {
    if chords.len() > 16 { chords.subrange(chords.len() - 16, chords.len() as int) } else { chords }
}

/// The mirror score's notes: the recent chords, or a whole rest when none
/// of them holds a pitch.
pub open spec fn mirror_spec(chords: Seq<Seq<u8>>) -> Seq<ScoreNote> {
    let notes = mirror_notes(recent(chords));
    if notes.len() == 0 {
        seq![ScoreNote {
            midi: None,
            duration: NoteDuration::Whole,
            staff: Staff::Treble,
            chord_with_previous: false,
            tied_from_previous: false,
        }]
    } else {
        notes
    }
}

/// The pitches of a run of chords, chord after chord.
pub open spec fn played_pitches(chords: Seq<Seq<u8>>) -> Seq<u8>
    decreases chords.len(),
{
    if chords.len() == 0 {
        Seq::empty()
    } else {
        played_pitches(chords.drop_last()) + chords.last()
    }
}

/// The pitches a run of notes sounds, in order.
pub open spec fn note_pitches(notes: Seq<ScoreNote>) -> Seq<u8> {
    notes.map_values(|n: ScoreNote| n.midi->0)
}

proof fn lemma_chord_notes_pitches(pitches: Seq<u8>)
    ensures
        note_pitches(chord_notes(pitches)) == pitches,
        forall|i: int| 0 <= i < pitches.len() ==> (#[trigger] chord_notes(pitches)[i]).midi is Some,
{
    assert(note_pitches(chord_notes(pitches)) =~= pitches);
}

/// The mirror of a run of chords sounds exactly the pitches played, each
/// as often as it was played, and every note of it is a pitch.
pub proof fn lemma_mirror_notes_are_the_played_pitches(chords: Seq<Seq<u8>>)
    ensures
        forall|i: int| 0 <= i < mirror_notes(chords).len() ==> (#[trigger] mirror_notes(chords)[i]).midi is Some,
        note_pitches(mirror_notes(chords)).to_multiset() == played_pitches(chords).to_multiset(),
        mirror_notes(chords).len() == played_pitches(chords).len(),
    decreases chords.len(),
{
    if chords.len() > 0 {
        let rest = chords.drop_last();
        let last = chords.last();
        lemma_mirror_notes_are_the_played_pitches(rest);
        let head = mirror_notes(rest);
        let tail = chord_notes(ascending(last));
        lemma_chord_notes_pitches(ascending(last));
        assert(total_ordering(pitch_leq()));
        last.lemma_sort_by_ensures(pitch_leq());
        assert(ascending(last).len() == ascending(last).to_multiset().len());
        assert(last.len() == last.to_multiset().len());
        assert(note_pitches(head + tail) =~= note_pitches(head) + note_pitches(tail));
        vstd::seq_lib::lemma_multiset_commutative(note_pitches(head), note_pitches(tail));
        vstd::seq_lib::lemma_multiset_commutative(played_pitches(rest), last);
        assert forall|i: int| 0 <= i < mirror_notes(chords).len() implies (#[trigger] mirror_notes(chords)[i]).midi is Some by {
            if i >= head.len() {
                assert(mirror_notes(chords)[i] == tail[i - head.len()]);
            } else {
                assert(mirror_notes(chords)[i] == head[i]);
            }
        }
    }
}

/// Free play is pitch-accurate: the mirror score sounds exactly the
/// pitches of the most recent `WINDOW_SIZE` events, each as often as it was
/// played; with none played there, it is a single whole rest.
pub proof fn lemma_mirror_score_is_pitch_accurate(chords: Seq<Seq<u8>>)
    ensures
        played_pitches(recent(chords)).len() > 0 ==> {
            &&& forall|i: int| 0 <= i < mirror_spec(chords).len() ==> (#[trigger] mirror_spec(chords)[i]).midi is Some
            &&& note_pitches(mirror_spec(chords)).to_multiset() == played_pitches(recent(chords)).to_multiset()
        },
        played_pitches(recent(chords)).len() == 0 ==> mirror_spec(chords).len() == 1 && mirror_spec(chords)[0].midi is None,
{
    lemma_mirror_notes_are_the_played_pitches(recent(chords));
}

proof fn lemma_mirror_notes_never_tie(chords: Seq<Seq<u8>>)
    ensures
        forall|i: int| 0 <= i < mirror_notes(chords).len() ==> !(#[trigger] mirror_notes(chords)[i]).tied_from_previous,
    decreases chords.len(),
{
    if chords.len() > 0 {
        let head = mirror_notes(chords.drop_last());
        let tail = chord_notes(ascending(chords.last()));
        lemma_mirror_notes_never_tie(chords.drop_last());
        assert forall|i: int| 0 <= i < mirror_notes(chords).len() implies !(#[trigger] mirror_notes(chords)[i]).tied_from_previous by {
            if i >= head.len() {
                assert(mirror_notes(chords)[i] == tail[i - head.len()]);
            } else {
                assert(mirror_notes(chords)[i] == head[i]);
            }
        }
    }
}

/// The mirror re-strikes every pitch: no note of it continues a tie, a
/// pitch struck twice in one chord included.
pub proof fn lemma_mirror_never_ties(chords: Seq<Seq<u8>>)
    ensures
        forall|i: int| 0 <= i < mirror_spec(chords).len() ==> !(#[trigger] mirror_spec(chords)[i]).tied_from_previous,
{
    lemma_mirror_notes_never_tie(recent(chords));
}

/// Sorting keeps a chord's size.
pub proof fn lemma_ascending_len(chord: Seq<u8>)
    ensures
        ascending(chord).len() == chord.len(),
{
    assert(total_ordering(pitch_leq()));
    chord.lemma_sort_by_ensures(pitch_leq());
    assert(ascending(chord).len() == ascending(chord).to_multiset().len());
    assert(chord.len() == chord.to_multiset().len());
}

/// The pitches of a chord, low to high.
pub(crate) fn sorted_pitches(chord: &Vec<u8>) -> (out: Vec<u8>)
    ensures
        out@ == ascending(chord@),
{
    let ghost leq = pitch_leq();
    let mut out: Vec<u8> = Vec::new();
    let mut i: usize = 0;
    while i < chord.len()
        invariant
            i <= chord@.len(),
            leq == pitch_leq(),
            sorted_by(out@, leq),
            out@.to_multiset() == chord@.take(i as int).to_multiset(),
        decreases chord.len() - i,
    {
        let x = chord[i];
        let mut p: usize = 0;
        while p < out.len() && out[p] <= x
            invariant
                p <= out@.len(),
                forall|t: int| 0 <= t < p ==> out@[t] <= x,
            decreases out.len() - p,
        {
            p = p + 1;
        }
        proof {
            assert(chord@.take(i + 1) =~= chord@.take(i as int).push(x));
        }
        let ghost before = out@;
        out.insert(p, x);
        proof {
            assert(out@ == before.insert(p as int, x));
            assert forall|a: int, b: int| 0 <= a < b < out@.len() implies #[trigger] leq(out@[a], out@[b]) by {
                if b < p {
                    assert(leq(before[a], before[b]));
                } else if b == p {
                    assert(before[a] <= x);
                } else if a < p {
                    assert(before[a] <= x);
                    assert(x < before[p as int] || p == before.len());
                    assert(leq(before[p as int], before[b - 1]) || b - 1 == p);
                } else if a == p {
                    assert(leq(before[p as int], before[b - 1]) || b - 1 == p);
                } else {
                    assert(leq(before[a - 1], before[b - 1]));
                }
            }
        }
        i = i + 1;
    }
    proof {
        assert(chord@.take(chord@.len() as int) =~= chord@);
        assert(total_ordering(leq));
        chord@.lemma_sort_by_ensures(leq);
        vstd::seq_lib::lemma_sorted_unique(out@, chord@.sort_by(leq), leq);
    }
    out
}

impl FreePlayScore {
    /// Window size in events (a chord counts as one event).
    pub const WINDOW_SIZE: usize = 16;
    /// Pitches below middle C render on the bass staff.
    pub const BASS_SPLIT_MIDI: u8 = 60;

    /// The mirror score of the played chords: the last `WINDOW_SIZE`
    /// events as quarter notes in 4/4, or a whole rest when none sounds.
    pub fn build(chords: &[Vec<u8>]) -> (e: Exercise)
        ensures
            e.notes@ == mirror_spec(chords@.map_values(|c: Vec<u8>| c@)),
            e.bass_notes@.len() == 0,
            e.beats_per_measure == 4,
            e.fifths == 0,
            forall|i: int| 0 <= i < e.notes@.len() ==> !(#[trigger] e.notes@[i]).tied_from_previous,
    {
        let ghost all = chords@.map_values(|c: Vec<u8>| c@);
        proof {
            lemma_mirror_never_ties(all);
        }
        let start: usize = if chords.len() > Self::WINDOW_SIZE { chords.len() - Self::WINDOW_SIZE } else { 0 };
        let ghost window = recent(all);
        assert(window =~= all.subrange(start as int, all.len() as int));
        let mut notes: Vec<ScoreNote> = Vec::new();
        let mut i: usize = start;
        while i < chords.len()
            invariant
                start <= i <= chords@.len(),
                all == chords@.map_values(|c: Vec<u8>| c@),
                window == all.subrange(start as int, all.len() as int),
                notes@ == mirror_notes(window.take(i - start)),
            decreases chords.len() - i,
        {
            let sorted = sorted_pitches(&chords[i]);
            let ghost base = notes@;
            let mut offset: usize = 0;
            while offset < sorted.len()
                invariant
                    offset <= sorted@.len(),
                    notes@ == base + chord_notes(sorted@).take(offset as int),
                decreases sorted.len() - offset,
            {
                let midi = sorted[offset];
                let staff = if midi < Self::BASS_SPLIT_MIDI { Staff::Bass } else { Staff::Treble };
                notes.push(ScoreNote::note(midi, NoteDuration::Quarter).with_staff(staff).with_chord(offset > 0));
                proof {
                    assert(chord_notes(sorted@).take(offset + 1) =~= chord_notes(sorted@).take(offset as int).push(
                        chord_notes(sorted@)[offset as int],
                    ));
                }
                offset = offset + 1;
            }
            proof {
                assert(chord_notes(sorted@).take(sorted@.len() as int) =~= chord_notes(sorted@));
                let w = window.take(i + 1 - start);
                assert(w.drop_last() =~= window.take(i - start));
                assert(w.last() == chords@[i as int]@);
            }
            i = i + 1;
        }
        proof {
            assert(window.take(chords@.len() - start) =~= window);
        }
        if notes.len() == 0 {
            return Exercise::new(vec![ScoreNote::rest(NoteDuration::Whole)], 4);
        }
        Exercise::new(notes, 4)
    }
}

} // verus!
