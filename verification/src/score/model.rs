//! Internal score model: durations, notes/rests/chords/ties, and the
//! [`Exercise`] container with its measure chunking, per-voice note spans,
//! tie roles and the combined (grand-staff) event stream.

use vstd::prelude::*;
use vstd::arithmetic::div_mod::{lemma_div_is_ordered, lemma_div_pos_is_pos, lemma_div_is_ordered_by_denominator};
use crate::score::events::lemma_event_stream_unique;

verus! {

/// Durations measured in eighth-note units so every value (eighths,
/// dotted notes) is an exact integer.
#[derive(Debug, Clone, Copy, PartialEq, Eq, Hash, Structural)]
pub enum NoteDuration {
    Eighth,
    Quarter,
    DottedQuarter,
    Half,
    DottedHalf,
    Whole,
}

impl NoteDuration {
    /// Length in eighth-note units.
    pub open spec fn unit_count(self) -> int {
        match self {
            NoteDuration::Eighth => 1,
            NoteDuration::Quarter => 2,
            NoteDuration::DottedQuarter => 3,
            NoteDuration::Half => 4,
            NoteDuration::DottedHalf => 6,
            NoteDuration::Whole => 8,
        }
    }

    pub open spec fn dotted(self) -> bool {
        self == NoteDuration::DottedQuarter || self == NoteDuration::DottedHalf
    }

    /// The MusicXML `<type>` name: the undotted base value.
    pub open spec fn xml_type(self) -> Seq<char> {
        match self {
            NoteDuration::Eighth => "eighth"@,
            NoteDuration::Quarter => "quarter"@,
            NoteDuration::DottedQuarter => "quarter"@,
            NoteDuration::Half => "half"@,
            NoteDuration::DottedHalf => "half"@,
            NoteDuration::Whole => "whole"@,
        }
    }

    /// The duration spanning `units` eighths, if one exists.
    pub open spec fn with_units(units: int) -> Option<NoteDuration> {
        if units == 1 { Some(NoteDuration::Eighth) }
        else if units == 2 { Some(NoteDuration::Quarter) }
        else if units == 3 { Some(NoteDuration::DottedQuarter) }
        else if units == 4 { Some(NoteDuration::Half) }
        else if units == 6 { Some(NoteDuration::DottedHalf) }
        else if units == 8 { Some(NoteDuration::Whole) }
        else { None }
    }

    /// Length in eighth-note units.
    pub fn units(self) -> (u: i32)
        ensures
            u as int == self.unit_count(),
            1 <= u <= 8,
    {
        match self {
            NoteDuration::Eighth => 1,
            NoteDuration::Quarter => 2,
            NoteDuration::DottedQuarter => 3,
            NoteDuration::Half => 4,
            NoteDuration::DottedHalf => 6,
            NoteDuration::Whole => 8,
        }
    }

    pub fn is_dotted(self) -> (b: bool)
        ensures
            b == self.dotted(),
    {
        match self {
            NoteDuration::DottedQuarter | NoteDuration::DottedHalf => true,
            _ => false,
        }
    }

    pub fn music_xml_type(self) -> (s: &'static str)
        ensures
            s@ == self.xml_type(),
    {
        match self {
            NoteDuration::Eighth => "eighth",
            NoteDuration::Quarter | NoteDuration::DottedQuarter => "quarter",
            NoteDuration::Half | NoteDuration::DottedHalf => "half",
            NoteDuration::Whole => "whole",
        }
    }

    /// The duration spanning `units` eighths, if one exists.
    pub fn from_units(units: i64) -> (d: Option<NoteDuration>)
        ensures
            d == NoteDuration::with_units(units as int),
    {
        if units == 1 { Some(NoteDuration::Eighth) }
        else if units == 2 { Some(NoteDuration::Quarter) }
        else if units == 3 { Some(NoteDuration::DottedQuarter) }
        else if units == 4 { Some(NoteDuration::Half) }
        else if units == 6 { Some(NoteDuration::DottedHalf) }
        else if units == 8 { Some(NoteDuration::Whole) }
        else { None }
    }
}

/// Which staff of the grand staff a note lives on.
#[derive(Debug, Clone, Copy, PartialEq, Eq, Hash, Structural)]
pub enum Staff {
    Treble,
    Bass,
}

/// A note or (with `midi == None`) a rest. Chords follow the MusicXML
/// model: the first pitch is the anchor and each further member sets
/// `chord_with_previous`.
#[derive(Debug, Clone, Copy, PartialEq, Eq, Hash, Structural)]
pub struct ScoreNote {
    pub midi: Option<u8>,
    pub duration: NoteDuration,
    pub staff: Staff,
    /// Sounds together with the preceding note (a chord member, not an onset).
    pub chord_with_previous: bool,
    /// Tie continuation: extends the previous event's same pitch.
    pub tied_from_previous: bool,
}

/// The staff a note lands on when a stored note names none.
pub fn default_staff() -> (s: Staff)
    ensures
        s == Staff::Treble,
{
    Staff::Treble
}

impl ScoreNote {
    /// Time the note advances its voice: chord members add nothing.
    pub open spec fn advance(self) -> int {
        if self.chord_with_previous { 0 } else { self.duration.unit_count() }
    }

    pub open spec fn sounds(self) -> bool {
        self.midi is Some
    }

    pub fn new(midi: Option<u8>, duration: NoteDuration) -> (n: ScoreNote)
        ensures
            n == (ScoreNote { midi, duration, staff: Staff::Treble, chord_with_previous: false, tied_from_previous: false }),
    {
        ScoreNote { midi, duration, staff: Staff::Treble, chord_with_previous: false, tied_from_previous: false }
    }

    pub fn note(midi: u8, duration: NoteDuration) -> (n: ScoreNote)
        ensures
            n == (ScoreNote { midi: Some(midi), duration, staff: Staff::Treble, chord_with_previous: false, tied_from_previous: false }),
    {
        Self::new(Some(midi), duration)
    }

    pub fn rest(duration: NoteDuration) -> (n: ScoreNote)
        ensures
            n == (ScoreNote { midi: None, duration, staff: Staff::Treble, chord_with_previous: false, tied_from_previous: false }),
    {
        Self::new(None, duration)
    }

    pub fn with_staff(self, staff: Staff) -> (n: ScoreNote)
        ensures
            n == (ScoreNote { staff, ..self }),
    {
        ScoreNote { staff, ..self }
    }

    pub fn with_chord(self, chord_with_previous: bool) -> (n: ScoreNote)
        ensures
            n == (ScoreNote { chord_with_previous, ..self }),
    {
        ScoreNote { chord_with_previous, ..self }
    }

    pub fn with_tie(self, tied_from_previous: bool) -> (n: ScoreNote)
        ensures
            n == (ScoreNote { tied_from_previous, ..self }),
    {
        ScoreNote { tied_from_previous, ..self }
    }

    pub fn is_rest(&self) -> (b: bool)
        ensures
            b == (self.midi is None),
    {
        self.midi.is_none()
    }
}

/// One matchable moment: every pitch sounding at an onset, across both
/// voices, treble voice first, then bass.
#[derive(Debug, Clone, PartialEq)]
pub struct MatchEvent {
    pub start_units: i32,
    pub pitches: Vec<u8>,
    pub staves: Vec<Staff>,
    pub durations: Vec<NoteDuration>,
}

/// (start, length, midi, staff, duration) for one played note of a voice.
#[derive(Debug, Clone, Copy, PartialEq, Eq, Structural)]
pub struct NoteSpan {
    pub start_units: i32,
    pub length_units: i32,
    pub midi: u8,
    pub staff: Staff,
    pub duration: NoteDuration,
}

/// Per-note tie role for the encoder.
#[derive(Debug, Clone, Copy, PartialEq, Eq, Default, Structural)]
pub struct TieRole {
    pub start: bool,
    pub stop: bool,
}

/// A treble voice plus an optional independent bass voice.
#[derive(Debug, Clone, PartialEq)]
pub struct Exercise {
    /// Staff-1 voice (right hand).
    pub notes: Vec<ScoreNote>,
    /// Staff-2 voice (left hand), independent rhythm. Empty = single voice.
    pub bass_notes: Vec<ScoreNote>,
    /// Quarter-note beats per measure (4 = 4/4).
    pub beats_per_measure: i32,
    /// Key signature: sharps (positive) or flats (negative).
    pub fifths: i32,
}

/// The largest voice the timing arithmetic (eighth units in `i32`) holds.
pub open spec fn voice_fits(voice: Seq<ScoreNote>) -> bool {
    voice.len() <= 0x0fff_ffff
}

/// Measure chunking, one note at a time: `current` is the open measure
/// and `units` the time it has accumulated. A measure closes once it is
/// full, but never right before a chord member.
pub open spec fn measures_from(
    voice: Seq<ScoreNote>,
    upm: int,
    i: int,
    current: Seq<ScoreNote>,
    units: int,
) -> Seq<Seq<ScoreNote>>
    decreases voice.len() - i,
{
    if i < 0 || i >= voice.len() {
        if current.len() > 0 { seq![current] } else { Seq::empty() }
    } else {
        let note = voice[i];
        let cur = current.push(note);
        let u = units + note.advance();
        let next_is_chord = i + 1 < voice.len() && voice[i + 1].chord_with_previous;
        if u >= upm && !next_is_chord {
            seq![cur] + measures_from(voice, upm, i + 1, Seq::empty(), 0)
        } else {
            measures_from(voice, upm, i + 1, cur, u)
        }
    }
}

/// A voice chunked into measures.
pub open spec fn measures_spec(voice: Seq<ScoreNote>, upm: int) -> Seq<Seq<ScoreNote>> {
    measures_from(voice, upm, 0, Seq::empty(), 0)
}

/// The notes of a voice that sound (rests removed), in order.
pub open spec fn sounded(voice: Seq<ScoreNote>) -> Seq<ScoreNote> {
    voice.filter(|n: ScoreNote| n.midi is Some)
}

impl Exercise {
    pub open spec fn meter_fits(self) -> bool {
        -0x4000_0000 <= self.beats_per_measure < 0x4000_0000
    }

    pub open spec fn upm(self) -> int {
        self.beats_per_measure * 2
    }

    pub open spec fn bass_only(self) -> bool {
        self.notes.len() == 0 && self.bass_notes.len() > 0
    }

    pub fn new(notes: Vec<ScoreNote>, beats_per_measure: i32) -> (e: Exercise)
        ensures
            e.notes@ == notes@,
            e.bass_notes@.len() == 0,
            e.beats_per_measure == beats_per_measure,
            e.fifths == 0,
    {
        Exercise { notes, bass_notes: Vec::new(), beats_per_measure, fifths: 0 }
    }

    pub fn with_bass(self, bass_notes: Vec<ScoreNote>) -> (e: Exercise)
        ensures
            e.notes@ == self.notes@,
            e.bass_notes@ == bass_notes@,
            e.beats_per_measure == self.beats_per_measure,
            e.fifths == self.fifths,
    {
        Exercise { bass_notes, ..self }
    }

    pub fn with_fifths(self, fifths: i32) -> (e: Exercise)
        ensures
            e.notes@ == self.notes@,
            e.bass_notes@ == self.bass_notes@,
            e.beats_per_measure == self.beats_per_measure,
            e.fifths == fifths,
    {
        Exercise { fifths, ..self }
    }

    pub fn is_two_voice(&self) -> (b: bool)
        ensures
            b == (self.bass_notes@.len() > 0),
    {
        !self.bass_notes.is_empty()
    }

    /// The left hand alone: no treble voice, a bass voice.
    pub fn is_bass_only(&self) -> (b: bool)
        ensures
            b == self.bass_only(),
    {
        self.notes.is_empty() && !self.bass_notes.is_empty()
    }

    pub fn units_per_measure(&self) -> (u: i32)
        requires
            self.meter_fits(),
        ensures
            u as int == self.upm(),
    {
        self.beats_per_measure * 2
    }
}


/// The contents of each measure vector.
pub open spec fn measure_views(ms: Seq<Vec<ScoreNote>>) -> Seq<Seq<ScoreNote>> {
    ms.map_values(|m: Vec<ScoreNote>| m@)
}

pub open spec fn max1(x: int) -> int {
    if x > 1 { x } else { 1 }
}

impl Exercise {
    /// Treble-voice notes chunked into measures.
    pub fn measures(&self) -> (r: Vec<Vec<ScoreNote>>)
        requires
            self.meter_fits(),
        ensures
            measure_views(r@) == measures_spec(self.notes@, self.upm()),
    {
        Self::measures_of(self.notes.as_slice(), self.units_per_measure())
    }

    /// Bass-voice measures (empty for single-voice scores).
    pub fn bass_measures(&self) -> (r: Vec<Vec<ScoreNote>>)
        requires
            self.meter_fits(),
        ensures
            measure_views(r@) == measures_spec(self.bass_notes@, self.upm()),
    {
        Self::measures_of(self.bass_notes.as_slice(), self.units_per_measure())
    }

    /// Measure count across both voices.
    pub fn measure_count(&self) -> (n: usize)
        requires
            self.meter_fits(),
        ensures
            n as int == (if measures_spec(self.notes@, self.upm()).len() >= measures_spec(self.bass_notes@, self.upm()).len() {
                measures_spec(self.notes@, self.upm()).len()
            } else {
                measures_spec(self.bass_notes@, self.upm()).len()
            }),
    {
        let t = self.measures();
        let b = self.bass_measures();
        if t.len() >= b.len() { t.len() } else { b.len() }
    }

    /// A voice chunked into measures by accumulated units. Chord members
    /// contribute no time and never split from their anchor.
    pub fn measures_of(voice: &[ScoreNote], units_per_measure: i32) -> (r: Vec<Vec<ScoreNote>>)
        ensures
            measure_views(r@) == measures_spec(voice@, units_per_measure as int),
    {
        let ghost upm = units_per_measure as int;
        let mut result: Vec<Vec<ScoreNote>> = Vec::new();
        let mut current: Vec<ScoreNote> = Vec::new();
        let mut units: i64 = 0;
        let n = voice.len();
        let mut index: usize = 0;
        while index < n
            invariant
                n == voice@.len(),
                index <= n,
                upm == units_per_measure as int,
                measure_views(result@) + measures_from(voice@, upm, index as int, current@, units as int)
                    == measures_spec(voice@, upm),
                0 <= units < max1(upm) + 8,
                index < n && !voice@[index as int].chord_with_previous ==> units < max1(upm),
            decreases n - index,
        {
            let note = voice[index];
            let ghost before = measure_views(result@);
            let ghost cur_before = current@;
            let ghost units_before = units as int;
            current.push(note);
            if !note.chord_with_previous {
                units = units + note.duration.units() as i64;
            }
            let next_is_chord = index + 1 < n && voice[index + 1].chord_with_previous;
            if units >= units_per_measure as i64 && !next_is_chord {
                let done = current;
                result.push(done);
                current = Vec::new();
                units = 0;
                proof {
                    assert(measure_views(result@) =~= before.push(cur_before.push(note)));
                    assert(measures_from(voice@, upm, index as int, cur_before, units_before)
                        == seq![cur_before.push(note)] + measures_from(voice@, upm, index + 1, Seq::empty(), 0));
                    assert(before.push(cur_before.push(note)) + measures_from(voice@, upm, index + 1, Seq::empty(), 0)
                        =~= before + (seq![cur_before.push(note)] + measures_from(voice@, upm, index + 1, Seq::empty(), 0)));
                }
            } else {
                proof {
                    assert(measure_views(result@) == before);
                    assert(measures_from(voice@, upm, index as int, cur_before, units_before)
                        == measures_from(voice@, upm, index + 1, cur_before.push(note), units as int));
                }
            }
            index = index + 1;
        }
        if current.len() > 0 {
            let ghost before = measure_views(result@);
            let ghost last = current@;
            result.push(current);
            proof {
                assert(measure_views(result@) =~= before + seq![last]);
            }
        } else {
            proof {
                assert(measure_views(result@) =~= measure_views(result@) + Seq::<Seq<ScoreNote>>::empty());
            }
        }
        result
    }
}


/// No pitch has a span yet (one slot per MIDI byte value).
pub open spec fn empty_slots() -> Seq<Option<usize>> {
    Seq::new(256, |k: int| None::<usize>)
}

/// A span lengthened by a tie continuation.
pub open spec fn extended(span: NoteSpan, units: int) -> NoteSpan {
    NoteSpan { length_units: (span.length_units + units) as i32, ..span }
}

/// The spans after one more note: a tie continuation lengthens the
/// previous event's span of the same pitch (when there is one); any
/// other sounded note opens a span at its event's onset.
pub open spec fn spans_after(
    result: Seq<NoteSpan>,
    note: ScoreNote,
    a_start: int,
    a_len: int,
    prev: Seq<Option<usize>>,
) -> Seq<NoteSpan> {
    match note.midi {
        None => result,
        Some(m) => if note.tied_from_previous && prev[m as int] is Some {
            result.update(prev[m as int]->0 as int, extended(result[prev[m as int]->0 as int], note.duration.unit_count()))
        } else {
            result.push(NoteSpan {
                start_units: a_start as i32,
                length_units: a_len as i32,
                midi: m,
                staff: note.staff,
                duration: note.duration,
            })
        },
    }
}

/// The current event's pitch→span slots after one more note.
pub open spec fn slots_after(
    result: Seq<NoteSpan>,
    note: ScoreNote,
    prev: Seq<Option<usize>>,
    cur: Seq<Option<usize>>,
) -> Seq<Option<usize>> {
    match note.midi {
        None => cur,
        Some(m) => if note.tied_from_previous && prev[m as int] is Some {
            cur.update(m as int, prev[m as int])
        } else {
            cur.update(m as int, Some(result.len() as usize))
        },
    }
}

/// Note spans of a voice, one note at a time. `units` is the voice's
/// time so far, `a_start`/`a_len` the current event's onset and length,
/// `prev`/`cur` the pitch→span slots of the previous and current event.
pub open spec fn spans_from(
    voice: Seq<ScoreNote>,
    i: int,
    result: Seq<NoteSpan>,
    units: int,
    a_start: int,
    a_len: int,
    prev: Seq<Option<usize>>,
    cur: Seq<Option<usize>>,
) -> Seq<NoteSpan>
    decreases voice.len() - i,
{
    if i < 0 || i >= voice.len() {
        result
    } else {
        let note = voice[i];
        let chord = note.chord_with_previous;
        let s = if chord { a_start } else { units };
        let l = if chord { a_len } else { note.duration.unit_count() };
        let p = if chord { prev } else { cur };
        let c = if chord { cur } else { empty_slots() };
        spans_from(
            voice,
            i + 1,
            spans_after(result, note, s, l, p),
            units + note.advance(),
            s,
            l,
            p,
            slots_after(result, note, p, c),
        )
    }
}

/// The played-note spans of a voice in document order.
pub open spec fn note_spans(voice: Seq<ScoreNote>) -> Seq<NoteSpan> {
    spans_from(voice, 0, Seq::empty(), 0, 0, 0, empty_slots(), empty_slots())
}

/// The first event onset at or after position `k` (chord members join the
/// event before them), or the voice length.
pub open spec fn next_event_start(voice: Seq<ScoreNote>, k: int) -> int
    decreases voice.len() - k,
{
    if k < 0 || k >= voice.len() {
        voice.len() as int
    } else if !voice[k].chord_with_previous {
        k
    } else {
        next_event_start(voice, k + 1)
    }
}

/// Note `i` starts a tie: the event right after its own holds a tie
/// continuation of the same pitch.
pub open spec fn starts_tie(voice: Seq<ScoreNote>, i: int) -> bool {
    let s = next_event_start(voice, i + 1);
    &&& voice[i].midi is Some
    &&& s < voice.len()
    &&& exists|j: int| #![trigger voice[j]]
            s <= j < next_event_start(voice, s + 1) && voice[j].tied_from_previous
                && voice[j].midi == voice[i].midi
}

/// Tie roles of a voice: `stop` on every continuation, `start` on every
/// note the next event continues.
pub open spec fn tie_roles_spec(voice: Seq<ScoreNote>) -> Seq<TieRole> {
    Seq::new(voice.len(), |i: int| TieRole { start: starts_tie(voice, i), stop: voice[i].tied_from_previous })
}

/// Onsets of the sounded notes, one note at a time: a chord member repeats
/// the last recorded onset (0 before any), anything else sounds at the
/// voice's current time.
pub open spec fn starts_from(voice: Seq<ScoreNote>, i: int, starts: Seq<i32>, units: int) -> Seq<i32>
    decreases voice.len() - i,
{
    if i < 0 || i >= voice.len() {
        starts
    } else {
        let note = voice[i];
        if note.chord_with_previous {
            let next = if note.midi is Some {
                starts.push(if starts.len() > 0 { starts.last() } else { 0 })
            } else {
                starts
            };
            starts_from(voice, i + 1, next, units)
        } else {
            let next = if note.midi is Some { starts.push(units as i32) } else { starts };
            starts_from(voice, i + 1, next, units + note.duration.unit_count())
        }
    }
}

pub open spec fn start_units_spec(voice: Seq<ScoreNote>) -> Seq<i32> {
    starts_from(voice, 0, Seq::empty(), 0)
}

proof fn lemma_next_event_start_bounds(voice: Seq<ScoreNote>, k: int)
    ensures
        next_event_start(voice, k) <= voice.len(),
        0 <= k <= voice.len() ==> k <= next_event_start(voice, k),
        next_event_start(voice, k) < voice.len() ==> !voice[next_event_start(voice, k)].chord_with_previous,
    decreases voice.len() - k,
{
    if 0 <= k < voice.len() && voice[k].chord_with_previous {
        lemma_next_event_start_bounds(voice, k + 1);
    }
}

/// Every position strictly between `k` and an event start `e` is a chord
/// member, so the next event from `k` is `e`.
proof fn lemma_next_event_start_is(voice: Seq<ScoreNote>, k: int, e: int)
    requires
        0 <= k <= e <= voice.len(),
        e == voice.len() || !voice[e].chord_with_previous,
        forall|t: int| k <= t < e ==> voice[t].chord_with_previous,
    ensures
        next_event_start(voice, k) == e,
    decreases e - k,
{
    if k < e {
        lemma_next_event_start_is(voice, k + 1, e);
    }
}

fn empty_slot_vec() -> (v: Vec<Option<usize>>)
    ensures
        v@ == empty_slots(),
{
    let mut v: Vec<Option<usize>> = Vec::new();
    let mut k: usize = 0;
    while k < 256
        invariant
            k <= 256,
            v@.len() == k,
            forall|t: int| 0 <= t < k ==> v@[t] is None,
        decreases 256 - k,
    {
        v.push(None);
        k = k + 1;
    }
    assert(v@ =~= empty_slots());
    v
}

/// Appends the sounded notes of `voice`.
fn push_sounded(out: &mut Vec<ScoreNote>, voice: &[ScoreNote])
    ensures
        final(out)@ == old(out)@ + sounded(voice@),
{
    let ghost start = out@;
    let mut i: usize = 0;
    while i < voice.len()
        invariant
            i <= voice@.len(),
            out@ == start + sounded(voice@.take(i as int)),
        decreases voice.len() - i,
    {
        let note = voice[i];
        proof {
            reveal(Seq::filter);
            let pred = |n: ScoreNote| n.midi is Some;
            let t = voice@.take(i + 1);
            assert(t.drop_last() =~= voice@.take(i as int));
            assert(t.last() == note);
            assert(t.filter(pred) == if pred(note) { t.drop_last().filter(pred).push(note) } else { t.drop_last().filter(pred) });
        }
        if note.midi.is_some() {
            out.push(note);
            proof {
                assert(out@ =~= start + sounded(voice@.take(i + 1)));
            }
        }
        i = i + 1;
    }
    proof {
        assert(voice@.take(voice@.len() as int) =~= voice@);
    }
}

impl Exercise {
    /// The treble-voice notes that actually sound (rests excluded).
    pub fn sounded_notes(&self) -> (r: Vec<ScoreNote>)
        ensures
            r@ == sounded(self.notes@),
    {
        let mut out: Vec<ScoreNote> = Vec::new();
        push_sounded(&mut out, self.notes.as_slice());
        assert(out@ =~= sounded(self.notes@));
        out
    }

    /// Every sounded note across both voices, treble first.
    pub fn all_sounded_notes(&self) -> (r: Vec<ScoreNote>)
        ensures
            r@ == sounded(self.notes@) + sounded(self.bass_notes@),
    {
        let mut out = self.sounded_notes();
        push_sounded(&mut out, self.bass_notes.as_slice());
        out
    }

    /// Spans per played note of a voice, in document order. Chord members
    /// share their anchor's onset/length; tie continuations extend the
    /// previous event's matching span instead of creating one.
    pub fn voice_note_spans(voice: &[ScoreNote]) -> (r: Vec<NoteSpan>)
        requires
            voice_fits(voice@),
        ensures
            r@ == note_spans(voice@),
    {
        let mut result: Vec<NoteSpan> = Vec::new();
        let mut units: i32 = 0;
        let mut anchor_start: i32 = 0;
        let mut anchor_length: i32 = 0;
        let mut prev = empty_slot_vec();
        let mut current = empty_slot_vec();
        let n = voice.len();
        let mut i: usize = 0;
        while i < n
            invariant
                n == voice@.len(),
                voice_fits(voice@),
                i <= n,
                prev@.len() == 256,
                current@.len() == 256,
                forall|t: int| 0 <= t < 256 && prev@[t] is Some ==> prev@[t]->0 < result@.len(),
                forall|t: int| 0 <= t < 256 && current@[t] is Some ==> current@[t]->0 < result@.len(),
                0 <= units <= 8 * i,
                0 <= anchor_start <= units,
                0 <= anchor_length <= 8,
                forall|t: int| 0 <= t < result@.len() ==> 0 <= #[trigger] result@[t].length_units <= 8 * i,
                spans_from(voice@, i as int, result@, units as int, anchor_start as int, anchor_length as int, prev@, current@)
                    == note_spans(voice@),
            decreases n - i,
        {
            let note = voice[i];
            let d = note.duration.units();
            let ghost r0 = result@;
            let ghost c0 = current@;
            if !note.chord_with_previous {
                anchor_start = units;
                anchor_length = d;
                prev = current;
                current = empty_slot_vec();
            }
            let ghost p = prev@;
            let ghost c = current@;
            let start = anchor_start;
            let length = anchor_length;
            if let Some(midi) = note.midi {
                let slot = prev[midi as usize];
                if note.tied_from_previous && slot.is_some() {
                    let index = slot.unwrap();
                    let mut span = result[index];
                    span.length_units = span.length_units + d;
                    result.set(index, span);
                    current.set(midi as usize, Some(index));
                } else {
                    result.push(NoteSpan {
                        start_units: start,
                        length_units: length,
                        midi,
                        staff: note.staff,
                        duration: note.duration,
                    });
                    current.set(midi as usize, Some(result.len() - 1));
                }
            }
            proof {
                assert(result@ =~= spans_after(r0, note, start as int, length as int, p));
                assert(current@ =~= slots_after(r0, note, p, c));
            }
            if !note.chord_with_previous {
                units = units + d;
            }
            i = i + 1;
        }
        result
    }

    /// Per-note tie roles for a voice: `start` when the next event
    /// continues this pitch, `stop` when this note continues the previous.
    pub fn tie_roles(voice: &[ScoreNote]) -> (r: Vec<TieRole>)
        ensures
            r@ == tie_roles_spec(voice@),
    {
        let n = voice.len();
        let mut roles: Vec<TieRole> = Vec::new();
        let mut i: usize = 0;
        // Events are runs that open with a non-chord note (or the first note).
        while i < n
            invariant
                n == voice@.len(),
                i <= n,
                roles@.len() == i,
                i < n ==> (i == 0 || !voice@[i as int].chord_with_previous),
                forall|j: int| 0 <= j < i ==> #[trigger] roles@[j] == tie_roles_spec(voice@)[j],
            decreases n - i,
        {
            let mut e: usize = i + 1;
            while e < n && voice[e].chord_with_previous
                invariant
                    n == voice@.len(),
                    i < e <= n,
                    forall|t: int| i < t < e ==> voice@[t].chord_with_previous,
                decreases n - e,
            {
                e = e + 1;
            }
            let mut f: usize = if e < n { e + 1 } else { n };
            while f < n && voice[f].chord_with_previous
                invariant
                    n == voice@.len(),
                    e <= f <= n,
                    e < n ==> e < f,
                    forall|t: int| e < t < f ==> voice@[t].chord_with_previous,
                decreases n - f,
            {
                f = f + 1;
            }
            proof {
                if e < n {
                    lemma_next_event_start_is(voice@, e as int + 1, f as int);
                }
            }
            let mut j: usize = i;
            while j < e
                invariant
                    n == voice@.len(),
                    i <= j <= e <= f <= n,
                    i < e,
                    roles@.len() == j,
                    forall|t: int| i < t < e ==> voice@[t].chord_with_previous,
                    e == n || !voice@[e as int].chord_with_previous,
                    e < n ==> next_event_start(voice@, e + 1) == f,
                    forall|k: int| 0 <= k < j ==> #[trigger] roles@[k] == tie_roles_spec(voice@)[k],
                decreases e - j,
            {
                let mut start = false;
                if let Some(m) = voice[j].midi {
                    if e < n {
                        let mut t: usize = e;
                        while t < f
                            invariant
                                n == voice@.len(),
                                e <= t <= f <= n,
                                voice@[j as int].midi == Some(m),
                                !start ==> forall|u: int| e <= u < t ==> !(voice@[u].tied_from_previous && voice@[u].midi == Some(m)),
                                start ==> exists|u: int| e <= u < f && #[trigger] voice@[u].tied_from_previous && voice@[u].midi == Some(m),
                            decreases f - t,
                        {
                            if voice[t].tied_from_previous && voice[t].midi == Some(m) {
                                start = true;
                            }
                            t = t + 1;
                        }
                    }
                }
                proof {
                    lemma_next_event_start_is(voice@, j as int + 1, e as int);
                    assert(start == starts_tie(voice@, j as int));
                }
                roles.push(TieRole { start, stop: voice[j].tied_from_previous });
                j = j + 1;
            }
            i = e;
        }
        assert(roles@ =~= tie_roles_spec(voice@));
        roles
    }

    /// Target onset in eighth-units from the exercise start, per sounded
    /// treble note. Chord members share their anchor's onset.
    pub fn sounded_note_start_units(&self) -> (r: Vec<i32>)
        requires
            voice_fits(self.notes@),
        ensures
            r@ == start_units_spec(self.notes@),
    {
        let mut starts: Vec<i32> = Vec::new();
        let mut units: i32 = 0;
        let n = self.notes.len();
        let mut i: usize = 0;
        while i < n
            invariant
                n == self.notes@.len(),
                voice_fits(self.notes@),
                i <= n,
                0 <= units <= 8 * i,
                starts_from(self.notes@, i as int, starts@, units as int) == start_units_spec(self.notes@),
            decreases n - i,
        {
            let note = self.notes[i];
            if note.chord_with_previous {
                if !note.is_rest() {
                    let last: i32 = if starts.len() > 0 { starts[starts.len() - 1] } else { 0 };
                    starts.push(last);
                }
            } else {
                if !note.is_rest() {
                    starts.push(units);
                }
                units = units + note.duration.units();
            }
            i = i + 1;
        }
        starts
    }
}


/// Pitches of the spans that start at `u`, in order.
pub open spec fn midis_at(spans: Seq<NoteSpan>, u: int) -> Seq<u8>
    decreases spans.len(),
{
    if spans.len() == 0 {
        Seq::empty()
    } else if spans.last().start_units == u {
        midis_at(spans.drop_last(), u).push(spans.last().midi)
    } else {
        midis_at(spans.drop_last(), u)
    }
}

/// Staves of the spans that start at `u`, in order.
pub open spec fn staves_at(spans: Seq<NoteSpan>, u: int) -> Seq<Staff>
    decreases spans.len(),
{
    if spans.len() == 0 {
        Seq::empty()
    } else if spans.last().start_units == u {
        staves_at(spans.drop_last(), u).push(spans.last().staff)
    } else {
        staves_at(spans.drop_last(), u)
    }
}

/// One `Bass` per span that starts at `u`.
pub open spec fn bass_staves_at(spans: Seq<NoteSpan>, u: int) -> Seq<Staff>
    decreases spans.len(),
{
    if spans.len() == 0 {
        Seq::empty()
    } else if spans.last().start_units == u {
        bass_staves_at(spans.drop_last(), u).push(Staff::Bass)
    } else {
        bass_staves_at(spans.drop_last(), u)
    }
}

/// Durations of the spans that start at `u`, in order.
pub open spec fn durations_at(spans: Seq<NoteSpan>, u: int) -> Seq<NoteDuration>
    decreases spans.len(),
{
    if spans.len() == 0 {
        Seq::empty()
    } else if spans.last().start_units == u {
        durations_at(spans.drop_last(), u).push(spans.last().duration)
    } else {
        durations_at(spans.drop_last(), u)
    }
}

/// Whether some span of either voice starts at `u`.
pub open spec fn is_onset(t: Seq<NoteSpan>, b: Seq<NoteSpan>, u: int) -> bool {
    (exists|k: int| 0 <= k < t.len() && #[trigger] t[k].start_units == u)
        || (exists|k: int| 0 <= k < b.len() && #[trigger] b[k].start_units == u)
}

/// The combined event stream of two voices' spans: one event per distinct
/// onset, in increasing onset order, treble pitches before bass pitches.
pub open spec fn is_event_stream(t: Seq<NoteSpan>, b: Seq<NoteSpan>, events: Seq<MatchEvent>) -> bool {
    &&& forall|k: int, l: int| 0 <= k < l < events.len() ==> events[k].start_units < events[l].start_units
    &&& forall|u: int| is_onset(t, b, u) <==> exists|k: int| 0 <= k < events.len() && #[trigger] events[k].start_units == u
    &&& forall|k: int| 0 <= k < events.len() ==> {
        let u = #[trigger] events[k].start_units as int;
        &&& events[k].pitches@ == midis_at(t, u) + midis_at(b, u)
        &&& events[k].staves@ == staves_at(t, u) + bass_staves_at(b, u)
        &&& events[k].durations@ == durations_at(t, u) + durations_at(b, u)
    }
}

/// Inserts `x` into a strictly increasing vector unless already present.
fn insert_sorted_unique(v: &mut Vec<i32>, x: i32)
    requires
        forall|k: int, l: int| 0 <= k < l < old(v)@.len() ==> old(v)@[k] < old(v)@[l],
    ensures
        forall|k: int, l: int| 0 <= k < l < final(v)@.len() ==> final(v)@[k] < final(v)@[l],
        forall|y: i32| final(v)@.contains(y) <==> (old(v)@.contains(y) || y == x),
        final(v)@.len() <= old(v)@.len() + 1,
{
    let mut p: usize = 0;
    while p < v.len() && v[p] < x
        invariant
            v@ == old(v)@,
            p <= v@.len(),
            forall|k: int| 0 <= k < p ==> v@[k] < x,
        decreases v.len() - p,
    {
        p = p + 1;
    }
    if p < v.len() && v[p] == x {
        assert(v@.contains(x));
        return;
    }
    let ghost before = v@;
    v.insert(p, x);
    proof {
        lemma_insert_contains(before, p as int, x);
        lemma_insert_sorted(before, p as int, x);
    }
}

proof fn lemma_insert_contains(s: Seq<i32>, p: int, x: i32)
    requires
        0 <= p <= s.len(),
    ensures
        forall|y: i32| #[trigger] s.insert(p, x).contains(y) <==> (s.contains(y) || y == x),
{
    let t = s.insert(p, x);
    assert forall|y: i32| #[trigger] t.contains(y) <==> (s.contains(y) || y == x) by {
        if t.contains(y) {
            let k = choose|k: int| 0 <= k < t.len() && t[k] == y;
            if k < p {
                assert(s[k] == y);
            } else if k > p {
                assert(s[k - 1] == y);
            }
        }
        if s.contains(y) {
            let k = choose|k: int| 0 <= k < s.len() && s[k] == y;
            if k < p {
                assert(t[k] == y);
            } else {
                assert(t[k + 1] == y);
            }
        }
        if y == x {
            assert(t[p] == x);
        }
    }
}

proof fn lemma_insert_sorted(s: Seq<i32>, p: int, x: i32)
    requires
        0 <= p <= s.len(),
        forall|k: int, l: int| 0 <= k < l < s.len() ==> s[k] < s[l],
        forall|k: int| 0 <= k < p ==> s[k] < x,
        p < s.len() ==> s[p] > x,
    ensures
        forall|k: int, l: int| 0 <= k < l < s.insert(p, x).len() ==> s.insert(p, x)[k] < s.insert(p, x)[l],
{
    let t = s.insert(p, x);
    assert forall|k: int, l: int| 0 <= k < l < t.len() implies t[k] < t[l] by {
        if l < p {
            assert(s[k] < s[l]);
        } else if l == p {
            assert(s[k] < x);
        } else if k == p {
            assert(s[p] <= s[l - 1]);
        } else if k > p {
            assert(s[k - 1] < s[l - 1]);
        } else {
            assert(s[k] < s[l - 1]);
        }
    }
}

/// Appends the pitch, staff and duration of every span starting at `u`.
fn collect_at(
    spans: &Vec<NoteSpan>,
    u: i32,
    bass: bool,
    pitches: &mut Vec<u8>,
    staves: &mut Vec<Staff>,
    durations: &mut Vec<NoteDuration>,
)
    ensures
        final(pitches)@ == old(pitches)@ + midis_at(spans@, u as int),
        final(staves)@ == old(staves)@ + (if bass { bass_staves_at(spans@, u as int) } else { staves_at(spans@, u as int) }),
        final(durations)@ == old(durations)@ + durations_at(spans@, u as int),
{
    let ghost p0 = pitches@;
    let ghost s0 = staves@;
    let ghost d0 = durations@;
    let mut i: usize = 0;
    while i < spans.len()
        invariant
            i <= spans@.len(),
            pitches@ == p0 + midis_at(spans@.take(i as int), u as int),
            staves@ == s0 + (if bass { bass_staves_at(spans@.take(i as int), u as int) } else { staves_at(spans@.take(i as int), u as int) }),
            durations@ == d0 + durations_at(spans@.take(i as int), u as int),
        decreases spans.len() - i,
    {
        let span = spans[i];
        proof {
            let t = spans@.take(i + 1);
            assert(t.drop_last() =~= spans@.take(i as int));
            assert(t.last() == span);
        }
        if span.start_units == u {
            pitches.push(span.midi);
            staves.push(if bass { Staff::Bass } else { span.staff });
            durations.push(span.duration);
            proof {
                let t = spans@.take(i + 1);
                assert(pitches@ =~= p0 + midis_at(t, u as int));
                assert(staves@ =~= s0 + (if bass { bass_staves_at(t, u as int) } else { staves_at(t, u as int) }));
                assert(durations@ =~= d0 + durations_at(t, u as int));
            }
        }
        i = i + 1;
    }
    proof {
        assert(spans@.take(spans@.len() as int) =~= spans@);
    }
}

/// Inserts every span start into the strictly increasing `onsets`.
fn add_onsets(onsets: &mut Vec<i32>, spans: &Vec<NoteSpan>)
    requires
        forall|k: int, l: int| 0 <= k < l < old(onsets)@.len() ==> old(onsets)@[k] < old(onsets)@[l],
    ensures
        forall|k: int, l: int| 0 <= k < l < final(onsets)@.len() ==> final(onsets)@[k] < final(onsets)@[l],
        forall|y: i32| final(onsets)@.contains(y) <==> (old(onsets)@.contains(y)
            || exists|k: int| 0 <= k < spans@.len() && #[trigger] spans@[k].start_units == y),
        final(onsets)@.len() <= old(onsets)@.len() + spans@.len(),
{
    let ghost o0 = onsets@;
    let mut i: usize = 0;
    while i < spans.len()
        invariant
            i <= spans@.len(),
            onsets@.len() <= o0.len() + i,
            forall|k: int, l: int| 0 <= k < l < onsets@.len() ==> onsets@[k] < onsets@[l],
            forall|y: i32| #[trigger] onsets@.contains(y) <==> (o0.contains(y) || in_prefix(spans@, i as int, y)),
        decreases spans.len() - i,
    {
        let ghost before = onsets@;
        let x = spans[i].start_units;
        insert_sorted_unique(onsets, x);
        proof {
            assert forall|y: i32| #[trigger] onsets@.contains(y) <==> (o0.contains(y) || in_prefix(spans@, i + 1, y)) by {
                if in_prefix(spans@, i + 1, y) {
                    let k = choose|k: int| 0 <= k < i + 1 && spans@[k].start_units == y;
                    if k < i {
                        assert(in_prefix(spans@, i as int, y));
                        assert(before.contains(y));
                    }
                }
                if in_prefix(spans@, i as int, y) {
                    let k = choose|k: int| 0 <= k < i && spans@[k].start_units == y;
                    assert(in_prefix(spans@, i + 1, y));
                }
                if y == x {
                    assert(spans@[i as int].start_units == y);
                    assert(in_prefix(spans@, i + 1, y));
                }
            }
        }
        i = i + 1;
    }
    proof {
        assert forall|y: i32| in_prefix(spans@, spans@.len() as int, y) <==>
            exists|k: int| 0 <= k < spans@.len() && #[trigger] spans@[k].start_units == y by {
        }
    }
}

/// Some span among the first `i` starts at `y`.
pub open spec fn in_prefix(spans: Seq<NoteSpan>, i: int, y: i32) -> bool {
    exists|k: int| 0 <= k < i && spans[k].start_units == y
}

impl Exercise {
    /// The combined event stream: every onset of either voice, in time
    /// order, with the pitches sounding there (treble voice first).
    pub fn match_events(&self) -> (r: Vec<MatchEvent>)
        requires
            voice_fits(self.notes@),
            voice_fits(self.bass_notes@),
        ensures
            is_event_stream(note_spans(self.notes@), note_spans(self.bass_notes@), r@),
    {
        let treble = Self::voice_note_spans(self.notes.as_slice());
        let bass = Self::voice_note_spans(self.bass_notes.as_slice());
        let mut onsets: Vec<i32> = Vec::new();
        add_onsets(&mut onsets, &treble);
        add_onsets(&mut onsets, &bass);
        let ghost t = treble@;
        let ghost b = bass@;
        proof {
            assert forall|u: int| is_onset(t, b, u) <==> onsets@.contains(u as i32) && u == u as i32 as int by {
                if exists|k: int| 0 <= k < t.len() && #[trigger] t[k].start_units == u {
                    let k = choose|k: int| 0 <= k < t.len() && #[trigger] t[k].start_units == u;
                    assert(t[k].start_units == u as i32);
                }
                if exists|k: int| 0 <= k < b.len() && #[trigger] b[k].start_units == u {
                    let k = choose|k: int| 0 <= k < b.len() && #[trigger] b[k].start_units == u;
                    assert(b[k].start_units == u as i32);
                }
            }
        }
        let mut events: Vec<MatchEvent> = Vec::new();
        let mut i: usize = 0;
        while i < onsets.len()
            invariant
                i <= onsets@.len(),
                events@.len() == i,
                t == treble@,
                b == bass@,
                forall|k: int, l: int| 0 <= k < l < onsets@.len() ==> onsets@[k] < onsets@[l],
                forall|k: int| 0 <= k < i ==> #[trigger] events@[k].start_units == onsets@[k],
                forall|k: int| 0 <= k < i ==> {
                    let u = #[trigger] events@[k].start_units as int;
                    &&& events@[k].pitches@ == midis_at(t, u) + midis_at(b, u)
                    &&& events@[k].staves@ == staves_at(t, u) + bass_staves_at(b, u)
                    &&& events@[k].durations@ == durations_at(t, u) + durations_at(b, u)
                },
            decreases onsets.len() - i,
        {
            let u = onsets[i];
            let mut pitches: Vec<u8> = Vec::new();
            let mut staves: Vec<Staff> = Vec::new();
            let mut durations: Vec<NoteDuration> = Vec::new();
            collect_at(&treble, u, false, &mut pitches, &mut staves, &mut durations);
            collect_at(&bass, u, true, &mut pitches, &mut staves, &mut durations);
            proof {
                assert(pitches@ =~= midis_at(t, u as int) + midis_at(b, u as int));
                assert(staves@ =~= staves_at(t, u as int) + bass_staves_at(b, u as int));
                assert(durations@ =~= durations_at(t, u as int) + durations_at(b, u as int));
            }
            events.push(MatchEvent { start_units: u, pitches, staves, durations });
            i = i + 1;
        }
        proof {
            assert forall|u: int| is_onset(t, b, u) <==> exists|k: int| 0 <= k < events@.len() && #[trigger] events@[k].start_units == u by {
                if is_onset(t, b, u) {
                    assert(onsets@.contains(u as i32));
                    let k = choose|k: int| 0 <= k < onsets@.len() && onsets@[k] == u as i32;
                    assert(events@[k].start_units == u);
                }
                if exists|k: int| 0 <= k < events@.len() && #[trigger] events@[k].start_units == u {
                    let k = choose|k: int| 0 <= k < events@.len() && #[trigger] events@[k].start_units == u;
                    assert(onsets@[k] == u);
                    assert(onsets@.contains(u as i32));
                }
            }
        }
        events
    }
}


proof fn lemma_spans_from_nonneg(
    voice: Seq<ScoreNote>,
    i: int,
    result: Seq<NoteSpan>,
    units: int,
    a_start: int,
    a_len: int,
    prev: Seq<Option<usize>>,
    cur: Seq<Option<usize>>,
)
    requires
        voice_fits(voice),
        0 <= i <= voice.len(),
        0 <= units <= 8 * i,
        0 <= a_start <= units,
        forall|k: int| 0 <= k < result.len() ==> 0 <= #[trigger] result[k].start_units,
        prev.len() == 256,
        cur.len() == 256,
        forall|t: int| 0 <= t < 256 && #[trigger] prev[t] is Some ==> prev[t]->0 < result.len(),
        forall|t: int| 0 <= t < 256 && #[trigger] cur[t] is Some ==> cur[t]->0 < result.len(),
    ensures
        forall|k: int| 0 <= k < spans_from(voice, i, result, units, a_start, a_len, prev, cur).len()
            ==> 0 <= #[trigger] spans_from(voice, i, result, units, a_start, a_len, prev, cur)[k].start_units,
    decreases voice.len() - i,
{
    if i < voice.len() {
        let note = voice[i];
        let chord = note.chord_with_previous;
        let st = if chord { a_start } else { units };
        let l = if chord { a_len } else { note.duration.unit_count() };
        let p = if chord { prev } else { cur };
        let c = if chord { cur } else { empty_slots() };
        let r2 = spans_after(result, note, st, l, p);
        let c2 = slots_after(result, note, p, c);
        assert(r2.len() >= result.len());
        assert forall|k: int| 0 <= k < r2.len() implies 0 <= #[trigger] r2[k].start_units by {
            if k < result.len() {
                assert(r2[k].start_units == result[k].start_units);
            }
        }
        assert forall|t: int| 0 <= t < 256 && #[trigger] c2[t] is Some implies c2[t]->0 < r2.len() by {
        }
        lemma_spans_from_nonneg(voice, i + 1, r2, units + note.advance(), st, l, p, c2);
    }
}

/// Every span of a voice starts at or after the voice's beginning.
pub proof fn lemma_span_onsets_nonnegative(voice: Seq<ScoreNote>)
    requires
        voice_fits(voice),
    ensures
        forall|k: int| 0 <= k < note_spans(voice).len() ==> 0 <= #[trigger] note_spans(voice)[k].start_units,
{
    lemma_spans_from_nonneg(voice, 0, Seq::empty(), 0, 0, 0, empty_slots(), empty_slots());
}

proof fn lemma_starts_from_nonneg(voice: Seq<ScoreNote>, i: int, starts: Seq<i32>, units: int)
    requires
        voice_fits(voice),
        0 <= i <= voice.len(),
        0 <= units <= 8 * i,
        forall|k: int| 0 <= k < starts.len() ==> 0 <= #[trigger] starts[k],
    ensures
        forall|k: int| 0 <= k < starts_from(voice, i, starts, units).len() ==> 0 <= #[trigger] starts_from(voice, i, starts, units)[k],
    decreases voice.len() - i,
{
    if i < voice.len() {
        let note = voice[i];
        if note.chord_with_previous {
            let next = if note.midi is Some {
                starts.push(if starts.len() > 0 { starts.last() } else { 0 })
            } else {
                starts
            };
            assert forall|k: int| 0 <= k < next.len() implies 0 <= #[trigger] next[k] by {
                if k < starts.len() {
                    assert(next[k] == starts[k]);
                }
            }
            assert(starts_from(voice, i, starts, units) == starts_from(voice, i + 1, next, units));
            lemma_starts_from_nonneg(voice, i + 1, next, units);
        } else {
            let next = if note.midi is Some { starts.push(units as i32) } else { starts };
            assert forall|k: int| 0 <= k < next.len() implies 0 <= #[trigger] next[k] by {
                if k < starts.len() {
                    assert(next[k] == starts[k]);
                }
            }
            assert(starts_from(voice, i, starts, units) == starts_from(voice, i + 1, next, units + note.duration.unit_count()));
            lemma_starts_from_nonneg(voice, i + 1, next, units + note.duration.unit_count());
        }
    }
}

/// Every sounded note's onset is at or after the exercise start.
pub proof fn lemma_note_onsets_nonnegative(voice: Seq<ScoreNote>)
    requires
        voice_fits(voice),
    ensures
        forall|k: int| 0 <= k < start_units_spec(voice).len() ==> 0 <= #[trigger] start_units_spec(voice)[k],
{
    lemma_starts_from_nonneg(voice, 0, Seq::empty(), 0);
}

proof fn lemma_starts_from_shape(voice: Seq<ScoreNote>, i: int, starts: Seq<i32>, units: int)
    requires
        voice_fits(voice),
        0 <= i <= voice.len(),
        0 <= units <= 8 * i,
        starts.len() == sounded(voice.take(i)).len(),
        forall|k: int, l: int| 0 <= k <= l < starts.len() ==> starts[k] <= starts[l],
        starts.len() > 0 ==> starts.last() <= units,
    ensures
        starts_from(voice, i, starts, units).len() == sounded(voice).len(),
        forall|k: int, l: int|
            0 <= k <= l < starts_from(voice, i, starts, units).len() ==> starts_from(voice, i, starts, units)[k]
                <= starts_from(voice, i, starts, units)[l],
    decreases voice.len() - i,
{
    let p = |n: ScoreNote| n.midi is Some;
    if i == voice.len() {
        assert(voice.take(i) == voice);
    } else {
        let note = voice[i];
        assert(voice.take(i + 1) == voice.take(i).push(note));
        voice.take(i).lemma_filter_push(note, p);
        if note.chord_with_previous {
            let next = if note.midi is Some {
                starts.push(if starts.len() > 0 { starts.last() } else { 0 })
            } else {
                starts
            };
            assert forall|k: int, l: int| 0 <= k <= l < next.len() implies next[k] <= next[l] by {
                if l >= starts.len() && k < starts.len() {
                    assert(starts[k] <= starts[starts.len() - 1]);
                }
            }
            assert(starts_from(voice, i, starts, units) == starts_from(voice, i + 1, next, units));
            lemma_starts_from_shape(voice, i + 1, next, units);
        } else {
            let next = if note.midi is Some { starts.push(units as i32) } else { starts };
            assert forall|k: int, l: int| 0 <= k <= l < next.len() implies next[k] <= next[l] by {
                if l >= starts.len() && k < starts.len() {
                    assert(starts[k] <= starts[starts.len() - 1]);
                }
            }
            assert(starts_from(voice, i, starts, units) == starts_from(voice, i + 1, next, units + note.duration.unit_count()));
            lemma_starts_from_shape(voice, i + 1, next, units + note.duration.unit_count());
        }
    }
}

/// A voice has one onset per sounded note, and the onsets never decrease.
pub proof fn lemma_note_onsets_ordered(voice: Seq<ScoreNote>)
    requires
        voice_fits(voice),
    ensures
        start_units_spec(voice).len() == sounded(voice).len(),
        forall|k: int, l: int| 0 <= k <= l < start_units_spec(voice).len() ==> start_units_spec(voice)[k] <= start_units_spec(voice)[l],
{
    let p = |n: ScoreNote| n.midi is Some;
    assert(voice.take(0) == Seq::<ScoreNote>::empty());
    assert(Seq::<ScoreNote>::empty().filter(p).len() == 0) by {
        reveal(Seq::filter);
    }
    lemma_starts_from_shape(voice, 0, Seq::empty(), 0);
}

impl Exercise {
    /// The expected pitch set per combined event (what the self-paced
    /// matcher consumes).
    pub fn expected_sets(&self) -> (r: Vec<std::collections::HashSet<u8>>)
        requires
            voice_fits(self.notes@),
            voice_fits(self.bass_notes@),
        ensures
            exists|events: Seq<MatchEvent>| {
                &&& is_event_stream(note_spans(self.notes@), note_spans(self.bass_notes@), events)
                &&& r@.len() == events.len()
                &&& forall|k: int| 0 <= k < events.len() ==> #[trigger] r@[k]@ == events[k].pitches@.to_set()
            },
    {
        broadcast use vstd::std_specs::hash::group_hash_axioms;
        let events = self.match_events();
        let mut sets: Vec<std::collections::HashSet<u8>> = Vec::new();
        let mut i: usize = 0;
        while i < events.len()
            invariant
                i <= events@.len(),
                sets@.len() == i,
                forall|k: int| 0 <= k < i ==> #[trigger] sets@[k]@ == events@[k].pitches@.to_set(),
            decreases events.len() - i,
        {
            let pitches = &events[i].pitches;
            let mut set: std::collections::HashSet<u8> = std::collections::HashSet::new();
            let mut j: usize = 0;
            while j < pitches.len()
                invariant
                    j <= pitches@.len(),
                    set@ == pitches@.take(j as int).to_set(),
                decreases pitches.len() - j,
            {
                set.insert(pitches[j]);
                proof {
                    assert(pitches@.take(j + 1) =~= pitches@.take(j as int).push(pitches@[j as int]));
                    broadcast use vstd::seq_lib::group_seq_properties;
                    assert(pitches@.take(j as int).push(pitches@[j as int]).to_set()
                        =~= pitches@.take(j as int).to_set().insert(pitches@[j as int]));
                }
                j = j + 1;
            }
            proof {
                assert(pitches@.take(pitches@.len() as int) =~= pitches@);
            }
            sets.push(set);
            i = i + 1;
        }
        sets
    }

    /// Measure index per match event (accuracy heatmaps): every event
    /// stream of the two voices gets, event by event, the measure its
    /// onset falls in; with a positive meter the indices never decrease.
    pub fn event_measure_indices(&self) -> (r: Vec<usize>)
        requires
            voice_fits(self.notes@),
            voice_fits(self.bass_notes@),
            self.meter_fits(),
            self.beats_per_measure != 0 || (note_spans(self.notes@).len() == 0 && note_spans(self.bass_notes@).len() == 0),
        ensures
            exists|events: Seq<MatchEvent>| is_event_stream(note_spans(self.notes@), note_spans(self.bass_notes@), events),
            forall|events: Seq<MatchEvent>| #[trigger] is_event_stream(note_spans(self.notes@), note_spans(self.bass_notes@), events) ==> {
                &&& r@.len() == events.len()
                &&& forall|k: int| 0 <= k < events.len() ==> #[trigger] r@[k] == measure_index(events[k].start_units as int, self.upm()) as usize
            },
            self.upm() > 0 ==> forall|k: int, l: int| 0 <= k <= l < r@.len() ==> r@[k] <= r@[l],
    {
        let upm = self.units_per_measure();
        let events = self.match_events();
        proof {
            lemma_span_onsets_nonnegative(self.notes@);
            lemma_span_onsets_nonnegative(self.bass_notes@);
        }
        let ghost t = note_spans(self.notes@);
        let ghost b = note_spans(self.bass_notes@);
        proof {
            if events@.len() > 0 {
                let u = events@[0].start_units as int;
                assert(exists|k: int| 0 <= k < events@.len() && #[trigger] events@[k].start_units == u);
                assert(is_onset(t, b, u));
            }
        }
        let mut out: Vec<usize> = Vec::new();
        let mut i: usize = 0;
        while i < events.len()
            invariant
                i <= events@.len(),
                out@.len() == i,
                upm as int == self.upm(),
                -0x8000_0000 <= upm < 0x8000_0000,
                events@.len() > 0 ==> upm != 0,
                is_event_stream(t, b, events@),
                forall|k: int| 0 <= k < t.len() ==> 0 <= #[trigger] t[k].start_units,
                forall|k: int| 0 <= k < b.len() ==> 0 <= #[trigger] b[k].start_units,
                forall|k: int| 0 <= k < i ==> #[trigger] out@[k] == measure_index(events@[k].start_units as int, self.upm()) as usize,
            decreases events.len() - i,
        {
            let start = events[i].start_units;
            proof {
                let u = start as int;
                assert(exists|k: int| 0 <= k < events@.len() && #[trigger] events@[k].start_units == u);
                assert(is_onset(t, b, u));
            }
            let s: i64 = start as i64;
            let m: i64 = upm as i64;
            let q: i64 = if m > 0 { s / m } else { -(s / -m) };
            out.push(q as usize);
            i = i + 1;
        }
        proof {
            assert forall|events2: Seq<MatchEvent>| #[trigger] is_event_stream(t, b, events2) implies {
                &&& out@.len() == events2.len()
                &&& forall|k: int| 0 <= k < events2.len() ==> #[trigger] out@[k] == measure_index(events2[k].start_units as int, self.upm()) as usize
            } by {
                lemma_event_stream_unique(t, b, events@, events2);
                assert forall|k: int| 0 <= k < events2.len() implies #[trigger] out@[k] == measure_index(events2[k].start_units as int, self.upm()) as usize by {
                    assert(events@[k].start_units == events2[k].start_units);
                }
            }
            if self.upm() > 0 {
                assert forall|k: int, l: int| 0 <= k <= l < out@.len() implies out@[k] <= out@[l] by {
                    let x = events@[k].start_units as int;
                    let y = events@[l].start_units as int;
                    let u = x;
                    assert(exists|q: int| 0 <= q < events@.len() && #[trigger] events@[q].start_units == u);
                    assert(is_onset(t, b, x));
                    let v = y;
                    assert(exists|q: int| 0 <= q < events@.len() && #[trigger] events@[q].start_units == v);
                    assert(is_onset(t, b, y));
                    assert(0 <= x <= y);
                    lemma_div_is_ordered(x, y, self.upm());
                    lemma_div_pos_is_pos(x, self.upm());
                    lemma_div_is_ordered_by_denominator(y, 1, self.upm());
                    assert(y / 1 == y);
                }
            }
        }
        out
    }

    /// Measure index per sounded treble note (per-measure heatmaps): one
    /// index per sounded note, the measure its onset falls in; with a
    /// positive meter the indices never decrease.
    pub fn sounded_note_measure_indices(&self) -> (r: Vec<usize>)
        requires
            voice_fits(self.notes@),
            self.meter_fits(),
            self.beats_per_measure != 0 || start_units_spec(self.notes@).len() == 0,
        ensures
            r@.len() == start_units_spec(self.notes@).len(),
            forall|k: int| 0 <= k < r@.len() ==> #[trigger] r@[k] == measure_index(start_units_spec(self.notes@)[k] as int, self.upm()) as usize,
            r@.len() == sounded(self.notes@).len(),
            self.upm() > 0 ==> forall|k: int, l: int| 0 <= k <= l < r@.len() ==> r@[k] <= r@[l],
    {
        let upm = self.units_per_measure();
        let starts = self.sounded_note_start_units();
        proof {
            lemma_note_onsets_nonnegative(self.notes@);
            lemma_note_onsets_ordered(self.notes@);
        }
        let mut out: Vec<usize> = Vec::new();
        let mut i: usize = 0;
        while i < starts.len()
            invariant
                i <= starts@.len(),
                out@.len() == i,
                upm as int == self.upm(),
                -0x8000_0000 <= upm < 0x8000_0000,
                starts@.len() > 0 ==> upm != 0,
                forall|k: int| 0 <= k < starts@.len() ==> 0 <= #[trigger] starts@[k],
                forall|k: int| 0 <= k < i ==> #[trigger] out@[k] == measure_index(starts@[k] as int, self.upm()) as usize,
            decreases starts.len() - i,
        {
            let start = starts[i];
            let s: i64 = start as i64;
            let m: i64 = upm as i64;
            let q: i64 = if m > 0 { s / m } else { -(s / -m) };
            out.push(q as usize);
            i = i + 1;
        }
        proof {
            if self.upm() > 0 {
                assert forall|k: int, l: int| 0 <= k <= l < out@.len() implies out@[k] <= out@[l] by {
                    let x = starts@[k] as int;
                    let y = starts@[l] as int;
                    assert(0 <= x <= y);
                    lemma_div_is_ordered(x, y, self.upm());
                    lemma_div_pos_is_pos(x, self.upm());
                    lemma_div_is_ordered_by_denominator(y, 1, self.upm());
                    assert(y / 1 == y);
                }
            }
        }
        out
    }
}

/// The measure a note starting `start` units in (never negative) falls in,
/// for `upm` units per measure: the quotient truncated toward zero, as
/// integer division truncates.
pub open spec fn measure_index(start: int, upm: int) -> int {
    if upm > 0 { start / upm } else { -(start / -upm) }
}

/// The notes of all measures, in order.
pub open spec fn concat_all(ms: Seq<Seq<ScoreNote>>) -> Seq<ScoreNote>
    decreases ms.len(),
{
    if ms.len() == 0 {
        Seq::empty()
    } else {
        ms[0] + concat_all(ms.drop_first())
    }
}

/// How many notes the first `i` measures hold.
pub open spec fn prefix_len(ms: Seq<Seq<ScoreNote>>, i: int) -> int
    decreases i,
{
    if i <= 0 {
        0
    } else {
        prefix_len(ms, i - 1) + ms[i - 1].len()
    }
}

proof fn lemma_measures_from_concat(v: Seq<ScoreNote>, upm: int, i: int, cur: Seq<ScoreNote>, u: int)
    requires
        0 <= i <= v.len(),
    ensures
        concat_all(measures_from(v, upm, i, cur, u)) == cur + v.subrange(i, v.len() as int),
        forall|k: int| 0 <= k < measures_from(v, upm, i, cur, u).len()
            ==> (#[trigger] measures_from(v, upm, i, cur, u)[k]).len() > 0,
    decreases v.len() - i,
{
    let ms = measures_from(v, upm, i, cur, u);
    if i == v.len() {
        if cur.len() > 0 {
            assert(ms == seq![cur]);
            assert(ms.drop_first() =~= Seq::<Seq<ScoreNote>>::empty());
            assert(concat_all(ms) == cur + concat_all(ms.drop_first()));
            assert(cur + v.subrange(i, v.len() as int) =~= cur);
            assert(concat_all(ms) =~= cur);
        } else {
            assert(cur + v.subrange(i, v.len() as int) =~= Seq::<ScoreNote>::empty());
        }
    } else {
        let note = v[i];
        let c2 = cur.push(note);
        let u2 = u + note.advance();
        let next_is_chord = i + 1 < v.len() && v[i + 1].chord_with_previous;
        if u2 >= upm && !next_is_chord {
            let rest = measures_from(v, upm, i + 1, Seq::empty(), 0);
            lemma_measures_from_concat(v, upm, i + 1, Seq::empty(), 0);
            assert(ms == seq![c2] + rest);
            assert((seq![c2] + rest).drop_first() =~= rest);
            assert(concat_all(ms) == c2 + concat_all(rest));
            assert(c2 + (Seq::<ScoreNote>::empty() + v.subrange(i + 1, v.len() as int))
                =~= cur + v.subrange(i, v.len() as int));
            assert forall|k: int| 0 <= k < ms.len() implies (#[trigger] ms[k]).len() > 0 by {
                if k > 0 {
                    assert(ms[k] == rest[k - 1]);
                }
            }
        } else {
            lemma_measures_from_concat(v, upm, i + 1, c2, u2);
            assert(c2 + v.subrange(i + 1, v.len() as int) =~= cur + v.subrange(i, v.len() as int));
        }
    }
}

proof fn lemma_concat_len(ms: Seq<Seq<ScoreNote>>)
    ensures
        concat_all(ms).len() == prefix_len(ms, ms.len() as int),
        forall|i: int, j: int| 0 <= i <= j <= ms.len() ==> prefix_len(ms, i) <= prefix_len(ms, j),
    decreases ms.len(),
{
    if ms.len() > 0 {
        let rest = ms.drop_first();
        lemma_concat_len(rest);
        lemma_prefix_shift(ms, ms.len() as int);
    }
    assert forall|i: int, j: int| 0 <= i <= j <= ms.len() implies prefix_len(ms, i) <= prefix_len(ms, j) by {
        lemma_prefix_mono(ms, i, j);
    }
}

proof fn lemma_prefix_mono(ms: Seq<Seq<ScoreNote>>, i: int, j: int)
    requires
        0 <= i <= j <= ms.len(),
    ensures
        prefix_len(ms, i) <= prefix_len(ms, j),
    decreases j - i,
{
    if i < j {
        lemma_prefix_mono(ms, i, j - 1);
    }
}

/// Dropping the first measure shifts every prefix by its length.
proof fn lemma_prefix_shift(ms: Seq<Seq<ScoreNote>>, i: int)
    requires
        1 <= i <= ms.len(),
    ensures
        prefix_len(ms, i) == ms[0].len() + prefix_len(ms.drop_first(), i - 1),
    decreases i,
{
    let df = ms.drop_first();
    if i > 1 {
        lemma_prefix_shift(ms, i - 1);
        assert(df[i - 2] == ms[i - 1]);
        assert(prefix_len(df, i - 1) == prefix_len(df, i - 2) + df[i - 2].len());
        assert(prefix_len(ms, i) == prefix_len(ms, i - 1) + ms[i - 1].len());
    } else {
        assert(prefix_len(ms, 0) == 0);
        assert(prefix_len(df, 0) == 0);
        assert(prefix_len(ms, 1) == prefix_len(ms, 0) + ms[0].len());
    }
}

/// Chunking a voice into measures loses, adds and reorders nothing: the
/// measures concatenate back to the voice, none is empty, and their sizes
/// add up to the voice's length.
pub proof fn lemma_measures_partition_voice(voice: Seq<ScoreNote>, upm: int)
    ensures
        concat_all(measures_spec(voice, upm)) == voice,
        forall|k: int| 0 <= k < measures_spec(voice, upm).len() ==> (#[trigger] measures_spec(voice, upm)[k]).len() > 0,
        prefix_len(measures_spec(voice, upm), measures_spec(voice, upm).len() as int) == voice.len(),
        measures_spec(voice, upm).len() <= voice.len(),
        forall|i: int, j: int| 0 <= i <= j <= measures_spec(voice, upm).len()
            ==> prefix_len(measures_spec(voice, upm), i) <= prefix_len(measures_spec(voice, upm), j),
{
    lemma_measures_from_concat(voice, upm, 0, Seq::empty(), 0);
    assert(Seq::<ScoreNote>::empty() + voice.subrange(0, voice.len() as int) =~= voice);
    lemma_concat_len(measures_spec(voice, upm));
    lemma_prefix_counts(measures_spec(voice, upm), measures_spec(voice, upm).len() as int);
}

/// With no empty measure, the first `n` measures hold at least `n` notes.
proof fn lemma_prefix_counts(ms: Seq<Seq<ScoreNote>>, n: int)
    requires
        0 <= n <= ms.len(),
        forall|k: int| 0 <= k < ms.len() ==> (#[trigger] ms[k]).len() > 0,
    ensures
        prefix_len(ms, n) >= n,
    decreases n,
{
    if n > 0 {
        lemma_prefix_counts(ms, n - 1);
    }
}

/// Where each measure of a chunking opens: every measure after the first
/// opens with a note that is not a chord member; the first opens with the
/// open measure's first note, or with the next note when none is open.
proof fn lemma_measure_openings(voice: Seq<ScoreNote>, upm: int, i: int, current: Seq<ScoreNote>, units: int)
    requires
        0 <= i,
    ensures
        ({
            let ms = measures_from(voice, upm, i, current, units);
            &&& forall|k: int| 1 <= k < ms.len() ==> (#[trigger] ms[k]).len() > 0 && !ms[k][0].chord_with_previous
            &&& current.len() > 0 ==> ms.len() > 0 && ms[0].len() > 0 && ms[0][0] == current[0]
            &&& (current.len() == 0 && i < voice.len()) ==> ms.len() > 0 && ms[0].len() > 0 && ms[0][0] == voice[i]
        }),
    decreases voice.len() - i,
{
    if i < voice.len() {
        let note = voice[i];
        let cur = current.push(note);
        let u = units + note.advance();
        let next_is_chord = i + 1 < voice.len() && voice[i + 1].chord_with_previous;
        if u >= upm && !next_is_chord {
            lemma_measure_openings(voice, upm, i + 1, Seq::empty(), 0);
            let rest = measures_from(voice, upm, i + 1, Seq::empty(), 0);
            let ms = seq![cur] + rest;
            assert(measures_from(voice, upm, i, current, units) == ms);
            assert forall|k: int| 1 <= k < ms.len() implies (#[trigger] ms[k]).len() > 0 && !ms[k][0].chord_with_previous by {
                assert(ms[k] == rest[k - 1]);
            }
        } else {
            lemma_measure_openings(voice, upm, i + 1, cur, u);
        }
    }
}

/// Measure chunking never splits a chord from its anchor: every measure
/// after the first opens with a note that is not a chord member.
pub proof fn lemma_measures_keep_chords_whole(voice: Seq<ScoreNote>, upm: int)
    ensures
        forall|k: int| 1 <= k < measures_spec(voice, upm).len() ==>
            !(#[trigger] measures_spec(voice, upm)[k])[0].chord_with_previous,
{
    lemma_measure_openings(voice, upm, 0, Seq::empty(), 0);
}

/// Note `j` of measure `i` stands at position `prefix_len(ms, i) + j` of
/// the measures laid end to end.
#[verifier::spinoff_prover]
pub proof fn lemma_measure_note_at(ms: Seq<Seq<ScoreNote>>, i: int, j: int)
    requires
        0 <= i < ms.len(),
        0 <= j < ms[i].len(),
    ensures
        prefix_len(ms, i) + j < concat_all(ms).len(),
        concat_all(ms)[prefix_len(ms, i) + j] == ms[i][j],
    decreases i,
{
    let rest = ms.drop_first();
    assert(concat_all(ms) == ms[0] + concat_all(rest));
    if i == 0 {
        assert(prefix_len(ms, 0) == 0);
    } else {
        assert(rest[i - 1] == ms[i]);
        lemma_measure_note_at(rest, i - 1, j);
        lemma_prefix_shift(ms, i);
        lemma_prefix_mono(rest, 0, i - 1);
        let q = prefix_len(rest, i - 1) + j;
        assert(0 <= q < concat_all(rest).len());
        assert(prefix_len(ms, i) + j == ms[0].len() + q);
        assert((ms[0] + concat_all(rest))[ms[0].len() + q] == concat_all(rest)[q]);
    }
}

} // verus!
