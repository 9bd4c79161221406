//! MusicXML import for a subset: single part, one or two staves (grand
//! staff with one voice per staff), chords, ties, key signatures,
//! durations the score model knows (eighth … whole incl. dotted), full
//! measures. Anything else is rejected with a specific message.

use vstd::prelude::*;
use crate::score::model::{Exercise, NoteDuration, ScoreNote, Staff};
use crate::score::xml::{
    attribute_of, document, first_named, first_text, int_at, int_value, named, parse_document, string_value,
    text_at, trees, Element, Tree,
};
use crate::text::{chars_of, decimal, push_nat, push_str, str_eq, to_string, trim, trim_chars};

verus! {

#[derive(Debug, Clone, PartialEq)]
pub struct ImportedPiece {
    pub title: String,
    pub exercise: Exercise,
}

#[derive(Debug, Clone, PartialEq, Eq)]
pub enum ImportError {
    NotMusicXml,
    MultipleParts,
    Unsupported(String),
}

/// The mathematical content of an import error.
pub enum ImportFailure {
    NotMusicXml,
    MultipleParts,
    Unsupported(Seq<char>),
}

impl View for ImportError {
    type V = ImportFailure;

    open spec fn view(&self) -> ImportFailure {
        match self {
            ImportError::NotMusicXml => ImportFailure::NotMusicXml,
            ImportError::MultipleParts => ImportFailure::MultipleParts,
            ImportError::Unsupported(what) => ImportFailure::Unsupported(what@),
        }
    }
}

/// The user-facing message.
pub open spec fn failure_message(f: ImportFailure) -> Seq<char> {
    match f {
        ImportFailure::NotMusicXml => "Not a readable MusicXML file."@,
        ImportFailure::MultipleParts => "Multi-part scores aren't supported yet — single staff only."@,
        ImportFailure::Unsupported(what) => "Unsupported for now: "@ + what + "."@,
    }
}

impl ImportError {
    /// The user-facing message.
    pub fn message(&self) -> (s: String)
        ensures
            s@ == failure_message(self@),
    {
        match self {
            ImportError::NotMusicXml => String::from_str("Not a readable MusicXML file."),
            ImportError::MultipleParts => String::from_str("Multi-part scores aren't supported yet — single staff only."),
            ImportError::Unsupported(what) => {
                let mut out: Vec<char> = Vec::new();
                push_str(&mut out, "Unsupported for now: ");
                push_str(&mut out, what.as_str());
                push_str(&mut out, ".");
                to_string(&out)
            },
        }
    }
}

/// The mathematical content of an imported piece.
pub struct PieceSpec {
    pub title: Seq<char>,
    pub notes: Seq<ScoreNote>,
    pub bass: Seq<ScoreNote>,
    pub beats: int,
    pub fifths: int,
}

/// What the measures have established so far.
pub struct ImportState {
    pub divisions: int,
    pub fifths: int,
    pub beats: int,
    pub staves: int,
    pub treble: Seq<ScoreNote>,
    pub bass: Seq<ScoreNote>,
}

pub open spec fn unsupported(what: Seq<char>) -> ImportFailure {
    ImportFailure::Unsupported(what)
}

/// Letter index of a step name.
pub open spec fn step_index(step: Seq<char>) -> Option<int> {
    if step == "C"@ { Some(0) }
    else if step == "D"@ { Some(1) }
    else if step == "E"@ { Some(2) }
    else if step == "F"@ { Some(3) }
    else if step == "G"@ { Some(4) }
    else if step == "A"@ { Some(5) }
    else if step == "B"@ { Some(6) }
    else { None }
}

pub open spec fn step_semitones(index: int) -> int {
    if index == 0 { 0 }
    else if index == 1 { 2 }
    else if index == 2 { 4 }
    else if index == 3 { 5 }
    else if index == 4 { 7 }
    else if index == 5 { 9 }
    else { 11 }
}

/// A `<tie type="stop"/>` among the children.
pub open spec fn has_tie_stop(cs: Seq<Tree>) -> bool {
    exists|k: int| 0 <= k < cs.len() && (#[trigger] cs[k]).name == "tie"@
        && attribute_of(cs[k].attributes, "type"@) == Some("stop"@)
}

/// The pitch of a `<pitch>` element.
pub open spec fn pitch_spec(p: Tree) -> Result<int, ImportFailure> {
    match first_named(p.children, "step"@) {
        None => Err(unsupported("unreadable pitch"@)),
        Some(st) => match int_at(p, "octave"@) {
            None => Err(unsupported("unreadable pitch"@)),
            Some(octave) => match step_index(trim(string_value(st))) {
                None => Err(unsupported("unreadable pitch"@)),
                Some(si) => {
                    let alter = match int_at(p, "alter"@) { Some(a) => a, None => 0 };
                    let midi = (octave + 1) * 12 + step_semitones(si) + alter;
                    if alter < -1 || alter > 1 {
                        Err(unsupported("double accidentals"@))
                    } else if midi < 0 || midi > 127 {
                        Err(unsupported("out-of-range pitch"@))
                    } else {
                        Ok(midi)
                    }
                },
            },
        },
    }
}

/// One `<note>`: the note and the staff number it names (1 by default).
pub open spec fn note_spec(n: Tree, divisions: int) -> Result<(ScoreNote, int), ImportFailure> {
    let cs = n.children;
    let chord = first_named(cs, "chord"@) is Some;
    let tied = has_tie_stop(cs);
    let staff_number = match int_at(n, "staff"@) { Some(v) => v, None => 1 };
    if divisions <= 0 {
        Err(unsupported("missing divisions"@))
    } else if first_named(cs, "grace"@) is Some {
        Err(unsupported("grace notes"@))
    } else if first_named(cs, "time-modification"@) is Some {
        Err(unsupported("tuplets"@))
    } else {
        match int_at(n, "duration"@) {
            None => Err(unsupported("notes without duration"@)),
            Some(raw) => {
                let scaled = raw * 2;
                if scaled % divisions != 0 || NoteDuration::with_units(scaled / divisions) is None {
                    Err(unsupported("note values outside eighth–whole"@))
                } else {
                    let duration = NoteDuration::with_units(scaled / divisions)->0;
                    if first_named(cs, "rest"@) is Some {
                        Ok((ScoreNote { midi: None, duration, staff: Staff::Treble, chord_with_previous: false, tied_from_previous: false }, staff_number))
                    } else {
                        match first_named(cs, "pitch"@) {
                            None => Err(unsupported("unreadable pitch"@)),
                            Some(p) => match pitch_spec(p) {
                                Err(e) => Err(e),
                                Ok(midi) => Ok((ScoreNote {
                                    midi: Some(midi as u8),
                                    duration,
                                    staff: if staff_number == 2 { Staff::Bass } else { Staff::Treble },
                                    chord_with_previous: chord,
                                    tied_from_previous: tied,
                                }, staff_number)),
                            },
                        }
                    }
                }
            },
        }
    }
}

/// The voices and their accumulated time after the `<note>` children of a
/// measure from position `k` on; staff 2 routes to the bass voice.
pub open spec fn notes_from(
    cs: Seq<Tree>,
    k: int,
    divisions: int,
    treble: Seq<ScoreNote>,
    bass: Seq<ScoreNote>,
    tu: int,
    bu: int,
) -> Result<(Seq<ScoreNote>, Seq<ScoreNote>, int, int), ImportFailure>
    decreases cs.len() - k,
{
    if k < 0 || k >= cs.len() {
        Ok((treble, bass, tu, bu))
    } else if cs[k].name != "note"@ {
        notes_from(cs, k + 1, divisions, treble, bass, tu, bu)
    } else {
        match note_spec(cs[k], divisions) {
            Err(e) => Err(e),
            Ok((note, staff_number)) => if staff_number == 2 {
                notes_from(cs, k + 1, divisions, treble, bass.push(ScoreNote { staff: Staff::Bass, ..note }), tu, bu + note.advance())
            } else {
                notes_from(cs, k + 1, divisions, treble.push(note), bass, tu + note.advance(), bu)
            },
        }
    }
}

/// A clef the subset reads: treble, or bass on a two-staff score.
pub open spec fn clef_ok(c: Tree, staves: int) -> bool {
    let sign = match first_named(c.children, "sign"@) {
        Some(s) => Some(trim(string_value(s))),
        None => None,
    };
    sign == Some("G"@) || (sign == Some("F"@) && staves == 2)
}

/// An `<attributes>` block applied to the state.
pub open spec fn attributes_spec(a: Tree, st: ImportState) -> Result<ImportState, ImportFailure> {
    let divisions = match int_at(a, "divisions"@) { Some(d) => d, None => st.divisions };
    let staves = match int_at(a, "staves"@) { Some(s) => s, None => st.staves };
    let key_fifths = match first_named(a.children, "key"@) {
        Some(key) => int_at(key, "fifths"@),
        None => None,
    };
    let fifths = match key_fifths { Some(f) => f, None => st.fifths };
    let time = first_named(a.children, "time"@);
    let beats = match time {
        Some(t) => match int_at(t, "beats"@) { Some(b) => b, None => 4 },
        None => st.beats,
    };
    if staves < 1 || staves > 2 {
        Err(unsupported("more than two staves"@))
    } else if fifths < -7 || fifths > 7 {
        Err(unsupported("key signature out of range"@))
    } else if time is Some && int_at(time->0, "beat-type"@) != Some(4int) {
        Err(unsupported("time signatures not over 4"@))
    } else if !(forall|k: int| 0 <= k < a.children.len() && (#[trigger] a.children[k]).name == "clef"@
        ==> clef_ok(a.children[k], staves)) {
        Err(unsupported("clefs other than treble/bass"@))
    } else {
        Ok(ImportState { divisions, fifths, beats, staves, ..st })
    }
}

pub open spec fn incomplete_text(voice: Seq<char>, number: nat) -> Seq<char> {
    "incomplete "@ + voice + " measure "@ + decimal(number) + " (pickup measures)"@
}

/// A voice's time in a measure is wrong: over full, or short anywhere
/// but the last measure.
pub open spec fn bad_fill(units: int, expected: int, index: int, count: int) -> bool {
    units > expected || (units < expected && index < count - 1)
}

/// One `<measure>` (position `index` of `count`) applied to the state.
pub open spec fn measure_spec(m: Tree, index: int, count: int, st: ImportState) -> Result<ImportState, ImportFailure> {
    let cs = m.children;
    let after = match first_named(cs, "attributes"@) {
        Some(a) => attributes_spec(a, st),
        None => Ok(st),
    };
    match after {
        Err(e) => Err(e),
        Ok(s) => if s.staves == 1 && (first_named(cs, "backup"@) is Some || first_named(cs, "forward"@) is Some) {
            Err(unsupported("multiple voices on one staff"@))
        } else if first_named(cs, "forward"@) is Some {
            Err(unsupported("forward skips (partial voices)"@))
        } else {
            match notes_from(cs, 0, s.divisions, s.treble, s.bass, 0, 0) {
                Err(e) => Err(e),
                Ok((treble, bass, tu, bu)) => {
                    let expected = s.beats * 2;
                    if bad_fill(tu, expected, index, count) {
                        Err(unsupported(incomplete_text("treble"@, (index + 1) as nat)))
                    } else if bu > 0 && bad_fill(bu, expected, index, count) {
                        Err(unsupported(incomplete_text("bass"@, (index + 1) as nat)))
                    } else {
                        Ok(ImportState { treble, bass, ..s })
                    }
                },
            }
        },
    }
}

/// The state before the first measure.
pub open spec fn initial_state() -> ImportState {
    ImportState { divisions: 0, fifths: 0, beats: 4, staves: 1, treble: Seq::empty(), bass: Seq::empty() }
}

/// The measures from position `k` on.
pub open spec fn measures_from(ms: Seq<Tree>, k: int, st: ImportState) -> Result<ImportState, ImportFailure>
    decreases ms.len() - k,
{
    if k < 0 || k >= ms.len() {
        Ok(st)
    } else {
        match measure_spec(ms[k], k, ms.len() as int, st) {
            Err(e) => Err(e),
            Ok(s) => measures_from(ms, k + 1, s),
        }
    }
}

/// The piece's title: the work title, else the movement title, else the
/// fallback.
pub open spec fn title_spec(root: Tree, fallback: Seq<char>) -> Seq<char> {
    match text_at(root, seq!["work"@, "work-title"@]) {
        Some(t) => t,
        None => match text_at(root, seq!["movement-title"@]) {
            Some(t) => t,
            None => fallback,
        },
    }
}

/// Imports a document element.
pub open spec fn import_spec(root: Tree, fallback: Seq<char>) -> Result<PieceSpec, ImportFailure> {
    let parts = named(root.children, "part"@);
    if root.name != "score-partwise"@ || parts.len() == 0 {
        Err(ImportFailure::NotMusicXml)
    } else if parts.len() > 1 {
        Err(ImportFailure::MultipleParts)
    } else {
        let ms = named(parts[0].children, "measure"@);
        if ms.len() == 0 {
            Err(ImportFailure::NotMusicXml)
        } else {
            match measures_from(ms, 0, initial_state()) {
                Err(e) => Err(e),
                Ok(st) => if !(exists|k: int| 0 <= k < st.treble.len() && (#[trigger] st.treble[k]).midi is Some) {
                    Err(unsupported("scores with no treble-staff notes"@))
                } else {
                    Ok(PieceSpec {
                        title: title_spec(root, fallback),
                        notes: st.treble,
                        bass: st.bass,
                        beats: st.beats,
                        fifths: st.fifths,
                    })
                },
            }
        }
    }
}

/// Imports MusicXML bytes.
pub open spec fn import_bytes(data: Seq<u8>, fallback: Seq<char>) -> Result<PieceSpec, ImportFailure> {
    match document(data) {
        None => Err(ImportFailure::NotMusicXml),
        Some(root) => import_spec(root, fallback),
    }
}

/// An import outcome matches its mathematical description.
pub open spec fn piece_matches(r: Result<ImportedPiece, ImportError>, s: Result<PieceSpec, ImportFailure>) -> bool {
    match (r, s) {
        (Ok(p), Ok(q)) => p.title@ == q.title && p.exercise.notes@ == q.notes && p.exercise.bass_notes@ == q.bass
            && p.exercise.beats_per_measure as int == q.beats && p.exercise.fifths as int == q.fifths,
        (Err(e), Err(f)) => e@ == f,
        _ => false,
    }
}


fn unsupported_error(what: &str) -> (e: ImportError)
    ensures
        e@ == unsupported(what@),
{
    ImportError::Unsupported(String::from_str(what))
}

/// Whether a `<tie type="stop"/>` is among the children.
fn tie_stop(element: &Element) -> (b: bool)
    ensures
        b == has_tie_stop(element.tree().children),
{
    let ghost cs = element.tree().children;
    let mut k: usize = 0;
    while k < element.children.len()
        invariant
            k <= element.children@.len(),
            cs == element.tree().children,
            forall|t: int| 0 <= t < k ==> !((#[trigger] cs[t]).name == "tie"@
                && attribute_of(cs[t].attributes, "type"@) == Some("stop"@)),
        decreases element.children.len() - k,
    {
        let child = &element.children[k];
        assert(cs[k as int] == child.tree());
        if str_eq(child.name.as_str(), "tie") {
            match child.attribute("type") {
                Some(t) => {
                    if str_eq(t, "stop") {
                        return true;
                    }
                },
                None => {},
            }
        }
        k = k + 1;
    }
    false
}

fn step_number(step: &Vec<char>) -> (r: Option<i64>)
    ensures
        match r {
            Some(i) => step_index(step@) == Some(i as int),
            None => step_index(step@) is None,
        },
{
    let text = to_string(step);
    if str_eq(text.as_str(), "C") { Some(0) }
    else if str_eq(text.as_str(), "D") { Some(1) }
    else if str_eq(text.as_str(), "E") { Some(2) }
    else if str_eq(text.as_str(), "F") { Some(3) }
    else if str_eq(text.as_str(), "G") { Some(4) }
    else if str_eq(text.as_str(), "A") { Some(5) }
    else if str_eq(text.as_str(), "B") { Some(6) }
    else { None }
}

fn semitones(index: i64) -> (r: i64)
    ensures
        r as int == step_semitones(index as int),
{
    if index == 0 { 0 }
    else if index == 1 { 2 }
    else if index == 2 { 4 }
    else if index == 3 { 5 }
    else if index == 4 { 7 }
    else if index == 5 { 9 }
    else { 11 }
}

/// The MIDI number of a `<pitch>` element.
fn parse_pitch(p: &Element) -> (r: Result<u8, ImportError>)
    ensures
        match (r, pitch_spec(p.tree())) {
            (Ok(m), Ok(n)) => m as int == n,
            (Err(e), Err(f)) => e@ == f,
            _ => false,
        },
{
    let step = match p.first("step") {
        Some(s) => {
            let chars = chars_of(s.string_value().as_str());
            trim_chars(&chars)
        },
        None => {
            return Err(unsupported_error("unreadable pitch"));
        },
    };
    let octave = match int_value(p, "octave") {
        Some(o) => o,
        None => {
            return Err(unsupported_error("unreadable pitch"));
        },
    };
    let index = match step_number(&step) {
        Some(i) => i,
        None => {
            return Err(unsupported_error("unreadable pitch"));
        },
    };
    let alter: i64 = match int_value(p, "alter") {
        Some(a) => a as i64,
        None => 0,
    };
    if alter < -1 || alter > 1 {
        return Err(unsupported_error("double accidentals"));
    }
    let midi: i64 = (octave as i64 + 1) * 12 + semitones(index) + alter;
    if midi < 0 || midi > 127 {
        return Err(unsupported_error("out-of-range pitch"));
    }
    Ok(midi as u8)
}

/// A `<duration>` of `r` in a file of `divisions` per quarter is `2r /
/// divisions` eighths: an imported note always lasts exactly that long,
/// and any duration that comes to one of the model's values imports as
/// that value (a duration of `divisions` is a quarter note).
pub proof fn lemma_note_length_follows_divisions(n: Tree, divisions: int, raw: int, dur: NoteDuration)
    requires
        divisions > 0,
    ensures
        note_spec(n, divisions) matches Ok((note, _)) ==> int_at(n, "duration"@) matches Some(r)
            && note.duration.unit_count() * divisions == 2 * r,
        ({
            &&& first_named(n.children, "grace"@) is None
            &&& first_named(n.children, "time-modification"@) is None
            &&& int_at(n, "duration"@) == Some(raw)
            &&& dur.unit_count() * divisions == 2 * raw
            &&& first_named(n.children, "rest"@) is Some
                || (first_named(n.children, "pitch"@) matches Some(p) && pitch_spec(p) is Ok)
        }) ==> (note_spec(n, divisions) matches Ok((note, _)) && note.duration == dur),
{
    if let Some(r) = int_at(n, "duration"@) {
        let scaled = r * 2;
        vstd::arithmetic::div_mod::lemma_fundamental_div_mod(scaled, divisions);
        if scaled % divisions == 0 && NoteDuration::with_units(scaled / divisions) is Some {
            let q = scaled / divisions;
            assert(NoteDuration::with_units(q)->0.unit_count() == q);
            assert(q * divisions == 2 * r) by (nonlinear_arith)
                requires
                    scaled == divisions * q + scaled % divisions,
                    scaled % divisions == 0,
                    scaled == r * 2,
            ;
        }
        if r == raw && dur.unit_count() * divisions == 2 * raw {
            let u = dur.unit_count();
            vstd::arithmetic::div_mod::lemma_mod_multiples_basic(u, divisions);
            vstd::arithmetic::div_mod::lemma_div_multiples_vanish(u, divisions);
            assert(divisions * u == u * divisions) by (nonlinear_arith);
            assert(scaled == u * divisions);
            assert(scaled % divisions == 0);
            assert(scaled / divisions == u);
            assert(NoteDuration::with_units(u) == Some(dur));
        }
    }
}

proof fn lemma_nonpositive_has_no_duration(scaled: int, divisions: int)
    requires
        divisions > 0,
        scaled <= 0,
    ensures
        scaled % divisions != 0 || NoteDuration::with_units(scaled / divisions) is None,
{
    if scaled % divisions == 0 {
        vstd::arithmetic::div_mod::lemma_fundamental_div_mod(scaled, divisions);
        assert(scaled / divisions <= 0) by (nonlinear_arith)
            requires
                scaled == divisions * (scaled / divisions) + scaled % divisions,
                scaled % divisions == 0,
                divisions > 0,
                scaled <= 0,
        ;
    }
}

/// One `<note>`: the note and the staff number it names.
pub fn parse_note(element: &Element, divisions: i32) -> (r: Result<(ScoreNote, i32), ImportError>)
    ensures
        match (r, note_spec(element.tree(), divisions as int)) {
            (Ok((n, sn)), Ok((m, tn))) => n == m && sn as int == tn,
            (Err(e), Err(f)) => e@ == f,
            _ => false,
        },
{
    if divisions <= 0 {
        return Err(unsupported_error("missing divisions"));
    }
    if element.first("grace").is_some() {
        return Err(unsupported_error("grace notes"));
    }
    if element.first("time-modification").is_some() {
        return Err(unsupported_error("tuplets"));
    }
    let is_chord_member = element.first("chord").is_some();
    let tied_from_previous = tie_stop(element);
    let staff_number: i32 = match int_value(element, "staff") {
        Some(v) => v,
        None => 1,
    };
    let raw_duration = match int_value(element, "duration") {
        Some(d) => d,
        None => {
            return Err(unsupported_error("notes without duration"));
        },
    };
    let scaled: i64 = raw_duration as i64 * 2;
    if scaled <= 0 {
        proof {
            lemma_nonpositive_has_no_duration(scaled as int, divisions as int);
        }
        return Err(unsupported_error("note values outside eighth–whole"));
    }
    let d: u64 = divisions as u64;
    let positive: u64 = scaled as u64;
    if positive % d != 0 {
        return Err(unsupported_error("note values outside eighth–whole"));
    }
    let duration = match NoteDuration::from_units((positive / d) as i64) {
        Some(duration) => duration,
        None => {
            return Err(unsupported_error("note values outside eighth–whole"));
        },
    };
    if element.first("rest").is_some() {
        return Ok((ScoreNote::rest(duration), staff_number));
    }
    let pitch = match element.first("pitch") {
        Some(p) => p,
        None => {
            return Err(unsupported_error("unreadable pitch"));
        },
    };
    let midi = match parse_pitch(pitch) {
        Ok(m) => m,
        Err(e) => {
            return Err(e);
        },
    };
    Ok((
        ScoreNote {
            midi: Some(midi),
            duration,
            staff: if staff_number == 2 { Staff::Bass } else { Staff::Treble },
            chord_with_previous: is_chord_member,
            tied_from_previous,
        },
        staff_number,
    ))
}


/// Whether every `<clef>` child is one the subset reads.
fn clefs_supported(a: &Element, staves: i32) -> (b: bool)
    ensures
        b == (forall|k: int| 0 <= k < a.tree().children.len() && (#[trigger] a.tree().children[k]).name == "clef"@
            ==> clef_ok(a.tree().children[k], staves as int)),
{
    let ghost cs = a.tree().children;
    let mut k: usize = 0;
    while k < a.children.len()
        invariant
            k <= a.children@.len(),
            cs == a.tree().children,
            forall|t: int| 0 <= t < k && (#[trigger] cs[t]).name == "clef"@ ==> clef_ok(cs[t], staves as int),
        decreases a.children.len() - k,
    {
        let clef = &a.children[k];
        assert(cs[k as int] == clef.tree());
        if str_eq(clef.name.as_str(), "clef") {
            let sign: Option<Vec<char>> = match clef.first("sign") {
                Some(s) => {
                    let chars = chars_of(s.string_value().as_str());
                    Some(trim_chars(&chars))
                },
                None => None,
            };
            let ok = match &sign {
                Some(t) => {
                    let text = to_string(t);
                    str_eq(text.as_str(), "G") || (str_eq(text.as_str(), "F") && staves == 2)
                },
                None => false,
            };
            if !ok {
                return false;
            }
        }
        k = k + 1;
    }
    true
}

/// Applies an `<attributes>` block.
fn apply_attributes(
    a: &Element,
    divisions: &mut i32,
    fifths: &mut i32,
    beats: &mut i32,
    staves: &mut i32,
    st: Ghost<ImportState>,
) -> (r: Result<(), ImportError>)
    requires
        st@.divisions == *old(divisions) as int,
        st@.fifths == *old(fifths) as int,
        st@.beats == *old(beats) as int,
        st@.staves == *old(staves) as int,
        1 <= *old(staves) <= 2,
        -7 <= *old(fifths) <= 7,
    ensures
        1 <= *final(staves) <= 2,
        -7 <= *final(fifths) <= 7,
        match (r, attributes_spec(a.tree(), st@)) {
            (Ok(()), Ok(s)) => s == (ImportState {
                divisions: *final(divisions) as int,
                fifths: *final(fifths) as int,
                beats: *final(beats) as int,
                staves: *final(staves) as int,
                ..st@
            }),
            (Err(e), Err(f)) => e@ == f,
            _ => false,
        },
{
    if let Some(d) = int_value(a, "divisions") {
        *divisions = d;
    }
    if let Some(count) = int_value(a, "staves") {
        if count < 1 || count > 2 {
            return Err(unsupported_error("more than two staves"));
        }
        *staves = count;
    }
    if let Some(key) = a.first("key") {
        if let Some(f) = int_value(key, "fifths") {
            if f < -7 || f > 7 {
                return Err(unsupported_error("key signature out of range"));
            }
            *fifths = f;
        }
    }
    if let Some(time) = a.first("time") {
        match int_value(time, "beat-type") {
            Some(4) => {},
            _ => {
                return Err(unsupported_error("time signatures not over 4"));
            },
        }
        *beats = match int_value(time, "beats") {
            Some(b) => b,
            None => 4,
        };
    }
    if !clefs_supported(a, *staves) {
        return Err(unsupported_error("clefs other than treble/bass"));
    }
    Ok(())
}

/// Appends the measure's `<note>` children to the voices; returns the
/// time each voice gained.
fn collect_notes(
    m: &Element,
    divisions: i32,
    treble: &mut Vec<ScoreNote>,
    bass: &mut Vec<ScoreNote>,
) -> (r: Result<(i128, i128), ImportError>)
    ensures
        match (r, notes_from(m.tree().children, 0, divisions as int, old(treble)@, old(bass)@, 0, 0)) {
            (Ok((tu, bu)), Ok((t, b, su, sb))) => final(treble)@ == t && final(bass)@ == b && tu as int == su && bu as int == sb,
            (Err(e), Err(f)) => e@ == f,
            _ => false,
        },
{
    let ghost cs = m.tree().children;
    let ghost goal = notes_from(cs, 0, divisions as int, old(treble)@, old(bass)@, 0, 0);
    let mut treble_units: i128 = 0;
    let mut bass_units: i128 = 0;
    let mut k: usize = 0;
    while k < m.children.len()
        invariant
            k <= m.children@.len(),
            cs == m.tree().children,
            goal == notes_from(cs, 0, divisions as int, old(treble)@, old(bass)@, 0, 0),
            0 <= treble_units <= 8 * k,
            0 <= bass_units <= 8 * k,
            notes_from(cs, k as int, divisions as int, treble@, bass@, treble_units as int, bass_units as int) == goal,
        decreases m.children.len() - k,
    {
        let child = &m.children[k];
        assert(cs[k as int] == child.tree());
        if str_eq(child.name.as_str(), "note") {
            match parse_note(child, divisions) {
                Err(e) => {
                    return Err(e);
                },
                Ok((note, staff_number)) => {
                    if staff_number == 2 {
                        bass.push(ScoreNote {
                            midi: note.midi,
                            duration: note.duration,
                            staff: Staff::Bass,
                            chord_with_previous: note.chord_with_previous,
                            tied_from_previous: note.tied_from_previous,
                        });
                        if !note.chord_with_previous {
                            bass_units = bass_units + note.duration.units() as i128;
                        }
                    } else {
                        treble.push(note);
                        if !note.chord_with_previous {
                            treble_units = treble_units + note.duration.units() as i128;
                        }
                    }
                },
            }
        }
        k = k + 1;
    }
    Ok((treble_units, bass_units))
}

/// "incomplete {voice} measure {number} (pickup measures)".
fn incomplete_error(voice: &str, number: u64) -> (e: ImportError)
    ensures
        e@ == unsupported(incomplete_text(voice@, number as nat)),
{
    let mut out: Vec<char> = Vec::new();
    push_str(&mut out, "incomplete ");
    push_str(&mut out, voice);
    push_str(&mut out, " measure ");
    push_nat(&mut out, number);
    push_str(&mut out, " (pickup measures)");
    assert(out@ =~= incomplete_text(voice@, number as nat));
    ImportError::Unsupported(to_string(&out))
}

fn any_sounded(notes: &Vec<ScoreNote>) -> (b: bool)
    ensures
        b == exists|k: int| 0 <= k < notes@.len() && (#[trigger] notes@[k]).midi is Some,
{
    let mut k: usize = 0;
    while k < notes.len()
        invariant
            k <= notes@.len(),
            forall|t: int| 0 <= t < k ==> (#[trigger] notes@[t]).midi is None,
        decreases notes.len() - k,
    {
        if notes[k].midi.is_some() {
            return true;
        }
        k = k + 1;
    }
    false
}

/// The values the measures establish, as the reader goes.
struct Reading {
    divisions: i32,
    fifths: i32,
    beats: i32,
    staves: i32,
    treble: Vec<ScoreNote>,
    bass: Vec<ScoreNote>,
}

impl Reading {
    spec fn state(&self) -> ImportState {
        ImportState {
            divisions: self.divisions as int,
            fifths: self.fifths as int,
            beats: self.beats as int,
            staves: self.staves as int,
            treble: self.treble@,
            bass: self.bass@,
        }
    }

    spec fn valid(&self) -> bool {
        1 <= self.staves <= 2 && -7 <= self.fifths <= 7
    }
}

/// Applies the measure at position `index` of `count`.
fn apply_measure(measure: &Element, index: usize, count: usize, rd: &mut Reading) -> (r: Result<(), ImportError>)
    requires
        old(rd).valid(),
        index < count,
    ensures
        final(rd).valid(),
        match (r, measure_spec(measure.tree(), index as int, count as int, old(rd).state())) {
            (Ok(()), Ok(s)) => s == final(rd).state(),
            (Err(e), Err(f)) => e@ == f,
            _ => false,
        },
{
    let ghost st = rd.state();
    let ghost cs = measure.tree().children;
    if let Some(a) = measure.first("attributes") {
        match apply_attributes(a, &mut rd.divisions, &mut rd.fifths, &mut rd.beats, &mut rd.staves, Ghost(st)) {
            Ok(()) => {},
            Err(e) => {
                return Err(e);
            },
        }
    }
    let ghost after = rd.state();
    assert(match first_named(cs, "attributes"@) {
        Some(at) => attributes_spec(at, st) == Ok::<ImportState, ImportFailure>(after),
        None => after == st,
    });
    if rd.staves == 1 && (measure.first("backup").is_some() || measure.first("forward").is_some()) {
        return Err(unsupported_error("multiple voices on one staff"));
    }
    if measure.first("forward").is_some() {
        return Err(unsupported_error("forward skips (partial voices)"));
    }
    let (treble_units, bass_units) = match collect_notes(measure, rd.divisions, &mut rd.treble, &mut rd.bass) {
        Ok(units) => units,
        Err(e) => {
            return Err(e);
        },
    };
    let expected: i128 = rd.beats as i128 * 2;
    let last = index + 1 == count;
    if treble_units > expected || (treble_units < expected && !last) {
        return Err(incomplete_error("treble", index as u64 + 1));
    }
    if bass_units > 0 && (bass_units > expected || (bass_units < expected && !last)) {
        return Err(incomplete_error("bass", index as u64 + 1));
    }
    Ok(())
}

/// Applies the measures in order, from the empty reading.
fn read_measures(measures: &Vec<&Element>, ms: Ghost<Seq<Tree>>) -> (r: Result<Reading, ImportError>)
    requires
        ms@.len() == measures@.len(),
        forall|t: int| 0 <= t < measures@.len() ==> #[trigger] measures@[t].tree() == ms@[t],
    ensures
        match (r, measures_from(ms@, 0, initial_state())) {
            (Ok(rd), Ok(s)) => s == rd.state() && rd.valid(),
            (Err(e), Err(f)) => e@ == f,
            _ => false,
        },
{
    let ghost init = initial_state();
    let mut rd = Reading { divisions: 0, fifths: 0, beats: 4, staves: 1, treble: Vec::new(), bass: Vec::new() };
    assert(rd.state() == init);
    let count = measures.len();
    let mut k: usize = 0;
    while k < count
        invariant
            k <= count,
            count == measures@.len(),
            ms@.len() == count,
            rd.valid(),
            forall|t: int| 0 <= t < measures@.len() ==> #[trigger] measures@[t].tree() == ms@[t],
            init == initial_state(),
            measures_from(ms@, k as int, rd.state()) == measures_from(ms@, 0, init),
        decreases count - k,
    {
        let ghost st = rd.state();
        assert(measures@[k as int].tree() == ms@[k as int]);
        match apply_measure(measures[k], k, count, &mut rd) {
            Ok(()) => {},
            Err(e) => {
                assert(measures_from(ms@, k as int, st) == Err::<ImportState, ImportFailure>(e@));
                return Err(e);
            },
        }
        k = k + 1;
    }
    Ok(rd)
}

pub struct MusicXmlImporter;

impl MusicXmlImporter {
    /// Imports MusicXML bytes; `fallback_title` names a piece without a
    /// work or movement title.
    pub fn parse(data: &[u8], fallback_title: &str) -> (r: Result<ImportedPiece, ImportError>)
        ensures
            piece_matches(r, import_bytes(data@, fallback_title@)),
    {
        match parse_document(data) {
            None => Err(ImportError::NotMusicXml),
            Some(root) => Self::parse_element(&root, fallback_title),
        }
    }

    /// Imports a document element.
    pub fn parse_element(root: &Element, fallback_title: &str) -> (r: Result<ImportedPiece, ImportError>)
        ensures
            piece_matches(r, import_spec(root.tree(), fallback_title@)),
    {
        if !str_eq(root.name.as_str(), "score-partwise") {
            return Err(ImportError::NotMusicXml);
        }
        let parts = root.elements("part");
        if parts.len() == 0 {
            return Err(ImportError::NotMusicXml);
        }
        if parts.len() > 1 {
            return Err(ImportError::MultipleParts);
        }
        let part = parts[0];
        let work_path: [&str; 2] = ["work", "work-title"];
        let movement_path: [&str; 1] = ["movement-title"];
        proof {
            assert(work_path@.map_values(|p: &str| p@) =~= seq!["work"@, "work-title"@]);
            assert(movement_path@.map_values(|p: &str| p@) =~= seq!["movement-title"@]);
        }
        let title = match first_text(root, &work_path) {
            Some(t) => t,
            None => match first_text(root, &movement_path) {
                Some(t) => t,
                None => String::from_str(fallback_title),
            },
        };
        let measures = part.elements("measure");
        if measures.len() == 0 {
            return Err(ImportError::NotMusicXml);
        }
        let ghost ms = named(part.tree().children, "measure"@);
        let rd = match read_measures(&measures, Ghost(ms)) {
            Ok(rd) => rd,
            Err(e) => {
                return Err(e);
            },
        };
        if !any_sounded(&rd.treble) {
            return Err(unsupported_error("scores with no treble-staff notes"));
        }
        Ok(ImportedPiece {
            title,
            exercise: Exercise { notes: rd.treble, bass_notes: rd.bass, beats_per_measure: rd.beats, fifths: rd.fifths },
        })
    }
}

} // verus!
