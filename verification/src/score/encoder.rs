//! Encodes the internal score model to MusicXML: single part, treble /
//! bass-only / grand staff, key signatures, one meter, rests, dotted
//! values, eighths, chords, ties and encoded system breaks. The output
//! shape (whitespace included) is fixed so it can be pinned by text.

use vstd::prelude::*;
use vstd::arithmetic::div_mod::{lemma_fundamental_div_mod, lemma_fundamental_div_mod_converse};
use crate::pitch::{is_black, key_alteration_of, key_alteration_spec, spell_spec, PitchSpelling, Spelling};
use crate::score::model::{
    lemma_measures_partition_voice, measure_views, measures_spec, prefix_len, tie_roles_spec, voice_fits, Exercise, NoteDuration, ScoreNote, Staff, TieRole,
};
use crate::text::{chars_of, int_text, push_int, push_str, to_string};

verus! {

pub struct MusicXmlEncoder;

pub open spec fn dot_text(d: NoteDuration) -> Seq<char> {
    if d.dotted() { "<dot/>"@ } else { Seq::empty() }
}

pub open spec fn voice_text(grand: bool, voice: int) -> Seq<char> {
    if grand { "<voice>"@ + int_text(voice) + "</voice>"@ } else { Seq::empty() }
}

pub open spec fn staff_text(grand: bool, staff: Staff) -> Seq<char> {
    if grand {
        "<staff>"@ + (if staff == Staff::Bass { "2"@ } else { "1"@ }) + "</staff>"@
    } else {
        Seq::empty()
    }
}

pub open spec fn chord_text(chord: bool) -> Seq<char> {
    if chord { "<chord/>"@ } else { Seq::empty() }
}

pub open spec fn alter_text(alter: int) -> Seq<char> {
    if alter != 0 { "<alter>"@ + int_text(alter) + "</alter>"@ } else { Seq::empty() }
}

/// An accidental glyph only where the note contradicts the signature.
pub open spec fn accidental_text(s: Spelling, fifths: int) -> Seq<char> {
    if s.alter as int != key_alteration_spec(seq![s.step], fifths) {
        if s.alter < 0 {
            "<accidental>flat</accidental>"@
        } else if s.alter == 0 {
            "<accidental>natural</accidental>"@
        } else {
            "<accidental>sharp</accidental>"@
        }
    } else {
        Seq::empty()
    }
}

/// A note carries an accidental glyph exactly when its spelling
/// contradicts the key signature, and the glyph names the spelling's own
/// alteration: a natural where the signature alters the letter but the
/// note does not, a flat or sharp where the note alters it otherwise.
pub proof fn lemma_accidental_marks_what_the_signature_contradicts(s: Spelling, fifths: int)
    requires
        -1 <= s.alter <= 1,
    ensures
        s.alter as int == key_alteration_spec(seq![s.step], fifths) ==> accidental_text(s, fifths) == Seq::<char>::empty(),
        s.alter == 0 && key_alteration_spec(seq![s.step], fifths) != 0
            ==> accidental_text(s, fifths) == "<accidental>natural</accidental>"@,
        s.alter == 1 && key_alteration_spec(seq![s.step], fifths) != 1
            ==> accidental_text(s, fifths) == "<accidental>sharp</accidental>"@,
        s.alter == -1 && key_alteration_spec(seq![s.step], fifths) != -1
            ==> accidental_text(s, fifths) == "<accidental>flat</accidental>"@,
{
}

/// A white key is written with a natural exactly where the signature
/// alters its letter: an F in any sharp key, a B in any flat key.
pub proof fn lemma_white_keys_take_naturals_against_the_signature(midi: int, fifths: int)
    requires
        0 <= midi,
        !is_black(midi % 12),
    ensures
        accidental_text(spell_spec(midi, fifths < 0), fifths) == (if key_alteration_spec(seq![spell_spec(midi, fifths < 0).step], fifths) != 0 {
            "<accidental>natural</accidental>"@
        } else {
            Seq::<char>::empty()
        }),
        midi % 12 == 5 && fifths >= 1 ==> accidental_text(spell_spec(midi, fifths < 0), fifths) == "<accidental>natural</accidental>"@,
        midi % 12 == 11 && fifths <= -1 ==> accidental_text(spell_spec(midi, fifths < 0), fifths) == "<accidental>natural</accidental>"@,
{
}

pub open spec fn tie_text(tie: TieRole) -> Seq<char> {
    (if tie.stop { "<tie type=\"stop\"/>"@ } else { Seq::empty() })
        + (if tie.start { "<tie type=\"start\"/>"@ } else { Seq::empty() })
}

pub open spec fn notations_text(tie: TieRole) -> Seq<char> {
    if tie.stop || tie.start {
        "<notations>"@ + (if tie.stop { "<tied type=\"stop\"/>"@ } else { Seq::empty() })
            + (if tie.start { "<tied type=\"start\"/>"@ } else { Seq::empty() }) + "</notations>"@
    } else {
        Seq::empty()
    }
}

/// A rest's `<note>` element.
pub open spec fn rest_xml(note: ScoreNote, grand: bool, voice: int) -> Seq<char> {
    "\n      <note>\n        <rest/>\n        <duration>"@ + int_text(note.duration.unit_count())
        + "</duration>\n        "@ + voice_text(grand, voice) + "<type>"@ + note.duration.xml_type() + "</type>"@
        + dot_text(note.duration) + staff_text(grand, note.staff) + "\n      </note>"@
}

/// A pitched note's element up to its duration.
pub open spec fn pitch_head(note: ScoreNote, s: Spelling) -> Seq<char> {
    "\n      <note>\n        "@ + chord_text(note.chord_with_previous) + "<pitch><step>"@ + seq![s.step]
        + "</step>"@ + alter_text(s.alter as int) + "<octave>"@ + int_text(s.octave as int)
        + "</octave></pitch>\n        <duration>"@ + int_text(note.duration.unit_count()) + "</duration>"@
}

/// A pitched note's element after its duration.
pub open spec fn pitch_tail(note: ScoreNote, s: Spelling, fifths: int, grand: bool, voice: int, tie: TieRole) -> Seq<char> {
    type_part(note, tie, grand, voice) + marks_part(note, s, fifths, grand) + (notations_text(tie) + "\n      </note>"@)
}

pub open spec fn type_part(note: ScoreNote, tie: TieRole, grand: bool, voice: int) -> Seq<char> {
    tie_text(tie) + "\n        "@ + voice_text(grand, voice) + "<type>"@ + note.duration.xml_type() + "</type>"@
}

pub open spec fn marks_part(note: ScoreNote, s: Spelling, fifths: int, grand: bool) -> Seq<char> {
    dot_text(note.duration) + accidental_text(s, fifths) + staff_text(grand, note.staff)
}

/// One `<note>` element.
#[verifier::opaque]
pub open spec fn note_xml_spec(note: ScoreNote, fifths: int, grand: bool, voice: int, tie: TieRole) -> Seq<char> {
    match note.midi {
        None => rest_xml(note, grand, voice),
        Some(m) => {
            let s = spell_spec(m as int, fifths < 0);
            pitch_head(note, s) + pitch_tail(note, s, fifths, grand, voice, tie)
        },
    }
}

pub open spec fn routed(note: ScoreNote, to_bass: bool) -> ScoreNote {
    if to_bass { ScoreNote { staff: Staff::Bass, ..note } } else { note }
}

/// The notes of one measure; `offset` is the voice position of its first
/// note, which selects its tie role.
pub open spec fn notes_text(
    ns: Seq<ScoreNote>,
    roles: Seq<TieRole>,
    offset: int,
    fifths: int,
    grand: bool,
    voice: int,
    to_bass: bool,
) -> Seq<char>
    decreases ns.len(),
{
    if ns.len() == 0 {
        Seq::empty()
    } else {
        notes_text(ns.drop_last(), roles, offset, fifths, grand, voice, to_bass)
            + note_xml_spec(routed(ns.last(), to_bass), fifths, grand, voice, roles[offset + ns.len() - 1])
    }
}

/// Time a run of notes takes (chord members add none).
pub open spec fn units_sum(ns: Seq<ScoreNote>) -> int
    decreases ns.len(),
{
    if ns.len() == 0 { 0 } else { units_sum(ns.drop_last()) + ns.last().advance() }
}

impl Exercise {
    /// Any bass-staff note (or a bass voice) promotes the score to a grand
    /// staff; a bass-only score is one bass-clef staff.
    pub open spec fn grand_staff(self) -> bool {
        !self.bass_only() && (self.bass_notes@.len() > 0
            || exists|k: int| 0 <= k < self.notes@.len() && #[trigger] self.notes@[k].staff == Staff::Bass)
    }

    pub open spec fn measure_count_spec(self) -> int {
        let t = measures_spec(self.notes@, self.upm()).len();
        let b = measures_spec(self.bass_notes@, self.upm()).len();
        if t >= b { t as int } else { b as int }
    }
}

pub open spec fn clefs_text(grand: bool, bass_only: bool) -> Seq<char> {
    if grand {
        "\n        <staves>2</staves>\n        <clef number=\"1\"><sign>G</sign><line>2</line></clef>\n        <clef number=\"2\"><sign>F</sign><line>4</line></clef>"@
    } else if bass_only {
        "\n        <clef><sign>F</sign><line>4</line></clef>"@
    } else {
        "\n        <clef><sign>G</sign><line>2</line></clef>"@
    }
}

pub open spec fn attributes_text(ex: Exercise) -> Seq<char> {
    "\n      <attributes>\n        <divisions>2</divisions>\n        <key><fifths>"@ + int_text(ex.fifths as int)
        + "</fifths></key>\n        <time><beats>"@ + int_text(ex.beats_per_measure as int)
        + "</beats><beat-type>4</beat-type></time>"@ + clefs_text(ex.grand_staff(), ex.bass_only())
        + "\n      </attributes>"@
}

pub open spec fn break_text(breaks: Option<usize>, i: int) -> Seq<char> {
    match breaks {
        Some(n) => if i > 0 && n > 0 && i % (n as int) == 0 { "\n          <print new-system=\"yes\"/>"@ } else { Seq::empty() },
        None => Seq::empty(),
    }
}

/// The body of measure `i`: the bass voice alone for a bass-only score;
/// otherwise the treble measure, then (rewinding with `<backup>`) the bass
/// measure routed to staff 2.
pub open spec fn measure_body(ex: Exercise, i: int) -> Seq<char> {
    let tm = measures_spec(ex.notes@, ex.upm());
    let bm = measures_spec(ex.bass_notes@, ex.upm());
    let tr = tie_roles_spec(ex.notes@);
    let br = tie_roles_spec(ex.bass_notes@);
    let f = ex.fifths as int;
    if ex.bass_only() {
        if i < bm.len() { notes_text(bm[i], br, prefix_len(bm, i), f, false, 1, false) } else { Seq::empty() }
    } else {
        let treble: Seq<ScoreNote> = if i < tm.len() { tm[i] } else { Seq::empty() };
        notes_text(treble, tr, prefix_len(tm, i), f, ex.grand_staff(), 1, false)
            + (if i < bm.len() && bm[i].len() > 0 {
                "\n      <backup><duration>"@ + int_text(units_sum(treble)) + "</duration></backup>"@
                    + notes_text(bm[i], br, prefix_len(bm, i), f, ex.grand_staff(), 2, true)
            } else {
                Seq::empty()
            })
    }
}

/// A system break never opens the first measure, and the plain encoding
/// holds none.
pub proof fn lemma_breaks_skip_first_measure(breaks: Option<usize>, i: int)
    ensures
        break_text(breaks, 0) == Seq::<char>::empty(),
        break_text(None, i) == Seq::<char>::empty(),
{
}

/// The opening tag of measure `i`.
pub open spec fn measure_opening(i: int) -> Seq<char> {
    "\n    <measure number=\""@ + int_text(i + 1) + "\">"@
}

/// Measure `i` after its opening tag and any system break.
pub open spec fn measure_rest(ex: Exercise, i: int) -> Seq<char> {
    (if i == 0 { attributes_text(ex) } else { Seq::empty() }) + measure_body(ex, i) + "\n    </measure>"@
}

/// Measure `i` with its system break, if it has one, cut out.
pub open spec fn measure_without_break(ex: Exercise, breaks: Option<usize>, i: int) -> Seq<char> {
    let mt = measure_text(ex, breaks, i);
    let a = measure_opening(i).len() as int;
    mt.subrange(0, a) + mt.subrange(a + break_text(breaks, i).len(), mt.len() as int)
}

/// The first `n` measures with their system breaks cut out.
pub open spec fn measures_without_breaks(ex: Exercise, breaks: Option<usize>, n: int) -> Seq<char>
    decreases n,
{
    if n <= 0 { Seq::empty() } else { measures_without_breaks(ex, breaks, n - 1) + measure_without_break(ex, breaks, n - 1) }
}

/// A document with every system break cut out.
pub open spec fn encoding_without_breaks(ex: Exercise, breaks: Option<usize>) -> Seq<char> {
    "<?xml version=\"1.0\" encoding=\"UTF-8\"?>\n<score-partwise version=\"4.0\">\n  <part-list><score-part id=\"P1\"><part-name print-object=\"no\">Piano</part-name></score-part></part-list>\n  <part id=\"P1\">"@
        + measures_without_breaks(ex, breaks, ex.measure_count_spec())
        + "\n  </part>\n</score-partwise>"@
}

/// How many of the first `n` measures open a new system.
pub open spec fn break_count(breaks: Option<usize>, n: int) -> int
    decreases n,
{
    if n <= 0 {
        0
    } else {
        break_count(breaks, n - 1) + if break_text(breaks, n - 1).len() > 0 { 1int } else { 0int }
    }
}

/// A measure is its opening tag, its system break (if any), then the
/// rest, which does not depend on the breaks.
pub proof fn lemma_measure_parts(ex: Exercise, breaks: Option<usize>, i: int)
    ensures
        measure_text(ex, breaks, i) == measure_opening(i) + break_text(breaks, i) + measure_rest(ex, i),
{
    reveal(measure_text);
    assert(measure_text(ex, breaks, i) =~= measure_opening(i) + break_text(breaks, i) + measure_rest(ex, i));
}

/// System breaks only add print lines: cutting each one out of the
/// encoding with breaks gives the encoding without, which holds none.
pub proof fn lemma_cutting_breaks_gives_the_plain_encoding(ex: Exercise, breaks: Option<usize>)
    ensures
        encoding_without_breaks(ex, breaks) == encoding(ex, None),
        break_count(None, ex.measure_count_spec()) == 0,
{
    lemma_measures_without_breaks(ex, breaks, ex.measure_count_spec());
    lemma_no_breaks_counted(ex.measure_count_spec());
}

proof fn lemma_measures_without_breaks(ex: Exercise, breaks: Option<usize>, n: int)
    ensures
        measures_without_breaks(ex, breaks, n) == measures_text(ex, None, n),
    decreases n,
{
    if n > 0 {
        lemma_measures_without_breaks(ex, breaks, n - 1);
        let i = n - 1;
        lemma_measure_parts(ex, breaks, i);
        lemma_measure_parts(ex, None, i);
        let o = measure_opening(i);
        let bt = break_text(breaks, i);
        let r = measure_rest(ex, i);
        let mt = o + bt + r;
        assert(mt.subrange(0, o.len() as int) =~= o);
        assert(mt.subrange((o.len() + bt.len()) as int, mt.len() as int) =~= r);
        assert(break_text(None, i) == Seq::<char>::empty());
        assert(measure_text(ex, None, i) =~= o + r);
    }
}

proof fn lemma_no_breaks_counted(n: int)
    ensures
        break_count(None, n) == 0,
    decreases n,
{
    if n > 0 {
        lemma_no_breaks_counted(n - 1);
    }
}

/// Breaking every `k` measures opens `(n - 1) / k` new systems over `n`
/// measures: measures `k`, `2k`, … but never the first.
pub proof fn lemma_break_count(k: usize, n: int)
    requires
        k >= 1,
        n >= 1,
    ensures
        break_count(Some(k), n) == (n - 1) / (k as int),
    decreases n,
{
    reveal_strlit("\n          <print new-system=\"yes\"/>");
    let d = k as int;
    if n == 1 {
        assert(break_count(Some(k), 0) == 0);
        assert(break_text(Some(k), 0) == Seq::<char>::empty());
        lemma_fundamental_div_mod_converse(0, d, 0, 0);
    } else {
        lemma_break_count(k, n - 1);
        let m = n - 1;
        let q = (m - 1) / d;
        let r = (m - 1) % d;
        lemma_fundamental_div_mod(m - 1, d);
        assert(0 <= r < d);
        if r == d - 1 {
            assert((q + 1) * d == d * q + d) by (nonlinear_arith);
            lemma_fundamental_div_mod_converse(m, d, q + 1, 0);
            assert(break_text(Some(k), m).len() > 0);
        } else {
            lemma_fundamental_div_mod_converse(m, d, q, r + 1);
            assert(break_text(Some(k), m).len() == 0);
        }
    }
}

#[verifier::opaque]
pub open spec fn measure_text(ex: Exercise, breaks: Option<usize>, i: int) -> Seq<char> {
    "\n    <measure number=\""@ + int_text(i + 1) + "\">"@ + break_text(breaks, i)
        + (if i == 0 { attributes_text(ex) } else { Seq::empty() }) + measure_body(ex, i) + "\n    </measure>"@
}

pub open spec fn measures_text(ex: Exercise, breaks: Option<usize>, n: int) -> Seq<char>
    decreases n,
{
    if n <= 0 { Seq::empty() } else { measures_text(ex, breaks, n - 1) + measure_text(ex, breaks, n - 1) }
}

/// The whole MusicXML document for an exercise.
pub open spec fn encoding(ex: Exercise, breaks: Option<usize>) -> Seq<char> {
    "<?xml version=\"1.0\" encoding=\"UTF-8\"?>\n<score-partwise version=\"4.0\">\n  <part-list><score-part id=\"P1\"><part-name print-object=\"no\">Piano</part-name></score-part></part-list>\n  <part id=\"P1\">"@
        + measures_text(ex, breaks, ex.measure_count_spec())
        + "\n  </part>\n</score-partwise>"@
}

/// Appends one `<note>` element.
pub fn push_note_xml(out: &mut Vec<char>, note: &ScoreNote, fifths: i32, grand_staff: bool, voice: i32, tie: TieRole)
    ensures
        final(out)@ == old(out)@ + note_xml_spec(*note, fifths as int, grand_staff, voice as int, tie),
{
    reveal(note_xml_spec);
    match note.midi {
        None => push_rest_xml(out, note, grand_staff, voice),
        Some(midi) => {
            let s = PitchSpelling::spell(midi, fifths < 0);
            let ghost start = out@;
            push_pitch_head(out, note, s);
            let ghost mid = out@;
            push_pitch_tail(out, note, s, fifths, grand_staff, voice, tie);
            assert(out@ =~= start + (pitch_head(*note, s) + pitch_tail(*note, s, fifths as int, grand_staff, voice as int, tie)));
        },
    }
}

fn push_dot(out: &mut Vec<char>, d: NoteDuration)
    ensures
        final(out)@ == old(out)@ + dot_text(d),
{
    if d.is_dotted() {
        push_str(out, "<dot/>");
    } else {
        assert(out@ =~= old(out)@ + dot_text(d));
    }
}

fn push_rest_xml(out: &mut Vec<char>, note: &ScoreNote, grand_staff: bool, voice: i32)
    ensures
        final(out)@ == old(out)@ + rest_xml(*note, grand_staff, voice as int),
{
    let ghost s0 = out@;
    push_str(out, "\n      <note>\n        <rest/>\n        <duration>");
    push_int(out, note.duration.units() as i64);
    push_str(out, "</duration>\n        ");
    let ghost a = out@;
    assert(a =~= s0 + ("\n      <note>\n        <rest/>\n        <duration>"@ + int_text(note.duration.unit_count()) + "</duration>\n        "@));
    push_voice(out, grand_staff, voice);
    push_str(out, "<type>");
    push_str(out, note.duration.music_xml_type());
    push_str(out, "</type>");
    let ghost b = out@;
    assert(b =~= a + (voice_text(grand_staff, voice as int) + "<type>"@ + note.duration.xml_type() + "</type>"@));
    push_dot(out, note.duration);
    push_staff(out, grand_staff, note.staff);
    push_str(out, "\n      </note>");
    assert(out@ =~= b + (dot_text(note.duration) + staff_text(grand_staff, note.staff) + "\n      </note>"@));
    assert(out@ =~= s0 + rest_xml(*note, grand_staff, voice as int));
}

fn push_pitch_head(out: &mut Vec<char>, note: &ScoreNote, s: Spelling)
    requires
        -1 <= s.alter <= 1,
    ensures
        final(out)@ == old(out)@ + pitch_head(*note, s),
{
    let ghost s0 = out@;
    push_str(out, "\n      <note>\n        ");
    if note.chord_with_previous {
        push_str(out, "<chord/>");
    }
    push_str(out, "<pitch><step>");
    out.push(s.step);
    push_str(out, "</step>");
    let ghost a = out@;
    assert(a =~= s0 + ("\n      <note>\n        "@ + chord_text(note.chord_with_previous) + "<pitch><step>"@ + seq![s.step] + "</step>"@));
    if s.alter != 0 {
        push_str(out, "<alter>");
        push_int(out, s.alter as i64);
        push_str(out, "</alter>");
    }
    push_str(out, "<octave>");
    push_int(out, s.octave as i64);
    let ghost b = out@;
    assert(b =~= a + (alter_text(s.alter as int) + "<octave>"@ + int_text(s.octave as int)));
    push_str(out, "</octave></pitch>\n        <duration>");
    push_int(out, note.duration.units() as i64);
    push_str(out, "</duration>");
    assert(out@ =~= b + ("</octave></pitch>\n        <duration>"@ + int_text(note.duration.unit_count()) + "</duration>"@));
    assert(out@ =~= s0 + pitch_head(*note, s));
}

fn push_pitch_tail(out: &mut Vec<char>, note: &ScoreNote, s: Spelling, fifths: i32, grand_staff: bool, voice: i32, tie: TieRole)
    ensures
        final(out)@ == old(out)@ + pitch_tail(*note, s, fifths as int, grand_staff, voice as int, tie),
{
    let ghost s0 = out@;
    push_type_part(out, note, tie, grand_staff, voice);
    let ghost a = out@;
    push_dot(out, note.duration);
    push_accidental(out, s, fifths);
    push_staff(out, grand_staff, note.staff);
    let ghost b = out@;
    assert(b =~= a + marks_part(*note, s, fifths as int, grand_staff));
    push_notations(out, tie);
    push_str(out, "\n      </note>");
    assert(out@ =~= b + (notations_text(tie) + "\n      </note>"@));
    assert(out@ =~= s0 + pitch_tail(*note, s, fifths as int, grand_staff, voice as int, tie));
}

fn push_type_part(out: &mut Vec<char>, note: &ScoreNote, tie: TieRole, grand_staff: bool, voice: i32)
    ensures
        final(out)@ == old(out)@ + type_part(*note, tie, grand_staff, voice as int),
{
    let ghost s0 = out@;
    push_ties(out, tie);
    push_str(out, "\n        ");
    push_voice(out, grand_staff, voice);
    push_str(out, "<type>");
    push_str(out, note.duration.music_xml_type());
    push_str(out, "</type>");
    assert(out@ =~= s0 + type_part(*note, tie, grand_staff, voice as int));
}

fn push_ties(out: &mut Vec<char>, tie: TieRole)
    ensures
        final(out)@ == old(out)@ + tie_text(tie),
{
    let ghost s0 = out@;
    if tie.stop {
        push_str(out, "<tie type=\"stop\"/>");
    }
    if tie.start {
        push_str(out, "<tie type=\"start\"/>");
    }
    assert(out@ =~= s0 + tie_text(tie));
}

fn push_accidental(out: &mut Vec<char>, s: Spelling, fifths: i32)
    ensures
        final(out)@ == old(out)@ + accidental_text(s, fifths as int),
{
    if s.alter != key_alteration_of(s.step, fifths) {
        if s.alter < 0 {
            push_str(out, "<accidental>flat</accidental>");
        } else if s.alter == 0 {
            push_str(out, "<accidental>natural</accidental>");
        } else {
            push_str(out, "<accidental>sharp</accidental>");
        }
    } else {
        assert(out@ =~= old(out)@ + accidental_text(s, fifths as int));
    }
}

fn push_notations(out: &mut Vec<char>, tie: TieRole)
    ensures
        final(out)@ == old(out)@ + notations_text(tie),
{
    if tie.stop || tie.start {
        let ghost s0 = out@;
        push_str(out, "<notations>");
        if tie.stop {
            push_str(out, "<tied type=\"stop\"/>");
        }
        if tie.start {
            push_str(out, "<tied type=\"start\"/>");
        }
        push_str(out, "</notations>");
        assert(out@ =~= s0 + notations_text(tie));
    } else {
        assert(out@ =~= old(out)@ + notations_text(tie));
    }
}

fn push_voice(out: &mut Vec<char>, grand_staff: bool, voice: i32)
    ensures
        final(out)@ == old(out)@ + voice_text(grand_staff, voice as int),
{
    if grand_staff {
        let ghost start = out@;
        push_str(out, "<voice>");
        push_int(out, voice as i64);
        push_str(out, "</voice>");
        assert(out@ =~= start + voice_text(grand_staff, voice as int));
    } else {
        assert(out@ =~= old(out)@ + voice_text(grand_staff, voice as int));
    }
}

fn push_staff(out: &mut Vec<char>, grand_staff: bool, staff: Staff)
    ensures
        final(out)@ == old(out)@ + staff_text(grand_staff, staff),
{
    if grand_staff {
        let ghost start = out@;
        push_str(out, "<staff>");
        if staff == Staff::Bass {
            push_str(out, "2");
        } else {
            push_str(out, "1");
        }
        push_str(out, "</staff>");
        assert(out@ =~= start + staff_text(grand_staff, staff));
    } else {
        assert(out@ =~= old(out)@ + staff_text(grand_staff, staff));
    }
}


/// Appends the notes of one measure, routed and tie-roled from `offset`.
fn push_notes(
    out: &mut Vec<char>,
    ns: &Vec<ScoreNote>,
    roles: &Vec<TieRole>,
    offset: usize,
    fifths: i32,
    grand_staff: bool,
    voice: i32,
    to_bass: bool,
)
    requires
        offset + ns@.len() <= roles@.len(),
    ensures
        final(out)@ == old(out)@ + notes_text(ns@, roles@, offset as int, fifths as int, grand_staff, voice as int, to_bass),
{
    let ghost s0 = out@;
    let mut j: usize = 0;
    while j < ns.len()
        invariant
            j <= ns@.len(),
            offset + ns@.len() <= roles@.len(),
            out@ == s0 + notes_text(ns@.take(j as int), roles@, offset as int, fifths as int, grand_staff, voice as int, to_bass),
        decreases ns.len() - j,
    {
        let note = ns[j];
        let shown = if to_bass { ScoreNote { staff: Staff::Bass, ..note } } else { note };
        let ghost before = out@;
        let n_roles = roles.len();
        assert(offset + j < n_roles);
        push_note_xml(out, &shown, fifths, grand_staff, voice, roles[offset + j]);
        proof {
            let t = ns@.take(j + 1);
            assert(t.drop_last() =~= ns@.take(j as int));
            assert(t.last() == note);
            assert(out@ =~= s0 + notes_text(t, roles@, offset as int, fifths as int, grand_staff, voice as int, to_bass));
        }
        j = j + 1;
    }
    proof {
        assert(ns@.take(ns@.len() as int) =~= ns@);
    }
}

/// The time a measure's notes take.
fn measure_units(ns: &Vec<ScoreNote>) -> (u: i32)
    requires
        voice_fits(ns@),
    ensures
        u as int == units_sum(ns@),
{
    let mut total: i32 = 0;
    let mut j: usize = 0;
    while j < ns.len()
        invariant
            j <= ns@.len(),
            voice_fits(ns@),
            0 <= total <= 8 * j,
            total as int == units_sum(ns@.take(j as int)),
        decreases ns.len() - j,
    {
        let note = ns[j];
        proof {
            let t = ns@.take(j + 1);
            assert(t.drop_last() =~= ns@.take(j as int));
            assert(t.last() == note);
        }
        if !note.chord_with_previous {
            total = total + note.duration.units();
        }
        j = j + 1;
    }
    proof {
        assert(ns@.take(ns@.len() as int) =~= ns@);
    }
    total
}

fn has_bass_staff(notes: &Vec<ScoreNote>) -> (b: bool)
    ensures
        b == exists|k: int| 0 <= k < notes@.len() && #[trigger] notes@[k].staff == Staff::Bass,
{
    let mut k: usize = 0;
    while k < notes.len()
        invariant
            k <= notes@.len(),
            forall|t: int| 0 <= t < k ==> notes@[t].staff != Staff::Bass,
        decreases notes.len() - k,
    {
        if notes[k].staff == Staff::Bass {
            return true;
        }
        k = k + 1;
    }
    false
}

fn push_attributes(out: &mut Vec<char>, ex: &Exercise, grand_staff: bool, bass_only: bool)
    requires
        grand_staff == ex.grand_staff(),
        bass_only == ex.bass_only(),
    ensures
        final(out)@ == old(out)@ + attributes_text(*ex),
{
    let ghost s0 = out@;
    push_str(out, "\n      <attributes>\n        <divisions>2</divisions>\n        <key><fifths>");
    push_int(out, ex.fifths as i64);
    push_str(out, "</fifths></key>\n        <time><beats>");
    push_int(out, ex.beats_per_measure as i64);
    push_str(out, "</beats><beat-type>4</beat-type></time>");
    let ghost a = out@;
    if grand_staff {
        push_str(out, "\n        <staves>2</staves>\n        <clef number=\"1\"><sign>G</sign><line>2</line></clef>\n        <clef number=\"2\"><sign>F</sign><line>4</line></clef>");
    } else if bass_only {
        push_str(out, "\n        <clef><sign>F</sign><line>4</line></clef>");
    } else {
        push_str(out, "\n        <clef><sign>G</sign><line>2</line></clef>");
    }
    push_str(out, "\n      </attributes>");
    assert(out@ =~= a + (clefs_text(grand_staff, bass_only) + "\n      </attributes>"@));
    assert(out@ =~= s0 + attributes_text(*ex));
}

/// Appends measure `i`'s body.
fn push_measure_body(
    out: &mut Vec<char>,
    ex: &Exercise,
    i: usize,
    treble: &Vec<Vec<ScoreNote>>,
    bass: &Vec<Vec<ScoreNote>>,
    treble_roles: &Vec<TieRole>,
    bass_roles: &Vec<TieRole>,
    treble_index: usize,
    bass_index: usize,
    grand_staff: bool,
    bass_only: bool,
)
    requires
        ex.meter_fits(),
        voice_fits(ex.notes@),
        voice_fits(ex.bass_notes@),
        measure_views(treble@) == measures_spec(ex.notes@, ex.upm()),
        measure_views(bass@) == measures_spec(ex.bass_notes@, ex.upm()),
        treble_roles@ == tie_roles_spec(ex.notes@),
        bass_roles@ == tie_roles_spec(ex.bass_notes@),
        i < treble@.len() ==> treble_index as int == prefix_len(measures_spec(ex.notes@, ex.upm()), i as int),
        i < bass@.len() ==> bass_index as int == prefix_len(measures_spec(ex.bass_notes@, ex.upm()), i as int),
        grand_staff == ex.grand_staff(),
        bass_only == ex.bass_only(),
    ensures
        final(out)@ == old(out)@ + measure_body(*ex, i as int),
{
    let ghost tm = measures_spec(ex.notes@, ex.upm());
    let ghost bm = measures_spec(ex.bass_notes@, ex.upm());
    proof {
        lemma_measures_partition_voice(ex.notes@, ex.upm());
        lemma_measures_partition_voice(ex.bass_notes@, ex.upm());
        if i < treble@.len() {
            assert(prefix_len(tm, i + 1) <= prefix_len(tm, tm.len() as int));
            assert(treble@[i as int]@ == tm[i as int]);
        }
        if i < bass@.len() {
            assert(prefix_len(bm, i + 1) <= prefix_len(bm, bm.len() as int));
            assert(bass@[i as int]@ == bm[i as int]);
        }
    }
    if bass_only {
        if i < bass.len() {
            push_notes(out, &bass[i], bass_roles, bass_index, ex.fifths, false, 1, false);
        }
        return;
    }
    let empty: Vec<ScoreNote> = Vec::new();
    let treble_measure: &Vec<ScoreNote> = if i < treble.len() { &treble[i] } else { &empty };
    let ghost s0 = out@;
    if i < treble.len() {
        push_notes(out, treble_measure, treble_roles, treble_index, ex.fifths, grand_staff, 1, false);
    } else {
        assert(notes_text(treble_measure@, treble_roles@, prefix_len(tm, i as int), ex.fifths as int, grand_staff, 1, false)
            =~= Seq::<char>::empty());
        assert(out@ =~= s0 + notes_text(treble_measure@, treble_roles@, prefix_len(tm, i as int), ex.fifths as int, grand_staff, 1, false));
    }
    let ghost a = out@;
    if i < bass.len() && bass[i].len() > 0 {
        proof {
            if i < treble@.len() {
                assert(treble_measure@.len() <= ex.notes@.len());
            }
        }
        let treble_units = measure_units(treble_measure);
        push_str(out, "\n      <backup><duration>");
        push_int(out, treble_units as i64);
        push_str(out, "</duration></backup>");
        push_notes(out, &bass[i], bass_roles, bass_index, ex.fifths, grand_staff, 2, true);
        assert(out@ =~= a + ("\n      <backup><duration>"@ + int_text(units_sum(treble_measure@)) + "</duration></backup>"@
            + notes_text(bm[i as int], bass_roles@, prefix_len(bm, i as int), ex.fifths as int, grand_staff, 2, true)));
    } else {
        assert(out@ =~= a + Seq::<char>::empty());
    }
}

/// Appends measure `i`.
fn push_measure(
    out: &mut Vec<char>,
    ex: &Exercise,
    breaks: Option<usize>,
    i: usize,
    treble: &Vec<Vec<ScoreNote>>,
    bass: &Vec<Vec<ScoreNote>>,
    treble_roles: &Vec<TieRole>,
    bass_roles: &Vec<TieRole>,
    treble_index: usize,
    bass_index: usize,
    grand_staff: bool,
    bass_only: bool,
)
    requires
        i < 0x7fff_ffff,
        breaks == Some(0usize) ==> i == 0,
        ex.meter_fits(),
        voice_fits(ex.notes@),
        voice_fits(ex.bass_notes@),
        measure_views(treble@) == measures_spec(ex.notes@, ex.upm()),
        measure_views(bass@) == measures_spec(ex.bass_notes@, ex.upm()),
        treble_roles@ == tie_roles_spec(ex.notes@),
        bass_roles@ == tie_roles_spec(ex.bass_notes@),
        i < treble@.len() ==> treble_index as int == prefix_len(measures_spec(ex.notes@, ex.upm()), i as int),
        i < bass@.len() ==> bass_index as int == prefix_len(measures_spec(ex.bass_notes@, ex.upm()), i as int),
        grand_staff == ex.grand_staff(),
        bass_only == ex.bass_only(),
    ensures
        final(out)@ == old(out)@ + measure_text(*ex, breaks, i as int),
{
    reveal(measure_text);
    let ghost before = out@;
    push_str(out, "\n    <measure number=\"");
    push_int(out, i as i64 + 1);
    push_str(out, "\">");
    match breaks {
        Some(n) => {
            if i > 0 && i % n == 0 {
                push_str(out, "\n          <print new-system=\"yes\"/>");
            }
        },
        None => {},
    }
    let ghost a = out@;
    assert(a =~= before + ("\n    <measure number=\""@ + int_text(i + 1) + "\">"@ + break_text(breaks, i as int)));
    if i == 0 {
        push_attributes(out, ex, grand_staff, bass_only);
    }
    let ghost b = out@;
    assert(b =~= a + (if i == 0 { attributes_text(*ex) } else { Seq::empty() }));
    push_measure_body(out, ex, i, treble, bass, treble_roles, bass_roles, treble_index, bass_index, grand_staff, bass_only);
    push_str(out, "\n    </measure>");
    assert(out@ =~= b + (measure_body(*ex, i as int) + "\n    </measure>"@));
    assert(out@ =~= before + measure_text(*ex, breaks, i as int));
}

impl MusicXmlEncoder {
    /// Eighth-note units per quarter.
    pub const DIVISIONS: i32 = 2;

    /// The exercise as a MusicXML document.
    pub fn encode(exercise: &Exercise) -> (s: String)
        requires
            exercise.meter_fits(),
            voice_fits(exercise.notes@),
            voice_fits(exercise.bass_notes@),
        ensures
            s@ == encoding(*exercise, None),
    {
        Self::encode_with_breaks(exercise, None)
    }

    /// The exercise as a MusicXML document with a system break opening
    /// every `system_break_every`-th measure after the first.
    pub fn encode_with_breaks(exercise: &Exercise, system_break_every: Option<usize>) -> (s: String)
        requires
            exercise.meter_fits(),
            voice_fits(exercise.notes@),
            voice_fits(exercise.bass_notes@),
            system_break_every == Some(0usize) ==> exercise.measure_count_spec() <= 1,
        ensures
            s@ == encoding(*exercise, system_break_every),
    {
        let bass_only = exercise.is_bass_only();
        let grand_staff = !bass_only && (exercise.is_two_voice() || has_bass_staff(&exercise.notes));
        let treble = exercise.measures();
        let bass = exercise.bass_measures();
        let treble_roles = Exercise::tie_roles(exercise.notes.as_slice());
        let bass_roles = Exercise::tie_roles(exercise.bass_notes.as_slice());
        let ghost tm = measures_spec(exercise.notes@, exercise.upm());
        let ghost bm = measures_spec(exercise.bass_notes@, exercise.upm());
        let mut treble_index: usize = 0;
        let mut bass_index: usize = 0;
        let count = exercise.measure_count();
        let mut out: Vec<char> = Vec::new();
        push_str(&mut out, "<?xml version=\"1.0\" encoding=\"UTF-8\"?>\n<score-partwise version=\"4.0\">\n  <part-list><score-part id=\"P1\"><part-name print-object=\"no\">Piano</part-name></score-part></part-list>\n  <part id=\"P1\">");
        let ghost head = out@;
        proof {
            lemma_measures_partition_voice(exercise.notes@, exercise.upm());
            lemma_measures_partition_voice(exercise.bass_notes@, exercise.upm());
        }
        proof {
            assert(count <= 0x0fff_ffff);
        }
        let mut i: usize = 0;
        while i < count
            invariant
                i <= count,
                count <= 0x0fff_ffff,
                count as int == exercise.measure_count_spec(),
                exercise.meter_fits(),
                voice_fits(exercise.notes@),
                voice_fits(exercise.bass_notes@),
                system_break_every == Some(0usize) ==> exercise.measure_count_spec() <= 1,
                tm == measures_spec(exercise.notes@, exercise.upm()),
                bm == measures_spec(exercise.bass_notes@, exercise.upm()),
                measure_views(treble@) == tm,
                measure_views(bass@) == bm,
                treble_roles@ == tie_roles_spec(exercise.notes@),
                bass_roles@ == tie_roles_spec(exercise.bass_notes@),
                i <= treble@.len() ==> treble_index as int == prefix_len(tm, i as int),
                i <= bass@.len() ==> bass_index as int == prefix_len(bm, i as int),
                grand_staff == exercise.grand_staff(),
                bass_only == exercise.bass_only(),
                out@ == head + measures_text(*exercise, system_break_every, i as int),
            decreases count - i,
        {
            push_measure(&mut out, exercise, system_break_every, i, &treble, &bass, &treble_roles, &bass_roles,
                treble_index, bass_index, grand_staff, bass_only);
            proof {
                lemma_measures_partition_voice(exercise.notes@, exercise.upm());
                lemma_measures_partition_voice(exercise.bass_notes@, exercise.upm());
                assert(out@ =~= head + measures_text(*exercise, system_break_every, i + 1));
            }
            if !bass_only && i < treble.len() {
                proof {
                    assert(treble@[i as int]@ == tm[i as int]);
                    assert(prefix_len(tm, i + 1) <= prefix_len(tm, tm.len() as int));
                }
                treble_index = treble_index + treble[i].len();
            }
            if i < bass.len() && (bass_only || bass[i].len() > 0) {
                proof {
                    assert(bass@[i as int]@ == bm[i as int]);
                    assert(prefix_len(bm, i + 1) <= prefix_len(bm, bm.len() as int));
                }
                bass_index = bass_index + bass[i].len();
            }
            proof {
                if bass_only && i + 1 <= treble@.len() {
                    assert(tm.len() == 0);
                }
                if !bass_only && i < bass@.len() && !(bass@[i as int].len() > 0) {
                    assert(bass@[i as int]@ == bm[i as int]);
                }
            }
            i = i + 1;
        }
        push_str(&mut out, "\n  </part>\n</score-partwise>");
        assert(out@ =~= encoding(*exercise, system_break_every));
        to_string(&out)
    }

    /// The alteration a key signature applies to a letter (+1/−1/0).
    pub fn key_alteration(step: &str, fifths: i32) -> (a: i32)
        ensures
            a as int == key_alteration_spec(step@, fifths as int),
    {
        let chars = chars_of(step);
        if chars.len() != 1 {
            return 0;
        }
        let a = key_alteration_of(chars[0], fifths);
        assert(chars@ =~= seq![chars@[0]]);
        a
    }
}

/// Exposed for tests that pin single elements.
pub fn note_xml(note: &ScoreNote, fifths: i32, grand_staff: bool, voice: i32, tie: TieRole) -> (s: String)
    ensures
        s@ == note_xml_spec(*note, fifths as int, grand_staff, voice as int, tie),
{
    let mut out: Vec<char> = Vec::new();
    push_note_xml(&mut out, note, fifths, grand_staff, voice, tie);
    assert(out@ =~= note_xml_spec(*note, fifths as int, grand_staff, voice as int, tie));
    to_string(&out)
}

} // verus!
