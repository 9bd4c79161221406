//! What the importer reads back of what the encoder writes: the element
//! tree an encoded exercise spells out, and the proof that importing that
//! tree gives the exercise back.

use vstd::prelude::*;
use crate::pitch::{spell_spec, step_letter, sharp_step_index, is_black, octave_of, Spelling};
use crate::score::importer::{note_spec, pitch_spec, has_tie_stop, step_index, step_semitones, attributes_spec, clef_ok, initial_state, ImportState, notes_from, measure_spec, import_spec, import_bytes, title_spec, PieceSpec};
use crate::score::encoder::{encoding, routed, units_sum};
use crate::score::model::{concat_all, lemma_measures_partition_voice, lemma_measure_note_at, measures_from, measures_spec, prefix_len, tie_roles_spec, Exercise, NoteDuration, ScoreNote, Staff, TieRole};
use crate::score::xml::{document, named, text_at, first_named, attribute_of, string_value, children_value, int_at, Tree, lemma_first_named_at};
use crate::text::{int_text, trim, trim_start, trim_end, is_space, parse_i32, lemma_int_text_parses};
use crate::score::importer::ImportFailure;

verus! {

/// An element with attributes, children and its own text.
pub open spec fn element(name: Seq<char>, attributes: Seq<(Seq<char>, Seq<char>)>, children: Seq<Tree>, text: Seq<char>) -> Tree {
    Tree { name, attributes, children, text }
}

/// An element holding only text.
pub open spec fn leaf(name: Seq<char>, text: Seq<char>) -> Tree {
    Tree { name, attributes: Seq::empty(), children: Seq::empty(), text }
}

/// `seq![t]` when `c`, else nothing.
pub open spec fn opt(c: bool, t: Tree) -> Seq<Tree> {
    if c { seq![t] } else { Seq::empty() }
}

/// `<tie type="…"/>`.
pub open spec fn tie_tree(kind: Seq<char>) -> Tree {
    element("tie"@, seq![("type"@, kind)], Seq::empty(), Seq::empty())
}

/// `<tied type="…"/>`.
pub open spec fn tied_tree(kind: Seq<char>) -> Tree {
    element("tied"@, seq![("type"@, kind)], Seq::empty(), Seq::empty())
}

/// The voice and staff children of a grand-staff note.
pub open spec fn voice_tree(voice: int) -> Tree {
    leaf("voice"@, int_text(voice))
}

pub open spec fn staff_tree(staff: Staff) -> Tree {
    leaf("staff"@, int_text(staff_number(staff)))
}

/// The staff number a note's staff is written as.
pub open spec fn staff_number(staff: Staff) -> int {
    if staff == Staff::Bass { 2 } else { 1 }
}

/// The whitespace directly inside a `<note>` element.
pub open spec fn note_text() -> Seq<char> {
    "\n        "@ + "\n        "@ + "\n        "@ + "\n      "@
}

/// `<pitch>`: step, alteration when there is one, octave.
pub open spec fn pitch_tree(s: Spelling) -> Tree {
    element(
        "pitch"@,
        Seq::empty(),
        seq![leaf("step"@, seq![s.step])] + opt(s.alter != 0, leaf("alter"@, int_text(s.alter as int)))
            + seq![leaf("octave"@, int_text(s.octave as int))],
        Seq::empty(),
    )
}

/// The accidental glyph name of a spelling that contradicts the key.
pub open spec fn accidental_name(s: Spelling) -> Seq<char> {
    if s.alter < 0 { "flat"@ } else if s.alter == 0 { "natural"@ } else { "sharp"@ }
}

/// `<notations>` with the tie arcs.
pub open spec fn notations_tree(tie: TieRole) -> Tree {
    element(
        "notations"@,
        Seq::empty(),
        opt(tie.stop, tied_tree("stop"@)) + opt(tie.start, tied_tree("start"@)),
        Seq::empty(),
    )
}

/// The `<note>` element the encoder writes for a note.
pub open spec fn note_tree(note: ScoreNote, fifths: int, grand: bool, voice: int, tie: TieRole) -> Tree {
    let d = note.duration;
    let duration = leaf("duration"@, int_text(d.unit_count()));
    let kind = leaf("type"@, d.xml_type());
    let dot = opt(d.dotted(), element("dot"@, Seq::empty(), Seq::empty(), Seq::empty()));
    let voices = opt(grand, voice_tree(voice));
    let staves = opt(grand, staff_tree(note.staff));
    match note.midi {
        None => element(
            "note"@,
            Seq::empty(),
            seq![element("rest"@, Seq::empty(), Seq::empty(), Seq::empty()), duration] + (voices + (seq![kind] + (dot + staves))),
            note_text(),
        ),
        Some(m) => {
            let s = spell_spec(m as int, fifths < 0);
            let accidental = opt(
                s.alter as int != crate::pitch::key_alteration_spec(seq![s.step], fifths),
                leaf("accidental"@, accidental_name(s)),
            );
            element(
                "note"@,
                Seq::empty(),
                opt(note.chord_with_previous, element("chord"@, Seq::empty(), Seq::empty(), Seq::empty()))
                    + (seq![pitch_tree(s), duration]
                    + (opt(tie.stop, tie_tree("stop"@)) + (opt(tie.start, tie_tree("start"@))
                    + (voices + (seq![kind] + (dot + (accidental + (staves
                    + opt(tie.stop || tie.start, notations_tree(tie)))))))))),
                note_text(),
            )
        },
    }
}

/// `n` copies of `s`, one after another.
pub open spec fn repeat(s: Seq<char>, n: nat) -> Seq<char>
    decreases n,
{
    if n == 0 { Seq::empty() } else { repeat(s, (n - 1) as nat) + s }
}

/// A `<clef>` with its sign and line.
pub open spec fn clef_tree(attributes: Seq<(Seq<char>, Seq<char>)>, sign: Seq<char>, line: int) -> Tree {
    element("clef"@, attributes, seq![leaf("sign"@, sign), leaf("line"@, int_text(line))], Seq::empty())
}

/// The `<attributes>` of a score's first measure: divisions, key and
/// meter, then a treble clef, or two staves with treble and bass clefs.
pub open spec fn attributes_tree(fifths: int, beats: int, grand: bool) -> Tree {
    let common = seq![
        leaf("divisions"@, int_text(2)),
        element("key"@, Seq::empty(), seq![leaf("fifths"@, int_text(fifths))], Seq::empty()),
        element("time"@, Seq::empty(), seq![leaf("beats"@, int_text(beats)), leaf("beat-type"@, int_text(4))], Seq::empty()),
    ];
    let staves = if grand {
        seq![
            leaf("staves"@, int_text(2)),
            clef_tree(seq![("number"@, "1"@)], "G"@, 2),
            clef_tree(seq![("number"@, "2"@)], "F"@, 4),
        ]
    } else {
        seq![clef_tree(Seq::empty(), "G"@, 2)]
    };
    element("attributes"@, Seq::empty(), common + staves, repeat("\n        "@, common.len() + staves.len()) + "\n      "@)
}

/// Whether measure `i` opens a new system.
pub open spec fn opens_system(breaks: Option<usize>, i: int) -> bool {
    match breaks {
        Some(n) => i > 0 && n > 0 && i % (n as int) == 0,
        None => false,
    }
}

/// `<print new-system="yes"/>`.
pub open spec fn print_tree() -> Tree {
    element("print"@, seq![("new-system"@, "yes"@)], Seq::empty(), Seq::empty())
}

/// `<backup>` rewinding `units` eighths.
pub open spec fn backup_tree(units: int) -> Tree {
    element("backup"@, Seq::empty(), seq![leaf("duration"@, int_text(units))], Seq::empty())
}

/// The `<note>` elements of one voice's measure whose first note is note
/// `offset` of the voice.
pub open spec fn note_trees(
    ns: Seq<ScoreNote>,
    roles: Seq<TieRole>,
    offset: int,
    fifths: int,
    grand: bool,
    voice: int,
    to_bass: bool,
) -> Seq<Tree> {
    Seq::new(ns.len(), |j: int| note_tree(routed(ns[j], to_bass), fifths, grand, voice, roles[offset + j]))
}

/// The treble notes of measure `i` (none past the treble's last measure).
pub open spec fn treble_of(ex: Exercise, i: int) -> Seq<ScoreNote> {
    let tm = measures_spec(ex.notes@, ex.upm());
    if 0 <= i < tm.len() { tm[i] } else { Seq::empty() }
}

/// Whether measure `i` holds bass notes.
pub open spec fn has_bass(ex: Exercise, i: int) -> bool {
    let bm = measures_spec(ex.bass_notes@, ex.upm());
    0 <= i < bm.len() && bm[i].len() > 0
}

/// Measure `i` of a score with treble notes: its treble notes, then,
/// rewound by `<backup>`, its bass notes on staff 2.
pub open spec fn measure_tree(ex: Exercise, breaks: Option<usize>, i: int) -> Tree {
    let tm = measures_spec(ex.notes@, ex.upm());
    let bm = measures_spec(ex.bass_notes@, ex.upm());
    let grand = ex.grand_staff();
    let f = ex.fifths as int;
    let treble = treble_of(ex, i);
    let bass_part = if has_bass(ex, i) {
        seq![backup_tree(units_sum(treble))]
            + note_trees(bm[i], tie_roles_spec(ex.bass_notes@), prefix_len(bm, i), f, grand, 2, true)
    } else {
        Seq::empty()
    };
    element(
        "measure"@,
        seq![("number"@, int_text(i + 1))],
        opt(opens_system(breaks, i), print_tree())
            + (opt(i == 0, attributes_tree(f, ex.beats_per_measure as int, grand))
            + (note_trees(treble, tie_roles_spec(ex.notes@), prefix_len(tm, i), f, grand, 1, false) + bass_part)),
        (if opens_system(breaks, i) { "\n          "@ } else { Seq::empty() })
            + (if i == 0 { "\n      "@ } else { Seq::empty() }) + repeat("\n      "@, treble.len())
            + (if has_bass(ex, i) { "\n      "@ + repeat("\n      "@, bm[i].len()) } else { Seq::empty() }) + "\n    "@,
    )
}

/// The document element the encoding of an exercise with treble notes
/// spells out.
pub open spec fn score_tree(ex: Exercise, breaks: Option<usize>) -> Tree {
    let count = ex.measure_count_spec() as nat;
    element(
        "score-partwise"@,
        seq![("version"@, "4.0"@)],
        seq![
            element(
                "part-list"@,
                Seq::empty(),
                seq![element(
                    "score-part"@,
                    seq![("id"@, "P1"@)],
                    seq![element("part-name"@, seq![("print-object"@, "no"@)], Seq::empty(), "Piano"@)],
                    Seq::empty(),
                )],
                Seq::empty(),
            ),
            element(
                "part"@,
                seq![("id"@, "P1"@)],
                Seq::new(count, |i: int| measure_tree(ex, breaks, i)),
                repeat("\n    "@, count) + "\n  "@,
            ),
        ],
        "\n  "@ + "\n  "@ + "\n"@,
    )
}

/// A note the encoding carries through the importer: on `staff`, a pitch
/// MIDI defines, and a rest neither joined to a chord nor tied.
pub open spec fn plain_note(n: ScoreNote, staff: Staff) -> bool {
    &&& n.staff == staff
    &&& n.midi is Some ==> n.midi->0 <= 127
    &&& n.midi is None ==> !n.chord_with_previous && !n.tied_from_previous
}

/// An exercise whose encoding reads back whole: a positive meter, a key
/// signature of at most seven accidentals, at least one sounded treble
/// note, plain notes on the treble staff in the treble voice and on the
/// bass staff in the bass voice, a bass voice (if any) spanning as many
/// measures as the treble, and no measure whose notes run past its
/// barline.
pub open spec fn round_trippable(ex: Exercise) -> bool {
    let tm = measures_spec(ex.notes@, ex.upm());
    let bm = measures_spec(ex.bass_notes@, ex.upm());
    &&& 1 <= ex.beats_per_measure < 0x4000_0000
    &&& -7 <= ex.fifths <= 7
    &&& exists|k: int| 0 <= k < ex.notes@.len() && (#[trigger] ex.notes@[k]).midi is Some
    &&& forall|k: int| 0 <= k < ex.notes@.len() ==> plain_note(#[trigger] ex.notes@[k], Staff::Treble)
    &&& forall|k: int| 0 <= k < ex.bass_notes@.len() ==> plain_note(#[trigger] ex.bass_notes@[k], Staff::Bass)
    &&& ex.bass_notes@.len() > 0 ==> bm.len() == tm.len()
    &&& forall|i: int| 0 <= i < tm.len() ==> units_sum(#[trigger] tm[i]) <= ex.upm()
    &&& forall|i: int| 0 <= i < bm.len() ==> units_sum(#[trigger] bm[i]) <= ex.upm()
}

/// The staves a score is written on.
pub open spec fn staves_of(ex: Exercise) -> int {
    if ex.grand_staff() { 2 } else { 1 }
}

/// The import state once measure `i` and those before it are read.
pub open spec fn state_after(ex: Exercise, i: int) -> ImportState {
    ImportState {
        divisions: 2,
        fifths: ex.fifths as int,
        beats: ex.beats_per_measure as int,
        staves: staves_of(ex),
        treble: concat_first(measures_spec(ex.notes@, ex.upm()), i + 1),
        bass: concat_first(measures_spec(ex.bass_notes@, ex.upm()), i + 1),
    }
}

/// How a `<note>` element reads: as note `n`, on staff `sn`, once the
/// importer has routed it to its voice.
pub open spec fn reads_as(t: Tree, n: ScoreNote, sn: int) -> bool {
    match note_spec(t, 2) {
        Ok((x, k)) => k == sn && (if sn == 2 { ScoreNote { staff: Staff::Bass, ..x } } else { x }) == n,
        Err(_) => false,
    }
}

/// The first `k` measures laid end to end.
pub open spec fn concat_first(ms: Seq<Seq<ScoreNote>>, k: int) -> Seq<ScoreNote>
    decreases k,
{
    if k <= 0 || k > ms.len() { Seq::empty() } else { concat_first(ms, k - 1) + ms[k - 1] }
}

// ── Looking children up by name ────────────────────────────────────────

/// A lookup among children none of which bears the name finds nothing.
pub proof fn lemma_first_named_none(cs: Seq<Tree>, name: Seq<char>)
    requires
        forall|j: int| 0 <= j < cs.len() ==> (#[trigger] cs[j]).name != name,
    ensures
        first_named(cs, name) is None,
{
    lemma_first_named_at(cs, name, cs.len() as int);
}

/// A leaf's string value is its text.
pub proof fn lemma_leaf_value(name: Seq<char>, text: Seq<char>)
    ensures
        string_value(leaf(name, text)) == text,
{
    let t = leaf(name, text);
    assert(children_value(t.children, 0) == Seq::<char>::empty());
    assert(text + Seq::<char>::empty() =~= text);
}

/// Text without surrounding whitespace trims to itself.
pub proof fn lemma_trim_unspaced(s: Seq<char>)
    requires
        s.len() > 0,
        !is_space(s[0]),
        !is_space(s.last()),
    ensures
        trim(s) == s,
{
    assert(trim_start(s) == s);
    assert(trim_end(s) == s);
}

/// An integer leaf reads back as its value.
pub proof fn lemma_int_leaf_reads_back(parent: Tree, k: int, name: Seq<char>, v: int)
    requires
        0 <= k < parent.children.len(),
        parent.children[k] == leaf(name, int_text(v)),
        forall|j: int| 0 <= j < k ==> (#[trigger] parent.children[j]).name != name,
        i32::MIN <= v <= i32::MAX,
    ensures
        int_at(parent, name) == Some(v),
{
    lemma_first_named_at(parent.children, name, k);
    lemma_leaf_value(name, int_text(v));
    lemma_int_text_parses(v);
}

/// Every note value's length in eighths names it back.
pub proof fn lemma_units_name_duration(d: NoteDuration)
    ensures
        NoteDuration::with_units(d.unit_count()) == Some(d),
{
}


/// Looking a name up in two runs of children: the first run's match, else
/// the second's.
pub proof fn lemma_first_named_concat(a: Seq<Tree>, b: Seq<Tree>, name: Seq<char>)
    ensures
        first_named(a + b, name) == (match first_named(a, name) {
            Some(t) => Some(t),
            None => first_named(b, name),
        }),
    decreases a.len(),
{
    if a.len() > 0 {
        assert((a + b).drop_first() =~= a.drop_first() + b);
        assert((a + b)[0] == a[0]);
        lemma_first_named_concat(a.drop_first(), b, name);
    } else {
        assert(a + b =~= b);
    }
}

pub proof fn lemma_first_named_single(t: Tree, name: Seq<char>)
    ensures
        first_named(seq![t], name) == (if t.name == name { Some(t) } else { None::<Tree> }),
{
    reveal_with_fuel(first_named, 2);
    assert(seq![t].drop_first() =~= Seq::<Tree>::empty());
}

pub proof fn lemma_first_named_opt(c: bool, t: Tree, name: Seq<char>)
    ensures
        first_named(opt(c, t), name) == (if c && t.name == name { Some(t) } else { None::<Tree> }),
{
    lemma_first_named_single(t, name);
}

/// A letter reads back as its letter index.
pub proof fn lemma_step_letter_reads_back(i: int)
    requires
        0 <= i <= 6,
    ensures
        step_index(seq![step_letter(i)]) == Some(i),
{
    reveal_strlit("C");
    reveal_strlit("D");
    reveal_strlit("E");
    reveal_strlit("F");
    reveal_strlit("G");
    reveal_strlit("A");
    reveal_strlit("B");
    let s = seq![step_letter(i)];
    if i == 0 { assert(s =~= "C"@); }
    else if i == 1 { assert(s =~= "D"@); assert(s[0] != "C"@[0]); }
    else if i == 2 { assert(s =~= "E"@); assert(s[0] != "C"@[0] && s[0] != "D"@[0]); }
    else if i == 3 { assert(s =~= "F"@); assert(s[0] != "C"@[0] && s[0] != "D"@[0] && s[0] != "E"@[0]); }
    else if i == 4 { assert(s =~= "G"@); assert(s[0] != "C"@[0] && s[0] != "D"@[0] && s[0] != "E"@[0] && s[0] != "F"@[0]); }
    else if i == 5 {
        assert(s =~= "A"@);
        assert(s[0] != "C"@[0] && s[0] != "D"@[0] && s[0] != "E"@[0] && s[0] != "F"@[0] && s[0] != "G"@[0]);
    } else {
        assert(s =~= "B"@);
        assert(s[0] != "C"@[0] && s[0] != "D"@[0] && s[0] != "E"@[0] && s[0] != "F"@[0] && s[0] != "G"@[0] && s[0] != "A"@[0]);
    }
}

/// A spelled pitch reads back as the pitch it spells.
pub proof fn lemma_spelling_reads_back(m: u8, flats: bool)
    ensures
        ({
            let s = spell_spec(m as int, flats);
            &&& step_index(seq![s.step]) is Some
            &&& -1 <= s.alter <= 1
            &&& (s.octave + 1) * 12 + step_semitones(step_index(seq![s.step])->0) + s.alter == m
            &&& s.octave == octave_of(m as int)
        }),
{
    let pc = (m as int) % 12;
    let s = spell_spec(m as int, flats);
    assert(m as int == 12 * ((m as int) / 12) + pc);
    assert(-1 <= octave_of(m as int) <= 20);
    if is_black(pc) && flats {
        lemma_step_letter_reads_back(sharp_step_index(pc) + 1);
    } else {
        lemma_step_letter_reads_back(sharp_step_index(pc));
    }
}

/// The `<pitch>` the encoder writes reads back as the pitch it spells.
pub proof fn lemma_pitch_reads_back(m: u8, flats: bool)
    requires
        m <= 127,
    ensures
        pitch_spec(pitch_tree(spell_spec(m as int, flats))) == Ok::<int, ImportFailure>(m as int),
{
    let s = spell_spec(m as int, flats);
    let p = pitch_tree(s);
    let cs = p.children;
    reveal_strlit("step");
    reveal_strlit("alter");
    reveal_strlit("octave");
    lemma_spelling_reads_back(m, flats);
    let step = leaf("step"@, seq![s.step]);
    let octave = leaf("octave"@, int_text(s.octave as int));
    lemma_first_named_at(cs, "step"@, 0);
    if s.alter != 0 {
        let alter = leaf("alter"@, int_text(s.alter as int));
        assert(cs =~= seq![step, alter, octave]);
        assert(cs[0].name == "step"@);
        assert(cs[1].name == "alter"@);
        assert("step"@.len() != "alter"@.len());
        assert("alter"@.len() != "octave"@.len());
        lemma_int_leaf_reads_back(p, 1, "alter"@, s.alter as int);
        lemma_int_leaf_reads_back(p, 2, "octave"@, s.octave as int);
    } else {
        assert(cs =~= seq![step, octave]);
        lemma_first_named_none(cs, "alter"@);
        lemma_int_leaf_reads_back(p, 1, "octave"@, s.octave as int);
    }
    lemma_leaf_value("step"@, seq![s.step]);
    lemma_trim_unspaced(seq![s.step]);
}


/// Every child satisfies `p`.
pub open spec fn all_children(cs: Seq<Tree>, p: spec_fn(Tree) -> bool) -> bool {
    forall|j: int| 0 <= j < cs.len() ==> #[trigger] p(cs[j])
}

pub proof fn lemma_all_children_add(a: Seq<Tree>, b: Seq<Tree>, p: spec_fn(Tree) -> bool)
    requires
        all_children(a, p),
        all_children(b, p),
    ensures
        all_children(a + b, p),
{
    assert forall|j: int| 0 <= j < (a + b).len() implies #[trigger] p((a + b)[j]) by {
        if j < a.len() {
            assert((a + b)[j] == a[j]);
        } else {
            assert((a + b)[j] == b[j - a.len()]);
        }
    }
}

pub proof fn lemma_all_children_opt(c: bool, t: Tree, p: spec_fn(Tree) -> bool)
    requires
        c ==> p(t),
    ensures
        all_children(opt(c, t), p),
{
}

/// A lookup among children whose names all lie in `names` finds nothing
/// for a name outside it.
pub proof fn lemma_first_named_outside(cs: Seq<Tree>, names: Set<Seq<char>>, name: Seq<char>)
    requires
        all_children(cs, |t: Tree| names.contains(t.name)),
        !names.contains(name),
    ensures
        first_named(cs, name) is None,
{
    assert forall|j: int| 0 <= j < cs.len() implies (#[trigger] cs[j]).name != name by {
        let p = |t: Tree| names.contains(t.name);
        assert(p(cs[j]));
    }
    lemma_first_named_none(cs, name);
}

/// A lookup passes over a run of children none of which bears the name.
pub proof fn lemma_first_named_past(a: Seq<Tree>, b: Seq<Tree>, name: Seq<char>)
    requires
        all_children(a, |t: Tree| t.name != name),
    ensures
        first_named(a + b, name) == first_named(b, name),
{
    assert forall|j: int| 0 <= j < a.len() implies (#[trigger] a[j]).name != name by {
        let p = |t: Tree| t.name != name;
        assert(p(a[j]));
    }
    lemma_first_named_none(a, name);
    lemma_first_named_concat(a, b, name);
}

/// Whatever holds of each child the encoder may write into a pitched
/// `<note>` holds of all its children.
pub proof fn lemma_pitched_children(n: ScoreNote, fifths: int, grand: bool, voice: int, tie: TieRole, p: spec_fn(Tree) -> bool)
    requires
        n.midi is Some,
        ({
            let d = n.duration;
            let s = spell_spec(n.midi->0 as int, fifths < 0);
            &&& n.chord_with_previous ==> p(element("chord"@, Seq::empty(), Seq::empty(), Seq::empty()))
            &&& p(pitch_tree(s))
            &&& p(leaf("duration"@, int_text(d.unit_count())))
            &&& tie.stop ==> p(tie_tree("stop"@))
            &&& tie.start ==> p(tie_tree("start"@))
            &&& p(leaf("type"@, d.xml_type()))
            &&& d.dotted() ==> p(element("dot"@, Seq::empty(), Seq::empty(), Seq::empty()))
            &&& p(leaf("accidental"@, accidental_name(s)))
            &&& (tie.stop || tie.start) ==> p(notations_tree(tie))
            &&& grand ==> p(voice_tree(voice))
            &&& grand ==> p(staff_tree(n.staff))
        }),
    ensures
        all_children(note_tree(n, fifths, grand, voice, tie).children, p),
{
    let d = n.duration;
    let s = spell_spec(n.midi->0 as int, fifths < 0);
    let a0 = opt(n.chord_with_previous, element("chord"@, Seq::empty(), Seq::empty(), Seq::empty()));
    let a1 = seq![pitch_tree(s), leaf("duration"@, int_text(d.unit_count()))];
    let a2 = opt(tie.stop, tie_tree("stop"@));
    let a3 = opt(tie.start, tie_tree("start"@));
    let a4 = opt(grand, voice_tree(voice));
    let a5 = seq![leaf("type"@, d.xml_type())];
    let a6 = opt(d.dotted(), element("dot"@, Seq::empty(), Seq::empty(), Seq::empty()));
    let a7 = opt(
        s.alter as int != crate::pitch::key_alteration_spec(seq![s.step], fifths),
        leaf("accidental"@, accidental_name(s)),
    );
    let a8 = opt(grand, staff_tree(n.staff));
    let a9 = opt(tie.stop || tie.start, notations_tree(tie));
    lemma_all_children_opt(n.chord_with_previous, element("chord"@, Seq::empty(), Seq::empty(), Seq::empty()), p);
    assert(all_children(a1, p));
    lemma_all_children_opt(tie.stop, tie_tree("stop"@), p);
    lemma_all_children_opt(tie.start, tie_tree("start"@), p);
    lemma_all_children_opt(grand, voice_tree(voice), p);
    assert(all_children(a5, p));
    lemma_all_children_opt(d.dotted(), element("dot"@, Seq::empty(), Seq::empty(), Seq::empty()), p);
    lemma_all_children_opt(
        s.alter as int != crate::pitch::key_alteration_spec(seq![s.step], fifths),
        leaf("accidental"@, accidental_name(s)),
        p,
    );
    lemma_all_children_opt(grand, staff_tree(n.staff), p);
    lemma_all_children_opt(tie.stop || tie.start, notations_tree(tie), p);
    lemma_all_children_add(a8, a9, p);
    lemma_all_children_add(a7, a8 + a9, p);
    lemma_all_children_add(a6, a7 + (a8 + a9), p);
    lemma_all_children_add(a5, a6 + (a7 + (a8 + a9)), p);
    lemma_all_children_add(a4, a5 + (a6 + (a7 + (a8 + a9))), p);
    lemma_all_children_add(a3, a4 + (a5 + (a6 + (a7 + (a8 + a9)))), p);
    lemma_all_children_add(a2, a3 + (a4 + (a5 + (a6 + (a7 + (a8 + a9))))), p);
    lemma_all_children_add(a1, a2 + (a3 + (a4 + (a5 + (a6 + (a7 + (a8 + a9)))))), p);
    lemma_all_children_add(a0, a1 + (a2 + (a3 + (a4 + (a5 + (a6 + (a7 + (a8 + a9))))))), p);
}

/// Whatever holds of each child the encoder may write into a rest's
/// `<note>` holds of all its children.
pub proof fn lemma_rest_children(n: ScoreNote, fifths: int, grand: bool, voice: int, tie: TieRole, p: spec_fn(Tree) -> bool)
    requires
        n.midi is None,
        p(element("rest"@, Seq::empty(), Seq::empty(), Seq::empty())),
        p(leaf("duration"@, int_text(n.duration.unit_count()))),
        p(leaf("type"@, n.duration.xml_type())),
        n.duration.dotted() ==> p(element("dot"@, Seq::empty(), Seq::empty(), Seq::empty())),
        grand ==> p(voice_tree(voice)),
        grand ==> p(staff_tree(n.staff)),
    ensures
        all_children(note_tree(n, fifths, grand, voice, tie).children, p),
{
    let d = n.duration;
    let a0 = seq![element("rest"@, Seq::empty(), Seq::empty(), Seq::empty()), leaf("duration"@, int_text(d.unit_count()))];
    let a1 = opt(grand, voice_tree(voice));
    let a2 = seq![leaf("type"@, d.xml_type())];
    let a3 = opt(d.dotted(), element("dot"@, Seq::empty(), Seq::empty(), Seq::empty()));
    let a4 = opt(grand, staff_tree(n.staff));
    assert(all_children(a0, p));
    lemma_all_children_opt(grand, voice_tree(voice), p);
    assert(all_children(a2, p));
    lemma_all_children_opt(d.dotted(), element("dot"@, Seq::empty(), Seq::empty(), Seq::empty()), p);
    lemma_all_children_opt(grand, staff_tree(n.staff), p);
    lemma_all_children_add(a3, a4, p);
    lemma_all_children_add(a2, a3 + a4, p);
    lemma_all_children_add(a1, a2 + (a3 + a4), p);
    lemma_all_children_add(a0, a1 + (a2 + (a3 + a4)), p);
}

/// The staff a rest's `<note>` names: its own on a grand staff, none
/// otherwise.
pub proof fn lemma_rest_staff(n: ScoreNote, fifths: int, grand: bool, voice: int, tie: TieRole)
    requires
        n.midi is None,
    ensures
        int_at(note_tree(n, fifths, grand, voice, tie), "staff"@) == (if grand { Some(staff_number(n.staff)) } else { None::<int> }),
{
    let t = note_tree(n, fifths, grand, voice, tie);
    let cs = t.children;
    reveal_strlit("rest");
    reveal_strlit("duration");
    reveal_strlit("type");
    reveal_strlit("dot");
    reveal_strlit("voice");
    reveal_strlit("staff");
    assert("staff"@[0] != "voice"@[0]);
    let d = n.duration;
    let ne = |x: Tree| x.name != "staff"@;
    let a0 = seq![element("rest"@, Seq::empty(), Seq::empty(), Seq::empty()), leaf("duration"@, int_text(d.unit_count()))];
    let a1 = opt(grand, voice_tree(voice));
    let a2 = seq![leaf("type"@, d.xml_type())];
    let a3 = opt(d.dotted(), element("dot"@, Seq::empty(), Seq::empty(), Seq::empty()));
    let a4 = opt(grand, staff_tree(n.staff));
    assert(cs == a0 + (a1 + (a2 + (a3 + a4))));
    lemma_all_children_opt(d.dotted(), element("dot"@, Seq::empty(), Seq::empty(), Seq::empty()), ne);
    lemma_all_children_opt(grand, voice_tree(voice), ne);
    assert(all_children(a2, ne));
    assert(all_children(a0, ne));
    lemma_first_named_opt(grand, staff_tree(n.staff), "staff"@);
    lemma_first_named_past(a3, a4, "staff"@);
    lemma_first_named_past(a2, a3 + a4, "staff"@);
    lemma_first_named_past(a1, a2 + (a3 + a4), "staff"@);
    lemma_first_named_past(a0, a1 + (a2 + (a3 + a4)), "staff"@);
    lemma_leaf_value("staff"@, int_text(staff_number(n.staff)));
    lemma_int_text_parses(staff_number(n.staff));
}

/// The staff a pitched `<note>` names: its own on a grand staff, none
/// otherwise.
pub proof fn lemma_pitched_staff(n: ScoreNote, fifths: int, grand: bool, voice: int, tie: TieRole)
    requires
        n.midi is Some,
    ensures
        int_at(note_tree(n, fifths, grand, voice, tie), "staff"@) == (if grand { Some(staff_number(n.staff)) } else { None::<int> }),
{
    let t = note_tree(n, fifths, grand, voice, tie);
    let cs = t.children;
    reveal_strlit("chord");
    reveal_strlit("pitch");
    reveal_strlit("duration");
    reveal_strlit("tie");
    reveal_strlit("type");
    reveal_strlit("dot");
    reveal_strlit("accidental");
    reveal_strlit("notations");
    reveal_strlit("voice");
    reveal_strlit("staff");
    assert("staff"@[0] != "chord"@[0] && "staff"@[0] != "pitch"@[0] && "staff"@[0] != "voice"@[0]);
    let d = n.duration;
    let s = spell_spec(n.midi->0 as int, fifths < 0);
    let ne = |x: Tree| x.name != "staff"@;
    let a0 = opt(n.chord_with_previous, element("chord"@, Seq::empty(), Seq::empty(), Seq::empty()));
    let a1 = seq![pitch_tree(s), leaf("duration"@, int_text(d.unit_count()))];
    let a2 = opt(tie.stop, tie_tree("stop"@));
    let a3 = opt(tie.start, tie_tree("start"@));
    let a4 = opt(grand, voice_tree(voice));
    let a5 = seq![leaf("type"@, d.xml_type())];
    let a6 = opt(d.dotted(), element("dot"@, Seq::empty(), Seq::empty(), Seq::empty()));
    let a7 = opt(
        s.alter as int != crate::pitch::key_alteration_spec(seq![s.step], fifths),
        leaf("accidental"@, accidental_name(s)),
    );
    let a8 = opt(grand, staff_tree(n.staff));
    let a9 = opt(tie.stop || tie.start, notations_tree(tie));
    assert(cs == a0 + (a1 + (a2 + (a3 + (a4 + (a5 + (a6 + (a7 + (a8 + a9)))))))));
    lemma_all_children_opt(n.chord_with_previous, element("chord"@, Seq::empty(), Seq::empty(), Seq::empty()), ne);
    assert(all_children(a1, ne));
    lemma_all_children_opt(tie.stop, tie_tree("stop"@), ne);
    lemma_all_children_opt(tie.start, tie_tree("start"@), ne);
    lemma_all_children_opt(grand, voice_tree(voice), ne);
    assert(all_children(a5, ne));
    lemma_all_children_opt(d.dotted(), element("dot"@, Seq::empty(), Seq::empty(), Seq::empty()), ne);
    lemma_all_children_opt(
        s.alter as int != crate::pitch::key_alteration_spec(seq![s.step], fifths),
        leaf("accidental"@, accidental_name(s)),
        ne,
    );
    lemma_all_children_opt(tie.stop || tie.start, notations_tree(tie), ne);
    lemma_first_named_opt(grand, staff_tree(n.staff), "staff"@);
    lemma_first_named_concat(a8, a9, "staff"@);
    lemma_first_named_opt(tie.stop || tie.start, notations_tree(tie), "staff"@);
    lemma_first_named_past(a7, a8 + a9, "staff"@);
    lemma_first_named_past(a6, a7 + (a8 + a9), "staff"@);
    lemma_first_named_past(a5, a6 + (a7 + (a8 + a9)), "staff"@);
    lemma_first_named_past(a4, a5 + (a6 + (a7 + (a8 + a9))), "staff"@);
    lemma_first_named_past(a3, a4 + (a5 + (a6 + (a7 + (a8 + a9)))), "staff"@);
    lemma_first_named_past(a2, a3 + (a4 + (a5 + (a6 + (a7 + (a8 + a9))))), "staff"@);
    lemma_first_named_past(a1, a2 + (a3 + (a4 + (a5 + (a6 + (a7 + (a8 + a9)))))), "staff"@);
    lemma_first_named_past(a0, a1 + (a2 + (a3 + (a4 + (a5 + (a6 + (a7 + (a8 + a9))))))), "staff"@);
    lemma_leaf_value("staff"@, int_text(staff_number(n.staff)));
    lemma_int_text_parses(staff_number(n.staff));
}

/// A pitched `<note>` carries a stopping tie exactly when its tie role
/// stops one.
pub proof fn lemma_pitched_tie(n: ScoreNote, fifths: int, grand: bool, voice: int, tie: TieRole)
    requires
        n.midi is Some,
    ensures
        has_tie_stop(note_tree(n, fifths, grand, voice, tie).children) == tie.stop,
{
    let cs = note_tree(n, fifths, grand, voice, tie).children;
    reveal_strlit("tie");
    reveal_strlit("dot");
    reveal_strlit("stop");
    reveal_strlit("start");
    reveal_strlit("type");
    assert("dot"@[0] != "tie"@[0]);
    assert("stop"@.len() != "start"@.len());
    let c: int = if n.chord_with_previous { 1 } else { 0 };
    if tie.stop {
        assert(cs[c + 2] == tie_tree("stop"@));
        assert(attribute_of(cs[c + 2].attributes, "type"@) == Some("stop"@));
        assert(has_tie_stop(cs));
    } else {
        let r = |x: Tree| !(x.name == "tie"@ && attribute_of(x.attributes, "type"@) == Some("stop"@));
        assert(attribute_of(tie_tree("start"@).attributes, "type"@) == Some("start"@));
        lemma_pitched_children(n, fifths, grand, voice, tie, r);
        assert(!has_tie_stop(cs)) by {
            if has_tie_stop(cs) {
                let k = choose|k: int| 0 <= k < cs.len() && (#[trigger] cs[k]).name == "tie"@
                    && attribute_of(cs[k].attributes, "type"@) == Some("stop"@);
                assert(r(cs[k]));
            }
        }
    }
}

/// The names a note's children may bear.
pub open spec fn note_child_names() -> Set<Seq<char>> {
    set!["chord"@, "pitch"@, "rest"@, "duration"@, "tie"@, "voice"@, "type"@, "dot"@, "accidental"@, "staff"@, "notations"@]
}

/// A `<note>` has no grace or tuplet marks.
pub proof fn lemma_note_unmarked(n: ScoreNote, fifths: int, grand: bool, voice: int, tie: TieRole)
    ensures
        first_named(note_tree(n, fifths, grand, voice, tie).children, "grace"@) is None,
        first_named(note_tree(n, fifths, grand, voice, tie).children, "time-modification"@) is None,
        n.midi is Some ==> first_named(note_tree(n, fifths, grand, voice, tie).children, "rest"@) is None,
        n.midi is Some && !n.chord_with_previous ==> first_named(note_tree(n, fifths, grand, voice, tie).children, "chord"@) is None,
{
    let cs = note_tree(n, fifths, grand, voice, tie).children;
    reveal_strlit("chord");
    reveal_strlit("pitch");
    reveal_strlit("rest");
    reveal_strlit("duration");
    reveal_strlit("tie");
    reveal_strlit("voice");
    reveal_strlit("type");
    reveal_strlit("dot");
    reveal_strlit("accidental");
    reveal_strlit("staff");
    reveal_strlit("notations");
    reveal_strlit("grace");
    reveal_strlit("time-modification");
    assert("grace"@[0] != "chord"@[0] && "grace"@[0] != "pitch"@[0] && "grace"@[0] != "voice"@[0] && "grace"@[0] != "staff"@[0]);
    assert("time-modification"@.len() == 17);
    let names = note_child_names();
    let p = |x: Tree| names.contains(x.name);
    if n.midi is Some {
        lemma_pitched_children(n, fifths, grand, voice, tie, p);
        let pitched = names.remove("rest"@);
        let q = |x: Tree| pitched.contains(x.name);
        assert("rest"@[0] != "type"@[0]);
        lemma_pitched_children(n, fifths, grand, voice, tie, q);
        lemma_first_named_outside(cs, pitched, "rest"@);
        if !n.chord_with_previous {
            let unchorded = pitched.remove("chord"@);
            let r = |x: Tree| unchorded.contains(x.name);
            assert("pitch"@[0] != "chord"@[0] && "chord"@[0] != "voice"@[0] && "staff"@[0] != "chord"@[0]);
            lemma_pitched_children(n, fifths, grand, voice, tie, r);
            lemma_first_named_outside(cs, unchorded, "chord"@);
        }
    } else {
        lemma_rest_children(n, fifths, grand, voice, tie, p);
    }
    lemma_first_named_outside(cs, names, "grace"@);
    lemma_first_named_outside(cs, names, "time-modification"@);
}

/// A `<note>` the encoder writes reads back as that note, with the staff
/// number it names (1 unless a grand staff's bass); a rest reads back on
/// the treble staff until its staff number routes it.
pub proof fn lemma_note_reads_back(n: ScoreNote, fifths: int, grand: bool, voice: int, tie: TieRole)
    requires
        grand || n.staff == Staff::Treble,
        n.midi is None ==> !n.chord_with_previous && !n.tied_from_previous,
        n.midi is Some ==> n.midi->0 <= 127,
        tie.stop == n.tied_from_previous,
    ensures
        note_spec(note_tree(n, fifths, grand, voice, tie), 2) == Ok::<(ScoreNote, int), ImportFailure>((
            ScoreNote { staff: if n.midi is Some { n.staff } else { Staff::Treble }, ..n },
            staff_number(n.staff),
        )),
{
    let t = note_tree(n, fifths, grand, voice, tie);
    let cs = t.children;
    reveal_strlit("chord");
    reveal_strlit("pitch");
    reveal_strlit("duration");
    reveal_strlit("rest");
    assert("pitch"@[0] != "chord"@[0]);
    assert("rest"@.len() == 4 && "duration"@.len() == 8 && "pitch"@.len() == 5 && "chord"@.len() == 5);
    let d = n.duration;
    let units = d.unit_count();
    let dur = leaf("duration"@, int_text(units));
    lemma_units_name_duration(d);
    lemma_note_unmarked(n, fifths, grand, voice, tie);
    match n.midi {
        None => {
            lemma_rest_staff(n, fifths, grand, voice, tie);
            assert(cs[0] == element("rest"@, Seq::empty(), Seq::empty(), Seq::empty()));
            assert(cs[1] == dur);
            lemma_first_named_at(cs, "rest"@, 0);
            lemma_int_leaf_reads_back(t, 1, "duration"@, units);
        },
        Some(m) => {
            let s = spell_spec(m as int, fifths < 0);
            lemma_pitched_staff(n, fifths, grand, voice, tie);
            lemma_pitched_tie(n, fifths, grand, voice, tie);
            let c: int = if n.chord_with_previous { 1 } else { 0 };
            assert(cs[c] == pitch_tree(s));
            assert(cs[c + 1] == dur);
            if n.chord_with_previous {
                assert(cs[0].name == "chord"@);
                lemma_first_named_at(cs, "chord"@, 0);
            }
            lemma_first_named_at(cs, "pitch"@, c);
            lemma_int_leaf_reads_back(t, c + 1, "duration"@, units);
            lemma_pitch_reads_back(m, fifths < 0);
        },
    }
}

/// The first measure's `<attributes>` set divisions, key, meter, the
/// staves and their clefs.
pub proof fn lemma_attributes_read_back(fifths: int, beats: int, grand: bool)
    requires
        -7 <= fifths <= 7,
        i32::MIN <= beats <= i32::MAX,
    ensures
        attributes_spec(attributes_tree(fifths, beats, grand), initial_state())
            == Ok::<ImportState, ImportFailure>(ImportState {
                divisions: 2,
                fifths,
                beats,
                staves: if grand { 2 } else { 1 },
                ..initial_state()
            }),
{
    let a = attributes_tree(fifths, beats, grand);
    let cs = a.children;
    reveal_strlit("divisions");
    reveal_strlit("key");
    reveal_strlit("time");
    reveal_strlit("clef");
    reveal_strlit("staves");
    reveal_strlit("fifths");
    reveal_strlit("beats");
    reveal_strlit("beat-type");
    reveal_strlit("sign");
    reveal_strlit("G");
    reveal_strlit("F");
    assert("time"@[0] != "clef"@[0]);
    assert("staves"@.len() == 6 && "divisions"@.len() == 9 && "key"@.len() == 3 && "time"@.len() == 4 && "clef"@.len() == 4);
    assert("beats"@.len() == 5 && "beat-type"@.len() == 9);
    assert("G"@ != "F"@) by {
        assert("G"@[0] != "F"@[0]);
    }
    let key = cs[1];
    let time = cs[2];
    lemma_int_leaf_reads_back(a, 0, "divisions"@, 2);
    lemma_first_named_at(cs, "key"@, 1);
    lemma_int_leaf_reads_back(key, 0, "fifths"@, fifths);
    lemma_first_named_at(cs, "time"@, 2);
    lemma_int_leaf_reads_back(time, 0, "beats"@, beats);
    lemma_int_leaf_reads_back(time, 1, "beat-type"@, 4);
    lemma_leaf_value("sign"@, "G"@);
    lemma_trim_unspaced("G"@);
    lemma_leaf_value("sign"@, "F"@);
    lemma_trim_unspaced("F"@);
    if grand {
        let c1 = clef_tree(seq![("number"@, "1"@)], "G"@, 2);
        let c2 = clef_tree(seq![("number"@, "2"@)], "F"@, 4);
        assert(cs =~= seq![cs[0], key, time, leaf("staves"@, int_text(2)), c1, c2]);
        lemma_int_leaf_reads_back(a, 3, "staves"@, 2);
        lemma_first_named_at(c1.children, "sign"@, 0);
        lemma_first_named_at(c2.children, "sign"@, 0);
        assert(clef_ok(c1, 2));
        assert(clef_ok(c2, 2));
        assert forall|k: int| 0 <= k < cs.len() && (#[trigger] cs[k]).name == "clef"@ implies clef_ok(cs[k], 2) by {
            assert(k == 4 || k == 5);
        }
    } else {
        let c = clef_tree(Seq::empty(), "G"@, 2);
        assert(cs =~= seq![cs[0], key, time, c]);
        lemma_first_named_none(cs, "staves"@);
        lemma_first_named_at(c.children, "sign"@, 0);
        assert(clef_ok(c, 1));
        assert forall|k: int| 0 <= k < cs.len() && (#[trigger] cs[k]).name == "clef"@ implies clef_ok(cs[k], 1) by {
            assert(k == 3);
        }
    }
}

/// The time of a note followed by a run.
pub proof fn lemma_units_sum_prepend(x: ScoreNote, s: Seq<ScoreNote>)
    ensures
        units_sum(seq![x] + s) == x.advance() + units_sum(s),
    decreases s.len(),
{
    if s.len() > 0 {
        lemma_units_sum_prepend(x, s.drop_last());
        assert((seq![x] + s).drop_last() =~= seq![x] + s.drop_last());
        assert((seq![x] + s).last() == s.last());
    } else {
        assert(seq![x] + s =~= seq![x]);
        assert(seq![x].drop_last() =~= Seq::<ScoreNote>::empty());
        assert(units_sum(Seq::<ScoreNote>::empty()) == 0);
        assert(units_sum(seq![x]) == units_sum(seq![x].drop_last()) + x.advance());
    }
}

/// Measure chunking closes a measure only once it is full: every measure
/// but the last takes at least `upm` units.
pub proof fn lemma_measures_fill(voice: Seq<ScoreNote>, upm: int, i: int, current: Seq<ScoreNote>, units: int)
    requires
        0 <= i,
        units == units_sum(current),
    ensures
        forall|k: int| 0 <= k < measures_from(voice, upm, i, current, units).len() - 1
            ==> units_sum(#[trigger] measures_from(voice, upm, i, current, units)[k]) >= upm,
    decreases voice.len() - i,
{
    if i < voice.len() {
        let note = voice[i];
        let cur = current.push(note);
        let u = units + note.advance();
        assert(cur.drop_last() =~= current);
        assert(units_sum(cur) == u);
        let next_is_chord = i + 1 < voice.len() && voice[i + 1].chord_with_previous;
        if u >= upm && !next_is_chord {
            lemma_measures_fill(voice, upm, i + 1, Seq::empty(), 0);
            let rest = measures_from(voice, upm, i + 1, Seq::empty(), 0);
            let ms = seq![cur] + rest;
            assert(measures_from(voice, upm, i, current, units) == ms);
            assert forall|k: int| 0 <= k < ms.len() - 1 implies units_sum(#[trigger] ms[k]) >= upm by {
                if k > 0 {
                    assert(ms[k] == rest[k - 1]);
                }
            }
        } else {
            lemma_measures_fill(voice, upm, i + 1, cur, u);
            assert(measures_from(voice, upm, i, current, units) == measures_from(voice, upm, i + 1, cur, u));
        }
    }
}

/// Children before position `p` that are not notes are passed over.
pub proof fn lemma_notes_skip(
    cs: Seq<Tree>,
    k: int,
    p: int,
    divisions: int,
    treble: Seq<ScoreNote>,
    bass: Seq<ScoreNote>,
    tu: int,
    bu: int,
)
    requires
        0 <= k <= p <= cs.len(),
        forall|j: int| k <= j < p ==> (#[trigger] cs[j]).name != "note"@,
    ensures
        notes_from(cs, k, divisions, treble, bass, tu, bu) == notes_from(cs, p, divisions, treble, bass, tu, bu),
    decreases p - k,
{
    if k < p {
        lemma_notes_skip(cs, k + 1, p, divisions, treble, bass, tu, bu);
    }
}

/// A run of `<note>` elements on one staff number joins the voice that
/// staff routes to.
pub proof fn lemma_notes_segment(
    cs: Seq<Tree>,
    k: int,
    e: int,
    ns: Seq<ScoreNote>,
    sn: int,
    treble: Seq<ScoreNote>,
    bass: Seq<ScoreNote>,
    tu: int,
    bu: int,
)
    requires
        0 <= e - ns.len() <= k <= e <= cs.len(),
        sn == 1 || sn == 2,
        forall|j: int| e - ns.len() <= j < e ==> (#[trigger] cs[j]).name == "note"@ && reads_as(cs[j], ns[j - (e - ns.len())], sn),
    ensures
        ({
            let rest = ns.subrange(k - (e - ns.len()), ns.len() as int);
            notes_from(cs, k, 2, treble, bass, tu, bu) == (if sn == 2 {
                notes_from(cs, e, 2, treble, bass + rest, tu, bu + units_sum(rest))
            } else {
                notes_from(cs, e, 2, treble + rest, bass, tu + units_sum(rest), bu)
            })
        }),
    decreases e - k,
{
    let p = e - ns.len();
    let rest = ns.subrange(k - p, ns.len() as int);
    if k < e {
        let x = ns[k - p];
        assert(cs[k].name == "note"@ && reads_as(cs[k], x, sn));
        let tail = ns.subrange(k + 1 - p, ns.len() as int);
        assert(rest =~= seq![x] + tail);
        lemma_units_sum_prepend(x, tail);
        if sn == 2 {
            lemma_notes_segment(cs, k + 1, e, ns, sn, treble, bass.push(x), tu, bu + x.advance());
            assert(bass.push(x) + tail =~= bass + rest);
        } else {
            lemma_notes_segment(cs, k + 1, e, ns, sn, treble.push(x), bass, tu + x.advance(), bu);
            assert(treble.push(x) + tail =~= treble + rest);
        }
    } else {
        assert(rest =~= Seq::<ScoreNote>::empty());
        assert(treble + rest =~= treble);
        assert(bass + rest =~= bass);
    }
}

/// Under the round-trip conditions a score is a grand staff exactly when
/// it has bass notes.
pub proof fn lemma_grand_iff_bass(ex: Exercise)
    requires
        round_trippable(ex),
    ensures
        ex.grand_staff() == (ex.bass_notes@.len() > 0),
        staves_of(ex) == (if ex.bass_notes@.len() > 0 { 2int } else { 1int }),
{
    let k = choose|k: int| 0 <= k < ex.notes@.len() && (#[trigger] ex.notes@[k]).midi is Some;
    assert(ex.notes@.len() > 0);
    assert(!(exists|j: int| 0 <= j < ex.notes@.len() && #[trigger] ex.notes@[j].staff == Staff::Bass)) by {
        if exists|j: int| 0 <= j < ex.notes@.len() && #[trigger] ex.notes@[j].staff == Staff::Bass {
            let j = choose|j: int| 0 <= j < ex.notes@.len() && #[trigger] ex.notes@[j].staff == Staff::Bass;
            assert(plain_note(ex.notes@[j], Staff::Treble));
        }
    }
}

/// Whatever holds of every `<note>`, of the print, attributes and backup
/// elements a measure may hold, holds of all the measure's children.
pub proof fn lemma_measure_children(ex: Exercise, breaks: Option<usize>, i: int, p: spec_fn(Tree) -> bool)
    requires
        opens_system(breaks, i) ==> p(print_tree()),
        i == 0 ==> p(attributes_tree(ex.fifths as int, ex.beats_per_measure as int, ex.grand_staff())),
        has_bass(ex, i) ==> p(backup_tree(units_sum(treble_of(ex, i)))),
        forall|t: Tree| t.name == "note"@ ==> #[trigger] p(t),
    ensures
        all_children(measure_tree(ex, breaks, i).children, p),
{
    let tm = measures_spec(ex.notes@, ex.upm());
    let bm = measures_spec(ex.bass_notes@, ex.upm());
    let grand = ex.grand_staff();
    let f = ex.fifths as int;
    let treble = treble_of(ex, i);
    let pa = opt(opens_system(breaks, i), print_tree());
    let pb = opt(i == 0, attributes_tree(f, ex.beats_per_measure as int, grand));
    let tn = note_trees(treble, tie_roles_spec(ex.notes@), prefix_len(tm, i), f, grand, 1, false);
    let bn = note_trees(bm[i], tie_roles_spec(ex.bass_notes@), prefix_len(bm, i), f, grand, 2, true);
    let bp = if has_bass(ex, i) { seq![backup_tree(units_sum(treble))] + bn } else { Seq::empty() };
    assert(measure_tree(ex, breaks, i).children == pa + (pb + (tn + bp)));
    lemma_all_children_opt(opens_system(breaks, i), print_tree(), p);
    lemma_all_children_opt(i == 0, attributes_tree(f, ex.beats_per_measure as int, grand), p);
    assert forall|j: int| 0 <= j < tn.len() implies #[trigger] p(tn[j]) by {
        assert(tn[j].name == "note"@);
    }
    if has_bass(ex, i) {
        assert forall|j: int| 0 <= j < bn.len() implies #[trigger] p(bn[j]) by {
            assert(bn[j].name == "note"@);
        }
        lemma_all_children_add(seq![backup_tree(units_sum(treble))], bn, p);
    }
    assert(all_children(bp, p));
    lemma_all_children_add(tn, bp, p);
    lemma_all_children_add(pb, tn + bp, p);
    lemma_all_children_add(pa, pb + (tn + bp), p);
}

/// The treble `<note>` elements of measure `i`.
pub open spec fn treble_trees(ex: Exercise, i: int) -> Seq<Tree> {
    note_trees(treble_of(ex, i), tie_roles_spec(ex.notes@), prefix_len(measures_spec(ex.notes@, ex.upm()), i),
        ex.fifths as int, ex.grand_staff(), 1, false)
}

/// The bass `<note>` elements of measure `i`.
pub open spec fn bass_trees(ex: Exercise, i: int) -> Seq<Tree> {
    let bm = measures_spec(ex.bass_notes@, ex.upm());
    note_trees(bm[i], tie_roles_spec(ex.bass_notes@), prefix_len(bm, i), ex.fifths as int, ex.grand_staff(), 2, true)
}

/// Each `<note>` of measure `i` reads back as its note: the treble ones on
/// staff 1, the bass ones on staff 2.
pub proof fn lemma_measure_notes_read(ex: Exercise, i: int)
    requires
        round_trippable(ex),
        0 <= i < measures_spec(ex.notes@, ex.upm()).len(),
    ensures
        forall|j: int| 0 <= j < treble_trees(ex, i).len() ==> (#[trigger] treble_trees(ex, i)[j]).name == "note"@
            && reads_as(treble_trees(ex, i)[j], treble_of(ex, i)[j], 1),
        has_bass(ex, i) ==> forall|j: int| 0 <= j < bass_trees(ex, i).len() ==> (#[trigger] bass_trees(ex, i)[j]).name == "note"@
            && reads_as(bass_trees(ex, i)[j], measures_spec(ex.bass_notes@, ex.upm())[i][j], 2),
{
    let upm = ex.upm();
    let tm = measures_spec(ex.notes@, upm);
    let bm = measures_spec(ex.bass_notes@, upm);
    let grand = ex.grand_staff();
    let f = ex.fifths as int;
    let treble = tm[i];
    let tr = tie_roles_spec(ex.notes@);
    let br = tie_roles_spec(ex.bass_notes@);
    let toff = prefix_len(tm, i);
    let boff = prefix_len(bm, i);
    let tn = treble_trees(ex, i);
    let bn = bass_trees(ex, i);
    lemma_grand_iff_bass(ex);
    lemma_measures_partition_voice(ex.notes@, upm);
    lemma_measures_partition_voice(ex.bass_notes@, upm);
    assert(prefix_len(tm, 0) == 0 && prefix_len(bm, 0) == 0);
    assert forall|j: int| 0 <= j < tn.len() implies (#[trigger] tn[j]).name == "note"@ && reads_as(tn[j], treble_of(ex, i)[j], 1) by {
        lemma_measure_note_at(tm, i, j);
        assert(0 <= toff);
        assert(ex.notes@[toff + j] == treble[j]);
        assert(plain_note(ex.notes@[toff + j], Staff::Treble));
        assert(tr[toff + j].stop == ex.notes@[toff + j].tied_from_previous);
        assert(routed(treble[j], false) == treble[j]);
        lemma_note_reads_back(treble[j], f, grand, 1, tr[toff + j]);
    }
    if has_bass(ex, i) {
        assert forall|j: int| 0 <= j < bn.len() implies (#[trigger] bn[j]).name == "note"@ && reads_as(bn[j], bm[i][j], 2) by {
            lemma_measure_note_at(bm, i, j);
            assert(0 <= boff);
            assert(ex.bass_notes@[boff + j] == bm[i][j]);
            assert(plain_note(ex.bass_notes@[boff + j], Staff::Bass));
            assert(br[boff + j].stop == ex.bass_notes@[boff + j].tied_from_previous);
            assert(routed(bm[i][j], true) == bm[i][j]);
            lemma_note_reads_back(bm[i][j], f, grand, 2, br[boff + j]);
        }
    }
}

/// What a measure's lookups find: attributes on the first measure only,
/// no forward skip, and a backup only on a grand staff.
pub proof fn lemma_measure_lookups(ex: Exercise, breaks: Option<usize>, i: int)
    requires
        round_trippable(ex),
        0 <= i < measures_spec(ex.notes@, ex.upm()).len(),
    ensures
        ({
            let cs = measure_tree(ex, breaks, i).children;
            &&& first_named(cs, "forward"@) is None
            &&& first_named(cs, "attributes"@) == (if i == 0 {
                Some(attributes_tree(ex.fifths as int, ex.beats_per_measure as int, ex.grand_staff()))
            } else {
                None::<Tree>
            })
            &&& !ex.grand_staff() ==> first_named(cs, "backup"@) is None
        }),
{
    let grand = ex.grand_staff();
    let f = ex.fifths as int;
    let b = ex.beats_per_measure as int;
    let cs = measure_tree(ex, breaks, i).children;
    let brk = opens_system(breaks, i);
    let pa = opt(brk, print_tree());
    let pb = opt(i == 0, attributes_tree(f, b, grand));
    let tn = treble_trees(ex, i);
    let bp = if has_bass(ex, i) { seq![backup_tree(units_sum(treble_of(ex, i)))] + bass_trees(ex, i) } else { Seq::empty() };
    assert(cs == pa + (pb + (tn + bp)));
    reveal_strlit("attributes");
    reveal_strlit("backup");
    reveal_strlit("forward");
    reveal_strlit("note");
    reveal_strlit("print");
    assert("print"@.len() == 5 && "attributes"@.len() == 10 && "note"@.len() == 4);
    assert("backup"@.len() == 6 && "forward"@.len() == 7);
    lemma_grand_iff_bass(ex);
    let named_all = set!["print"@, "attributes"@, "note"@, "backup"@];
    lemma_measure_children(ex, breaks, i, |t: Tree| named_all.contains(t.name));
    lemma_first_named_outside(cs, named_all, "forward"@);
    if i == 0 {
        lemma_first_named_opt(brk, print_tree(), "attributes"@);
        lemma_first_named_opt(true, attributes_tree(f, b, grand), "attributes"@);
        lemma_first_named_concat(pb, tn + bp, "attributes"@);
        lemma_first_named_concat(pa, pb + (tn + bp), "attributes"@);
    } else {
        let later = set!["print"@, "note"@, "backup"@];
        lemma_measure_children(ex, breaks, i, |t: Tree| later.contains(t.name));
        lemma_first_named_outside(cs, later, "attributes"@);
    }
    if !grand {
        let single = set!["print"@, "attributes"@, "note"@];
        lemma_measure_children(ex, breaks, i, |t: Tree| single.contains(t.name));
        lemma_first_named_outside(cs, single, "backup"@);
    }
}

/// Children laid out as leading non-notes, treble notes, at most one
/// non-note, then bass notes add the treble notes to the treble voice and
/// the bass notes to the bass voice.
pub proof fn lemma_two_runs(
    pre: Seq<Tree>,
    tn: Seq<Tree>,
    mid: Seq<Tree>,
    bn: Seq<Tree>,
    ns: Seq<ScoreNote>,
    bs: Seq<ScoreNote>,
    treble: Seq<ScoreNote>,
    bass: Seq<ScoreNote>,
)
    requires
        forall|j: int| 0 <= j < pre.len() ==> (#[trigger] pre[j]).name != "note"@,
        forall|j: int| 0 <= j < mid.len() ==> (#[trigger] mid[j]).name != "note"@,
        tn.len() == ns.len(),
        bn.len() == bs.len(),
        forall|j: int| 0 <= j < tn.len() ==> (#[trigger] tn[j]).name == "note"@ && reads_as(tn[j], ns[j], 1),
        forall|j: int| 0 <= j < bn.len() ==> (#[trigger] bn[j]).name == "note"@ && reads_as(bn[j], bs[j], 2),
    ensures
        notes_from(pre + (tn + (mid + bn)), 0, 2, treble, bass, 0, 0)
            == Ok::<(Seq<ScoreNote>, Seq<ScoreNote>, int, int), ImportFailure>((treble + ns, bass + bs, units_sum(ns), units_sum(bs))),
{
    let cs = pre + (tn + (mid + bn));
    let p: int = pre.len() as int;
    let e1: int = p + tn.len();
    let e2: int = e1 + mid.len();
    assert forall|j: int| 0 <= j < p implies (#[trigger] cs[j]).name != "note"@ by {
        assert(cs[j] == pre[j]);
    }
    lemma_notes_skip(cs, 0, p, 2, treble, bass, 0, 0);
    assert forall|j: int| e1 - ns.len() <= j < e1 implies (#[trigger] cs[j]).name == "note"@
        && reads_as(cs[j], ns[j - (e1 - ns.len())], 1) by {
        assert(cs[j] == tn[j - p]);
    }
    lemma_notes_segment(cs, p, e1, ns, 1, treble, bass, 0, 0);
    assert(ns.subrange(0, ns.len() as int) =~= ns);
    assert forall|j: int| e1 <= j < e2 implies (#[trigger] cs[j]).name != "note"@ by {
        assert(cs[j] == mid[j - e1]);
    }
    lemma_notes_skip(cs, e1, e2, 2, treble + ns, bass, units_sum(ns), 0);
    assert forall|j: int| cs.len() - bs.len() <= j < cs.len() implies (#[trigger] cs[j]).name == "note"@
        && reads_as(cs[j], bs[j - (cs.len() - bs.len())], 2) by {
        assert(cs[j] == bn[j - e2]);
    }
    lemma_notes_segment(cs, e2, cs.len() as int, bs, 2, treble + ns, bass, units_sum(ns), 0);
    assert(bs.subrange(0, bs.len() as int) =~= bs);
}

/// A measure's children add its treble notes to the treble voice and its
/// bass notes (after the backup) to the bass voice.
pub proof fn lemma_measure_notes_from(ex: Exercise, breaks: Option<usize>, i: int, treble: Seq<ScoreNote>, bass: Seq<ScoreNote>)
    requires
        round_trippable(ex),
        0 <= i < measures_spec(ex.notes@, ex.upm()).len(),
    ensures
        ({
            let ns = treble_of(ex, i);
            let bs = if has_bass(ex, i) { measures_spec(ex.bass_notes@, ex.upm())[i] } else { Seq::empty() };
            notes_from(measure_tree(ex, breaks, i).children, 0, 2, treble, bass, 0, 0)
                == Ok::<(Seq<ScoreNote>, Seq<ScoreNote>, int, int), ImportFailure>((treble + ns, bass + bs, units_sum(ns), units_sum(bs)))
        }),
{
    let bm = measures_spec(ex.bass_notes@, ex.upm());
    let ns = treble_of(ex, i);
    let hb = has_bass(ex, i);
    let bs = if hb { bm[i] } else { Seq::empty() };
    let cs = measure_tree(ex, breaks, i).children;
    let pa = opt(opens_system(breaks, i), print_tree());
    let pb = opt(i == 0, attributes_tree(ex.fifths as int, ex.beats_per_measure as int, ex.grand_staff()));
    let tn = treble_trees(ex, i);
    let mid = if hb { seq![backup_tree(units_sum(ns))] } else { Seq::empty() };
    let bn = if hb { bass_trees(ex, i) } else { Seq::empty() };
    assert(cs =~= (pa + pb) + (tn + (mid + bn)));
    reveal_strlit("attributes");
    reveal_strlit("backup");
    reveal_strlit("note");
    reveal_strlit("print");
    assert("print"@.len() == 5 && "attributes"@.len() == 10 && "note"@.len() == 4 && "backup"@.len() == 6);
    lemma_measure_notes_read(ex, i);
    assert forall|j: int| 0 <= j < (pa + pb).len() implies (#[trigger] (pa + pb)[j]).name != "note"@ by {
        if j < pa.len() {
            assert((pa + pb)[j] == pa[j]);
        } else {
            assert((pa + pb)[j] == pb[j - pa.len()]);
        }
    }
    lemma_two_runs(pa + pb, tn, mid, bn, ns, bs, treble, bass);
}

/// Measure `i` of the encoding reads back as its notes, appended to the
/// voices read so far.
pub proof fn lemma_measure_reads_back(ex: Exercise, breaks: Option<usize>, i: int, st: ImportState)
    requires
        round_trippable(ex),
        0 <= i < measures_spec(ex.notes@, ex.upm()).len(),
        i == 0 ==> st == initial_state(),
        i > 0 ==> st.divisions == 2 && st.fifths == ex.fifths && st.beats == ex.beats_per_measure && st.staves == staves_of(ex),
    ensures
        measure_spec(measure_tree(ex, breaks, i), i, measures_spec(ex.notes@, ex.upm()).len() as int, st)
            == Ok::<ImportState, ImportFailure>(ImportState {
                divisions: 2,
                fifths: ex.fifths as int,
                beats: ex.beats_per_measure as int,
                staves: staves_of(ex),
                treble: st.treble + measures_spec(ex.notes@, ex.upm())[i],
                bass: st.bass + (if has_bass(ex, i) { measures_spec(ex.bass_notes@, ex.upm())[i] } else { Seq::empty() }),
            }),
{
    let upm = ex.upm();
    let tm = measures_spec(ex.notes@, upm);
    let bm = measures_spec(ex.bass_notes@, upm);
    lemma_grand_iff_bass(ex);
    lemma_measure_lookups(ex, breaks, i);
    if i == 0 {
        lemma_attributes_read_back(ex.fifths as int, ex.beats_per_measure as int, ex.grand_staff());
    }
    lemma_measure_notes_from(ex, breaks, i, st.treble, st.bass);
    assert(treble_of(ex, i) == tm[i]);
    lemma_measures_partition_voice(ex.bass_notes@, upm);
    lemma_measures_fill(ex.notes@, upm, 0, Seq::empty(), 0);
    lemma_measures_fill(ex.bass_notes@, upm, 0, Seq::empty(), 0);
    assert(units_sum(tm[i]) <= upm);
    assert(i < tm.len() - 1 ==> units_sum(tm[i]) >= upm);
    if has_bass(ex, i) {
        assert(units_sum(bm[i]) <= upm);
        assert(i < bm.len() - 1 ==> units_sum(bm[i]) >= upm);
    } else {
        assert(units_sum(Seq::<ScoreNote>::empty()) == 0);
    }
}

/// The first `k` measures laid end to end are the first measure followed
/// by the next `k - 1`.
pub proof fn lemma_concat_first_shift(ms: Seq<Seq<ScoreNote>>, k: int)
    requires
        1 <= k <= ms.len(),
    ensures
        concat_first(ms, k) == ms[0] + concat_first(ms.drop_first(), k - 1),
    decreases k,
{
    let df = ms.drop_first();
    if k == 1 {
        assert(concat_first(ms, 0) == Seq::<ScoreNote>::empty());
        assert(concat_first(df, 0) == Seq::<ScoreNote>::empty());
        assert(concat_first(ms, 1) == concat_first(ms, 0) + ms[0]);
        assert(Seq::<ScoreNote>::empty() + ms[0] =~= ms[0] + Seq::<ScoreNote>::empty());
    } else {
        lemma_concat_first_shift(ms, k - 1);
        assert(df[k - 2] == ms[k - 1]);
        assert(concat_first(df, k - 1) == concat_first(df, k - 2) + df[k - 2]);
        assert(concat_first(ms, k) == concat_first(ms, k - 1) + ms[k - 1]);
        assert((ms[0] + concat_first(df, k - 2)) + ms[k - 1] =~= ms[0] + (concat_first(df, k - 2) + df[k - 2]));
    }
}

pub proof fn lemma_concat_first_all(ms: Seq<Seq<ScoreNote>>)
    ensures
        concat_first(ms, ms.len() as int) == concat_all(ms),
    decreases ms.len(),
{
    if ms.len() > 0 {
        lemma_concat_first_shift(ms, ms.len() as int);
        lemma_concat_first_all(ms.drop_first());
    }
}

/// A lookup of the name all children bear keeps every child.
pub proof fn lemma_named_all(cs: Seq<Tree>, name: Seq<char>)
    requires
        forall|j: int| 0 <= j < cs.len() ==> (#[trigger] cs[j]).name == name,
    ensures
        named(cs, name) == cs,
    decreases cs.len(),
{
    if cs.len() > 0 {
        lemma_named_all(cs.drop_last(), name);
        assert(cs.drop_last().push(cs.last()) =~= cs);
    }
}

/// The measures of the encoding from `k` on read back, continuing the
/// state the first `k` left.
pub proof fn lemma_measures_read_back(ex: Exercise, breaks: Option<usize>, k: int)
    requires
        round_trippable(ex),
        1 <= k <= measures_spec(ex.notes@, ex.upm()).len(),
    ensures
        ({
            let count = measures_spec(ex.notes@, ex.upm()).len() as int;
            let mt = Seq::new(count as nat, |i: int| measure_tree(ex, breaks, i));
            crate::score::importer::measures_from(mt, k, state_after(ex, k - 1))
                == Ok::<ImportState, ImportFailure>(state_after(ex, count - 1))
        }),
    decreases measures_spec(ex.notes@, ex.upm()).len() - k,
{
    let tm = measures_spec(ex.notes@, ex.upm());
    let bm = measures_spec(ex.bass_notes@, ex.upm());
    let count = tm.len() as int;
    if k < count {
        lemma_measure_reads_back(ex, breaks, k, state_after(ex, k - 1));
        assert(concat_first(tm, k + 1) == concat_first(tm, k) + tm[k]);
        if has_bass(ex, k) {
            assert(concat_first(bm, k + 1) == concat_first(bm, k) + bm[k]);
        } else {
            lemma_measures_partition_voice(ex.bass_notes@, ex.upm());
            assert(bm.len() == 0);
            assert(concat_first(bm, k) + Seq::<ScoreNote>::empty() =~= concat_first(bm, k + 1));
        }
        lemma_measures_read_back(ex, breaks, k + 1);
    }
}

/// Importing the element tree an exercise's encoding spells out gives the
/// exercise back: its treble and bass voices, meter and key, under the
/// fallback title.
pub proof fn lemma_score_tree_imports_back(ex: Exercise, breaks: Option<usize>, fallback: Seq<char>)
    requires
        round_trippable(ex),
    ensures
        import_spec(score_tree(ex, breaks), fallback) == Ok::<PieceSpec, ImportFailure>(PieceSpec {
            title: fallback,
            notes: ex.notes@,
            bass: ex.bass_notes@,
            beats: ex.beats_per_measure as int,
            fifths: ex.fifths as int,
        }),
{
    let tm = measures_spec(ex.notes@, ex.upm());
    let bm = measures_spec(ex.bass_notes@, ex.upm());
    let count = tm.len() as int;
    let root = score_tree(ex, breaks);
    let cs = root.children;
    let part = cs[1];
    let mt = Seq::new(count as nat, |i: int| measure_tree(ex, breaks, i));
    reveal_strlit("score-partwise");
    reveal_strlit("part-list");
    reveal_strlit("part");
    reveal_strlit("measure");
    reveal_strlit("work");
    reveal_strlit("movement-title");
    assert("part-list"@.len() == 9 && "part"@.len() == 4 && "work"@.len() == 4 && "movement-title"@.len() == 14);
    assert("part"@[0] != "work"@[0]);
    lemma_measures_partition_voice(ex.notes@, ex.upm());
    lemma_measures_partition_voice(ex.bass_notes@, ex.upm());
    lemma_grand_iff_bass(ex);
    // As many measures as the treble voice fills, and at least one.
    assert(ex.measure_count_spec() == count);
    assert(count > 0) by {
        if count == 0 {
            assert(prefix_len(tm, 0) == 0);
        }
    }
    // The one part and its measures.
    assert(cs.drop_last() =~= seq![cs[0]]);
    assert(seq![cs[0]].drop_last() =~= Seq::<Tree>::empty());
    assert(named(seq![cs[0]], "part"@) == named(Seq::<Tree>::empty(), "part"@));
    assert(named(cs, "part"@) =~= seq![part]);
    assert(part.children == mt);
    lemma_named_all(mt, "measure"@);
    // The first measure sets the attributes; the rest follow.
    lemma_measure_reads_back(ex, breaks, 0, initial_state());
    assert(concat_first(tm, 1) == concat_first(tm, 0) + tm[0]);
    assert(initial_state().treble + tm[0] =~= concat_first(tm, 1));
    if has_bass(ex, 0) {
        assert(concat_first(bm, 1) == concat_first(bm, 0) + bm[0]);
        assert(initial_state().bass + bm[0] =~= concat_first(bm, 1));
    } else {
        assert(initial_state().bass + Seq::<ScoreNote>::empty() =~= concat_first(bm, 1));
    }
    lemma_measures_read_back(ex, breaks, 1);
    lemma_concat_first_all(tm);
    lemma_concat_first_all(bm);
    assert(state_after(ex, count - 1).treble == ex.notes@);
    assert(state_after(ex, count - 1).bass == ex.bass_notes@) by {
        if ex.bass_notes@.len() == 0 {
            assert(bm.len() == 0);
            assert(ex.bass_notes@ =~= Seq::<ScoreNote>::empty());
        }
    }
    // No work or movement title.
    lemma_first_named_none(cs, "work"@);
    lemma_first_named_none(cs, "movement-title"@);
    assert(seq!["work"@, "work-title"@][0] == "work"@);
    assert(seq!["movement-title"@][0] == "movement-title"@);
    assert(title_spec(root, fallback) == fallback);
}

/// The encoder's output round-trips through the importer: wherever
/// quick-xml reads the bytes of an exercise's encoding as the element
/// tree that encoding spells out, importing those bytes gives the
/// exercise back.
pub proof fn lemma_encoding_imports_back(ex: Exercise, breaks: Option<usize>, data: Seq<u8>, fallback: Seq<char>)
    requires
        round_trippable(ex),
        data == encoding(ex, breaks).map_values(|c: char| c as u8),
        document(data) == Some(score_tree(ex, breaks)),
    ensures
        import_bytes(data, fallback) == Ok::<PieceSpec, ImportFailure>(PieceSpec {
            title: fallback,
            notes: ex.notes@,
            bass: ex.bass_notes@,
            beats: ex.beats_per_measure as int,
            fifths: ex.fifths as int,
        }),
{
    lemma_score_tree_imports_back(ex, breaks, fallback);
}

/// System breaks ride inside the measures: an exercise's encoding with
/// one spacing of breaks imports exactly as with any other, or none.
pub proof fn lemma_breaks_are_transparent(ex: Exercise, a: Option<usize>, b: Option<usize>, fallback: Seq<char>)
    requires
        round_trippable(ex),
    ensures
        import_spec(score_tree(ex, a), fallback) == import_spec(score_tree(ex, b), fallback),
{
    lemma_score_tree_imports_back(ex, a, fallback);
    lemma_score_tree_imports_back(ex, b, fallback);
}

} // verus!
