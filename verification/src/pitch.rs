//! Pitch spelling: note names, staff positions and key-signature names.

use vstd::prelude::*;
use crate::text::{decimal, int_text, push_int, push_str, to_string};

verus! {

/// A spelled pitch: letter, chromatic alteration (-1, 0, +1) and octave.
#[derive(Debug, Clone, Copy, PartialEq, Eq)]
pub struct Spelling {
    pub step: char,
    pub alter: i32,
    pub octave: i32,
}

pub struct PitchSpelling;

/// Scientific octave number (middle C = 60 is octave 4).
pub open spec fn octave_of(midi: int) -> int {
    midi / 12 - 1
}

/// Letter index 0..=6 (C..B) of a pitch class spelled with sharps.
pub open spec fn sharp_step_index(pc: int) -> int {
    if pc <= 1 { 0 }
    else if pc <= 3 { 1 }
    else if pc == 4 { 2 }
    else if pc <= 6 { 3 }
    else if pc <= 8 { 4 }
    else if pc <= 10 { 5 }
    else { 6 }
}

/// Whether the pitch class is a black key.
pub open spec fn is_black(pc: int) -> bool {
    pc == 1 || pc == 3 || pc == 6 || pc == 8 || pc == 10
}

/// The letter for a letter index.
pub open spec fn step_letter(index: int) -> char {
    if index == 0 { 'C' }
    else if index == 1 { 'D' }
    else if index == 2 { 'E' }
    else if index == 3 { 'F' }
    else if index == 4 { 'G' }
    else if index == 5 { 'A' }
    else { 'B' }
}

/// The spelling of `midi`: black keys as sharps of the letter below, or
/// (when `flats`) as flats of the letter above.
pub open spec fn spell_spec(midi: int, flats: bool) -> Spelling {
    let pc = midi % 12;
    if is_black(pc) && flats {
        Spelling { step: step_letter(sharp_step_index(pc) + 1), alter: -1i32, octave: octave_of(midi) as i32 }
    } else if is_black(pc) {
        Spelling { step: step_letter(sharp_step_index(pc)), alter: 1i32, octave: octave_of(midi) as i32 }
    } else {
        Spelling { step: step_letter(sharp_step_index(pc)), alter: 0i32, octave: octave_of(midi) as i32 }
    }
}

/// The sharp-spelled name: letter, `#` for a black key, octave ("C#4").
pub open spec fn pitch_name(midi: int) -> Seq<char> {
    let pc = midi % 12;
    let letter = seq![step_letter(sharp_step_index(pc))];
    let accidental = if is_black(pc) { seq!['#'] } else { Seq::<char>::empty() };
    letter + accidental + int_text(octave_of(midi))
}

/// One index per staff position: seven per octave, sharps sharing their
/// natural's position.
pub open spec fn diatonic_index_spec(midi: int) -> int {
    7 * octave_of(midi) + sharp_step_index(midi % 12)
}

/// Rank of a letter in the order of sharps (F C G D A E B); 7 for a
/// non-letter.
pub open spec fn sharp_rank(c: char) -> int {
    if c == 'F' { 0 }
    else if c == 'C' { 1 }
    else if c == 'G' { 2 }
    else if c == 'D' { 3 }
    else if c == 'A' { 4 }
    else if c == 'E' { 5 }
    else if c == 'B' { 6 }
    else { 7 }
}

/// Rank of a letter in the order of flats (B E A D G C F); 7 for a
/// non-letter.
pub open spec fn flat_rank(c: char) -> int {
    if c == 'B' { 0 }
    else if c == 'E' { 1 }
    else if c == 'A' { 2 }
    else if c == 'D' { 3 }
    else if c == 'G' { 4 }
    else if c == 'C' { 5 }
    else if c == 'F' { 6 }
    else { 7 }
}

/// The alteration a key signature of `fifths` applies to a letter: +1
/// when the letter is among the signature's first `min(fifths, 7)`
/// sharps, -1 among its first `min(-fifths, 7)` flats, 0 otherwise (and
/// for anything that is not a note letter).
pub open spec fn key_alteration_spec(step: Seq<char>, fifths: int) -> int {
    if fifths > 0 && step.len() == 1 && sharp_rank(step[0]) < 7 && sharp_rank(step[0]) < fifths {
        1
    } else if fifths < 0 && step.len() == 1 && flat_rank(step[0]) < 7 && flat_rank(step[0]) < -fifths {
        -1
    } else {
        0
    }
}

/// The major key with `fifths` sharps (positive) or flats (negative);
/// keys beyond seven accidentals fall back to C major.
pub open spec fn key_name_spec(fifths: int) -> Seq<char> {
    let tonic: Seq<char> = if fifths == 1 { seq!['G'] }
        else if fifths == 2 { seq!['D'] }
        else if fifths == 3 { seq!['A'] }
        else if fifths == 4 { seq!['E'] }
        else if fifths == 5 { seq!['B'] }
        else if fifths == 6 { seq!['F', '♯'] }
        else if fifths == 7 { seq!['C', '♯'] }
        else if fifths == -1 { seq!['F'] }
        else if fifths == -2 { seq!['B', '♭'] }
        else if fifths == -3 { seq!['E', '♭'] }
        else if fifths == -4 { seq!['A', '♭'] }
        else if fifths == -5 { seq!['D', '♭'] }
        else if fifths == -6 { seq!['G', '♭'] }
        else if fifths == -7 { seq!['C', '♭'] }
        else { seq!['C'] };
    tonic + seq![' ', 'm', 'a', 'j', 'o', 'r']
}

fn step_index_of(pc: u8) -> (r: u8)
    requires
        pc < 12,
    ensures
        r as int == sharp_step_index(pc as int),
{
    if pc <= 1 { 0 }
    else if pc <= 3 { 1 }
    else if pc == 4 { 2 }
    else if pc <= 6 { 3 }
    else if pc <= 8 { 4 }
    else if pc <= 10 { 5 }
    else { 6 }
}

fn letter_of(index: u8) -> (c: char)
    ensures
        c == step_letter(index as int),
{
    if index == 0 { 'C' }
    else if index == 1 { 'D' }
    else if index == 2 { 'E' }
    else if index == 3 { 'F' }
    else if index == 4 { 'G' }
    else if index == 5 { 'A' }
    else { 'B' }
}

fn black(pc: u8) -> (b: bool)
    ensures
        b == is_black(pc as int),
{
    pc == 1 || pc == 3 || pc == 6 || pc == 8 || pc == 10
}

impl PitchSpelling {
    /// Spells `midi`; black keys become flats when `prefer_flats`.
    pub fn spell(midi: u8, prefer_flats: bool) -> (s: Spelling)
        ensures
            s == spell_spec(midi as int, prefer_flats),
    {
        let pc = midi % 12;
        let octave: i32 = (midi / 12) as i32 - 1;
        let index = step_index_of(pc);
        if black(pc) && prefer_flats {
            Spelling { step: letter_of(index + 1), alter: -1, octave }
        } else if black(pc) {
            Spelling { step: letter_of(index), alter: 1, octave }
        } else {
            Spelling { step: letter_of(index), alter: 0, octave }
        }
    }

    /// The sharp-spelled note name ("C4", "C#4").
    pub fn name(midi: u8) -> (s: String)
        ensures
            s@ == pitch_name(midi as int),
    {
        let mut out: Vec<char> = Vec::new();
        push_name(&mut out, midi);
        to_string(&out)
    }

    /// Staff position: consecutive naturals differ by one.
    pub fn diatonic_index(midi: u8) -> (i: i32)
        ensures
            i as int == diatonic_index_spec(midi as int),
    {
        let octave: i32 = (midi / 12) as i32 - 1;
        7 * octave + step_index_of(midi % 12) as i32
    }

    /// "C major", "B♭ major", "F♯ major" …
    pub fn key_name(fifths: i32) -> (s: String)
        ensures
            s@ == key_name_spec(fifths as int),
    {
        let mut out: Vec<char> = Vec::new();
        if fifths == 1 { out.push('G'); }
        else if fifths == 2 { out.push('D'); }
        else if fifths == 3 { out.push('A'); }
        else if fifths == 4 { out.push('E'); }
        else if fifths == 5 { out.push('B'); }
        else if fifths == 6 { out.push('F'); out.push('♯'); }
        else if fifths == 7 { out.push('C'); out.push('♯'); }
        else if fifths == -1 { out.push('F'); }
        else if fifths == -2 { out.push('B'); out.push('♭'); }
        else if fifths == -3 { out.push('E'); out.push('♭'); }
        else if fifths == -4 { out.push('A'); out.push('♭'); }
        else if fifths == -5 { out.push('D'); out.push('♭'); }
        else if fifths == -6 { out.push('G'); out.push('♭'); }
        else if fifths == -7 { out.push('C'); out.push('♭'); }
        else { out.push('C'); }
        out.push(' ');
        out.push('m');
        out.push('a');
        out.push('j');
        out.push('o');
        out.push('r');
        proof {
            assert(out@ =~= key_name_spec(fifths as int));
        }
        to_string(&out)
    }
}

/// Appends the sharp-spelled name of `midi`.
pub fn push_name(out: &mut Vec<char>, midi: u8)
    ensures
        final(out)@ == old(out)@ + pitch_name(midi as int),
{
    let ghost start = out@;
    let pc = midi % 12;
    out.push(letter_of(step_index_of(pc)));
    if black(pc) {
        out.push('#');
    }
    let octave: i64 = (midi / 12) as i64 - 1;
    let ghost mid = out@;
    push_int(out, octave);
    proof {
        assert(out@ =~= start + pitch_name(midi as int));
    }
}

/// Whether a letter is altered by the key signature: the key-alteration
/// rule on a single character.
pub fn key_alteration_of(step: char, fifths: i32) -> (r: i32)
    ensures
        r as int == key_alteration_spec(seq![step], fifths as int),
{
    let sharp: i32 = if step == 'F' { 0 } else if step == 'C' { 1 } else if step == 'G' { 2 }
        else if step == 'D' { 3 } else if step == 'A' { 4 } else if step == 'E' { 5 }
        else if step == 'B' { 6 } else { 7 };
    let flat: i32 = if step == 'B' { 0 } else if step == 'E' { 1 } else if step == 'A' { 2 }
        else if step == 'D' { 3 } else if step == 'G' { 4 } else if step == 'C' { 5 }
        else if step == 'F' { 6 } else { 7 };
    assert(seq![step][0] == step);
    if fifths > 0 && sharp < 7 && sharp < fifths {
        1
    } else if fifths < 0 && flat < 7 && (flat as i64) < -(fifths as i64) {
        -1
    } else {
        0
    }
}


/// One staff position per letter: a black key shares the position of the
/// key below it, and every white key sits one position above the key
/// below it.
pub proof fn lemma_one_position_per_letter(midi: int)
    ensures
        diatonic_index_spec(midi) == diatonic_index_spec(midi - 1) + (if is_black(midi % 12) { 0int } else { 1int }),
{
    let q = midi / 12;
    let r = midi % 12;
    assert(midi == 12 * q + r && 0 <= r < 12);
    if r == 0 {
        assert((midi - 1) / 12 == q - 1 && (midi - 1) % 12 == 11) by {
            assert(midi - 1 == 12 * (q - 1) + 11);
        }
    } else {
        assert((midi - 1) / 12 == q && (midi - 1) % 12 == r - 1) by {
            assert(midi - 1 == 12 * q + (r - 1));
        }
    }
}

} // verus!
