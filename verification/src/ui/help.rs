//! The hover-help strings, verbatim, in one greppable table, and the
//! extractor that reads `.help( … )` call sites out of UI source text so a
//! new hover string can't be missed in the table.

use vstd::prelude::*;
use crate::text::{
    chars_of, decimal, find_at_or_after, find_from, lemma_find_from_bounds, push_nat, push_str, replace_all,
    replace_chars, slice_chars, to_string,
};
use crate::ui::panel::SurvivalPolicy;

verus! {

// Bottom bar.
pub const RENAME_PLAYER: &'static str = "Rename this player";
pub const ADD_PLAYER: &'static str = "Add a player";
pub const PLAYER_SETTINGS: &'static str = "Player settings — octave following, keys strip";
/// The Keys button while no piece is active.
pub const KEYS_TRAINING: &'static str = "Show the next key to play (remembered for training exercises)";
/// The Keys button while a repertoire piece is active.
pub const KEYS_PIECE: &'static str = "Show the next key to play (remembered for this piece)";
pub const RESUME_TRAINING: &'static str = "Back to adaptive exercises";
pub const ABOUT: &'static str = "How this trainer works — the skills, the vocabulary, the modes";

// Side panel.
/// The practice-from-here chip's clear button.
pub const CLEAR_REPLAY_START: &'static str = "Back to the top of the piece";
/// Status row "Following your octave (±n)".
pub const FOLLOWING_OCTAVE: &'static str =
    "You started an octave off the written notes — that's fine, the exercise follows you.";
/// Status row "Noisy input — progress tracking paused".
pub const STATS_SUPPRESSED: &'static str =
    "A burst of wrong notes looks like mashing, not practice — stats resume with the next clean note.";
/// Free play's Play / Stop button.
pub const FREE_PLAY_PLAYBACK: &'static str = "Replay everything you've played, at your timing";
/// End Drill (both the self-verify copy and the detected-input one).
pub const END_DRILL: &'static str = "Wrap up with your totals";
pub const END_RUN: &'static str = "Stop here and take the score";
/// The Hands picker.
pub const HANDS: &'static str = "Right = treble clef, Left = bass clef, Both = hands together. Auto rotates toward your weaker hand and mixes in two-hand exercises once the bass range is learned.";
pub const CALIBRATE: &'static str = "Measure this device's input latency";
pub const MIC_LEVEL: &'static str = "Microphone level";

/// The Survival footer button's help text.
pub open spec fn survival_text() -> Seq<char> {
    "Endless reading, "@ + decimal(3) + " lives — beat your best score"@
}

/// Every help string, in table order.
pub open spec fn help_table() -> Seq<Seq<char>> {
    seq![
        RENAME_PLAYER@, ADD_PLAYER@, PLAYER_SETTINGS@, KEYS_TRAINING@, KEYS_PIECE@, RESUME_TRAINING@,
        ABOUT@, CLEAR_REPLAY_START@, FOLLOWING_OCTAVE@, STATS_SUPPRESSED@, FREE_PLAY_PLAYBACK@,
        END_DRILL@, END_RUN@, HANDS@, CALIBRATE@, MIC_LEVEL@, survival_text(),
    ]
}

/// Every entry of the help table is non-empty, and no two are the same.
pub proof fn lemma_help_table_entries_unique_and_non_empty()
    ensures
        forall|i: int| 0 <= i < help_table().len() ==> (#[trigger] help_table()[i]).len() > 0,
        forall|i: int, j: int|
            0 <= i < j < help_table().len() ==> #[trigger] help_table()[i] != #[trigger] help_table()[j],
{
    reveal_strlit("Rename this player");
    reveal_strlit("Add a player");
    reveal_strlit("Player settings — octave following, keys strip");
    reveal_strlit("Show the next key to play (remembered for training exercises)");
    reveal_strlit("Show the next key to play (remembered for this piece)");
    reveal_strlit("Back to adaptive exercises");
    reveal_strlit("How this trainer works — the skills, the vocabulary, the modes");
    reveal_strlit("Back to the top of the piece");
    reveal_strlit("You started an octave off the written notes — that's fine, the exercise follows you.");
    reveal_strlit("A burst of wrong notes looks like mashing, not practice — stats resume with the next clean note.");
    reveal_strlit("Replay everything you've played, at your timing");
    reveal_strlit("Wrap up with your totals");
    reveal_strlit("Stop here and take the score");
    reveal_strlit("Right = treble clef, Left = bass clef, Both = hands together. Auto rotates toward your weaker hand and mixes in two-hand exercises once the bass range is learned.");
    reveal_strlit("Measure this device's input latency");
    reveal_strlit("Microphone level");
    reveal_strlit("Endless reading, ");
    reveal_strlit(" lives — beat your best score");
    let t = help_table();
    assert(decimal(3) == seq!['3']);
    assert forall|i: int| 0 <= i < t.len() implies (#[trigger] t[i]).len() > 0 by {}
    assert forall|i: int, j: int| 0 <= i < j < t.len() implies #[trigger] t[i] != #[trigger] t[j] by {
        if t[i].len() == t[j].len() {
            assert(t[i][0] != t[j][0] || t[i][1] != t[j][1] || t[i][5] != t[j][5] || t[i][14] != t[j][14]);
        }
    }
}

/// The Survival footer button: "Endless reading, 3 lives — beat your best
/// score".
pub fn survival() -> (s: String)
    ensures
        s@ == survival_text(),
{
    let mut out: Vec<char> = Vec::new();
    push_str(&mut out, "Endless reading, ");
    push_nat(&mut out, SurvivalPolicy::START_LIVES as u64);
    push_str(&mut out, " lives — beat your best score");
    to_string(&out)
}

/// Every help string, for the completeness check.
pub fn all() -> (table: Vec<String>)
    ensures
        table@.map_values(|s: String| s@) == help_table(),
{
    let mut table: Vec<String> = Vec::new();
    table.push(String::from_str(RENAME_PLAYER));
    table.push(String::from_str(ADD_PLAYER));
    table.push(String::from_str(PLAYER_SETTINGS));
    table.push(String::from_str(KEYS_TRAINING));
    table.push(String::from_str(KEYS_PIECE));
    table.push(String::from_str(RESUME_TRAINING));
    table.push(String::from_str(ABOUT));
    table.push(String::from_str(CLEAR_REPLAY_START));
    table.push(String::from_str(FOLLOWING_OCTAVE));
    table.push(String::from_str(STATS_SUPPRESSED));
    table.push(String::from_str(FREE_PLAY_PLAYBACK));
    table.push(String::from_str(END_DRILL));
    table.push(String::from_str(END_RUN));
    table.push(String::from_str(HANDS));
    table.push(String::from_str(CALIBRATE));
    table.push(String::from_str(MIC_LEVEL));
    table.push(survival());
    assert(table@.map_values(|s: String| s@) =~= help_table());
    table
}

// ── Extracting `.help( … )` arguments from source text ─────────────────

/// The position of the `)` that closes a call whose argument starts at `i`
/// with `depth` parentheses open; the end of the text when none does.
pub open spec fn close_paren(s: Seq<char>, i: int, depth: int) -> int
    decreases s.len() - i,
{
    if i < 0 || i >= s.len() {
        s.len() as int
    } else if s[i] == '(' {
        close_paren(s, i + 1, depth + 1)
    } else if s[i] == ')' {
        if depth - 1 == 0 { i } else { close_paren(s, i + 1, depth - 1) }
    } else {
        close_paren(s, i + 1, depth)
    }
}

/// The contents of the closed string literals in `arg` from `i` on: the
/// text between the first and second `"`, the third and fourth, and so on.
pub open spec fn quoted_from(arg: Seq<char>, i: int) -> Seq<Seq<char>>
    decreases arg.len() - i,
{
    match find_from(arg, seq!['"'], i) {
        None => Seq::empty(),
        Some(q1) => match find_from(arg, seq!['"'], q1 + 1) {
            None => Seq::empty(),
            Some(q2) => if q2 <= i || q2 >= arg.len() || q1 < i || q1 >= q2 {
                Seq::empty()
            } else {
                seq![arg.subrange(q1 + 1, q2)] + quoted_from(arg, q2 + 1)
            },
        },
    }
}

/// The interpolation of the starting lives inside a help literal.
pub open spec fn lives_token() -> Seq<char> {
    "\\(SurvivalPolicy.startLives)"@
}

/// The help strings of the `.help( … )` calls from position `pos` on, each
/// literal's lives interpolation substituted.
pub open spec fn help_calls_from(s: Seq<char>, pos: int) -> Seq<Seq<char>>
    decreases s.len() - pos,
{
    match find_from(s, ".help("@, pos) {
        None => Seq::empty(),
        Some(at) => {
            let start = at + 6;
            let end = close_paren(s, start, 1);
            if end <= pos || end > s.len() || start > end {
                Seq::empty()
            } else {
                quoted_from(s.subrange(start, end), 0).map_values(|l: Seq<char>| replace_all(l, lives_token(), decimal(3)))
                    + help_calls_from(s, end)
            }
        },
    }
}

proof fn lemma_close_paren_bounds(s: Seq<char>, i: int, depth: int)
    requires
        0 <= i,
    ensures
        i <= close_paren(s, i, depth) <= s.len() || (i > s.len() && close_paren(s, i, depth) == s.len()),
    decreases s.len() - i,
{
    if i < 0 || i >= s.len() {
    } else if s[i] == '(' {
        lemma_close_paren_bounds(s, i + 1, depth + 1);
    } else if s[i] == ')' {
        if depth - 1 != 0 {
            lemma_close_paren_bounds(s, i + 1, depth - 1);
        }
    } else {
        lemma_close_paren_bounds(s, i + 1, depth);
    }
}

/// The position of the `)` closing a call whose argument starts at `start`.
fn closing_paren(s: &Vec<char>, start: usize) -> (end: usize)
    requires
        1 <= start <= s@.len(),
    ensures
        end as int == close_paren(s@, start as int, 1),
{
    let mut i: usize = start;
    let mut depth: usize = 1;
    while i < s.len()
        invariant
            1 <= start <= i <= s@.len(),
            1 <= depth <= i - start + 1,
            close_paren(s@, start as int, 1) == close_paren(s@, i as int, depth as int),
        decreases s.len() - i,
    {
        if s[i] == '(' {
            depth = depth + 1;
        } else if s[i] == ')' {
            if depth - 1 == 0 {
                return i;
            }
            depth = depth - 1;
        }
        i = i + 1;
    }
    s.len()
}

/// Every string literal inside `.help( … )` in a UI source text — the
/// argument may be a plain literal or a ternary of two, possibly over
/// several lines; the starting-lives interpolation is substituted like the
/// app does.
pub fn help_strings_in(source: &str) -> (out: Vec<String>)
    ensures
        out@.map_values(|s: String| s@) == help_calls_from(source@, 0),
{
    let s = chars_of(source);
    let call = chars_of(".help(");
    let quote = chars_of("\"");
    let token = chars_of("\\(SurvivalPolicy.startLives)");
    let mut lives: Vec<char> = Vec::new();
    push_nat(&mut lives, SurvivalPolicy::START_LIVES as u64);
    proof {
        reveal_strlit(".help(");
        reveal_strlit("\"");
        assert(quote@ =~= seq!['"']);
        reveal_strlit("\\(SurvivalPolicy.startLives)");
    }
    let mut out: Vec<String> = Vec::new();
    let mut pos: usize = 0;
    while pos <= s.len()
        invariant
            pos <= s@.len(),
            s@ == source@,
            call@ == ".help("@,
            call@.len() == 6,
            quote@ == seq!['"'],
            token@ == lives_token(),
            token@.len() > 0,
            lives@ == decimal(3),
            out@.map_values(|x: String| x@) + help_calls_from(s@, pos as int) == help_calls_from(s@, 0),
        decreases s.len() - pos,
    {
        match find_at_or_after(&s, &call, pos) {
            None => {
                assert(out@.map_values(|x: String| x@) =~= help_calls_from(s@, 0));
                return out;
            },
            Some(at) => {
                proof {
                    lemma_find_from_bounds(s@, call@, pos as int);
                }
                let start = at + 6;
                let end = closing_paren(&s, start);
                proof {
                    lemma_close_paren_bounds(s@, start as int, 1);
                }
                let arg = slice_chars(&s, start, end);
                let ghost before = out@.map_values(|x: String| x@);
                let ghost lits = quoted_from(arg@, 0);
                let mut q: usize = 0;
                let mut count: usize = 0;
                while q <= arg.len()
                    invariant
                        q <= arg@.len(),
                        quote@ == seq!['"'],
                        token@ == lives_token(),
                        token@.len() > 0,
                        lives@ == decimal(3),
                        count <= lits.len(),
                        count <= q,
                        lits == quoted_from(arg@, 0),
                        lits.subrange(count as int, lits.len() as int) == quoted_from(arg@, q as int),
                        out@.map_values(|x: String| x@) == before + lits.take(count as int).map_values(
                            |l: Seq<char>| replace_all(l, lives_token(), decimal(3)),
                        ),
                    ensures
                        count <= lits.len(),
                        lits == quoted_from(arg@, 0),
                        lits.subrange(count as int, lits.len() as int) == quoted_from(arg@, q as int),
                        quoted_from(arg@, q as int).len() == 0,
                        out@.map_values(|x: String| x@) == before + lits.take(count as int).map_values(
                            |l: Seq<char>| replace_all(l, lives_token(), decimal(3)),
                        ),
                    decreases arg.len() - q,
                {
                    let q1 = match find_at_or_after(&arg, &quote, q) {
                        None => {
                            break;
                        },
                        Some(x) => x,
                    };
                    proof {
                        lemma_find_from_bounds(arg@, quote@, q as int);
                    }
                    let q2 = match find_at_or_after(&arg, &quote, q1 + 1) {
                        None => {
                            break;
                        },
                        Some(x) => x,
                    };
                    proof {
                        lemma_find_from_bounds(arg@, quote@, q1 + 1);
                    }
                    let literal = slice_chars(&arg, q1 + 1, q2);
                    let replaced = replace_chars(&literal, &token, &lives);
                    let ghost prev = out@;
                    let text = to_string(&replaced);
                    out.push(text);
                    proof {
                        assert(quoted_from(arg@, q as int) == seq![arg@.subrange(q1 + 1, q2 as int)] + quoted_from(arg@, q2 + 1));
                        let tail = lits.subrange(count as int, lits.len() as int);
                        assert(tail[0] == literal@);
                        assert(lits[count as int] == literal@);
                        assert(lits.subrange(count + 1, lits.len() as int) =~= tail.subrange(1, tail.len() as int));
                        assert(lits.take(count + 1) =~= lits.take(count as int).push(literal@));
                        assert(out@ == prev.push(text));
                        assert(text@ == replace_all(lits[count as int], lives_token(), decimal(3)));
                        let f = |l: Seq<char>| replace_all(l, lives_token(), decimal(3));
                        assert(out@.map_values(|x: String| x@) =~= prev.map_values(|x: String| x@).push(text@));
                        assert(lits.take(count + 1).map_values(f) =~= lits.take(count as int).map_values(f).push(f(literal@)));
                        assert(out@.map_values(|x: String| x@) =~= before + lits.take(count + 1).map_values(
                            |l: Seq<char>| replace_all(l, lives_token(), decimal(3)),
                        ));
                    }
                    count = count + 1;
                    q = q2 + 1;
                }
                proof {
                    assert(lits.subrange(count as int, lits.len() as int).len() == 0);
                    assert(lits.take(count as int) =~= lits);
                    assert(help_calls_from(s@, pos as int) =~= lits.map_values(
                        |l: Seq<char>| replace_all(l, lives_token(), decimal(3)),
                    ) + help_calls_from(s@, end as int));
                    assert(out@.map_values(|x: String| x@) + help_calls_from(s@, end as int) =~= help_calls_from(s@, 0));
                }
                if end >= s.len() {
                    proof {
                        assert(help_calls_from(s@, end as int) =~= Seq::<Seq<char>>::empty()) by {
                            lemma_find_from_bounds(s@, call@, end as int);
                        }
                    }
                    assert(out@.map_values(|x: String| x@) =~= help_calls_from(s@, 0));
                    return out;
                }
                pos = end;
            },
        }
    }
    out
}

} // verus!
