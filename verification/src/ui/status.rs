//! The side panel's status block and the summary that closes an exercise,
//! as `InfoRow` lists, and the instructions paragraph per activity.

use vstd::prelude::*;
use crate::text::{decimal, int_text, push_int, push_nat, push_str, to_string};
use crate::ui::panel::{
    row, rows_view, text_row, accuracy_spec, ExerciseSummary, Icon, InfoRow, InputSource, PacingMode, Phase,
    RowStyle, RowView, SessionState, SurvivalPolicy, TextSize, Tint,
};

verus! {

/// Appends one row.
fn push_row(rows: &mut Vec<InfoRow>, r: InfoRow)
    ensures
        rows_view(final(rows)@) == rows_view(old(rows)@).push(r@),
{
    let ghost before = rows@;
    rows.push(r);
    assert(rows_view(rows@) =~= rows_view(before).push(r@));
}

/// A row of the given decorations, its text built by the caller.
fn mk(out: &Vec<char>, size: TextSize, icon: Option<Icon>, color: Option<Tint>, style: RowStyle, dim: bool) -> (r: InfoRow)
    ensures
        r@ == row(out@, size, icon, color, style, dim),
{
    InfoRow::decorated(to_string(out), size, icon, color, style, dim)
}

/// A row with a literal text.
fn lit(text: &str, size: TextSize, icon: Option<Icon>, color: Option<Tint>, style: RowStyle, dim: bool) -> (r: InfoRow)
    ensures
        r@ == row(text@, size, icon, color, style, dim),
{
    InfoRow::decorated(String::from_str(text), size, icon, color, style, dim)
}

/// An optional row.
pub open spec fn when(c: bool, r: RowView) -> Seq<RowView> {
    if c { seq![r] } else { Seq::empty() }
}

// ── Survival ───────────────────────────────────────────────────────────

/// The lives hearts: filled red up to the lives left, outlined after.
pub open spec fn hearts_spec(lives: int) -> Seq<(Icon, Option<Tint>)> {
    Seq::new(3, |i: int| if i < lives { (Icon::Heart, Some(Tint::Red)) } else { (Icon::HeartOutline, None::<Tint>) })
}

/// While a survival run plays: the lives, the note count, and the streak
/// once it reaches 5.
pub open spec fn survival_rows_spec(st: SessionState) -> Seq<RowView> {
    seq![
        RowView { glyphs: Some(hearts_spec(st.survival_lives as int)), ..text_row(Seq::empty(), TextSize::Body) },
        row(int_text(st.survival_notes as int) + " notes"@, TextSize::Body, None, None, RowStyle::Mono, false),
    ] + when(st.streak >= 5, row(
        int_text(st.streak as int) + " streak"@,
        TextSize::Body,
        Some(Icon::Flame),
        Some(Tint::Orange),
        RowStyle::Mono,
        false,
    ))
}

/// The survival status rows.
pub fn survival_rows(st: &SessionState) -> (rows: Vec<InfoRow>)
    ensures
        rows_view(rows@) == survival_rows_spec(*st),
{
    let mut hearts: Vec<(Icon, Option<Tint>)> = Vec::new();
    let mut i: i32 = 0;
    while i < SurvivalPolicy::START_LIVES
        invariant
            0 <= i <= 3,
            hearts@ == hearts_spec(st.survival_lives as int).take(i as int),
        decreases 3 - i,
    {
        if i < st.survival_lives {
            hearts.push((Icon::Heart, Some(Tint::Red)));
        } else {
            hearts.push((Icon::HeartOutline, None));
        }
        i = i + 1;
        assert(hearts@ =~= hearts_spec(st.survival_lives as int).take(i as int));
    }
    assert(hearts@ =~= hearts_spec(st.survival_lives as int));
    let mut rows: Vec<InfoRow> = Vec::new();
    push_row(&mut rows, InfoRow::glyph_run(hearts, TextSize::Body));
    let mut out: Vec<char> = Vec::new();
    push_int(&mut out, st.survival_notes);
    push_str(&mut out, " notes");
    push_row(&mut rows, mk(&out, TextSize::Body, None, None, RowStyle::Mono, false));
    if st.streak >= 5 {
        let mut out: Vec<char> = Vec::new();
        push_int(&mut out, st.streak);
        push_str(&mut out, " streak");
        push_row(&mut rows, mk(&out, TextSize::Body, Some(Icon::Flame), Some(Tint::Orange), RowStyle::Mono, false));
    }
    assert(rows_view(rows@) =~= survival_rows_spec(*st));
    rows
}

// ── Drill ──────────────────────────────────────────────────────────────

/// While the drill plays on a detected input: the card number, the streak
/// at any length (orange from 5, dim below), and the lit-key hint after a
/// miss.
pub open spec fn drill_rows_spec(st: SessionState) -> Seq<RowView> {
    let streak_text = int_text(st.streak as int) + " streak"@;
    let streak = if st.streak >= 5 {
        row(streak_text, TextSize::Body, Some(Icon::Flame), Some(Tint::Orange), RowStyle::Mono, false)
    } else {
        row(streak_text, TextSize::Body, Some(Icon::Flame), None, RowStyle::Mono, true)
    };
    seq![
        row("Card "@ + decimal((st.drill_cards_done + 1) as nat), TextSize::Body, None, None, RowStyle::Mono, false),
        streak,
    ] + when(st.drill_hint_keys, row(
        "Find the lit key below"@,
        TextSize::Callout,
        Some(Icon::Keyboard),
        Some(Tint::Blue),
        RowStyle::Plain,
        false,
    ))
}

/// The drill status rows.
pub fn drill_rows(st: &SessionState) -> (rows: Vec<InfoRow>)
    requires
        st.counters_fit(),
    ensures
        rows_view(rows@) == drill_rows_spec(*st),
{
    let mut rows: Vec<InfoRow> = Vec::new();
    let mut card: Vec<char> = Vec::new();
    push_str(&mut card, "Card ");
    push_nat(&mut card, st.drill_cards_done + 1);
    push_row(&mut rows, mk(&card, TextSize::Body, None, None, RowStyle::Mono, false));
    let mut streak: Vec<char> = Vec::new();
    push_int(&mut streak, st.streak);
    push_str(&mut streak, " streak");
    if st.streak >= 5 {
        push_row(&mut rows, mk(&streak, TextSize::Body, Some(Icon::Flame), Some(Tint::Orange), RowStyle::Mono, false));
    } else {
        push_row(&mut rows, mk(&streak, TextSize::Body, Some(Icon::Flame), None, RowStyle::Mono, true));
    }
    if st.drill_hint_keys {
        push_row(&mut rows, lit("Find the lit key below", TextSize::Callout, Some(Icon::Keyboard), Some(Tint::Blue), RowStyle::Plain, false));
    }
    assert(rows_view(rows@) =~= drill_rows_spec(*st));
    rows
}

// ── Training ───────────────────────────────────────────────────────────

/// The pass or note counter.
pub open spec fn counter_row(st: SessionState) -> RowView {
    if st.input_source == InputSource::SelfVerify {
        row("Pass "@ + decimal((st.self_verify_attempts + 1) as nat), TextSize::Body, None, None, RowStyle::Mono, false)
    } else {
        row(
            "Note "@ + int_text(st.current_note_number as int) + " of "@ + int_text(st.note_count as int),
            TextSize::Body,
            None,
            None,
            RowStyle::Mono,
            false,
        )
    }
}

/// The octave the player is followed at, signed.
pub open spec fn octave_text(n: int) -> Seq<char> {
    "Following your octave ("@ + (if n > 0 { "+"@ } else { Seq::empty() }) + int_text(n) + ")"@
}

/// The tempo rows: the count-in and the tempo, or the beat dots captioned
/// with the tempo.
pub open spec fn tempo_rows(st: SessionState) -> Seq<RowView> {
    let bpm = int_text(st.tempo_bpm as int) + " BPM"@;
    if st.active_pacing == PacingMode::Tempo {
        match st.count_in_remaining {
            Some(c) => seq![
                row("Ready… "@ + int_text(c as int), TextSize::Body, None, Some(Tint::Blue), RowStyle::Bold, false),
                row(bpm, TextSize::Callout, None, None, RowStyle::Mono, true),
            ],
            None => seq![RowView { beat: Some((st.beat_in_measure, 4usize)), ..text_row(bpm, TextSize::Callout) }],
        }
    } else {
        Seq::empty()
    }
}

/// The notices between the counter and the tempo: mistakes, the streak
/// from 5, octave following, uncertain hearing, paused tracking.
pub open spec fn notice_rows(st: SessionState) -> Seq<RowView> {
    when(st.errors_this_exercise > 0, row(
        int_text(st.errors_this_exercise as int) + " wrong"@,
        TextSize::Body,
        None,
        Some(Tint::Red),
        RowStyle::Mono,
        false,
    ))
        + when(st.streak >= 5, row(
            int_text(st.streak as int) + " first-try streak"@,
            TextSize::Body,
            Some(Icon::Flame),
            Some(Tint::Orange),
            RowStyle::Mono,
            false,
        ))
        + when(st.anchored_octaves != 0, row(
            octave_text(st.anchored_octaves as int),
            TextSize::Callout,
            Some(Icon::UpDown),
            Some(Tint::Blue),
            RowStyle::Plain,
            false,
        ))
        + when(st.heard_uncertain, row(
            "Heard something — couldn't tell what"@,
            TextSize::Callout,
            Some(Icon::Ear),
            Some(Tint::Orange),
            RowStyle::Plain,
            false,
        ))
        + when(st.stats_suppressed, row(
            "Noisy input — progress tracking paused"@,
            TextSize::Callout,
            Some(Icon::PauseCircle),
            None,
            RowStyle::Plain,
            true,
        ))
}

/// While training plays: the counter, the notices, and the tempo.
pub open spec fn playing_rows_spec(st: SessionState) -> Seq<RowView> {
    seq![counter_row(st)] + notice_rows(st) + tempo_rows(st)
}

fn push_notices(rows: &mut Vec<InfoRow>, st: &SessionState)
    ensures
        rows_view(final(rows)@) == rows_view(old(rows)@) + notice_rows(*st),
{
    let ghost before = rows_view(rows@);
    if st.errors_this_exercise > 0 {
        let mut out: Vec<char> = Vec::new();
        push_int(&mut out, st.errors_this_exercise);
        push_str(&mut out, " wrong");
        push_row(rows, mk(&out, TextSize::Body, None, Some(Tint::Red), RowStyle::Mono, false));
    }
    let ghost a = rows_view(rows@);
    if st.streak >= 5 {
        let mut out: Vec<char> = Vec::new();
        push_int(&mut out, st.streak);
        push_str(&mut out, " first-try streak");
        push_row(rows, mk(&out, TextSize::Body, Some(Icon::Flame), Some(Tint::Orange), RowStyle::Mono, false));
    }
    let ghost b = rows_view(rows@);
    if st.anchored_octaves != 0 {
        let mut out: Vec<char> = Vec::new();
        push_str(&mut out, "Following your octave (");
        if st.anchored_octaves > 0 {
            push_str(&mut out, "+");
        }
        push_int(&mut out, st.anchored_octaves as i64);
        push_str(&mut out, ")");
        assert(out@ =~= octave_text(st.anchored_octaves as int));
        push_row(rows, mk(&out, TextSize::Callout, Some(Icon::UpDown), Some(Tint::Blue), RowStyle::Plain, false));
    }
    let ghost c = rows_view(rows@);
    if st.heard_uncertain {
        push_row(rows, lit("Heard something — couldn't tell what", TextSize::Callout, Some(Icon::Ear), Some(Tint::Orange), RowStyle::Plain, false));
    }
    let ghost d = rows_view(rows@);
    if st.stats_suppressed {
        push_row(rows, lit("Noisy input — progress tracking paused", TextSize::Callout, Some(Icon::PauseCircle), None, RowStyle::Plain, true));
    }
    assert(rows_view(rows@) =~= before + notice_rows(*st));
}

fn push_tempo(rows: &mut Vec<InfoRow>, st: &SessionState)
    ensures
        rows_view(final(rows)@) == rows_view(old(rows)@) + tempo_rows(*st),
{
    let ghost before = rows_view(rows@);
    if st.active_pacing == PacingMode::Tempo {
        let mut bpm: Vec<char> = Vec::new();
        push_int(&mut bpm, st.tempo_bpm);
        push_str(&mut bpm, " BPM");
        match st.count_in_remaining {
            Some(c) => {
                let mut ready: Vec<char> = Vec::new();
                push_str(&mut ready, "Ready… ");
                push_int(&mut ready, c);
                push_row(rows, mk(&ready, TextSize::Body, None, Some(Tint::Blue), RowStyle::Bold, false));
                push_row(rows, mk(&bpm, TextSize::Callout, None, None, RowStyle::Mono, true));
            },
            None => {
                push_row(rows, InfoRow::beat_dots(st.beat_in_measure, 4, to_string(&bpm), TextSize::Callout));
            },
        }
    }
    assert(rows_view(rows@) =~= before + tempo_rows(*st));
}

/// The training status rows.
pub fn playing_rows(st: &SessionState) -> (rows: Vec<InfoRow>)
    requires
        st.counters_fit(),
    ensures
        rows_view(rows@) == playing_rows_spec(*st),
{
    let mut rows: Vec<InfoRow> = Vec::new();
    let mut first: Vec<char> = Vec::new();
    if st.input_source == InputSource::SelfVerify {
        push_str(&mut first, "Pass ");
        push_nat(&mut first, st.self_verify_attempts + 1);
    } else {
        push_str(&mut first, "Note ");
        push_int(&mut first, st.current_note_number);
        push_str(&mut first, " of ");
        push_int(&mut first, st.note_count);
    }
    push_row(&mut rows, mk(&first, TextSize::Body, None, None, RowStyle::Mono, false));
    let ghost a = rows_view(rows@);
    assert(a =~= seq![counter_row(*st)]);
    push_notices(&mut rows, st);
    push_tempo(&mut rows, st);
    assert(rows_view(rows@) =~= playing_rows_spec(*st));
    rows
}

// ── Summary ────────────────────────────────────────────────────────────

/// The survival block that opens a run's summary.
pub open spec fn survival_block(s: ExerciseSummary) -> Seq<RowView> {
    match s.survival {
        None => Seq::empty(),
        Some(sv) => seq![
            row("Score: "@ + int_text(sv.score as int), TextSize::Body, Some(Icon::FlagCheckered), None, RowStyle::Bold, false),
            row(
                int_text(sv.notes as int) + " notes · "@ + int_text(sv.notes_per_minute as int) + " notes/min · difficulty "@
                    + sv.difficulty@,
                TextSize::Callout,
                None,
                None,
                RowStyle::Plain,
                true,
            ),
        ] + (if sv.is_new_best {
            seq![row("New best!"@, TextSize::Body, Some(Icon::Trophy), Some(Tint::Orange), RowStyle::Bold, false)]
        } else if sv.best > 0 {
            seq![row("Best: "@ + int_text(sv.best as int), TextSize::Callout, None, None, RowStyle::Plain, true)]
        } else {
            Seq::empty()
        }),
    }
}

/// The drill / self-verify banner.
pub open spec fn banner_block(s: ExerciseSummary) -> Seq<RowView> {
    if s.drill {
        seq![row("Micro-drill complete"@, TextSize::Body, None, None, RowStyle::Bold, false)]
    } else if s.self_verified {
        seq![row("Self-verified"@, TextSize::Body, Some(Icon::CheckCircle), None, RowStyle::Bold, false)]
    } else {
        Seq::empty()
    }
}

/// Timing for tempo exercises, first-try accuracy otherwise; a survival
/// run shows neither.
pub open spec fn accuracy_block(s: ExerciseSummary) -> Seq<RowView> {
    if s.survival is Some {
        Seq::empty()
    } else {
        match s.timing {
            Some(t) => seq![
                row(int_text(t.hit_percent as int) + "% in the window"@, TextSize::Body, Some(Icon::Metronome), None, RowStyle::Bold, false),
                row(
                    int_text(t.on_time as int) + " on time · "@ + int_text(t.early as int) + " early · "@
                        + int_text(t.late as int) + " late · "@ + int_text(t.missed as int) + " missed"@,
                    TextSize::Callout,
                    None,
                    None,
                    RowStyle::Plain,
                    true,
                ),
            ] + match t.mean_abs_offset {
                Some(o) => seq![row("±"@ + o@ + " ms mean offset"@, TextSize::Callout, None, None, RowStyle::Plain, true)],
                None => Seq::empty(),
            },
            None => seq![
                row(
                    int_text(accuracy_spec(s.first_try_correct as int, s.note_count as int)) + "% first try"@,
                    TextSize::Body,
                    Some(Icon::Target),
                    None,
                    RowStyle::Bold,
                    false,
                ),
                row(
                    int_text(s.first_try_correct as int) + " of "@ + int_text(s.note_count as int) + " notes"@,
                    TextSize::Callout,
                    None,
                    None,
                    RowStyle::Plain,
                    true,
                ),
            ] + match s.mean_latency {
                Some(l) => seq![row(l@ + " s per note"@, TextSize::Callout, None, None, RowStyle::Plain, true)],
                None => Seq::empty(),
            },
        }
    }
}

/// Mistakes, the trouble spot and the unlocks.
pub open spec fn closing_block(s: ExerciseSummary) -> Seq<RowView> {
    let errors = if s.self_verified {
        int_text(s.error_count as int) + " repeated "@ + (if s.error_count == 1 { "pass"@ } else { "passes"@ })
    } else {
        int_text(s.error_count as int) + " wrong notes"@
    };
    when(s.error_count > 0, row(errors, TextSize::Callout, None, Some(Tint::Red), RowStyle::Plain, false))
        + match s.worst_measure {
            Some((number, count)) => seq![row(
                "Measure "@ + int_text(number as int) + " is your trouble spot ("@ + int_text(count as int) + ")"@,
                TextSize::Callout,
                None,
                Some(Tint::Orange),
                RowStyle::Plain,
                false,
            )],
            None => Seq::empty(),
        }
        + match s.newly_unlocked {
            Some(u) => seq![row(u@ + " unlocked!"@, TextSize::Body, Some(Icon::LockOpen), Some(Tint::Blue), RowStyle::Bold, false)],
            None => Seq::empty(),
        }
        + match s.rhythm_unlocked {
            Some(r) => seq![row("New rhythm: "@ + r@ + "!"@, TextSize::Body, Some(Icon::Music), Some(Tint::Blue), RowStyle::Bold, false)],
            None => Seq::empty(),
        }
}

/// A summary's rows: the survival block first (which replaces the timing
/// and first-try block), then the banner, errors, trouble spot, unlocks.
pub open spec fn summary_rows_spec(s: ExerciseSummary) -> Seq<RowView> {
    survival_block(s) + banner_block(s) + accuracy_block(s) + closing_block(s)
}

/// The bounds the accuracy arithmetic needs.
pub open spec fn summary_fits(s: ExerciseSummary) -> bool {
    -0x1000_0000_0000 <= s.first_try_correct <= 0x1000_0000_0000 && s.note_count <= 0x1000_0000_0000
}

fn push_survival_block(rows: &mut Vec<InfoRow>, s: &ExerciseSummary)
    ensures
        rows_view(final(rows)@) == rows_view(old(rows)@) + survival_block(*s),
{
    let ghost before = rows_view(rows@);
    if let Some(sv) = &s.survival {
        let mut score: Vec<char> = Vec::new();
        push_str(&mut score, "Score: ");
        push_int(&mut score, sv.score);
        push_row(rows, mk(&score, TextSize::Body, Some(Icon::FlagCheckered), None, RowStyle::Bold, false));
        let mut line: Vec<char> = Vec::new();
        push_int(&mut line, sv.notes);
        push_str(&mut line, " notes · ");
        push_int(&mut line, sv.notes_per_minute);
        push_str(&mut line, " notes/min · difficulty ");
        push_str(&mut line, sv.difficulty.as_str());
        push_row(rows, mk(&line, TextSize::Callout, None, None, RowStyle::Plain, true));
        if sv.is_new_best {
            push_row(rows, lit("New best!", TextSize::Body, Some(Icon::Trophy), Some(Tint::Orange), RowStyle::Bold, false));
        } else if sv.best > 0 {
            let mut best: Vec<char> = Vec::new();
            push_str(&mut best, "Best: ");
            push_int(&mut best, sv.best);
            push_row(rows, mk(&best, TextSize::Callout, None, None, RowStyle::Plain, true));
        }
    }
    assert(rows_view(rows@) =~= before + survival_block(*s));
}

fn push_accuracy_block(rows: &mut Vec<InfoRow>, s: &ExerciseSummary)
    requires
        summary_fits(*s),
    ensures
        rows_view(final(rows)@) == rows_view(old(rows)@) + accuracy_block(*s),
{
    let ghost before = rows_view(rows@);
    if s.survival.is_some() {
    } else if let Some(t) = &s.timing {
        let mut hit: Vec<char> = Vec::new();
        push_int(&mut hit, t.hit_percent);
        push_str(&mut hit, "% in the window");
        push_row(rows, mk(&hit, TextSize::Body, Some(Icon::Metronome), None, RowStyle::Bold, false));
        let mut line: Vec<char> = Vec::new();
        push_int(&mut line, t.on_time);
        push_str(&mut line, " on time · ");
        push_int(&mut line, t.early);
        push_str(&mut line, " early · ");
        push_int(&mut line, t.late);
        push_str(&mut line, " late · ");
        push_int(&mut line, t.missed);
        push_str(&mut line, " missed");
        push_row(rows, mk(&line, TextSize::Callout, None, None, RowStyle::Plain, true));
        if let Some(o) = &t.mean_abs_offset {
            let mut off: Vec<char> = Vec::new();
            push_str(&mut off, "±");
            push_str(&mut off, o.as_str());
            push_str(&mut off, " ms mean offset");
            push_row(rows, mk(&off, TextSize::Callout, None, None, RowStyle::Plain, true));
        }
    } else {
        let mut acc: Vec<char> = Vec::new();
        push_int(&mut acc, s.accuracy_percent());
        push_str(&mut acc, "% first try");
        push_row(rows, mk(&acc, TextSize::Body, Some(Icon::Target), None, RowStyle::Bold, false));
        let mut line: Vec<char> = Vec::new();
        push_int(&mut line, s.first_try_correct);
        push_str(&mut line, " of ");
        push_int(&mut line, s.note_count);
        push_str(&mut line, " notes");
        push_row(rows, mk(&line, TextSize::Callout, None, None, RowStyle::Plain, true));
        if let Some(l) = &s.mean_latency {
            let mut lat: Vec<char> = Vec::new();
            push_str(&mut lat, l.as_str());
            push_str(&mut lat, " s per note");
            push_row(rows, mk(&lat, TextSize::Callout, None, None, RowStyle::Plain, true));
        }
    }
    assert(rows_view(rows@) =~= before + accuracy_block(*s));
}

fn push_closing_block(rows: &mut Vec<InfoRow>, s: &ExerciseSummary)
    ensures
        rows_view(final(rows)@) == rows_view(old(rows)@) + closing_block(*s),
{
    let ghost before = rows_view(rows@);
    if s.error_count > 0 {
        let mut out: Vec<char> = Vec::new();
        push_int(&mut out, s.error_count);
        if s.self_verified {
            push_str(&mut out, " repeated ");
            if s.error_count == 1 {
                push_str(&mut out, "pass");
            } else {
                push_str(&mut out, "passes");
            }
        } else {
            push_str(&mut out, " wrong notes");
        }
        push_row(rows, mk(&out, TextSize::Callout, None, Some(Tint::Red), RowStyle::Plain, false));
    }
    let ghost a = rows_view(rows@);
    if let Some((number, count)) = s.worst_measure {
        let mut out: Vec<char> = Vec::new();
        push_str(&mut out, "Measure ");
        push_int(&mut out, number);
        push_str(&mut out, " is your trouble spot (");
        push_int(&mut out, count);
        push_str(&mut out, ")");
        push_row(rows, mk(&out, TextSize::Callout, None, Some(Tint::Orange), RowStyle::Plain, false));
    }
    let ghost b = rows_view(rows@);
    if let Some(u) = &s.newly_unlocked {
        let mut out: Vec<char> = Vec::new();
        push_str(&mut out, u.as_str());
        push_str(&mut out, " unlocked!");
        push_row(rows, mk(&out, TextSize::Body, Some(Icon::LockOpen), Some(Tint::Blue), RowStyle::Bold, false));
    }
    let ghost c = rows_view(rows@);
    if let Some(r) = &s.rhythm_unlocked {
        let mut out: Vec<char> = Vec::new();
        push_str(&mut out, "New rhythm: ");
        push_str(&mut out, r.as_str());
        push_str(&mut out, "!");
        push_row(rows, mk(&out, TextSize::Body, Some(Icon::Music), Some(Tint::Blue), RowStyle::Bold, false));
    }
    assert(rows_view(rows@) =~= before + closing_block(*s));
}

/// The rows summing up a finished exercise, drill or run.
pub fn summary_rows(s: &ExerciseSummary) -> (rows: Vec<InfoRow>)
    requires
        summary_fits(*s),
    ensures
        rows_view(rows@) == summary_rows_spec(*s),
{
    let mut rows: Vec<InfoRow> = Vec::new();
    push_survival_block(&mut rows, s);
    let ghost a = rows_view(rows@);
    if s.drill {
        push_row(&mut rows, lit("Micro-drill complete", TextSize::Body, None, None, RowStyle::Bold, false));
    } else if s.self_verified {
        push_row(&mut rows, lit("Self-verified", TextSize::Body, Some(Icon::CheckCircle), None, RowStyle::Bold, false));
    }
    assert(rows_view(rows@) =~= a + banner_block(*s));
    push_accuracy_block(&mut rows, s);
    push_closing_block(&mut rows, s);
    assert(rows_view(rows@) =~= summary_rows_spec(*s));
    rows
}

// ── The status block ───────────────────────────────────────────────────

/// The status block for the session's phase.
pub open spec fn status_rows_spec(st: SessionState) -> Seq<RowView> {
    match st.phase {
        Phase::Loading => seq![row("Preparing…"@, TextSize::Body, None, None, RowStyle::Plain, true)],
        Phase::Playing => if st.free_play {
            seq![row(decimal(st.free_play_count as nat) + " notes played"@, TextSize::Body, None, None, RowStyle::Mono, false)]
                + match st.last_free_play_note {
                    Some(last) => seq![row("Last note: "@ + last@, TextSize::Body, None, None, RowStyle::Mono, false)],
                    None => Seq::empty(),
                }
        } else if st.survival {
            survival_rows_spec(st)
        } else if st.drill_active && st.input_source != InputSource::SelfVerify {
            drill_rows_spec(st)
        } else {
            playing_rows_spec(st)
        },
        Phase::Summary(s) => summary_rows_spec(s),
        Phase::Failed(message) => seq![row(message@, TextSize::Body, Some(Icon::Warning), Some(Tint::Red), RowStyle::Plain, false)],
    }
}

/// The rows for the current phase: preparing, free play's count and last
/// note, survival, the drill, training, a summary, or a failure.
pub fn status_rows(st: &SessionState) -> (rows: Vec<InfoRow>)
    requires
        st.counters_fit(),
        st.phase matches Phase::Summary(s) ==> summary_fits(s),
    ensures
        rows_view(rows@) == status_rows_spec(*st),
{
    match &st.phase {
        Phase::Loading => {
            let mut rows: Vec<InfoRow> = Vec::new();
            push_row(&mut rows, lit("Preparing…", TextSize::Body, None, None, RowStyle::Plain, true));
            assert(rows_view(rows@) =~= status_rows_spec(*st));
            rows
        },
        Phase::Playing => {
            if st.free_play {
                let mut rows: Vec<InfoRow> = Vec::new();
                let mut out: Vec<char> = Vec::new();
                push_nat(&mut out, st.free_play_count);
                push_str(&mut out, " notes played");
                push_row(&mut rows, mk(&out, TextSize::Body, None, None, RowStyle::Mono, false));
                if let Some(last) = &st.last_free_play_note {
                    let mut out: Vec<char> = Vec::new();
                    push_str(&mut out, "Last note: ");
                    push_str(&mut out, last.as_str());
                    push_row(&mut rows, mk(&out, TextSize::Body, None, None, RowStyle::Mono, false));
                }
                assert(rows_view(rows@) =~= status_rows_spec(*st));
                rows
            } else if st.survival {
                survival_rows(st)
            } else if st.drill_active && st.input_source != InputSource::SelfVerify {
                drill_rows(st)
            } else {
                playing_rows(st)
            }
        },
        Phase::Summary(s) => summary_rows(s),
        Phase::Failed(message) => {
            let mut rows: Vec<InfoRow> = Vec::new();
            push_row(&mut rows, InfoRow::decorated(message.clone(), TextSize::Body, Some(Icon::Warning), Some(Tint::Red), RowStyle::Plain, false));
            assert(rows_view(rows@) =~= status_rows_spec(*st));
            rows
        },
    }
}

} // verus!
