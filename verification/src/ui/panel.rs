//! The side panel's view of a session: what you're doing, how you're
//! doing, what to do — per activity and input source. A `SessionState`
//! holds what the panel reads of the running session; the row builders
//! turn it into `InfoRow`s that keep every color, icon and font treatment.

use vstd::prelude::*;
use crate::text::{decimal, int_text, push_int, push_nat, push_str, to_string};

verus! {

/// The palette colors the panel rows and sheets draw with.
#[derive(Debug, Clone, Copy, PartialEq, Eq, Structural)]
pub enum Tint {
    Red,
    Orange,
    Blue,
    Green,
}

/// Survival's rules.
pub struct SurvivalPolicy;

impl SurvivalPolicy {
    /// Lives a survival run starts with.
    pub const START_LIVES: i32 = 3;
}

/// The glyphs status rows lead with.
#[derive(Debug, Clone, Copy, PartialEq, Eq, Structural)]
pub enum Icon {
    Heart,
    HeartOutline,
    Flame,
    Keyboard,
    UpDown,
    Ear,
    PauseCircle,
    Warning,
    FlagCheckered,
    Trophy,
    CheckCircle,
    Metronome,
    Target,
    LockOpen,
    Music,
    ArrowRightToLine,
}

/// Body or callout type.
#[derive(Debug, Clone, Copy, PartialEq, Eq, Structural)]
pub enum TextSize {
    Body,
    Callout,
}

/// The face a row's text is set in.
#[derive(Debug, Clone, Copy, PartialEq, Eq, Structural)]
pub enum RowStyle {
    Plain,
    Mono,
    Bold,
}

/// One status line: text with its size, icon, tint, face and dimming; or
/// a run of glyphs (the lives hearts); or a beat-dot bar with its caption.
#[derive(Debug, Clone, PartialEq, Eq)]
pub struct InfoRow {
    pub text: String,
    pub size: TextSize,
    pub icon: Option<Icon>,
    pub color: Option<Tint>,
    pub style: RowStyle,
    pub dim: bool,
    pub glyphs: Option<Vec<(Icon, Option<Tint>)>>,
    /// The lit beat and the number of beats of a beat-dot bar.
    pub beat: Option<(usize, usize)>,
}

/// The content of a row.
pub struct RowView {
    pub text: Seq<char>,
    pub size: TextSize,
    pub icon: Option<Icon>,
    pub color: Option<Tint>,
    pub style: RowStyle,
    pub dim: bool,
    pub glyphs: Option<Seq<(Icon, Option<Tint>)>>,
    pub beat: Option<(usize, usize)>,
}

impl View for InfoRow {
    type V = RowView;

    open spec fn view(&self) -> RowView {
        RowView {
            text: self.text@,
            size: self.size,
            icon: self.icon,
            color: self.color,
            style: self.style,
            dim: self.dim,
            glyphs: match self.glyphs {
                Some(g) => Some(g@),
                None => None,
            },
            beat: self.beat,
        }
    }
}

/// A plain text row.
pub open spec fn text_row(text: Seq<char>, size: TextSize) -> RowView {
    RowView { text, size, icon: None, color: None, style: RowStyle::Plain, dim: false, glyphs: None, beat: None }
}

/// A row as decorated.
pub open spec fn row(
    text: Seq<char>,
    size: TextSize,
    icon: Option<Icon>,
    color: Option<Tint>,
    style: RowStyle,
    dim: bool,
) -> RowView {
    RowView { text, size, icon, color, style, dim, glyphs: None, beat: None }
}

/// The views of a list of rows.
pub open spec fn rows_view(rows: Seq<InfoRow>) -> Seq<RowView> {
    rows.map_values(|r: InfoRow| r@)
}

impl InfoRow {
    /// A plain text row.
    pub fn text(text: String, size: TextSize) -> (r: InfoRow)
        ensures
            r@ == text_row(text@, size),
    {
        InfoRow { text, size, icon: None, color: None, style: RowStyle::Plain, dim: false, glyphs: None, beat: None }
    }

    /// A row of glyphs, each with its own tint.
    pub fn glyph_run(glyphs: Vec<(Icon, Option<Tint>)>, size: TextSize) -> (r: InfoRow)
        ensures
            r@ == (RowView { glyphs: Some(glyphs@), ..text_row(Seq::empty(), size) }),
    {
        InfoRow {
            text: String::new(),
            size,
            icon: None,
            color: None,
            style: RowStyle::Plain,
            dim: false,
            glyphs: Some(glyphs),
            beat: None,
        }
    }

    /// A beat-dot bar (`beat` lit of `count`) with a caption.
    pub fn beat_dots(beat: usize, count: usize, text: String, size: TextSize) -> (r: InfoRow)
        ensures
            r@ == (RowView { beat: Some((beat, count)), ..text_row(text@, size) }),
    {
        InfoRow {
            text,
            size,
            icon: None,
            color: None,
            style: RowStyle::Plain,
            dim: false,
            glyphs: None,
            beat: Some((beat, count)),
        }
    }

    /// A row with every decoration given.
    pub fn decorated(
        text: String,
        size: TextSize,
        icon: Option<Icon>,
        color: Option<Tint>,
        style: RowStyle,
        dim: bool,
    ) -> (r: InfoRow)
        ensures
            r@ == row(text@, size, icon, color, style, dim),
    {
        InfoRow { text, size, icon, color, style, dim, glyphs: None, beat: None }
    }
}

/// Where the notes come from.
#[derive(Debug, Clone, Copy, PartialEq, Eq, Structural)]
pub enum InputSource {
    Midi,
    Keyboard,
    Microphone,
    SelfVerify,
}

/// The picker label of an input source.
pub open spec fn source_label(s: InputSource) -> Seq<char> {
    match s {
        InputSource::Midi => "MIDI"@,
        InputSource::Keyboard => "Keys"@,
        InputSource::Microphone => "Mic"@,
        InputSource::SelfVerify => "Unplugged"@,
    }
}

impl InputSource {
    /// The picker label.
    pub fn label(self) -> (s: &'static str)
        ensures
            s@ == source_label(self),
    {
        match self {
            InputSource::Midi => "MIDI",
            InputSource::Keyboard => "Keys",
            InputSource::Microphone => "Mic",
            InputSource::SelfVerify => "Unplugged",
        }
    }
}

/// Whether the player sets the pace or the metronome does.
#[derive(Debug, Clone, Copy, PartialEq, Eq, Structural)]
pub enum PacingMode {
    SelfPaced,
    Tempo,
}

/// The picker label of a pacing mode.
pub open spec fn pacing_label(m: PacingMode) -> Seq<char> {
    match m {
        PacingMode::SelfPaced => "Self-paced"@,
        PacingMode::Tempo => "Tempo"@,
    }
}

impl PacingMode {
    /// The picker label.
    pub fn label(self) -> (s: &'static str)
        ensures
            s@ == pacing_label(self),
    {
        match self {
            PacingMode::SelfPaced => "Self-paced",
            PacingMode::Tempo => "Tempo",
        }
    }
}

/// Which hand(s) training exercises target.
#[derive(Debug, Clone, Copy, PartialEq, Eq, Structural)]
pub enum HandMode {
    Right,
    Left,
    Both,
    Auto,
}

/// The picker label of a hand mode.
pub open spec fn hand_label(h: HandMode) -> Seq<char> {
    match h {
        HandMode::Right => "Right"@,
        HandMode::Left => "Left"@,
        HandMode::Both => "Both"@,
        HandMode::Auto => "Auto"@,
    }
}

impl HandMode {
    pub const ALL: [HandMode; 4] = [HandMode::Right, HandMode::Left, HandMode::Both, HandMode::Auto];

    /// The picker label.
    pub fn raw_value(self) -> (s: &'static str)
        ensures
            s@ == hand_label(self),
    {
        match self {
            HandMode::Right => "Right",
            HandMode::Left => "Left",
            HandMode::Both => "Both",
            HandMode::Auto => "Auto",
        }
    }
}

/// A survival run's result.
#[derive(Debug, Clone, PartialEq, Eq)]
pub struct SurvivalReport {
    pub score: i64,
    pub notes: i64,
    /// Reading speed, rounded to whole notes per minute.
    pub notes_per_minute: i64,
    /// The run's difficulty, rendered to one decimal.
    pub difficulty: String,
    pub best: i64,
    pub is_new_best: bool,
}

/// A tempo exercise's timing result.
#[derive(Debug, Clone, PartialEq, Eq)]
pub struct TimingReport {
    pub on_time: i64,
    pub early: i64,
    pub late: i64,
    pub missed: i64,
    /// Share of notes inside the timing window, in whole percent.
    pub hit_percent: i64,
    /// The mean absolute offset in whole milliseconds, rendered.
    pub mean_abs_offset: Option<String>,
}

/// What an exercise, drill or run ended with.
#[derive(Debug, Clone, PartialEq, Eq)]
pub struct ExerciseSummary {
    pub exercise_number: i64,
    pub note_count: i64,
    pub first_try_correct: i64,
    pub error_count: i64,
    /// Mean time per note in seconds, rendered to one decimal.
    pub mean_latency: Option<String>,
    pub newly_unlocked: Option<String>,
    pub streak: i64,
    pub timing: Option<TimingReport>,
    pub rhythm_unlocked: Option<String>,
    pub piece_title: Option<String>,
    /// The measure with the most errors and its error count.
    pub worst_measure: Option<(i64, i64)>,
    pub drill: bool,
    pub self_verified: bool,
    pub survival: Option<SurvivalReport>,
}

/// First-try accuracy in whole percent (halves round up); 0 without notes.
pub open spec fn accuracy_spec(first_try_correct: int, note_count: int) -> int {
    if note_count <= 0 || first_try_correct < 0 {
        0
    } else {
        (200 * first_try_correct + note_count) / (2 * note_count)
    }
}

impl ExerciseSummary {
    /// First-try accuracy in whole percent.
    pub fn accuracy_percent(&self) -> (p: i64)
        requires
            -0x1000_0000_0000 <= self.first_try_correct <= 0x1000_0000_0000,
            self.note_count <= 0x1000_0000_0000,
        ensures
            p as int == accuracy_spec(self.first_try_correct as int, self.note_count as int),
    {
        if self.note_count <= 0 || self.first_try_correct < 0 {
            0
        } else {
            (200 * self.first_try_correct + self.note_count) / (2 * self.note_count)
        }
    }
}

/// Where the session is.
#[derive(Debug, Clone, PartialEq, Eq)]
pub enum Phase {
    Loading,
    Playing,
    Summary(ExerciseSummary),
    Failed(String),
}

/// What the panel reads of the running session.
#[derive(Debug, Clone, PartialEq, Eq)]
pub struct SessionState {
    pub phase: Phase,
    pub free_play: bool,
    pub survival: bool,
    pub drill_active: bool,
    /// The title of the repertoire piece being played, if one is.
    pub active_piece: Option<String>,
    pub exercises_completed: u64,
    pub survival_best: i64,
    pub replay_start_event: usize,
    pub replay_start_measure: usize,
    pub free_play_count: u64,
    pub last_free_play_note: Option<String>,
    pub survival_lives: i32,
    pub survival_notes: i64,
    pub streak: i64,
    pub input_source: InputSource,
    pub drill_cards_done: u64,
    pub drill_hint_keys: bool,
    pub self_verify_attempts: u64,
    pub current_note_number: i64,
    pub note_count: i64,
    pub errors_this_exercise: i64,
    pub anchored_octaves: i32,
    pub heard_uncertain: bool,
    pub stats_suppressed: bool,
    /// The pacing in force (polyphonic content stays self-paced).
    pub active_pacing: PacingMode,
    /// The pacing the player chose.
    pub mode: PacingMode,
    /// The tempo in whole beats per minute.
    pub tempo_bpm: i64,
    pub count_in_remaining: Option<i64>,
    pub beat_in_measure: usize,
    pub playing_back: bool,
    pub can_playback: bool,
    pub diverted: bool,
    pub hand_mode: HandMode,
    pub exercise_info: Option<String>,
    pub octave_offset: i32,
    pub current_user: Option<String>,
}

impl SessionState {
    /// The counters can be shown one past their value.
    pub open spec fn counters_fit(&self) -> bool {
        &&& self.exercises_completed < u64::MAX
        &&& self.drill_cards_done < u64::MAX
        &&& self.self_verify_attempts < u64::MAX
    }
}

// ── Header ─────────────────────────────────────────────────────────────

/// The title line, by activity.
pub open spec fn header_title_spec(st: SessionState) -> Seq<char> {
    if st.free_play {
        "Free Play"@
    } else if st.survival {
        "Survival"@
    } else if st.active_piece is Some {
        st.active_piece->0@
    } else if st.drill_active {
        "Micro-drill"@
    } else {
        "Exercise "@ + decimal((st.exercises_completed + 1) as nat)
    }
}

/// The title line, by activity (free play, survival, a piece, the drill,
/// then training).
pub fn header_title(st: &SessionState) -> (s: String)
    requires
        st.counters_fit(),
    ensures
        s@ == header_title_spec(*st),
{
    if st.free_play {
        String::from_str("Free Play")
    } else if st.survival {
        String::from_str("Survival")
    } else if let Some(title) = &st.active_piece {
        title.clone()
    } else if st.drill_active {
        String::from_str("Micro-drill")
    } else {
        let mut out: Vec<char> = Vec::new();
        push_str(&mut out, "Exercise ");
        push_nat(&mut out, st.exercises_completed + 1);
        to_string(&out)
    }
}

/// The secondary line under the title.
pub open spec fn header_subtitle_spec(st: SessionState) -> Seq<char> {
    if st.free_play {
        "Live notation mirror"@
    } else if st.survival {
        if st.survival_best > 0 {
            "Endless reading · best score "@ + int_text(st.survival_best as int)
        } else {
            "Endless reading at your level"@
        }
    } else if st.active_piece is Some {
        "Repertoire · click any note to practice from there"@
    } else if st.drill_active {
        "Note naming · no timer, build the streak"@
    } else {
        "Adaptive training"@
    }
}

/// The secondary line under the title.
pub fn header_subtitle(st: &SessionState) -> (s: String)
    ensures
        s@ == header_subtitle_spec(*st),
{
    if st.free_play {
        String::from_str("Live notation mirror")
    } else if st.survival {
        if st.survival_best > 0 {
            let mut out: Vec<char> = Vec::new();
            push_str(&mut out, "Endless reading · best score ");
            push_int(&mut out, st.survival_best);
            to_string(&out)
        } else {
            String::from_str("Endless reading at your level")
        }
    } else if st.active_piece.is_some() {
        String::from_str("Repertoire · click any note to practice from there")
    } else if st.drill_active {
        String::from_str("Note naming · no timer, build the streak")
    } else {
        String::from_str("Adaptive training")
    }
}

/// Whether the practice-from-here chip shows.
pub open spec fn replay_chip_shown(st: SessionState) -> bool {
    st.active_piece is Some && !st.free_play && !st.survival && st.replay_start_event > 0
}

/// The practice-from-here chip: one blue callout row while a replay start
/// spot is set in a piece, nothing otherwise.
pub open spec fn replay_chip_spec(st: SessionState) -> Seq<RowView> {
    if replay_chip_shown(st) {
        seq![row(
            "Starting at measure "@ + decimal(st.replay_start_measure as nat),
            TextSize::Callout,
            Some(Icon::ArrowRightToLine),
            Some(Tint::Blue),
            RowStyle::Plain,
            false,
        )]
    } else {
        Seq::empty()
    }
}

/// The practice-from-here chip rows.
pub fn replay_chip_rows(st: &SessionState) -> (rows: Vec<InfoRow>)
    ensures
        rows_view(rows@) == replay_chip_spec(*st),
{
    let mut rows: Vec<InfoRow> = Vec::new();
    if st.active_piece.is_some() && !st.free_play && !st.survival && st.replay_start_event > 0 {
        let mut out: Vec<char> = Vec::new();
        push_str(&mut out, "Starting at measure ");
        push_nat(&mut out, st.replay_start_measure as u64);
        rows.push(InfoRow::decorated(
            to_string(&out),
            TextSize::Callout,
            Some(Icon::ArrowRightToLine),
            Some(Tint::Blue),
            RowStyle::Plain,
            false,
        ));
    }
    assert(rows_view(rows@) =~= replay_chip_spec(*st));
    rows
}

} // verus!
