//! What the panel shows and hides, decided from the session once per
//! frame; the pickers' segment order; the instructions paragraph; and the
//! sheet-visibility state the panel's buttons open.

use vstd::prelude::*;
use crate::text::push_str;
use crate::ui::panel::{HandMode, InputSource, PacingMode, Phase, SessionState, SurvivalPolicy};
use crate::text::{decimal, push_nat, to_string};

verus! {

/// A choice shown as one segment of a picker.
pub trait Segment: Sized + Copy {
    /// Whether two choices are the same.
    fn same(&self, other: &Self) -> (b: bool)
        ensures
            b == (*self == *other);
}

impl Segment for InputSource {
    fn same(&self, other: &Self) -> (b: bool) {
        *self == *other
    }
}

impl Segment for PacingMode {
    fn same(&self, other: &Self) -> (b: bool) {
        *self == *other
    }
}

impl Segment for HandMode {
    fn same(&self, other: &Self) -> (b: bool) {
        *self == *other
    }
}

/// The input sources in segment order.
pub const INPUT_SOURCES: [InputSource; 4] = [
    InputSource::Midi,
    InputSource::Keyboard,
    InputSource::Microphone,
    InputSource::SelfVerify,
];

/// The pacing modes in segment order.
pub const PACING_MODES: [PacingMode; 2] = [PacingMode::SelfPaced, PacingMode::Tempo];

/// Segment index of `item` in `items`: its first position, or 0 when it is
/// absent (the first segment, like a picker whose selection left its set).
pub fn segment_index<T: Segment>(items: &[T], item: T) -> (i: usize)
    ensures
        (exists|k: int| 0 <= k < items@.len() && items@[k] == item) ==> {
            &&& i < items@.len()
            &&& items@[i as int] == item
            &&& forall|k: int| 0 <= k < i ==> items@[k] != item
        },
        !(exists|k: int| 0 <= k < items@.len() && items@[k] == item) ==> i == 0,
{
    let mut k: usize = 0;
    while k < items.len()
        invariant
            k <= items@.len(),
            forall|t: int| 0 <= t < k ==> items@[t] != item,
        decreases items.len() - k,
    {
        if items[k].same(&item) {
            return k;
        }
        k = k + 1;
    }
    0
}

// ── Visibility ─────────────────────────────────────────────────────────

pub open spec fn playing(st: SessionState) -> bool {
    st.phase is Playing
}

/// Free play's controls.
pub fn free_play_cell(st: &SessionState) -> (b: bool)
    ensures
        b == (st.free_play && playing(*st)),
{
    st.free_play && matches!(st.phase, Phase::Playing)
}

/// Free play's Play button (hidden while the take replays).
pub fn free_play_play_cell(st: &SessionState) -> (b: bool)
    ensures
        b == (st.free_play && playing(*st) && !st.playing_back),
{
    st.free_play && matches!(st.phase, Phase::Playing) && !st.playing_back
}

/// Free play's Stop button (the Play label swapped while replaying).
pub fn free_play_stop_cell(st: &SessionState) -> (b: bool)
    ensures
        b == (st.free_play && playing(*st) && st.playing_back),
{
    st.free_play && matches!(st.phase, Phase::Playing) && st.playing_back
}

/// The self-verify grading block.
pub fn self_verify_cell(st: &SessionState) -> (b: bool)
    ensures
        b == (st.input_source == InputSource::SelfVerify && playing(*st) && !st.free_play),
{
    st.input_source == InputSource::SelfVerify && matches!(st.phase, Phase::Playing) && !st.free_play
}

/// End Drill inside the self-verify grading block.
pub fn drill_self_verify_cell(st: &SessionState) -> (b: bool)
    ensures
        b == (st.input_source == InputSource::SelfVerify && playing(*st) && !st.free_play && st.drill_active),
{
    st.input_source == InputSource::SelfVerify && matches!(st.phase, Phase::Playing) && !st.free_play
        && st.drill_active
}

/// The End Run button while a survival run plays.
pub fn survival_playing_cell(st: &SessionState) -> (b: bool)
    ensures
        b == (st.survival && playing(*st)),
{
    st.survival && matches!(st.phase, Phase::Playing)
}

/// The End Drill button while the drill plays on a detected input (the
/// self-verify block carries its own copy).
pub fn drill_playing_cell(st: &SessionState) -> (b: bool)
    ensures
        b == (st.drill_active && playing(*st) && !st.free_play && st.input_source != InputSource::SelfVerify),
{
    st.drill_active && matches!(st.phase, Phase::Playing) && !st.free_play
        && st.input_source != InputSource::SelfVerify
}

/// Training diverted into a drill or a run.
pub fn diverted_cell(st: &SessionState) -> (b: bool)
    ensures
        b == st.diverted,
{
    st.diverted
}

/// The Keys button (not in free play).
pub fn keys_button_cell(st: &SessionState) -> (b: bool)
    ensures
        b == !st.free_play,
{
    !st.free_play
}

/// Hear It, while nothing plays back.
pub fn hear_it_cell(st: &SessionState) -> (b: bool)
    ensures
        b == (st.can_playback && !st.playing_back),
{
    st.can_playback && !st.playing_back
}

/// Stop, while the exercise plays back.
pub fn stop_cell(st: &SessionState) -> (b: bool)
    ensures
        b == (st.can_playback && st.playing_back),
{
    st.can_playback && st.playing_back
}

/// A repertoire piece being played.
pub fn repertoire_playing_cell(st: &SessionState) -> (b: bool)
    ensures
        b == (st.active_piece is Some && playing(*st) && !st.free_play),
{
    st.active_piece.is_some() && matches!(st.phase, Phase::Playing) && !st.free_play
}

/// Whether the phase is a summary with (or without) a survival report.
pub open spec fn summary_with_survival(st: SessionState, survival: bool) -> bool {
    match st.phase {
        Phase::Summary(s) => (s.survival is Some) == survival,
        _ => false,
    }
}

fn summary_survival(st: &SessionState, survival: bool) -> (b: bool)
    ensures
        b == summary_with_survival(*st, survival),
{
    match &st.phase {
        Phase::Summary(s) => s.survival.is_some() == survival,
        _ => false,
    }
}

/// A summary that closed a survival run (Run It Back).
pub fn summary_survival_cell(st: &SessionState) -> (b: bool)
    ensures
        b == summary_with_survival(*st, true),
{
    summary_survival(st, true)
}

/// A summary that closed a repertoire piece.
pub fn summary_repertoire_cell(st: &SessionState) -> (b: bool)
    ensures
        b == (summary_with_survival(*st, false) && st.active_piece is Some),
{
    summary_survival(st, false) && st.active_piece.is_some()
}

/// A summary that closed a training exercise.
pub fn summary_training_cell(st: &SessionState) -> (b: bool)
    ensures
        b == (summary_with_survival(*st, false) && st.active_piece is None),
{
    summary_survival(st, false) && st.active_piece.is_none()
}

/// Any summary.
pub fn summary_cell(st: &SessionState) -> (b: bool)
    ensures
        b == (st.phase is Summary),
{
    matches!(st.phase, Phase::Summary(_))
}

/// A repertoire piece is loaded.
pub fn repertoire_cell(st: &SessionState) -> (b: bool)
    ensures
        b == (st.active_piece is Some),
{
    st.active_piece.is_some()
}

/// The summary's MIDI caption.
pub fn summary_midi_caption_cell(st: &SessionState) -> (b: bool)
    ensures
        b == (st.input_source == InputSource::Midi),
{
    st.input_source == InputSource::Midi
}

/// The microphone level meter.
pub fn mic_cell(st: &SessionState) -> (b: bool)
    ensures
        b == (st.input_source == InputSource::Microphone),
{
    st.input_source == InputSource::Microphone
}

/// The Calibrate button follows the player's tempo choice, not the
/// content-dependent pacing in force.
pub fn tempo_cell(st: &SessionState) -> (b: bool)
    ensures
        b == (st.mode == PacingMode::Tempo),
{
    st.mode == PacingMode::Tempo
}

/// Training controls (no piece loaded).
pub fn training_cell(st: &SessionState) -> (b: bool)
    ensures
        b == (st.active_piece is None),
{
    st.active_piece.is_none()
}

/// The practice-from-here chip under the repertoire header.
pub fn replay_start_cell(st: &SessionState) -> (b: bool)
    ensures
        b == (!st.free_play && !st.survival && st.active_piece is Some && st.replay_start_event > 0),
{
    !st.free_play && !st.survival && st.active_piece.is_some() && st.replay_start_event > 0
}

/// Everything the panel shows or hides this frame, and the pickers'
/// selected segments.
#[derive(Debug, Clone, Copy, PartialEq, Eq)]
pub struct PanelCells {
    pub free_play: bool,
    pub free_play_play: bool,
    pub free_play_stop: bool,
    pub self_verify: bool,
    pub drill_self_verify: bool,
    pub survival_playing: bool,
    pub drill_playing: bool,
    pub diverted: bool,
    pub keys_button: bool,
    pub hear_it: bool,
    pub stop: bool,
    pub repertoire_playing: bool,
    pub summary_survival: bool,
    pub summary_repertoire: bool,
    pub summary_training: bool,
    pub summary_midi_caption: bool,
    pub mic: bool,
    pub tempo: bool,
    pub training: bool,
    pub replay_start: bool,
    pub input_index: usize,
    pub pacing_index: usize,
    pub hands_index: usize,
}

/// The pickers' segment orders.
pub open spec fn input_order() -> Seq<InputSource> {
    seq![InputSource::Midi, InputSource::Keyboard, InputSource::Microphone, InputSource::SelfVerify]
}

pub open spec fn pacing_order() -> Seq<PacingMode> {
    seq![PacingMode::SelfPaced, PacingMode::Tempo]
}

pub open spec fn hand_order() -> Seq<HandMode> {
    seq![HandMode::Right, HandMode::Left, HandMode::Both, HandMode::Auto]
}

/// Every visibility decision and picker selection, evaluated against the
/// session once per frame.
pub fn refresh_visibility_cells(st: &SessionState) -> (c: PanelCells)
    ensures
        c.free_play == (st.free_play && playing(*st)),
        c.free_play_play == (st.free_play && playing(*st) && !st.playing_back),
        c.free_play_stop == (st.free_play && playing(*st) && st.playing_back),
        c.self_verify == (st.input_source == InputSource::SelfVerify && playing(*st) && !st.free_play),
        c.drill_self_verify == (st.input_source == InputSource::SelfVerify && playing(*st) && !st.free_play
            && st.drill_active),
        c.survival_playing == (st.survival && playing(*st)),
        c.drill_playing == (st.drill_active && playing(*st) && !st.free_play && st.input_source
            != InputSource::SelfVerify),
        c.diverted == st.diverted,
        c.keys_button == !st.free_play,
        c.hear_it == (st.can_playback && !st.playing_back),
        c.stop == (st.can_playback && st.playing_back),
        c.repertoire_playing == (st.active_piece is Some && playing(*st) && !st.free_play),
        c.summary_survival == summary_with_survival(*st, true),
        c.summary_repertoire == (summary_with_survival(*st, false) && st.active_piece is Some),
        c.summary_training == (summary_with_survival(*st, false) && st.active_piece is None),
        c.summary_midi_caption == (st.input_source == InputSource::Midi),
        c.mic == (st.input_source == InputSource::Microphone),
        c.tempo == (st.mode == PacingMode::Tempo),
        c.training == (st.active_piece is None),
        c.replay_start == (!st.free_play && !st.survival && st.active_piece is Some && st.replay_start_event > 0),
        c.input_index < 4 && input_order()[c.input_index as int] == st.input_source,
        c.pacing_index < 2 && pacing_order()[c.pacing_index as int] == st.mode,
        c.hands_index < 4 && hand_order()[c.hands_index as int] == st.hand_mode,
{
    let sources = INPUT_SOURCES;
    let pacings = PACING_MODES;
    let hands = HandMode::ALL;
    assert(sources@ =~= input_order());
    assert(pacings@ =~= pacing_order());
    assert(hands@ =~= hand_order());
    proof {
        match st.input_source {
            InputSource::Midi => assert(sources@[0] == st.input_source),
            InputSource::Keyboard => assert(sources@[1] == st.input_source),
            InputSource::Microphone => assert(sources@[2] == st.input_source),
            InputSource::SelfVerify => assert(sources@[3] == st.input_source),
        }
        match st.mode {
            PacingMode::SelfPaced => assert(pacings@[0] == st.mode),
            PacingMode::Tempo => assert(pacings@[1] == st.mode),
        }
        match st.hand_mode {
            HandMode::Right => assert(hands@[0] == st.hand_mode),
            HandMode::Left => assert(hands@[1] == st.hand_mode),
            HandMode::Both => assert(hands@[2] == st.hand_mode),
            HandMode::Auto => assert(hands@[3] == st.hand_mode),
        }
    }
    PanelCells {
        free_play: free_play_cell(st),
        free_play_play: free_play_play_cell(st),
        free_play_stop: free_play_stop_cell(st),
        self_verify: self_verify_cell(st),
        drill_self_verify: drill_self_verify_cell(st),
        survival_playing: survival_playing_cell(st),
        drill_playing: drill_playing_cell(st),
        diverted: diverted_cell(st),
        keys_button: keys_button_cell(st),
        hear_it: hear_it_cell(st),
        stop: stop_cell(st),
        repertoire_playing: repertoire_playing_cell(st),
        summary_survival: summary_survival_cell(st),
        summary_repertoire: summary_repertoire_cell(st),
        summary_training: summary_training_cell(st),
        summary_midi_caption: summary_midi_caption_cell(st),
        mic: mic_cell(st),
        tempo: tempo_cell(st),
        training: training_cell(st),
        replay_start: replay_start_cell(st),
        input_index: segment_index(&sources, st.input_source),
        pacing_index: segment_index(&pacings, st.mode),
        hands_index: segment_index(&hands, st.hand_mode),
    }
}

/// The sheets and dialogs the panel's buttons open, and the generations
/// their contents rebuild on.
#[derive(Debug, Clone, PartialEq, Eq)]
pub struct SidePanelCells {
    pub show_library: bool,
    pub show_progress: bool,
    pub show_calibration: bool,
    /// The "how this trainer works" sheet.
    pub show_about: bool,
    /// The per-player helpers sheet.
    pub show_profile: bool,
    pub show_add_player: bool,
    pub show_rename_player: bool,
    /// The add/rename dialogs' text buffer.
    pub player_name: String,
    /// Bumped on every dialog open so the dialog starts from a fresh field.
    pub dialog_generation: u64,
    /// Bumped on every Progress open so the sheet re-reads the session.
    pub progress_generation: u64,
    /// Bumped on every Library open so the rows re-read their play stats.
    pub library_generation: u64,
}

impl SidePanelCells {
    /// Everything closed, nothing typed, every generation at zero.
    pub fn new() -> (c: SidePanelCells)
        ensures
            !c.show_library && !c.show_progress && !c.show_calibration && !c.show_about,
            !c.show_profile && !c.show_add_player && !c.show_rename_player,
            c.player_name@.len() == 0,
            c.dialog_generation == 0 && c.progress_generation == 0 && c.library_generation == 0,
    {
        SidePanelCells {
            show_library: false,
            show_progress: false,
            show_calibration: false,
            show_about: false,
            show_profile: false,
            show_add_player: false,
            show_rename_player: false,
            player_name: String::new(),
            dialog_generation: 0,
            progress_generation: 0,
            library_generation: 0,
        }
    }
}

// ── Instructions ───────────────────────────────────────────────────────

pub open spec fn free_play_instructions() -> Seq<char> {
    "Play anything, either hand or both — it appears as notation. Rhythm is simplified; the staff shows your most recent notes. Everything is recorded: Play replays it, Clear starts a fresh take."@
}

pub open spec fn survival_instructions() -> Seq<char> {
    "Endless reading at your current level — the next line arrives as you finish this one. "@ + decimal(3)
        + " wrong notes ends the run. Score rewards how much you read and how fast: keep your eyes moving ahead of your hands."@
}

pub open spec fn drill_instructions() -> Seq<char> {
    "One note at a time, biased toward your weak spots, for as long as you like. Each card plays its sound as it appears — name it on the keyboard and build the streak. Miss one and the keys light the answer; it'll come back a few cards later. End Drill wraps up with your totals."@
}

/// The instructions paragraph: the activity first, then the input source
/// and, for keys and MIDI, the pacing in force.
pub open spec fn instruction_spec(st: SessionState) -> Seq<char> {
    if st.free_play {
        free_play_instructions()
    } else if st.survival {
        survival_instructions()
    } else if st.drill_active {
        drill_instructions()
    } else {
        match st.input_source {
            InputSource::SelfVerify => "Play the phrase on your instrument. Use Hear It to compare, then grade yourself honestly — repeated passes still count as practice."@,
            InputSource::Microphone => "Play single notes on your instrument near the mic. The meter below shows what it hears; uncertain notes are never marked wrong."@,
            InputSource::Midi => if st.active_pacing == PacingMode::Tempo {
                "Wait for the count-in, then play with the clicks. ◀ early · ▶ late · amber = missed."@
            } else {
                "Play the blue note on your keyboard; the cursor waits for you. Hover over any symbol to learn its name."@
            },
            InputSource::Keyboard => if st.active_pacing == PacingMode::Tempo {
                "Wait for the count-in, then play with the clicks. ◀ early · ▶ late · amber = missed. A S D F G H J K = C–C, W E T Y U = sharps."@
            } else {
                "Play the blue note; the cursor waits for you. A S D F G H J K = C–C, W E T Y U = sharps, Z/X shift octave. Hover over any symbol to learn its name."@
            },
        }
    }
}

/// One paragraph per activity / input source.
pub fn instruction_text(st: &SessionState) -> (s: String)
    ensures
        s@ == instruction_spec(*st),
{
    if st.free_play {
        return String::from_str("Play anything, either hand or both — it appears as notation. Rhythm is simplified; the staff shows your most recent notes. Everything is recorded: Play replays it, Clear starts a fresh take.");
    }
    if st.survival {
        let mut out: Vec<char> = Vec::new();
        push_str(&mut out, "Endless reading at your current level — the next line arrives as you finish this one. ");
        push_nat(&mut out, SurvivalPolicy::START_LIVES as u64);
        push_str(&mut out, " wrong notes ends the run. Score rewards how much you read and how fast: keep your eyes moving ahead of your hands.");
        return to_string(&out);
    }
    if st.drill_active {
        return String::from_str("One note at a time, biased toward your weak spots, for as long as you like. Each card plays its sound as it appears — name it on the keyboard and build the streak. Miss one and the keys light the answer; it'll come back a few cards later. End Drill wraps up with your totals.");
    }
    match st.input_source {
        InputSource::SelfVerify => String::from_str("Play the phrase on your instrument. Use Hear It to compare, then grade yourself honestly — repeated passes still count as practice."),
        InputSource::Microphone => String::from_str("Play single notes on your instrument near the mic. The meter below shows what it hears; uncertain notes are never marked wrong."),
        InputSource::Midi => {
            if st.active_pacing == PacingMode::Tempo {
                String::from_str("Wait for the count-in, then play with the clicks. ◀ early · ▶ late · amber = missed.")
            } else {
                String::from_str("Play the blue note on your keyboard; the cursor waits for you. Hover over any symbol to learn its name.")
            }
        },
        InputSource::Keyboard => {
            if st.active_pacing == PacingMode::Tempo {
                String::from_str("Wait for the count-in, then play with the clicks. ◀ early · ▶ late · amber = missed. A S D F G H J K = C–C, W E T Y U = sharps.")
            } else {
                String::from_str("Play the blue note; the cursor waits for you. A S D F G H J K = C–C, W E T Y U = sharps, Z/X shift octave. Hover over any symbol to learn its name.")
            }
        },
    }
}

} // verus!
