use keyinsight::ui::cells::{
    free_play_cell, instruction_text, refresh_visibility_cells, segment_index, summary_training_cell,
    SidePanelCells, INPUT_SOURCES, PACING_MODES,
};
use keyinsight::ui::panel::{
    header_subtitle, header_title, replay_chip_rows, ExerciseSummary, HandMode, Icon, InputSource, PacingMode,
    Phase, RowStyle, SessionState, SurvivalPolicy, SurvivalReport, Tint,
};
use keyinsight::ui::profile;
use keyinsight::ui::status::{status_rows, summary_rows};

/// A started session on adaptive training: the first exercise playing.
fn started() -> SessionState {
    SessionState {
        phase: Phase::Playing,
        free_play: false,
        survival: false,
        drill_active: false,
        active_piece: None,
        exercises_completed: 0,
        survival_best: 0,
        replay_start_event: 0,
        replay_start_measure: 1,
        free_play_count: 0,
        last_free_play_note: None,
        survival_lives: SurvivalPolicy::START_LIVES,
        survival_notes: 0,
        streak: 0,
        input_source: InputSource::Midi,
        drill_cards_done: 0,
        drill_hint_keys: false,
        self_verify_attempts: 0,
        current_note_number: 1,
        note_count: 8,
        errors_this_exercise: 0,
        anchored_octaves: 0,
        heard_uncertain: false,
        stats_suppressed: false,
        active_pacing: PacingMode::SelfPaced,
        mode: PacingMode::SelfPaced,
        tempo_bpm: 80,
        count_in_remaining: None,
        beat_in_measure: 0,
        playing_back: false,
        can_playback: true,
        diverted: false,
        hand_mode: HandMode::Right,
        exercise_info: None,
        octave_offset: 0,
        current_user: None,
    }
}

#[test]
fn header_follows_the_activity_branch_order() {
    let mut engine = started();
    assert_eq!(header_title(&engine), "Exercise 1");
    assert_eq!(header_subtitle(&engine), "Adaptive training");
    assert!(replay_chip_rows(&engine).is_empty());

    engine.drill_active = true; // start the drill
    assert_eq!(header_title(&engine), "Micro-drill");
    assert_eq!(header_subtitle(&engine), "Note naming · no timer, build the streak");

    engine.survival = true; // enter survival
    assert_eq!(header_title(&engine), "Survival");
    assert_eq!(header_subtitle(&engine), "Endless reading at your level");

    engine.free_play = true; // enter free play
    assert_eq!(header_title(&engine), "Free Play");
    assert_eq!(header_subtitle(&engine), "Live notation mirror");
}

#[test]
fn repertoire_header_shows_the_practice_from_chip() {
    let mut engine = started();
    engine.active_piece = Some("Twinkle Twinkle".to_string());
    assert_eq!(header_title(&engine), "Twinkle Twinkle");
    assert_eq!(header_subtitle(&engine), "Repertoire · click any note to practice from there");
    assert!(replay_chip_rows(&engine).is_empty());

    engine.replay_start_event = 4; // practice from a note
    engine.replay_start_measure = 2;
    let rows = replay_chip_rows(&engine);
    assert_eq!(rows.len(), 1);
    assert_eq!(rows[0].text, "Starting at measure 2");
    assert_eq!(rows[0].icon, Some(Icon::ArrowRightToLine));
    assert_eq!(rows[0].color, Some(Tint::Blue));

    engine.replay_start_event = 0; // clear the replay start
    assert!(replay_chip_rows(&engine).is_empty());
}

#[test]
fn survival_subtitle_names_the_best_score() {
    let mut engine = started();
    engine.survival = true;
    engine.survival_best = 340;
    assert_eq!(header_subtitle(&engine), "Endless reading · best score 340");
}

#[test]
fn header_names_the_current_player_or_falls_back() {
    let mut engine = started();
    assert_eq!(profile::header_title(&engine), "Player");
    engine.current_user = Some("Ada".to_string()); // add a player
    assert_eq!(profile::header_title(&engine), "Ada");
}

#[test]
fn input_segments_follow_all_cases_order_and_round_trip() {
    let labels: Vec<&str> = INPUT_SOURCES.iter().map(|s| s.label()).collect();
    assert_eq!(labels, ["MIDI", "Keys", "Mic", "Unplugged"]);
    for (i, source) in INPUT_SOURCES.iter().enumerate() {
        assert_eq!(segment_index(&INPUT_SOURCES, *source), i);
        assert_eq!(INPUT_SOURCES[segment_index(&INPUT_SOURCES, *source)], *source);
    }
}

#[test]
fn pacing_and_hands_segments_round_trip() {
    let labels: Vec<&str> = PACING_MODES.iter().map(|m| m.label()).collect();
    assert_eq!(labels, ["Self-paced", "Tempo"]);
    assert_eq!(segment_index(&PACING_MODES, PacingMode::Tempo), 1);
    assert_eq!(PACING_MODES[segment_index(&PACING_MODES, PacingMode::SelfPaced)], PacingMode::SelfPaced);

    let labels: Vec<&str> = HandMode::ALL.iter().map(|h| h.raw_value()).collect();
    assert_eq!(labels, ["Right", "Left", "Both", "Auto"]);
    for (i, hand) in HandMode::ALL.iter().enumerate() {
        assert_eq!(segment_index(&HandMode::ALL, *hand), i);
    }
}

#[test]
fn segment_index_falls_back_to_the_first_segment() {
    assert_eq!(segment_index(&PACING_MODES[..1], PacingMode::Tempo), 0);
}

#[test]
fn pickers_track_the_engine_each_frame() {
    let mut engine = started();
    engine.input_source = InputSource::Microphone;
    assert_eq!(refresh_visibility_cells(&engine).input_index, 2);
    engine.input_source = InputSource::SelfVerify;
    assert_eq!(refresh_visibility_cells(&engine).input_index, 3);
}

#[test]
fn visibility_follows_the_phase_and_activity() {
    let mut engine = started();
    let cells = refresh_visibility_cells(&engine);
    assert!(!cells.free_play && cells.keys_button && cells.training && cells.hear_it && !cells.stop);
    engine.free_play = true;
    assert!(free_play_cell(&engine));
    assert!(refresh_visibility_cells(&engine).free_play_play);
    engine.playing_back = true;
    let cells = refresh_visibility_cells(&engine);
    assert!(cells.free_play_stop && !cells.free_play_play && !cells.keys_button);
    engine.phase = Phase::Summary(base_summary());
    assert!(!free_play_cell(&engine));
    assert!(summary_training_cell(&engine));
}

#[test]
fn side_panel_cells_start_closed() {
    let cells = SidePanelCells::new();
    assert!(!cells.show_library && !cells.show_progress && !cells.show_profile);
    assert_eq!(cells.library_generation, 0);
}

#[test]
fn survival_status_shows_lives_hearts_and_note_count() {
    let mut engine = started();
    engine.survival = true; // enter survival
    let rows = status_rows(&engine);
    let hearts = rows[0].glyphs.as_ref().expect("hearts glyph run");
    assert_eq!(hearts.len(), SurvivalPolicy::START_LIVES as usize);
    assert!(hearts.iter().all(|(glyph, color)| *glyph == Icon::Heart && *color == Some(Tint::Red)));
    assert_eq!(rows[1].text, "0 notes");
    assert_eq!(rows.len(), 2, "no streak row below 5");
}

#[test]
fn lost_lives_show_outlined_hearts() {
    let mut engine = started();
    engine.survival = true;
    engine.survival_lives = 1;
    engine.streak = 7;
    let rows = status_rows(&engine);
    let hearts = rows[0].glyphs.as_ref().expect("hearts glyph run");
    assert_eq!(hearts[0], (Icon::Heart, Some(Tint::Red)));
    assert_eq!(hearts[1], (Icon::HeartOutline, None));
    assert_eq!(rows[2].text, "7 streak");
    assert_eq!(rows[2].color, Some(Tint::Orange));
}

#[test]
fn drill_status_shows_card_and_streak_at_any_length() {
    let mut engine = started();
    engine.input_source = InputSource::Keyboard;
    engine.drill_active = true; // start the drill
    let rows = status_rows(&engine);
    assert_eq!(rows[0].text, "Card 1");
    assert_eq!(rows[1].text, "0 streak");
    assert_eq!(rows[1].icon, Some(Icon::Flame));
    assert!(rows[1].dim && rows[1].color.is_none(), "secondary below 5");
    assert_eq!(rows.len(), 2, "no lit-key hint without a miss");
}

#[test]
fn training_status_counts_from_the_current_note_number() {
    let mut engine = started();
    engine.input_source = InputSource::Keyboard;
    let rows = status_rows(&engine);
    assert_eq!(rows[0].text, format!("Note 1 of {}", engine.note_count));
}

#[test]
fn training_status_lists_mistakes_octave_and_tempo() {
    let mut engine = started();
    engine.errors_this_exercise = 2;
    engine.anchored_octaves = -1;
    engine.active_pacing = PacingMode::Tempo;
    engine.count_in_remaining = Some(3);
    let texts: Vec<String> = status_rows(&engine).into_iter().map(|r| r.text).collect();
    assert_eq!(texts, ["Note 1 of 8", "2 wrong", "Following your octave (-1)", "Ready… 3", "80 BPM"]);
    engine.count_in_remaining = None;
    engine.beat_in_measure = 2;
    let rows = status_rows(&engine);
    assert_eq!(rows[3].beat, Some((2, 4)));
    assert_eq!(rows[3].text, "80 BPM");
}

#[test]
fn free_play_and_failure_status() {
    let mut engine = started();
    engine.free_play = true;
    engine.free_play_count = 12;
    engine.last_free_play_note = Some("E4".to_string());
    let texts: Vec<String> = status_rows(&engine).into_iter().map(|r| r.text).collect();
    assert_eq!(texts, ["12 notes played", "Last note: E4"]);
    engine.phase = Phase::Failed("No MIDI device".to_string());
    let rows = status_rows(&engine);
    assert_eq!(rows[0].text, "No MIDI device");
    assert_eq!(rows[0].icon, Some(Icon::Warning));
    engine.phase = Phase::Loading;
    assert_eq!(status_rows(&engine)[0].text, "Preparing…");
}

fn base_summary() -> ExerciseSummary {
    ExerciseSummary {
        exercise_number: 1,
        note_count: 20,
        first_try_correct: 18,
        error_count: 2,
        mean_latency: Some(format!("{:.1}", 500.0f64 / 1000.0)),
        newly_unlocked: None,
        streak: 0,
        timing: None,
        rhythm_unlocked: None,
        piece_title: None,
        worst_measure: None,
        drill: false,
        self_verified: false,
        survival: None,
    }
}

fn survival_summary(best: i64, is_new_best: bool) -> ExerciseSummary {
    ExerciseSummary {
        survival: Some(SurvivalReport {
            score: 340,
            notes: 20,
            notes_per_minute: 47.6f64.round() as i64,
            difficulty: format!("{:.1}", 2.4f64),
            best,
            is_new_best,
        }),
        ..base_summary()
    }
}

#[test]
fn training_summary_leads_with_first_try_accuracy() {
    let texts: Vec<String> = summary_rows(&base_summary()).into_iter().map(|r| r.text).collect();
    assert_eq!(texts, ["90% first try", "18 of 20 notes", "0.5 s per note", "2 wrong notes"]);
}

#[test]
fn survival_summary_replaces_the_accuracy_block() {
    let rows = summary_rows(&survival_summary(200, true));
    assert_eq!(rows[0].text, "Score: 340");
    assert_eq!(rows[0].icon, Some(Icon::FlagCheckered));
    assert_eq!(rows[0].style, RowStyle::Bold);
    assert_eq!(rows[1].text, "20 notes · 48 notes/min · difficulty 2.4");
    assert_eq!(rows[2].text, "New best!");
    assert_eq!(rows[2].icon, Some(Icon::Trophy));
    assert_eq!(rows[2].color, Some(Tint::Orange));
    // Timing / first-try block suppressed; trailing rows still run.
    assert!(rows.iter().all(|r| !r.text.contains("first try")));
    assert!(rows.iter().all(|r| !r.text.contains("in the window")));
    assert_eq!(rows[3].text, "2 wrong notes");
    assert_eq!(rows.len(), 4);
}

#[test]
fn survival_summary_shows_the_standing_best_when_not_beaten() {
    let rows = summary_rows(&survival_summary(500, false));
    assert_eq!(rows[2].text, "Best: 500");
    assert!(rows[2].dim);
    // No best row at all on a first run.
    let rows = summary_rows(&survival_summary(0, false));
    assert_eq!(rows[2].text, "2 wrong notes");
}

#[test]
fn self_verified_summary_counts_repeated_passes() {
    let summary = ExerciseSummary {
        self_verified: true,
        error_count: 1,
        worst_measure: Some((3, 2)),
        newly_unlocked: Some("A4".to_string()),
        ..base_summary()
    };
    let texts: Vec<String> = summary_rows(&summary).into_iter().map(|r| r.text).collect();
    assert_eq!(
        texts,
        [
            "Self-verified",
            "90% first try",
            "18 of 20 notes",
            "0.5 s per note",
            "1 repeated pass",
            "Measure 3 is your trouble spot (2)",
            "A4 unlocked!",
        ]
    );
}

#[test]
fn activity_branches_win_over_the_input_source() {
    let mut engine = started();
    engine.input_source = InputSource::SelfVerify;
    assert!(instruction_text(&engine).starts_with("Play the phrase on your instrument."));

    engine.drill_active = true;
    assert!(instruction_text(&engine)
        .starts_with("One note at a time, biased toward your weak spots, for as long as you like."));

    engine.survival = true;
    let text = instruction_text(&engine);
    assert!(text.starts_with("Endless reading at your current level"));
    assert!(text.contains("3 wrong notes ends the run."));

    engine.free_play = true;
    assert!(instruction_text(&engine).starts_with("Play anything, either hand or both"));
    assert!(instruction_text(&engine).ends_with("Clear starts a fresh take."));
}

#[test]
fn keyboard_and_midi_branch_on_the_active_pacing() {
    let mut engine = started();
    engine.input_source = InputSource::Keyboard;
    assert!(instruction_text(&engine).contains("Z/X shift octave"));
    engine.input_source = InputSource::Midi;
    assert!(instruction_text(&engine).starts_with("Play the blue note on your keyboard"));

    engine.mode = PacingMode::Tempo;
    engine.active_pacing = PacingMode::Tempo;
    assert!(instruction_text(&engine).starts_with("Wait for the count-in"));
    engine.input_source = InputSource::Microphone;
    assert!(instruction_text(&engine).starts_with("Play single notes on your instrument near the mic."));
}
