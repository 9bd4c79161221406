use keyinsight::score::encoder::MusicXmlEncoder;
use keyinsight::score::model::{default_staff, Exercise, NoteDuration, ScoreNote, Staff, TieRole};

fn q(midi: u8) -> ScoreNote {
    ScoreNote::note(midi, NoteDuration::Quarter)
}

#[test]
fn durations_know_their_units() {
    assert_eq!(NoteDuration::Eighth.units(), 1);
    assert_eq!(NoteDuration::DottedHalf.units(), 6);
    assert!(NoteDuration::DottedQuarter.is_dotted());
    assert_eq!(NoteDuration::DottedHalf.music_xml_type(), "half");
    assert_eq!(NoteDuration::from_units(8), Some(NoteDuration::Whole));
    assert_eq!(NoteDuration::from_units(5), None);
    assert_eq!(default_staff(), Staff::Treble);
}

#[test]
fn measures_chunk_by_time_and_keep_chords_whole() {
    let ex = Exercise::new(vec![q(60), q(62), q(64), q(65), q(67).with_chord(false), q(69), q(71), q(72).with_chord(true)], 3);
    assert_eq!(ex.units_per_measure(), 6);
    let measures = ex.measures();
    assert_eq!(measures.len(), 3);
    assert_eq!(measures[0].len(), 3);
    assert_eq!(measures[2], vec![q(71), q(72).with_chord(true)]);
    assert_eq!(ex.measure_count(), 3);
}

#[test]
fn match_events_group_both_voices_by_onset() {
    let ex = Exercise::new(vec![q(64), q(67).with_chord(true), q(65)], 4)
        .with_bass(vec![ScoreNote::note(48, NoteDuration::Half).with_staff(Staff::Bass)]);
    let events = ex.match_events();
    assert_eq!(events.len(), 2);
    assert_eq!(events[0].start_units, 0);
    assert_eq!(events[0].pitches, vec![64, 67, 48]);
    assert_eq!(events[0].staves, vec![Staff::Treble, Staff::Treble, Staff::Bass]);
    assert_eq!(events[1].start_units, 2);
    assert_eq!(events[1].pitches, vec![65]);
    let sets = ex.expected_sets();
    assert_eq!(sets.len(), 2);
    assert!(sets[0].contains(&48) && sets[0].contains(&67));
    assert_eq!(ex.event_measure_indices(), vec![0, 0]);
}

#[test]
fn ties_extend_the_previous_span() {
    let voice = vec![ScoreNote::note(60, NoteDuration::Half), ScoreNote::note(60, NoteDuration::Half).with_tie(true), q(62)];
    let spans = Exercise::voice_note_spans(&voice);
    assert_eq!(spans.len(), 2);
    assert_eq!(spans[0].length_units, 8);
    assert_eq!(spans[1].start_units, 8);
    let roles = Exercise::tie_roles(&voice);
    assert_eq!(roles, vec![TieRole { start: true, stop: false }, TieRole { start: false, stop: true }, TieRole::default()]);
    let xml = MusicXmlEncoder::encode(&Exercise::new(voice, 4));
    assert_eq!(xml.matches("<tie type=\"start\"/>").count(), 1);
    assert_eq!(xml.matches("<tie type=\"stop\"/>").count(), 1);
}

#[test]
fn sounded_notes_skip_rests_and_carry_their_start_and_measure() {
    let ex = Exercise::new(vec![q(60), ScoreNote::rest(NoteDuration::Half), q(64), ScoreNote::note(65, NoteDuration::Whole)], 4);
    let sounded = ex.sounded_notes();
    assert_eq!(sounded.len(), 3);
    assert!(!sounded.iter().any(|n| n.is_rest()));
    assert_eq!(ex.sounded_note_start_units(), vec![0, 6, 8]);
    assert_eq!(ex.sounded_note_measure_indices(), vec![0, 0, 1]);
    assert_eq!(ex.all_sounded_notes().len(), 3);
    assert!(!ex.is_two_voice());
}

#[test]
fn key_alteration_follows_the_signature() {
    assert_eq!(MusicXmlEncoder::key_alteration("F", 1), 1);
    assert_eq!(MusicXmlEncoder::key_alteration("C", 1), 0);
    assert_eq!(MusicXmlEncoder::key_alteration("B", -1), -1);
    assert_eq!(MusicXmlEncoder::key_alteration("E", -2), -1);
    assert_eq!(MusicXmlEncoder::key_alteration("A", -2), 0);
    assert_eq!(MusicXmlEncoder::key_alteration("F", -7), -1);
    assert_eq!(MusicXmlEncoder::key_alteration("B", 9), 1);
    assert_eq!(MusicXmlEncoder::key_alteration("X", 8), 0);
    assert_eq!(MusicXmlEncoder::key_alteration("X", -8), 0);
    assert_eq!(MusicXmlEncoder::key_alteration("FF", 7), 0);
}

#[test]
fn events_hold_every_played_note_once_and_index_their_measures() {
    let ex = Exercise::new(
        vec![q(64), q(67).with_chord(true), ScoreNote::rest(NoteDuration::Quarter), ScoreNote::note(65, NoteDuration::Half), q(60), q(62)],
        2,
    )
    .with_bass(vec![
        ScoreNote::note(48, NoteDuration::Half).with_staff(Staff::Bass),
        ScoreNote::note(43, NoteDuration::Half).with_staff(Staff::Bass),
        ScoreNote::note(41, NoteDuration::Whole).with_staff(Staff::Bass),
    ]);
    let events = ex.match_events();
    let treble = Exercise::voice_note_spans(&ex.notes);
    let bass = Exercise::voice_note_spans(&ex.bass_notes);
    let held: usize = events.iter().map(|e| e.pitches.len()).sum();
    assert_eq!(held, treble.len() + bass.len());
    for e in &events {
        assert_eq!(e.pitches.len(), e.staves.len());
        assert_eq!(e.pitches.len(), e.durations.len());
    }
    let indices = ex.event_measure_indices();
    let expected: Vec<usize> = events.iter().map(|e| (e.start_units / ex.units_per_measure()) as usize).collect();
    assert_eq!(indices, expected);
    assert!(indices.windows(2).all(|w| w[0] <= w[1]));
    assert_eq!(indices, vec![0, 1, 2, 2]);
}

#[test]
fn measure_indices_follow_integer_division_for_any_meter() {
    assert_eq!(Exercise::new(vec![], 0).event_measure_indices(), Vec::<usize>::new());
    assert_eq!(Exercise::new(vec![ScoreNote::rest(NoteDuration::Whole)], 0).sounded_note_measure_indices(), Vec::<usize>::new());
    let ex = Exercise::new(vec![q(60), q(62), q(64)], -2);
    assert_eq!(ex.sounded_note_measure_indices(), vec![0, 0, usize::MAX]);
    assert_eq!(ex.event_measure_indices(), vec![0, 0, usize::MAX]);
}
