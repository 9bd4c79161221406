use keyinsight::score::free_play::FreePlayScore;
use keyinsight::score::model::{NoteDuration, ScoreNote, Staff};

#[test]
fn nothing_played_shows_a_whole_rest() {
    let ex = FreePlayScore::build(&[]);
    assert_eq!(ex.notes, vec![ScoreNote::rest(NoteDuration::Whole)]);
    assert_eq!(ex.beats_per_measure, 4);
    let ex = FreePlayScore::build(&[vec![], vec![]]);
    assert_eq!(ex.notes, vec![ScoreNote::rest(NoteDuration::Whole)]);
}

#[test]
fn chords_read_low_to_high_and_split_at_middle_c() {
    let ex = FreePlayScore::build(&[vec![64, 48, 60], vec![], vec![67]]);
    assert_eq!(
        ex.notes,
        vec![
            ScoreNote::note(48, NoteDuration::Quarter).with_staff(Staff::Bass),
            ScoreNote::note(60, NoteDuration::Quarter).with_chord(true),
            ScoreNote::note(64, NoteDuration::Quarter).with_chord(true),
            ScoreNote::note(67, NoteDuration::Quarter),
        ]
    );
    assert!(ex.bass_notes.is_empty());
}

#[test]
fn only_the_most_recent_sixteen_events_show() {
    let chords: Vec<Vec<u8>> = (0..20u8).map(|i| vec![60 + i]).collect();
    let ex = FreePlayScore::build(&chords);
    assert_eq!(ex.notes.len(), FreePlayScore::WINDOW_SIZE);
    assert_eq!(ex.notes[0].midi, Some(64));
    assert_eq!(ex.notes[15].midi, Some(79));
    // An empty chord inside the window still takes a window slot.
    let mut chords: Vec<Vec<u8>> = (0..16u8).map(|i| vec![60 + i]).collect();
    chords.push(vec![]);
    let ex = FreePlayScore::build(&chords);
    assert_eq!(ex.notes.len(), 15);
    assert_eq!(ex.notes[0].midi, Some(61));
}

#[test]
fn repeated_pitches_stay_in_a_chord() {
    let ex = FreePlayScore::build(&[vec![62, 62, 59]]);
    let midis: Vec<Option<u8>> = ex.notes.iter().map(|n| n.midi).collect();
    assert_eq!(midis, [Some(59), Some(62), Some(62)]);
    assert_eq!(ex.notes[0].staff, Staff::Bass);
    assert!(!ex.notes[0].chord_with_previous && ex.notes[2].chord_with_previous);
}
