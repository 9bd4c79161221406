use keyinsight::score::difficulty::melody_stats;
use keyinsight::score::model::{Exercise, NoteDuration, ScoreNote};

fn line(midis: &[u8]) -> Exercise {
    Exercise::new(midis.iter().map(|&m| ScoreNote::note(m, NoteDuration::Quarter)).collect(), 4)
}

#[test]
fn ascending_scale_counts() {
    let exercise = Exercise::new(
        vec![
            ScoreNote::note(60, NoteDuration::Quarter),
            ScoreNote::note(62, NoteDuration::Quarter),
            ScoreNote::note(64, NoteDuration::Quarter),
            ScoreNote::note(65, NoteDuration::Quarter),
            ScoreNote::note(67, NoteDuration::Whole),
        ],
        4,
    );
    let s = melody_stats(&exercise);
    assert_eq!(s.range_semitones, 7);
    assert_eq!(s.note_count, 5);
    assert_eq!(s.measure_count, 2); // 2.5 notes per measure
    assert_eq!(s.leaps, 0); // all stepwise
    assert_eq!(s.intervals, 4);
    assert_eq!(s.distinct_bigrams, 4); // no repeated bigram
    assert_eq!(s.pitch_counts.iter().filter(|&&c| c == 1).count(), 5);
}

#[test]
fn repetitive_pattern_counts() {
    let s = melody_stats(&line(&[60, 62, 60, 62, 60]));
    // 4 intervals, 2 unique bigrams (C→D, D→C).
    assert_eq!(s.intervals, 4);
    assert_eq!(s.distinct_bigrams, 2);
    assert_eq!(s.leaps, 0);
    assert_eq!(s.pitch_counts[60], 3);
    assert_eq!(s.pitch_counts[62], 2);
}

#[test]
fn arpeggio_is_all_leaps() {
    let s = melody_stats(&line(&[60, 64, 67]));
    assert_eq!(s.leaps, 2);
    assert_eq!(s.intervals, 2);
}

#[test]
fn rests_are_not_part_of_the_line() {
    let ex = Exercise::new(
        vec![ScoreNote::rest(NoteDuration::Half), ScoreNote::note(72, NoteDuration::Half)],
        4,
    );
    let s = melody_stats(&ex);
    assert_eq!(s.note_count, 1);
    assert_eq!(s.range_semitones, 0);
    assert_eq!(s.intervals, 0);
    assert_eq!(s.distinct_bigrams, 0);
    let empty = melody_stats(&Exercise::new(vec![], 4));
    assert_eq!((empty.note_count, empty.measure_count, empty.range_semitones), (0, 0, 0));
}
