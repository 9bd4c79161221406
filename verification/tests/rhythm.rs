use keyinsight::score::generator::{ExerciseGenerator, GeneratorConfig, Hands, Rng64};
use keyinsight::score::model::{NoteDuration, ScoreNote, Staff};

/// A small deterministic draw source for the tests.
struct Lcg(u64);

impl Rng64 for Lcg {
    fn next_below(&mut self, bound: usize) -> usize {
        self.0 = self.0.wrapping_mul(6364136223846793005).wrapping_add(1442695040888963407);
        ((self.0 >> 33) as usize) % bound
    }
}

/// Draws that always land on one choice position.
struct Fixed(usize);

impl Rng64 for Fixed {
    fn next_below(&mut self, bound: usize) -> usize {
        self.0.min(bound - 1)
    }
}

fn generator(measures: i32, beats: i32, level: i32) -> ExerciseGenerator {
    ExerciseGenerator {
        config: GeneratorConfig { measures, beats_per_measure: beats, rhythm_level: level, ..GeneratorConfig::default() },
    }
}

fn units(t: &Option<NoteDuration>) -> i32 {
    t.map(|d| d.units()).unwrap_or(2)
}

/// Splits a rhythm into its measures, failing if an entry crosses a
/// barline.
fn measures_of(rhythm: &[Option<NoteDuration>], upm: i32) -> Vec<Vec<Option<NoteDuration>>> {
    let mut out: Vec<Vec<Option<NoteDuration>>> = Vec::new();
    let mut current: Vec<Option<NoteDuration>> = Vec::new();
    let mut filled = 0;
    for t in rhythm {
        current.push(*t);
        filled += units(t);
        assert!(filled <= upm, "an entry crosses a barline: {rhythm:?}");
        if filled == upm {
            out.push(std::mem::take(&mut current));
            filled = 0;
        }
    }
    assert!(current.is_empty(), "the last measure is not full: {rhythm:?}");
    out
}

#[test]
fn generated_measures_are_exactly_full() {
    for seed in 0..200u64 {
        for (beats, level) in [(4, 0), (3, 1), (4, 2), (3, 3), (4, 3), (2, 3)] {
            let rhythm = generator(4, beats, level).make_rhythm(&mut Lcg(seed));
            let measures = measures_of(&rhythm, beats * 2);
            assert_eq!(measures.len(), 4);
        }
    }
}

#[test]
fn rests_never_open_never_close_and_one_per_measure() {
    let mut rests_seen = 0;
    for seed in 0..300u64 {
        let rhythm = generator(4, 4, 3).make_rhythm(&mut Lcg(seed));
        assert!(rhythm[0].is_some());
        let measures = measures_of(&rhythm, 8);
        assert!(measures[3].iter().all(|t| t.is_some()));
        for m in &measures {
            let rests = m.iter().filter(|t| t.is_none()).count();
            assert!(rests <= 1);
            rests_seen += rests;
        }
    }
    assert!(rests_seen > 0);
}

#[test]
fn rhythm_vocabulary_grows_with_the_level() {
    for seed in 0..200u64 {
        let plain = generator(4, 4, 0).make_rhythm(&mut Lcg(seed));
        assert!(plain.iter().all(|t| matches!(
            t,
            Some(NoteDuration::Quarter) | Some(NoteDuration::Half) | Some(NoteDuration::Whole)
        )));
        let dotted = generator(4, 4, 1).make_rhythm(&mut Lcg(seed));
        assert!(dotted.iter().all(|t| t.is_some() && *t != Some(NoteDuration::Eighth)));
        let eighths = generator(4, 4, 2).make_rhythm(&mut Lcg(seed));
        assert!(eighths.iter().all(|t| t.is_some() && *t != Some(NoteDuration::DottedQuarter)));
    }
}

#[test]
fn draws_pick_choices_in_order() {
    // First choice everywhere: quarters, and the cadence half at the end.
    let rhythm = generator(2, 4, 0).make_rhythm(&mut Fixed(0));
    let q = Some(NoteDuration::Quarter);
    let h = Some(NoteDuration::Half);
    assert_eq!(rhythm, vec![q, q, q, q, q, q, h]);
    // Weights 6 quarter · 3 half · 1 whole: a draw of 9 is the whole note
    // while eight units remain, a half below that.
    let g = generator(1, 4, 0);
    assert_eq!(g.rhythm_weight(8, false), 10);
    assert_eq!(g.rhythm_tokens(8, false, 9), vec![Some(NoteDuration::Whole)]);
    assert_eq!(g.rhythm_tokens(8, false, 6), vec![h]);
    assert_eq!(g.rhythm_tokens(8, false, 5), vec![q]);
    let busy = generator(1, 4, 3);
    assert_eq!(busy.rhythm_weight(8, true), 16);
    assert_eq!(busy.rhythm_tokens(8, true, 10), vec![Some(NoteDuration::DottedHalf)]);
    assert_eq!(
        busy.rhythm_tokens(8, true, 12),
        vec![Some(NoteDuration::Eighth), Some(NoteDuration::Eighth)]
    );
    assert_eq!(busy.rhythm_tokens(8, true, 15), vec![None]);
    assert_eq!(busy.rhythm_weight(2, false), 9);
}

#[test]
fn accompaniment_alternates_tonic_and_dominant_ending_on_the_tonic() {
    let mut g = generator(4, 4, 0);
    g.config.hands = Hands::Both;
    g.config.fifths = 1;
    let line: Vec<u8> = g.accompaniment_line().iter().map(|n| n.midi.unwrap()).collect();
    assert_eq!(line, vec![55, 50, 55, 55]);
    assert!(g.accompaniment_line().iter().all(|n| n.staff == Staff::Bass && n.duration == NoteDuration::Whole));
    g.config.melody_in_bass = true;
    g.config.beats_per_measure = 3;
    let high = g.accompaniment_line();
    let pitches: Vec<u8> = high.iter().map(|n| n.midi.unwrap()).collect();
    assert_eq!(pitches, vec![67, 74, 67, 67]);
    assert_eq!(high[0], ScoreNote::note(67, NoteDuration::DottedHalf).with_staff(Staff::Treble));
    g.config.fifths = 9;
    assert_eq!(g.accompaniment_pitch(0), 62);
    g.config.fifths = -3;
    g.config.melody_in_bass = false;
    assert_eq!(g.accompaniment_pitch(1), 43);
}

#[test]
fn measure_starts_forbid_the_long_tone() {
    let mut g = generator(3, 4, 0);
    let q = Some(NoteDuration::Quarter);
    let h = Some(NoteDuration::Half);
    let w = Some(NoteDuration::Whole);
    let rhythm = vec![h, q, q, None, q, h, w];
    assert!(g.measure_start_forbidden(&rhythm).is_empty());
    g.config.hands = Hands::Both;
    let forbidden = g.measure_start_forbidden(&rhythm);
    assert_eq!(forbidden.len(), 2);
    assert_eq!(forbidden.get(&0), Some(&48));
    assert_eq!(forbidden.get(&5), Some(&48));
    assert_eq!(forbidden.get(&3), None);
}

#[test]
fn cadence_prefers_the_nearest_home() {
    let g = generator(2, 4, 0);
    // C4 D4 E4 F4 G4 A4 B4 C5
    let midis = [60u8, 62, 64, 65, 67, 69, 71, 72];
    assert_eq!(g.cadence_position(3, &midis, None), Some(4));
    assert_eq!(g.cadence_position(2, &midis, None), Some(0));
    assert_eq!(g.cadence_position(2, &midis, Some(55)), Some(0));
    assert_eq!(g.cadence_position(2, &midis, Some(48)), Some(4));
    assert_eq!(g.cadence_position(6, &midis, None), Some(7));
    assert_eq!(g.cadence_position(1, &[62u8, 64, 65, 69, 71, 74, 76], None), None);
    assert_eq!(GeneratorConfig::default().measures, 2);
}

#[test]
fn walks_are_assembled_per_hands() {
    let walk = vec![ScoreNote::note(64, NoteDuration::Whole), ScoreNote::note(67, NoteDuration::Whole)];
    let mut g = generator(2, 4, 0);
    g.config.fifths = 2;
    assert_eq!(g.walk_staff(), Staff::Treble);
    let right = g.assemble(walk.clone());
    assert_eq!(right.notes, walk);
    assert!(right.bass_notes.is_empty());
    assert_eq!(right.fifths, 2);
    g.config.hands = Hands::Left;
    assert_eq!(g.walk_staff(), Staff::Bass);
    let left = g.assemble(walk.clone());
    assert!(left.notes.is_empty());
    assert_eq!(left.bass_notes, walk);
    g.config.hands = Hands::Both;
    assert_eq!(g.walk_staff(), Staff::Treble);
    let both = g.assemble(walk.clone());
    assert_eq!(both.notes, walk);
    assert_eq!(both.bass_notes, g.accompaniment_line());
    assert_eq!(both.bass_notes.iter().map(|n| n.midi.unwrap()).collect::<Vec<_>>(), vec![50, 50]);
    g.config.melody_in_bass = true;
    assert_eq!(g.walk_staff(), Staff::Bass);
    let flipped = g.assemble(walk.clone());
    assert_eq!(flipped.bass_notes, walk);
    assert_eq!(flipped.notes.iter().map(|n| n.midi.unwrap()).collect::<Vec<_>>(), vec![62, 62]);
    assert_eq!(flipped.beats_per_measure, 4);
}

/// Replays a fixed list of draws and keeps the bounds it was asked for.
struct Script {
    rolls: Vec<usize>,
    bounds: Vec<usize>,
}

impl Rng64 for Script {
    fn next_below(&mut self, bound: usize) -> usize {
        let roll = self.rolls[self.bounds.len()];
        self.bounds.push(bound);
        roll
    }
}

#[test]
fn the_rhythm_is_what_its_draws_pick() {
    let mut script = Script { rolls: vec![12, 14, 6, 0, 0], bounds: Vec::new() };
    let rhythm = generator(2, 4, 3).make_rhythm(&mut script);
    let e = Some(NoteDuration::Eighth);
    let q = Some(NoteDuration::Quarter);
    let h = Some(NoteDuration::Half);
    assert_eq!(rhythm, vec![e, e, None, h, q, q, h]);
    // A rest opens only after the first entry, and never in the last measure.
    assert_eq!(script.bounds, vec![15, 15, 12, 15, 14]);
}
