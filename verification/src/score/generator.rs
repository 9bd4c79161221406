//! The exercise generator's deterministic parts: which hand(s) an
//! exercise trains, the chord shapes a melody note can grow into, the
//! accompanying hand's long tones, the onsets where the melody must not
//! double them, and the cadence homes of the walk.

use vstd::prelude::*;
use std::collections::HashMap;
use crate::score::model::{Exercise, NoteDuration, ScoreNote, Staff};
use crate::text::str_eq;

verus! {

/// Which hand(s) an exercise trains: the melodic walk goes to the named
/// hand's staff; `Both` is melody plus left-hand long tones — the classic
/// first hands-together texture.
#[derive(Debug, Clone, Copy, PartialEq, Eq, Structural)]
pub enum Hands {
    Right,
    Left,
    Both,
}

/// The persisted setting string of a hands choice.
pub open spec fn hands_raw(h: Hands) -> Seq<char> {
    match h {
        Hands::Right => "right"@,
        Hands::Left => "left"@,
        Hands::Both => "both"@,
    }
}

impl Hands {
    /// The persisted setting string.
    pub fn raw_value(self) -> (s: &'static str)
        ensures
            s@ == hands_raw(self),
    {
        match self {
            Hands::Right => "right",
            Hands::Left => "left",
            Hands::Both => "both",
        }
    }

    /// The hands choice a persisted setting string names.
    pub fn from_raw_value(raw: &str) -> (h: Option<Hands>)
        ensures
            match h {
                Some(v) => hands_raw(v) == raw@,
                None => forall|v: Hands| hands_raw(v) != raw@,
            },
    {
        proof {
            reveal_strlit("right");
            reveal_strlit("left");
            reveal_strlit("both");
        }
        if str_eq(raw, "right") {
            Some(Hands::Right)
        } else if str_eq(raw, "left") {
            Some(Hands::Left)
        } else if str_eq(raw, "both") {
            Some(Hands::Both)
        } else {
            proof {
                assert forall|v: Hands| hands_raw(v) != raw@ by {
                    match v {
                        Hands::Right => {},
                        Hands::Left => {},
                        Hands::Both => {},
                    }
                }
            }
            None
        }
    }
}

/// A hands choice is identified by its setting string, so reading back the
/// string written for a choice gives that choice.
pub proof fn lemma_hands_raw_value_round_trips(h: Hands)
    ensures
        forall|v: Hands| #[trigger] hands_raw(v) == hands_raw(h) ==> v == h,
{
    reveal_strlit("right");
    reveal_strlit("left");
    reveal_strlit("both");
    assert forall|v: Hands| #[trigger] hands_raw(v) == hands_raw(h) implies v == h by {
        if v != h {
            match (v, h) {
                (Hands::Right, _) => assert(hands_raw(v).len() != hands_raw(h).len() || hands_raw(v)[0] != hands_raw(h)[0]),
                (Hands::Left, _) => assert(hands_raw(v).len() != hands_raw(h).len() || hands_raw(v)[0] != hands_raw(h)[0]),
                (Hands::Both, _) => assert(hands_raw(v).len() != hands_raw(h).len() || hands_raw(v)[0] != hands_raw(h)[0]),
            }
        }
    }
}

/// A harmonic shape built below a melody note: each member sits the given
/// diatonic steps under it.
#[derive(Debug, Clone, Copy, PartialEq, Eq)]
pub struct ChordShape {
    pub item: &'static str,
    pub member_steps_below: &'static [i32],
}

/// The shape a skill item names: its member steps below the melody note.
pub open spec fn shape_steps(item: Seq<char>) -> Option<Seq<i32>> {
    if item == "chord:harm-3rd"@ {
        Some(seq![2i32])
    } else if item == "chord:harm-5th"@ {
        Some(seq![4i32])
    } else if item == "chord:harm-6th"@ {
        Some(seq![5i32])
    } else if item == "chord:harm-octave"@ {
        Some(seq![7i32])
    } else if item == "chord:triad"@ {
        Some(seq![2i32, 4i32])
    } else {
        None
    }
}

/// The deepest member of a shape (0 for a shape without members).
pub open spec fn steps_depth(steps: Seq<i32>) -> int
    decreases steps.len(),
{
    if steps.len() == 0 {
        0
    } else if steps.len() == 1 {
        steps[0] as int
    } else {
        let rest = steps_depth(steps.drop_last());
        if steps.last() > rest { steps.last() as int } else { rest }
    }
}

impl ChordShape {
    /// The shape for a skill item name (`"chord:harm-5th"` …).
    pub fn by_skill_item(item: &str) -> (r: Option<ChordShape>)
        ensures
            match (r, shape_steps(item@)) {
                (Some(shape), Some(steps)) => shape.item@ == item@ && shape.member_steps_below@ == steps,
                (None, None) => true,
                _ => false,
            },
    {
        proof {
            reveal_strlit("chord:harm-3rd");
            reveal_strlit("chord:harm-5th");
            reveal_strlit("chord:harm-6th");
            reveal_strlit("chord:harm-octave");
            reveal_strlit("chord:triad");
        }
        if str_eq(item, "chord:harm-3rd") {
            Some(ChordShape { item: "chord:harm-3rd", member_steps_below: &[2] })
        } else if str_eq(item, "chord:harm-5th") {
            Some(ChordShape { item: "chord:harm-5th", member_steps_below: &[4] })
        } else if str_eq(item, "chord:harm-6th") {
            Some(ChordShape { item: "chord:harm-6th", member_steps_below: &[5] })
        } else if str_eq(item, "chord:harm-octave") {
            Some(ChordShape { item: "chord:harm-octave", member_steps_below: &[7] })
        } else if str_eq(item, "chord:triad") {
            Some(ChordShape { item: "chord:triad", member_steps_below: &[2, 4] })
        } else {
            None
        }
    }

    /// Room the shape needs below the melody position in the active set:
    /// its deepest member (the largest step), 0 without members.
    pub fn depth(&self) -> (d: i32)
        ensures
            d == steps_depth(self.member_steps_below@),
    {
        let steps = self.member_steps_below;
        let mut best: i32 = 0;
        let mut k: usize = 0;
        while k < steps.len()
            invariant
                k <= steps@.len(),
                steps@ == self.member_steps_below@,
                best == steps_depth(steps@.take(k as int)),
            decreases steps.len() - k,
        {
            proof {
                assert(steps@.take(k + 1).drop_last() =~= steps@.take(k as int));
            }
            if k == 0 || steps[k] > best {
                best = steps[k];
            }
            k = k + 1;
        }
        proof {
            assert(steps@.take(steps@.len() as int) =~= steps@);
        }
        best
    }
}


/// A source of uniform random draws.
pub trait Rng64 {
    /// A draw from `0..bound`.
    fn next_below(&mut self, bound: usize) -> (r: usize)
        requires
            bound > 0,
        ensures
            r < bound,
    ;
}

/// What the generator is asked for: how many measures, the meter, how far
/// the rhythm vocabulary reaches, the key, and which hand(s) play.
#[derive(Debug, Clone, Copy, PartialEq, Eq)]
pub struct GeneratorConfig {
    pub measures: i32,
    pub beats_per_measure: i32,
    pub rhythm_level: i32,
    /// Key signature of generated exercises (0 = C, 1 = G, 2 = D).
    pub fifths: i32,
    pub hands: Hands,
    /// `Both` texture flip: the melodic walk goes to the left hand and the
    /// right holds the long tones.
    pub melody_in_bass: bool,
}

impl Default for GeneratorConfig {
    /// Two measures of 4/4 in C for the right hand, the plainest rhythm.
    fn default() -> (c: GeneratorConfig)
        ensures
            c == (GeneratorConfig {
                measures: 2,
                beats_per_measure: 4,
                rhythm_level: 0,
                fifths: 0,
                hands: Hands::Right,
                melody_in_bass: false,
            }),
    {
        GeneratorConfig {
            measures: 2,
            beats_per_measure: 4,
            rhythm_level: 0,
            fifths: 0,
            hands: Hands::Right,
            melody_in_bass: false,
        }
    }
}

/// The generator and its configuration.
#[derive(Debug, Clone, Copy)]
pub struct ExerciseGenerator {
    pub config: GeneratorConfig,
}

/// The accompanying hand's long tone for a measure: tonic on even
/// measures and the last, dominant otherwise; low (C3/G3/D3 tonics, the
/// dominant a 4th below) under a treble melody, high (C4/G4/D4, the
/// dominant a 5th above) over a bass melody.
pub open spec fn accompaniment_spec(config: GeneratorConfig, measure: int) -> int {
    let key = if config.fifths < 0 { 0int } else if config.fifths > 2 { 2int } else { config.fifths as int };
    let tonic: int = if config.melody_in_bass {
        if key == 0 { 60 } else if key == 1 { 67 } else { 62 }
    } else {
        if key == 0 { 48 } else if key == 1 { 55 } else { 50 }
    };
    let dominant = tonic + if config.melody_in_bass { 7int } else { -5int };
    if measure == config.measures - 1 || measure % 2 == 0 { tonic } else { dominant }
}

/// The time a rhythm entry takes: a note's value, or a quarter rest.
pub open spec fn token_units(t: Option<NoteDuration>) -> int {
    match t {
        Some(d) => d.unit_count(),
        None => 2,
    }
}

/// The time the first `j` rhythm entries take.
pub open spec fn units_before(r: Seq<Option<NoteDuration>>, j: int) -> int
    decreases j,
{
    if j <= 0 { 0 } else { units_before(r, j - 1) + token_units(r[j - 1]) }
}

/// How many of the first `j` rhythm entries are notes.
pub open spec fn notes_before(r: Seq<Option<NoteDuration>>, j: int) -> int
    decreases j,
{
    if j <= 0 { 0 } else { notes_before(r, j - 1) + if r[j - 1] is Some { 1int } else { 0int } }
}

/// Note number → the long tone sounding at its onset, over the first `j`
/// rhythm entries: a note that opens a measure meets that measure's tone.
pub open spec fn forbidden_from(config: GeneratorConfig, r: Seq<Option<NoteDuration>>, j: int) -> Map<usize, u8>
    decreases j,
{
    if j <= 0 {
        Map::empty()
    } else {
        let before = forbidden_from(config, r, j - 1);
        let upm = config.beats_per_measure * 2;
        let u = units_before(r, j - 1);
        if r[j - 1] is Some && u % upm == 0 {
            before.insert(notes_before(r, j - 1) as usize, accompaniment_spec(config, u / upm) as u8)
        } else {
            before
        }
    }
}

/// A cadence home: do or sol, within three positions, and not the letter
/// the accompaniment holds.
pub open spec fn is_home(midis: Seq<u8>, position: int, forbidden: Option<u8>, i: int) -> bool {
    let pc = midis[i] % 12;
    &&& 0 <= i < midis.len()
    &&& pc == 0 || pc == 7
    &&& -3 <= i - position <= 3
    &&& match forbidden { Some(f) => f % 12 != pc, None => true }
}

/// Every do or sol within three positions either way whose pitch class
/// the accompaniment does not hold is a home, and nothing else is.
pub proof fn lemma_homes_are_near_tonic_or_dominant(midis: Seq<u8>, position: int, forbidden: Option<u8>, i: int)
    ensures
        is_home(midis, position, forbidden, i) <==> {
            &&& 0 <= i < midis.len()
            &&& midis[i] % 12 == 0 || midis[i] % 12 == 7
            &&& position - 3 <= i <= position + 3
            &&& forall|f: u8| forbidden == Some(f) ==> f % 12 != midis[i] % 12
        },
{
}

pub open spec fn distance(i: int, position: int) -> int {
    if i >= position { i - position } else { position - i }
}

impl ExerciseGenerator {
    /// The accompanying hand's long tone for a measure of a `Both`
    /// texture. The hands never cross: under a treble melody it stays
    /// below middle C, over a bass melody at or above it.
    pub fn accompaniment_pitch(&self, measure: i32) -> (p: u8)
        requires
            self.config.measures > i32::MIN,
        ensures
            p as int == accompaniment_spec(self.config, measure as int),
            self.config.melody_in_bass ==> p >= 60,
            !self.config.melody_in_bass ==> p < 60,
    {
        let key: i32 = if self.config.fifths < 0 { 0 } else if self.config.fifths > 2 { 2 } else { self.config.fifths };
        let tonic: u8 = if self.config.melody_in_bass {
            if key == 0 { 60 } else if key == 1 { 67 } else { 62 }
        } else {
            if key == 0 { 48 } else if key == 1 { 55 } else { 50 }
        };
        let dominant: u8 = if self.config.melody_in_bass { tonic + 7 } else { tonic - 5 };
        let is_last = measure == self.config.measures - 1;
        if is_last || measure % 2 == 0 {
            tonic
        } else {
            dominant
        }
    }

    /// The accompanying hand: one long tone per measure, a whole (dotted
    /// half in 3/4), on the staff the melody leaves free.
    pub fn accompaniment_line(&self) -> (line: Vec<ScoreNote>)
        requires
            self.config.measures > i32::MIN,
        ensures
            line@.len() == (if self.config.measures > 0 { self.config.measures as int } else { 0 }),
            forall|m: int| 0 <= m < line@.len() ==> #[trigger] line@[m] == (ScoreNote {
                midi: Some(accompaniment_spec(self.config, m) as u8),
                duration: if self.config.beats_per_measure == 3 { NoteDuration::DottedHalf } else { NoteDuration::Whole },
                staff: if self.config.melody_in_bass { Staff::Treble } else { Staff::Bass },
                chord_with_previous: false,
                tied_from_previous: false,
            }),
    {
        let duration = if self.config.beats_per_measure == 3 { NoteDuration::DottedHalf } else { NoteDuration::Whole };
        let staff = if self.config.melody_in_bass { Staff::Treble } else { Staff::Bass };
        let mut line: Vec<ScoreNote> = Vec::new();
        let mut measure: i32 = 0;
        while measure < self.config.measures
            invariant
                self.config.measures > i32::MIN,
                0 <= measure,
                measure <= self.config.measures || self.config.measures <= 0,
                self.config.measures <= 0 ==> measure == 0,
                line@.len() == measure,
                forall|m: int| 0 <= m < line@.len() ==> #[trigger] line@[m] == (ScoreNote {
                    midi: Some(accompaniment_spec(self.config, m) as u8),
                    duration,
                    staff,
                    chord_with_previous: false,
                    tied_from_previous: false,
                }),
            decreases self.config.measures - measure,
        {
            let pitch = self.accompaniment_pitch(measure);
            line.push(ScoreNote::note(pitch, duration).with_staff(staff));
            measure = measure + 1;
        }
        line
    }

    /// Note number → the accompaniment long tone sounding at its onset:
    /// in a `Both` texture, every note that opens a measure meets that
    /// measure's tone (mid-measure notes over a held tone stay free).
    pub fn measure_start_forbidden(&self, rhythm: &[Option<NoteDuration>]) -> (m: HashMap<usize, u8>)
        requires
            self.config.measures > i32::MIN,
            -0x4000_0000 < self.config.beats_per_measure < 0x4000_0000,
            self.config.hands == Hands::Both ==> self.config.beats_per_measure != 0,
            rhythm@.len() <= 0x0fff_ffff,
        ensures
            m@ == (if self.config.hands == Hands::Both { forbidden_from(self.config, rhythm@, rhythm@.len() as int) } else { Map::empty() }),
    {
        let mut result: HashMap<usize, u8> = HashMap::new();
        if self.config.hands != Hands::Both {
            return result;
        }
        let units_per_measure = self.config.beats_per_measure * 2;
        let mut units: i32 = 0;
        let mut sounded_index: usize = 0;
        let mut k: usize = 0;
        while k < rhythm.len()
            invariant
                self.config.measures > i32::MIN,
                self.config.hands == Hands::Both,
                units_per_measure == self.config.beats_per_measure * 2,
                units_per_measure != 0,
                -0x8000_0000 < units_per_measure < 0x8000_0000,
                rhythm@.len() <= 0x0fff_ffff,
                k <= rhythm@.len(),
                units == units_before(rhythm@, k as int),
                0 <= units <= 8 * k,
                sounded_index == notes_before(rhythm@, k as int),
                sounded_index <= k,
                result@ == forbidden_from(self.config, rhythm@, k as int),
            decreases rhythm.len() - k,
        {
            match rhythm[k] {
                None => {
                    units = units + 2;
                },
                Some(duration) => {
                    if units % units_per_measure == 0 {
                        // `units` is never negative, so the quotient is the
                        // magnitude quotient carrying the meter's sign.
                        let q: i32 = if units_per_measure > 0 {
                            units / units_per_measure
                        } else {
                            -(units / (-units_per_measure))
                        };
                        proof {
                            let m = if units_per_measure > 0 { units_per_measure as int } else { -units_per_measure as int };
                            let mq = if units_per_measure > 0 { q as int } else { -q as int };
                            assert(units as int % m == 0) by {
                                assert(units as int % units_per_measure as int == 0);
                                if units_per_measure < 0 {
                                    let k = units as int / units_per_measure as int;
                                    assert(units as int == units_per_measure * k) by (nonlinear_arith)
                                        requires
                                            units as int % units_per_measure as int == 0,
                                            units_per_measure != 0,
                                            k == units as int / units_per_measure as int,
                                    ;
                                    assert(units as int == m * (-k)) by (nonlinear_arith)
                                        requires
                                            units as int == units_per_measure * k,
                                            m == -units_per_measure,
                                    ;
                                    assert((units as int) % m == 0) by (nonlinear_arith)
                                        requires
                                            units as int == m * (-k),
                                            m > 0,
                                    ;
                                }
                            }
                            assert(mq == units as int / m);
                            assert(q * units_per_measure == units) by (nonlinear_arith)
                                requires
                                    mq == units as int / m,
                                    units as int % m == 0,
                                    m > 0,
                                    units_per_measure > 0 ==> m == units_per_measure && mq == q,
                                    units_per_measure < 0 ==> m == -units_per_measure && mq == -q,
                                    units_per_measure != 0,
                            ;
                        }
                        assert(q == units as int / units_per_measure as int) by (nonlinear_arith)
                            requires
                                q * units_per_measure == units,
                                units_per_measure != 0,
                        ;
                        let tone = self.accompaniment_pitch(q);
                        result.insert(sounded_index, tone);
                    }
                    units = units + duration.units();
                    sounded_index = sounded_index + 1;
                },
            }
            k = k + 1;
        }
        result
    }

    /// A nearby do/sol ending for the walk at `position` over the active
    /// pitches `midis` (ascending): the closest home within three
    /// positions whose letter the accompaniment does not hold, the lower
    /// on a tie; `None` when there is none.
    pub fn cadence_position(&self, position: usize, midis: &[u8], forbidden_midi: Option<u8>) -> (r: Option<usize>)
        requires
            position < 0x4000_0000,
            midis@.len() < 0x4000_0000,
        ensures
            match r {
                Some(i) => is_home(midis@, position as int, forbidden_midi, i as int)
                    && forall|j: int| #[trigger] is_home(midis@, position as int, forbidden_midi, j)
                        ==> distance(i as int, position as int) < distance(j, position as int)
                            || (distance(i as int, position as int) == distance(j, position as int) && i <= j),
                None => forall|j: int| !#[trigger] is_home(midis@, position as int, forbidden_midi, j),
            },
            r is None ==> forall|j: int| 0 <= j < midis@.len() && position - 3 <= j <= position + 3
                && (#[trigger] midis@[j] % 12 == 0 || midis@[j] % 12 == 7)
                ==> (forbidden_midi matches Some(f) && f % 12 == midis@[j] % 12),
            r matches Some(i) ==> i < midis@.len() && position - 3 <= i <= position + 3
                && (midis@[i as int] % 12 == 0 || midis@[i as int] % 12 == 7),
    {
        let mut best: Option<usize> = None;
        let mut i: usize = 0;
        while i < midis.len()
            invariant
                position < 0x4000_0000,
                midis@.len() < 0x4000_0000,
                i <= midis@.len(),
                match best {
                    Some(b) => b < i && is_home(midis@, position as int, forbidden_midi, b as int)
                        && forall|j: int| 0 <= j < i && #[trigger] is_home(midis@, position as int, forbidden_midi, j)
                            ==> distance(b as int, position as int) < distance(j, position as int)
                                || (distance(b as int, position as int) == distance(j, position as int) && b <= j),
                    None => forall|j: int| 0 <= j < i ==> !#[trigger] is_home(midis@, position as int, forbidden_midi, j),
                },
            decreases midis.len() - i,
        {
            let pc = midis[i] % 12;
            let offset: i32 = i as i32 - position as i32;
            let near = -3 <= offset && offset <= 3;
            let allowed = match forbidden_midi {
                Some(f) => f % 12 != pc,
                None => true,
            };
            if (pc == 0 || pc == 7) && near && allowed {
                let d: i32 = if offset < 0 { -offset } else { offset };
                match best {
                    None => {
                        best = Some(i);
                    },
                    Some(b) => {
                        let bo: i32 = b as i32 - position as i32;
                        let bd: i32 = if bo < 0 { -bo } else { bo };
                        if d < bd {
                            best = Some(i);
                        }
                    },
                }
            }
            i = i + 1;
        }
        proof {
            if best is None {
                assert forall|j: int| 0 <= j < midis@.len() && position - 3 <= j <= position + 3
                    && (#[trigger] midis@[j] % 12 == 0 || midis@[j] % 12 == 7)
                    implies (forbidden_midi matches Some(f) && f % 12 == midis@[j] % 12) by {
                    lemma_homes_are_near_tonic_or_dominant(midis@, position as int, forbidden_midi, j);
                }
            }
        }
        best
    }
}


/// The accompanying hand's line as a sequence: one long tone per measure.
pub open spec fn accompaniment_line_spec(config: GeneratorConfig) -> Seq<ScoreNote> {
    Seq::new(
        if config.measures > 0 { config.measures as nat } else { 0 },
        |m: int| ScoreNote {
            midi: Some(accompaniment_spec(config, m) as u8),
            duration: if config.beats_per_measure == 3 { NoteDuration::DottedHalf } else { NoteDuration::Whole },
            staff: if config.melody_in_bass { Staff::Treble } else { Staff::Bass },
            chord_with_previous: false,
            tied_from_previous: false,
        },
    )
}

/// Whether the melodic walk goes to the left hand's staff.
pub open spec fn walk_in_bass(config: GeneratorConfig) -> bool {
    config.hands == Hands::Left || (config.hands == Hands::Both && config.melody_in_bass)
}

impl ExerciseGenerator {
    /// The staff the melodic walk is written on: the bass staff for the
    /// left hand and for a `Both` texture with the melody in the bass.
    pub fn walk_staff(&self) -> (s: Staff)
        ensures
            s == (if walk_in_bass(self.config) { Staff::Bass } else { Staff::Treble }),
    {
        let in_bass = match self.config.hands {
            Hands::Left => true,
            Hands::Both => self.config.melody_in_bass,
            Hands::Right => false,
        };
        if in_bass { Staff::Bass } else { Staff::Treble }
    }

    /// The exercise a melodic walk makes for the configured hands: the walk
    /// alone on the treble voice (right hand) or the bass voice (left
    /// hand), or with the accompanying hand's long tones on the other
    /// voice (`Both`); in the configured meter and key.
    pub fn assemble(&self, walk: Vec<ScoreNote>) -> (e: Exercise)
        requires
            self.config.measures > i32::MIN,
        ensures
            e.beats_per_measure == self.config.beats_per_measure,
            e.fifths == self.config.fifths,
            self.config.hands == Hands::Right ==> e.notes@ == walk@ && e.bass_notes@.len() == 0,
            self.config.hands == Hands::Left ==> e.notes@.len() == 0 && e.bass_notes@ == walk@,
            self.config.hands == Hands::Both && self.config.melody_in_bass
                ==> e.notes@ == accompaniment_line_spec(self.config) && e.bass_notes@ == walk@,
            self.config.hands == Hands::Both && !self.config.melody_in_bass
                ==> e.notes@ == walk@ && e.bass_notes@ == accompaniment_line_spec(self.config),
    {
        let bpm = self.config.beats_per_measure;
        let fifths = self.config.fifths;
        match self.config.hands {
            Hands::Right => Exercise::new(walk, bpm).with_fifths(fifths),
            Hands::Left => Exercise::new(Vec::new(), bpm).with_bass(walk).with_fifths(fifths),
            Hands::Both => {
                let line = self.accompaniment_line();
                assert(line@ =~= accompaniment_line_spec(self.config));
                if self.config.melody_in_bass {
                    Exercise::new(line, bpm).with_bass(walk).with_fifths(fifths)
                } else {
                    Exercise::new(walk, bpm).with_bass(line).with_fifths(fifths)
                }
            },
        }
    }
}

} // verus!
