//! The counts behind an exercise's interpretable difficulty descriptors:
//! range, notes per measure, leaps, repeated moves and the pitch
//! histogram of the sounded treble line. The descriptors themselves are
//! ratios and an entropy over these counts.

use vstd::prelude::*;
use crate::pitch::{diatonic_index_spec, PitchSpelling};
use crate::score::model::{measures_spec, sounded, Exercise, ScoreNote};

verus! {

/// The pitches of the sounded treble line, in order.
pub open spec fn melody(ex: Exercise) -> Seq<u8> {
    sounded(ex.notes@).map_values(|n: ScoreNote| n.midi->0)
}

/// The highest pitch of a line (0 for an empty one).
pub open spec fn highest(m: Seq<u8>) -> int
    decreases m.len(),
{
    if m.len() == 0 {
        0
    } else if m.len() == 1 {
        m[0] as int
    } else {
        let rest = highest(m.drop_last());
        if m.last() > rest { m.last() as int } else { rest }
    }
}

/// The lowest pitch of a line (0 for an empty one).
pub open spec fn lowest(m: Seq<u8>) -> int
    decreases m.len(),
{
    if m.len() == 0 {
        0
    } else if m.len() == 1 {
        m[0] as int
    } else {
        let rest = lowest(m.drop_last());
        if m.last() < rest { m.last() as int } else { rest }
    }
}

/// A move of a third or more: two or more staff positions.
pub open spec fn is_leap(a: u8, b: u8) -> bool {
    let d = diatonic_index_spec(b as int) - diatonic_index_spec(a as int);
    d >= 2 || d <= -2
}

/// The leaps among the first `k` moves of a line.
pub open spec fn leaps_in(m: Seq<u8>, k: int) -> nat
    decreases k,
{
    if k <= 0 || k >= m.len() {
        0
    } else {
        leaps_in(m, k - 1) + (if is_leap(m[k - 1], m[k]) { 1nat } else { 0nat })
    }
}

/// A move is a leap exactly when its two pitches lie two or more staff
/// positions apart, whichever way it goes.
pub proof fn lemma_leap_is_two_staff_positions(a: u8, b: u8)
    ensures
        is_leap(a, b) <==> (diatonic_index_spec(a as int) - diatonic_index_spec(b as int) >= 2
            || diatonic_index_spec(b as int) - diatonic_index_spec(a as int) >= 2),
        is_leap(a, b) == is_leap(b, a),
{
}

proof fn lemma_leaps_in_drop_last(m: Seq<u8>, k: int)
    requires
        k < m.len() - 1,
    ensures
        leaps_in(m, k) == leaps_in(m.drop_last(), k),
    decreases k,
{
    if k > 0 {
        lemma_leaps_in_drop_last(m, k - 1);
    }
}

proof fn lemma_leaps_in_drop_first(m: Seq<u8>, k: int)
    requires
        1 <= k < m.len(),
    ensures
        leaps_in(m, k) == (if is_leap(m[0], m[1]) { 1nat } else { 0nat }) + leaps_in(m.drop_first(), k - 1),
    decreases k,
{
    if k > 1 {
        lemma_leaps_in_drop_first(m, k - 1);
        assert(m.drop_first()[k - 2] == m[k - 1]);
        assert(m.drop_first()[k - 1] == m[k]);
    } else {
        assert(leaps_in(m, 0) == 0);
        assert(leaps_in(m.drop_first(), 0) == 0);
    }
}

/// Played backwards, a line has as many leaps as played forwards.
pub proof fn lemma_leaps_survive_reversal(m: Seq<u8>)
    ensures
        leaps_in(m.reverse(), m.len() - 1) == leaps_in(m, m.len() - 1),
    decreases m.len(),
{
    let n = m.len() as int;
    if n >= 2 {
        let r = m.reverse();
        let d = m.drop_last();
        lemma_leaps_in_drop_first(r, n - 1);
        assert(r.drop_first() =~= d.reverse());
        lemma_leaps_survive_reversal(d);
        lemma_leaps_in_drop_last(m, n - 2);
        lemma_leap_is_two_staff_positions(m[n - 2], m[n - 1]);
        assert(r[0] == m[n - 1] && r[1] == m[n - 2]);
    }
}

/// The key of the move `a` → `b`.
pub open spec fn bigram_key(a: u8, b: u8) -> i32 {
    (a * 128 + b) as i32
}

/// The keys of the first `k` moves of a line.
pub open spec fn bigrams_in(m: Seq<u8>, k: int) -> Set<i32> {
    Set::new(|key: i32| exists|j: int| 1 <= j <= k && j < m.len() && key == #[trigger] bigram_key(m[j - 1], m[j]))
}

/// How often `p` occurs among the first `k` pitches of a line.
pub open spec fn occurrences(m: Seq<u8>, p: u8, k: int) -> nat
    decreases k,
{
    if k <= 0 || k > m.len() {
        0
    } else {
        occurrences(m, p, k - 1) + (if m[k - 1] == p { 1nat } else { 0nat })
    }
}

/// The counts of a line's shape.
#[derive(Debug, Clone, PartialEq, Eq)]
pub struct MelodyStats {
    /// Highest minus lowest sounded pitch.
    pub range_semitones: i32,
    pub note_count: usize,
    /// The treble voice's measures.
    pub measure_count: usize,
    /// Moves of a third or more.
    pub leaps: usize,
    /// Moves between consecutive sounded notes.
    pub intervals: usize,
    /// Distinct moves (by pitch pair).
    pub distinct_bigrams: usize,
    /// Occurrences of each pitch value, indexed by the value.
    pub pitch_counts: Vec<u64>,
}

fn melody_of(ex: &Exercise) -> (m: Vec<u8>)
    ensures
        m@ == melody(*ex),
{
    let sounded_notes = ex.sounded_notes();
    let mut m: Vec<u8> = Vec::new();
    let mut k: usize = 0;
    while k < sounded_notes.len()
        invariant
            k <= sounded_notes@.len(),
            sounded_notes@ == sounded(ex.notes@),
            m@ == sounded_notes@.take(k as int).map_values(|n: ScoreNote| n.midi->0),
        decreases sounded_notes.len() - k,
    {
        let midi = match sounded_notes[k].midi {
            Some(v) => v,
            None => 0,
        };
        proof {
            assert(sounded_notes@[k as int].midi is Some) by {
                ex.notes@.lemma_filter_pred(|n: ScoreNote| n.midi is Some, k as int);
            }
        }
        m.push(midi);
        k = k + 1;
        assert(m@ =~= sounded_notes@.take(k as int).map_values(|n: ScoreNote| n.midi->0));
    }
    assert(sounded_notes@.take(sounded_notes@.len() as int) =~= sounded_notes@);
    m
}

/// The counts behind the difficulty descriptors of the sounded treble
/// line.
pub fn melody_stats(ex: &Exercise) -> (s: MelodyStats)
    requires
        ex.meter_fits(),
    ensures
        s.range_semitones == highest(melody(*ex)) - lowest(melody(*ex)),
        s.note_count == melody(*ex).len(),
        s.measure_count == measures_spec(ex.notes@, ex.upm()).len(),
        s.intervals == (if melody(*ex).len() > 0 { melody(*ex).len() - 1 } else { 0 }),
        s.leaps == leaps_in(melody(*ex), melody(*ex).len() - 1),
        s.distinct_bigrams == bigrams_in(melody(*ex), melody(*ex).len() - 1).len(),
        s.pitch_counts@.len() == 256,
        forall|p: int| 0 <= p < 256 ==> s.pitch_counts@[p] == occurrences(melody(*ex), p as u8, melody(*ex).len() as int),
{
    let m = melody_of(ex);
    let ghost ms = m@;
    let measure_count = ex.measures().len();
    // Range.
    let mut hi: u8 = 0;
    let mut lo: u8 = 0;
    let mut k: usize = 0;
    while k < m.len()
        invariant
            k <= ms.len(),
            m@ == ms,
            hi as int == highest(ms.take(k as int)),
            lo as int == lowest(ms.take(k as int)),
        decreases m.len() - k,
    {
        proof {
            assert(ms.take(k + 1).drop_last() =~= ms.take(k as int));
        }
        if k == 0 || m[k] > hi {
            hi = m[k];
        }
        if k == 0 || m[k] < lo {
            lo = m[k];
        }
        k = k + 1;
    }
    assert(ms.take(ms.len() as int) =~= ms);
    // Moves: leaps and distinct keys.
    let mut leaps: usize = 0;
    let mut keys: Vec<i32> = Vec::new();
    let mut j: usize = 1;
    while j < m.len()
        invariant
            1 <= j,
            m@ == ms,
            j <= ms.len() || ms.len() == 0,
            leaps as nat == leaps_in(ms, j - 1),
            leaps < j,
            keys@.no_duplicates(),
            keys@.to_set() == bigrams_in(ms, j - 1),
            keys@.len() < j,
        decreases m.len() - j,
    {
        let a = m[j - 1];
        let b = m[j];
        let da = PitchSpelling::diatonic_index(a);
        let db = PitchSpelling::diatonic_index(b);
        if db - da >= 2 || db - da <= -2 {
            leaps = leaps + 1;
        }
        let key: i32 = a as i32 * 128 + b as i32;
        let mut seen = false;
        let mut t: usize = 0;
        while t < keys.len()
            invariant
                t <= keys@.len(),
                !seen ==> forall|u: int| 0 <= u < t ==> keys@[u] != key,
                seen ==> keys@.contains(key),
            decreases keys.len() - t,
        {
            if keys[t] == key {
                seen = true;
            }
            t = t + 1;
        }
        let ghost before = keys@;
        if !seen {
            keys.push(key);
        }
        proof {
            assert(key == bigram_key(a, b));
            assert(keys@.to_set() =~= bigrams_in(ms, j as int)) by {
                assert forall|x: i32| keys@.to_set().contains(x) implies bigrams_in(ms, j as int).contains(x) by {
                    if before.contains(x) {
                        assert(bigrams_in(ms, j - 1).contains(x));
                        let w = choose|w: int| 1 <= w <= j - 1 && w < ms.len() && x == #[trigger] bigram_key(ms[w - 1], ms[w]);
                        assert(1 <= w <= j && w < ms.len() && x == bigram_key(ms[w - 1], ms[w]));
                    } else {
                        assert(x == key);
                        assert(1 <= j <= j && j < ms.len() && x == bigram_key(ms[j - 1], ms[j as int]));
                    }
                }
                assert forall|x: i32| bigrams_in(ms, j as int).contains(x) implies keys@.to_set().contains(x) by {
                    let w = choose|w: int| 1 <= w <= j && w < ms.len() && x == #[trigger] bigram_key(ms[w - 1], ms[w]);
                    if w < j {
                        assert(bigrams_in(ms, j - 1).contains(x));
                        assert(before.to_set().contains(x));
                        let i = choose|i: int| 0 <= i < before.len() && before[i] == x;
                        assert(keys@[i] == x);
                    } else {
                        assert(x == key);
                        if seen {
                            assert(before.contains(x));
                        } else {
                            assert(keys@[keys@.len() - 1] == x);
                        }
                    }
                }
            }
            if !seen {
                assert forall|u: int, v: int| 0 <= u < v < keys@.len() implies keys@[u] != keys@[v] by {
                    if v == keys@.len() - 1 {
                        assert(keys@[u] == before[u]);
                    }
                }
            }
        }
        j = j + 1;
    }
    proof {
        if ms.len() > 0 {
            assert(j == ms.len());
        } else {
            assert(bigrams_in(ms, -1) =~= Set::<i32>::empty());
            assert(bigrams_in(ms, 0) =~= Set::<i32>::empty());
        }
        keys@.unique_seq_to_set();
        assert(keys@.len() == keys@.to_set().len());
        assert(keys@.to_set() == bigrams_in(ms, ms.len() - 1));
        assert(ms == melody(*ex));
    }
    // Pitch histogram.
    let mut counts: Vec<u64> = Vec::new();
    let mut p: usize = 0;
    while p < 256
        invariant
            p <= 256,
            counts@.len() == p,
            forall|q: int| 0 <= q < p ==> counts@[q] == 0,
        decreases 256 - p,
    {
        counts.push(0);
        p = p + 1;
    }
    let mut k: usize = 0;
    while k < m.len()
        invariant
            k <= ms.len(),
            m@ == ms,
            counts@.len() == 256,
            forall|q: int| 0 <= q < 256 ==> counts@[q] == occurrences(ms, q as u8, k as int),
            forall|q: int| 0 <= q < 256 ==> counts@[q] <= k,
        decreases m.len() - k,
    {
        let v = m[k] as usize;
        let c = counts[v];
        counts.set(v, c + 1);
        proof {
            assert forall|q: int| 0 <= q < 256 implies counts@[q] == occurrences(ms, q as u8, k + 1) by {
                assert((q as u8) as int == q);
            }
        }
        k = k + 1;
    }
    MelodyStats {
        range_semitones: hi as i32 - lo as i32,
        note_count: m.len(),
        measure_count,
        leaps,
        intervals: if m.len() > 0 { m.len() - 1 } else { 0 },
        distinct_bigrams: keys.len(),
        pitch_counts: counts,
    }
}

} // verus!
