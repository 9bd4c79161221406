//! The rhythm vocabulary of generated exercises: one entry per score
//! event, drawn measure by measure from choices the rhythm level opens.

use vstd::prelude::*;
use crate::score::generator::{token_units, units_before, ExerciseGenerator, GeneratorConfig, Rng64};
use crate::score::model::NoteDuration;

verus! {

/// `seq![(tokens, weight)]` when `c`, else nothing.
pub open spec fn choice(c: bool, tokens: Seq<Option<NoteDuration>>, weight: int) -> Seq<(Seq<Option<NoteDuration>>, int)> {
    if c { seq![(tokens, weight)] } else { Seq::empty() }
}

/// The choices open with `remaining` units left in a measure, each with
/// its weight: quarter, half, whole, then (by level) dotted half, a pair
/// of eighths, and a quarter rest where one may fall.
pub open spec fn rhythm_choices(level: int, remaining: int, rest_ok: bool) -> Seq<(Seq<Option<NoteDuration>>, int)> {
    choice(remaining >= 2, seq![Some(NoteDuration::Quarter)], 6)
        + (choice(remaining >= 4, seq![Some(NoteDuration::Half)], 3)
        + (choice(remaining >= 8, seq![Some(NoteDuration::Whole)], 1)
        + (choice(level >= 1 && remaining >= 6, seq![Some(NoteDuration::DottedHalf)], 2)
        + (choice(level >= 2 && remaining >= 2, seq![Some(NoteDuration::Eighth), Some(NoteDuration::Eighth)], 3)
        + choice(level >= 3 && remaining >= 2 && rest_ok, seq![None], 1)))))
}

/// The choices' weights added up.
pub open spec fn total_weight(cs: Seq<(Seq<Option<NoteDuration>>, int)>) -> int
    decreases cs.len(),
{
    if cs.len() == 0 { 0 } else { cs[0].1 + total_weight(cs.drop_first()) }
}

/// The choice a draw lands on: the first whose weight the remaining roll
/// falls under.
pub open spec fn pick(cs: Seq<(Seq<Option<NoteDuration>>, int)>, roll: int) -> Seq<Option<NoteDuration>>
    decreases cs.len(),
{
    if cs.len() == 0 {
        Seq::empty()
    } else if roll < cs[0].1 {
        cs[0].0
    } else {
        pick(cs.drop_first(), roll - cs[0].1)
    }
}

/// A rhythm laid out over `n` measures of `upm` units, measure `mi[j]`
/// holding entry `j`: every entry inside its measure, the measures filled
/// exactly, rests never first, never in the last measure, and at most
/// one per measure.
pub open spec fn laid_out(r: Seq<Option<NoteDuration>>, upm: int, n: int, mi: Seq<int>) -> bool {
    &&& mi.len() == r.len()
    &&& forall|j: int| 0 <= j < r.len() ==> 0 <= #[trigger] mi[j] < n
    &&& forall|j: int| 0 <= j < r.len() ==> mi[j] * upm <= #[trigger] units_before(r, j)
            && units_before(r, j) + token_units(r[j]) <= mi[j] * upm + upm
    &&& units_before(r, r.len() as int) == (if n > 0 && upm > 0 { n * upm } else { 0 })
    &&& forall|j: int| 0 <= j < r.len() && #[trigger] r[j] is None ==> j > 0 && mi[j] < n - 1
    &&& forall|j: int, k: int| 0 <= j < k < r.len() && #[trigger] r[j] is None && #[trigger] r[k] is None ==> mi[j] != mi[k]
}

/// Only the values the rhythm level opens: never a dotted quarter; dotted
/// halves from level 1, eighths from level 2, rests from level 3.
pub open spec fn in_vocabulary(level: int, r: Seq<Option<NoteDuration>>) -> bool {
    forall|j: int| 0 <= j < r.len() ==> {
        &&& #[trigger] r[j] != Some(NoteDuration::DottedQuarter)
        &&& level < 1 ==> r[j] != Some(NoteDuration::DottedHalf)
        &&& level < 2 ==> r[j] != Some(NoteDuration::Eighth)
        &&& level < 3 ==> r[j] is Some
    }
}

pub proof fn lemma_choice_front(c: bool, tokens: Seq<Option<NoteDuration>>, weight: int, rest: Seq<(Seq<Option<NoteDuration>>, int)>, roll: int)
    ensures
        total_weight(choice(c, tokens, weight) + rest) == (if c { weight } else { 0 }) + total_weight(rest),
        pick(choice(c, tokens, weight) + rest, roll)
            == (if c && roll < weight { tokens } else if c { pick(rest, roll - weight) } else { pick(rest, roll) }),
{
    if c {
        let s = choice(c, tokens, weight) + rest;
        assert(s[0] == (tokens, weight));
        assert(s.drop_first() =~= rest);
    } else {
        assert(choice(c, tokens, weight) + rest =~= rest);
    }
}

/// Appending an entry leaves the time before every earlier entry as it
/// was.
pub proof fn lemma_units_before_push(r: Seq<Option<NoteDuration>>, t: Option<NoteDuration>, j: int)
    requires
        0 <= j <= r.len(),
    ensures
        units_before(r.push(t), j) == units_before(r, j),
    decreases j,
{
    if j > 0 {
        lemma_units_before_push(r, t, j - 1);
        assert(r.push(t)[j - 1] == r[j - 1]);
    }
}

/// The per-entry part of a layout: each entry inside its measure, rests
/// never first, never in the last measure, at most one per measure.
pub open spec fn placed(r: Seq<Option<NoteDuration>>, upm: int, n: int, mi: Seq<int>) -> bool {
    &&& mi.len() == r.len()
    &&& forall|j: int| 0 <= j < r.len() ==> 0 <= #[trigger] mi[j] < n
    &&& forall|j: int| 0 <= j < r.len() ==> mi[j] * upm <= #[trigger] units_before(r, j)
            && units_before(r, j) + token_units(r[j]) <= mi[j] * upm + upm
    &&& forall|j: int| 0 <= j < r.len() && #[trigger] r[j] is None ==> j > 0 && mi[j] < n - 1
    &&& forall|j: int, k: int| 0 <= j < k < r.len() && #[trigger] r[j] is None && #[trigger] r[k] is None ==> mi[j] != mi[k]
}

/// The choices open are the entries the vocabulary names, each only
/// where it fits.
pub proof fn lemma_pick_is_a_choice(level: int, remaining: int, rest_ok: bool, roll: int)
    requires
        0 <= roll < total_weight(rhythm_choices(level, remaining, rest_ok)),
    ensures
        ({
            let t = pick(rhythm_choices(level, remaining, rest_ok), roll);
            ||| remaining >= 2 && t == seq![Some(NoteDuration::Quarter)]
            ||| remaining >= 4 && t == seq![Some(NoteDuration::Half)]
            ||| remaining >= 8 && t == seq![Some(NoteDuration::Whole)]
            ||| level >= 1 && remaining >= 6 && t == seq![Some(NoteDuration::DottedHalf)]
            ||| level >= 2 && remaining >= 2 && t == seq![Some(NoteDuration::Eighth), Some(NoteDuration::Eighth)]
            ||| level >= 3 && remaining >= 2 && rest_ok && t == seq![None::<NoteDuration>]
        }),
{
    let a = remaining >= 2;
    let b = remaining >= 4;
    let c = remaining >= 8;
    let d = level >= 1 && remaining >= 6;
    let e = level >= 2 && remaining >= 2;
    let f = level >= 3 && remaining >= 2 && rest_ok;
    let q = seq![Some(NoteDuration::Quarter)];
    let h = seq![Some(NoteDuration::Half)];
    let o = seq![Some(NoteDuration::Whole)];
    let dh = seq![Some(NoteDuration::DottedHalf)];
    let ee = seq![Some(NoteDuration::Eighth), Some(NoteDuration::Eighth)];
    let rs = seq![None::<NoteDuration>];
    let c6 = choice(f, rs, 1);
    let c5 = choice(e, ee, 3) + c6;
    let c4 = choice(d, dh, 2) + c5;
    let c3 = choice(c, o, 1) + c4;
    let c2 = choice(b, h, 3) + c3;
    assert(choice(a, q, 6) + c2 == rhythm_choices(level, remaining, rest_ok));
    assert(total_weight(Seq::<(Seq<Option<NoteDuration>>, int)>::empty()) == 0);
    assert(choice(f, rs, 1) + Seq::empty() =~= c6);
    let r0 = roll;
    lemma_choice_front(a, q, 6, c2, r0);
    let r1 = if a { r0 - 6 } else { r0 };
    lemma_choice_front(b, h, 3, c3, r1);
    let r2 = if b { r1 - 3 } else { r1 };
    lemma_choice_front(c, o, 1, c4, r2);
    let r3 = if c { r2 - 1 } else { r2 };
    lemma_choice_front(d, dh, 2, c5, r3);
    let r4 = if d { r3 - 2 } else { r3 };
    lemma_choice_front(e, ee, 3, c6, r4);
    let r5 = if e { r4 - 3 } else { r4 };
    lemma_choice_front(f, rs, 1, Seq::empty(), r5);
}

/// Placing one more entry inside its measure keeps the layout.
pub proof fn lemma_place_entry(r: Seq<Option<NoteDuration>>, upm: int, n: int, mi: Seq<int>, t: Option<NoteDuration>, m: int)
    requires
        placed(r, upm, n, mi),
        0 <= m < n,
        m * upm <= units_before(r, r.len() as int),
        units_before(r, r.len() as int) + token_units(t) <= m * upm + upm,
        t is None ==> r.len() > 0 && m < n - 1 && forall|j: int| 0 <= j < r.len() && #[trigger] r[j] is None ==> mi[j] != m,
    ensures
        placed(r.push(t), upm, n, mi.push(m)),
        units_before(r.push(t), r.len() + 1int) == units_before(r, r.len() as int) + token_units(t),
{
    let r2 = r.push(t);
    let mi2 = mi.push(m);
    lemma_units_before_push(r, t, r.len() as int);
    assert(r2[r.len() as int] == t);
    assert forall|j: int| 0 <= j < r2.len() implies 0 <= #[trigger] mi2[j] < n by {
        if j < r.len() {
            assert(mi2[j] == mi[j]);
        }
    }
    assert forall|j: int| 0 <= j < r2.len() implies mi2[j] * upm <= #[trigger] units_before(r2, j)
        && units_before(r2, j) + token_units(r2[j]) <= mi2[j] * upm + upm by {
        lemma_units_before_push(r, t, j);
        if j < r.len() {
            assert(mi2[j] == mi[j] && r2[j] == r[j]);
            assert(mi[j] * upm <= units_before(r, j));
        }
    }
    assert forall|j: int| 0 <= j < r2.len() && #[trigger] r2[j] is None implies j > 0 && mi2[j] < n - 1 by {
        if j < r.len() {
            assert(mi2[j] == mi[j] && r2[j] == r[j]);
        }
    }
    assert forall|j: int, k: int| 0 <= j < k < r2.len() && #[trigger] r2[j] is None && #[trigger] r2[k] is None
        implies mi2[j] != mi2[k] by {
        assert(r2[j] == r[j] && mi2[j] == mi[j]);
        if k < r.len() {
            assert(r2[k] == r[k] && mi2[k] == mi[k]);
        }
    }
}

/// Appending an entry of the vocabulary keeps the rhythm in it.
pub proof fn lemma_vocabulary_push(level: int, r: Seq<Option<NoteDuration>>, t: Option<NoteDuration>)
    requires
        in_vocabulary(level, r),
        t != Some(NoteDuration::DottedQuarter),
        level < 1 ==> t != Some(NoteDuration::DottedHalf),
        level < 2 ==> t != Some(NoteDuration::Eighth),
        level < 3 ==> t is Some,
    ensures
        in_vocabulary(level, r.push(t)),
{
    assert forall|j: int| 0 <= j < r.push(t).len() implies {
        &&& #[trigger] r.push(t)[j] != Some(NoteDuration::DottedQuarter)
        &&& level < 1 ==> r.push(t)[j] != Some(NoteDuration::DottedHalf)
        &&& level < 2 ==> r.push(t)[j] != Some(NoteDuration::Eighth)
        &&& level < 3 ==> r.push(t)[j] is Some
    } by {
        if j < r.len() {
            assert(r.push(t)[j] == r[j]);
        }
    }
}

/// The time a run of entries takes.
pub open spec fn entry_units(t: Seq<Option<NoteDuration>>) -> int {
    units_before(t, t.len() as int)
}

/// The rhythm a sequence of draws makes, from measure `m` of `n` with
/// `remaining` units of it open: a new measure opens with `upm` units and
/// no rest; the last two beats of the last measure are a half; anything
/// else takes the next roll, which must fall below the total weight of
/// the choices open, and appends the run it picks. Rests are open once a
/// measure, never in the last one and never first. `None` where a roll is
/// missing, out of range or left over.
pub open spec fn drawn(
    level: int,
    n: int,
    upm: int,
    m: int,
    remaining: int,
    rest_used: bool,
    so_far: Seq<Option<NoteDuration>>,
    rolls: Seq<int>,
) -> Option<Seq<Option<NoteDuration>>>
    decreases n - m, remaining,
{
    if m >= n {
        if rolls.len() == 0 { Some(so_far) } else { None }
    } else if remaining <= 0 {
        drawn(level, n, upm, m + 1, upm, false, so_far, rolls)
    } else if m == n - 1 && remaining == 4 {
        drawn(level, n, upm, m, 0, rest_used, so_far.push(Some(NoteDuration::Half)), rolls)
    } else {
        let rest_ok = !rest_used && m != n - 1 && so_far.len() > 0;
        let cs = rhythm_choices(level, remaining, rest_ok);
        if rolls.len() == 0 || rolls[0] < 0 || rolls[0] >= total_weight(cs) {
            None
        } else {
            let t = pick(cs, rolls[0]);
            let u = entry_units(t);
            if 0 < u && u <= remaining {
                drawn(level, n, upm, m, remaining - u, rest_used || t == seq![None::<NoteDuration>], so_far + t, rolls.drop_first())
            } else {
                None
            }
        }
    }
}

/// One draw: the roll in front picks a run of one entry, or two eighths,
/// that fits what is left of the measure, and the rest of the rolls go on
/// from there.
proof fn lemma_drawn_draw(
    level: int,
    n: int,
    upm: int,
    m: int,
    remaining: int,
    rest_used: bool,
    so_far: Seq<Option<NoteDuration>>,
    roll: int,
    future: Seq<int>,
)
    requires
        0 <= m < n,
        remaining >= 2,
        !(m == n - 1 && remaining == 4),
        0 <= roll < total_weight(rhythm_choices(level, remaining, !rest_used && m != n - 1 && so_far.len() > 0)),
    ensures
        ({
            let t = pick(rhythm_choices(level, remaining, !rest_used && m != n - 1 && so_far.len() > 0), roll);
            &&& t.len() == 1 || t.len() == 2
            &&& t.len() == 2 ==> t[0] == Some(NoteDuration::Eighth) && t[1] == Some(NoteDuration::Eighth)
            &&& entry_units(t) == (if t.len() == 1 { token_units(t[0]) } else { 2 })
            &&& drawn(level, n, upm, m, remaining, rest_used, so_far, seq![roll] + future)
                == drawn(level, n, upm, m, remaining - entry_units(t), rest_used || t == seq![None::<NoteDuration>], so_far + t, future)
        }),
{
    let rest_ok = !rest_used && m != n - 1 && so_far.len() > 0;
    let t = pick(rhythm_choices(level, remaining, rest_ok), roll);
    lemma_pick_is_a_choice(level, remaining, rest_ok, roll);
    assert(units_before(t, 0) == 0);
    assert(units_before(t, 1) == token_units(t[0]));
    if t.len() == 2 {
        assert(units_before(t, 2) == units_before(t, 1) + token_units(t[1]));
    }
    let rolls = seq![roll] + future;
    assert(rolls[0] == roll);
    assert(rolls.drop_first() =~= future);
}

impl ExerciseGenerator {
    /// The total weight of the rhythm choices open with `remaining` units
    /// left.
    pub fn rhythm_weight(&self, remaining: i32, rest_ok: bool) -> (w: usize)
        ensures
            w as int == total_weight(rhythm_choices(self.config.rhythm_level as int, remaining as int, rest_ok)),
            remaining >= 2 ==> w > 0,
            w <= 16,
    {
        let level = self.config.rhythm_level;
        let a = remaining >= 2;
        let b = remaining >= 4;
        let c = remaining >= 8;
        let d = level >= 1 && remaining >= 6;
        let e = level >= 2 && remaining >= 2;
        let f = level >= 3 && remaining >= 2 && rest_ok;
        let mut w: usize = 0;
        if a { w = w + 6; }
        if b { w = w + 3; }
        if c { w = w + 1; }
        if d { w = w + 2; }
        if e { w = w + 3; }
        if f { w = w + 1; }
        proof {
            let q = seq![Some(NoteDuration::Quarter)];
            let h = seq![Some(NoteDuration::Half)];
            let o = seq![Some(NoteDuration::Whole)];
            let dh = seq![Some(NoteDuration::DottedHalf)];
            let ee = seq![Some(NoteDuration::Eighth), Some(NoteDuration::Eighth)];
            let rs = seq![None::<NoteDuration>];
            let c6 = choice(f, rs, 1);
            let c5 = choice(e, ee, 3) + c6;
            let c4 = choice(d, dh, 2) + c5;
            let c3 = choice(c, o, 1) + c4;
            let c2 = choice(b, h, 3) + c3;
            assert(total_weight(Seq::<(Seq<Option<NoteDuration>>, int)>::empty()) == 0);
            lemma_choice_front(f, rs, 1, Seq::empty(), 0);
            assert(choice(f, rs, 1) + Seq::empty() =~= c6);
            lemma_choice_front(e, ee, 3, c6, 0);
            lemma_choice_front(d, dh, 2, c5, 0);
            lemma_choice_front(c, o, 1, c4, 0);
            lemma_choice_front(b, h, 3, c3, 0);
            lemma_choice_front(a, q, 6, c2, 0);
        }
        w
    }

    /// The entries a draw `roll` below the choices' total weight picks.
    pub fn rhythm_tokens(&self, remaining: i32, rest_ok: bool, roll: usize) -> (tokens: Vec<Option<NoteDuration>>)
        requires
            roll < total_weight(rhythm_choices(self.config.rhythm_level as int, remaining as int, rest_ok)),
        ensures
            tokens@ == pick(rhythm_choices(self.config.rhythm_level as int, remaining as int, rest_ok), roll as int),
    {
        let level = self.config.rhythm_level;
        let a = remaining >= 2;
        let b = remaining >= 4;
        let c = remaining >= 8;
        let d = level >= 1 && remaining >= 6;
        let e = level >= 2 && remaining >= 2;
        let f = level >= 3 && remaining >= 2 && rest_ok;
        let ghost q = seq![Some(NoteDuration::Quarter)];
        let ghost h = seq![Some(NoteDuration::Half)];
        let ghost o = seq![Some(NoteDuration::Whole)];
        let ghost dh = seq![Some(NoteDuration::DottedHalf)];
        let ghost ee = seq![Some(NoteDuration::Eighth), Some(NoteDuration::Eighth)];
        let ghost rs = seq![None::<NoteDuration>];
        let ghost c6 = choice(f, rs, 1);
        let ghost c5 = choice(e, ee, 3) + c6;
        let ghost c4 = choice(d, dh, 2) + c5;
        let ghost c3 = choice(c, o, 1) + c4;
        let ghost c2 = choice(b, h, 3) + c3;
        let ghost all = choice(a, q, 6) + c2;
        proof {
            assert(all == rhythm_choices(level as int, remaining as int, rest_ok));
            assert(total_weight(Seq::<(Seq<Option<NoteDuration>>, int)>::empty()) == 0);
            assert(choice(f, rs, 1) + Seq::empty() =~= c6);
            lemma_choice_front(f, rs, 1, Seq::empty(), 0);
            lemma_choice_front(e, ee, 3, c6, 0);
            lemma_choice_front(d, dh, 2, c5, 0);
            lemma_choice_front(c, o, 1, c4, 0);
            lemma_choice_front(b, h, 3, c3, 0);
            lemma_choice_front(a, q, 6, c2, 0);
        }
        let mut r: usize = roll;
        proof {
            lemma_choice_front(a, q, 6, c2, r as int);
        }
        if a {
            if r < 6 {
                let v = vec![Some(NoteDuration::Quarter)];
                assert(v@ =~= q);
                return v;
            }
            r = r - 6;
        }
        proof {
            lemma_choice_front(b, h, 3, c3, r as int);
        }
        if b {
            if r < 3 {
                let v = vec![Some(NoteDuration::Half)];
                assert(v@ =~= h);
                return v;
            }
            r = r - 3;
        }
        proof {
            lemma_choice_front(c, o, 1, c4, r as int);
        }
        if c {
            if r < 1 {
                let v = vec![Some(NoteDuration::Whole)];
                assert(v@ =~= o);
                return v;
            }
            r = r - 1;
        }
        proof {
            lemma_choice_front(d, dh, 2, c5, r as int);
        }
        if d {
            if r < 2 {
                let v = vec![Some(NoteDuration::DottedHalf)];
                assert(v@ =~= dh);
                return v;
            }
            r = r - 2;
        }
        proof {
            lemma_choice_front(e, ee, 3, c6, r as int);
        }
        if e {
            if r < 3 {
                let v = vec![Some(NoteDuration::Eighth), Some(NoteDuration::Eighth)];
                assert(v@ =~= ee);
                return v;
            }
            r = r - 3;
        }
        proof {
            lemma_choice_front(f, rs, 1, Seq::empty(), r as int);
            assert(choice(f, rs, 1) + Seq::empty() =~= c6);
        }
        let v = vec![None];
        assert(v@ =~= rs);
        v
    }

    /// One entry per score event, measure by measure: a note value, or
    /// `None` for a quarter rest. The final measure closes its last two
    /// beats with a half; every other entry is drawn from `rng` among the
    /// choices the rhythm level opens. Whatever is drawn, the measures are
    /// filled exactly, rests never open the exercise, never fall in the
    /// last measure and come at most one per measure; and the rhythm is
    /// the one its draws make.
    pub fn make_rhythm(&self, rng: &mut impl Rng64) -> (rhythm: Vec<Option<NoteDuration>>)
        requires
            -0x4000_0000 < self.config.beats_per_measure < 0x4000_0000,
        ensures
            exists|rolls: Seq<int>| #[trigger] drawn(
                self.config.rhythm_level as int,
                self.config.measures as int,
                self.config.beats_per_measure * 2,
                0,
                self.config.beats_per_measure * 2,
                false,
                Seq::empty(),
                rolls,
            ) == Some(rhythm@),
            exists|mi: Seq<int>| #[trigger] laid_out(rhythm@, self.config.beats_per_measure * 2, self.config.measures as int, mi),
            in_vocabulary(self.config.rhythm_level as int, rhythm@),
    {
        let units_per_measure = self.config.beats_per_measure * 2;
        let n = self.config.measures;
        let ghost upm = units_per_measure as int;
        let ghost level = self.config.rhythm_level as int;
        let mut rhythm: Vec<Option<NoteDuration>> = Vec::new();
        let ghost mut mi: Seq<int> = Seq::empty();
        let ghost mut used: Seq<int> = Seq::empty();
        let ghost nn = n as int;
        let mut measure: i32 = 0;
        proof {
            assert forall|future: Seq<int>| #[trigger] drawn(level, nn, upm, 0, upm, false, rhythm@, future)
                == drawn(level, nn, upm, 0, upm, false, Seq::empty(), used + future) by {
                assert(used + future =~= future);
                assert(rhythm@ =~= Seq::<Option<NoteDuration>>::empty());
            }
        }
        while measure < n
            invariant
                upm == self.config.beats_per_measure * 2,
                units_per_measure == upm,
                n == self.config.measures,
                level == self.config.rhythm_level,
                -0x8000_0000 < upm < 0x8000_0000,
                0 <= measure,
                n > 0 ==> measure <= n,
                n <= 0 ==> measure == 0,
                placed(rhythm@, upm, n as int, mi),
                forall|j: int| 0 <= j < rhythm@.len() ==> #[trigger] mi[j] < measure,
                units_before(rhythm@, rhythm@.len() as int) == (if upm > 0 { measure * upm } else { 0 }),
                upm <= 0 ==> rhythm@.len() == 0,
                in_vocabulary(level, rhythm@),
                nn == n,
                forall|future: Seq<int>| #[trigger] drawn(level, nn, upm, measure as int, upm, false, rhythm@, future)
                    == drawn(level, nn, upm, 0, upm, false, Seq::empty(), used + future),
            decreases n - measure,
        {
            let is_last = measure == n - 1;
            let mut remaining = units_per_measure;
            let mut rest_used = false;
            let ghost start = rhythm@.len();
            while remaining > 0
                invariant
                    upm == self.config.beats_per_measure * 2,
                    units_per_measure == upm,
                    n == self.config.measures,
                    level == self.config.rhythm_level,
                    -0x8000_0000 < upm < 0x8000_0000,
                    0 <= measure < n,
                    is_last == (measure == n - 1),
                    placed(rhythm@, upm, n as int, mi),
                    start <= rhythm@.len(),
                    forall|j: int| 0 <= j < start ==> #[trigger] mi[j] < measure,
                    forall|j: int| start <= j < rhythm@.len() ==> #[trigger] mi[j] == measure,
                    !rest_used ==> forall|j: int| start <= j < rhythm@.len() ==> (#[trigger] rhythm@[j]) is Some,
                    remaining <= upm,
                    remaining > 0 ==> upm > 0,
                    upm > 0 ==> 0 <= remaining && remaining % 2 == 0
                        && units_before(rhythm@, rhythm@.len() as int) == measure * upm + upm - remaining,
                    upm <= 0 ==> rhythm@.len() == 0 && remaining == upm,
                    in_vocabulary(level, rhythm@),
                    nn == n,
                    forall|future: Seq<int>| #[trigger] drawn(level, nn, upm, measure as int, remaining as int, rest_used, rhythm@, future)
                        == drawn(level, nn, upm, 0, upm, false, Seq::empty(), used + future),
                decreases remaining,
            {
                if is_last && remaining == 4 {
                    proof {
                        lemma_place_entry(rhythm@, upm, n as int, mi, Some(NoteDuration::Half), measure as int);
                        lemma_vocabulary_push(level, rhythm@, Some(NoteDuration::Half));
                        mi = mi.push(measure as int);
                    }
                    let ghost before = rhythm@;
                    rhythm.push(Some(NoteDuration::Half));
                    remaining = 0;
                    proof {
                        assert forall|future: Seq<int>| #[trigger] drawn(level, nn, upm, measure as int, remaining as int, rest_used, rhythm@, future)
                            == drawn(level, nn, upm, 0, upm, false, Seq::empty(), used + future) by {
                            assert(drawn(level, nn, upm, measure as int, 4, rest_used, before, future)
                                == drawn(level, nn, upm, measure as int, 0, rest_used, rhythm@, future));
                        }
                    }
                } else {
                    let rest_ok = !rest_used && !is_last && rhythm.len() > 0;
                    let total = self.rhythm_weight(remaining, rest_ok);
                    let roll = rng.next_below(total);
                    let tokens = self.rhythm_tokens(remaining, rest_ok, roll);
                    let ghost before = rhythm@;
                    let ghost rem0 = remaining as int;
                    let ghost used0 = rest_used;
                    let ghost t = tokens@;
                    proof {
                        lemma_pick_is_a_choice(level, remaining as int, rest_ok, roll as int);
                        assert forall|future: Seq<int>| #[trigger] drawn(level, nn, upm, measure as int, rem0, used0, before, seq![roll as int] + future)
                            == drawn(level, nn, upm, measure as int, rem0 - entry_units(t), used0 || t == seq![None::<NoteDuration>], before + t, future) by {
                            lemma_drawn_draw(level, nn, upm, measure as int, rem0, used0, before, roll as int, future);
                        }
                        lemma_drawn_draw(level, nn, upm, measure as int, rem0, used0, before, roll as int, Seq::empty());
                    }
                    if tokens.len() == 1 && tokens[0].is_none() {
                        proof {
                            lemma_place_entry(rhythm@, upm, n as int, mi, None, measure as int);
                            lemma_vocabulary_push(level, rhythm@, None);
                            mi = mi.push(measure as int);
                        }
                        rest_used = true;
                        rhythm.push(None);
                        remaining = remaining - 2;
                    } else {
                        let first = tokens[0];
                        let units = match first {
                            Some(d) => d.units(),
                            None => 2,
                        };
                        proof {
                            lemma_place_entry(rhythm@, upm, n as int, mi, first, measure as int);
                            lemma_vocabulary_push(level, rhythm@, first);
                            mi = mi.push(measure as int);
                        }
                        rhythm.push(first);
                        remaining = remaining - units;
                        if tokens.len() == 2 {
                            let second = tokens[1];
                            proof {
                                lemma_place_entry(rhythm@, upm, n as int, mi, second, measure as int);
                                lemma_vocabulary_push(level, rhythm@, second);
                                mi = mi.push(measure as int);
                            }
                            rhythm.push(second);
                            remaining = remaining - 1;
                        }
                    }
                    proof {
                        assert(rhythm@ =~= before + t);
                        assert(t == seq![None::<NoteDuration>] <==> (t.len() == 1 && t[0] is None));
                        assert(remaining as int == rem0 - entry_units(t));
                        assert(rest_used == (used0 || t == seq![None::<NoteDuration>]));
                        let used1 = used.push(roll as int);
                        assert forall|future: Seq<int>| #[trigger] drawn(level, nn, upm, measure as int, remaining as int, rest_used, rhythm@, future)
                            == drawn(level, nn, upm, 0, upm, false, Seq::empty(), used1 + future) by {
                            assert(used1 + future =~= used + (seq![roll as int] + future));
                            assert(drawn(level, nn, upm, measure as int, rem0, used0, before, seq![roll as int] + future)
                                == drawn(level, nn, upm, 0, upm, false, Seq::empty(), used + (seq![roll as int] + future)));
                        }
                        used = used1;
                    }
                }
            }
            proof {
                if upm > 0 {
                    assert(remaining == 0);
                    assert((measure + 1) * upm == measure * upm + upm) by (nonlinear_arith);
                }
                assert forall|future: Seq<int>| #[trigger] drawn(level, nn, upm, measure + 1, upm, false, rhythm@, future)
                    == drawn(level, nn, upm, 0, upm, false, Seq::empty(), used + future) by {
                    assert(drawn(level, nn, upm, measure as int, remaining as int, rest_used, rhythm@, future)
                        == drawn(level, nn, upm, measure + 1, upm, false, rhythm@, future));
                }
            }
            measure = measure + 1;
        }
        proof {
            if n > 0 && upm > 0 {
                assert(measure == n);
            }
            assert(laid_out(rhythm@, upm, n as int, mi));
            assert(drawn(level, nn, upm, measure as int, upm, false, rhythm@, Seq::empty()) == Some(rhythm@));
            assert(used + Seq::<int>::empty() =~= used);
            assert(drawn(level, nn, upm, 0, upm, false, Seq::empty(), used) == Some(rhythm@));
        }
        rhythm
    }
}

} // verus!
