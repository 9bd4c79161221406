//! The skill ladder's progression: the user never picks a level — when
//! every active item is mastered, the next item in the staff's unlock
//! order joins the active set. One ladder per staff: the treble ladder
//! drives right-hand content, the bass ladder left-hand content; both read
//! one stats table, kept apart by staff-prefixed item names.

use vstd::prelude::*;
use std::collections::HashSet;
use crate::pitch::{diatonic_index_spec, pitch_name, push_name, PitchSpelling};
use crate::score::free_play::{ascending, lemma_ascending_len, sorted_pitches};
use crate::score::model::Staff;
use crate::text::{push_str, str_eq, to_string};

verus! {

broadcast use vstd::std_specs::hash::group_hash_axioms;

/// Treble-staff unlock order: seed range C4–G4, then outward expansion
/// alternating up/down (ledger-heavy extremes last), then sharps.
pub const UNLOCK_ORDER: [u8; 20] = [
    60, 62, 64, 65, 67,
    69, 59, 71, 57, 72, 55, 74, 76, 77, 79,
    66, 61, 68, 63, 70,
];

/// Bass-staff mirror: seed C3–G3 (the left hand's C position), then
/// outward expansion alternating down/up, then sharps at the drilled
/// register.
pub const BASS_UNLOCK_ORDER: [u8; 20] = [
    48, 50, 52, 53, 55,
    47, 57, 45, 59, 43, 60, 41, 40, 38, 36,
    54, 49, 56, 51, 58,
];

/// Items active from the start.
pub const SEED_COUNT: usize = 5;

/// Signed diatonic moves, octave down to octave up.
pub const INTERVAL_DELTAS: [i32; 15] = [-7, -6, -5, -4, -3, -2, -1, 0, 1, 2, 3, 4, 5, 6, 7];

/// Item mastery needs this many attempts.
pub struct Thresholds;

impl Thresholds {
    pub const MIN_ATTEMPTS: i64 = 4;
}

/// Move sizes beyond the base ±4th, in unlock order: 5ths, 6ths, octaves
/// (visually easy — same letter), 7ths last (rarest read).
pub const INTERVAL_SIZE_LADDER: [i32; 4] = [4, 5, 7, 6];

/// Move sizes always active: unison through 4th.
pub const BASE_INTERVAL_SIZES: [i32; 4] = [0, 1, 2, 3];

/// Interval probes must have landed this often in each direction.
pub struct IntervalThresholds;

impl IntervalThresholds {
    pub const MIN_ATTEMPTS_PER_DIRECTION: i64 = 2;
}

/// Pairs need this many attempts before they may correct the shape-level
/// prior (sparse data stays reporting-only).
pub const TRANSITION_BIAS_ATTEMPTS_FLOOR: i64 = 6;

/// Shape-classes in unlock order: open 5ths (the hand frame), 3rds, 6ths,
/// octaves, then triads.
pub const CHORD_SHAPE_LADDER: [&'static str; 5] = [
    "chord:harm-5th",
    "chord:harm-3rd",
    "chord:harm-6th",
    "chord:harm-octave",
    "chord:triad",
];

/// Chord-shape mastery needs this many attempts.
pub struct ChordThresholds;

impl ChordThresholds {
    pub const MIN_ATTEMPTS: i64 = 4;
}

pub open spec fn interval_ladder() -> Seq<i32> {
    seq![4i32, 5, 7, 6]
}

/// The move sizes in use with `n` ladder steps unlocked: unison through
/// 4th, then 5ths, 6ths, octaves and 7ths in ladder order.
pub open spec fn unlocked_sizes(n: int) -> Set<i32> {
    let base = set![0i32, 1, 2, 3];
    let with_5th = if n >= 1 { base.insert(4) } else { base };
    let with_6th = if n >= 2 { with_5th.insert(5) } else { with_5th };
    let with_octave = if n >= 3 { with_6th.insert(7) } else { with_6th };
    if n >= 4 { with_octave.insert(6) } else { with_octave }
}

pub open spec fn chord_ladder() -> Seq<Seq<char>> {
    seq!["chord:harm-5th"@, "chord:harm-3rd"@, "chord:harm-6th"@, "chord:harm-octave"@, "chord:triad"@]
}

/// "unison", "2nd", … "octave" (sizes clamped to 0..=7).
pub open spec fn size_display(size: int) -> Seq<char> {
    if size <= 0 { "unison"@ } else { size_word(size) }
}

/// The shape class of a struck set, by diatonic spans from its bottom
/// note: a triad, a harmonic 3rd, 5th, 6th or octave; `None` otherwise.
pub open spec fn shape_of_spans(spans: Seq<int>) -> Option<Seq<char>> {
    if spans =~= seq![2int, 4] {
        Some("chord:triad"@)
    } else if spans.len() != 1 {
        None
    } else if spans[0] == 2 {
        Some("chord:harm-3rd"@)
    } else if spans[0] == 4 {
        Some("chord:harm-5th"@)
    } else if spans[0] == 5 {
        Some("chord:harm-6th"@)
    } else if spans[0] == 7 {
        Some("chord:harm-octave"@)
    } else {
        None
    }
}

/// The diatonic spans of a chord's upper notes above its bottom note, the
/// notes taken low to high.
pub open spec fn chord_spans(pitches: Seq<u8>) -> Seq<int> {
    let s = ascending(pitches);
    Seq::new((s.len() - 1) as nat, |i: int| diatonic_index_spec(s[i + 1] as int) - diatonic_index_spec(s[0] as int))
}

/// The shape item of a struck set (`None` for a single note or a shape the
/// ladder doesn't track).
pub open spec fn chord_shape_spec(pitches: Seq<u8>) -> Option<Seq<char>> {
    if pitches.len() <= 1 { None } else { shape_of_spans(chord_spans(pitches)) }
}

/// The readable name of a shape item; other names read as themselves.
pub open spec fn shape_display(name: Seq<char>) -> Seq<char> {
    if name == "chord:harm-5th"@ { "harmonic 5ths"@ }
    else if name == "chord:harm-3rd"@ { "harmonic 3rds"@ }
    else if name == "chord:harm-6th"@ { "harmonic 6ths"@ }
    else if name == "chord:harm-octave"@ { "octaves"@ }
    else if name == "chord:triad"@ { "triads"@ }
    else { name }
}

pub open spec fn treble_order() -> Seq<u8> {
    seq![60u8, 62, 64, 65, 67, 69, 59, 71, 57, 72, 55, 74, 76, 77, 79, 66, 61, 68, 63, 70]
}

pub open spec fn bass_order() -> Seq<u8> {
    seq![48u8, 50, 52, 53, 55, 47, 57, 45, 59, 43, 60, 41, 40, 38, 36, 54, 49, 56, 51, 58]
}

/// A staff's unlock order.
pub open spec fn order_of(staff: Staff) -> Seq<u8> {
    match staff {
        Staff::Treble => treble_order(),
        Staff::Bass => bass_order(),
    }
}

/// `count` held to the ladder: at least the seed, at most the whole order.
pub open spec fn clamp_count(count: int) -> int {
    if count < 5 { 5 } else if count > 20 { 20 } else { count }
}

/// The staff prefix of item names.
pub open spec fn staff_prefix(staff: Staff) -> Seq<char> {
    match staff {
        Staff::Treble => "treble"@,
        Staff::Bass => "bass"@,
    }
}

/// "treble:C4", "bass:C3", …
pub open spec fn item_name_spec(midi: int, staff: Staff) -> Seq<char> {
    staff_prefix(staff) + ":"@ + pitch_name(midi)
}

/// The size word of a diatonic move (7 and beyond read as an octave).
pub open spec fn size_word(size: int) -> Seq<char> {
    if size == 1 { "2nd"@ }
    else if size == 2 { "3rd"@ }
    else if size == 3 { "4th"@ }
    else if size == 4 { "5th"@ }
    else if size == 5 { "6th"@ }
    else if size == 6 { "7th"@ }
    else { "octave"@ }
}

/// "interval:unison", "interval:2nd-up", "interval:octave-down", …
pub open spec fn interval_name_spec(delta: int) -> Seq<char> {
    if delta == 0 {
        "interval:unison"@
    } else {
        let size = if delta < 0 { -delta } else { delta };
        "interval:"@ + size_word(size) + "-"@ + (if delta > 0 { "up"@ } else { "down"@ })
    }
}

/// The key signatures open to a set of active pitches: C always, G with
/// the staff's F♯, D with its C♯ too.
pub open spec fn available_keys_spec(active: Seq<u8>, staff: Staff) -> Seq<i32> {
    let f_sharp: u8 = if staff == Staff::Bass { 54 } else { 66 };
    let c_sharp: u8 = if staff == Staff::Bass { 49 } else { 61 };
    let has_f = active.contains(f_sharp);
    let has_c = active.contains(c_sharp);
    seq![0i32] + (if has_f { seq![1i32] } else { Seq::empty() }) + (if has_f && has_c { seq![2i32] } else { Seq::empty() })
}

/// The active pitches in a key, or all of them when fewer than three are.
pub open spec fn in_key_spec(active: Seq<u8>, fifths: int) -> Seq<u8> {
    let options = active.filter(|m: u8| diatonic_classes(fifths).contains((m % 12) as i32));
    if options.len() >= 3 { options } else { active }
}

/// Diatonic pitch classes of C, G and D major (0, 1, 2 or more sharps).
pub open spec fn diatonic_classes(fifths: int) -> Set<i32> {
    let c_major = set![0i32, 2, 4, 5, 7, 9, 11];
    let g_major = if fifths >= 1 { c_major.remove(5).insert(6) } else { c_major };
    if fifths >= 2 { g_major.remove(0).insert(1) } else { g_major }
}

/// The unlock position of one staff's ladder. The mastery judgement comes
/// from the stats; the ladder holds which items are active.
#[derive(Debug, Clone, Copy, PartialEq, Eq)]
pub struct SkillModel {
    staff: Staff,
    unlocked_count: usize,
    interval_unlocked_count: usize,
    chord_unlocked_count: usize,
}

impl View for SkillModel {
    /// The staff, and how far its pitch, interval and chord-shape ladders
    /// have unlocked.
    type V = (Staff, int, int, int);

    closed spec fn view(&self) -> (Staff, int, int, int) {
        (self.staff, self.unlocked_count as int, self.interval_unlocked_count as int, self.chord_unlocked_count as int)
    }
}

impl Default for SkillModel {
    /// The treble ladder at its seed.
    fn default() -> (m: SkillModel)
        ensures
            m.wf(),
            m@ == (Staff::Treble, 5int, 0int, 0int),
    {
        Self::new(SEED_COUNT)
    }
}

impl SkillModel {
    /// The ladder's invariant: the active items are a prefix of the order,
    /// from the seed to the whole order.
    pub closed spec fn wf(self) -> bool {
        &&& 5 <= self.unlocked_count <= 20
        &&& self.interval_unlocked_count <= 4
        &&& self.chord_unlocked_count <= 5
    }

    /// A treble-staff ladder with `unlocked_count` items active (clamped to
    /// the ladder).
    pub fn new(unlocked_count: usize) -> (m: SkillModel)
        ensures
            m.wf(),
            m@ == (Staff::Treble, clamp_count(unlocked_count as int), 0int, 0int),
    {
        Self::with_staff(Staff::Treble, unlocked_count)
    }

    /// A ladder for `staff` with `unlocked_count` items active (clamped to
    /// the ladder).
    pub fn with_staff(staff: Staff, unlocked_count: usize) -> (m: SkillModel)
        ensures
            m.wf(),
            m@ == (staff, clamp_count(unlocked_count as int), 0int, 0int),
    {
        let count = if unlocked_count < SEED_COUNT { SEED_COUNT } else if unlocked_count > 20 { 20 } else { unlocked_count };
        SkillModel { staff, unlocked_count: count, interval_unlocked_count: 0, chord_unlocked_count: 0 }
    }

    /// A staff's unlock order.
    pub fn unlock_order(staff: Staff) -> (o: &'static [u8; 20])
        ensures
            o@ == order_of(staff),
    {
        match staff {
            Staff::Bass => {
                let o = &BASS_UNLOCK_ORDER;
                assert(o@ =~= bass_order());
                o
            },
            Staff::Treble => {
                let o = &UNLOCK_ORDER;
                assert(o@ =~= treble_order());
                o
            },
        }
    }

    pub fn staff(&self) -> (s: Staff)
        ensures
            s == self@.0,
    {
        self.staff
    }

    /// This staff's unlock order.
    pub fn order(&self) -> (o: &'static [u8; 20])
        ensures
            o@ == order_of(self@.0),
    {
        Self::unlock_order(self.staff)
    }

    pub fn unlocked_count(&self) -> (n: usize)
        ensures
            n as int == self@.1,
    {
        self.unlocked_count
    }

    /// The treble item name of a pitch ("treble:C4").
    pub fn item_name(midi: u8) -> (s: String)
        ensures
            s@ == item_name_spec(midi as int, Staff::Treble),
    {
        Self::item_name_on(midi, Staff::Treble)
    }

    /// Staff-aware item name: each staff's attempts accrue under its own
    /// prefix ("treble:C4" / "bass:C3") — same key, different reading skill.
    pub fn item_name_on(midi: u8, staff: Staff) -> (s: String)
        ensures
            s@ == item_name_spec(midi as int, staff),
    {
        let mut out: Vec<char> = Vec::new();
        match staff {
            Staff::Treble => push_str(&mut out, "treble"),
            Staff::Bass => push_str(&mut out, "bass"),
        }
        push_str(&mut out, ":");
        push_name(&mut out, midi);
        proof {
            assert(out@ =~= item_name_spec(midi as int, staff));
        }
        to_string(&out)
    }

    /// "interval:unison", "interval:2nd-up", "interval:octave-down", …
    pub fn interval_item_name(delta: i32) -> (s: String)
        ensures
            s@ == interval_name_spec(delta as int),
    {
        if delta == 0 {
            return String::from_str("interval:unison");
        }
        let size: i64 = if delta < 0 { -(delta as i64) } else { delta as i64 };
        let mut out: Vec<char> = Vec::new();
        push_str(&mut out, "interval:");
        if size == 1 {
            push_str(&mut out, "2nd");
        } else if size == 2 {
            push_str(&mut out, "3rd");
        } else if size == 3 {
            push_str(&mut out, "4th");
        } else if size == 4 {
            push_str(&mut out, "5th");
        } else if size == 5 {
            push_str(&mut out, "6th");
        } else if size == 6 {
            push_str(&mut out, "7th");
        } else {
            push_str(&mut out, "octave");
        }
        push_str(&mut out, "-");
        if delta > 0 {
            push_str(&mut out, "up");
        } else {
            push_str(&mut out, "down");
        }
        proof {
            assert(out@ =~= interval_name_spec(delta as int));
        }
        to_string(&out)
    }

    /// Diatonic pitch classes for sharp keys up to 2 sharps (C, G, D).
    pub fn diatonic_pitch_classes(fifths: i32) -> (pcs: HashSet<i32>)
        ensures
            pcs@ == diatonic_classes(fifths as int),
    {
        let mut pcs: HashSet<i32> = HashSet::new();
        pcs.insert(0);
        pcs.insert(2);
        pcs.insert(4);
        pcs.insert(5);
        pcs.insert(7);
        pcs.insert(9);
        pcs.insert(11);
        assert(pcs@ =~= set![0i32, 2, 4, 5, 7, 9, 11]);
        if fifths >= 1 {
            pcs.remove(&5);
            pcs.insert(6);
        }
        if fifths >= 2 {
            pcs.remove(&0);
            pcs.insert(1);
        }
        pcs
    }

    /// The next item to unlock, if any is left.
    pub fn next_locked_midi(&self) -> (r: Option<u8>)
        requires
            self.wf(),
        ensures
            r == (if self@.1 < 20 { Some(order_of(self@.0)[self@.1]) } else { None::<u8> }),
    {
        let order = self.order();
        if self.unlocked_count < order.len() {
            Some(order[self.unlocked_count])
        } else {
            None
        }
    }

    /// Unlocks the next item if every active item is mastered; returns it.
    pub fn unlock_if_earned(&mut self, all_active_mastered: bool) -> (r: Option<u8>)
        requires
            old(self).wf(),
        ensures
            final(self).wf(),
            final(self)@.0 == old(self)@.0,
            final(self)@.2 == old(self)@.2,
            final(self)@.3 == old(self)@.3,
            if all_active_mastered && old(self)@.1 < 20 {
                &&& final(self)@.1 == old(self)@.1 + 1
                &&& r == Some(order_of(old(self)@.0)[old(self)@.1])
            } else {
                &&& final(self)@ == old(self)@
                &&& r is None
            },
    {
        let order = self.order();
        if !all_active_mastered || self.unlocked_count >= order.len() {
            return None;
        }
        self.unlocked_count = self.unlocked_count + 1;
        Some(order[self.unlocked_count - 1])
    }

    /// Moves the ladder to `count` active items (clamped to the ladder).
    pub fn set_unlocked_count(&mut self, count: usize)
        requires
            old(self).wf(),
        ensures
            final(self).wf(),
            final(self)@ == (old(self)@.0, clamp_count(count as int), old(self)@.2, old(self)@.3),
    {
        self.unlocked_count = if count < SEED_COUNT { SEED_COUNT } else if count > 20 { 20 } else { count };
    }

    /// Whether the item at `index` of the order is active.
    pub fn is_unlocked(&self, index: usize) -> (b: bool)
        ensures
            b == (index < self@.1),
    {
        index < self.unlocked_count
    }

    /// The active items' pitches, in unlock order (their weakness weights
    /// come from the stats).
    pub fn active_pitch_options(&self) -> (r: Vec<u8>)
        requires
            self.wf(),
        ensures
            r@ == order_of(self@.0).take(self@.1),
    {
        let order = self.order();
        let mut r: Vec<u8> = Vec::new();
        let mut k: usize = 0;
        while k < self.unlocked_count
            invariant
                k <= self.unlocked_count <= 20,
                order@ == order_of(self@.0),
                r@ == order@.take(k as int),
            decreases self.unlocked_count - k,
        {
            r.push(order[k]);
            k = k + 1;
            assert(r@ =~= order@.take(k as int));
        }
        r
    }

    /// The key signatures open to this ladder (in fifths): C always, G once
    /// its F♯ is active, D once its C♯ is too — the sharps at the staff's
    /// drilled register.
    pub fn available_keys(&self) -> (keys: Vec<i32>)
        requires
            self.wf(),
        ensures
            keys@ == available_keys_spec(order_of(self@.0).take(self@.1), self@.0),
    {
        let active = self.active_pitch_options();
        let f_sharp: u8 = match self.staff { Staff::Bass => 54, Staff::Treble => 66 };
        let c_sharp: u8 = match self.staff { Staff::Bass => 49, Staff::Treble => 61 };
        let has_f = contains_pitch(&active, f_sharp);
        let has_c = contains_pitch(&active, c_sharp);
        let mut keys: Vec<i32> = Vec::new();
        keys.push(0);
        if has_f {
            keys.push(1);
        }
        if has_f && has_c {
            keys.push(2);
        }
        assert(keys@ =~= available_keys_spec(order_of(self@.0).take(self@.1), self@.0));
        keys
    }

    /// The active pitches in a key's diatonic set; the whole active set
    /// when fewer than three would remain (a key must leave a workable
    /// range).
    pub fn active_pitch_options_in_key(&self, fifths: i32) -> (r: Vec<u8>)
        requires
            self.wf(),
        ensures
            r@ == in_key_spec(order_of(self@.0).take(self@.1), fifths as int),
    {
        let active = self.active_pitch_options();
        let ghost act = active@;
        let pcs = Self::diatonic_pitch_classes(fifths);
        let mut options: Vec<u8> = Vec::new();
        let mut k: usize = 0;
        while k < active.len()
            invariant
                k <= act.len(),
                active@ == act,
                pcs@ == diatonic_classes(fifths as int),
                options@ == act.take(k as int).filter(|m: u8| diatonic_classes(fifths as int).contains((m % 12) as i32)),
            decreases active.len() - k,
        {
            let m = active[k];
            let pc: i32 = (m % 12) as i32;
            proof {
                assert(act.take(k + 1).drop_last() =~= act.take(k as int));
                reveal(Seq::filter);
            }
            if pcs.contains(&pc) {
                options.push(m);
            }
            k = k + 1;
        }
        assert(act.take(act.len() as int) =~= act);
        if options.len() >= 3 {
            options
        } else {
            active
        }
    }

    // ── Interval ladder ────────────────────────────────────────────────

    pub fn interval_unlocked_count(&self) -> (n: usize)
        ensures
            n as int == self@.2,
    {
        self.interval_unlocked_count
    }

    /// The move sizes in use: the base sizes and the unlocked ladder steps.
    pub fn unlocked_interval_sizes(&self) -> (sizes: HashSet<i32>)
        requires
            self.wf(),
        ensures
            sizes@ == unlocked_sizes(self@.2),
    {
        let mut sizes: HashSet<i32> = HashSet::new();
        sizes.insert(0);
        sizes.insert(1);
        sizes.insert(2);
        sizes.insert(3);
        let n = self.interval_unlocked_count;
        if n >= 1 {
            sizes.insert(4);
        }
        if n >= 2 {
            sizes.insert(5);
        }
        if n >= 3 {
            sizes.insert(7);
        }
        if n >= 4 {
            sizes.insert(6);
        }
        assert(sizes@ =~= unlocked_sizes(self@.2));
        sizes
    }

    /// The next size to probe (sparse injections while still locked).
    pub fn next_locked_interval_size(&self) -> (r: Option<i32>)
        requires
            self.wf(),
        ensures
            r == (if self@.2 < 4 { Some(interval_ladder()[self@.2]) } else { None::<i32> }),
    {
        let ladder = INTERVAL_SIZE_LADDER;
        assert(ladder@ =~= interval_ladder());
        if self.interval_unlocked_count < 4 {
            Some(ladder[self.interval_unlocked_count])
        } else {
            None
        }
    }

    pub fn set_interval_unlocked_count(&mut self, count: usize)
        requires
            old(self).wf(),
        ensures
            final(self).wf(),
            final(self)@ == (old(self)@.0, old(self)@.1, (if count < 4 { count as int } else { 4int }), old(self)@.3),
    {
        self.interval_unlocked_count = if count < 4 { count } else { 4 };
    }

    /// Unlocks the next move size once its probes have landed in both
    /// directions with low error (`ready`); returns it.
    pub fn unlock_interval_if_ready(&mut self, ready: bool) -> (r: Option<i32>)
        requires
            old(self).wf(),
        ensures
            final(self).wf(),
            if ready && old(self)@.2 < 4 {
                &&& final(self)@ == (old(self)@.0, old(self)@.1, old(self)@.2 + 1, old(self)@.3)
                &&& r == Some(interval_ladder()[old(self)@.2])
            } else {
                &&& final(self)@ == old(self)@
                &&& r is None
            },
    {
        let size = match self.next_locked_interval_size() {
            Some(size) => size,
            None => {
                return None;
            },
        };
        if !ready {
            return None;
        }
        self.interval_unlocked_count = self.interval_unlocked_count + 1;
        Some(size)
    }

    /// "5th", "octave", … for unlock messages (sizes clamped to 0..=7).
    pub fn interval_size_display_name(size: i32) -> (s: &'static str)
        ensures
            s@ == size_display(if size > 7 { 7 } else { size as int }),
    {
        if size <= 0 { "unison" }
        else if size == 1 { "2nd" }
        else if size == 2 { "3rd" }
        else if size == 3 { "4th" }
        else if size == 4 { "5th" }
        else if size == 5 { "6th" }
        else if size == 6 { "7th" }
        else { "octave" }
    }

    /// A specific transition item ("move:F#4>B4").
    pub fn transition_item_name(from: u8, to: u8) -> (s: String)
        ensures
            s@ == "move:"@ + pitch_name(from as int) + ">"@ + pitch_name(to as int),
    {
        let mut out: Vec<char> = Vec::new();
        push_str(&mut out, "move:");
        push_name(&mut out, from);
        push_str(&mut out, ">");
        push_name(&mut out, to);
        to_string(&out)
    }

    // ── Chord shapes ───────────────────────────────────────────────────

    pub fn chord_unlocked_count(&self) -> (n: usize)
        ensures
            n as int == self@.3,
    {
        self.chord_unlocked_count
    }

    /// The unlocked shape items, in ladder order.
    pub fn unlocked_chord_shapes(&self) -> (shapes: &'static [&'static str])
        requires
            self.wf(),
        ensures
            shapes@.map_values(|n: &str| n@) == chord_ladder().take(self@.3),
    {
        let ladder: &'static [&'static str; 5] = &CHORD_SHAPE_LADDER;
        let all = vstd::array::array_as_slice(ladder);
        let shapes = vstd::slice::slice_subrange(all, 0, self.chord_unlocked_count);
        assert(shapes@.map_values(|n: &str| n@) =~= chord_ladder().take(self@.3));
        shapes
    }

    /// The next shape to probe.
    pub fn next_locked_chord_shape(&self) -> (r: Option<&'static str>)
        requires
            self.wf(),
        ensures
            match r {
                Some(n) => self@.3 < 5 && n@ == chord_ladder()[self@.3],
                None => self@.3 == 5,
            },
    {
        let ladder: &'static [&'static str; 5] = &CHORD_SHAPE_LADDER;
        if self.chord_unlocked_count < 5 {
            Some(ladder[self.chord_unlocked_count])
        } else {
            None
        }
    }

    pub fn set_chord_unlocked_count(&mut self, count: usize)
        requires
            old(self).wf(),
        ensures
            final(self).wf(),
            final(self)@ == (old(self)@.0, old(self)@.1, old(self)@.2, (if count < 5 { count as int } else { 5int })),
    {
        self.chord_unlocked_count = if count < 5 { count } else { 5 };
    }

    /// Unlocks the next shape once its stats show it mastered (`ready`);
    /// returns it.
    pub fn unlock_chord_if_ready(&mut self, ready: bool) -> (r: Option<&'static str>)
        requires
            old(self).wf(),
        ensures
            final(self).wf(),
            if ready && old(self)@.3 < 5 {
                &&& final(self)@ == (old(self)@.0, old(self)@.1, old(self)@.2, old(self)@.3 + 1)
                &&& r matches Some(n) && n@ == chord_ladder()[old(self)@.3]
            } else {
                &&& final(self)@ == old(self)@
                &&& r is None
            },
    {
        let shape = match self.next_locked_chord_shape() {
            Some(shape) => shape,
            None => {
                return None;
            },
        };
        if !ready {
            return None;
        }
        self.chord_unlocked_count = self.chord_unlocked_count + 1;
        Some(shape)
    }

    /// Classify a struck set into its shape item by diatonic spans from
    /// the bottom note; `None` for shapes the ladder doesn't track.
    pub fn chord_shape_name(pitches: &[u8]) -> (r: Option<&'static str>)
        ensures
            match (r, chord_shape_spec(pitches@)) {
                (Some(n), Some(m)) => n@ == m,
                (None, None) => true,
                _ => false,
            },
    {
        proof {
            reveal_strlit("chord:triad");
            reveal_strlit("chord:harm-3rd");
            reveal_strlit("chord:harm-5th");
            reveal_strlit("chord:harm-6th");
            reveal_strlit("chord:harm-octave");
        }
        if pitches.len() <= 1 {
            return None;
        }
        let mut owned: Vec<u8> = Vec::new();
        let mut k: usize = 0;
        while k < pitches.len()
            invariant
                k <= pitches@.len(),
                owned@ == pitches@.take(k as int),
            decreases pitches.len() - k,
        {
            owned.push(pitches[k]);
            k = k + 1;
            assert(owned@ =~= pitches@.take(k as int));
        }
        assert(pitches@.take(pitches@.len() as int) =~= pitches@);
        let sorted = sorted_pitches(&owned);
        proof {
            lemma_ascending_len(pitches@);
        }
        let bottom = PitchSpelling::diatonic_index(sorted[0]);
        let ghost spans = chord_spans(pitches@);
        if sorted.len() == 3 {
            let a = PitchSpelling::diatonic_index(sorted[1]) - bottom;
            let b = PitchSpelling::diatonic_index(sorted[2]) - bottom;
            if a == 2 && b == 4 {
                assert(spans =~= seq![2int, 4]);
                return Some("chord:triad");
            }
            assert(!(spans =~= seq![2int, 4]));
            return None;
        }
        if sorted.len() != 2 {
            assert(!(spans =~= seq![2int, 4]));
            return None;
        }
        let span = PitchSpelling::diatonic_index(sorted[1]) - bottom;
        assert(spans[0] == span);
        assert(!(spans =~= seq![2int, 4]));
        if span == 2 {
            Some("chord:harm-3rd")
        } else if span == 4 {
            Some("chord:harm-5th")
        } else if span == 5 {
            Some("chord:harm-6th")
        } else if span == 7 {
            Some("chord:harm-octave")
        } else {
            None
        }
    }

    /// The readable name of a shape item ("harmonic 5ths", "triads", …);
    /// another name reads as itself.
    pub fn chord_shape_display_name(name: &str) -> (s: String)
        ensures
            s@ == shape_display(name@),
    {
        if str_eq(name, "chord:harm-5th") {
            String::from_str("harmonic 5ths")
        } else if str_eq(name, "chord:harm-3rd") {
            String::from_str("harmonic 3rds")
        } else if str_eq(name, "chord:harm-6th") {
            String::from_str("harmonic 6ths")
        } else if str_eq(name, "chord:harm-octave") {
            String::from_str("octaves")
        } else if str_eq(name, "chord:triad") {
            String::from_str("triads")
        } else {
            String::from_str(name)
        }
    }
}

/// Whether `p` is among `pitches`.
fn contains_pitch(pitches: &Vec<u8>, p: u8) -> (b: bool)
    ensures
        b == pitches@.contains(p),
{
    let mut k: usize = 0;
    while k < pitches.len()
        invariant
            k <= pitches@.len(),
            forall|t: int| 0 <= t < k ==> pitches@[t] != p,
        decreases pitches.len() - k,
    {
        if pitches[k] == p {
            return true;
        }
        k = k + 1;
    }
    false
}

/// A ladder only ever grows by one item, and it unlocks the items in the
/// staff's order: after `unlock_if_earned` the active items are the old
/// ones plus the one returned.
pub proof fn lemma_unlock_extends_the_active_prefix(before: SkillModel, after: SkillModel, r: Option<u8>)
    requires
        before.wf(),
        after.wf(),
        after@.0 == before@.0,
        r is Some,
        after@.1 == before@.1 + 1,
        r == Some(order_of(before@.0)[before@.1]),
    ensures
        order_of(after@.0).take(after@.1) == order_of(before@.0).take(before@.1).push(r->0),
{
    assert(order_of(after@.0).take(after@.1) =~= order_of(before@.0).take(before@.1).push(r->0));
}

/// Each staff's order names every item once: no pitch unlocks twice.
pub proof fn lemma_orders_are_distinct(staff: Staff)
    ensures
        order_of(staff).no_duplicates(),
        order_of(staff).len() == 20,
{
    assert(treble_order().no_duplicates());
    assert(bass_order().no_duplicates());
}

} // verus!
