//! Text helpers for the Progress sheet's rows and footer: stat texts, the
//! mastery tally, the next-unlock line, and session timestamps.

use vstd::prelude::*;
use crate::pitch::{pitch_name, push_name};
use crate::text::{decimal, int_text, push_int, push_nat, push_str, push_two_digits, str_eq, to_string, two_digits};
use crate::ui::panel::Tint;

verus! {

/// One pitch item's row on the Progress sheet.
#[derive(Debug, Clone, PartialEq, Eq)]
pub struct ProgressEntry {
    pub midi: u8,
    pub name: String,
    pub unlocked: bool,
    pub mastered: bool,
    pub attempts: i64,
    pub error_percent: Option<i64>,
}

/// A trouble transition's error tint turns red from this error rate on.
pub const TROUBLE_RED_THRESHOLD: i64 = 35;

/// A trouble transition's error tint: red from 35 % on, orange below.
pub fn transition_color(error_percent: i64) -> (t: Tint)
    ensures
        t == (if error_percent >= 35 { Tint::Red } else { Tint::Orange }),
{
    if error_percent >= TROUBLE_RED_THRESHOLD {
        Tint::Red
    } else {
        Tint::Orange
    }
}

/// A chord shape's status tint: green when unlocked, else none (dim).
pub fn chord_status_color(status: &str) -> (t: Option<Tint>)
    ensures
        t == (if status@ == "unlocked"@ { Some(Tint::Green) } else { None::<Tint> }),
{
    if str_eq(status, "unlocked") {
        Some(Tint::Green)
    } else {
        None
    }
}

/// "12% err", or a dash without data.
pub open spec fn error_spec(error_percent: Option<i64>) -> Seq<char> {
    match error_percent {
        Some(e) => int_text(e as int) + "% err"@,
        None => "—"@,
    }
}

/// "12% err", or a dash without data.
pub fn error_text(error_percent: Option<i64>) -> (s: String)
    ensures
        s@ == error_spec(error_percent),
{
    match error_percent {
        Some(e) => {
            let mut out: Vec<char> = Vec::new();
            push_int(&mut out, e);
            push_str(&mut out, "% err");
            to_string(&out)
        },
        None => String::from_str("—"),
    }
}

/// The unlocked entries of a list.
pub open spec fn unlocked_in(es: Seq<ProgressEntry>) -> nat
    decreases es.len(),
{
    if es.len() == 0 {
        0
    } else {
        unlocked_in(es.drop_last()) + (if es.last().unlocked { 1nat } else { 0nat })
    }
}

/// The unlocked and mastered entries of a list.
pub open spec fn mastered_in(es: Seq<ProgressEntry>) -> nat
    decreases es.len(),
{
    if es.len() == 0 {
        0
    } else {
        mastered_in(es.drop_last()) + (if es.last().unlocked && es.last().mastered { 1nat } else { 0nat })
    }
}

proof fn lemma_counts_bounded(es: Seq<ProgressEntry>)
    ensures
        mastered_in(es) <= unlocked_in(es) <= es.len(),
    decreases es.len(),
{
    if es.len() > 0 {
        lemma_counts_bounded(es.drop_last());
    }
}

/// Counts the unlocked and the unlocked-and-mastered entries.
fn count_entries(es: &[ProgressEntry]) -> (r: (u64, u64))
    ensures
        r.0 as nat == unlocked_in(es@),
        r.1 as nat == mastered_in(es@),
{
    let mut unlocked: u64 = 0;
    let mut mastered: u64 = 0;
    let mut k: usize = 0;
    while k < es.len()
        invariant
            k <= es@.len(),
            unlocked as nat == unlocked_in(es@.take(k as int)),
            mastered as nat == mastered_in(es@.take(k as int)),
        decreases es.len() - k,
    {
        proof {
            assert(es@.take(k + 1).drop_last() =~= es@.take(k as int));
            lemma_counts_bounded(es@.take(k as int));
        }
        if es[k].unlocked {
            unlocked = unlocked + 1;
            if es[k].mastered {
                mastered = mastered + 1;
            }
        }
        k = k + 1;
    }
    proof {
        assert(es@.take(es@.len() as int) =~= es@);
    }
    (unlocked, mastered)
}

/// The footer's mastery tally over both staves' unlocked items.
pub open spec fn tally_spec(entries: Seq<ProgressEntry>, bass: Seq<ProgressEntry>) -> Seq<char> {
    decimal(mastered_in(entries) + mastered_in(bass)) + " of "@ + decimal(unlocked_in(entries) + unlocked_in(bass))
        + " active items mastered"@
}

/// The footer's mastery tally over both staves' unlocked items.
pub fn mastery_tally(entries: &[ProgressEntry], bass_entries: &[ProgressEntry]) -> (s: String)
    requires
        entries@.len() + bass_entries@.len() <= u64::MAX,
    ensures
        s@ == tally_spec(entries@, bass_entries@),
{
    let (tu, tm) = count_entries(entries);
    let (bu, bm) = count_entries(bass_entries);
    proof {
        lemma_counts_bounded(entries@);
        lemma_counts_bounded(bass_entries@);
    }
    let mut out: Vec<char> = Vec::new();
    push_nat(&mut out, tm + bm);
    push_str(&mut out, " of ");
    push_nat(&mut out, tu + bu);
    push_str(&mut out, " active items mastered");
    to_string(&out)
}

/// The footer's next-unlock line.
pub open spec fn next_unlock_spec(treble_next: Option<u8>, bass_next: Option<u8>) -> Seq<char> {
    match (treble_next, bass_next) {
        (None, None) => "All items unlocked"@,
        (Some(t), None) => "Next unlock: "@ + pitch_name(t as int) + " — master all active items"@,
        (None, Some(b)) => "Next unlock: "@ + pitch_name(b as int) + " (left)"@ + " — master all active items"@,
        (Some(t), Some(b)) => "Next unlock: "@ + pitch_name(t as int) + " · "@ + pitch_name(b as int) + " (left)"@
            + " — master all active items"@,
    }
}

/// The footer's next-unlock line from the treble and bass ladders' next
/// locked pitches (the bass one marked "(left)"), joined " · ".
pub fn next_unlock_text(treble_next: Option<u8>, bass_next: Option<u8>) -> (s: String)
    ensures
        s@ == next_unlock_spec(treble_next, bass_next),
{
    if treble_next.is_none() && bass_next.is_none() {
        return String::from_str("All items unlocked");
    }
    let mut out: Vec<char> = Vec::new();
    push_str(&mut out, "Next unlock: ");
    if let Some(t) = treble_next {
        push_name(&mut out, t);
        if bass_next.is_some() {
            push_str(&mut out, " · ");
        }
    }
    if let Some(b) = bass_next {
        push_name(&mut out, b);
        push_str(&mut out, " (left)");
    }
    push_str(&mut out, " — master all active items");
    proof {
        assert(out@ =~= next_unlock_spec(treble_next, bass_next));
    }
    to_string(&out)
}

// ── Session timestamps ─────────────────────────────────────────────────

/// A leap year of the proleptic Gregorian calendar.
pub open spec fn is_leap(y: int) -> bool {
    y % 4 == 0 && (y % 100 != 0 || y % 400 == 0)
}

/// Days in month `m` (1 = January) of year `y`.
pub open spec fn month_length(y: int, m: int) -> int {
    if m == 2 {
        if is_leap(y) { 29 } else { 28 }
    } else if m == 4 || m == 6 || m == 9 || m == 11 {
        30
    } else {
        31
    }
}

/// A real calendar date.
pub open spec fn valid_date(y: int, m: int, d: int) -> bool {
    1 <= m <= 12 && 1 <= d <= month_length(y, m)
}

/// Days from 1970-01-01 to the date `y-m-d`: the calendar counted in
/// 400-year eras of 146097 days, each year starting on March 1st so that
/// the leap day closes it.
pub open spec fn days_from_civil(y: int, m: int, d: int) -> int {
    let y1 = if m <= 2 { y - 1 } else { y };
    let era = y1 / 400;
    let yoe = y1 - era * 400;
    let mp = if m > 2 { m - 3 } else { m + 9 };
    let doy = (153 * mp + 2) / 5 + d - 1;
    let doe = yoe * 365 + yoe / 4 - yoe / 100 + doy;
    era * 146097 + doe - 719468
}

/// The abbreviated month name.
pub open spec fn month_abbrev(m: int) -> Seq<char> {
    if m == 1 { "Jan"@ }
    else if m == 2 { "Feb"@ }
    else if m == 3 { "Mar"@ }
    else if m == 4 { "Apr"@ }
    else if m == 5 { "May"@ }
    else if m == 6 { "Jun"@ }
    else if m == 7 { "Jul"@ }
    else if m == 8 { "Aug"@ }
    else if m == 9 { "Sep"@ }
    else if m == 10 { "Oct"@ }
    else if m == 11 { "Nov"@ }
    else { "Dec"@ }
}

/// "Nov 14, 2023, 22:13": the date and the time of day `tod` (seconds).
pub open spec fn stamp_text(y: int, m: int, d: int, tod: int) -> Seq<char> {
    month_abbrev(m) + " "@ + decimal(d as nat) + ", "@ + int_text(y) + ", "@ + two_digits((tod / 3600) as nat)
        + ":"@ + two_digits(((tod % 3600) / 60) as nat)
}

/// Days since the start of a March-based year `y` of an era.
pub open spec fn year_start(y: int) -> int {
    365 * y + y / 4 - y / 100
}

/// Days from March 1st to the start of month `mp` (0 = March).
pub open spec fn month_start(mp: int) -> int {
    (153 * mp + 2) / 5
}

/// `a / b` rounded toward negative infinity.
fn floor_div(a: i64, b: i64) -> (q: i64)
    requires
        b > 0,
    ensures
        q as int == a as int / b as int,
{
    if a >= 0 {
        a / b
    } else {
        let c: i64 = -(a + 1);
        let k: i64 = c / b;
        proof {
            let r = c as int % b as int;
            assert(c as int == b as int * k as int + r) by (nonlinear_arith)
                requires
                    c >= 0,
                    b > 0,
                    k as int == c as int / b as int,
                    r == c as int % b as int,
            ;
            assert(a as int / b as int == -k - 1) by (nonlinear_arith)
                requires
                    a as int == -(c as int) - 1,
                    c as int == b as int * k as int + r,
                    0 <= r < b,
                    b > 0,
            {
                assert(a as int == b as int * (-k - 1) + (b - r - 1));
                vstd::arithmetic::div_mod::lemma_fundamental_div_mod_converse(
                    a as int,
                    b as int,
                    -k - 1,
                    b - r - 1,
                );
            }
        }
        -k - 1
    }
}

proof fn lemma_year_start_step(y: int)
    requires
        0 <= y,
    ensures
        year_start(y + 1) - year_start(y) == 365 + (if (y + 1) % 4 == 0 { 1int } else { 0 }) - (if (y + 1) % 100 == 0 { 1int } else { 0 }),
{
    assert((y + 1) / 4 == y / 4 + (if (y + 1) % 4 == 0 { 1int } else { 0 }));
    assert((y + 1) / 100 == y / 100 + (if (y + 1) % 100 == 0 { 1int } else { 0 }));
}

proof fn lemma_year_start_monotone(a: int, b: int)
    requires
        0 <= a <= b,
    ensures
        year_start(a) + 364 * (b - a) <= year_start(b),
        year_start(a) <= 366 * a,
        365 * a <= year_start(a) + a / 100,
    decreases b - a,
{
    if a < b {
        lemma_year_start_step(a);
        lemma_year_start_monotone(a + 1, b);
    }
}

/// The March-based year of an era holding day `doe`: the last whose start
/// is reached (the era's final year keeps the leap day).
fn year_of_era(doe: i64) -> (yoe: i64)
    requires
        0 <= doe < 146097,
    ensures
        0 <= yoe <= 399,
        year_start(yoe as int) <= doe,
        yoe == 399 || doe < year_start(yoe + 1),
{
    let mut yoe: i64 = doe / 365;
    if yoe > 399 {
        yoe = 399;
    }
    proof {
        lemma_year_start_monotone(yoe as int, yoe as int);
        lemma_year_start_monotone(yoe + 1, yoe + 1);
    }
    while 365 * yoe + yoe / 4 - yoe / 100 > doe
        invariant
            0 <= yoe <= 399,
            0 <= doe < 146097,
            yoe == 399 || doe < year_start(yoe + 1),
        decreases yoe,
    {
        proof {
            if yoe == 0 {
                assert(year_start(0) == 0);
            }
        }
        yoe = yoe - 1;
    }
    yoe
}

/// The month (0 = March) holding day `doy` of a March-based year.
fn month_of_year(doy: i64) -> (mp: i64)
    requires
        0 <= doy <= 365,
    ensures
        0 <= mp <= 11,
        month_start(mp as int) <= doy,
        mp == 11 || doy < month_start(mp + 1),
{
    let mut mp: i64 = 0;
    while mp < 11 && (153 * (mp + 1) + 2) / 5 <= doy
        invariant
            0 <= mp <= 11,
            month_start(mp as int) <= doy,
        decreases 11 - mp,
    {
        mp = mp + 1;
    }
    mp
}

/// The length of the March-based year `yoe` of an era.
proof fn lemma_year_length(yoe: int)
    requires
        0 <= yoe <= 399,
    ensures
        yoe < 399 ==> year_start(yoe + 1) - year_start(yoe) == 365 + (if (yoe + 1) % 4 == 0 && (yoe + 1) % 100 != 0 { 1int } else { 0 }),
        year_start(399) + 366 == 146097,
{
    lemma_year_start_step(yoe);
}

/// A March-based date of an era, as a calendar date, counts back to its
/// day.
proof fn lemma_civil_date(era: int, yoe: int, doy: int, mp: int)
    requires
        0 <= yoe <= 399,
        0 <= doy,
        yoe < 399 ==> doy < year_start(yoe + 1) - year_start(yoe),
        yoe == 399 ==> doy <= 365,
        0 <= mp <= 11,
        month_start(mp) <= doy,
        mp == 11 || doy < month_start(mp + 1),
    ensures
        ({
            let m = if mp < 10 { mp + 3 } else { mp - 9 };
            let y = yoe + era * 400 + (if m <= 2 { 1int } else { 0 });
            let d = doy - month_start(mp) + 1;
            &&& valid_date(y, m, d)
            &&& days_from_civil(y, m, d) == era * 146097 + year_start(yoe) + doy - 719468
        }),
{
    let m = if mp < 10 { mp + 3 } else { mp - 9 };
    let y = yoe + era * 400 + (if m <= 2 { 1int } else { 0 });
    let d = doy - month_start(mp) + 1;
    let y1 = if m <= 2 { y - 1 } else { y };
    assert(y1 == era * 400 + yoe);
    assert(y1 / 400 == era) by {
        vstd::arithmetic::div_mod::lemma_fundamental_div_mod_converse(y1, 400, era, yoe);
    }
    lemma_year_length(yoe);
    if mp == 11 {
        let next = yoe + 1;
        assert(y == era * 400 + next);
        assert(y % 4 == next % 4) by {
            vstd::arithmetic::div_mod::lemma_mod_add_multiples_vanish(next, 4);
            assert(y == next + (era * 100) * 4);
            vstd::arithmetic::div_mod::lemma_mod_multiples_vanish(era * 100, next, 4);
        }
        assert(y % 100 == next % 100) by {
            assert(y == next + (era * 4) * 100);
            vstd::arithmetic::div_mod::lemma_mod_multiples_vanish(era * 4, next, 100);
        }
        assert(y % 400 == next % 400) by {
            vstd::arithmetic::div_mod::lemma_mod_multiples_vanish(era, next, 400);
        }
    }
}

/// The March-based decomposition of a real date: its era, year of era,
/// month from March and day of year, which count back to its day number;
/// the day of year falls inside the year and the month.
proof fn lemma_decompose(y: int, m: int, d: int)
    requires
        valid_date(y, m, d),
    ensures
        ({
            let y1 = if m <= 2 { y - 1 } else { y };
            let era = y1 / 400;
            let yoe = y1 % 400;
            let mp = if m > 2 { m - 3 } else { m + 9 };
            let doy = month_start(mp) + d - 1;
            &&& 0 <= yoe <= 399
            &&& 0 <= mp <= 11
            &&& month_start(mp) <= doy
            &&& mp < 11 ==> doy < month_start(mp + 1)
            &&& yoe < 399 ==> doy < year_start(yoe + 1) - year_start(yoe)
            &&& yoe == 399 ==> doy <= 365
            &&& days_from_civil(y, m, d) + 719468 == era * 146097 + year_start(yoe) + doy
            &&& y == yoe + era * 400 + (if m <= 2 { 1int } else { 0 })
            &&& m == (if mp < 10 { mp + 3 } else { mp - 9 })
            &&& d == doy - month_start(mp) + 1
        }),
{
    let y1 = if m <= 2 { y - 1 } else { y };
    let era = y1 / 400;
    let yoe = y1 % 400;
    let mp = if m > 2 { m - 3 } else { m + 9 };
    vstd::arithmetic::div_mod::lemma_fundamental_div_mod(y1, 400);
    assert(y1 == era * 400 + yoe);
    assert(y1 - era * 400 == yoe);
    lemma_year_length(yoe);
    if mp == 11 {
        let next = yoe + 1;
        let y2 = era * 400 + next;
        assert(y == y2);
        assert(y % 4 == next % 4) by {
            vstd::arithmetic::div_mod::lemma_mod_multiples_vanish(era * 100, next, 4);
            assert(y == next + (era * 100) * 4);
        }
        assert(y % 100 == next % 100) by {
            vstd::arithmetic::div_mod::lemma_mod_multiples_vanish(era * 4, next, 100);
            assert(y == next + (era * 4) * 100);
        }
        assert(y % 400 == next % 400) by {
            vstd::arithmetic::div_mod::lemma_mod_multiples_vanish(era, next, 400);
        }
    }
}

/// Day numbering is one-to-one on real dates: two dates with the same day
/// number are the same date.
pub proof fn lemma_days_from_civil_injective(y1: int, m1: int, d1: int, y2: int, m2: int, d2: int)
    requires
        valid_date(y1, m1, d1),
        valid_date(y2, m2, d2),
        days_from_civil(y1, m1, d1) == days_from_civil(y2, m2, d2),
    ensures
        y1 == y2 && m1 == m2 && d1 == d2,
{
    lemma_decompose(y1, m1, d1);
    lemma_decompose(y2, m2, d2);
    let a1 = if m1 <= 2 { y1 - 1 } else { y1 };
    let a2 = if m2 <= 2 { y2 - 1 } else { y2 };
    let era1 = a1 / 400;
    let era2 = a2 / 400;
    let yoe1 = a1 % 400;
    let yoe2 = a2 % 400;
    let mp1 = if m1 > 2 { m1 - 3 } else { m1 + 9 };
    let mp2 = if m2 > 2 { m2 - 3 } else { m2 + 9 };
    let doy1 = month_start(mp1) + d1 - 1;
    let doy2 = month_start(mp2) + d2 - 1;
    let doe1 = year_start(yoe1) + doy1;
    let doe2 = year_start(yoe2) + doy2;
    lemma_year_start_monotone(yoe1, 399);
    lemma_year_start_monotone(yoe2, 399);
    lemma_year_length(yoe1);
    lemma_year_length(yoe2);
    assert(0 <= doe1 < 146097);
    assert(0 <= doe2 < 146097);
    let z = days_from_civil(y1, m1, d1) + 719468;
    assert(era1 == z / 146097 && doe1 == z % 146097) by {
        vstd::arithmetic::div_mod::lemma_fundamental_div_mod_converse(z, 146097, era1, doe1);
    }
    assert(era2 == z / 146097 && doe2 == z % 146097) by {
        vstd::arithmetic::div_mod::lemma_fundamental_div_mod_converse(z, 146097, era2, doe2);
    }
    if yoe1 < yoe2 {
        lemma_year_start_monotone(yoe1 + 1, yoe2);
        assert(false);
    }
    if yoe2 < yoe1 {
        lemma_year_start_monotone(yoe2 + 1, yoe1);
        assert(false);
    }
    assert(doy1 == doy2);
    if mp1 < mp2 {
        assert(month_start(mp1 + 1) <= month_start(mp2));
        assert(false);
    }
    if mp2 < mp1 {
        assert(month_start(mp2 + 1) <= month_start(mp1));
        assert(false);
    }
}

/// The calendar date of a day counted from 1970-01-01.
fn civil_from_days(days: i64) -> (r: (i64, i64, i64))
    requires
        -0x10_0000_0000_0000 <= days <= 0x10_0000_0000_0000,
    ensures
        valid_date(r.0 as int, r.1 as int, r.2 as int),
        days_from_civil(r.0 as int, r.1 as int, r.2 as int) == days,
{
    let z = days + 719468;
    let era = floor_div(z, 146097);
    let doe = z - era * 146097;
    proof {
        assert(0 <= doe < 146097) by {
            vstd::arithmetic::div_mod::lemma_fundamental_div_mod(z as int, 146097);
        }
    }
    let yoe = year_of_era(doe);
    let doy = doe - (365 * yoe + yoe / 4 - yoe / 100);
    proof {
        lemma_year_length(yoe as int);
    }
    let mp = month_of_year(doy);
    let day = doy - (153 * mp + 2) / 5 + 1;
    let month = if mp < 10 { mp + 3 } else { mp - 9 };
    let year = yoe + era * 400 + if month <= 2 { 1 } else { 0 };
    proof {
        lemma_civil_date(era as int, yoe as int, doy as int, mp as int);
    }
    (year, month, day)
}

/// Appends the abbreviated name of month `m`.
fn push_month(out: &mut Vec<char>, m: i64)
    ensures
        final(out)@ == old(out)@ + month_abbrev(m as int),
{
    if m == 1 { push_str(out, "Jan"); }
    else if m == 2 { push_str(out, "Feb"); }
    else if m == 3 { push_str(out, "Mar"); }
    else if m == 4 { push_str(out, "Apr"); }
    else if m == 5 { push_str(out, "May"); }
    else if m == 6 { push_str(out, "Jun"); }
    else if m == 7 { push_str(out, "Jul"); }
    else if m == 8 { push_str(out, "Aug"); }
    else if m == 9 { push_str(out, "Sep"); }
    else if m == 10 { push_str(out, "Oct"); }
    else if m == 11 { push_str(out, "Nov"); }
    else { push_str(out, "Dec"); }
}

/// Session start time as "Nov 14, 2023, 22:13": abbreviated date and
/// 24-hour time of an epoch-milliseconds instant (UTC).
pub fn format_timestamp(epoch_ms: i64) -> (s: String)
    ensures
        ({
            let secs = epoch_ms as int / 1000;
            let days = secs / 86400;
            let tod = secs % 86400;
            exists|y: int, m: int, d: int|
                valid_date(y, m, d) && days_from_civil(y, m, d) == days && s@ == #[trigger] stamp_text(y, m, d, tod)
        }),
{
    let secs = floor_div(epoch_ms, 1000);
    let days = floor_div(secs, 86400);
    let tod = secs - days * 86400;
    proof {
        vstd::arithmetic::div_mod::lemma_fundamental_div_mod(secs as int, 86400);
        assert(tod as int == secs as int % 86400);
    }
    let (year, month, day) = civil_from_days(days);
    let mut out: Vec<char> = Vec::new();
    push_month(&mut out, month);
    push_str(&mut out, " ");
    push_nat(&mut out, day as u64);
    push_str(&mut out, ", ");
    push_int(&mut out, year);
    push_str(&mut out, ", ");
    push_two_digits(&mut out, (tod / 3600) as u64);
    push_str(&mut out, ":");
    push_two_digits(&mut out, ((tod % 3600) / 60) as u64);
    proof {
        assert(out@ =~= stamp_text(year as int, month as int, day as int, tod as int));
    }
    to_string(&out)
}

} // verus!
