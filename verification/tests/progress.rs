use keyinsight::ui::panel::Tint;
use keyinsight::ui::progress::{
    chord_status_color, error_text, format_timestamp, mastery_tally, next_unlock_text, transition_color,
    ProgressEntry,
};

fn entry(unlocked: bool, mastered: bool) -> ProgressEntry {
    ProgressEntry { midi: 60, name: "C4".to_string(), unlocked, mastered, attempts: 0, error_percent: None }
}

#[test]
fn trouble_transition_turns_red_at_35_percent() {
    assert_eq!(transition_color(34), Tint::Orange);
    assert_eq!(transition_color(35), Tint::Red);
    assert_eq!(transition_color(80), Tint::Red);
}

#[test]
fn chord_status_is_green_only_when_unlocked() {
    assert_eq!(chord_status_color("unlocked"), Some(Tint::Green));
    assert_eq!(chord_status_color("probing"), None);
    assert_eq!(chord_status_color("locked"), None);
}

#[test]
fn stat_texts_fall_back_to_a_dash() {
    assert_eq!(error_text(Some(12)), "12% err");
    assert_eq!(error_text(None), "—");
}

#[test]
fn footer_tally_spans_both_staves() {
    let treble = vec![entry(true, true), entry(true, false), entry(false, false)];
    let bass = vec![entry(true, true)];
    assert_eq!(mastery_tally(&treble, &bass), "2 of 3 active items mastered");
}

#[test]
fn next_unlock_joins_treble_and_bass() {
    assert_eq!(next_unlock_text(None, None), "All items unlocked");
    assert_eq!(next_unlock_text(Some(69), None), "Next unlock: A4 — master all active items");
    assert_eq!(next_unlock_text(None, Some(47)), "Next unlock: B2 (left) — master all active items");
    assert_eq!(next_unlock_text(Some(69), Some(47)), "Next unlock: A4 · B2 (left) — master all active items");
}

#[test]
fn timestamp_formats_as_abbreviated_date_and_short_time() {
    // 2023-11-14 22:13:20 UTC
    assert_eq!(format_timestamp(1_700_000_000_000), "Nov 14, 2023, 22:13");
}

#[test]
fn timestamps_across_epoch_leap_days_and_eras() {
    assert_eq!(format_timestamp(0), "Jan 1, 1970, 00:00");
    assert_eq!(format_timestamp(-1), "Dec 31, 1969, 23:59");
    // 2000-02-29 12:34 UTC (a leap day of a 400-year leap year).
    assert_eq!(format_timestamp(951_827_640_000), "Feb 29, 2000, 12:34");
    // 2024-02-29 00:00 UTC.
    assert_eq!(format_timestamp(1_709_164_800_000), "Feb 29, 2024, 00:00");
    // 1900-03-01 00:00 UTC (1900 had no leap day).
    assert_eq!(format_timestamp(-2_203_891_200_000), "Mar 1, 1900, 00:00");
}
