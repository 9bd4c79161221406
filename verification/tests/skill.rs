use std::collections::HashSet;

use keyinsight::score::model::Staff;
use keyinsight::skill::{SkillModel, BASS_UNLOCK_ORDER, INTERVAL_DELTAS, SEED_COUNT, UNLOCK_ORDER};

#[test]
fn unlock_order_expands_outward_then_sharps() {
    assert_eq!(&UNLOCK_ORDER[..5], [60, 62, 64, 65, 67]);
    assert_eq!(UNLOCK_ORDER[5], 69); // A4 first expansion
    assert_eq!(UNLOCK_ORDER[6], 59); // then B3 below
    assert_eq!(&UNLOCK_ORDER[15..], [66, 61, 68, 63, 70]); // sharps last
    let unique: HashSet<u8> = UNLOCK_ORDER.into_iter().collect();
    assert_eq!(unique.len(), UNLOCK_ORDER.len());
}

#[test]
fn starts_with_seed_set() {
    let model = SkillModel::default();
    assert_eq!(model.unlocked_count(), 5);
    assert_eq!(model.order()[..model.unlocked_count()], [60, 62, 64, 65, 67]);
    assert_eq!(model.next_locked_midi(), Some(69));
}

#[test]
fn bass_model_uses_bass_order() {
    let model = SkillModel::with_staff(Staff::Bass, 5);
    assert_eq!(model.unlocked_count(), 5);
    assert_eq!(model.order()[..model.unlocked_count()], [48, 50, 52, 53, 55]);
    assert_eq!(model.next_locked_midi(), Some(47)); // B2 first expansion (downward)
    assert_eq!(&BASS_UNLOCK_ORDER[15..], [54, 49, 56, 51, 58]); // sharps last
    let unique: HashSet<u8> = BASS_UNLOCK_ORDER.iter().copied().collect();
    assert_eq!(unique.len(), BASS_UNLOCK_ORDER.len());
}

#[test]
fn interval_item_names() {
    assert_eq!(SkillModel::interval_item_name(0), "interval:unison");
    assert_eq!(SkillModel::interval_item_name(1), "interval:2nd-up");
    assert_eq!(SkillModel::interval_item_name(-2), "interval:3rd-down");
    assert_eq!(SkillModel::interval_item_name(3), "interval:4th-up");
}

#[test]
fn interval_names_cover_every_tracked_delta_and_cap_at_the_octave() {
    let names: Vec<String> = INTERVAL_DELTAS.iter().map(|&d| SkillModel::interval_item_name(d)).collect();
    assert_eq!(names[0], "interval:octave-down");
    assert_eq!(names[14], "interval:octave-up");
    assert_eq!(SkillModel::interval_item_name(9), "interval:octave-up");
    assert_eq!(SkillModel::interval_item_name(-6), "interval:7th-down");
    let unique: HashSet<&String> = names.iter().collect();
    assert_eq!(unique.len(), INTERVAL_DELTAS.len());
}

#[test]
fn diatonic_pitch_classes() {
    assert!(SkillModel::diatonic_pitch_classes(0).contains(&5)); // F in C
    assert!(!SkillModel::diatonic_pitch_classes(1).contains(&5)); // no F in G
    assert!(SkillModel::diatonic_pitch_classes(1).contains(&6)); // F# in G
    assert!(SkillModel::diatonic_pitch_classes(2).contains(&1)); // C# in D
    assert!(!SkillModel::diatonic_pitch_classes(2).contains(&0)); // no C in D
    assert_eq!(SkillModel::diatonic_pitch_classes(2).len(), 7);
}

#[test]
fn set_unlocked_count_clamps() {
    let mut model = SkillModel::default();
    model.set_unlocked_count(2);
    assert_eq!(model.unlocked_count(), SEED_COUNT);
    model.set_unlocked_count(999);
    assert_eq!(model.unlocked_count(), UNLOCK_ORDER.len());
}

#[test]
fn item_names_carry_the_staff_prefix() {
    assert_eq!(SkillModel::item_name(60), "treble:C4");
    assert_eq!(SkillModel::item_name_on(48, Staff::Bass), "bass:C3");
    assert_eq!(SkillModel::item_name_on(61, Staff::Treble), "treble:C#4");
}

#[test]
fn unlocking_takes_the_next_item_in_order_only_when_earned() {
    let mut model = SkillModel::default();
    assert_eq!(model.unlock_if_earned(false), None);
    assert_eq!(model.unlocked_count(), 5);
    assert_eq!(model.unlock_if_earned(true), Some(69));
    assert_eq!(model.unlocked_count(), 6);
    assert_eq!(model.next_locked_midi(), Some(59));
    model.set_unlocked_count(20);
    assert_eq!(model.next_locked_midi(), None);
    assert_eq!(model.unlock_if_earned(true), None);
    assert_eq!(model.unlocked_count(), 20);
}

#[test]
fn interval_ladder_unlocks_fifths_sixths_octaves_then_sevenths() {
    let mut model = SkillModel::default();
    let mut sizes: Vec<i32> = model.unlocked_interval_sizes().into_iter().collect();
    sizes.sort();
    assert_eq!(sizes, [0, 1, 2, 3]);
    assert_eq!(model.next_locked_interval_size(), Some(4));
    assert_eq!(model.unlock_interval_if_ready(false), None);
    assert_eq!(model.unlock_interval_if_ready(true), Some(4));
    assert_eq!(model.unlock_interval_if_ready(true), Some(5));
    assert_eq!(model.unlock_interval_if_ready(true), Some(7));
    assert!(model.unlocked_interval_sizes().contains(&7));
    assert!(!model.unlocked_interval_sizes().contains(&6));
    model.set_interval_unlocked_count(99);
    assert_eq!(model.interval_unlocked_count(), 4);
    assert_eq!(model.next_locked_interval_size(), None);
    assert_eq!(model.unlock_interval_if_ready(true), None);
    assert_eq!(SkillModel::interval_size_display_name(4), "5th");
    assert_eq!(SkillModel::interval_size_display_name(12), "octave");
    assert_eq!(SkillModel::interval_size_display_name(-3), "unison");
}

#[test]
fn chord_ladder_and_shape_classes() {
    let mut model = SkillModel::default();
    assert!(model.unlocked_chord_shapes().is_empty());
    assert_eq!(model.next_locked_chord_shape(), Some("chord:harm-5th"));
    assert_eq!(model.unlock_chord_if_ready(true), Some("chord:harm-5th"));
    assert_eq!(model.unlocked_chord_shapes(), ["chord:harm-5th"]);
    model.set_chord_unlocked_count(7);
    assert_eq!(model.chord_unlocked_count(), 5);
    assert_eq!(model.next_locked_chord_shape(), None);

    assert_eq!(SkillModel::chord_shape_name(&[67, 60, 64]), Some("chord:triad"));
    assert_eq!(SkillModel::chord_shape_name(&[64, 60]), Some("chord:harm-3rd"));
    assert_eq!(SkillModel::chord_shape_name(&[60, 67]), Some("chord:harm-5th"));
    assert_eq!(SkillModel::chord_shape_name(&[60, 69]), Some("chord:harm-6th"));
    assert_eq!(SkillModel::chord_shape_name(&[60, 72]), Some("chord:harm-octave"));
    // F#4 over C4: the sharp shares F's staff position — still a 4th.
    assert_eq!(SkillModel::chord_shape_name(&[60, 66]), None);
    assert_eq!(SkillModel::chord_shape_name(&[60]), None);
    assert_eq!(SkillModel::chord_shape_name(&[60, 64, 67, 72]), None);
    assert_eq!(SkillModel::chord_shape_display_name("chord:triad"), "triads");
    assert_eq!(SkillModel::chord_shape_display_name("chord:other"), "chord:other");
    assert_eq!(SkillModel::transition_item_name(66, 71), "move:F#4>B4");
}

#[test]
fn keys_unlock_with_their_sharps() {
    let mut model = SkillModel::default();
    assert_eq!(model.available_keys(), [0]);

    // Unlock through F#4 (index 15 in UNLOCK_ORDER → count 16).
    model.set_unlocked_count(16);
    assert_eq!(model.available_keys(), [0, 1]);

    // Through C#4 (index 16 → count 17): D major joins.
    model.set_unlocked_count(17);
    assert_eq!(model.available_keys(), [0, 1, 2]);
}

#[test]
fn bass_keys_unlock_with_bass_register_sharps() {
    let mut model = SkillModel::with_staff(Staff::Bass, 5);
    assert_eq!(model.available_keys(), [0]);
    model.set_unlocked_count(16); // through F#3
    assert_eq!(model.available_keys(), [0, 1]);
    model.set_unlocked_count(17); // C#3
    assert_eq!(model.available_keys(), [0, 1, 2]);
}

#[test]
fn key_filters_active_pitches() {
    let mut model = SkillModel::default();
    model.set_unlocked_count(16); // naturals + F#4
    let g_major = model.active_pitch_options_in_key(1);
    assert!(!g_major.contains(&65)); // F4 out
    assert!(!g_major.contains(&77)); // F5 out
    assert!(g_major.contains(&66)); // F#4 in
    assert!(g_major.contains(&60)); // C4 still in
    // D major on the seed keeps D4, E4 and G4.
    let seed = SkillModel::default();
    assert_eq!(seed.active_pitch_options_in_key(2), [62, 64, 67]);
    assert_eq!(seed.active_pitch_options_in_key(0), seed.active_pitch_options());
}
