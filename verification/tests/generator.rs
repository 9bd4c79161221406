use keyinsight::score::generator::{ChordShape, Hands};

#[test]
fn hands_raw_values_round_trip() {
    for hands in [Hands::Right, Hands::Left, Hands::Both] {
        assert_eq!(Hands::from_raw_value(hands.raw_value()), Some(hands));
    }
    assert_eq!(Hands::Right.raw_value(), "right");
    assert_eq!(Hands::Both.raw_value(), "both");
    assert_eq!(Hands::from_raw_value("auto"), None);
    assert_eq!(Hands::from_raw_value("Right"), None);
}

#[test]
fn chord_shapes_by_skill_item() {
    let fifth = ChordShape::by_skill_item("chord:harm-5th").expect("known shape");
    assert_eq!(fifth.item, "chord:harm-5th");
    assert_eq!(fifth.member_steps_below, &[4]);
    assert_eq!(fifth.depth(), 4);
    let triad = ChordShape::by_skill_item("chord:triad").expect("known shape");
    assert_eq!(triad.member_steps_below, &[2, 4]);
    assert_eq!(triad.depth(), 4);
    assert_eq!(ChordShape::by_skill_item("chord:harm-octave").map(|s| s.depth()), Some(7));
    assert_eq!(ChordShape::by_skill_item("chord:harm-9th"), None);
    let empty = ChordShape { item: "x", member_steps_below: &[] };
    assert_eq!(empty.depth(), 0);
}
