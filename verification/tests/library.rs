use keyinsight::score::model::{Exercise, NoteDuration, ScoreNote};
use keyinsight::score::repertoire::RepertoirePiece;
use keyinsight::ui::library::{
    all_songs, base_title, empty_state_text, filter_and_sort, footer_text, hands_index, piece_detail, Filter, HandsFilter, SongEntry,
    SortOrder,
};

fn piece(slug: &str, title: &str, midis: &[u8]) -> RepertoirePiece {
    let notes = midis.iter().map(|&m| ScoreNote::new(Some(m), NoteDuration::Quarter)).collect();
    RepertoirePiece { slug: slug.to_string(), title: title.to_string(), exercise: Exercise::new(notes, 4) }
}

#[test]
fn hands_segments_round_trip() {
    let labels: Vec<&str> = HandsFilter::ALL.iter().map(|h| h.raw_value()).collect();
    assert_eq!(labels, ["All", "One hand", "Two hands"]);
    for (i, hands) in HandsFilter::ALL.iter().enumerate() {
        assert_eq!(hands_index(*hands), i);
        assert_eq!(HandsFilter::ALL[hands_index(*hands)], *hands);
    }
}

#[test]
fn sort_order_labels() {
    let labels: Vec<&str> = SortOrder::ALL.iter().map(|s| s.raw_value()).collect();
    assert_eq!(labels, ["Title", "Difficulty", "Length"]);
}

/// Opening the sheet rebuilds the list (fresh stats lines), as does a
/// filter change.
#[test]
fn list_key_changes_on_open_and_on_filter_change() {
    let mut filter = Filter::new(0);
    assert_eq!(filter.list_key(), 0);
    filter.open_generation = 1; // the Library button
    assert_eq!(filter.list_key(), 1);
    assert_eq!(filter.list_key(), 1);
    filter.changed();
    assert_eq!(filter.list_key(), 2);
    filter.open_generation = 2;
    assert_eq!(filter.list_key(), 3);
}

#[test]
fn base_title_strips_the_edition_suffix() {
    assert_eq!(base_title("Ode to Joy (Two Hands)"), "Ode to Joy");
    assert_eq!(base_title("Minuet in G (Bach, Two Hands)"), "Minuet in G (Bach)");
    assert_eq!(base_title("Twinkle Twinkle"), "Twinkle Twinkle");
    assert_eq!(base_title("Orphan (Arr., Two Hands)"), "Orphan (Arr.)");
}

#[test]
fn detail_line_names_the_key_from_fifths() {
    let mut p = piece("x", "X", &[60, 62, 64, 65, 67, 69, 71, 72]);
    p.exercise.fifths = -2;
    let detail = piece_detail(&p, &format!("{:.1}", 1.25f64));
    assert!(detail.starts_with("2 measures · 8 notes · B♭ major · difficulty "), "{detail}");
}

#[test]
fn detail_line_ends_with_the_rendered_difficulty() {
    let p = piece("x", "X", &[60, 62, 64]);
    assert_eq!(piece_detail(&p, "0.4"), "1 measures · 3 notes · C major · difficulty 0.4");
}

#[test]
fn empty_state_and_footer_strings() {
    assert_eq!(empty_state_text(""), "No songs match the filter.");
    assert_eq!(empty_state_text("zz"), "No songs match “zz”.");
    assert_eq!(footer_text(3, 61), "3 of 61 songs");
}

#[test]
fn piece_id_is_its_slug() {
    let p = piece("ode-to-joy", "Ode to Joy", &[64]);
    assert_eq!(p.id(), "ode-to-joy");
}

fn ids(songs: &[SongEntry]) -> Vec<&str> {
    songs.iter().map(|s| s.base.slug.as_str()).collect()
}

fn pieces() -> Vec<RepertoirePiece> {
    vec![
        piece("ode-to-joy", "Ode to Joy", &[64, 64, 65, 67]),
        piece("ode-to-joy-two-hands", "Ode to Joy (Two Hands)", &[64, 64, 65, 67, 67]),
        piece("amazing-grace", "Amazing Grace", &[60, 65, 69, 65, 69, 67, 65, 62, 60]),
        piece("orphan-two-hands", "Orphan (Arr., Two Hands)", &[60, 62]),
    ]
}

#[test]
fn two_hands_edition_attaches_to_its_base_row() {
    let songs = all_songs(&pieces());
    assert_eq!(ids(&songs), ["ode-to-joy", "amazing-grace", "orphan-two-hands"]);
    let ode = &songs[0];
    assert_eq!(ode.two_hands.as_ref().map(|p| p.slug.as_str()), Some("ode-to-joy-two-hands"));
    assert!(songs[1].two_hands.is_none());
    // A "-two-hands" slug without a base stays a standalone row.
    assert!(songs[2].two_hands.is_none());
    assert_eq!(songs[2].title(), "Orphan (Arr.)");
    assert_eq!(ode.length, 4);
    assert_eq!(songs[1].length, 9);
}

/// Difficulty keys per row in `all_songs(&pieces())` order (a harder row
/// has a larger key).
const KEYS: [u64; 3] = [30, 55, 12];

#[test]
fn hands_filter_keeps_only_songs_with_a_two_hand_edition() {
    let songs = all_songs(&pieces());
    let all = filter_and_sort(&songs, HandsFilter::All, "", SortOrder::Title, &KEYS);
    assert_eq!(all.len(), 3);
    let one = filter_and_sort(&songs, HandsFilter::OneHand, "", SortOrder::Title, &KEYS);
    assert_eq!(one.len(), 3, "every row has a one-hand edition");
    let two = filter_and_sort(&songs, HandsFilter::TwoHands, "", SortOrder::Title, &KEYS);
    assert_eq!(ids(&two), ["ode-to-joy"]);
}

#[test]
fn search_is_case_insensitive_on_the_base_title() {
    let songs = all_songs(&pieces());
    let hits = filter_and_sort(&songs, HandsFilter::All, "ODE", SortOrder::Title, &KEYS);
    assert_eq!(hits.len(), 1);
    assert_eq!(hits[0].base.slug, "ode-to-joy");
    // The suffix is not searchable — it is stripped from the row title.
    assert!(filter_and_sort(&songs, HandsFilter::All, "Two Hands", SortOrder::Title, &KEYS).is_empty());
    assert!(filter_and_sort(&songs, HandsFilter::All, "zzz", SortOrder::Title, &KEYS).is_empty());
}

#[test]
fn sort_orders() {
    let songs = all_songs(&pieces());
    let by_title: Vec<String> = filter_and_sort(&songs, HandsFilter::All, "", SortOrder::Title, &KEYS)
        .iter()
        .map(SongEntry::title)
        .collect();
    assert_eq!(by_title, ["Amazing Grace", "Ode to Joy", "Orphan (Arr.)"]);

    let by_length: Vec<usize> = filter_and_sort(&songs, HandsFilter::All, "", SortOrder::Length, &KEYS)
        .iter()
        .map(|e| e.length)
        .collect();
    assert!(by_length.windows(2).all(|w| w[0] <= w[1]), "{by_length:?}");

    let by_difficulty = filter_and_sort(&songs, HandsFilter::All, "", SortOrder::Difficulty, &KEYS);
    assert_eq!(ids(&by_difficulty), ["orphan-two-hands", "ode-to-joy", "amazing-grace"]);
}

#[test]
fn equal_keys_keep_their_order() {
    let songs = all_songs(&pieces());
    let tied = filter_and_sort(&songs, HandsFilter::All, "", SortOrder::Difficulty, &[7, 7, 7]);
    assert_eq!(ids(&tied), ["ode-to-joy", "amazing-grace", "orphan-two-hands"]);
    let grace = filter_and_sort(&songs, HandsFilter::All, "gRaCe", SortOrder::Length, &KEYS);
    assert_eq!(ids(&grace), ["amazing-grace"]);
}
