use keyinsight::score::encoder::MusicXmlEncoder;
use keyinsight::score::importer::{ImportError, MusicXmlImporter};
use keyinsight::score::model::{Exercise, NoteDuration, ScoreNote, Staff};

fn score(body: &str) -> String {
    format!(
        "<?xml version=\"1.0\"?><score-partwise><work><work-title>Tune</work-title></work>\
         <part id=\"P1\">{body}</part></score-partwise>"
    )
}

const ATTRS: &str = "<attributes><divisions>1</divisions><key><fifths>-1</fifths></key>\
                     <time><beats>4</beats><beat-type>4</beat-type></time><clef><sign>G</sign></clef></attributes>";

fn note(step: &str, octave: i32, duration: i32, extra: &str) -> String {
    format!("<note><pitch><step>{step}</step><octave>{octave}</octave></pitch><duration>{duration}</duration>{extra}</note>")
}

#[test]
fn imports_a_single_staff_melody() {
    let xml = score(&format!(
        "<measure number=\"1\">{ATTRS}{}{}{}</measure>",
        note("C", 4, 1, ""),
        note("E", 4, 1, ""),
        note("G", 4, 2, "")
    ));
    let piece = MusicXmlImporter::parse(xml.as_bytes(), "fallback").expect("imports");
    assert_eq!(piece.title, "Tune");
    assert_eq!(piece.exercise.fifths, -1);
    assert_eq!(piece.exercise.beats_per_measure, 4);
    assert_eq!(
        piece.exercise.notes,
        vec![
            ScoreNote::note(60, NoteDuration::Quarter),
            ScoreNote::note(64, NoteDuration::Quarter),
            ScoreNote::note(67, NoteDuration::Half),
        ]
    );
}

#[test]
fn missing_titles_fall_back() {
    let xml = format!(
        "<score-partwise><part id=\"P1\"><measure>{ATTRS}{}</measure></part></score-partwise>",
        note("D", 5, 4, "")
    );
    let piece = MusicXmlImporter::parse(xml.as_bytes(), "my-slug").expect("imports");
    assert_eq!(piece.title, "my-slug");
    assert_eq!(piece.exercise.notes, vec![ScoreNote::note(74, NoteDuration::Whole)]);
}

#[test]
fn rejects_what_the_subset_does_not_read() {
    assert_eq!(MusicXmlImporter::parse(b"<html></html>", "x").err(), Some(ImportError::NotMusicXml));
    assert_eq!(MusicXmlImporter::parse(b"not xml at all <", "x").err(), Some(ImportError::NotMusicXml));
    let two_parts = "<score-partwise><part id=\"P1\"></part><part id=\"P2\"></part></score-partwise>";
    assert_eq!(MusicXmlImporter::parse(two_parts.as_bytes(), "x").err(), Some(ImportError::MultipleParts));

    let grace = score(&format!("<measure>{ATTRS}{}</measure>", note("C", 4, 4, "<grace/>")));
    assert_eq!(
        MusicXmlImporter::parse(grace.as_bytes(), "x").err(),
        Some(ImportError::Unsupported("grace notes".to_string()))
    );

    let short_first = score(&format!(
        "<measure>{ATTRS}{}</measure><measure>{}</measure>",
        note("C", 4, 2, ""),
        note("C", 4, 4, "")
    ));
    let err = MusicXmlImporter::parse(short_first.as_bytes(), "x").err().expect("rejected");
    assert_eq!(err, ImportError::Unsupported("incomplete treble measure 1 (pickup measures)".to_string()));
    assert_eq!(err.message(), "Unsupported for now: incomplete treble measure 1 (pickup measures).");
    assert_eq!(ImportError::MultipleParts.message(), "Multi-part scores aren't supported yet — single staff only.");
}

#[test]
fn a_short_last_measure_is_accepted() {
    let xml = score(&format!(
        "<measure>{ATTRS}{}</measure><measure>{}</measure>",
        note("C", 4, 4, ""),
        note("D", 4, 2, "")
    ));
    let piece = MusicXmlImporter::parse(xml.as_bytes(), "x").expect("imports");
    assert_eq!(piece.exercise.notes.len(), 2);
}

#[test]
fn encoded_grand_staff_scores_import_back() {
    let ex = Exercise::new(
        vec![
            ScoreNote::note(64, NoteDuration::Half),
            ScoreNote::note(67, NoteDuration::Half).with_tie(false),
            ScoreNote::note(72, NoteDuration::Whole),
        ],
        4,
    )
    .with_bass(vec![
        ScoreNote::note(48, NoteDuration::Whole).with_staff(Staff::Bass),
        ScoreNote::note(43, NoteDuration::Whole).with_staff(Staff::Bass),
    ])
    .with_fifths(2);
    let xml = MusicXmlEncoder::encode(&ex);
    let piece = MusicXmlImporter::parse(xml.as_bytes(), "rt").expect("round trip");
    assert_eq!(piece.exercise, ex);
    let broken = MusicXmlEncoder::encode_with_breaks(&ex, Some(1));
    assert_eq!(broken.matches("<print new-system=\"yes\"/>").count(), 1);
    assert_eq!(MusicXmlImporter::parse(broken.as_bytes(), "rt").map(|p| p.exercise).ok(), Some(ex));
}

#[test]
fn encoded_treble_exercise_imports_back() {
    let ex = Exercise::new(
        vec![
            ScoreNote::note(63, NoteDuration::DottedQuarter),
            ScoreNote::note(67, NoteDuration::Eighth),
            ScoreNote::note(70, NoteDuration::Eighth).with_chord(true),
            ScoreNote::rest(NoteDuration::Quarter),
            ScoreNote::note(60, NoteDuration::Quarter),
            ScoreNote::note(60, NoteDuration::Half).with_tie(true),
            ScoreNote::note(58, NoteDuration::Half),
        ],
        3,
    )
    .with_fifths(-3);
    let xml = MusicXmlEncoder::encode_with_breaks(&ex, Some(1));
    let piece = MusicXmlImporter::parse(xml.as_bytes(), "fallback").expect("round trip");
    assert_eq!(piece.title, "fallback");
    assert_eq!(piece.exercise, ex);
    let copy = piece.clone();
    assert_eq!(copy, piece);
}

#[test]
fn system_breaks_open_every_second_measure_after_the_first() {
    let pitches = [60u8, 62, 64, 65, 67, 65, 64, 62];
    let notes: Vec<ScoreNote> = pitches.iter().map(|&m| ScoreNote::note(m, NoteDuration::Whole)).collect();
    let ex = Exercise::new(notes, 4);
    let plain = MusicXmlEncoder::encode(&ex);
    let broken = MusicXmlEncoder::encode_with_breaks(&ex, Some(2));
    assert!(!plain.contains("<print new-system=\"yes\"/>"));
    assert_eq!(broken.matches("<print new-system=\"yes\"/>").count(), 3);
    assert!(!broken.contains("<measure number=\"1\">\n          <print"));
    assert!(broken.contains("<measure number=\"3\">\n          <print new-system=\"yes\"/>"));
    assert_eq!(broken.replace("\n          <print new-system=\"yes\"/>", ""), plain);
    let every_third = MusicXmlEncoder::encode_with_breaks(&ex, Some(3));
    assert_eq!(every_third.matches("<print new-system=\"yes\"/>").count(), (8 - 1) / 3);
    let piece = MusicXmlImporter::parse(broken.as_bytes(), "rt").ok();
    assert_eq!(piece.map(|p| p.exercise), Some(ex));
}
