# keyinsight

The verified core of a piano sight-reading trainer: the score model and
its MusicXML encoding and import, the free-play mirror score, the skill
ladders, and the text and visibility logic behind the trainer's panels.
Every function under `src/` carries a contract that Verus proves, with
these exceptions, whose contracts are trusted rather than proved: the
wrappers around quick-xml in `src/score/xml.rs` (`open_reader`, `tag_of`,
`text_of`, `XmlCursor::next_event`, whose result is named
`xml_event_at`), the wrappers around `String::push` and `str::to_lowercase` (whose
result is named `lowercase`) in `src/text.rs`, and
the `Rng64` draw source that callers of the rhythm generator implement.

## Layout

| Path | Contents |
|---|---|
| `src/text.rs` | Character-level building blocks: decimal rendering, literal appends, search and replace, trimming, integer parsing |
| `src/pitch.rs` | Pitch spelling, staff positions, key names and key-signature alterations |
| `src/score/model.rs` | Notes, durations, exercises; measure chunking, note spans, ties, match events |
| `src/score/encoder.rs` | MusicXML encoding of an exercise (optionally with system breaks) |
| `src/score/xml.rs` | An element tree read through quick-xml's event reader |
| `src/score/importer.rs` | MusicXML import for the supported subset, with a message per rejection |
| `src/score/events.rs` | Laws of the combined event stream: every played note in exactly one event, lists that line up, one stream per pair of voices |
| `src/score/round_trip.rs` | The element tree an encoding spells out, and the proof that importing it gives the exercise back |
| `src/score/free_play.rs` | The free-play mirror score of the most recent chords |
| `src/score/generator.rs` | The exercise generator's deterministic parts: hands choices, chord shapes, the accompanying hand's long tones, the onsets that must not double them, cadence homes |
| `src/score/rhythm.rs` | The rhythm vocabulary, drawn measure by measure, with measures filled exactly and rests placed by rule |
| `src/score/repertoire.rs` | Library pieces, imported from their sources |
| `src/score/difficulty.rs` | The counts behind an exercise's difficulty descriptors |
| `src/skill.rs` | Unlock orders and the pitch, interval and chord-shape ladders |
| `src/ui/*` | Hover help, library rows with their hands filter, title search and sort orders, progress texts, side-panel rows and visibility |
| `src/cli.rs` | The `--screenshot` command-line request |
| `tests/` | Tests of the library on concrete values |
| `app/` | A command-line front end: file I/O, JSON specs (serde), floating-point difficulty descriptors |

The library has no I/O of its own: the front end reads files and hands
the library bytes and plain values.
