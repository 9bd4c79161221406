//! The score layer: the notation model, MusicXML encoding and import, the
//! free-play mirror score, and the bundled repertoire's piece records.

pub mod model;
pub mod encoder;
pub mod xml;
pub mod importer;
pub mod free_play;
pub mod generator;
pub mod repertoire;
pub mod difficulty;
pub mod rhythm;
pub mod events;
pub mod round_trip;
