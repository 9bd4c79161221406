//! Sight-reading trainer core: the score model, MusicXML encoding and
//! import, the free-play mirror score, the skill ladders' fixed data, and
//! the pure text/visibility logic behind the trainer's panels.

pub mod text;
pub mod pitch;
pub mod score;
pub mod skill;
pub mod ui;
pub mod cli;
