//! The pure text and visibility logic behind the trainer's panels: hover
//! help, the library list, the progress footer, and the side panel's
//! header, status, summary, instruction and picker rows.

pub mod help;
pub mod library;
pub mod progress;
pub mod panel;
pub mod status;
pub mod cells;
pub mod profile;
