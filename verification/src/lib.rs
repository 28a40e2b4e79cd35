//! Verified core logic of a local voice-dictation tool: transcript
//! post-processing, hardware tiering, model catalog, hotkey grammar,
//! speech gating and the dictation pipeline's decisions.

pub mod text;
pub mod corrections;
pub mod digits;
pub mod hardware;
pub mod models;
pub mod checksum;
pub mod hotkeys;
pub mod vad;
pub mod cleanup;
pub mod settings;
pub mod pipeline;
pub mod inject;
pub mod digits_stable;
