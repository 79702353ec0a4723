//! Verified core of a push-to-talk dictation tool: audio capture decisions,
//! resampling, level metering, the model cache, and the reconstruction of
//! recognizer output into timed words and segments.
pub mod text;
pub mod timestamp;
pub mod audio;
pub mod capture;
pub mod dictionary;
pub mod engine;
pub mod history;
pub mod error;
pub mod level;
pub mod settings;
pub mod shortcuts;
