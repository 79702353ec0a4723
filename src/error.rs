//! Failure kinds of the capture and transcription core.
use vstd::prelude::*;

verus! {

/// Why an operation of the capture and transcription core failed.
#[derive(Clone, Copy, Debug, PartialEq, Eq, Structural)]
pub enum CoreError {
    /// No input device is available.
    NoInputDevice,
    /// The input device delivers samples in a format that is not handled.
    UnsupportedSampleFormat,
    /// The waveform file could not be created, written or finalized.
    FileIoError,
    /// A recording is already in progress.
    AlreadyRecording,
    /// No model is loaded.
    ModelNotLoaded,
    /// The model could not be loaded.
    ModelLoadFailed,
    /// The recognizer failed on the samples.
    InferenceFailed,
    /// A waveform file read back is not 16-bit integer PCM.
    UnsupportedWavFormat,
}

impl CoreError {
    /// A short human-readable description.
    pub fn message(&self) -> (r: &'static str) {
        match self {
            CoreError::NoInputDevice => "No input device available",
            CoreError::UnsupportedSampleFormat => "Unsupported sample format",
            CoreError::FileIoError => "Failed to write the waveform file",
            CoreError::AlreadyRecording => "Already recording",
            CoreError::ModelNotLoaded => "Model not loaded",
            CoreError::ModelLoadFailed => "Failed to load model",
            CoreError::InferenceFailed => "Transcription failed",
            CoreError::UnsupportedWavFormat => "Expected 16-bit integer PCM",
        }
    }
}

} // verus!
