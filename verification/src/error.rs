//! The error kinds of the transcription pipeline.

use vstd::prelude::*;

verus! {

/// Everything that can go wrong around one transcription call.
///
/// `InvalidAudioFormat` is caller-facing and recoverable by re-encoding
/// the input; the loader kinds are fatal at startup; `DecodingError`
/// and `UnknownTokenId` signal a model/configuration mismatch and abort
/// the in-flight transcription.
#[derive(Clone, Copy, Debug, PartialEq, Eq, Structural)]
pub enum TranscriptionError {
    /// The waveform is not 16 kHz single-channel audio.
    InvalidAudioFormat,
    /// The model configuration could not be loaded at startup.
    ConfigLoadError,
    /// The model weights could not be loaded at startup.
    WeightLoadError,
    /// The decoder produced a malformed distribution (wrong
    /// dimensionality or a NaN entry) in the middle of the loop.
    DecodingError,
    /// A token id fell outside the loaded vocabulary range.
    UnknownTokenId,
}

impl TranscriptionError {
    /// A short diagnostic sentence for this error kind.
    pub fn message(&self) -> &'static str {
        match self {
            TranscriptionError::InvalidAudioFormat => "audio must be 16 kHz single-channel",
            TranscriptionError::ConfigLoadError => "failed to load the model configuration",
            TranscriptionError::WeightLoadError => "failed to load the model weights",
            TranscriptionError::DecodingError => "the decoder produced a malformed distribution",
            TranscriptionError::UnknownTokenId => "token id outside the vocabulary range",
        }
    }
}

} // verus!
