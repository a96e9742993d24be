//! The immutable model configuration shared by every pipeline stage.

use vstd::prelude::*;

verus! {

/// The sample rate every waveform must arrive at, in hertz.
pub const SAMPLE_RATE: usize = 16000;

/// Samples per analysis frame (25 ms at 16 kHz).
pub const FRAME_SIZE: usize = 400;

/// Samples between the starts of consecutive frames (10 ms at 16 kHz).
pub const HOP_SIZE: usize = 160;

/// Immutable model dimensions, loaded once at startup and then shared
/// read-only by the feature extractor, the encoder and the decoder.
#[derive(Clone, Copy, Debug, PartialEq, Eq, Structural)]
pub struct ModelConfig {
    /// Embedding dimension of the transformer.
    pub d_model: usize,
    /// Number of encoder transformer blocks.
    pub n_encoder_layers: usize,
    /// Number of decoder transformer blocks.
    pub n_decoder_layers: usize,
    /// Attention heads per block.
    pub n_heads: usize,
    /// Size of the token vocabulary, special tokens included.
    pub vocab_size: usize,
    /// Mel-frequency bins per spectrogram frame.
    pub n_mels: usize,
    /// Fixed number of spectrogram time frames the model accepts.
    pub max_audio_ctx: usize,
    /// Hard cap on the length of a generated token sequence.
    pub max_text_ctx: usize,
}

impl ModelConfig {
    /// A configuration the pipeline can run with: every dimension is
    /// positive, the mel bins fit inside one analysis frame, and the
    /// text context leaves room for the seed prefix.
    pub open spec fn wf(self) -> bool {
        &&& self.d_model >= 1
        &&& self.n_encoder_layers >= 1
        &&& self.n_decoder_layers >= 1
        &&& self.n_heads >= 1
        &&& self.vocab_size >= 1
        &&& self.n_mels >= 1
        &&& self.n_mels <= FRAME_SIZE
        &&& self.max_audio_ctx >= 1
        &&& self.max_text_ctx >= 4
    }

    /// Checks at run time that this configuration is one the pipeline
    /// can run with.
    pub fn is_wf(&self) -> (r: bool)
        ensures
            r == self.wf(),
    {
        self.d_model >= 1 && self.n_encoder_layers >= 1 && self.n_decoder_layers >= 1
            && self.n_heads >= 1 && self.vocab_size >= 1 && self.n_mels >= 1
            && self.n_mels <= FRAME_SIZE && self.max_audio_ctx >= 1 && self.max_text_ctx >= 4
    }
}

} // verus!
