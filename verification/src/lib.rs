//! A verified speech-transcription pipeline: feature extraction over
//! fixed-point audio, a vocabulary with special control tokens, and a
//! greedy autoregressive decoding loop, each with a full functional
//! contract. Numeric model backends plug in through the encoder and
//! decoder traits.

pub mod audio;
pub mod config;
pub mod decoding;
pub mod error;
pub mod floatbits;
pub mod model;
pub mod pipeline;
pub mod vocab;
