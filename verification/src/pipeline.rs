//! The transcription orchestrator: feature extraction, encoding, the
//! decoding loop, and detokenization, run in sequence with the first
//! failure surfaced unchanged.

use vstd::prelude::*;
use crate::audio::extract;
use crate::audio::spectrogram_frames;
use crate::audio::Waveform;
use crate::config::ModelConfig;
use crate::decoding::greedy_run;
use crate::decoding::initial_prefix;
use crate::decoding::lemma_greedy_run_props;
use crate::decoding::run_decoding;
use crate::decoding::spec_initial_prefix;
use crate::decoding::DecodingOptions;
use crate::error::TranscriptionError;
use crate::model::DecoderModel;
use crate::model::EncoderModel;
use crate::vocab::SpecialToken;
use crate::vocab::Vocabulary;

verus! {

/// What one transcription call denotes: reject a malformed waveform,
/// otherwise extract features, encode them, run the greedy decoding
/// loop from the seed prefix, and detokenize the resulting sequence.
pub open spec fn spec_transcribe<E: EncoderModel, D: DecoderModel>(
    enc: E,
    dec: D,
    vocab: Vocabulary,
    cfg: ModelConfig,
    opts: DecodingOptions,
    w: Waveform,
) -> Result<(Seq<char>, Seq<usize>), TranscriptionError> {
    if !w.format_ok() {
        Err(TranscriptionError::InvalidAudioFormat)
    } else {
        let audio = enc.encode_spec(spectrogram_frames(w.samples@, cfg));
        let seed = spec_initial_prefix(vocab, opts);
        let eot = vocab.spec_special_id(SpecialToken::EndOfText) as usize;
        match greedy_run(
            dec,
            audio,
            cfg.vocab_size as int,
            eot,
            seed,
            (cfg.max_text_ctx - seed.len()) as nat,
        ) {
            Ok(toks) => Ok((vocab.text_of(toks), toks)),
            Err(e) => Err(e),
        }
    }
}

/// Runs one whole transcription: waveform in, text and raw token
/// sequence out.
///
/// The call either fully succeeds or surfaces the first stage failure
/// without partial output: a malformed waveform yields
/// `InvalidAudioFormat` before any feature work, a malformed decoder
/// distribution yields `DecodingError`, and nothing else can fail —
/// every generated id is a valid vocabulary id, so detokenization is
/// total here. On success the token sequence starts with the
/// start-of-transcript marker, stays within the maximum text context
/// length, ends in end-of-text unless that maximum was reached, and
/// the text is exactly its detokenization.
pub fn transcribe<E: EncoderModel, D: DecoderModel>(
    enc: &E,
    dec: &D,
    vocab: &Vocabulary,
    cfg: &ModelConfig,
    opts: &DecodingOptions,
    w: &Waveform,
) -> (r: Result<(String, Vec<usize>), TranscriptionError>)
    requires
        cfg.wf(),
        vocab.wf(),
        opts.wf(*vocab),
        cfg.vocab_size == vocab.spec_total(),
    ensures
        ({
            let s = spec_transcribe(*enc, *dec, *vocab, *cfg, *opts, *w);
            &&& (r is Ok <==> s is Ok)
            &&& (r is Ok ==> r->Ok_0.0@ == s->Ok_0.0 && r->Ok_0.1@ == s->Ok_0.1)
            &&& (r is Err ==> r->Err_0 == s->Err_0)
        }),
        !w.format_ok() <==> r == Err::<(String, Vec<usize>), TranscriptionError>(
            TranscriptionError::InvalidAudioFormat,
        ),
        r is Err ==> (r->Err_0 == TranscriptionError::InvalidAudioFormat || r->Err_0
            == TranscriptionError::DecodingError),
        r is Ok ==> {
            let toks = r->Ok_0.1@;
            &&& 1 <= toks.len() <= cfg.max_text_ctx
            &&& toks[0] == vocab.spec_special_id(SpecialToken::StartOfTranscript)
            &&& (toks.last() == vocab.spec_special_id(SpecialToken::EndOfText) || toks.len()
                == cfg.max_text_ctx)
            &&& r->Ok_0.0@ == vocab.text_of(toks)
        },
{
    let sg = match extract(w, cfg) {
        Ok(sg) => sg,
        Err(e) => {
            return Err(e);
        },
    };
    let audio = enc.encode(&sg);
    let seed = initial_prefix(vocab, opts);
    let eot = vocab.special_id(SpecialToken::EndOfText);
    let vocab_size = vocab.total_size();
    proof {
        lemma_greedy_run_props(
            *dec,
            audio@,
            vocab_size as int,
            eot,
            seed@,
            (cfg.max_text_ctx - seed@.len()) as nat,
        );
    }
    let toks = match run_decoding(dec, &audio, &seed, vocab_size, eot, cfg.max_text_ctx) {
        Ok(toks) => toks,
        Err(e) => {
            return Err(e);
        },
    };
    proof {
        assert forall|i: int| 0 <= i < toks@.len() implies vocab.spec_is_known(
            #[trigger] toks@[i] as int,
        ) by {
            if i < seed@.len() {
                assert(toks@.subrange(0, seed@.len() as int) == seed@);
                assert(toks@[i] == seed@[i]);
            }
        }
    }
    let text = match vocab.decode_to_text(&toks) {
        Ok(text) => text,
        Err(e) => {
            return Err(e);
        },
    };
    Ok((text, toks))
}

} // verus!
