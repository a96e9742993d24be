use whisper_pipeline::audio::{extract, Spectrogram, Waveform};
use whisper_pipeline::config::ModelConfig;
use whisper_pipeline::decoding::{
    argmax, initial_prefix, run_decoding, validate_distribution, DecodingOptions,
};
use whisper_pipeline::error::TranscriptionError;
use whisper_pipeline::floatbits::{is_nan, to_order_key};
use whisper_pipeline::model::{EncoderModel, PassthroughEncoder, TableDecoder};
use whisper_pipeline::pipeline::transcribe;
use whisper_pipeline::vocab::{SpecialToken, Vocabulary};

fn bits(x: f32) -> u32 {
    x.to_bits()
}

fn dist(values: &[f32]) -> Vec<u32> {
    values.iter().map(|v| v.to_bits()).collect()
}

fn test_vocab() -> Vocabulary {
    Vocabulary {
        words: vec!["a".to_string(), "b".to_string(), "ab".to_string()],
        n_languages: 2,
        n_timestamps: 3,
    }
}

fn test_config(vocab_size: usize) -> ModelConfig {
    ModelConfig {
        d_model: 4,
        n_encoder_layers: 1,
        n_decoder_layers: 1,
        n_heads: 1,
        vocab_size,
        n_mels: 4,
        max_audio_ctx: 5,
        max_text_ctx: 8,
    }
}

// A distribution whose single greedy choice is the given index.
fn peaked(vocab_size: usize, peak: usize) -> Vec<u32> {
    let mut v = vec![0.0f32; vocab_size];
    v[peak] = 1.0;
    dist(&v)
}

#[test]
fn nan_bits_classified() {
    assert!(is_nan(bits(f32::NAN)));
    assert!(!is_nan(bits(f32::INFINITY)));
    assert!(!is_nan(bits(f32::NEG_INFINITY)));
    assert!(!is_nan(bits(0.0)));
    assert!(!is_nan(bits(-1.5)));
}

#[test]
fn order_key_orders_like_floats() {
    let xs = [-10.0f32, -1.0, -0.25, 0.0, 0.5, 1.0, 100.0];
    for i in 0..xs.len() {
        for j in 0..xs.len() {
            assert_eq!(
                xs[i] < xs[j],
                to_order_key(bits(xs[i])) < to_order_key(bits(xs[j]))
            );
        }
    }
}

#[test]
fn argmax_picks_largest() {
    assert_eq!(argmax(&dist(&[1.0, 3.0, 2.0])), 1);
    assert_eq!(argmax(&dist(&[-1.0, -0.5, -2.0])), 1);
    assert_eq!(argmax(&dist(&[7.5])), 0);
}

#[test]
fn argmax_ties_go_to_first() {
    assert_eq!(argmax(&dist(&[2.0, 2.0, 1.0])), 0);
    assert_eq!(argmax(&dist(&[0.0, 1.0, 1.0])), 1);
}

#[test]
fn validate_rejects_wrong_dimension() {
    let d = dist(&[0.0, 1.0]);
    assert_eq!(
        validate_distribution(&d, 3),
        Err(TranscriptionError::DecodingError)
    );
    assert_eq!(validate_distribution(&d, 2), Ok(()));
}

#[test]
fn validate_rejects_nan() {
    let d = dist(&[0.0, f32::NAN, 1.0]);
    assert_eq!(
        validate_distribution(&d, 3),
        Err(TranscriptionError::DecodingError)
    );
}

#[test]
fn extract_pads_short_waveforms() {
    let cfg = test_config(13);
    for len in [0usize, 100, 400, 1600] {
        let w = Waveform::new(vec![0i16; len], 16000, 1);
        let sg = extract(&w, &cfg).unwrap();
        assert_eq!(sg.num_frames(), cfg.max_audio_ctx);
        for col in &sg.frames {
            assert_eq!(col.len(), cfg.n_mels);
        }
    }
}

#[test]
fn extract_truncates_long_waveforms() {
    let cfg = test_config(13);
    let w = Waveform::new(vec![0i16; 100_000], 16000, 1);
    let sg = extract(&w, &cfg).unwrap();
    assert_eq!(sg.num_frames(), cfg.max_audio_ctx);
}

#[test]
fn extract_computes_band_features() {
    let cfg = test_config(13);
    // One full frame of unit-amplitude samples: each of the four bands
    // sums 100 squared samples, and log2(1 + 100) floors to 6.
    let w = Waveform::new(vec![1i16; 400], 16000, 1);
    let sg = extract(&w, &cfg).unwrap();
    assert_eq!(sg.frames[0], vec![6u32, 6, 6, 6]);
    // The second frame starts at sample 160 and does not fit: silence.
    assert_eq!(sg.frames[1], vec![0u32, 0, 0, 0]);
}

#[test]
fn extract_stays_in_the_normalized_range() {
    let cfg = test_config(13);
    // Full-scale samples: each band sums 100 squared samples of 2^30,
    // and log2(1 + 100 * 2^30) floors to 36 — inside the fixed range.
    let w = Waveform::new(vec![i16::MIN; 400], 16000, 1);
    let sg = extract(&w, &cfg).unwrap();
    assert_eq!(sg.frames[0], vec![36u32, 36, 36, 36]);
    for col in &sg.frames {
        for v in col {
            assert!(*v <= 39);
        }
    }
}

#[test]
fn extract_rejects_wrong_sample_rate() {
    let cfg = test_config(13);
    let w = Waveform::new(vec![0i16; 8000], 8000, 1);
    assert!(matches!(
        extract(&w, &cfg),
        Err(TranscriptionError::InvalidAudioFormat)
    ));
}

#[test]
fn extract_rejects_multichannel() {
    let cfg = test_config(13);
    let w = Waveform::new(vec![0i16; 16000], 16000, 2);
    assert!(matches!(
        extract(&w, &cfg),
        Err(TranscriptionError::InvalidAudioFormat)
    ));
}

#[test]
fn special_token_ids_follow_the_layout() {
    let v = test_vocab();
    assert_eq!(v.total_size(), 13);
    assert_eq!(v.special_id(SpecialToken::StartOfTranscript), 3);
    assert_eq!(v.special_id(SpecialToken::EndOfText), 4);
    assert_eq!(v.special_id(SpecialToken::Translate), 5);
    assert_eq!(v.special_id(SpecialToken::Transcribe), 6);
    assert_eq!(v.special_id(SpecialToken::NoTimestamps), 7);
    assert_eq!(v.special_id(SpecialToken::Language(0)), 8);
    assert_eq!(v.special_id(SpecialToken::Language(1)), 9);
    assert_eq!(v.special_id(SpecialToken::Timestamp(2)), 12);
    for id in 0..3 {
        assert!(!v.is_special(id));
    }
    for id in 3..13 {
        assert!(v.is_special(id));
    }
    assert!(!v.is_special(13));
}

#[test]
fn decode_empty_sequence_is_empty_text() {
    let v = test_vocab();
    assert_eq!(v.decode_to_text(&vec![]), Ok(String::new()));
}

#[test]
fn decode_concatenates_subwords() {
    let v = test_vocab();
    assert_eq!(v.decode_to_text(&vec![0, 0, 1]), Ok("aab".to_string()));
    assert_eq!(v.decode_to_text(&vec![2, 1]), Ok("abb".to_string()));
}

#[test]
fn decode_strips_special_tokens() {
    let v = test_vocab();
    assert_eq!(v.decode_to_text(&vec![3, 0, 7, 1, 4]), Ok("ab".to_string()));
    assert_eq!(v.decode_to_text(&vec![3, 4]), Ok(String::new()));
}

#[test]
fn decode_rejects_unknown_ids() {
    let v = test_vocab();
    assert_eq!(
        v.decode_to_text(&vec![0, 13]),
        Err(TranscriptionError::UnknownTokenId)
    );
    assert_eq!(
        v.decode_to_text(&vec![99]),
        Err(TranscriptionError::UnknownTokenId)
    );
}

#[test]
fn encode_prefers_the_longest_match() {
    let v = test_vocab();
    assert_eq!(v.encode_text("ab"), Some(vec![2]));
    assert_eq!(v.encode_text("aba"), Some(vec![2, 0]));
    assert_eq!(v.encode_text("ba"), Some(vec![1, 0]));
}

#[test]
fn encode_rejects_out_of_vocabulary_text() {
    let v = test_vocab();
    assert_eq!(v.encode_text("c"), None);
    assert_eq!(v.encode_text("abc"), None);
}

#[test]
fn encode_decode_round_trip() {
    let v = test_vocab();
    for text in ["", "a", "ab", "abba", "aabbab"] {
        let toks = v.encode_text(text).unwrap();
        for t in &toks {
            assert!(!v.is_special(*t));
        }
        assert_eq!(v.decode_to_text(&toks), Ok(text.to_string()));
    }
}

#[test]
fn initial_prefix_seeds_the_markers() {
    let v = test_vocab();
    let p = initial_prefix(
        &v,
        &DecodingOptions {
            language: None,
            translate: false,
        },
    );
    assert_eq!(p, vec![3, 6, 7]);
    let p = initial_prefix(
        &v,
        &DecodingOptions {
            language: Some(1),
            translate: true,
        },
    );
    assert_eq!(p, vec![3, 9, 5, 7]);
}

#[test]
fn passthrough_encoder_keeps_features_and_shape() {
    let enc = PassthroughEncoder {
        ctx_len: 2,
        d_model: 3,
    };
    let sg = Spectrogram {
        frames: vec![vec![7, 8]],
    };
    let a = enc.encode(&sg);
    assert_eq!(a.rows, vec![vec![7u32, 8, 0], vec![0u32, 0, 0]]);
}

#[test]
fn decoding_stops_on_end_of_text() {
    let v = test_vocab();
    let eot = v.special_id(SpecialToken::EndOfText);
    let enc = PassthroughEncoder {
        ctx_len: 2,
        d_model: 3,
    };
    let audio = enc.encode(&Spectrogram { frames: vec![] });
    let dec = TableDecoder {
        table: vec![peaked(13, 0), peaked(13, 2), peaked(13, eot)],
    };
    // Seed of length 3: the table rows for prefix lengths 3.. all pick
    // end-of-text, so exactly one token is emitted.
    let seed = vec![3usize, 6, 7];
    let out = run_decoding(&dec, &audio, &seed, 13, eot, 8).unwrap();
    assert_eq!(out, vec![3, 6, 7, eot]);
}

#[test]
fn decoding_stops_at_max_text_context() {
    let v = test_vocab();
    let eot = v.special_id(SpecialToken::EndOfText);
    let enc = PassthroughEncoder {
        ctx_len: 2,
        d_model: 3,
    };
    let audio = enc.encode(&Spectrogram { frames: vec![] });
    // Never picks end-of-text: the loop must stop at the length cap.
    let dec = TableDecoder {
        table: vec![peaked(13, 0)],
    };
    let seed = vec![3usize];
    let out = run_decoding(&dec, &audio, &seed, 13, eot, 8).unwrap();
    assert_eq!(out.len(), 8);
    assert_eq!(out[0], 3);
    for t in &out[1..] {
        assert_eq!(*t, 0);
    }
}

#[test]
fn decoding_is_deterministic() {
    let v = test_vocab();
    let eot = v.special_id(SpecialToken::EndOfText);
    let enc = PassthroughEncoder {
        ctx_len: 2,
        d_model: 3,
    };
    let audio = enc.encode(&Spectrogram { frames: vec![] });
    let dec = TableDecoder {
        table: vec![peaked(13, 1), peaked(13, 2), peaked(13, 0), peaked(13, eot)],
    };
    let seed = vec![3usize];
    let a = run_decoding(&dec, &audio, &seed, 13, eot, 8).unwrap();
    let b = run_decoding(&dec, &audio, &seed, 13, eot, 8).unwrap();
    assert_eq!(a, b);
}

#[test]
fn decoding_fails_on_nan_distribution() {
    let v = test_vocab();
    let eot = v.special_id(SpecialToken::EndOfText);
    let enc = PassthroughEncoder {
        ctx_len: 2,
        d_model: 3,
    };
    let audio = enc.encode(&Spectrogram { frames: vec![] });
    let mut bad = vec![0.0f32; 13];
    bad[5] = f32::NAN;
    let dec = TableDecoder {
        table: vec![dist(&bad)],
    };
    let seed = vec![3usize];
    assert_eq!(
        run_decoding(&dec, &audio, &seed, 13, eot, 8),
        Err(TranscriptionError::DecodingError)
    );
}

#[test]
fn silent_waveform_transcribes_to_empty_text() {
    let v = test_vocab();
    let cfg = test_config(13);
    let eot = v.special_id(SpecialToken::EndOfText);
    let sot = v.special_id(SpecialToken::StartOfTranscript);
    let enc = PassthroughEncoder {
        ctx_len: cfg.max_audio_ctx,
        d_model: cfg.d_model,
    };
    let dec = TableDecoder {
        table: vec![peaked(13, eot)],
    };
    let opts = DecodingOptions {
        language: None,
        translate: false,
    };
    // One second of silence at 16 kHz, single channel.
    let w = Waveform::new(vec![0i16; 16000], 16000, 1);
    let (text, toks) = transcribe(&enc, &dec, &v, &cfg, &opts, &w).unwrap();
    assert_eq!(toks.first(), Some(&sot));
    assert_eq!(toks.last(), Some(&eot));
    assert_eq!(text, String::new());
}

#[test]
fn transcribe_rejects_wrong_sample_rate_before_any_model_work() {
    let v = test_vocab();
    let cfg = test_config(13);
    let enc = PassthroughEncoder {
        ctx_len: cfg.max_audio_ctx,
        d_model: cfg.d_model,
    };
    // A decoder that would immediately fail: it is never consulted.
    let dec = TableDecoder { table: vec![] };
    let opts = DecodingOptions {
        language: None,
        translate: false,
    };
    let w = Waveform::new(vec![0i16; 8000], 8000, 1);
    assert_eq!(
        transcribe(&enc, &dec, &v, &cfg, &opts, &w),
        Err(TranscriptionError::InvalidAudioFormat)
    );
}

#[test]
fn transcribe_propagates_decoding_errors_without_output() {
    let v = test_vocab();
    let cfg = test_config(13);
    let enc = PassthroughEncoder {
        ctx_len: cfg.max_audio_ctx,
        d_model: cfg.d_model,
    };
    let mut bad = vec![0.0f32; 13];
    bad[0] = f32::NAN;
    let dec = TableDecoder {
        table: vec![dist(&bad)],
    };
    let opts = DecodingOptions {
        language: None,
        translate: false,
    };
    let w = Waveform::new(vec![0i16; 16000], 16000, 1);
    assert_eq!(
        transcribe(&enc, &dec, &v, &cfg, &opts, &w),
        Err(TranscriptionError::DecodingError)
    );
}

#[test]
fn error_messages_name_each_kind() {
    assert!(TranscriptionError::InvalidAudioFormat
        .message()
        .contains("16 kHz"));
    assert!(TranscriptionError::DecodingError
        .message()
        .contains("distribution"));
    assert!(TranscriptionError::UnknownTokenId.message().contains("id"));
    assert!(TranscriptionError::ConfigLoadError
        .message()
        .contains("configuration"));
    assert!(TranscriptionError::WeightLoadError
        .message()
        .contains("weights"));
}

#[test]
fn config_well_formedness_is_checked() {
    let cfg = test_config(13);
    assert!(cfg.is_wf());
    let mut bad = cfg;
    bad.n_mels = 0;
    assert!(!bad.is_wf());
    let mut bad = cfg;
    bad.max_text_ctx = 2;
    assert!(!bad.is_wf());
}
