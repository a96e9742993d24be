//! The autoregressive decoding loop.
//!
//! The loop seeds the token sequence with the start-of-transcript
//! marker (and, per configuration, language and task markers), then
//! repeatedly asks the decoder for a distribution over the next token,
//! validates it, and appends the greedy argmax choice. It stops when
//! the chosen token is end-of-text or the sequence reaches the maximum
//! text context length, and fails with `DecodingError` the moment a
//! distribution has the wrong dimensionality or holds a NaN entry.
//!
//! `greedy_run` is the loop's exact mathematical counterpart: the
//! executable loop returns precisely what it denotes, which is what
//! makes greedy decoding deterministic.

use vstd::prelude::*;
use crate::error::TranscriptionError;
use crate::floatbits::is_nan;
use crate::floatbits::is_nan_bits;
use crate::floatbits::order_key;
use crate::floatbits::to_order_key;
use crate::model::AudioContext;
use crate::model::DecoderModel;
use crate::vocab::SpecialToken;
use crate::vocab::Vocabulary;

verus! {

/// A distribution the loop accepts: one entry per vocabulary id and no
/// NaN entry.
pub open spec fn dist_wf(d: Seq<u32>, vocab_size: int) -> bool {
    &&& d.len() == vocab_size
    &&& forall|i: int| 0 <= i < d.len() ==> !is_nan_bits(#[trigger] d[i])
}

/// Checks a decoder distribution for the right dimensionality and the
/// absence of NaN entries; every malformed distribution is a
/// `DecodingError`.
pub fn validate_distribution(d: &Vec<u32>, vocab_size: usize) -> (r: Result<
    (),
    TranscriptionError,
>)
    ensures
        r is Ok <==> dist_wf(d@, vocab_size as int),
        r is Err ==> r->Err_0 == TranscriptionError::DecodingError,
{
    if d.len() != vocab_size {
        return Err(TranscriptionError::DecodingError);
    }
    let mut i: usize = 0;
    while i < d.len()
        invariant
            i <= d@.len(),
            forall|k: int| 0 <= k < i ==> !is_nan_bits(#[trigger] d@[k]),
        decreases d@.len() - i,
    {
        if is_nan(d[i]) {
            return Err(TranscriptionError::DecodingError);
        }
        i = i + 1;
    }
    Ok(())
}

/// The index the greedy policy picks from a distribution: the first
/// position whose ranking key is maximal.
pub open spec fn first_max_index(d: Seq<u32>) -> int
    decreases d.len(),
{
    if d.len() <= 1 {
        0
    } else {
        let r = first_max_index(d.drop_last());
        if order_key(d.last()) > order_key(d[r]) {
            d.len() - 1
        } else {
            r
        }
    }
}

/// The greedy pick is in range, maximal, and the first maximum.
pub proof fn lemma_first_max_index_props(d: Seq<u32>)
    requires
        d.len() > 0,
    ensures
        0 <= first_max_index(d) < d.len(),
        forall|j: int|
            0 <= j < d.len() ==> order_key(#[trigger] d[j]) <= order_key(d[first_max_index(d)]),
        forall|j: int|
            0 <= j < first_max_index(d) ==> order_key(#[trigger] d[j]) < order_key(
                d[first_max_index(d)],
            ),
    decreases d.len(),
{
    if d.len() > 1 {
        let dl = d.drop_last();
        lemma_first_max_index_props(dl);
        let r = first_max_index(dl);
        assert forall|j: int| 0 <= j < dl.len() implies order_key(#[trigger] d[j]) <= order_key(
            d[r],
        ) by {
            assert(dl[j] == d[j]);
            assert(order_key(dl[j]) <= order_key(dl[r]));
        }
        assert forall|j: int| 0 <= j < r implies order_key(#[trigger] d[j]) < order_key(d[r]) by {
            assert(dl[j] == d[j]);
            assert(order_key(dl[j]) < order_key(dl[r]));
        }
    }
}

/// Greedy argmax over a distribution of single-precision bit patterns,
/// ranked by their total-order keys; ties go to the first position.
pub fn argmax(d: &Vec<u32>) -> (r: usize)
    requires
        d@.len() > 0,
    ensures
        r as int == first_max_index(d@),
        r < d@.len(),
        forall|j: int|
            0 <= j < d@.len() ==> order_key(#[trigger] d@[j]) <= order_key(d@[r as int]),
        forall|j: int| 0 <= j < r ==> order_key(#[trigger] d@[j]) < order_key(d@[r as int]),
{
    let mut best: usize = 0;
    let mut bk = to_order_key(d[0]);
    let mut i: usize = 1;
    while i < d.len()
        invariant
            1 <= i <= d@.len(),
            best < i,
            best as int == first_max_index(d@.subrange(0, i as int)),
            bk == order_key(d@[best as int]),
        decreases d@.len() - i,
    {
        let k = to_order_key(d[i]);
        proof {
            assert(d@.subrange(0, i + 1).drop_last() =~= d@.subrange(0, i as int));
            assert(d@.subrange(0, i + 1).last() == d@[i as int]);
        }
        if k > bk {
            best = i;
            bk = k;
        }
        i = i + 1;
    }
    proof {
        assert(d@.subrange(0, d@.len() as int) =~= d@);
        lemma_first_max_index_props(d@);
    }
    best
}

/// What one decoding run denotes, from a given token prefix with fuel
/// for so many further steps: ask the decoder, reject a malformed
/// distribution, append the greedy choice, stop on end-of-text or when
/// the fuel — the room left below the maximum text context length —
/// runs out.
pub open spec fn greedy_run<D: DecoderModel>(
    dec: D,
    audio: Seq<Seq<u32>>,
    vocab_size: int,
    eot: usize,
    tokens: Seq<usize>,
    fuel: nat,
) -> Result<Seq<usize>, TranscriptionError>
    decreases fuel,
{
    if fuel == 0 {
        Ok(tokens)
    } else {
        let d = dec.decode_spec(audio, tokens);
        if !dist_wf(d, vocab_size) {
            Err(TranscriptionError::DecodingError)
        } else {
            let t = first_max_index(d) as usize;
            if t == eot {
                Ok(tokens.push(t))
            } else {
                greedy_run(dec, audio, vocab_size, eot, tokens.push(t), (fuel - 1) as nat)
            }
        }
    }
}

/// Law: a decoding run always terminates within `fuel` further steps.
/// A successful run keeps its seed prefix unchanged, appends at most
/// `fuel` tokens — each a valid vocabulary id — and either used all
/// its room or ended in the end-of-text token; the only failure is
/// `DecodingError`.
pub proof fn lemma_greedy_run_props<D: DecoderModel>(
    dec: D,
    audio: Seq<Seq<u32>>,
    vocab_size: int,
    eot: usize,
    tokens: Seq<usize>,
    fuel: nat,
)
    requires
        1 <= vocab_size <= usize::MAX,
    ensures
        (match greedy_run(dec, audio, vocab_size, eot, tokens, fuel) {
            Ok(s) => {
                &&& tokens.len() <= s.len() <= tokens.len() + fuel
                &&& s.subrange(0, tokens.len() as int) == tokens
                &&& forall|i: int|
                    tokens.len() <= i < s.len() ==> (#[trigger] s[i] as int) < vocab_size
                &&& (fuel > 0 ==> s.len() == tokens.len() + fuel || (s.len() > tokens.len()
                    && s.last() == eot))
            },
            Err(e) => e == TranscriptionError::DecodingError,
        }),
    decreases fuel,
{
    if fuel > 0 {
        let d = dec.decode_spec(audio, tokens);
        if dist_wf(d, vocab_size) {
            lemma_first_max_index_props(d);
            let t = first_max_index(d) as usize;
            assert(t as int == first_max_index(d));
            assert((t as int) < vocab_size);
            if t != eot {
                lemma_greedy_run_props(dec, audio, vocab_size, eot, tokens.push(t), (fuel - 1)
                    as nat);
                match greedy_run(dec, audio, vocab_size, eot, tokens.push(t), (fuel - 1) as nat) {
                    Ok(s) => {
                        assert(s.subrange(0, tokens.push(t).len() as int) == tokens.push(t));
                        assert(s.subrange(0, tokens.len() as int) =~= s.subrange(
                            0,
                            tokens.push(t).len() as int,
                        ).subrange(0, tokens.len() as int));
                        assert(tokens.push(t).subrange(0, tokens.len() as int) =~= tokens);
                        assert(s[tokens.len() as int] == tokens.push(t)[tokens.len() as int]);
                        assert forall|i: int| tokens.len() <= i < s.len() implies (#[trigger] s[i]
                            as int) < vocab_size by {
                            if i == tokens.len() {
                                assert(s[i] == t);
                            }
                        }
                    },
                    Err(_) => {},
                }
            } else {
                assert(tokens.push(t).subrange(0, tokens.len() as int) =~= tokens);
            }
        }
    } else {
        assert(tokens.subrange(0, tokens.len() as int) =~= tokens);
    }
}

/// Law: greedy decoding is deterministic. Two runs over the same
/// decoder, the same audio context and the same seed denote the same
/// outcome — token for token.
pub proof fn lemma_greedy_deterministic<D: DecoderModel>(
    dec: D,
    audio: Seq<Seq<u32>>,
    vocab_size: int,
    eot: usize,
    tokens: Seq<usize>,
    fuel: nat,
    r1: Result<Seq<usize>, TranscriptionError>,
    r2: Result<Seq<usize>, TranscriptionError>,
)
    requires
        r1 == greedy_run(dec, audio, vocab_size, eot, tokens, fuel),
        r2 == greedy_run(dec, audio, vocab_size, eot, tokens, fuel),
    ensures
        r1 == r2,
{
}

/// Which optional markers seed a decoding run.
pub struct DecodingOptions {
    /// Index of the language tag to seed with, if any.
    pub language: Option<usize>,
    /// Seed the translate task marker instead of transcribe.
    pub translate: bool,
}

impl DecodingOptions {
    /// The chosen language tag, if any, exists in the vocabulary.
    pub open spec fn wf(self, vocab: Vocabulary) -> bool {
        match self.language {
            Some(k) => k < vocab.n_languages,
            None => true,
        }
    }
}

/// The seed prefix of a decoding run: start-of-transcript, then the
/// configured language tag, then the task marker, then no-timestamps.
pub open spec fn spec_initial_prefix(vocab: Vocabulary, opts: DecodingOptions) -> Seq<usize> {
    let sot = seq![vocab.spec_special_id(SpecialToken::StartOfTranscript) as usize];
    let lang = match opts.language {
        Some(k) => seq![vocab.spec_special_id(SpecialToken::Language(k)) as usize],
        None => Seq::empty(),
    };
    let task = if opts.translate {
        seq![vocab.spec_special_id(SpecialToken::Translate) as usize]
    } else {
        seq![vocab.spec_special_id(SpecialToken::Transcribe) as usize]
    };
    let nts = seq![vocab.spec_special_id(SpecialToken::NoTimestamps) as usize];
    sot + lang + task + nts
}

/// Builds the seed prefix of a decoding run.
pub fn initial_prefix(vocab: &Vocabulary, opts: &DecodingOptions) -> (p: Vec<usize>)
    requires
        vocab.wf(),
        opts.wf(*vocab),
    ensures
        p@ == spec_initial_prefix(*vocab, *opts),
        3 <= p@.len() <= 4,
        p@[0] == vocab.spec_special_id(SpecialToken::StartOfTranscript),
        forall|i: int| 0 <= i < p@.len() ==> vocab.spec_is_special(#[trigger] p@[i] as int),
{
    let mut p: Vec<usize> = Vec::new();
    p.push(vocab.special_id(SpecialToken::StartOfTranscript));
    match opts.language {
        Some(k) => {
            p.push(vocab.special_id(SpecialToken::Language(k)));
        },
        None => {},
    }
    if opts.translate {
        p.push(vocab.special_id(SpecialToken::Translate));
    } else {
        p.push(vocab.special_id(SpecialToken::Transcribe));
    }
    p.push(vocab.special_id(SpecialToken::NoTimestamps));
    proof {
        assert(p@ =~= spec_initial_prefix(*vocab, *opts));
    }
    p
}

/// Copies a token sequence.
fn copy_tokens(v: &Vec<usize>) -> (out: Vec<usize>)
    ensures
        out@ == v@,
{
    let mut out: Vec<usize> = Vec::new();
    let mut i: usize = 0;
    while i < v.len()
        invariant
            i <= v@.len(),
            out@ == v@.subrange(0, i as int),
        decreases v@.len() - i,
    {
        out.push(v[i]);
        proof {
            assert(out@ =~= v@.subrange(0, i + 1));
        }
        i = i + 1;
    }
    proof {
        assert(out@ =~= v@);
    }
    out
}

/// Drives the decoder autoregressively from the given seed prefix.
///
/// Returns exactly what `greedy_run` denotes on the same inputs: the
/// sequence grows by one greedy choice per step and the loop stops on
/// end-of-text, at the maximum text context length, or with
/// `DecodingError` on the first malformed distribution.
#[verifier::loop_isolation(false)]
pub fn run_decoding<D: DecoderModel>(
    dec: &D,
    audio: &AudioContext,
    prefix: &Vec<usize>,
    vocab_size: usize,
    eot: usize,
    max_text_ctx: usize,
) -> (r: Result<Vec<usize>, TranscriptionError>)
    requires
        vocab_size >= 1,
        prefix@.len() <= max_text_ctx,
    ensures
        ({
            let s = greedy_run(
                *dec,
                audio@,
                vocab_size as int,
                eot,
                prefix@,
                (max_text_ctx - prefix@.len()) as nat,
            );
            &&& (r is Ok <==> s is Ok)
            &&& (r is Ok ==> r->Ok_0@ == s->Ok_0)
            &&& (r is Err ==> r->Err_0 == s->Err_0)
        }),
{
    let ghost s0 = greedy_run(
        *dec,
        audio@,
        vocab_size as int,
        eot,
        prefix@,
        (max_text_ctx - prefix@.len()) as nat,
    );
    let mut tokens = copy_tokens(prefix);
    while tokens.len() < max_text_ctx
        invariant
            vocab_size >= 1,
            tokens@.len() <= max_text_ctx,
            s0 == greedy_run(
                *dec,
                audio@,
                vocab_size as int,
                eot,
                tokens@,
                (max_text_ctx - tokens@.len()) as nat,
            ),
        decreases max_text_ctx - tokens@.len(),
    {
        let ghost pre = tokens@;
        let ghost fuel = (max_text_ctx - tokens@.len()) as nat;
        let d = dec.decode_step(audio, &tokens);
        proof {
            assert(fuel > 0);
            assert(d@ == dec.decode_spec(audio@, pre));
            assert(s0 == greedy_run(*dec, audio@, vocab_size as int, eot, pre, fuel));
        }
        match validate_distribution(&d, vocab_size) {
            Err(e) => {
                proof {
                    assert(!dist_wf(d@, vocab_size as int));
                    assert(s0 == Err::<Seq<usize>, TranscriptionError>(
                        TranscriptionError::DecodingError,
                    ));
                }
                return Err(e);
            },
            Ok(()) => {},
        }
        let t = argmax(&d);
        proof {
            assert(dist_wf(d@, vocab_size as int));
            assert(t as int == first_max_index(d@));
            assert(t == (first_max_index(d@) as usize));
        }
        tokens.push(t);
        proof {
            assert(tokens@ == pre.push(t));
            if t == eot {
                assert(s0 == Ok::<Seq<usize>, TranscriptionError>(pre.push(t)));
            } else {
                assert(s0 == greedy_run(
                    *dec,
                    audio@,
                    vocab_size as int,
                    eot,
                    pre.push(t),
                    (fuel - 1) as nat,
                ));
            }
        }
        if t == eot {
            return Ok(tokens);
        }
    }
    proof {
        assert(s0 == greedy_run(
            *dec,
            audio@,
            vocab_size as int,
            eot,
            tokens@,
            0,
        ));
    }
    Ok(tokens)
}

} // verus!
