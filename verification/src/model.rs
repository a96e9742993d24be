//! The encoder and decoder abstractions, and reference
//! implementations.
//!
//! Per the design, the transformer forward passes are written against
//! trait abstractions so that interchangeable compute backends can
//! supply them. A conforming implementation must be a pure function of
//! its inputs: each trait ties the executable method to a
//! per-implementation specification function, which is what makes the
//! whole decoding pipeline deterministic. The reference
//! implementations here are themselves verified against their
//! specification functions.

use vstd::prelude::*;
use crate::audio::Spectrogram;

verus! {

/// The mathematical matrix a vector of rows stands for.
pub open spec fn matrix_view(rows: Seq<Vec<u32>>) -> Seq<Seq<u32>> {
    rows.map_values(|r: Vec<u32>| r@)
}

/// Pushing a row onto a matrix pushes its view onto the view.
pub proof fn lemma_matrix_view_push(rows: Seq<Vec<u32>>, r: Vec<u32>)
    ensures
        matrix_view(rows.push(r)) == matrix_view(rows).push(r@),
{
    assert(matrix_view(rows.push(r)) =~= matrix_view(rows).push(r@));
}

/// The encoder's output: one row of contextual-embedding values per
/// audio context position, each value carried as a single-precision
/// bit pattern.
pub struct AudioContext {
    /// One embedding row per context position.
    pub rows: Vec<Vec<u32>>,
}

impl View for AudioContext {
    type V = Seq<Seq<u32>>;

    open spec fn view(&self) -> Seq<Seq<u32>> {
        matrix_view(self.rows@)
    }
}

/// An encoder: maps a spectrogram to the audio context the decoder
/// cross-attends over.
pub trait EncoderModel: Sized {
    /// The function this encoder computes on the feature matrix.
    spec fn encode_spec(&self, features: Seq<Seq<u32>>) -> Seq<Seq<u32>>;

    /// Runs the encoder once; the result is determined by the
    /// spectrogram alone.
    fn encode(&self, sg: &Spectrogram) -> (a: AudioContext)
        ensures
            a@ == self.encode_spec(sg@),
    ;
}

/// A decoder: given the audio context and the prefix of previously
/// emitted tokens, produces one distribution over the next token, as
/// single-precision bit patterns.
///
/// Nothing here promises that the distribution is well formed — the
/// decoding loop validates its dimensionality and scans it for NaN
/// entries on every step — only that it is determined by the audio
/// context and the prefix.
pub trait DecoderModel: Sized {
    /// The function this decoder computes.
    spec fn decode_spec(&self, audio: Seq<Seq<u32>>, prefix: Seq<usize>) -> Seq<u32>;

    /// Runs one decoder step; the result is determined by the audio
    /// context and the token prefix alone.
    fn decode_step(&self, audio: &AudioContext, prefix: &Vec<usize>) -> (d: Vec<u32>)
        ensures
            d@ == self.decode_spec(audio@, prefix@),
    ;
}

/// Copies a row of values.
fn copy_row(v: &Vec<u32>) -> (out: Vec<u32>)
    ensures
        out@ == v@,
{
    let mut out: Vec<u32> = Vec::new();
    let mut i: usize = 0;
    while i < v.len()
        invariant
            i <= v@.len(),
            out@ == v@.subrange(0, i as int),
        decreases v@.len() - i,
    {
        out.push(v[i]);
        proof {
            assert(out@ =~= v@.subrange(0, i + 1));
        }
        i = i + 1;
    }
    proof {
        assert(out@ =~= v@);
    }
    out
}

/// A reference encoder that forwards spectrogram features unchanged
/// into a fixed context shape: position `t`, column `c` carries
/// feature `(t, c)` where the spectrogram has one, and zero beyond its
/// bounds. Transformer encoders supplied by a numeric backend
/// implement the same trait in the host application.
pub struct PassthroughEncoder {
    /// Number of audio context positions to produce.
    pub ctx_len: usize,
    /// Width of each embedding row.
    pub d_model: usize,
}

impl PassthroughEncoder {
    /// The fixed-shape forwarding map this encoder computes.
    pub open spec fn passthrough_spec(self, features: Seq<Seq<u32>>) -> Seq<Seq<u32>> {
        Seq::new(
            self.ctx_len as nat,
            |t: int|
                Seq::new(
                    self.d_model as nat,
                    |c: int|
                        if t < features.len() && c < features[t].len() {
                            features[t][c]
                        } else {
                            0u32
                        },
                ),
        )
    }
}

impl EncoderModel for PassthroughEncoder {
    open spec fn encode_spec(&self, features: Seq<Seq<u32>>) -> Seq<Seq<u32>> {
        self.passthrough_spec(features)
    }

    fn encode(&self, sg: &Spectrogram) -> (a: AudioContext)
    {
        let ghost target = self.passthrough_spec(sg@);
        let mut rows: Vec<Vec<u32>> = Vec::new();
        let mut t: usize = 0;
        while t < self.ctx_len
            invariant
                t <= self.ctx_len,
                target == self.passthrough_spec(sg@),
                matrix_view(rows@) == target.subrange(0, t as int),
            decreases self.ctx_len - t,
        {
            let mut row: Vec<u32> = Vec::new();
            let mut c: usize = 0;
            while c < self.d_model
                invariant
                    t < self.ctx_len,
                    c <= self.d_model,
                    target == self.passthrough_spec(sg@),
                    row@ == target[t as int].subrange(0, c as int),
                decreases self.d_model - c,
            {
                let v: u32 = if t < sg.frames.len() && c < sg.frames[t].len() {
                    sg.frames[t][c]
                } else {
                    0
                };
                row.push(v);
                proof {
                    assert(row@ =~= target[t as int].subrange(0, c + 1));
                }
                c = c + 1;
            }
            proof {
                assert(row@ =~= target[t as int]);
            }
            let ghost prev = rows@;
            rows.push(row);
            proof {
                lemma_matrix_view_push(prev, row);
                assert(matrix_view(rows@) =~= target.subrange(0, t + 1));
            }
            t = t + 1;
        }
        let a = AudioContext { rows };
        proof {
            assert(matrix_view(a.rows@) =~= target);
        }
        a
    }
}

/// A decoder driven by a fixed table: step `k` (the prefix length)
/// returns row `k`, and every step past the last row repeats it. It is
/// deterministic by construction and exercises the decoding loop
/// without a numeric backend; transformer decoders implement the same
/// trait in the host application.
pub struct TableDecoder {
    /// One distribution per step, as single-precision bit patterns.
    pub table: Vec<Vec<u32>>,
}

impl TableDecoder {
    /// Which table row a prefix of the given length selects.
    pub open spec fn row_index(self, prefix_len: int) -> int {
        if prefix_len < self.table@.len() {
            prefix_len
        } else {
            self.table@.len() - 1
        }
    }
}

impl DecoderModel for TableDecoder {
    open spec fn decode_spec(&self, audio: Seq<Seq<u32>>, prefix: Seq<usize>) -> Seq<u32> {
        if self.table@.len() == 0 {
            Seq::empty()
        } else {
            self.table@[self.row_index(prefix.len() as int)]@
        }
    }

    fn decode_step(&self, audio: &AudioContext, prefix: &Vec<usize>) -> (d: Vec<u32>)
    {
        if self.table.len() == 0 {
            Vec::new()
        } else {
            let idx = if prefix.len() < self.table.len() {
                prefix.len()
            } else {
                self.table.len() - 1
            };
            copy_row(&self.table[idx])
        }
    }
}

} // verus!
