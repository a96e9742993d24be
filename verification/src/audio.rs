//! Waveforms and log-compressed band-energy feature extraction.
//!
//! A waveform carries 16 kHz single-channel audio as fixed-point
//! samples: the signed 16-bit value `v` stands for the normalized
//! amplitude `v / 32768`, so the usual floating-point range [-1, 1]
//! maps onto the full signed range. Extraction slices the signal into
//! overlapping analysis frames, splits each frame into equal-width
//! frequency bands, and logarithmically compresses each band's energy.
//! The time axis is always padded with silence or truncated to the
//! model's fixed audio context length.

use vstd::prelude::*;
use vstd::arithmetic::mul::lemma_mul_inequality;
use vstd::arithmetic::div_mod::lemma_fundamental_div_mod;
use vstd::arithmetic::power2::pow2;
use vstd::arithmetic::power2::lemma_pow2_unfold;
use vstd::arithmetic::power2::lemma_pow2_pos;
use vstd::arithmetic::power2::lemma2_to64;
use crate::config::ModelConfig;
use crate::config::SAMPLE_RATE;
use crate::config::FRAME_SIZE;
use crate::config::HOP_SIZE;
use crate::error::TranscriptionError;

verus! {

/// A single-channel waveform of fixed-point samples (each `i16` value
/// `v` encodes the amplitude `v / 32768`), together with the rate and
/// channel count the loader reported.
pub struct Waveform {
    /// The samples, in time order.
    pub samples: Vec<i16>,
    /// Samples per second, as reported by the loader.
    pub sample_rate: usize,
    /// Channel count, as reported by the loader.
    pub channels: usize,
}

impl Waveform {
    /// Wraps loader output into a waveform.
    pub fn new(samples: Vec<i16>, sample_rate: usize, channels: usize) -> (w: Waveform)
        ensures
            w.samples == samples,
            w.sample_rate == sample_rate,
            w.channels == channels,
    {
        Waveform { samples, sample_rate, channels }
    }

    /// The format the whole pipeline demands: 16 kHz, one channel.
    pub open spec fn format_ok(self) -> bool {
        self.sample_rate == SAMPLE_RATE && self.channels == 1
    }
}

/// A fixed-shape feature matrix: exactly `max_audio_ctx` time frames,
/// each holding `n_mels` band values (stored frame-major).
pub struct Spectrogram {
    /// One column of band features per time frame.
    pub frames: Vec<Vec<u32>>,
}

impl View for Spectrogram {
    type V = Seq<Seq<u32>>;

    open spec fn view(&self) -> Seq<Seq<u32>> {
        self.frames@.map_values(|c: Vec<u32>| c@)
    }
}

impl Spectrogram {
    /// The fixed shape the encoder requires: `max_audio_ctx` frames of
    /// `n_mels` values each.
    pub open spec fn wf(self, cfg: ModelConfig) -> bool {
        &&& self@.len() == cfg.max_audio_ctx
        &&& forall|t: int| 0 <= t < self@.len() ==> (#[trigger] self@[t]).len() == cfg.n_mels
    }

    /// The number of time frames.
    pub fn num_frames(&self) -> (n: usize)
        ensures
            n == self@.len(),
    {
        self.frames.len()
    }
}

/// Sum of squared samples over `count` samples starting at `start`.
pub open spec fn band_energy(samples: Seq<i16>, start: int, count: nat) -> int
    decreases count,
{
    if count == 0 {
        0
    } else {
        band_energy(samples, start, (count - 1) as nat) + samples[start + count - 1]
            * samples[start + count - 1]
    }
}

/// Floor of the base-two logarithm, with 0 and 1 both mapping to 0.
pub open spec fn log2_floor(n: nat) -> nat
    decreases n,
{
    if n <= 1 {
        0
    } else {
        1 + log2_floor(n / 2)
    }
}

/// Width in samples of one frequency band of an analysis frame.
pub open spec fn band_width(n_mels: int) -> int {
    FRAME_SIZE as int / n_mels
}

/// The feature value of band `b` of the frame starting at `start`:
/// logarithmically compressed band energy.
pub open spec fn frame_feature(samples: Seq<i16>, start: int, n_mels: int, b: int) -> u32 {
    log2_floor((1 + band_energy(samples, start + b * band_width(n_mels), band_width(n_mels) as nat))
        as nat) as u32
}

/// The whole feature column of the frame starting at `start`.
pub open spec fn frame_column(samples: Seq<i16>, start: int, n_mels: int) -> Seq<u32> {
    Seq::new(n_mels as nat, |b: int| frame_feature(samples, start, n_mels, b))
}

/// The column a silent frame produces: all bands at zero.
pub open spec fn silence_column(n_mels: int) -> Seq<u32> {
    Seq::new(n_mels as nat, |b: int| 0u32)
}

/// What extraction returns on a well-formed waveform: frame `t` covers
/// samples `[t * HOP_SIZE, t * HOP_SIZE + FRAME_SIZE)` when the signal
/// is long enough, and is silence padding otherwise; exactly
/// `max_audio_ctx` frames regardless of the signal length.
pub open spec fn spectrogram_frames(samples: Seq<i16>, cfg: ModelConfig) -> Seq<Seq<u32>> {
    Seq::new(
        cfg.max_audio_ctx as nat,
        |t: int|
            if t * HOP_SIZE + FRAME_SIZE <= samples.len() {
                frame_column(samples, t * HOP_SIZE, cfg.n_mels as int)
            } else {
                silence_column(cfg.n_mels as int)
            },
    )
}

/// Any sample's squared value is non-negative and at most `2^30`;
/// hence a band's energy is bounded by `count * 2^30`.
pub proof fn lemma_band_energy_bounds(samples: Seq<i16>, start: int, count: nat)
    ensures
        0 <= band_energy(samples, start, count) <= count * 0x4000_0000,
    decreases count,
{
    if count > 0 {
        lemma_band_energy_bounds(samples, start, (count - 1) as nat);
        let s = samples[start + count - 1] as int;
        assert(0 <= s * s <= 0x4000_0000) by (nonlinear_arith)
            requires
                -0x8000 <= s <= 0x7fff,
        ;
    }
}

/// The base-two logarithm floor is monotone.
proof fn lemma_log2_floor_mono(a: nat, b: nat)
    requires
        a <= b,
    ensures
        log2_floor(a) <= log2_floor(b),
    decreases b,
{
    if a > 1 {
        lemma_log2_floor_mono(a / 2, b / 2);
    }
}

/// Law: extraction normalizes. Every value of every frame the
/// extractor can produce lies in the fixed range `[0, 39]`: a band
/// sums at most `FRAME_SIZE` squared samples of at most `2^30` each,
/// and the logarithmic compression of that energy floors below 40.
pub proof fn lemma_feature_range(samples: Seq<i16>, cfg: ModelConfig, t: int, b: int)
    requires
        cfg.wf(),
        0 <= t < cfg.max_audio_ctx,
        0 <= b < cfg.n_mels,
    ensures
        spectrogram_frames(samples, cfg)[t][b] <= 39,
{
    let col = spectrogram_frames(samples, cfg)[t];
    if t * HOP_SIZE + FRAME_SIZE <= samples.len() {
        let width = band_width(cfg.n_mels as int);
        lemma_band_energy_bounds(samples, t * HOP_SIZE + b * width, width as nat);
        assert(width <= FRAME_SIZE as int);
        let e = band_energy(samples, t * HOP_SIZE + b * width, width as nat);
        assert(e <= 400 * 0x4000_0000);
        lemma_log2_floor_mono((1 + e) as nat, 0x8000000000 as nat);
        assert(log2_floor(0x8000000000 as nat) == 39) by {
            reveal_with_fuel(log2_floor, 41);
        }
    }
}

/// Computes the floor of the base-two logarithm of `n`.
fn log2_floor_exec(n: u64) -> (r: u32)
    ensures
        r as nat == log2_floor(n as nat),
{
    proof {
        lemma2_to64();
        assert((u64::MAX as nat) < pow2(64));
    }
    let mut v: u64 = n;
    let mut c: u32 = 0;
    while v > 1
        invariant
            c <= 64,
            (v as nat) < pow2((64 - c) as nat),
            c as nat + log2_floor(v as nat) == log2_floor(n as nat),
        decreases v,
    {
        proof {
            lemma2_to64();
            assert(c < 64);
            lemma_pow2_unfold((64 - c) as nat);
            lemma_pow2_pos((63 - c) as nat);
            assert((v as nat) / 2 < pow2((63 - c) as nat));
        }
        v = v / 2;
        c = c + 1;
    }
    c
}

/// Sums the squared samples of one frequency band.
fn band_energy_exec(samples: &Vec<i16>, lo: usize, count: usize) -> (e: u64)
    requires
        lo + count <= samples.len(),
        count <= FRAME_SIZE,
    ensures
        e as int == band_energy(samples@, lo as int, count as nat),
{
    let mut e: u64 = 0;
    let mut i: usize = 0;
    while i < count
        invariant
            i <= count,
            lo + count <= samples.len(),
            count <= FRAME_SIZE,
            e as int == band_energy(samples@, lo as int, i as nat),
            e as int <= i * 0x4000_0000,
        decreases count - i,
    {
        let s = samples[lo + i];
        proof {
            assert(0 <= (s as int) * (s as int) <= 0x4000_0000) by (nonlinear_arith)
                requires
                    -0x8000 <= s as int <= 0x7fff,
            ;
        }
        let sq = (s as i64) * (s as i64);
        e = e + (sq as u64);
        i = i + 1;
    }
    e
}

/// Computes the feature column of the analysis frame starting at
/// `start`.
fn compute_frame(samples: &Vec<i16>, start: usize, n_mels: usize, width: usize) -> (col: Vec<u32>)
    requires
        start + FRAME_SIZE <= samples.len(),
        1 <= n_mels <= FRAME_SIZE,
        width == FRAME_SIZE / n_mels,
    ensures
        col@ == frame_column(samples@, start as int, n_mels as int),
{
    proof {
        lemma_fundamental_div_mod(FRAME_SIZE as int, n_mels as int);
        assert(n_mels * width <= FRAME_SIZE);
    }
    let mut col: Vec<u32> = Vec::new();
    let mut b: usize = 0;
    while b < n_mels
        invariant
            b <= n_mels,
            1 <= n_mels <= FRAME_SIZE,
            width == FRAME_SIZE / n_mels,
            n_mels * width <= FRAME_SIZE,
            start + FRAME_SIZE <= samples.len(),
            col@ == frame_column(samples@, start as int, n_mels as int).subrange(0, b as int),
        decreases n_mels - b,
    {
        proof {
            lemma_mul_inequality(b as int + 1, n_mels as int, width as int);
            assert((b as int) * width + width == (b as int + 1) * width) by (nonlinear_arith);
            lemma_band_energy_bounds(samples@, start + (b as int) * width, width as nat);
        }
        let lo = start + b * width;
        let e = band_energy_exec(samples, lo, width);
        let f = log2_floor_exec(1 + e);
        col.push(f);
        proof {
            assert(col@ =~= frame_column(samples@, start as int, n_mels as int).subrange(
                0,
                b as int + 1,
            ));
        }
        b = b + 1;
    }
    proof {
        assert(col@ =~= frame_column(samples@, start as int, n_mels as int));
    }
    col
}

/// Builds one silence-padding column.
fn silence_frame(n_mels: usize) -> (col: Vec<u32>)
    ensures
        col@ == silence_column(n_mels as int),
{
    let mut col: Vec<u32> = Vec::new();
    let mut b: usize = 0;
    while b < n_mels
        invariant
            b <= n_mels,
            col@ == silence_column(n_mels as int).subrange(0, b as int),
        decreases n_mels - b,
    {
        col.push(0);
        proof {
            assert(col@ =~= silence_column(n_mels as int).subrange(0, b as int + 1));
        }
        b = b + 1;
    }
    proof {
        assert(col@ =~= silence_column(n_mels as int));
    }
    col
}

/// Converts a waveform into the fixed-shape feature matrix the encoder
/// requires.
///
/// Rejects any waveform that is not 16 kHz single-channel audio, and
/// otherwise deterministically produces exactly `cfg.max_audio_ctx`
/// frames — padding with silence or truncating the time axis —
/// whatever the signal length.
pub fn extract(w: &Waveform, cfg: &ModelConfig) -> (r: Result<Spectrogram, TranscriptionError>)
    requires
        cfg.wf(),
    ensures
        r is Ok <==> w.format_ok(),
        r is Err ==> r->Err_0 == TranscriptionError::InvalidAudioFormat,
        r is Ok ==> r->Ok_0@ == spectrogram_frames(w.samples@, *cfg) && r->Ok_0.wf(*cfg),
{
    if w.sample_rate != SAMPLE_RATE || w.channels != 1 {
        return Err(TranscriptionError::InvalidAudioFormat);
    }
    let ghost target = spectrogram_frames(w.samples@, *cfg);
    let n_mels = cfg.n_mels;
    let width = FRAME_SIZE / n_mels;
    let mut frames: Vec<Vec<u32>> = Vec::new();
    let mut start: usize = 0;
    while frames.len() < cfg.max_audio_ctx && w.samples.len() - start >= FRAME_SIZE
        invariant
            cfg.wf(),
            n_mels == cfg.n_mels,
            width == FRAME_SIZE / n_mels,
            frames.len() <= cfg.max_audio_ctx,
            start == frames.len() * HOP_SIZE,
            start <= w.samples.len(),
            target == spectrogram_frames(w.samples@, *cfg),
            forall|t: int|
                0 <= t < frames.len() ==> #[trigger] (t * HOP_SIZE) + FRAME_SIZE
                    <= w.samples.len(),
            frames@.map_values(|c: Vec<u32>| c@) == target.subrange(0, frames.len() as int),
        decreases cfg.max_audio_ctx - frames.len(),
    {
        let ghost t = frames.len() as int;
        let col = compute_frame(&w.samples, start, n_mels, width);
        frames.push(col);
        proof {
            assert(frames@.map_values(|c: Vec<u32>| c@) =~= target.subrange(0, t + 1));
        }
        start = start + HOP_SIZE;
    }
    let ghost filled = frames.len() as int;
    proof {
        assert forall|t: int| filled <= t < cfg.max_audio_ctx implies #[trigger] (t * HOP_SIZE)
            + FRAME_SIZE > w.samples.len() by {
            lemma_mul_inequality(filled, t, HOP_SIZE as int);
        }
    }
    while frames.len() < cfg.max_audio_ctx
        invariant
            cfg.wf(),
            n_mels == cfg.n_mels,
            filled <= frames.len() <= cfg.max_audio_ctx,
            target == spectrogram_frames(w.samples@, *cfg),
            forall|t: int|
                filled <= t < cfg.max_audio_ctx ==> #[trigger] (t * HOP_SIZE) + FRAME_SIZE
                    > w.samples@.len(),
            frames@.map_values(|c: Vec<u32>| c@) == target.subrange(0, frames.len() as int),
        decreases cfg.max_audio_ctx - frames.len(),
    {
        let ghost t = frames.len() as int;
        let col = silence_frame(n_mels);
        frames.push(col);
        proof {
            assert(frames@.map_values(|c: Vec<u32>| c@) =~= target.subrange(0, t + 1));
        }
    }
    let sg = Spectrogram { frames };
    proof {
        assert(sg@ =~= target);
    }
    Ok(sg)
}

} // verus!
