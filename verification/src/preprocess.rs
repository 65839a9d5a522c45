//! Audio preprocessing: downmix to mono and the canonical rate of the
//! transcription pipeline (PCM i16 mono 16 kHz), and FLAC encoding for
//! upload.

use flacenc::component::BitRepr;
use flacenc::error::Verify;
use vstd::prelude::*;
use crate::text::concat;
use crate::domain::AudioClip;
use crate::ports::PortError;

verus! {

/// The canonical rate: what Whisper consumes internally.
pub const TARGET_RATE: u32 = 16_000;

/// Integer division as Rust computes it: the quotient rounded toward zero.
pub open spec fn trunc_div(a: int, b: int) -> int {
    if a >= 0 { a / b } else { -((-a) / b) }
}

/// Sum of `len` samples starting at `start`.
pub open spec fn frame_sum(s: Seq<i16>, start: int, len: nat) -> int
    decreases len,
{
    if len == 0 {
        0
    } else {
        frame_sum(s, start, (len - 1) as nat) + s[start + len - 1] as int
    }
}

/// The mono signal of interleaved frames of `channels` samples: each output
/// sample is the average of one whole frame, rounded toward zero; a partial
/// frame at the end is dropped. One channel (or zero, read as one) passes
/// unchanged.
pub open spec fn spec_downmix(s: Seq<i16>, channels: nat) -> Seq<i16> {
    if channels <= 1 {
        s
    } else {
        Seq::new(
            s.len() / channels,
            |k: int| trunc_div(frame_sum(s, k * channels, channels), channels as int) as i16,
        )
    }
}

proof fn lemma_frame_sum_bounds(s: Seq<i16>, start: int, len: nat)
    requires
        0 <= start,
        start + len <= s.len(),
    ensures
        -32768 * len <= frame_sum(s, start, len) <= 32767 * len,
    decreases len,
{
    if len > 0 {
        lemma_frame_sum_bounds(s, start, (len - 1) as nat);
    }
}

/// Downmix to mono: the average of each frame of `channels` samples.
pub fn downmix_to_mono(samples: &[i16], channels: u16) -> (r: Vec<i16>)
    ensures
        r@ == spec_downmix(samples@, channels as nat),
{
    let c: usize = if channels == 0 { 1 } else { channels as usize };
    if c == 1 {
        return vstd::slice::slice_to_vec(samples);
    }
    let n_frames = samples.len() / c;
    let ghost s = samples@;
    let mut out: Vec<i16> = Vec::new();
    let mut k: usize = 0;
    let mut pos: usize = 0;
    while k < n_frames
        invariant
            2 <= c <= 65535,
            c == channels as usize,
            n_frames == samples.len() / c,
            s == samples@,
            k <= n_frames,
            pos == k * c,
            out@.len() == k,
            forall|q: int| 0 <= q < k ==> #[trigger] out@[q] == trunc_div(frame_sum(s, q * c, c as nat), c as int) as i16,
        decreases n_frames - k,
    {
        assert(pos + c <= samples.len()) by (nonlinear_arith)
            requires pos == k * c, k < n_frames, n_frames == samples.len() / c, c > 0;
        let mut sum: i32 = 0;
        let mut j: usize = 0;
        while j < c
            invariant
                2 <= c <= 65535,
                pos + c <= samples.len(),
                s == samples@,
                j <= c,
                sum == frame_sum(s, pos as int, j as nat),
            decreases c - j,
        {
            proof {
                lemma_frame_sum_bounds(s, pos as int, (j + 1) as nat);
            }
            assert(-32768 * (j + 1) >= -32768 * 65535 && 32767 * (j + 1) <= 32767 * 65535) by (nonlinear_arith)
                requires j + 1 <= 65535;
            sum = sum + samples[pos + j] as i32;
            j += 1;
        }
        proof {
            lemma_frame_sum_bounds(s, pos as int, c as nat);
        }
        let avg = sum / (c as i32);
        assert(avg == trunc_div(sum as int, c as int));
        assert(-32768 <= avg <= 32767) by (nonlinear_arith)
            requires avg == trunc_div(sum as int, c as int), -32768 * c <= sum <= 32767 * c, c >= 2;
        out.push(avg as i16);
        assert(pos + c == (k + 1) * c) by (nonlinear_arith)
            requires pos == k * c;
        pos = pos + c;
        k += 1;
    }
    assert(out@ =~= spec_downmix(samples@, channels as nat));
    out
}


/// Normalizes a capture to the canonical form, PCM i16 mono at 16 kHz: the
/// channels are averaged into one and, unless the capture is already at
/// 16 kHz (then it passes through at no further cost), the mono signal is
/// resampled to 16 kHz by `resample` (called with the mono samples and
/// their rate; resampling works on floating point, which stays outside).
pub fn normalize<F: Fn(Vec<i16>, u32) -> Vec<i16>>(samples: &[i16], sample_rate: u32, channels: u16, resample: F) -> (r: (Vec<i16>, u32))
    requires
        forall|m: Vec<i16>, rate: u32| resample.requires((m, rate)),
    ensures
        r.1 == TARGET_RATE,
        sample_rate == TARGET_RATE ==> r.0@ == spec_downmix(samples@, channels as nat),
        sample_rate == TARGET_RATE && channels <= 1 ==> r.0@ == samples@,
        sample_rate != TARGET_RATE ==> exists|m: Vec<i16>|
            m@ == spec_downmix(samples@, channels as nat) && resample.ensures((m, sample_rate), r.0),
{
    let mono = downmix_to_mono(samples, channels);
    if sample_rate == TARGET_RATE {
        return (mono, TARGET_RATE);
    }
    let ghost m = mono;
    let out = resample(mono, sample_rate);
    assert(resample.ensures((m, sample_rate), out));
    (out, TARGET_RATE)
}

/// Duration in milliseconds of `len` samples at `sample_rate` (a rate of 0 is
/// read as 1).
pub open spec fn duration_ms_of(len: nat, sample_rate: u32) -> int {
    (len as int) * 1000 / (if sample_rate == 0 { 1int } else { sample_rate as int })
}

/// A clip from interleaved PCM: downmixed to mono (frame averages, no
/// resampling), its duration computed from the mono length.
pub fn clip_from_pcm(raw: &[i16], sample_rate: u32, channels: u16) -> (r: AudioClip)
    requires
        raw.len() * 1000 <= u64::MAX,
    ensures
        r.samples@ == spec_downmix(raw@, channels as nat),
        r.sample_rate == sample_rate,
        r.duration_ms == duration_ms_of(r.samples@.len(), sample_rate),
{
    let samples = downmix_to_mono(raw, channels);
    assert(samples@.len() <= raw@.len()) by {
        if channels > 1 {
            assert(raw@.len() / (channels as nat) <= raw@.len()) by (nonlinear_arith)
                requires channels > 1;
        }
    }
    let rate: u64 = if sample_rate == 0 { 1 } else { sample_rate as u64 };
    let duration_ms = samples.len() as u64 * 1000 / rate;
    AudioClip { samples, sample_rate, duration_ms }
}

/// The bytes flacenc produces for a source of the given samples, channels,
/// bit depth and rate, with its default encoder configuration.
pub uninterp spec fn flac_stream(samples: Seq<i32>, channels: usize, bits_per_sample: usize, sample_rate: usize) -> Seq<u8>;

/// flacenc's encoder (`config::Encoder::default().into_verified()`,
/// `source::MemSource::from_samples`, `encode_with_fixed_block_size` with the
/// configuration's block size, then `Stream::write` into a `ByteSink`). On
/// success the bytes are what the encoder produces for these arguments
/// (named, not stated), and they start with the stream marker `fLaC`, which
/// `Stream::write` emits first. Errors come back as their debug text. The
/// encoder fails only on parameters out of range (a rate above 96 kHz, a
/// channel count outside 1 to 8, a bit depth it does not take, a sample
/// outside the bit depth) or on 2^31 frames of 4096 samples or more; so one
/// channel at 16 bits, with samples in the 16-bit range, a rate up to
/// 96 kHz and fewer than 4096 * 2^31 samples always encodes.
#[verifier::external_body]
fn flac_encode(samples: &[i32], channels: usize, bits_per_sample: usize, sample_rate: usize) -> (r: Result<Vec<u8>, String>)
    ensures
        channels == 1 && bits_per_sample == 16 && sample_rate <= 96_000 && samples@.len() < 4096 * 0x8000_0000
            && (forall|k: int| 0 <= k < samples@.len() ==> -32768 <= #[trigger] samples@[k] <= 32767) ==> r is Ok,
        r matches Ok(bytes) ==> bytes@ == flac_stream(samples@, channels, bits_per_sample, sample_rate)
            && bytes@.len() >= 4 && bytes@[0] == 0x66u8 && bytes@[1] == 0x4cu8 && bytes@[2] == 0x61u8 && bytes@[3] == 0x43u8,
{
    let config = flacenc::config::Encoder::default().into_verified().map_err(|e| format!("{e:?}"))?;
    let source = flacenc::source::MemSource::from_samples(samples, channels, bits_per_sample, sample_rate);
    let stream = flacenc::encode_with_fixed_block_size(&config, source, config.block_size).map_err(|e| format!("{e:?}"))?;
    let mut sink = flacenc::bitsink::ByteSink::new();
    stream.write(&mut sink).map_err(|e| format!("{e:?}"))?;
    Ok(sink.as_slice().to_vec())
}

/// Encodes PCM i16 mono at `sample_rate` as FLAC in memory (lossless, about
/// half the size of WAV). The encoder takes the samples as `i32` with a bit
/// depth of 16. On success the bytes are flacenc's stream for them, which
/// starts with `fLaC`; an encoder error becomes `PortError::Other` with the
/// text "encode FLAC: " and the error's description. Encoding succeeds at
/// any rate up to 96 kHz for fewer than 4096 * 2^31 samples.
pub fn encode_flac(samples: &[i16], sample_rate: u32) -> (r: Result<Vec<u8>, PortError>)
    ensures
        sample_rate <= 96_000 && samples@.len() < 4096 * 0x8000_0000 ==> r is Ok,
        match r {
            Ok(bytes) => bytes@ == flac_stream(samples@.map_values(|s: i16| s as i32), 1, 16, sample_rate as usize)
                && bytes@.len() >= 4 && bytes@[0] == 0x66u8 && bytes@[1] == 0x4cu8 && bytes@[2] == 0x61u8 && bytes@[3] == 0x43u8,
            Err(PortError::Other(msg)) => exists|d: Seq<char>| msg@ == "encode FLAC: "@ + d,
            Err(_) => false,
        },
{
    let mut wide: Vec<i32> = Vec::new();
    let mut i: usize = 0;
    while i < samples.len()
        invariant
            i <= samples.len(),
            wide@ == samples@.take(i as int).map_values(|s: i16| s as i32),
        decreases samples.len() - i,
    {
        wide.push(samples[i] as i32);
        i += 1;
        assert(wide@ =~= samples@.take(i as int).map_values(|s: i16| s as i32));
    }
    assert(samples@.take(samples.len() as int) =~= samples@);
    assert(forall|k: int| 0 <= k < wide@.len() ==> -32768 <= #[trigger] wide@[k] <= 32767);
    match flac_encode(wide.as_slice(), 1, 16, sample_rate as usize) {
        Ok(bytes) => Ok(bytes),
        Err(e) => {
            let prefix = "encode FLAC: ";
            proof {
                reveal_strlit("encode FLAC: ");
            }
            Err(PortError::Other(concat(prefix, e.as_str())))
        },
    }
}

} // verus!
