//! The protocol between the app and its transcription worker (a disposable
//! subprocess): the invocation, the audio on the worker's stdin (raw PCM i16
//! mono 16 kHz, little-endian) and the result line on its stdout.

use vstd::prelude::*;

verus! {

/// Marker of the worker's hidden subcommand: it is `args[1]`; `args[2]` is
/// the model directory.
pub const WORKER_SUBCOMMAND: &'static str = "__wren-transcribe-worker";

/// The JSON line the worker writes on stdout when it succeeds.
#[derive(Debug)]
pub struct WorkerResult {
    pub text: String,
    pub language: Option<String>,
    pub load_ms: u64,
    pub infer_ms: u64,
}

/// Low byte of a sample's two's-complement bits.
pub open spec fn low_byte(s: i16) -> u8 {
    ((s as u16) % 256) as u8
}

/// High byte of a sample's two's-complement bits.
pub open spec fn high_byte(s: i16) -> u8 {
    ((s as u16) / 256) as u8
}

/// The little-endian bytes of the samples: two per sample, low byte first.
pub open spec fn spec_pcm_le(samples: Seq<i16>) -> Seq<u8> {
    Seq::new(
        2 * samples.len(),
        |k: int| if k % 2 == 0 { low_byte(samples[k / 2]) } else { high_byte(samples[k / 2]) },
    )
}

/// The sample whose little-endian bytes are `lo`, `hi`.
pub open spec fn sample_of(lo: u8, hi: u8) -> i16 {
    (lo as u16 + 256 * (hi as u16)) as u16 as i16
}

/// The samples of little-endian byte pairs; an odd last byte is dropped.
pub open spec fn spec_pcm_from_le(raw: Seq<u8>) -> Seq<i16> {
    Seq::new(raw.len() / 2, |k: int| sample_of(raw[2 * k], raw[2 * k + 1]))
}

fn le_bytes(s: i16) -> (r: (u8, u8))
    ensures
        r.0 == low_byte(s),
        r.1 == high_byte(s),
{
    let u = s as u16;
    let lo = (u & 0xff) as u8;
    let hi = (u >> 8) as u8;
    assert(u & 0xff == u % 256) by (bit_vector);
    assert(u >> 8 == u / 256) by (bit_vector);
    (lo, hi)
}

/// Serializes samples as the worker reads them: raw PCM i16 little-endian.
pub fn encode_pcm_le(samples: &[i16]) -> (r: Vec<u8>)
    requires
        samples.len() * 2 <= usize::MAX,
    ensures
        r@ == spec_pcm_le(samples@),
{
    let mut out: Vec<u8> = Vec::new();
    let mut i: usize = 0;
    while i < samples.len()
        invariant
            i <= samples.len(),
            samples.len() * 2 <= usize::MAX,
            out@ == spec_pcm_le(samples@.take(i as int)),
        decreases samples.len() - i,
    {
        let (lo, hi) = le_bytes(samples[i]);
        out.push(lo);
        out.push(hi);
        i += 1;
        assert(out@ =~= spec_pcm_le(samples@.take(i as int)));
    }
    assert(samples@.take(samples.len() as int) =~= samples@);
    out
}

/// Reads raw PCM i16 little-endian as the worker does: byte pairs become
/// samples; an odd last byte is dropped.
pub fn decode_pcm_le(raw: &[u8]) -> (r: Vec<i16>)
    ensures
        r@ == spec_pcm_from_le(raw@),
{
    let n = raw.len() / 2;
    let mut out: Vec<i16> = Vec::new();
    let mut k: usize = 0;
    while k < n
        invariant
            k <= n,
            n == raw.len() / 2,
            out@.len() == k,
            forall|q: int| 0 <= q < k ==> #[trigger] out@[q] == sample_of(raw@[2 * q], raw@[2 * q + 1]),
        decreases n - k,
    {
        let lo = raw[2 * k];
        let hi = raw[2 * k + 1];
        let u: u16 = (lo as u16) | ((hi as u16) << 8);
        assert((lo as u16) | ((hi as u16) << 8) == lo as u16 + 256 * (hi as u16)) by (bit_vector);
        out.push(u as i16);
        k += 1;
    }
    assert(out@ =~= spec_pcm_from_le(raw@));
    out
}

/// The worker reads back exactly the samples the app sent.
pub proof fn lemma_pcm_round_trip(samples: Seq<i16>)
    ensures
        spec_pcm_from_le(spec_pcm_le(samples)) == samples,
{
    let raw = spec_pcm_le(samples);
    assert forall|k: int| 0 <= k < samples.len() implies #[trigger] spec_pcm_from_le(raw)[k] == samples[k] by {
        let s = samples[k];
        assert((2 * k) / 2 == k);
        assert((2 * k + 1) / 2 == k);
        assert((2 * k + 1) % 2 == 1);
        assert((2 * k) % 2 == 0);
        let u = s as u16;
        assert(((u % 256) as u8) as u16 + 256 * (((u / 256) as u8) as u16) == u) by (bit_vector);
        assert((u as i16) == s) by (bit_vector)
            requires u == s as u16;
    }
    assert(spec_pcm_from_le(raw) =~= samples);
}

/// `args` (the process arguments, the program first) invoke the worker:
/// the second argument is the worker subcommand.
pub fn is_worker_invocation(args: &[String]) -> (r: bool)
    ensures
        r == (args@.len() > 1 && args@[1]@ == WORKER_SUBCOMMAND@),
{
    if args.len() > 1 {
        let marker = WORKER_SUBCOMMAND.to_owned();
        args[1] == marker
    } else {
        false
    }
}

/// The model directory of a worker invocation: the third argument, or an
/// empty text when it is missing.
pub fn worker_model_dir(args: &[String]) -> (r: String)
    ensures
        r@ == (if args@.len() > 2 { args@[2]@ } else { Seq::<char>::empty() }),
{
    if args.len() > 2 {
        args[2].clone()
    } else {
        String::new()
    }
}

} // verus!
