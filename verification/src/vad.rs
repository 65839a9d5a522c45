//! Silence trimming and pause compression around the frames that the speech
//! detector classified as speech.

use vstd::prelude::*;
use crate::domain::{AudioClip, VadOutcome};

verus! {

/// The detector works on frames of 256 samples at 16 kHz.
pub const FRAME_SAMPLES: usize = 256;
/// Duration of one frame: 256 / 16000 s = 16 ms.
pub const FRAME_MS: u64 = 16;
/// Frames kept after the last speech frame and around internal speech
/// (about 200 ms).
pub const TRIM_PADDING_FRAMES: usize = 12;
/// Frames kept before the first speech frame (about 500 ms).
pub const TRIM_LEAD_FRAMES: usize = 31;
/// Frames kept in place of a long pause (about 384 ms), half at each side.
pub const PAUSE_RESIDUE_FRAMES: usize = 24;

pub open spec fn is_first_speech(speech: Seq<bool>, f: int) -> bool {
    0 <= f < speech.len() && speech[f] && forall|x: int| 0 <= x < f ==> !#[trigger] speech[x]
}

pub open spec fn is_last_speech(speech: Seq<bool>, l: int) -> bool {
    0 <= l < speech.len() && speech[l] && forall|x: int| l < x < speech.len() ==> !#[trigger] speech[x]
}

pub open spec fn has_speech(speech: Seq<bool>) -> bool {
    exists|x: int| 0 <= x < speech.len() && #[trigger] speech[x]
}

pub open spec fn first_speech(speech: Seq<bool>) -> int {
    choose|f: int| is_first_speech(speech, f)
}

pub open spec fn last_speech(speech: Seq<bool>) -> int {
    choose|l: int| is_last_speech(speech, l)
}

/// First sample kept: 31 frames of lead-in before the first speech frame,
/// clamped at the start of the clip.
pub open spec fn trim_start(speech: Seq<bool>) -> int {
    let f = first_speech(speech);
    (if f >= TRIM_LEAD_FRAMES { f - TRIM_LEAD_FRAMES } else { 0 }) * FRAME_SAMPLES
}

/// One past the last sample kept: 12 frames of padding after the last speech
/// frame, clamped at the end of the clip.
pub open spec fn trim_end(speech: Seq<bool>, n: int) -> int {
    let e = (last_speech(speech) + 1 + TRIM_PADDING_FRAMES) * FRAME_SAMPLES;
    if e <= n { e } else { n }
}

/// A silence of `gap` frames is compressed when it lasts longer than the
/// threshold and there is something left beyond the residue.
pub open spec fn long_pause(gap: int, threshold_ms: u64) -> bool {
    gap * FRAME_MS > threshold_ms && gap > PAUSE_RESIDUE_FRAMES
}

/// Frames `p` and `q` are speech with only silence between them.
pub open spec fn consecutive_speech(speech: Seq<bool>, p: int, q: int) -> bool {
    &&& 0 <= p < q < speech.len()
    &&& speech[p]
    &&& speech[q]
    &&& forall|x: int| p < x < q ==> !#[trigger] speech[x]
}

/// Frame `f` lies in the part of a long pause beyond the 12 frames kept at
/// each of its ends.
pub open spec fn in_pause_core(speech: Seq<bool>, compress_over_ms: Option<u64>, f: int) -> bool {
    match compress_over_ms {
        None => false,
        Some(t) => exists|p: int, q: int|
            #![trigger speech[p], speech[q]]
            consecutive_speech(speech, p, q) && long_pause(q - p - 1, t) && p + 1
                + TRIM_PADDING_FRAMES <= f < q - TRIM_PADDING_FRAMES,
    }
}

/// Sample `k` survives the trim and the compression.
pub open spec fn kept(speech: Seq<bool>, compress_over_ms: Option<u64>, n: int, k: int) -> bool {
    trim_start(speech) <= k < trim_end(speech, n) && !in_pause_core(
        speech,
        compress_over_ms,
        k / FRAME_SAMPLES as int,
    )
}

/// The samples among the first `hi` whose index satisfies `keep`, in order.
pub open spec fn select(s: Seq<i16>, keep: spec_fn(int) -> bool, hi: int) -> Seq<i16>
    decreases hi,
{
    if hi <= 0 {
        Seq::empty()
    } else if keep(hi - 1) {
        select(s, keep, hi - 1).push(s[hi - 1])
    } else {
        select(s, keep, hi - 1)
    }
}

/// The flags and the samples agree: one flag per whole frame.
pub open spec fn flags_match(samples_len: int, speech: Seq<bool>) -> bool {
    speech.len() == samples_len / FRAME_SAMPLES as int
}

/// What `trim_and_compress_pauses` returns: with flags that match the samples
/// and at least one speech frame, the kept samples in order; otherwise the
/// samples unchanged.
pub open spec fn spec_trim_and_compress(
    samples: Seq<i16>,
    speech: Seq<bool>,
    compress_over_ms: Option<u64>,
) -> Seq<i16> {
    if flags_match(samples.len() as int, speech) && has_speech(speech) {
        select(samples, |k: int| kept(speech, compress_over_ms, samples.len() as int, k), samples.len() as int)
    } else {
        samples
    }
}

/// Fail-open: flags that do not match the samples, or that hold no speech,
/// never cost the dictation anything: the samples come back unchanged.
pub proof fn lemma_fail_open(samples: Seq<i16>, speech: Seq<bool>, compress_over_ms: Option<u64>)
    requires
        !flags_match(samples.len() as int, speech) || forall|f: int| 0 <= f < speech.len() ==> !#[trigger] speech[f],
    ensures
        spec_trim_and_compress(samples, speech, compress_over_ms) == samples,
{
}

proof fn lemma_select_len_monotone(s: Seq<i16>, keep1: spec_fn(int) -> bool, keep2: spec_fn(int) -> bool, hi: int)
    requires
        forall|k: int| 0 <= k < hi && #[trigger] keep1(k) ==> keep2(k),
    ensures
        select(s, keep1, hi).len() <= select(s, keep2, hi).len(),
    decreases hi,
{
    if hi > 0 {
        lemma_select_len_monotone(s, keep1, keep2, hi - 1);
    }
}

/// A higher pause threshold never gives a shorter result, and turning the
/// compression off gives the longest: a higher threshold compresses a
/// subset of the pauses, and none compresses no pause at all.
pub proof fn lemma_higher_threshold_keeps_more(samples: Seq<i16>, speech: Seq<bool>, t1: u64, t2: u64)
    requires
        t1 <= t2,
    ensures
        spec_trim_and_compress(samples, speech, Some(t1)).len() <= spec_trim_and_compress(samples, speech, Some(t2)).len(),
        spec_trim_and_compress(samples, speech, Some(t2)).len() <= spec_trim_and_compress(samples, speech, None).len(),
{
    let n = samples.len() as int;
    if flags_match(n, speech) && has_speech(speech) {
        let k1 = |k: int| kept(speech, Some(t1), n, k);
        let k2 = |k: int| kept(speech, Some(t2), n, k);
        let k0 = |k: int| kept(speech, None, n, k);
        assert forall|k: int| 0 <= k < n && #[trigger] k1(k) implies k2(k) by {
            let f = k / FRAME_SAMPLES as int;
            if in_pause_core(speech, Some(t2), f) {
                let (p, q) = choose|p: int, q: int|
                    #![trigger speech[p], speech[q]]
                    consecutive_speech(speech, p, q) && long_pause(q - p - 1, t2) && p + 1 + TRIM_PADDING_FRAMES <= f
                        < q - TRIM_PADDING_FRAMES;
                assert(long_pause(q - p - 1, t1));
                assert(in_pause_core(speech, Some(t1), f));
            }
        }
        assert forall|k: int| 0 <= k < n && #[trigger] k2(k) implies k0(k) by {}
        lemma_select_len_monotone(samples, k1, k2, n);
        lemma_select_len_monotone(samples, k2, k0, n);
    }
}

proof fn lemma_select_skip_prefix(s: Seq<i16>, keep: spec_fn(int) -> bool, hi: int)
    requires
        forall|k: int| 0 <= k < hi ==> !#[trigger] keep(k),
    ensures
        select(s, keep, hi) == Seq::<i16>::empty(),
    decreases hi,
{
    if hi > 0 {
        lemma_select_skip_prefix(s, keep, hi - 1);
    }
}

proof fn lemma_select_skip_suffix(s: Seq<i16>, keep: spec_fn(int) -> bool, lo: int, hi: int)
    requires
        lo <= hi,
        forall|k: int| lo <= k < hi ==> !#[trigger] keep(k),
    ensures
        select(s, keep, hi) == select(s, keep, lo),
    decreases hi - lo,
{
    if lo < hi {
        lemma_select_skip_suffix(s, keep, lo, hi - 1);
    }
}

proof fn lemma_first_unique(speech: Seq<bool>, f: int)
    requires
        is_first_speech(speech, f),
    ensures
        first_speech(speech) == f,
{
    let g = first_speech(speech);
    assert(is_first_speech(speech, g));
    if g < f {
        assert(!speech[g]);
    }
    if f < g {
        assert(!speech[f]);
    }
}

proof fn lemma_last_unique(speech: Seq<bool>, l: int)
    requires
        is_last_speech(speech, l),
    ensures
        last_speech(speech) == l,
{
    let g = last_speech(speech);
    assert(is_last_speech(speech, g));
    if g < l {
        assert(!speech[l]);
    }
    if l < g {
        assert(!speech[g]);
    }
}


/// Frame `f` lies in the compressed part of a long pause that ends before
/// frame `i`.
spec fn core_upto(speech: Seq<bool>, t: u64, f: int, i: int) -> bool {
    exists|p: int, q: int|
        #![trigger speech[p], speech[q]]
        consecutive_speech(speech, p, q) && q < i && long_pause(q - p - 1, t) && p + 1
            + TRIM_PADDING_FRAMES <= f < q - TRIM_PADDING_FRAMES
}

/// Marks, for each frame, whether it lies in the compressed part of a long
/// pause.
fn pause_cores(speech: &[bool], first: usize, threshold_ms: u64) -> (cut: Vec<bool>)
    requires
        is_first_speech(speech@, first as int),
        speech.len() <= usize::MAX / FRAME_SAMPLES,
    ensures
        cut@.len() == speech@.len(),
        forall|f: int| 0 <= f < speech@.len() ==> (#[trigger] cut@[f] <==> in_pause_core(speech@, Some(threshold_ms), f)),
{
    let n = speech.len();
    let mut cut: Vec<bool> = Vec::new();
    let mut z: usize = 0;
    while z < n
        invariant
            z <= n,
            n == speech.len(),
            cut@.len() == z,
            forall|f: int| 0 <= f < z ==> !#[trigger] cut@[f],
        decreases n - z,
    {
        cut.push(false);
        z += 1;
    }
    let ghost sp = speech@;
    let mut prev: usize = first;
    let mut i: usize = first + 1;
    while i < n
        invariant
            n == speech.len(),
            sp == speech@,
            n <= usize::MAX / FRAME_SAMPLES,
            first <= prev < i <= n,
            sp[prev as int],
            forall|x: int| prev < x < i ==> !#[trigger] sp[x],
            cut@.len() == n,
            forall|f: int| 0 <= f < n ==> (#[trigger] cut@[f] <==> core_upto(sp, threshold_ms, f, i as int)),
        decreases n - i,
    {
        let ghost old_cut = cut@;
        if speech[i] {
            let gap = i - prev - 1;
            assert(gap * 16 <= usize::MAX) by (nonlinear_arith)
                requires gap < n, n <= usize::MAX / 256;
            let long = (gap as u64) * FRAME_MS > threshold_ms && gap > PAUSE_RESIDUE_FRAMES;
            assert(long == long_pause(gap as int, threshold_ms));
            if long {
                let stop = i - TRIM_PADDING_FRAMES;
                let mut f = prev + 1 + TRIM_PADDING_FRAMES;
                while f < stop
                    invariant
                        prev + 1 + TRIM_PADDING_FRAMES <= f <= stop,
                        stop == i - TRIM_PADDING_FRAMES,
                        i < n,
                        cut@.len() == n,
                        old_cut.len() == n,
                        forall|g: int|
                            0 <= g < n ==> (#[trigger] cut@[g] <==> (old_cut[g] || (prev + 1
                                + TRIM_PADDING_FRAMES <= g < f))),
                    decreases stop - f,
                {
                    cut.set(f, true);
                    f += 1;
                }
            }
            assert(consecutive_speech(sp, prev as int, i as int));
            assert(forall|g: int| 0 <= g < n ==> (#[trigger] cut@[g] <==> (old_cut[g] || (long && prev + 1
                + TRIM_PADDING_FRAMES <= g < i - TRIM_PADDING_FRAMES))));
            assert forall|g: int| 0 <= g < n implies (#[trigger] cut@[g] <==> core_upto(sp, threshold_ms, g, i + 1)) by {
                assert(old_cut[g] <==> core_upto(sp, threshold_ms, g, i as int));
                if core_upto(sp, threshold_ms, g, i + 1) && !core_upto(sp, threshold_ms, g, i as int) {
                    let (p, q) = choose|p: int, q: int|
                        #![trigger sp[p], sp[q]]
                        consecutive_speech(sp, p, q) && q < i + 1 && long_pause(q - p - 1, threshold_ms) && p + 1
                            + TRIM_PADDING_FRAMES <= g < q - TRIM_PADDING_FRAMES;
                    assert(q == i);
                    if p < prev {
                        assert(!sp[prev as int]);
                    }
                    if p > prev {
                        assert(!sp[p]);
                    }
                }
                if long && prev + 1 + TRIM_PADDING_FRAMES <= g < i - TRIM_PADDING_FRAMES {
                    assert(sp[prev as int] && sp[i as int]);
                }
                if core_upto(sp, threshold_ms, g, i as int) {
                    let (p, q) = choose|p: int, q: int|
                        #![trigger sp[p], sp[q]]
                        consecutive_speech(sp, p, q) && q < i && long_pause(q - p - 1, threshold_ms) && p + 1
                            + TRIM_PADDING_FRAMES <= g < q - TRIM_PADDING_FRAMES;
                    assert(sp[p] && sp[q]);
                }
            }
            prev = i;
        } else {
            assert forall|g: int| 0 <= g < n implies (#[trigger] cut@[g] <==> core_upto(sp, threshold_ms, g, i + 1)) by {
                if core_upto(sp, threshold_ms, g, i + 1) {
                    let (p, q) = choose|p: int, q: int|
                        #![trigger sp[p], sp[q]]
                        consecutive_speech(sp, p, q) && q < i + 1 && long_pause(q - p - 1, threshold_ms) && p + 1
                            + TRIM_PADDING_FRAMES <= g < q - TRIM_PADDING_FRAMES;
                    assert(q != i);
                    assert(sp[p] && sp[q]);
                }
                if core_upto(sp, threshold_ms, g, i as int) {
                    let (p, q) = choose|p: int, q: int|
                        #![trigger sp[p], sp[q]]
                        consecutive_speech(sp, p, q) && q < i && long_pause(q - p - 1, threshold_ms) && p + 1
                            + TRIM_PADDING_FRAMES <= g < q - TRIM_PADDING_FRAMES;
                    assert(sp[p] && sp[q]);
                }
            }
        }
        i += 1;
    }
    assert forall|f: int| 0 <= f < n implies (#[trigger] cut@[f] <==> in_pause_core(sp, Some(threshold_ms), f)) by {
        if in_pause_core(sp, Some(threshold_ms), f) {
            let (p, q) = choose|p: int, q: int|
                #![trigger sp[p], sp[q]]
                consecutive_speech(sp, p, q) && long_pause(q - p - 1, threshold_ms) && p + 1
                    + TRIM_PADDING_FRAMES <= f < q - TRIM_PADDING_FRAMES;
            assert(sp[p] && sp[q]);
        }
        if core_upto(sp, threshold_ms, f, n as int) {
            let (p, q) = choose|p: int, q: int|
                #![trigger sp[p], sp[q]]
                consecutive_speech(sp, p, q) && q < n && long_pause(q - p - 1, threshold_ms) && p + 1
                    + TRIM_PADDING_FRAMES <= f < q - TRIM_PADDING_FRAMES;
            assert(sp[p] && sp[q]);
        }
    }
    cut
}


/// Trims silence off the edges of a clip and compresses its long internal
/// pauses, given the per-frame speech classification.
///
/// - edges: 31 frames (about 500 ms) are kept before the first speech frame
///   and 12 (about 200 ms) after the last;
/// - internal pauses: a silence between two speech frames longer than
///   `compress_over_ms` (and longer than 24 frames) keeps only 12 frames at
///   each end; `None` turns compression off;
/// - fail-open: with no speech frame, or with flags that do not match the
///   samples (one flag per whole frame), the samples come back unchanged.
pub fn trim_and_compress_pauses(samples: &[i16], speech: &[bool], compress_over_ms: Option<u64>) -> (r: Vec<i16>)
    requires
        samples.len() + (TRIM_PADDING_FRAMES + 1) * FRAME_SAMPLES <= usize::MAX,
    ensures
        r@ == spec_trim_and_compress(samples@, speech@, compress_over_ms),
{
    if speech.len() != samples.len() / FRAME_SAMPLES {
        return vstd::slice::slice_to_vec(samples);
    }
    let n_frames = speech.len();
    let mut first: usize = 0;
    while first < n_frames && !speech[first]
        invariant
            first <= n_frames,
            n_frames == speech.len(),
            forall|x: int| 0 <= x < first ==> !#[trigger] speech@[x],
        decreases n_frames - first,
    {
        first += 1;
    }
    if first == n_frames {
        return vstd::slice::slice_to_vec(samples);
    }
    let mut last: usize = n_frames - 1;
    while !speech[last]
        invariant
            first <= last < n_frames,
            n_frames == speech.len(),
            speech@[first as int],
            forall|x: int| last < x < n_frames ==> !#[trigger] speech@[x],
        decreases last,
    {
        last -= 1;
    }
    proof {
        lemma_first_unique(speech@, first as int);
        lemma_last_unique(speech@, last as int);
        assert(has_speech(speech@));
    }
    let n = samples.len();
    assert((last + 1 + TRIM_PADDING_FRAMES) * FRAME_SAMPLES <= n + TRIM_PADDING_FRAMES * FRAME_SAMPLES) by (nonlinear_arith)
        requires last < n_frames, n_frames == n / 256;
    assert(first * FRAME_SAMPLES <= n) by (nonlinear_arith)
        requires first < n_frames, n_frames == n / 256;
    let start = (if first >= TRIM_LEAD_FRAMES { first - TRIM_LEAD_FRAMES } else { 0 }) * FRAME_SAMPLES;
    let e = (last + 1 + TRIM_PADDING_FRAMES) * FRAME_SAMPLES;
    let end = if e <= n { e } else { n };
    assert(n_frames <= usize::MAX / FRAME_SAMPLES);
    let cut = match compress_over_ms {
        Some(threshold_ms) => pause_cores(speech, first, threshold_ms),
        None => {
            let mut none: Vec<bool> = Vec::new();
            let mut z: usize = 0;
            while z < n_frames
                invariant
                    z <= n_frames,
                    none@.len() == z,
                    forall|f: int| 0 <= f < z ==> !#[trigger] none@[f],
                decreases n_frames - z,
            {
                none.push(false);
                z += 1;
            }
            none
        },
    };
    let ghost keep = |k: int| kept(speech@, compress_over_ms, n as int, k);
    assert forall|f: int| 0 <= f < n_frames implies (#[trigger] cut@[f] <==> in_pause_core(speech@, compress_over_ms, f)) by {
        match compress_over_ms {
            Some(t) => {}
            None => {}
        }
    }
    proof {
        lemma_select_skip_prefix(samples@, keep, start as int);
    }
    let mut out: Vec<i16> = Vec::new();
    let mut k: usize = start;
    while k < end
        invariant
            start <= end <= n,
            start <= k <= end,
            n == samples.len(),
            n_frames == speech.len(),
            n_frames == n / 256,
            start == trim_start(speech@),
            end == trim_end(speech@, n as int),
            cut@.len() == n_frames,
            forall|f: int| 0 <= f < n_frames ==> (#[trigger] cut@[f] <==> in_pause_core(speech@, compress_over_ms, f)),
            keep == (|k: int| kept(speech@, compress_over_ms, n as int, k)),
            out@ == select(samples@, keep, k as int),
        decreases end - k,
    {
        let f = k / FRAME_SAMPLES;
        let keep_k = f >= cut.len() || !cut[f];
        proof {
            if f >= n_frames {
                match compress_over_ms {
                    Some(t) => {
                        if in_pause_core(speech@, compress_over_ms, f as int) {
                            let (p, q) = choose|p: int, q: int|
                                #![trigger speech@[p], speech@[q]]
                                consecutive_speech(speech@, p, q) && long_pause(q - p - 1, t) && p + 1
                                    + TRIM_PADDING_FRAMES <= f < q - TRIM_PADDING_FRAMES;
                            assert(false);
                        }
                    }
                    None => {}
                }
            }
            assert(keep_k == keep(k as int));
        }
        if keep_k {
            out.push(samples[k]);
        }
        k += 1;
    }
    proof {
        lemma_select_skip_suffix(samples@, keep, end as int, n as int);
    }
    out
}


proof fn lemma_select_range(s: Seq<i16>, keep: spec_fn(int) -> bool, lo: int, hi: int)
    requires
        0 <= lo <= hi <= s.len(),
        forall|k: int| 0 <= k < hi ==> (#[trigger] keep(k) <==> lo <= k),
    ensures
        select(s, keep, hi) == s.subrange(lo, hi),
    decreases hi,
{
    if hi > lo {
        lemma_select_range(s, keep, lo, hi - 1);
        assert(s.subrange(lo, hi) =~= s.subrange(lo, hi - 1).push(s[hi - 1]));
    } else {
        lemma_select_skip_prefix(s, keep, hi);
        assert(s.subrange(lo, hi) =~= Seq::<i16>::empty());
    }
}

proof fn lemma_select_len(s: Seq<i16>, keep: spec_fn(int) -> bool, hi: int)
    ensures
        select(s, keep, hi).len() <= if hi >= 0 { hi } else { 0 },
    decreases hi,
{
    if hi > 0 {
        lemma_select_len(s, keep, hi - 1);
    }
}

proof fn lemma_trim_bounds(speech: Seq<bool>, n: int)
    requires
        flags_match(n, speech),
        has_speech(speech),
        n >= 0,
    ensures
        is_first_speech(speech, first_speech(speech)),
        is_last_speech(speech, last_speech(speech)),
        0 <= trim_start(speech) <= trim_end(speech, n) <= n,
{
    let x = choose|x: int| 0 <= x < speech.len() && #[trigger] speech[x];
    lemma_exists_first(speech, x);
    lemma_exists_last(speech, x);
    let f = first_speech(speech);
    let l = last_speech(speech);
    assert(f <= l) by {
        if l < f {
            assert(!speech[l]);
        }
    }
    assert(f * 256 <= n) by (nonlinear_arith)
        requires f < speech.len(), speech.len() == n / 256, n >= 0;
    assert(f * 256 <= (l + 13) * 256) by (nonlinear_arith)
        requires f <= l;
}

proof fn lemma_exists_first(speech: Seq<bool>, x: int)
    requires
        0 <= x < speech.len(),
        speech[x],
    ensures
        is_first_speech(speech, first_speech(speech)),
    decreases x,
{
    if exists|y: int| 0 <= y < x && #[trigger] speech[y] {
        let y = choose|y: int| 0 <= y < x && #[trigger] speech[y];
        lemma_exists_first(speech, y);
    } else {
        assert(is_first_speech(speech, x));
    }
}

proof fn lemma_exists_last(speech: Seq<bool>, x: int)
    requires
        0 <= x < speech.len(),
        speech[x],
    ensures
        is_last_speech(speech, last_speech(speech)),
    decreases speech.len() - x,
{
    if exists|y: int| x < y < speech.len() && #[trigger] speech[y] {
        let y = choose|y: int| x < y < speech.len() && #[trigger] speech[y];
        lemma_exists_last(speech, y);
    } else {
        assert(is_last_speech(speech, x));
    }
}

/// The result is a subsequence of the clip: never longer than it.
pub proof fn lemma_trim_never_lengthens(samples: Seq<i16>, speech: Seq<bool>, compress_over_ms: Option<u64>)
    ensures
        spec_trim_and_compress(samples, speech, compress_over_ms).len() <= samples.len(),
{
    lemma_select_len(samples, |k: int| kept(speech, compress_over_ms, samples.len() as int, k), samples.len() as int);
}

/// With no long pause in the clip (compression off, or every pause between
/// speech frames short of the threshold), only the edges are trimmed: the
/// result is the clip from 31 frames before the first speech frame to 12
/// frames after the last, clamped to the clip.
pub proof fn lemma_without_long_pauses_only_edges_are_trimmed(
    samples: Seq<i16>,
    speech: Seq<bool>,
    compress_over_ms: Option<u64>,
)
    requires
        flags_match(samples.len() as int, speech),
        has_speech(speech),
        match compress_over_ms {
            None => true,
            Some(t) => forall|p: int, q: int|
                #![trigger speech[p], speech[q]]
                consecutive_speech(speech, p, q) ==> !long_pause(q - p - 1, t),
        },
    ensures
        spec_trim_and_compress(samples, speech, compress_over_ms) == samples.subrange(
            trim_start(speech),
            trim_end(speech, samples.len() as int),
        ),
{
    let n = samples.len() as int;
    lemma_trim_bounds(speech, n);
    let keep = |k: int| kept(speech, compress_over_ms, n, k);
    let lo = trim_start(speech);
    let hi = trim_end(speech, n);
    assert forall|k: int| 0 <= k < n implies !in_pause_core(speech, compress_over_ms, #[trigger] (k / 256)) by {
        match compress_over_ms {
            None => {}
            Some(t) => {
                if in_pause_core(speech, compress_over_ms, k / 256) {
                    let (p, q) = choose|p: int, q: int|
                        #![trigger speech[p], speech[q]]
                        consecutive_speech(speech, p, q) && long_pause(q - p - 1, t) && p + 1
                            + TRIM_PADDING_FRAMES <= k / 256 < q - TRIM_PADDING_FRAMES;
                    assert(speech[p] && speech[q]);
                }
            }
        }
    }
    assert forall|k: int| 0 <= k < hi implies (#[trigger] keep(k) <==> lo <= k) by {
        assert(!in_pause_core(speech, compress_over_ms, k / 256));
    }
    lemma_select_range(samples, keep, lo, hi);
    lemma_select_skip_suffix(samples, keep, hi, n);
}

/// Speech is never cut: every sample of a speech frame, and of the 12
/// frames on each side of it, that lies within the trimmed edges is kept.
/// The 31 frames before the first speech frame are kept as well.
pub proof fn lemma_speech_and_its_padding_are_kept(
    speech: Seq<bool>,
    compress_over_ms: Option<u64>,
    n: int,
    s: int,
    k: int,
)
    requires
        flags_match(n, speech),
        0 <= s < speech.len(),
        speech[s],
        (s - TRIM_PADDING_FRAMES) * FRAME_SAMPLES <= k < (s + TRIM_PADDING_FRAMES + 1) * FRAME_SAMPLES
            || (first_speech(speech) - TRIM_LEAD_FRAMES) * FRAME_SAMPLES <= k < first_speech(speech)
            * FRAME_SAMPLES,
        trim_start(speech) <= k < trim_end(speech, n),
    ensures
        kept(speech, compress_over_ms, n, k),
{
    assert(has_speech(speech));
    let x = choose|x: int| 0 <= x < speech.len() && #[trigger] speech[x];
    lemma_exists_first(speech, x);
    let f = k / 256;
    match compress_over_ms {
        None => {}
        Some(t) => {
            if in_pause_core(speech, compress_over_ms, f) {
                let (p, q) = choose|p: int, q: int|
                    #![trigger speech[p], speech[q]]
                    consecutive_speech(speech, p, q) && long_pause(q - p - 1, t) && p + 1
                        + TRIM_PADDING_FRAMES <= f < q - TRIM_PADDING_FRAMES;
                assert(speech[p] && speech[q]);
                let fs = first_speech(speech);
                if (fs - 31) * 256 <= k < fs * 256 {
                    assert(f < fs) by (nonlinear_arith)
                        requires k < fs * 256, f == k / 256, k >= 0;
                    assert(fs <= p) by {
                        if p < fs {
                            assert(!speech[p]);
                        }
                    }
                } else {
                    assert(s - 12 <= f <= s + 12) by (nonlinear_arith)
                        requires (s - 12) * 256 <= k < (s + 13) * 256, f == k / 256;
                    if p < s && s < q {
                        assert(!speech[s]);
                    }
                }
            }
        }
    }
}

/// A long pause between two speech frames `p` and `q` keeps exactly the 12
/// frames after `p` and the 12 frames before `q` (a residue of 24 frames,
/// about 384 ms); the frames between those are dropped.
pub proof fn lemma_long_pause_leaves_residue(
    speech: Seq<bool>,
    threshold_ms: u64,
    n: int,
    p: int,
    q: int,
    k: int,
)
    requires
        flags_match(n, speech),
        consecutive_speech(speech, p, q),
        long_pause(q - p - 1, threshold_ms),
        (p + 1) * FRAME_SAMPLES <= k < q * FRAME_SAMPLES,
    ensures
        kept(speech, Some(threshold_ms), n, k) <==> (k < (p + 1 + TRIM_PADDING_FRAMES) * FRAME_SAMPLES
            || (q - TRIM_PADDING_FRAMES) * FRAME_SAMPLES <= k),
{
    assert(has_speech(speech));
    lemma_trim_bounds(speech, n);
    let fs = first_speech(speech);
    let ls = last_speech(speech);
    assert(fs <= p) by {
        if p < fs {
            assert(!speech[p]);
        }
    }
    assert(q <= ls) by {
        if ls < q {
            assert(!speech[q]);
        }
    }
    assert(q * 256 <= n) by (nonlinear_arith)
        requires q < speech.len(), speech.len() == n / 256, n >= 0;
    assert(trim_start(speech) <= k) by (nonlinear_arith)
        requires trim_start(speech) <= fs * 256, fs <= p, (p + 1) * 256 <= k;
    assert(k < trim_end(speech, n)) by (nonlinear_arith)
        requires k < q * 256, q <= ls, q * 256 <= n,
            trim_end(speech, n) == if (ls + 13) * 256 <= n { (ls + 13) * 256 } else { n };
    let f = k / 256;
    assert(p + 1 <= f < q) by (nonlinear_arith)
        requires (p + 1) * 256 <= k < q * 256, f == k / 256;
    assert((p + 13 <= f) <==> (p + 13) * 256 <= k) by (nonlinear_arith)
        requires f == k / 256, k >= 0;
    assert((f < q - 12) <==> k < (q - 12) * 256) by (nonlinear_arith)
        requires f == k / 256, k >= 0;
    if in_pause_core(speech, Some(threshold_ms), f) {
        let (a, b) = choose|a: int, b: int|
            #![trigger speech[a], speech[b]]
            consecutive_speech(speech, a, b) && long_pause(b - a - 1, threshold_ms) && a + 1
                + TRIM_PADDING_FRAMES <= f < b - TRIM_PADDING_FRAMES;
        assert(speech[a] && speech[b]);
        if a < p {
            assert(!speech[p]);
        }
        if p < a {
            assert(!speech[a]);
        }
        if b < q {
            assert(!speech[b]);
        }
        if q < b {
            assert(!speech[q]);
        }
    }
    if (p + 13) * 256 <= k < (q - 12) * 256 {
        assert(speech[p] && speech[q]);
    }
}


/// The rate the detector understands.
pub const DETECTOR_RATE: u32 = 16_000;

/// Number of frames classified as speech.
pub open spec fn count_speech(speech: Seq<bool>) -> nat
    decreases speech.len(),
{
    if speech.len() == 0 {
        0
    } else {
        count_speech(speech.drop_last()) + (if speech.last() { 1nat } else { 0 })
    }
}

/// The speech gate: drops clips without speech, trims the edges and
/// compresses long internal pauses.
pub struct EarshotVad {
    /// Internal pauses longer than this (ms) are compressed to the residue;
    /// `None` turns compression off.
    pub compress_pauses_over_ms: Option<u64>,
}

/// The speech filter's answer for a clip, given the detector's
/// classification of each whole frame of it.
pub open spec fn spec_gate(clip: AudioClip, speech: Seq<bool>, compress_over_ms: Option<u64>) -> (bool, Seq<i16>, u64, u64) {
    if clip.sample_rate != DETECTOR_RATE {
        (true, clip.samples@, clip.duration_ms, clip.duration_ms)
    } else if count_speech(speech) == 0 {
        (false, Seq::empty(), 0, 0)
    } else {
        let samples = spec_trim_and_compress(clip.samples@, speech, compress_over_ms);
        (true, samples, (samples.len() as int * 1000 / 16000) as u64, (count_speech(speech) as int * 16) as u64)
    }
}

impl EarshotVad {
    pub fn new(compress_pauses_over_ms: Option<u64>) -> (r: Self)
        ensures
            r.compress_pauses_over_ms == compress_pauses_over_ms,
    {
        EarshotVad { compress_pauses_over_ms }
    }

    /// Speech filtering and trimming of a clip, given the per-frame classification of
    /// the detector (`speech[i]`: frame `i`, samples `256 i .. 256 (i + 1)`,
    /// scored above the threshold).
    ///
    /// - A clip at another rate than 16 kHz passes whole, as speech lasting
    ///   the whole clip: a limitation of the detector never discards
    ///   dictation (the classification is not looked at).
    /// - No speech frame: `NoSpeech`.
    /// - Otherwise the clip trimmed and compressed by
    ///   `trim_and_compress_pauses`, its duration recomputed, and the speech
    ///   duration measured as speech frames × 16 ms (compression does not
    ///   change it).
    pub fn gate_with_classification(&self, clip: &AudioClip, speech: &[bool]) -> (r: VadOutcome)
        requires
            clip.samples.len() + (TRIM_PADDING_FRAMES + 1) * FRAME_SAMPLES <= usize::MAX,
            clip.samples.len() * 1000 <= u64::MAX,
            speech.len() <= clip.samples.len(),
        ensures
            ({
                let g = spec_gate(*clip, speech@, self.compress_pauses_over_ms);
                match r {
                    VadOutcome::Speech { clip: out, speech_ms } => g.0 && out.samples@ == g.1
                        && out.sample_rate == clip.sample_rate && out.duration_ms == g.2 && speech_ms == g.3,
                    VadOutcome::NoSpeech => !g.0,
                }
            }),
    {
        if clip.sample_rate != DETECTOR_RATE {
            return VadOutcome::Speech { clip: clip.duplicate(), speech_ms: clip.duration_ms };
        }
        let mut speech_frames: u64 = 0;
        let mut i: usize = 0;
        while i < speech.len()
            invariant
                i <= speech.len(),
                speech_frames == count_speech(speech@.take(i as int)),
                speech_frames <= i,
            decreases speech.len() - i,
        {
            assert(speech@.take(i + 1).drop_last() =~= speech@.take(i as int));
            if speech[i] {
                speech_frames += 1;
            }
            i += 1;
        }
        assert(speech@.take(speech.len() as int) =~= speech@);
        if speech_frames == 0 {
            return VadOutcome::NoSpeech;
        }
        let samples = trim_and_compress_pauses(clip.samples.as_slice(), speech, self.compress_pauses_over_ms);
        proof {
            lemma_trim_never_lengthens(clip.samples@, speech@, self.compress_pauses_over_ms);
        }
        assert(speech_frames * 16 <= u64::MAX) by (nonlinear_arith)
            requires speech_frames <= speech.len(), speech.len() <= clip.samples.len(),
                clip.samples.len() * 1000 <= u64::MAX;
        let duration_ms = samples.len() as u64 * 1000 / (DETECTOR_RATE as u64);
        VadOutcome::Speech {
            clip: AudioClip { samples, sample_rate: clip.sample_rate, duration_ms },
            speech_ms: speech_frames * FRAME_MS,
        }
    }
}

} // verus!
