use wren::domain::{AudioClip, VadOutcome};
use wren::vad::{trim_and_compress_pauses, EarshotVad, FRAME_SAMPLES, PAUSE_RESIDUE_FRAMES};

fn indexed_samples(total_frames: usize) -> Vec<i16> {
    (0..total_frames)
        .flat_map(|f| std::iter::repeat(f as i16).take(FRAME_SAMPLES))
        .collect()
}

fn flags(total_frames: usize, speech_runs: &[(usize, usize)]) -> Vec<bool> {
    let mut speech = vec![false; total_frames];
    for &(a, b) in speech_runs {
        speech[a..b].iter_mut().for_each(|s| *s = true);
    }
    speech
}

fn frames_of(samples: &[i16]) -> Vec<i16> {
    samples.chunks_exact(FRAME_SAMPLES).map(|f| f[0]).collect()
}

#[test]
fn internal_gap_above_the_threshold_is_compressed_to_the_residue() {
    let total = 240;
    let samples = indexed_samples(total);
    let speech = flags(total, &[(0, 20), (220, 240)]);

    let out = trim_and_compress_pauses(&samples, &speech, Some(2000));
    let kept = frames_of(&out);

    let expected: Vec<i16> = (0..32).chain(208..240).map(|f| f as i16).collect();
    assert_eq!(kept, expected);
    assert_eq!(kept.len(), 20 + PAUSE_RESIDUE_FRAMES + 20);
}

#[test]
fn gap_at_or_below_the_threshold_stays_intact() {
    let total = 140;
    let samples = indexed_samples(total);
    let speech = flags(total, &[(0, 20), (120, 140)]);

    let out = trim_and_compress_pauses(&samples, &speech, Some(2000));
    assert_eq!(out, samples);
}

#[test]
fn config_none_compresses_nothing() {
    let total = 240;
    let samples = indexed_samples(total);
    let speech = flags(total, &[(0, 20), (220, 240)]);

    let out = trim_and_compress_pauses(&samples, &speech, None);
    assert_eq!(out, samples);
}

#[test]
fn edges_receive_asymmetric_trim() {
    let total = 120;
    let samples = indexed_samples(total);
    let speech = flags(total, &[(50, 70)]);

    let out = trim_and_compress_pauses(&samples, &speech, Some(2000));
    let kept = frames_of(&out);
    let expected: Vec<i16> = (19..82).map(|f| f as i16).collect();
    assert_eq!(kept, expected);
}

#[test]
fn two_long_gaps_are_compressed_independently() {
    let total = 330;
    let samples = indexed_samples(total);
    let speech = flags(total, &[(0, 10), (160, 170), (320, 330)]);

    let out = trim_and_compress_pauses(&samples, &speech, Some(2000));
    let kept = frames_of(&out);
    let expected: Vec<i16> = (0..22)
        .chain(148..182)
        .chain(308..330)
        .map(|f| f as i16)
        .collect();
    assert_eq!(kept, expected);
}

#[test]
fn no_speech_in_flags_returns_samples_intact() {
    let samples = indexed_samples(40);
    let out = trim_and_compress_pauses(&samples, &vec![false; 40], Some(2000));
    assert_eq!(out, samples);
}

#[test]
fn inconsistent_flags_with_samples_return_intact() {
    let samples = indexed_samples(40);
    let out = trim_and_compress_pauses(&samples, &vec![true; 7], Some(2000));
    assert_eq!(out, samples);
}

#[test]
fn trailing_partial_frame_is_cut_with_the_end_trim() {
    // 10 whole frames and a partial one; speech in frames 2..4: the end
    // keeps 12 frames of padding, clamped to the clip.
    let mut samples = indexed_samples(10);
    samples.extend(vec![99i16; 100]);
    let speech = flags(10, &[(2, 4)]);
    let out = trim_and_compress_pauses(&samples, &speech, Some(2000));
    assert_eq!(out, samples);
}

#[test]
fn short_gap_cannot_be_compressed_below_the_residue() {
    // A gap of 20 frames (320 ms) over a threshold of 100 ms: longer than
    // the threshold, but not longer than the residue, so it stays.
    let total = 60;
    let samples = indexed_samples(total);
    let speech = flags(total, &[(0, 20), (40, 60)]);
    let out = trim_and_compress_pauses(&samples, &speech, Some(100));
    assert_eq!(out, samples);
}

#[test]
fn rate_other_than_16k_passes_through_whole_as_speech() {
    let clip = AudioClip { samples: vec![0i16; 48_000], sample_rate: 48_000, duration_ms: 1_000 };
    match EarshotVad::new(Some(2000)).gate_with_classification(&clip, &[]) {
        VadOutcome::Speech { clip: out, speech_ms } => {
            assert_eq!(out.samples.len(), 48_000);
            assert_eq!(speech_ms, 1_000);
            assert_eq!(out.duration_ms, 1_000);
        }
        VadOutcome::NoSpeech => panic!("fail-open violated"),
    }
}

#[test]
fn gate_without_speech_frames_is_no_speech() {
    let clip = AudioClip { samples: vec![0i16; 32_000], sample_rate: 16_000, duration_ms: 2_000 };
    let speech = vec![false; 32_000 / FRAME_SAMPLES];
    assert!(matches!(
        EarshotVad::new(Some(2000)).gate_with_classification(&clip, &speech),
        VadOutcome::NoSpeech
    ));
}

#[test]
fn gate_measures_speech_before_compression() {
    let total = 240;
    let clip = AudioClip {
        samples: indexed_samples(total),
        sample_rate: 16_000,
        duration_ms: (total * FRAME_SAMPLES * 1000 / 16_000) as u64,
    };
    let speech = flags(total, &[(0, 20), (220, 240)]);
    match EarshotVad::new(Some(2000)).gate_with_classification(&clip, &speech) {
        VadOutcome::Speech { clip: out, speech_ms } => {
            assert_eq!(speech_ms, 40 * 16);
            assert_eq!(out.samples.len(), 64 * FRAME_SAMPLES);
            assert_eq!(out.duration_ms, 64 * 16);
            assert_eq!(out.sample_rate, 16_000);
        }
        VadOutcome::NoSpeech => panic!("speech was classified"),
    }
}

#[test]
fn pure_silence_becomes_no_speech() {
    let clip = AudioClip { samples: vec![0i16; 32_000], sample_rate: 16_000, duration_ms: 2_000 };
    let mut detector = earshot::Detector::default_boxed();
    let speech: Vec<bool> =
        clip.samples.chunks_exact(FRAME_SAMPLES).map(|frame| detector.predict_i16(frame) > 0.5).collect();
    assert!(matches!(EarshotVad::new(Some(2000)).gate_with_classification(&clip, &speech), VadOutcome::NoSpeech));
}
