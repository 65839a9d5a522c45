use audioadapter_buffers::direct::InterleavedSlice;
use rubato::{Fft, FixedSync, Resampler, WindowFunction};
use wren::preprocess::{clip_from_pcm, downmix_to_mono, encode_flac, normalize, TARGET_RATE};

/// The floating-point resampler the application hands to `normalize`.
fn resample_to_16k(mono: Vec<i16>, in_rate: u32) -> Vec<i16> {
    let input: Vec<f32> = mono.iter().map(|&s| s as f32 / 32768.0).collect();
    let mut resampler = match Fft::<f32>::new_custom(
        in_rate as usize,
        TARGET_RATE as usize,
        1024,
        1,
        1,
        WindowFunction::BlackmanHarris2,
        FixedSync::Input,
    ) {
        Ok(r) => r,
        Err(_) => return mono,
    };
    let n_out = resampler.process_all_needed_output_len(input.len());
    let mut out = vec![0.0f32; n_out];
    let input_adapter = match InterleavedSlice::new(input.as_slice(), 1, input.len()) {
        Ok(a) => a,
        Err(_) => return mono,
    };
    let mut output_adapter = match InterleavedSlice::new_mut(out.as_mut_slice(), 1, n_out) {
        Ok(a) => a,
        Err(_) => return mono,
    };
    let written = match resampler.process_all_into_buffer(&input_adapter, &mut output_adapter, input.len(), None) {
        Ok((_read, written)) => written,
        Err(_) => return mono,
    };
    out.truncate(written);
    out.iter().map(|&s| (s.clamp(-1.0, 1.0) * 32767.0) as i16).collect()
}

fn never_called(_: Vec<i16>, _: u32) -> Vec<i16> {
    panic!("a 16 kHz capture is not resampled")
}

#[test]
fn downmix_stereo_averages_the_channels() {
    let stereo = [100i16, 200, -50, 50, 0, 1000];
    let (mono, rate) = normalize(&stereo, 16_000, 2, never_called);
    assert_eq!(rate, 16_000);
    assert_eq!(mono, vec![150, 0, 500]);
}

#[test]
fn resample_48k_to_16k_produces_a_third_of_the_samples() {
    let input: Vec<i16> = (0..48_000)
        .map(|i| {
            let t = i as f32 / 48_000.0;
            ((t * 440.0 * std::f32::consts::TAU).sin() * 16_000.0) as i16
        })
        .collect();
    let (out, rate) = normalize(&input, 48_000, 1, resample_to_16k);
    assert_eq!(rate, 16_000);
    let expected = 16_000f64;
    assert!(
        (out.len() as f64 - expected).abs() / expected < 0.05,
        "expected ~16000 samples, got {}",
        out.len()
    );
}

#[test]
fn sixteen_khz_mono_passes_through_unchanged() {
    let input = vec![1i16, 2, 3, 4, 5];
    let (out, rate) = normalize(&input, 16_000, 1, never_called);
    assert_eq!(rate, 16_000);
    assert_eq!(out, input);
}

#[test]
fn encode_flac_starts_with_magic() {
    let samples = vec![0i16; 16_000];
    let flac = encode_flac(&samples, 16_000).unwrap();
    assert_eq!(&flac[..4], b"fLaC");
}

#[test]
fn encode_flac_is_not_the_raw_samples() {
    let samples: Vec<i16> = (0..4_000).map(|i| (i % 50) as i16).collect();
    let flac = encode_flac(&samples, 16_000).unwrap();
    assert!(flac.len() > 4);
    assert_ne!(flac.len(), samples.len() * 2);
}

#[test]
fn normalize_resamples_the_mono_downmix() {
    let stereo = [10i16, 30, -10, -30];
    let (out, rate) = normalize(&stereo, 8_000, 2, |m: Vec<i16>, r: u32| {
        assert_eq!(m, vec![20, -20]);
        assert_eq!(r, 8_000);
        vec![7, 7, 7, 7]
    });
    assert_eq!(rate, 16_000);
    assert_eq!(out, vec![7, 7, 7, 7]);
}

#[test]
fn downmix_rounds_toward_zero_and_drops_a_partial_frame() {
    assert_eq!(downmix_to_mono(&[-3, 0, 3, 0, 9], 2), vec![-1, 1]);
    assert_eq!(downmix_to_mono(&[5, 6, 7], 0), vec![5, 6, 7]);
    assert_eq!(downmix_to_mono(&[1, 2, 3, 4, 5, 6], 3), vec![2, 5]);
}

#[test]
fn stereo_recording_loads_as_mono_without_resampling() {
    let mut raw = Vec::new();
    for _ in 0..48 {
        raw.push(100i16);
        raw.push(300i16);
    }
    let clip = clip_from_pcm(&raw, 48_000, 2);
    assert_eq!(clip.sample_rate, 48_000);
    assert_eq!(clip.samples.len(), 48);
    assert!(clip.samples.iter().all(|&s| s == 200));
    assert_eq!(clip.duration_ms, 1);
}

#[test]
fn recording_of_rate_zero_counts_as_rate_one() {
    let clip = clip_from_pcm(&[1, 2, 3], 0, 1);
    assert_eq!(clip.duration_ms, 3000);
}

fn wav_bytes(channels: u16, sample_rate: u32, samples: &[i16]) -> Vec<u8> {
    let spec = hound::WavSpec { channels, sample_rate, bits_per_sample: 16, sample_format: hound::SampleFormat::Int };
    let mut cursor = std::io::Cursor::new(Vec::new());
    {
        let mut writer = hound::WavWriter::new(&mut cursor, spec).unwrap();
        for &s in samples {
            writer.write_sample(s).unwrap();
        }
        writer.finalize().unwrap();
    }
    cursor.into_inner()
}

#[test]
fn load_of_phase_0_stereo_wav_downmixes() {
    let mut raw = Vec::new();
    for _ in 0..48 {
        raw.push(100i16);
        raw.push(300i16);
    }
    let loaded = wren::stores::load_clip(&wav_bytes(2, 48_000, &raw)).unwrap();
    assert_eq!(loaded.sample_rate, 48_000);
    assert_eq!(loaded.samples.len(), 48);
    assert!(loaded.samples.iter().all(|&s| s == 200));
    assert_eq!(loaded.duration_ms, 1);
}

#[test]
fn recording_round_trips_through_wav_bytes() {
    let samples: Vec<i16> = (0..24_000).map(|i| (i % 100) as i16).collect();
    let loaded = wren::stores::load_clip(&wav_bytes(1, 16_000, &samples)).unwrap();
    assert_eq!(loaded.sample_rate, 16_000);
    assert_eq!(loaded.duration_ms, 1500);
    assert_eq!(loaded.samples, samples);
}

#[test]
fn bytes_that_are_not_wav_are_a_storage_error() {
    assert!(matches!(wren::stores::load_clip(b"not a wav file"), Err(wren::ports::PortError::Storage(_))));
}
