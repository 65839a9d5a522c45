use wren::bench::{
    error_summary, gated_clip, parse_args, provider_with_overrides, select_samples, variant_detector, Variant,
    NO_PROVIDER_MESSAGE, column_widths, rule_line, table_line,
};
use wren::domain::{AudioClip, ProviderConfig, ProviderKind, VadOutcome};

fn argv(args: &[&str]) -> Vec<String> {
    args.iter().map(|s| s.to_string()).collect()
}

#[test]
fn no_flags_run_every_sample_and_variant() {
    let args = parse_args(&argv(&[])).unwrap().unwrap();
    assert!(args.samples.is_none());
    assert_eq!(args.variants, vec![Variant::SemVad, Variant::Vad, Variant::VadPausas]);
    assert_eq!(args.compress_over_ms, 2000);
    assert!(!args.quiet);
}

#[test]
fn flags_take_values_inline_or_next() {
    let args = parse_args(&argv(&[
        "--samples", " a, ,b ", "--variants=vad,sem-vad,vad", "--compress-over-ms", "1500", "--quiet",
    ]))
    .unwrap()
    .unwrap();
    assert_eq!(args.samples, Some(vec!["a".to_string(), "b".to_string()]));
    assert_eq!(args.variants, vec![Variant::Vad, Variant::SemVad]);
    assert_eq!(args.compress_over_ms, 1500);
    assert!(args.quiet);
}

#[test]
fn help_wins_wherever_it_stands() {
    assert!(parse_args(&argv(&["--quiet", "-h"])).unwrap().is_none());
    assert!(parse_args(&argv(&["--help", "--bogus"])).unwrap().is_none());
}

#[test]
fn argument_errors_are_reported() {
    assert_eq!(parse_args(&argv(&["--bogus=1"])).err().unwrap(), "unknown flag: --bogus (see --help)");
    assert_eq!(parse_args(&argv(&["--samples"])).err().unwrap(), "--samples requires a value (see --help)");
    assert_eq!(
        parse_args(&argv(&["--variants", "vad,nope"])).err().unwrap(),
        "unknown variant: nope (use sem-vad, vad, vad+pausas)"
    );
    assert_eq!(
        parse_args(&argv(&["--variants", " , "])).err().unwrap(),
        "--variants requires at least one variant"
    );
    assert_eq!(
        parse_args(&argv(&["--compress-over-ms=soon"])).err().unwrap(),
        "--compress-over-ms requires an integer in ms, got: soon"
    );
}

#[test]
fn variant_names_round_trip() {
    for v in [Variant::SemVad, Variant::Vad, Variant::VadPausas] {
        assert_eq!(Variant::parse(v.name()), Some(v));
    }
    assert_eq!(Variant::parse("VAD"), None);
}

#[test]
fn variants_choose_the_detector_setting() {
    assert_eq!(variant_detector(Variant::SemVad, 2000), None);
    assert_eq!(variant_detector(Variant::Vad, 2000), Some(None));
    assert_eq!(variant_detector(Variant::VadPausas, 1500), Some(Some(1500)));
}

fn clip(n: usize) -> AudioClip {
    AudioClip { samples: vec![0; n], sample_rate: 16_000, duration_ms: (n / 16) as u64 }
}

#[test]
fn gate_discards_short_speech() {
    assert!(gated_clip(VadOutcome::NoSpeech).is_none());
    assert!(gated_clip(VadOutcome::Speech { clip: clip(160), speech_ms: 299 }).is_none());
    assert_eq!(gated_clip(VadOutcome::Speech { clip: clip(4800), speech_ms: 300 }).unwrap().samples.len(), 4800);
}

#[test]
fn error_summary_is_one_short_line_without_the_key() {
    assert_eq!(error_summary("bad\nkey sk-123 here\r", Some("sk-123")), "bad key *** here ");
    assert_eq!(error_summary("keep sk-1", Some("")), "keep sk-1");
    let long = "x".repeat(70);
    assert_eq!(error_summary(&long, None), format!("{}\u{2026}", "x".repeat(60)));
}

fn provider() -> ProviderConfig {
    ProviderConfig {
        id: "groq".to_string(),
        label: "Groq".to_string(),
        kind: ProviderKind::RemoteApi,
        base_url: "https://api.groq.com/openai/v1".to_string(),
        api_key: Some("k1".to_string()),
        model: "whisper-large-v3".to_string(),
        sends_audio_externally: true,
    }
}

#[test]
fn overrides_replace_only_their_field() {
    let p = provider_with_overrides(Some(provider()), None, Some("m2".to_string()), None).unwrap();
    assert_eq!(p.id, "groq");
    assert_eq!(p.base_url, "https://api.groq.com/openai/v1");
    assert_eq!(p.model, "m2");
    assert_eq!(p.api_key.as_deref(), Some("k1"));
}

#[test]
fn overrides_alone_build_a_provider() {
    let p = provider_with_overrides(None, Some("http://localhost:8000/v1".to_string()), Some("m".to_string()), None)
        .unwrap();
    assert_eq!(p.id, "bench-env");
    assert_eq!(p.label, "Env override");
    assert!(!p.sends_audio_externally);
    assert!(p.api_key.is_none());
    let q = provider_with_overrides(None, Some("https://x.example".to_string()), Some("m".to_string()), Some("k".to_string()))
        .unwrap();
    assert!(q.sends_audio_externally);
    assert_eq!(q.api_key.as_deref(), Some("k"));
}

#[test]
fn incomplete_overrides_without_a_provider_fail() {
    let e = provider_with_overrides(None, Some("http://h".to_string()), None, None).err().unwrap();
    assert_eq!(e, NO_PROVIDER_MESSAGE);
}

#[test]
fn sample_selection_keeps_manifest_order() {
    let manifest = argv(&["a", "b", "c"]);
    assert_eq!(select_samples(&manifest, None).unwrap(), vec![0, 1, 2]);
    assert_eq!(select_samples(&manifest, Some(&argv(&["c", "a"]))).unwrap(), vec![0, 2]);
}

#[test]
fn sample_selection_errors() {
    let manifest = argv(&["a", "b"]);
    assert_eq!(select_samples(&manifest, Some(&argv(&["a", "x", "y"]))).err().unwrap(), "unknown sample in manifest: x");
    assert_eq!(select_samples(&manifest, Some(&argv(&[]))).err().unwrap(), "no samples to run");
    assert_eq!(select_samples(&argv(&[]), None).err().unwrap(), "no samples to run");
}

fn row(cells: &[&str]) -> Vec<String> {
    cells.iter().map(|s| s.to_string()).collect()
}

#[test]
fn table_columns_fit_their_widest_cell() {
    let rows = vec![row(&["SAMPLE", "WER%"]), row(&["ação-longa", "7.5"])];
    assert_eq!(column_widths(&rows, 2), vec![10, 4]);
}

#[test]
fn table_lines_align_text_left_and_metrics_right() {
    let widths = vec![6, 7, 4, 4];
    assert_eq!(table_line(&row(&["a", "vad", "0.0", "n/a"]), &widths), "a       vad       0.0   n/a");
    assert_eq!(table_line(&row(&["a", "", "", ""]), &widths), "a");
    assert_eq!(rule_line(&widths), "-".repeat(6 + 7 + 4 + 4 + 6));
}
