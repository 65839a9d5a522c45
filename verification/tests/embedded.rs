use std::path::PathBuf;
use wren::embedded::{
    start_failure, take_last_parsed, wait_failure, worker_failure_message, worker_outcome, EmbeddedTranscriber,
};
use wren::ports::PortError;
use wren::protocol::{decode_pcm_le, encode_pcm_le, is_worker_invocation, worker_model_dir, WorkerResult};

fn result(text: &str, language: Option<&str>) -> WorkerResult {
    WorkerResult { text: text.to_string(), language: language.map(str::to_string), load_ms: 10, infer_ms: 5 }
}

#[test]
fn success_builds_the_transcript() {
    let out = worker_outcome(
        true,
        "exit status: 0",
        "",
        "{...}\n",
        vec![Some(result("hello from fake", Some("pt")))],
        Some("parakeet-v3-int8".to_string()),
        "/cache/parakeet-v3-int8".to_string(),
    )
    .unwrap();
    assert_eq!(out.text, "hello from fake");
    assert_eq!(out.language.as_deref(), Some("pt"));
    assert_eq!(out.provider_id, "embedded");
    assert_eq!(out.model, "parakeet-v3-int8");
    assert_eq!(out.latency_ms, 0);
}

#[test]
fn noise_before_the_result_line_is_ignored() {
    let out = worker_outcome(
        true,
        "exit status: 0",
        "",
        "onnxruntime: some warning\n{...}\n",
        vec![None, Some(result("clean", None)), None],
        Some("m".to_string()),
        "m".to_string(),
    )
    .unwrap();
    assert_eq!(out.text, "clean");
    assert_eq!(out.language, None);
}

#[test]
fn the_last_result_line_wins() {
    let last = take_last_parsed(vec![Some(result("first", None)), None, Some(result("second", None)), None]);
    assert_eq!(last.unwrap().text, "second");
    assert!(take_last_parsed(vec![None, None]).is_none());
}

#[test]
fn nonzero_exit_carries_the_stderr() {
    let err = worker_outcome(
        false,
        "exit status: 1",
        "  model missing in cache\n",
        "",
        vec![Some(result("ignored", None))],
        None,
        "x".to_string(),
    )
    .unwrap_err();
    assert_eq!(err, PortError::Other("model missing in cache".to_string()));
}

#[test]
fn nonzero_exit_with_empty_stderr_names_the_status() {
    assert_eq!(worker_failure_message(" \n", "exit status: 3"), "transcription worker failed (exit status: 3)");
}

#[test]
fn stdout_without_a_result_line_is_an_error() {
    let err = worker_outcome(true, "exit status: 0", "", "not json\n", vec![None], None, "d".to_string())
        .unwrap_err();
    assert_eq!(err, PortError::Other("unexpected worker output (no JSON line): \"not json\"".to_string()));
}

#[test]
fn model_name_falls_back_to_the_directory() {
    let out = worker_outcome(true, "", "", "", vec![Some(result("t", None))], None, "/".to_string()).unwrap();
    assert_eq!(out.model, "/");
}

#[test]
fn worker_io_failures_are_other() {
    assert_eq!(
        start_failure("No such file"),
        PortError::Other("failed to start the transcription worker: No such file".to_string())
    );
    assert_eq!(wait_failure("broken"), PortError::Other("failed to wait for the worker: broken".to_string()));
}

#[test]
fn transcriber_keeps_its_paths() {
    let t = EmbeddedTranscriber::with_worker(PathBuf::from("/cache/parakeet-v3-int8"), PathBuf::from("/bin/wren"));
    assert_eq!(t.model_dir(), &PathBuf::from("/cache/parakeet-v3-int8"));
    assert_eq!(t.worker_exe(), &PathBuf::from("/bin/wren"));
}

#[test]
fn pcm_is_little_endian_and_round_trips() {
    let samples = [0i16, 1, -1, 256, i16::MIN, i16::MAX];
    let raw = encode_pcm_le(&samples);
    assert_eq!(&raw[..6], &[0, 0, 1, 0, 0xff, 0xff]);
    assert_eq!(raw.len(), 12);
    assert_eq!(decode_pcm_le(&raw), samples.to_vec());
}

#[test]
fn an_odd_last_byte_is_dropped() {
    assert_eq!(decode_pcm_le(&[1, 0, 7]), vec![1]);
}

#[test]
fn worker_invocation_is_recognized_by_its_second_argument() {
    let args: Vec<String> =
        ["wren", "__wren-transcribe-worker", "/cache/m"].iter().map(|s| s.to_string()).collect();
    assert!(is_worker_invocation(&args));
    assert_eq!(worker_model_dir(&args), "/cache/m");
    let plain: Vec<String> = ["wren"].iter().map(|s| s.to_string()).collect();
    assert!(!is_worker_invocation(&plain));
    assert_eq!(worker_model_dir(&args[..2]), "");
}

#[test]
fn spawn_of_nonexistent_worker_becomes_porterror() {
    let err = start_failure("No such file or directory (os error 2)");
    assert!(matches!(err, PortError::Other(_)), "got {err:?}");
}
