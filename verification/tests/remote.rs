use wren::ports::{is_transient, PortError};
use wren::remote::{
    join_url, models_endpoint, rejection, select_transcription_models, send_failure, should_retry,
    transcription_endpoint, truncate_chars,
};

#[test]
fn endpoints_drop_trailing_slashes() {
    assert_eq!(transcription_endpoint("https://api.groq.com/openai/v1//"), "https://api.groq.com/openai/v1/audio/transcriptions");
    assert_eq!(models_endpoint("http://localhost:8000/v1"), "http://localhost:8000/v1/models");
    assert_eq!(join_url("/", "/x"), "/x");
}

#[test]
fn transcription_models_are_filtered_sorted_and_deduped() {
    let ids: Vec<String> = [
        "llama-3.1-8b-instant",
        "whisper-large-v3-turbo",
        "gpt-4o-transcribe",
        "whisper-large-v3",
        "Whisper-Large-V3",
        "whisper-large-v3",
        "distil-gpt",
    ]
    .iter()
    .map(|s| s.to_string())
    .collect();
    assert_eq!(
        select_transcription_models(&ids),
        vec!["Whisper-Large-V3", "gpt-4o-transcribe", "whisper-large-v3", "whisper-large-v3-turbo"]
    );
}

#[test]
fn rejection_keeps_the_status_and_500_characters() {
    let body = "é".repeat(600);
    match rejection(401, &body) {
        PortError::ProviderRejected { status, message } => {
            assert_eq!(status, 401);
            assert_eq!(message.chars().count(), 500);
        }
        other => panic!("unexpected {other:?}"),
    }
    assert_eq!(truncate_chars("abc", 5), "abc");
}

#[test]
fn a_timeout_is_not_retried_but_a_network_error_is() {
    let t = send_failure(true, "deadline");
    assert_eq!(t, PortError::Other("timed out talking to the provider: deadline".to_string()));
    assert!(!should_retry(1, &t));
    let n = send_failure(false, "connection refused");
    assert_eq!(n, PortError::Network("connection refused".to_string()));
    assert!(should_retry(1, &n));
    assert!(!should_retry(2, &n));
}

#[test]
fn overload_is_transient_and_other_rejections_are_not() {
    let r = |status| PortError::ProviderRejected { status, message: String::new() };
    assert!(is_transient(&r(429)));
    assert!(is_transient(&r(503)));
    assert!(!is_transient(&r(401)));
    assert!(!is_transient(&PortError::Storage("x".to_string())));
}

/// The mock provider's body: the rejected request, and the attempt after it.
#[test]
fn error_5xx_gets_an_extra_attempt() {
    let first = rejection(503, "");
    assert!(should_retry(1, &first));
    // The second attempt succeeded; had it failed too, there would be no third.
    assert!(!should_retry(2, &first));
}

#[test]
fn permanent_error_does_not_retry() {
    let err = rejection(401, "invalid api key");
    assert!(matches!(err, PortError::ProviderRejected { status: 401, .. }));
    assert!(!should_retry(1, &err));
}

#[test]
fn list_models_filters_transcription_only_sorted_and_deduped() {
    // The mock's five ids: the LLM drops out, the rest are sorted and deduped.
    let ids: Vec<String> =
        ["whisper-large-v3-turbo", "llama-3.1-8b", "whisper-large-v3", "gpt-4o-transcribe", "whisper-large-v3-turbo"]
            .iter()
            .map(|s| s.to_string())
            .collect();
    assert_eq!(
        select_transcription_models(&ids),
        vec!["gpt-4o-transcribe".to_string(), "whisper-large-v3".to_string(), "whisper-large-v3-turbo".to_string()]
    );
}

#[test]
fn list_models_error_status_becomes_provider_rejected() {
    let err = rejection(401, "");
    assert!(matches!(err, PortError::ProviderRejected { status: 401, .. }));
}

fn mock_provider(base_url: &str, api_key: Option<&str>) -> wren::domain::ProviderConfig {
    wren::domain::ProviderConfig {
        id: "mock".to_string(),
        label: "Mock".to_string(),
        kind: wren::domain::ProviderKind::RemoteApi,
        base_url: base_url.to_string(),
        api_key: api_key.map(str::to_string),
        model: "whisper-large-v3".to_string(),
        sends_audio_externally: false,
    }
}

fn field<'a>(fields: &'a [(String, String)], name: &str) -> Option<&'a str> {
    fields.iter().find(|(n, _)| n == name).map(|(_, v)| v.as_str())
}

#[test]
fn upload_is_flac_with_temperature_zero_and_language() {
    let options = wren::domain::TranscriptionOptions { language: Some("pt".into()), prompt: None };
    let upload = wren::remote::transcription_upload(&mock_provider("http://127.0.0.1:9/v1/", None), &options);
    assert_eq!(upload.url, "http://127.0.0.1:9/v1/audio/transcriptions");
    assert_eq!(upload.file_name, "audio.flac");
    assert_eq!(upload.mime, "audio/flac");
    assert_ne!(upload.mime, "audio/wav");
    assert_eq!(field(&upload.fields, "temperature"), Some("0"));
    assert_eq!(field(&upload.fields, "language"), Some("pt"));
    assert_eq!(field(&upload.fields, "response_format"), Some("json"));
    assert_eq!(field(&upload.fields, "model"), Some("whisper-large-v3"));
    assert_eq!(field(&upload.fields, "prompt"), None);
    assert_eq!(upload.bearer, None);
    let flac = wren::preprocess::encode_flac(&vec![0i16; 16_000], 16_000).unwrap();
    assert_eq!(&flac[..4], b"fLaC");
}

#[test]
fn upload_sends_the_prompt_and_the_key_only_when_given() {
    let options = wren::domain::TranscriptionOptions { language: None, prompt: Some("Wren, Verus".into()) };
    let upload = wren::remote::transcription_upload(&mock_provider("https://api.example/v1", Some("k")), &options);
    let names: Vec<&str> = upload.fields.iter().map(|(n, _)| n.as_str()).collect();
    assert_eq!(names, vec!["model", "response_format", "temperature", "prompt"]);
    assert_eq!(field(&upload.fields, "prompt"), Some("Wren, Verus"));
    assert_eq!(upload.bearer.as_deref(), Some("k"));
}

#[test]
fn only_2xx_statuses_succeed() {
    assert!(wren::remote::is_success_status(200));
    assert!(wren::remote::is_success_status(299));
    assert!(!wren::remote::is_success_status(199));
    assert!(!wren::remote::is_success_status(301));
    assert!(!wren::remote::is_success_status(503));
}

#[test]
fn the_active_provider_is_found_by_id() {
    let ids: Vec<String> = ["groq", "local", "groq"].iter().map(|s| s.to_string()).collect();
    assert_eq!(wren::domain::provider_position(&ids, "groq"), Some(0));
    assert_eq!(wren::domain::provider_position(&ids, "local"), Some(1));
    assert_eq!(wren::domain::provider_position(&ids, "none"), None);
}
