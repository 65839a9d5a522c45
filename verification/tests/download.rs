use wren::download::{DownloadAction, DownloadEvent, DownloadPhase, ModelDownload};
use wren::models::{catalog, ModelFile, ModelInfo};
use wren::ports::PortError;

fn file(name: &str, sha: Option<&str>) -> ModelFile {
    ModelFile { name: name.to_string(), url: format!("http://h/{name}"), sha256: sha.map(str::to_string) }
}

fn model(files: Vec<ModelFile>, size: u64) -> ModelDownload {
    ModelDownload::new(ModelInfo {
        id: "m".to_string(),
        label: "M".to_string(),
        language: "auto".to_string(),
        size_bytes: size,
        files,
    })
}

fn step(d: &mut ModelDownload, ev: DownloadEvent) -> DownloadAction {
    assert!(d.accepts(&ev));
    d.step(ev)
}

fn result(d: &ModelDownload) -> Result<(), PortError> {
    match &d.phase {
        DownloadPhase::Done(r) => r.clone(),
        _ => panic!("not finished"),
    }
}

#[test]
fn download_streams_a_file_with_progress_and_publishes_it() {
    let mut d = model(vec![file("a.bin", None)], 10);
    assert!(matches!(step(&mut d, DownloadEvent::Start), DownloadAction::Probe { ref name, with_digest: false } if name == "a.bin"));
    assert!(matches!(step(&mut d, DownloadEvent::Probed { len: None, content: None }), DownloadAction::Fetch { ref url } if url == "http://h/a.bin"));
    assert!(matches!(step(&mut d, DownloadEvent::Sent(Ok(200))), DownloadAction::CreatePart { ref part } if part == "a.bin.part"));
    assert!(matches!(step(&mut d, DownloadEvent::Created(Ok(()))), DownloadAction::ReadChunk));
    assert!(matches!(step(&mut d, DownloadEvent::Chunk(Ok(vec![1; 6]))), DownloadAction::WriteChunk));
    match step(&mut d, DownloadEvent::Written(Ok(()))) {
        DownloadAction::Report(p) => assert_eq!((p.downloaded, p.total), (6, 10)),
        _ => panic!("expected a progress report"),
    }
    assert!(matches!(step(&mut d, DownloadEvent::Reported), DownloadAction::ReadChunk));
    assert!(matches!(step(&mut d, DownloadEvent::Chunk(Ok(vec![2; 4]))), DownloadAction::WriteChunk));
    match step(&mut d, DownloadEvent::Written(Ok(()))) {
        DownloadAction::Report(p) => assert_eq!(p.downloaded, 10),
        _ => panic!("expected a progress report"),
    }
    assert!(matches!(step(&mut d, DownloadEvent::Reported), DownloadAction::ReadChunk));
    assert!(matches!(step(&mut d, DownloadEvent::Chunk(Ok(Vec::new()))), DownloadAction::Finalize));
    assert!(matches!(step(&mut d, DownloadEvent::Finalized(Ok(()))), DownloadAction::Publish { ref part, ref name } if part == "a.bin.part" && name == "a.bin"));
    assert!(matches!(step(&mut d, DownloadEvent::Renamed(Ok(()))), DownloadAction::Finished));
    assert_eq!(result(&d), Ok(()));
}

#[test]
fn download_skips_intact_files_but_counts_them() {
    let mut d = model(vec![file("a.bin", None), file("b.bin", None)], 9);
    step(&mut d, DownloadEvent::Start);
    match step(&mut d, DownloadEvent::Probed { len: Some(5), content: None }) {
        DownloadAction::Report(p) => assert_eq!(p.downloaded, 5),
        _ => panic!("an intact file is not fetched"),
    }
    assert!(matches!(step(&mut d, DownloadEvent::Reported), DownloadAction::Probe { ref name, .. } if name == "b.bin"));
    assert!(matches!(step(&mut d, DownloadEvent::Probed { len: Some(4), content: None }), DownloadAction::Report(_)));
    assert!(matches!(step(&mut d, DownloadEvent::Reported), DownloadAction::Finished));
    assert_eq!(result(&d), Ok(()));
}

#[test]
fn download_http_error_becomes_network_error() {
    let mut d = model(vec![file("a.bin", None)], 1);
    step(&mut d, DownloadEvent::Start);
    step(&mut d, DownloadEvent::Probed { len: None, content: None });
    assert!(matches!(step(&mut d, DownloadEvent::Sent(Ok(500))), DownloadAction::Finished));
    assert_eq!(result(&d), Err(PortError::Network("HTTP 500 while downloading a.bin".to_string())));
}

#[test]
fn download_failed_request_names_the_url() {
    let mut d = model(vec![file("a.bin", None)], 1);
    step(&mut d, DownloadEvent::Start);
    step(&mut d, DownloadEvent::Probed { len: None, content: None });
    step(&mut d, DownloadEvent::Sent(Err("refused".to_string())));
    assert_eq!(result(&d), Err(PortError::Network("GET http://h/a.bin: refused".to_string())));
}

/// sha256("verified payload"), lowercase hex.
fn digest_of(bytes: &[u8]) -> String {
    wren::models::sha256_hex(bytes)
}

#[test]
fn download_files_verifies_correct_sha256() {
    let payload = b"verified payload".to_vec();
    let want = digest_of(&payload).to_uppercase();
    let mut d = model(vec![file("a.bin", Some(&want))], 1);
    assert!(matches!(step(&mut d, DownloadEvent::Start), DownloadAction::Probe { with_digest: true, .. }));
    step(&mut d, DownloadEvent::Probed { len: None, content: None });
    step(&mut d, DownloadEvent::Sent(Ok(200)));
    step(&mut d, DownloadEvent::Created(Ok(())));
    step(&mut d, DownloadEvent::Chunk(Ok(payload[..5].to_vec())));
    step(&mut d, DownloadEvent::Written(Ok(())));
    step(&mut d, DownloadEvent::Reported);
    step(&mut d, DownloadEvent::Chunk(Ok(payload[5..].to_vec())));
    step(&mut d, DownloadEvent::Written(Ok(())));
    step(&mut d, DownloadEvent::Reported);
    step(&mut d, DownloadEvent::Chunk(Ok(Vec::new())));
    assert!(matches!(step(&mut d, DownloadEvent::Finalized(Ok(()))), DownloadAction::Publish { .. }));
    step(&mut d, DownloadEvent::Renamed(Ok(())));
    assert_eq!(result(&d), Ok(()));
}

#[test]
fn download_files_sha256_mismatch_rejects_and_does_not_publish() {
    let want = digest_of(b"real payload");
    let got = digest_of(b"something else");
    let mut d = model(vec![file("a.bin", Some(&want))], 1);
    step(&mut d, DownloadEvent::Start);
    step(&mut d, DownloadEvent::Probed { len: None, content: None });
    step(&mut d, DownloadEvent::Sent(Ok(200)));
    step(&mut d, DownloadEvent::Created(Ok(())));
    step(&mut d, DownloadEvent::Chunk(Ok(b"something else".to_vec())));
    step(&mut d, DownloadEvent::Written(Ok(())));
    step(&mut d, DownloadEvent::Reported);
    step(&mut d, DownloadEvent::Chunk(Ok(Vec::new())));
    assert!(matches!(step(&mut d, DownloadEvent::Finalized(Ok(()))), DownloadAction::RemovePart { ref part } if part == "a.bin.part"));
    assert!(matches!(step(&mut d, DownloadEvent::Removed), DownloadAction::Finished));
    assert_eq!(
        result(&d),
        Err(PortError::Other(format!("sha256 mismatch in a.bin: expected {want}, got {got}")))
    );
}

#[test]
fn a_failed_read_removes_the_part() {
    let mut d = model(vec![file("a.bin", None)], 1);
    step(&mut d, DownloadEvent::Start);
    step(&mut d, DownloadEvent::Probed { len: None, content: None });
    step(&mut d, DownloadEvent::Sent(Ok(200)));
    step(&mut d, DownloadEvent::Created(Ok(())));
    assert!(matches!(step(&mut d, DownloadEvent::Chunk(Err("reset".to_string()))), DownloadAction::RemovePart { ref part } if part == "a.bin.part"));
    assert!(matches!(step(&mut d, DownloadEvent::Removed), DownloadAction::Finished));
    assert_eq!(result(&d), Err(PortError::Network("reading a.bin: reset".to_string())));
}

#[test]
fn a_failed_write_or_flush_removes_the_part() {
    let mut d = model(vec![file("a.bin", None)], 1);
    step(&mut d, DownloadEvent::Start);
    step(&mut d, DownloadEvent::Probed { len: None, content: None });
    step(&mut d, DownloadEvent::Sent(Ok(200)));
    step(&mut d, DownloadEvent::Created(Ok(())));
    step(&mut d, DownloadEvent::Chunk(Ok(vec![1])));
    assert!(matches!(step(&mut d, DownloadEvent::Written(Err("disk full".to_string()))), DownloadAction::RemovePart { .. }));
    step(&mut d, DownloadEvent::Removed);
    assert_eq!(result(&d), Err(PortError::Storage("disk full".to_string())));

    let mut d = model(vec![file("a.bin", None)], 1);
    step(&mut d, DownloadEvent::Start);
    step(&mut d, DownloadEvent::Probed { len: None, content: None });
    step(&mut d, DownloadEvent::Sent(Ok(200)));
    step(&mut d, DownloadEvent::Created(Ok(())));
    step(&mut d, DownloadEvent::Chunk(Ok(Vec::new())));
    assert!(matches!(step(&mut d, DownloadEvent::Finalized(Err("sync".to_string()))), DownloadAction::RemovePart { .. }));
}

#[test]
fn download_files_is_idempotent_skips_on_second_call() {
    // The second run over an intact cache: one file of 5 bytes ("AAAAA"),
    // no request, one report, the count at the file's size.
    let mut d = model(vec![file("a.bin", None)], 5);
    step(&mut d, DownloadEvent::Start);
    match step(&mut d, DownloadEvent::Probed { len: Some(5), content: None }) {
        DownloadAction::Report(p) => assert_eq!(p.downloaded, 5),
        _ => panic!("the second call should not make requests"),
    }
    assert!(matches!(step(&mut d, DownloadEvent::Reported), DownloadAction::Finished));
    assert_eq!(result(&d), Ok(()));
}

#[test]
fn an_intact_hashed_file_is_checked_from_its_content() {
    let content = b"AAAAA".to_vec();
    let want = digest_of(&content);
    let mut d = model(vec![file("a.bin", Some(&want))], 5);
    step(&mut d, DownloadEvent::Start);
    assert!(matches!(
        step(&mut d, DownloadEvent::Probed { len: Some(5), content: Some(content) }),
        DownloadAction::Report(_)
    ));
    let mut d = model(vec![file("a.bin", Some(&want))], 5);
    step(&mut d, DownloadEvent::Start);
    assert!(matches!(
        step(&mut d, DownloadEvent::Probed { len: Some(5), content: Some(b"BBBBB".to_vec()) }),
        DownloadAction::Fetch { .. }
    ));
}

#[test]
fn sha256_of_the_empty_input() {
    assert_eq!(digest_of(b""), "e3b0c44298fc1c149afbf4c8996fb92427ae41e4649b934ca495991b7852b855");
}

#[test]
fn download_of_the_catalog_model_probes_its_first_file() {
    let mut d = ModelDownload::new(catalog().pop().unwrap());
    assert_eq!(d.tracker.total, 640 * 1024 * 1024);
    assert!(matches!(step(&mut d, DownloadEvent::Start), DownloadAction::Probe { ref name, .. } if name == "config.json"));
    assert!(!d.accepts(&DownloadEvent::Reported));
}
