use wren::models::{
    catalog, check_download, file_is_intact, find_model, hex_lower, http_status_error, local_models,
    model_is_installed, DownloadTracker, ModelPresence,
};
use wren::ports::PortError;

#[test]
fn well_formed_catalog() {
    let cat = catalog();
    assert_eq!(cat.len(), 1);
    let m = &cat[0];
    assert_eq!(m.id, "parakeet-v3-int8");
    assert_eq!(m.files.len(), 5);
    assert!(m.size_bytes > 0);
    assert!(m.files.iter().all(|f| f.url.starts_with("https://")));
}

#[test]
fn catalog_files_live_under_one_base_url() {
    let m = &catalog()[0];
    assert_eq!(m.size_bytes, 640 * 1024 * 1024);
    assert_eq!(m.files[0].name, "config.json");
    assert_eq!(
        m.files[4].url,
        "https://huggingface.co/smcleod/parakeet-tdt-0.6b-v3-int8/resolve/main/encoder-model.int8.onnx"
    );
    assert!(m.files.iter().all(|f| f.sha256.is_none()));
}

#[test]
fn unknown_model_id_is_other() {
    match find_model("does-not-exist") {
        Err(PortError::Other(msg)) => assert_eq!(msg, "unknown model in the catalog: does-not-exist"),
        Err(other) => panic!("expected Other, got {other:?}"),
        Ok(_) => panic!("expected an error"),
    }
    assert_eq!(find_model("parakeet-v3-int8").unwrap().id, "parakeet-v3-int8");
}

fn presence(dir_exists: bool, sizes: &[Option<u64>]) -> ModelPresence {
    ModelPresence { dir_exists, file_sizes: sizes.to_vec() }
}

#[test]
fn local_models_lists_a_complete_model() {
    let all = [Some(7u64); 5];
    assert_eq!(local_models(&[presence(true, &all)]), vec!["parakeet-v3-int8".to_string()]);
}

#[test]
fn local_models_without_directory_lists_nothing() {
    assert!(local_models(&[presence(false, &[Some(7u64); 5])]).is_empty());
    assert!(local_models(&[]).is_empty());
}

#[test]
fn local_models_skips_a_missing_or_empty_file() {
    let mut sizes = [Some(7u64); 5];
    sizes[2] = None;
    assert!(local_models(&[presence(true, &sizes)]).is_empty());
    sizes[2] = Some(0);
    assert!(local_models(&[presence(true, &sizes)]).is_empty());
    assert!(local_models(&[presence(true, &[Some(7u64); 4])]).is_empty());
}

#[test]
fn installed_needs_every_file() {
    assert!(model_is_installed(true, &[Some(1), Some(2)]));
    assert!(!model_is_installed(true, &[Some(1), Some(0)]));
    assert!(!model_is_installed(false, &[Some(1)]));
    assert!(model_is_installed(true, &[]));
}

#[test]
fn hex_is_lowercase_two_digits_per_byte() {
    assert_eq!(hex_lower(&[0x00, 0x0f, 0xa5, 0xff]), "000fa5ff");
    assert_eq!(hex_lower(&[]), "");
}

#[test]
fn intact_file_checks_the_hash_ignoring_case() {
    assert!(file_is_intact(true, None, None));
    assert!(!file_is_intact(false, None, None));
    assert!(file_is_intact(true, Some("ABcd"), Some("abCD")));
    assert!(!file_is_intact(true, Some("abcd"), Some("abce")));
    assert!(!file_is_intact(true, Some("abcd"), None));
}

#[test]
fn download_progress_accumulates_and_saturates() {
    let mut t = DownloadTracker::new(100);
    let p = t.advance(40);
    assert_eq!((p.downloaded, p.total), (40, 100));
    let p = t.advance(35);
    assert_eq!((p.downloaded, p.total), (75, 100));
    let p = t.advance(u64::MAX);
    assert_eq!(p.downloaded, u64::MAX);
}

#[test]
fn http_error_names_the_status_and_the_file() {
    assert_eq!(
        http_status_error(500, "a.bin"),
        PortError::Network("HTTP 500 while downloading a.bin".to_string())
    );
}

#[test]
fn sha_mismatch_is_other_and_a_match_passes() {
    assert_eq!(check_download("a.bin", None, "00"), Ok(()));
    assert_eq!(check_download("a.bin", Some("ABCD"), "abcd"), Ok(()));
    assert_eq!(
        check_download("a.bin", Some("abcd"), "ffff"),
        Err(PortError::Other("sha256 mismatch in a.bin: expected abcd, got ffff".to_string()))
    );
}
