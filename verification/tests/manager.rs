use para::model::manager::{
    after_failed_attempt, cache_check_after_digest, cache_check_after_exists, cache_check_start,
    digest_accepted, is_partial_download, keep_waiting_for_lock, partial_download_name, sha256_hex,
    to_hex_lower, CacheProbe, CacheState, DownloadErrorKind, ModelFile, RetryDecision,
};

fn files() -> Vec<ModelFile> {
    vec![
        ModelFile {
            name: "vocab.txt",
            source_url: "https://example.invalid/vocab.txt",
            sha256: None,
        },
        ModelFile {
            name: "model.bin",
            source_url: "https://example.invalid/model.bin",
            sha256: Some("ba7816bf8f01cfea414140de5dae2223b00361a396177a9cb410ff61f20015ad"),
        },
    ]
}

#[test]
fn sha256_hex_is_the_lowercase_digest() {
    assert_eq!(
        sha256_hex(b"abc"),
        "ba7816bf8f01cfea414140de5dae2223b00361a396177a9cb410ff61f20015ad"
    );
    assert_eq!(to_hex_lower(&[0x00, 0x0f, 0xa0, 0xff]), "000fa0ff");
}

#[test]
fn cache_check_walks_files_and_hashes_only_recorded_digests() {
    let files = files();
    assert_eq!(cache_check_start(&files), CacheProbe::FileExists(0));
    assert_eq!(cache_check_after_exists(&files, 0, true), CacheProbe::FileExists(1));
    assert_eq!(cache_check_after_exists(&files, 1, true), CacheProbe::FileDigest(1));
    let digest = sha256_hex(b"abc");
    assert_eq!(cache_check_after_digest(&files, 1, &digest), CacheProbe::Done(CacheState::Cached));
    assert_eq!(
        cache_check_after_digest(&files, 1, &sha256_hex(b"abd")),
        CacheProbe::Done(CacheState::NotCached)
    );
    assert_eq!(cache_check_after_exists(&files, 0, false), CacheProbe::Done(CacheState::NotCached));
    assert_eq!(cache_check_start(&[]), CacheProbe::Done(CacheState::Cached));
}

#[test]
fn downloads_retry_twice_with_backoff_then_give_up() {
    assert!(DownloadErrorKind::Network.is_retryable());
    assert!(DownloadErrorKind::Io.is_retryable());
    assert!(!DownloadErrorKind::ChecksumMismatch.is_retryable());
    assert_eq!(after_failed_attempt(1, DownloadErrorKind::Network), RetryDecision::RetryAfterSecs(1));
    assert_eq!(after_failed_attempt(2, DownloadErrorKind::Io), RetryDecision::RetryAfterSecs(2));
    assert_eq!(after_failed_attempt(3, DownloadErrorKind::Network), RetryDecision::GiveUp);
    assert_eq!(after_failed_attempt(1, DownloadErrorKind::ChecksumMismatch), RetryDecision::GiveUp);
}

#[test]
fn downloaded_files_pass_only_their_recorded_checksum() {
    let files = files();
    assert!(digest_accepted(&files[0], "anything"));
    assert!(digest_accepted(&files[1], &sha256_hex(b"abc")));
    assert!(!digest_accepted(&files[1], &sha256_hex(b"abd")));
}

#[test]
fn partial_downloads_are_named_and_recognized_by_their_tmp_extension() {
    assert_eq!(partial_download_name("vocab.txt"), "vocab.txt.tmp");
    assert!(is_partial_download(&partial_download_name("vocab.txt")));
    assert!(is_partial_download("x.tmp"));
    assert!(!is_partial_download(".tmp"));
    assert!(!is_partial_download("vocab.txt"));
    assert!(!is_partial_download("download.lock"));
    assert!(!is_partial_download("model.tmpx"));
}

#[test]
fn lock_wait_stops_when_the_lock_goes_or_after_thirty_seconds() {
    assert!(keep_waiting_for_lock(true, 0));
    assert!(keep_waiting_for_lock(true, 29_500));
    assert!(!keep_waiting_for_lock(true, 30_000));
    assert!(!keep_waiting_for_lock(false, 0));
}
