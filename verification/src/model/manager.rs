//! The decisions of the model cache: whether a model's files are all
//! present and intact, how digests are written, and when a failed download
//! is retried. The program does the file and network work these decide on.

use vstd::prelude::*;
use crate::strings::{chars_of, push_char, str_eq};

verus! {

/// Bounded number of attempts at downloading one file.
pub const MAX_DOWNLOAD_ATTEMPTS: u32 = 3;

/// Whether a model's files are all in the cache.
#[derive(Debug, Clone, Copy, PartialEq, Eq, Structural)]
pub enum CacheState {
    NotCached,
    Cached,
}

/// One file a model needs, where it comes from, and its SHA-256 digest in
/// lowercase hex where that is known.
#[derive(Debug, Clone, Copy)]
pub struct ModelFile {
    pub name: &'static str,
    pub source_url: &'static str,
    pub sha256: Option<&'static str>,
}

/// The SHA-256 digest of `data`, as the `sha2` crate computes it.
pub uninterp spec fn sha256_of(data: Seq<u8>) -> Seq<u8>;

/// Calls `sha2::Sha256::digest`; the contract claims that the 32-byte digest
/// is a function of the input bytes.
#[verifier::external_body]
fn sha256_digest(data: &[u8]) -> (r: Vec<u8>)
    ensures
        r@ == sha256_of(data@),
        r@.len() == 32,
{
    <sha2::Sha256 as sha2::Digest>::digest(data).to_vec()
}

/// The lowercase hex digit of `d`.
pub open spec fn hex_digit(d: u8) -> char
    recommends
        d < 16,
{
    seq!['0', '1', '2', '3', '4', '5', '6', '7', '8', '9', 'a', 'b', 'c', 'd', 'e', 'f'][d as int]
}

/// `bytes` in lowercase hex, two digits per byte.
pub open spec fn hex_lower(bytes: Seq<u8>) -> Seq<char>
    decreases bytes.len(),
{
    if bytes.len() == 0 {
        Seq::empty()
    } else {
        hex_lower(bytes.drop_last()).push(hex_digit(bytes.last() / 16)).push(hex_digit(bytes.last() % 16))
    }
}

/// Writes `bytes` in lowercase hex, two digits per byte.
pub fn to_hex_lower(bytes: &[u8]) -> (r: String)
    ensures
        r@ == hex_lower(bytes@),
{
    let digits: [char; 16] = ['0', '1', '2', '3', '4', '5', '6', '7', '8', '9', 'a', 'b', 'c', 'd', 'e', 'f'];
    let mut out = String::new();
    let n = bytes.len();
    let mut i: usize = 0;
    while i < n
        invariant
            n == bytes@.len(),
            i <= n,
            out@ == hex_lower(bytes@.take(i as int)),
            digits@ == seq!['0', '1', '2', '3', '4', '5', '6', '7', '8', '9', 'a', 'b', 'c', 'd', 'e', 'f'],
        decreases n - i,
    {
        let b = bytes[i];
        assert(bytes@.take(i + 1).drop_last() =~= bytes@.take(i as int));
        push_char(&mut out, digits[(b / 16) as usize]);
        push_char(&mut out, digits[(b % 16) as usize]);
        i = i + 1;
    }
    assert(bytes@.take(n as int) =~= bytes@);
    out
}

/// The SHA-256 digest of `data` in lowercase hex, as cached files are checked against.
pub fn sha256_hex(data: &[u8]) -> (r: String)
    ensures
        r@ == hex_lower(sha256_of(data@)),
{
    let digest = sha256_digest(data);
    to_hex_lower(digest.as_slice())
}

/// Whether `digest_hex` is acceptable for `file`: it equals the recorded
/// digest, or no digest is recorded.
pub open spec fn spec_digest_accepted(file: ModelFile, digest_hex: Seq<char>) -> bool {
    file.sha256 matches Some(e) ==> digest_hex == e@
}

/// Whether a file that hashes to `digest_hex` passes its checksum.
pub fn digest_accepted(file: &ModelFile, digest_hex: &str) -> (r: bool)
    ensures
        r == spec_digest_accepted(*file, digest_hex@),
{
    match file.sha256 {
        Some(expected) => str_eq(digest_hex, expected),
        None => true,
    }
}

/// The name a file is downloaded under until it has passed its checksum.
pub open spec fn spec_partial_name(name: Seq<char>) -> Seq<char> {
    name + ".tmp"@
}

/// The name `name` is downloaded under until it is complete and verified.
pub fn partial_download_name(name: &str) -> (r: String)
    ensures
        r@ == spec_partial_name(name@),
{
    let mut out = String::from_str(name);
    out.append(".tmp");
    out
}

/// A file name whose extension, as `Path::extension` reads it, is `tmp`:
/// it ends in `.tmp` and that dot does not start the name.
pub open spec fn spec_is_partial_download(name: Seq<char>) -> bool {
    name.len() > 4 && name.subrange(name.len() - 4, name.len() as int) == ".tmp"@
}

/// Whether a file found in a model directory is left over from an
/// interrupted download, and so is removed before downloading again.
pub fn is_partial_download(name: &str) -> (r: bool)
    ensures
        r == spec_is_partial_download(name@),
{
    let chars = chars_of(name);
    let n = chars.len();
    if n <= 4 {
        return false;
    }
    let r = chars[n - 4] == '.' && chars[n - 3] == 't' && chars[n - 2] == 'm' && chars[n - 1] == 'p';
    proof {
        reveal_strlit(".tmp");
        if r {
            assert(chars@.subrange(n - 4, n as int) =~= ".tmp"@);
        } else {
            let sub = chars@.subrange(n - 4, n as int);
            if sub == ".tmp"@ {
                assert(sub[0] == chars@[n - 4] && sub[1] == chars@[n - 3] && sub[2] == chars@[n - 2] && sub[3] == chars@[n - 1]);
            }
        }
    }
    r
}

/// The file a download writes before it is verified is always recognized
/// as the leftover of an interrupted download, whatever file it is for.
pub proof fn law_partial_downloads_are_swept(name: Seq<char>)
    requires
        name.len() > 0,
    ensures
        spec_is_partial_download(spec_partial_name(name)),
{
    reveal_strlit(".tmp");
    assert(spec_partial_name(name).subrange(name.len() as int, name.len() + 4int) =~= ".tmp"@);
}

/// Milliseconds between two looks at another run's download lock.
pub const LOCK_POLL_MS: u64 = 500;

/// How long, in milliseconds, a run waits on another run's download lock
/// before taking the lock over.
pub const LOCK_WAIT_LIMIT_MS: u64 = 30_000;

/// Whether to keep waiting on another run's download lock: while the lock
/// file is still there and the wait so far is under the limit.
pub fn keep_waiting_for_lock(lock_exists: bool, waited_ms: u64) -> (r: bool)
    ensures
        r == (lock_exists && waited_ms < LOCK_WAIT_LIMIT_MS),
{
    lock_exists && waited_ms < LOCK_WAIT_LIMIT_MS
}

/// The next step of checking a model's cache: whether file `i` exists, the
/// digest of file `i`, or the finished verdict.
#[derive(Debug, Clone, Copy, PartialEq, Eq, Structural)]
pub enum CacheProbe {
    FileExists(usize),
    FileDigest(usize),
    Done(CacheState),
}

/// The probe that checks file `i` onwards.
pub open spec fn probe_from(files: Seq<ModelFile>, i: int) -> CacheProbe {
    if 0 <= i < files.len() { CacheProbe::FileExists(i as usize) } else { CacheProbe::Done(CacheState::Cached) }
}

/// The first probe of a cache check.
pub fn cache_check_start(files: &[ModelFile]) -> (r: CacheProbe)
    ensures
        r == probe_from(files@, 0),
{
    if files.len() > 0 { CacheProbe::FileExists(0) } else { CacheProbe::Done(CacheState::Cached) }
}

/// The probe after learning whether file `i` exists: a missing file means
/// the model is not cached; a present one is hashed if its digest is known.
pub open spec fn spec_after_exists(files: Seq<ModelFile>, i: int, exists: bool) -> CacheProbe {
    if !exists {
        CacheProbe::Done(CacheState::NotCached)
    } else if files[i].sha256 is Some {
        CacheProbe::FileDigest(i as usize)
    } else {
        probe_from(files, i + 1)
    }
}

/// The next probe once it is known whether file `i` exists.
pub fn cache_check_after_exists(files: &[ModelFile], i: usize, exists: bool) -> (r: CacheProbe)
    requires
        i < files@.len(),
    ensures
        r == spec_after_exists(files@, i as int, exists),
{
    if !exists {
        CacheProbe::Done(CacheState::NotCached)
    } else if files[i].sha256.is_some() {
        CacheProbe::FileDigest(i)
    } else if i + 1 < files.len() {
        CacheProbe::FileExists(i + 1)
    } else {
        CacheProbe::Done(CacheState::Cached)
    }
}

/// The probe after hashing file `i`: a digest other than the recorded one
/// means the model is not cached.
pub open spec fn spec_after_digest(files: Seq<ModelFile>, i: int, digest_hex: Seq<char>) -> CacheProbe {
    match files[i].sha256 {
        Some(expected) => if digest_hex == expected@ { probe_from(files, i + 1) } else { CacheProbe::Done(CacheState::NotCached) },
        None => probe_from(files, i + 1),
    }
}

/// The next probe once file `i` has been hashed to `digest_hex`.
pub fn cache_check_after_digest(files: &[ModelFile], i: usize, digest_hex: &str) -> (r: CacheProbe)
    requires
        i < files@.len(),
    ensures
        r == spec_after_digest(files@, i as int, digest_hex@),
{
    if !digest_accepted(&files[i], digest_hex) {
        CacheProbe::Done(CacheState::NotCached)
    } else if i + 1 < files.len() {
        CacheProbe::FileExists(i + 1)
    } else {
        CacheProbe::Done(CacheState::Cached)
    }
}

/// A cache check run to completion from file `i` on, when file `k` exists
/// exactly if `exists[k]` and hashes to `digests[k]`: each file is probed
/// for existence, then hashed if the probe asks for it.
pub open spec fn run_check_from(files: Seq<ModelFile>, exists: Seq<bool>, digests: Seq<Seq<char>>, i: int) -> CacheState
    decreases files.len() - i,
{
    if i < 0 || i >= files.len() {
        CacheState::Cached
    } else {
        match spec_after_exists(files, i, exists[i]) {
            CacheProbe::Done(s) => s,
            CacheProbe::FileDigest(_) => match spec_after_digest(files, i, digests[i]) {
                CacheProbe::Done(s) => s,
                _ => run_check_from(files, exists, digests, i + 1),
            },
            CacheProbe::FileExists(_) => run_check_from(files, exists, digests, i + 1),
        }
    }
}

/// Every file from `i` on exists and, where its digest is recorded, matches it.
pub open spec fn all_present_from(files: Seq<ModelFile>, exists: Seq<bool>, digests: Seq<Seq<char>>, i: int) -> bool {
    forall|k: int| i <= k < files.len() ==> #[trigger] exists[k] && (files[k].sha256 matches Some(e) ==> digests[k] == e@)
}

proof fn lemma_run_check_from(files: Seq<ModelFile>, exists: Seq<bool>, digests: Seq<Seq<char>>, i: int)
    requires
        0 <= i <= files.len(),
        files.len() < usize::MAX,
    ensures
        run_check_from(files, exists, digests, i) == if all_present_from(files, exists, digests, i) {
            CacheState::Cached
        } else {
            CacheState::NotCached
        },
    decreases files.len() - i,
{
    if i < files.len() {
        lemma_run_check_from(files, exists, digests, i + 1);
        if !(exists[i] && (files[i].sha256 matches Some(e) ==> digests[i] == e@)) {
            assert(!all_present_from(files, exists, digests, i));
        } else {
            if all_present_from(files, exists, digests, i + 1) {
                assert forall|k: int| i <= k < files.len() implies #[trigger] exists[k]
                    && (files[k].sha256 matches Some(e) ==> digests[k] == e@) by {
                    if k > i {
                        assert(exists[k]);
                    }
                }
            }
        }
    }
}

/// A model is reported cached exactly when every one of its files is present
/// and every recorded digest matches, so a missing or altered file is never
/// reported as cached.
pub proof fn law_cached_iff_all_files_intact(files: Seq<ModelFile>, exists: Seq<bool>, digests: Seq<Seq<char>>)
    requires
        files.len() < usize::MAX,
    ensures
        run_check_from(files, exists, digests, 0) == CacheState::Cached
            <==> all_present_from(files, exists, digests, 0),
{
    lemma_run_check_from(files, exists, digests, 0);
}

/// What went wrong with one download attempt.
#[derive(Debug, Clone, Copy, PartialEq, Eq, Structural)]
pub enum DownloadErrorKind {
    Network,
    ChecksumMismatch,
    Io,
}

impl DownloadErrorKind {
    /// Whether retrying the same download might help: a checksum mismatch on
    /// a fully downloaded file is not fixed by downloading it again.
    pub fn is_retryable(self) -> (r: bool)
        ensures
            r == (self != DownloadErrorKind::ChecksumMismatch),
    {
        match self {
            DownloadErrorKind::Network | DownloadErrorKind::Io => true,
            DownloadErrorKind::ChecksumMismatch => false,
        }
    }
}

/// What to do after a failed download attempt.
#[derive(Debug, Clone, Copy, PartialEq, Eq, Structural)]
pub enum RetryDecision {
    RetryAfterSecs(u64),
    GiveUp,
}

/// The wait before retry number `attempt`: one second, doubling each time.
pub open spec fn backoff_secs(attempt: nat) -> nat
    decreases attempt,
{
    if attempt <= 1 { 1 } else { 2 * backoff_secs((attempt - 1) as nat) }
}

/// After attempt number `attempt` (from 1) failed with `kind`: retry after an
/// exponential backoff while the error is retryable and attempts remain,
/// otherwise give up and report the error.
pub fn after_failed_attempt(attempt: u32, kind: DownloadErrorKind) -> (r: RetryDecision)
    requires
        1 <= attempt <= MAX_DOWNLOAD_ATTEMPTS,
    ensures
        r == if kind != DownloadErrorKind::ChecksumMismatch && attempt < MAX_DOWNLOAD_ATTEMPTS {
            RetryDecision::RetryAfterSecs(backoff_secs(attempt as nat) as u64)
        } else {
            RetryDecision::GiveUp
        },
{
    if kind.is_retryable() && attempt < MAX_DOWNLOAD_ATTEMPTS {
        let shift = attempt - 1;
        assert(backoff_secs(2) == 2) by { reveal_with_fuel(backoff_secs, 2); }
        assert(shift == 0 || shift == 1);
        assert(1u64 << 0u32 == 1u64 && 1u64 << 1u32 == 2u64) by (bit_vector);
        RetryDecision::RetryAfterSecs(1u64 << shift)
    } else {
        RetryDecision::GiveUp
    }
}

} // verus!
