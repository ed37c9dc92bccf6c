//! The settings of a download and the paths it keeps its files under.

use vstd::prelude::*;
use crate::header::RequestHeaders;

verus! {

/// Seconds an HTTP request may take.
pub const HTTP_TIMEOUT_SECS: u64 = 30;
/// Workers of a concurrent HTTP download.
pub const HTTP_WORKERS: usize = 8;
/// Bytes per chunk of a concurrent HTTP download.
pub const HTTP_CHUNK_SIZE: u64 = 512_000;
/// Retries before an HTTP download gives up.
pub const HTTP_MAX_RETRIES: u64 = 100;

/// The settings of an HTTP download.
pub struct DownloadConfig {
    pub user_agent: String,
    pub resume: bool,
    pub headers: RequestHeaders,
    pub file: String,
    pub timeout: u64,
    pub concurrent: bool,
    pub max_retries: u64,
    pub num_workers: usize,
    pub bytes_on_disk: Option<u64>,
    pub chunk_offsets: Option<Vec<(u64, u64)>>,
    pub chunk_size: u64,
}

/// The settings of an HTTP download into `fname` with the request headers
/// `headers`: concurrent, not resumed, with an empty user agent, 30 s
/// timeout, 100 retries, 8 workers and 512000-byte chunks.
pub fn http_config(fname: String, headers: RequestHeaders) -> (r: DownloadConfig)
    ensures
        r.user_agent@ == Seq::<char>::empty(),
        !r.resume,
        r.headers == headers,
        r.file == fname,
        r.timeout == 30,
        r.concurrent,
        r.max_retries == 100,
        r.num_workers == 8,
        r.bytes_on_disk is None,
        r.chunk_offsets is None,
        r.chunk_size == 512_000,
{
    DownloadConfig {
        user_agent: String::new(),
        resume: false,
        headers,
        file: fname,
        timeout: HTTP_TIMEOUT_SECS,
        concurrent: true,
        max_retries: HTTP_MAX_RETRIES,
        num_workers: HTTP_WORKERS,
        bytes_on_disk: None,
        chunk_offsets: None,
        chunk_size: HTTP_CHUNK_SIZE,
    }
}

/// The path of the state file of the download into `fname` under `dir`:
/// `dir`, the file name, then `.st`.
pub fn state_file_path(dir: &str, fname: &str) -> (r: String)
    ensures
        r@ == dir@ + fname@ + ".st"@,
{
    let mut p = dir.to_owned();
    p.append(fname);
    p.append(".st");
    p
}

} // verus!
