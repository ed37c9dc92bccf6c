//! The decisions of the download events handler: what it records of a
//! download's progress and what it reports for each event.

use vstd::prelude::*;
use vstd::utf8::encode_utf8;
use crate::bytes::ascii_chars;
use crate::decimal::{parse_u64, parse_u64_bytes};
use crate::header::{ResponseHeaders, header_text, header_text_bytes, header_text_string};
use crate::state_file::{format_state_line, state_line};

verus! {

/// The text that `indicatif::HumanBytes(n)` displays, such as `1.46 KiB`.
pub uninterp spec fn human_bytes(n: u64) -> Seq<char>;

/// Displays `indicatif::HumanBytes(n)`. Claimed: the text depends on `n` alone.
#[verifier::external_body]
fn human_bytes_text(n: u64) -> (r: String)
    ensures
        r@ == human_bytes(n),
{
    format!("{}", indicatif::HumanBytes(n))
}

/// The progress line for `count` bytes received of `total`.
pub open spec fn received_timeline(count: u64, total: u64) -> Seq<char> {
    "receive "@ + human_bytes(count) + "/ total"@ + human_bytes(total)
}

/// The progress line once a download of `total` bytes has finished.
pub open spec fn finished_timeline(total: u64) -> Seq<char> {
    "Finished/ total"@ + human_bytes(total)
}

/// `receive <count>/ total<total>`, both in human-readable units.
pub fn received_text(count: u64, total: u64) -> (r: String)
    ensures
        r@ == received_timeline(count, total),
{
    let c = human_bytes_text(count);
    let t = human_bytes_text(total);
    received_line(c.as_str(), t.as_str())
}

/// `receive <count_text>/ total<total_text>`.
pub fn received_line(count_text: &str, total_text: &str) -> (r: String)
    ensures
        r@ == "receive "@ + count_text@ + "/ total"@ + total_text@,
{
    let mut r = String::from_str("receive ");
    r.append(count_text);
    r.append("/ total");
    r.append(total_text);
    r
}

/// `Finished/ total<total>`, in human-readable units.
pub fn finished_text(total: u64) -> (r: String)
    ensures
        r@ == finished_timeline(total),
{
    let t = human_bytes_text(total);
    finished_line(t.as_str())
}

/// `Finished/ total<total_text>`.
pub fn finished_line(total_text: &str) -> (r: String)
    ensures
        r@ == "Finished/ total"@ + total_text@,
{
    let mut r = String::from_str("Finished/ total");
    r.append(total_text);
    r
}

/// Bytes to count toward the progress bar, with the line to show.
pub struct ProgressReport {
    pub bytes: u64,
    pub total: u64,
    pub timeline: String,
}

/// What is shown about a download's length.
pub struct LengthReport {
    /// The length, `None` when unknown.
    pub length: Option<u64>,
    /// Progress already on disk, when the server resumes the download.
    pub progress: Option<ProgressReport>,
}

/// What is shown for a response's headers.
pub enum HeadersReport {
    /// Quiet mode: nothing.
    Quiet,
    /// The content type (empty when absent or not visible ASCII), and the
    /// length report; `None` when the response gives no content length.
    Shown { content_type: String, length: Option<LengthReport> },
}

/// What a chunk written at an offset leads to.
pub struct ChunkReport {
    /// The progress line.
    pub timeline: String,
    /// The line to append to the state file, when there is one.
    pub state_line: Option<String>,
}

/// What the events handler keeps of a download.
pub struct DefaultEventsHandler {
    /// The download's length, 0 until known.
    pub length: u64,
    /// The bytes already on disk, when known.
    pub bytes_on_disk: Option<u64>,
    /// Whether the server resumes downloads.
    pub server_supports_resume: bool,
    /// Whether nothing is to be shown.
    pub quiet_mode: bool,
    /// Whether chunks are recorded in a state file (concurrent downloads).
    pub has_state_file: bool,
    /// The file name of the download.
    pub fname: String,
}

/// The content length that a raw `Content-Length` value gives:
/// `value.to_str().unwrap_or("").parse::<u64>().ok()`.
pub open spec fn content_length_of(raw: Seq<u8>) -> Option<u64> {
    parse_u64(header_text(raw))
}

/// The content type text that the headers give, empty when absent.
pub open spec fn content_type_of(headers: &ResponseHeaders) -> Seq<char> {
    match headers.content_type {
        Some(v) => ascii_chars(header_text(v@)),
        None => Seq::empty(),
    }
}

/// A visible-ASCII content type is reported byte for byte as the response
/// gives it.
pub proof fn law_content_type_whole(headers: &ResponseHeaders)
    requires
        headers.content_type matches Some(v) && crate::header::all_visible(v@),
    ensures
        encode_utf8(content_type_of(headers)) == headers.content_type->0@,
{
    let v = headers.content_type->0@;
    assert(crate::bytes::all_ascii(v));
    crate::bytes::lemma_ascii_bytes_chars(v);
}

impl DefaultEventsHandler {
    /// The state of a new handler for the file `fname`.
    pub fn new(fname: &str, bytes_on_disk: Option<u64>, concurrent: bool, quiet_mode: bool) -> (r:
        DefaultEventsHandler)
        ensures
            r.length == 0,
            r.bytes_on_disk == bytes_on_disk,
            !r.server_supports_resume,
            r.quiet_mode == quiet_mode,
            r.has_state_file == concurrent,
            r.fname@ == fname@,
    {
        DefaultEventsHandler {
            length: 0,
            bytes_on_disk,
            server_supports_resume: false,
            quiet_mode,
            has_state_file: concurrent,
            fname: fname.to_owned(),
        }
    }

    /// Sets up the progress bar for a download of `length` bytes (unknown
    /// when `None`): records the length when known, and reports the bytes
    /// already on disk when the server resumes the download.
    pub fn create_prog_bar(&mut self, length: Option<u64>) -> (r: Option<ProgressReport>)
        ensures
            final(self).length == (match length {
                Some(l) => l,
                None => old(self).length,
            }),
            final(self).bytes_on_disk == old(self).bytes_on_disk,
            final(self).server_supports_resume == old(self).server_supports_resume,
            final(self).quiet_mode == old(self).quiet_mode,
            final(self).has_state_file == old(self).has_state_file,
            final(self).fname == old(self).fname,
            r is Some <==> (old(self).server_supports_resume && old(self).bytes_on_disk is Some),
            r matches Some(p) ==> {
                &&& p.bytes == old(self).bytes_on_disk->0
                &&& p.total == final(self).length
                &&& p.timeline@ == received_timeline(p.bytes, p.total)
            },
    {
        let byte_count = if self.server_supports_resume {
            self.bytes_on_disk
        } else {
            None
        };
        if let Some(len) = length {
            self.length = len;
        }
        match byte_count {
            Some(count) => Some(
                ProgressReport {
                    bytes: count,
                    total: self.length,
                    timeline: received_text(count, self.length),
                },
            ),
            None => None,
        }
    }

    /// What is shown for a response's headers; a `Content-Length` sets up
    /// the progress bar.
    pub fn on_headers(&mut self, headers: &ResponseHeaders) -> (r: HeadersReport)
        ensures
            old(self).quiet_mode ==> r is Quiet && *final(self) == *old(self),
            !old(self).quiet_mode ==> (r matches HeadersReport::Shown { content_type, length } && {
                &&& content_type@ == content_type_of(headers)
                &&& (headers.content_type is Some && crate::header::all_visible(
                    headers.content_type->0@,
                )) ==> encode_utf8(content_type@) == headers.content_type->0@
                &&& length is Some <==> headers.content_length is Some
                &&& headers.content_length is None ==> *final(self) == *old(self)
                &&& length matches Some(rep) ==> {
                    let given = content_length_of(headers.content_length->0@);
                    &&& rep.length == given
                    &&& final(self).length == (match given {
                        Some(l) => l,
                        None => old(self).length,
                    })
                    &&& final(self).bytes_on_disk == old(self).bytes_on_disk
                    &&& final(self).server_supports_resume == old(self).server_supports_resume
                    &&& final(self).quiet_mode == old(self).quiet_mode
                    &&& final(self).has_state_file == old(self).has_state_file
                    &&& final(self).fname == old(self).fname
                    &&& rep.progress is Some <==> (old(self).server_supports_resume
                        && old(self).bytes_on_disk is Some)
                    &&& rep.progress matches Some(p) ==> {
                        &&& p.bytes == old(self).bytes_on_disk->0
                        &&& p.total == final(self).length
                        &&& p.timeline@ == received_timeline(p.bytes, p.total)
                    }
                }
            }),
    {
        if self.quiet_mode {
            return HeadersReport::Quiet;
        }
        proof {
            if headers.content_type is Some && crate::header::all_visible(headers.content_type->0@) {
                law_content_type_whole(headers);
            }
        }
        let content_type = match &headers.content_type {
            Some(v) => header_text_string(v.as_slice()),
            None => String::new(),
        };
        let length = match &headers.content_length {
            Some(v) => {
                let text = header_text_bytes(v.as_slice());
                let given = parse_u64_bytes(text.as_slice());
                let progress = self.create_prog_bar(given);
                Some(LengthReport { length: given, progress })
            },
            None => None,
        };
        HeadersReport::Shown { content_type, length }
    }

    /// What is shown for the content length an FTP server gives; `None` in
    /// quiet mode.
    pub fn on_ftp_content_length(&mut self, ct_len: Option<u64>) -> (r: Option<LengthReport>)
        ensures
            old(self).quiet_mode ==> r is None && *final(self) == *old(self),
            !old(self).quiet_mode ==> (r matches Some(rep) && {
                &&& rep.length == ct_len
                &&& final(self).length == (match ct_len {
                    Some(l) => l,
                    None => old(self).length,
                })
                &&& final(self).bytes_on_disk == old(self).bytes_on_disk
                &&& final(self).server_supports_resume == old(self).server_supports_resume
                &&& final(self).quiet_mode == old(self).quiet_mode
                &&& final(self).has_state_file == old(self).has_state_file
                &&& final(self).fname == old(self).fname
                &&& rep.progress is Some <==> (old(self).server_supports_resume
                    && old(self).bytes_on_disk is Some)
                &&& rep.progress matches Some(p) ==> {
                    &&& p.bytes == old(self).bytes_on_disk->0
                    &&& p.total == final(self).length
                    &&& p.timeline@ == received_timeline(p.bytes, p.total)
                }
            }),
    {
        if self.quiet_mode {
            return None;
        }
        let progress = self.create_prog_bar(ct_len);
        Some(LengthReport { length: ct_len, progress })
    }

    /// The server resumes downloads.
    pub fn on_server_supports_resume(&mut self)
        ensures
            *final(self) == (DefaultEventsHandler { server_supports_resume: true, ..*old(self) }),
    {
        self.server_supports_resume = true;
    }

    /// The download resumes after `bytes_on_disk` bytes.
    pub fn on_resume_download(&mut self, bytes_on_disk: u64)
        ensures
            *final(self) == (DefaultEventsHandler { bytes_on_disk: Some(bytes_on_disk), ..*old(self) }),
    {
        self.bytes_on_disk = Some(bytes_on_disk);
    }

    /// The progress line for a chunk of `byte_count` bytes.
    pub fn on_content(&self, byte_count: u64) -> (r: String)
        ensures
            r@ == received_timeline(byte_count, self.length),
    {
        received_text(byte_count, self.length)
    }

    /// The progress line for a chunk of `byte_count` bytes written at
    /// `offset`, and the line that records it in the state file.
    pub fn on_concurrent_content(&self, byte_count: u64, offset: u64) -> (r: ChunkReport)
        ensures
            r.timeline@ == received_timeline(byte_count, self.length),
            r.state_line is Some <==> self.has_state_file,
            r.state_line matches Some(l) ==> encode_utf8(l@) == state_line(byte_count, offset),
    {
        let timeline = received_text(byte_count, self.length);
        let state_line = if self.has_state_file {
            Some(format_state_line(byte_count, offset))
        } else {
            None
        };
        ChunkReport { timeline, state_line }
    }

    /// The progress line once the download has finished.
    pub fn on_finish(&self) -> (r: String)
        ensures
            r@ == finished_timeline(self.length),
    {
        finished_text(self.length)
    }

    /// Whether running out of retries is reported.
    pub fn on_max_retries(&self) -> (r: bool)
        ensures
            r == !self.quiet_mode,
    {
        !self.quiet_mode
    }

    /// Whether a failure status is reported as a file already fully
    /// retrieved: status 416 outside quiet mode.
    pub fn on_failure_status(&self, status: i32) -> (r: bool)
        ensures
            r == (!self.quiet_mode && status == 416),
    {
        !self.quiet_mode && status == 416
    }
}

} // verus!
