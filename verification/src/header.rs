//! Header values as the download logic reads and writes them.

use vstd::prelude::*;
use vstd::utf8::encode_utf8;
use crate::bytes::{all_ascii, ascii_chars, ascii_string, copy_range};
use crate::decimal::{decimal, decimal_bytes, lemma_decimal_shape};

verus! {

/// A byte that `HeaderValue::to_str` accepts: visible ASCII or a tab.
pub open spec fn is_visible_ascii(b: u8) -> bool {
    (32 <= b && b < 127) || b == 9
}

/// A byte that a header value may hold at all (`HeaderValue::from_str`).
pub open spec fn is_valid_header_byte(b: u8) -> bool {
    (b >= 32 && b != 127) || b == 9
}

/// Every byte of `raw` is visible ASCII.
pub open spec fn all_visible(raw: Seq<u8>) -> bool {
    forall|i: int| 0 <= i < raw.len() ==> is_visible_ascii(#[trigger] raw[i])
}

/// Every byte of `raw` may stand in a header value.
pub open spec fn all_valid_header_bytes(raw: Seq<u8>) -> bool {
    forall|i: int| 0 <= i < raw.len() ==> is_valid_header_byte(#[trigger] raw[i])
}

/// A header value may hold every visible ASCII byte and tab (`;`, `=`, `"`
/// and spaces included) and every byte from 128 up.
pub proof fn law_header_bytes_accepted(raw: Seq<u8>)
    requires
        forall|i: int| 0 <= i < raw.len() ==> (32 <= #[trigger] raw[i] <= 126 || raw[i] == 9 || raw[i] >= 128),
    ensures
        all_valid_header_bytes(raw),
{
}

/// A header value may not hold a control byte other than tab, nor DEL.
pub proof fn law_header_bytes_refused(raw: Seq<u8>, i: int)
    requires
        0 <= i < raw.len(),
        (raw[i] < 32 && raw[i] != 9) || raw[i] == 127,
    ensures
        !all_valid_header_bytes(raw),
{
}

/// Visible ASCII text is a valid header value.
pub proof fn law_visible_is_valid(raw: Seq<u8>)
    requires
        all_visible(raw),
    ensures
        all_valid_header_bytes(raw),
{
}

/// The text of a header value as `value.to_str().unwrap_or("")` gives it:
/// the value itself when it is visible ASCII, else the empty text.
pub open spec fn header_text(raw: Seq<u8>) -> Seq<u8> {
    if all_visible(raw) {
        raw
    } else {
        Seq::empty()
    }
}

/// The response headers that the download logic reads, each as the raw bytes
/// of its first value, `None` where the response lacks it.
pub struct ResponseHeaders {
    pub content_disposition: Option<Vec<u8>>,
    pub content_type: Option<Vec<u8>>,
    pub content_length: Option<Vec<u8>>,
}

/// The headers of a download request.
pub struct RequestHeaders {
    /// The `Range` header, present when a download resumes.
    pub range: Option<String>,
    /// The `User-Agent` header.
    pub user_agent: String,
}

/// Why request headers could not be built.
#[derive(Debug, PartialEq, Eq, Clone, Copy)]
pub enum HeaderError {
    /// The user agent holds a byte that no header value may hold.
    InvalidUserAgent,
}

/// Whether every byte of `raw` is visible ASCII.
pub fn is_all_visible(raw: &[u8]) -> (r: bool)
    ensures
        r == all_visible(raw@),
{
    let mut i: usize = 0;
    while i < raw.len()
        invariant
            i <= raw.len(),
            forall|j: int| 0 <= j < i ==> is_visible_ascii(#[trigger] raw@[j]),
        decreases raw.len() - i,
    {
        let b = raw[i];
        if !((32 <= b && b < 127) || b == 9) {
            assert(!is_visible_ascii(raw@[i as int]));
            return false;
        }
        i = i + 1;
    }
    true
}

/// `value.to_str().unwrap_or("")`, as bytes.
pub fn header_text_bytes(raw: &[u8]) -> (r: Vec<u8>)
    ensures
        r@ == header_text(raw@),
{
    if is_all_visible(raw) {
        copy_range(raw, 0, raw.len())
    } else {
        Vec::new()
    }
}

/// `value.to_str().unwrap_or("")`, as a string.
pub fn header_text_string(raw: &[u8]) -> (r: String)
    ensures
        r@ == ascii_chars(header_text(raw@)),
{
    let t = header_text_bytes(raw);
    ascii_string(t)
}

/// Whether every byte of `raw` may stand in a header value.
pub fn is_valid_header_value(raw: &[u8]) -> (r: bool)
    ensures
        r == all_valid_header_bytes(raw@),
{
    let mut i: usize = 0;
    while i < raw.len()
        invariant
            i <= raw.len(),
            forall|j: int| 0 <= j < i ==> is_valid_header_byte(#[trigger] raw@[j]),
        decreases raw.len() - i,
    {
        let b = raw[i];
        if !((b >= 32 && b != 127) || b == 9) {
            assert(!is_valid_header_byte(raw@[i as int]));
            return false;
        }
        i = i + 1;
    }
    true
}

/// The value of the `Range` header that resumes a download after `n` bytes:
/// `bytes=<n>-`.
pub open spec fn range_value(n: u64) -> Seq<char> {
    "bytes="@ + ascii_chars(decimal(n as nat)) + "-"@
}

/// The text `bytes=<n>-`.
pub fn range_header_value(n: u64) -> (r: String)
    ensures
        r@ == range_value(n),
{
    proof {
        lemma_decimal_shape(n as nat);
    }
    let digits = ascii_string(decimal_bytes(n));
    let mut r = String::from_str("bytes=");
    r.append(digits.as_str());
    r.append("-");
    r
}

/// The headers of a download request: a `Range` header from the bytes that
/// are already on disk when the download resumes, and the user agent.
/// Fails, as `user_agent.parse::<HeaderValue>()` does, when the user agent
/// holds a byte that no header value may hold.
pub fn prep_headers(bytes_on_disk: Option<u64>, resume: bool, user_agent: &str) -> (r: Result<
    RequestHeaders,
    HeaderError,
>)
    ensures
        r is Ok <==> all_valid_header_bytes(encode_utf8(user_agent@)),
        r matches Ok(h) ==> {
            &&& h.user_agent@ == user_agent@
            &&& h.range is Some <==> (resume && bytes_on_disk is Some)
            &&& h.range matches Some(v) ==> v@ == range_value(bytes_on_disk->0)
        },
        r matches Err(e) ==> e == HeaderError::InvalidUserAgent,
        all_visible(encode_utf8(user_agent@)) ==> r is Ok,
{
    proof {
        if all_visible(encode_utf8(user_agent@)) {
            law_visible_is_valid(encode_utf8(user_agent@));
        }
    }
    let range = match bytes_on_disk {
        Some(count) => {
            if resume {
                Some(range_header_value(count))
            } else {
                None
            }
        },
        None => None,
    };
    if !is_valid_header_value(user_agent.as_bytes()) {
        return Err(HeaderError::InvalidUserAgent);
    }
    Ok(RequestHeaders { range, user_agent: user_agent.to_owned() })
}

} // verus!
