//! Download URLs: what the logic reads of a URL, and the choice of protocol.

use vstd::prelude::*;
use vstd::utf8::is_ascii_chars;
use crate::bytes::str_eq;

verus! {

#[verifier::external_type_specification]
#[verifier::external_body]
pub struct ExUrlParseError(url::ParseError);

/// Whether `url::Url::parse` accepts the text `input`.
pub uninterp spec fn url_parses(input: Seq<char>) -> bool;

/// What `url::Url::scheme` gives for the URL that `url::Url::parse` reads from `input`.
pub uninterp spec fn url_scheme(input: Seq<char>) -> Seq<char>;

/// What `url::Url::path` gives for the URL that `url::Url::parse` reads from `input`.
pub uninterp spec fn url_path(input: Seq<char>) -> Seq<char>;

/// Calls `url::Url::parse` on `input` and, on success, `Url::scheme` and
/// `Url::path`. Claimed: success depends on the text alone; the scheme and the
/// path are functions of the text and ASCII, as the crate documents them
/// ("lower-cased, as an ASCII string"; "a percent-encoded ASCII string").
#[verifier::external_body]
fn parse_url_parts(input: &str) -> (r: Result<(String, String), url::ParseError>)
    ensures
        r is Ok <==> url_parses(input@),
        r matches Ok((scheme, path)) ==> {
            &&& scheme@ == url_scheme(input@)
            &&& path@ == url_path(input@)
            &&& is_ascii_chars(scheme@)
            &&& is_ascii_chars(path@)
        },
{
    match url::Url::parse(input) {
        Ok(u) => Ok((u.scheme().to_string(), u.path().to_string())),
        Err(e) => Err(e),
    }
}

/// A URL to download from: its text, and the scheme and path that the URL
/// parser reads from it.
pub struct DownloadUrl {
    text: String,
    scheme: String,
    path: String,
}

impl DownloadUrl {
    #[verifier::type_invariant]
    spec fn parsed(self) -> bool {
        &&& url_parses(self.text@)
        &&& self.scheme@ == url_scheme(self.text@)
        &&& self.path@ == url_path(self.text@)
        &&& is_ascii_chars(self.scheme@)
        &&& is_ascii_chars(self.path@)
    }

    /// The text the URL was parsed from.
    pub closed spec fn text_view(&self) -> Seq<char> {
        self.text@
    }

    /// Parses `input` as an absolute URL.
    pub fn parse(input: &str) -> (r: Result<DownloadUrl, url::ParseError>)
        ensures
            r is Ok <==> url_parses(input@),
            r matches Ok(u) ==> u.text_view() == input@,
    {
        match parse_url_parts(input) {
            Ok((scheme, path)) => Ok(DownloadUrl { text: input.to_owned(), scheme, path }),
            Err(e) => Err(e),
        }
    }

    /// The text the URL was parsed from.
    pub fn as_str(&self) -> (r: &str)
        ensures
            r@ == self.text_view(),
    {
        self.text.as_str()
    }

    /// The URL's scheme, lower-cased.
    pub fn scheme(&self) -> (r: &str)
        ensures
            r@ == url_scheme(self.text_view()),
            is_ascii_chars(r@),
    {
        proof {
            use_type_invariant(self);
        }
        self.scheme.as_str()
    }

    /// The URL's path, percent-encoded.
    pub fn path(&self) -> (r: &str)
        ensures
            r@ == url_path(self.text_view()),
            is_ascii_chars(r@),
    {
        proof {
            use_type_invariant(self);
        }
        self.path.as_str()
    }
}

/// How a URL's content is fetched.
#[derive(Debug, PartialEq, Eq, Clone, Copy)]
pub enum Protocol {
    Ftp,
    Http,
}

/// The message for a scheme that no protocol serves.
pub open spec fn unsupported_scheme_message(scheme: Seq<char>) -> Seq<char> {
    "unsupported url scheme '"@ + scheme + "'"@
}

/// The protocol that serves `scheme`: FTP for `ftp`, HTTP for `http` and
/// `https`; any other scheme is refused with a message that names it.
pub fn select_protocol(scheme: &str) -> (r: Result<Protocol, String>)
    ensures
        scheme@ == "ftp"@ ==> r == Ok::<Protocol, String>(Protocol::Ftp),
        (scheme@ == "http"@ || scheme@ == "https"@) ==> r == Ok::<Protocol, String>(Protocol::Http),
        (scheme@ != "ftp"@ && scheme@ != "http"@ && scheme@ != "https"@) ==> (r matches Err(m)
            && m@ == unsupported_scheme_message(scheme@)),
{
    proof {
        reveal_strlit("ftp");
        reveal_strlit("http");
        reveal_strlit("https");
        assert("ftp"@.len() == 3);
        assert("http"@.len() == 4);
        assert("https"@.len() == 5);
    }
    if str_eq(scheme, "ftp") {
        Ok(Protocol::Ftp)
    } else if str_eq(scheme, "http") || str_eq(scheme, "https") {
        Ok(Protocol::Http)
    } else {
        let mut m = String::from_str("unsupported url scheme '");
        m.append(scheme);
        m.append("'");
        Err(m)
    }
}

} // verus!
