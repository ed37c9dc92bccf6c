use gtkdownloadbar::filename::filename_from_path;
use gtkdownloadbar::{
    content_disposition_filename, decode_percent_encoded_data, gen_filename, DecodeError,
    DownloadUrl, ResponseHeaders,
};

fn headers_with_disposition(value: &[u8]) -> ResponseHeaders {
    ResponseHeaders {
        content_disposition: Some(value.to_vec()),
        content_type: None,
        content_length: None,
    }
}

fn url(text: &str) -> DownloadUrl {
    DownloadUrl::parse(text).unwrap()
}

#[test]
fn explicit_name_wins() {
    let u = url("https://example.com/files/a.deb");
    let h = headers_with_disposition(b"attachment; filename=\"b.deb\"");
    assert_eq!(gen_filename(&u, Some("mine.bin"), Some(&h)), "mine.bin");
}

#[test]
fn explicit_empty_name_is_kept() {
    let u = url("https://example.com/files/a.deb");
    assert_eq!(gen_filename(&u, Some(""), None), "");
}

#[test]
fn quoted_disposition_name() {
    let u = url("https://example.com/download?id=3");
    let h = headers_with_disposition(b"attachment; filename=\"report.pdf\"");
    assert_eq!(gen_filename(&u, None, Some(&h)), "report.pdf");
}

#[test]
fn disposition_uses_last_parameter() {
    let h = b"attachment; filename=first.txt; size=10";
    assert_eq!(content_disposition_filename(h), Some(b"10".to_vec()));
    let h2 = b"attachment; name=x; filename=plain.txt";
    assert_eq!(content_disposition_filename(h2), Some(b"plain.txt".to_vec()));
}

#[test]
fn disposition_without_filename_key() {
    assert_eq!(content_disposition_filename(b"inline"), None);
    let u = url("https://example.com/files/my%20doc.txt");
    let h = headers_with_disposition(b"inline; name=abc");
    assert_eq!(gen_filename(&u, None, Some(&h)), "my doc.txt");
}

#[test]
fn disposition_of_only_quotes_falls_back() {
    assert_eq!(content_disposition_filename(b"attachment; filename=\"\""), None);
    let u = url("https://example.com/pkg/tool.tar.gz");
    let h = headers_with_disposition(b"attachment; filename=\"\"");
    assert_eq!(gen_filename(&u, None, Some(&h)), "tool.tar.gz");
}

#[test]
fn non_visible_disposition_reads_as_empty() {
    assert_eq!(content_disposition_filename(b"attachment; filename=\xe4.txt"), None);
    let u = url("https://example.com/x/y.zip");
    let h = headers_with_disposition(b"attachment; filename=\xe4.txt");
    assert_eq!(gen_filename(&u, None, Some(&h)), "y.zip");
}

#[test]
fn trailing_slash_gives_index_html() {
    let u = url("https://example.com/dir/");
    assert_eq!(gen_filename(&u, None, None), "index.html");
    let root = url("https://example.com");
    assert_eq!(gen_filename(&root, None, None), "index.html");
}

#[test]
fn malformed_escape_keeps_segment() {
    let u = url("https://example.com/a%zzb");
    assert_eq!(gen_filename(&u, None, None), "a%zzb");
}

#[test]
fn non_utf8_escape_keeps_segment() {
    let u = url("https://example.com/x%FF");
    assert_eq!(gen_filename(&u, None, None), "x%FF");
}

#[test]
fn unicode_path_is_decoded() {
    let u = url("https://example.com/countries/việt nam");
    assert_eq!(gen_filename(&u, None, None), "việt nam");
}

#[test]
fn deb_package_name_from_url() {
    let u = url("https://d.store.deepinos.org.cn//store/chat/chaoxin/chaoxin_1.8.3_amd64.deb");
    assert_eq!(gen_filename(&u, None, None), "chaoxin_1.8.3_amd64.deb");
}

#[test]
fn percent_decoding_cases() {
    assert_eq!(decode_percent_encoded_data("a%20b").unwrap(), "a b");
    assert_eq!(decode_percent_encoded_data("%e4%BD%A0").unwrap(), "你");
    assert_eq!(decode_percent_encoded_data("plain").unwrap(), "plain");
    assert_eq!(decode_percent_encoded_data("").unwrap(), "");
    assert_eq!(decode_percent_encoded_data("%2"), Err(DecodeError::MalformedEscape));
    assert_eq!(decode_percent_encoded_data("%g0"), Err(DecodeError::MalformedEscape));
    assert_eq!(decode_percent_encoded_data("%ff"), Err(DecodeError::InvalidUtf8));
}

#[test]
fn name_from_plain_path() {
    assert_eq!(filename_from_path("/a/b.txt", None, None), "b.txt");
    assert_eq!(filename_from_path("/a/b%2Fc", None, None), "b/c");
    assert_eq!(filename_from_path("", None, None), "index.html");
    assert_eq!(filename_from_path("no-slash", None, None), "no-slash");
}
