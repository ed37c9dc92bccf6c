//! The name under which a download is saved.

use vstd::prelude::*;
use vstd::utf8::{valid_utf8, decode_utf8, encode_utf8, is_ascii_chars};
use crate::bytes::{
    after_last, trim_start, trim_end, contains_seq, all_ascii, ascii_chars, ascii_string,
    after_last_start, trim_start_index, trim_end_index, contains_pattern, copy_range,
    lemma_after_last_is_suffix, lemma_trim_start_is_suffix, lemma_trim_end_is_prefix,
    lemma_ascii_chars_bytes, lemma_ascii_bytes_chars, lemma_ascii_utf8, occurs_at,
};
use crate::header::{ResponseHeaders, header_text, header_text_bytes, is_visible_ascii, all_visible};
use crate::location::{DownloadUrl, url_path};
use crate::percent::{
    percent_decode, decode_percent_encoded_data, lemma_percent_decode_nonempty,
    lemma_decode_utf8_nonempty,
};

verus! {

/// The bytes of `filename=`.
pub open spec fn filename_key() -> Seq<u8> {
    seq![102u8, 105u8, 108u8, 101u8, 110u8, 97u8, 109u8, 101u8, 61u8]
}

/// The file name that the text of a `Content-Disposition` value gives: when
/// the text holds `filename=`, the part after its last `;`, then after that
/// part's last `=`, without leading and trailing `"`; none when that is empty.
pub open spec fn disposition_filename(text: Seq<u8>) -> Option<Seq<u8>> {
    if !contains_seq(text, filename_key()) {
        None
    } else {
        let x = trim_end(trim_start(after_last(after_last(text, 59u8), 61u8), 34u8), 34u8);
        if x.len() > 0 {
            Some(x)
        } else {
            None
        }
    }
}

/// The file name that a raw `Content-Disposition` value gives (a value that
/// is not visible ASCII reads as empty text, and so gives none).
pub open spec fn header_filename(raw: Seq<u8>) -> Option<Seq<u8>> {
    disposition_filename(header_text(raw))
}

/// The raw `Content-Disposition` value among the headers, if any.
pub open spec fn disposition_value(headers: Option<&ResponseHeaders>) -> Option<Seq<u8>> {
    match headers {
        Some(h) => match h.content_disposition {
            Some(v) => Some(v@),
            None => None,
        },
        None => None,
    }
}

/// The characters of an optional text.
pub open spec fn opt_chars(s: Option<&str>) -> Option<Seq<char>> {
    match s {
        Some(t) => Some(t@),
        None => None,
    }
}

/// The text for the last segment `name` of a URL path: its percent-decoding
/// when that is well formed UTF-8, else the segment as it stands.
pub open spec fn url_name_text(name: Seq<u8>) -> Seq<char> {
    match percent_decode(name) {
        Some(d) => if valid_utf8(d) {
            decode_utf8(d)
        } else {
            ascii_chars(name)
        },
        None => ascii_chars(name),
    }
}

/// The name a download is saved under: the name given, else the file name of
/// the `Content-Disposition` header, else the decoded last segment of the URL
/// path (`path` as bytes), else `index.html`.
pub open spec fn filename_for(
    path: Seq<u8>,
    fname: Option<Seq<char>>,
    disposition: Option<Seq<u8>>,
) -> Seq<char> {
    match fname {
        Some(n) => n,
        None => match (match disposition {
            Some(raw) => header_filename(raw),
            None => None,
        }) {
            Some(x) => ascii_chars(x),
            None => {
                let name = after_last(path, 47u8);
                if name.len() > 0 {
                    url_name_text(name)
                } else {
                    "index.html"@
                }
            },
        },
    }
}

/// A file name from `Content-Disposition` holds no `;` and no `=`, does not
/// begin or end with `"`, and is visible ASCII.
pub proof fn law_disposition_filename_clean(raw: Seq<u8>)
    requires
        header_filename(raw) is Some,
    ensures
        ({
            let x = header_filename(raw)->0;
            &&& x.len() > 0
            &&& !x.contains(59u8)
            &&& !x.contains(61u8)
            &&& x[0] != 34u8
            &&& x.last() != 34u8
            &&& all_visible(x)
        }),
{
    let text = header_text(raw);
    let a = after_last(text, 59u8);
    let b = after_last(a, 61u8);
    let c = trim_start(b, 34u8);
    let x = trim_end(c, 34u8);
    let ka = lemma_after_last_is_suffix(text, 59u8);
    let kb = lemma_after_last_is_suffix(a, 61u8);
    let kc = lemma_trim_start_is_suffix(b, 34u8);
    let kx = lemma_trim_end_is_prefix(c, 34u8);
    crate::bytes::lemma_after_last_no_sep(text, 59u8);
    crate::bytes::lemma_after_last_no_sep(a, 61u8);
    assert(x.len() > 0);
    assert forall|i: int| 0 <= i < x.len() implies x[i] == text[ka + kb + kc + i] by {
        assert(x[i] == c[i]);
        assert(c[i] == b[kc + i]);
        assert(b[kc + i] == a[kb + kc + i]);
        assert(a[kb + kc + i] == text[ka + kb + kc + i]);
    }
    assert forall|i: int| 0 <= i < x.len() implies x[i] != 59u8 && x[i] != 61u8 by {
        assert(x[i] == b[kc + i]);
        assert(b.contains(b[kc + i]) ==> b[kc + i] != 61u8);
        assert(b[kc + i] == a[kb + kc + i]);
        assert(a.contains(a[kb + kc + i]));
    }
    assert(x[0] == c[0]);
    assert(all_visible(text) || text.len() == 0);
    assert forall|i: int| 0 <= i < x.len() implies is_visible_ascii(#[trigger] x[i]) by {
        assert(x[i] == text[ka + kb + kc + i]);
    }
}

/// Without a name given, the name chosen is never empty.
pub proof fn law_filename_nonempty(path: Seq<u8>, disposition: Option<Seq<u8>>)
    ensures
        filename_for(path, None, disposition).len() > 0,
{
    reveal_strlit("index.html");
    match (match disposition {
        Some(raw) => header_filename(raw),
        None => None,
    }) {
        Some(x) => {
            law_disposition_filename_clean(disposition->0);
        },
        None => {
            let name = after_last(path, 47u8);
            if name.len() > 0 {
                match percent_decode(name) {
                    Some(d) => {
                        lemma_percent_decode_nonempty(name);
                        if valid_utf8(d) {
                            lemma_decode_utf8_nonempty(d);
                        }
                    },
                    None => {},
                }
            }
        },
    }
}

/// When no name is given and the `Content-Disposition` value gives a file
/// name, that name is chosen, whatever the URL path is.
pub proof fn law_header_name_wins(path: Seq<u8>, raw: Seq<u8>)
    requires
        header_filename(raw) is Some,
    ensures
        filename_for(path, None, Some(raw)) == ascii_chars(header_filename(raw)->0),
{
}

/// When the headers give no file name, the choice depends on the URL path
/// alone.
pub proof fn law_path_used_without_header_name(path: Seq<u8>, disposition: Option<Seq<u8>>)
    requires
        disposition matches Some(raw) ==> header_filename(raw) is None,
    ensures
        filename_for(path, None, disposition) == filename_for(path, None, None),
{
}

/// A last path segment without `%` is the name as it stands: for a path
/// `prefix/name` with no `/` or `%` in the ASCII `name`, and no file name from
/// the headers, the name chosen is `name`.
pub proof fn law_plain_segment_kept(prefix: Seq<u8>, name: Seq<u8>, disposition: Option<Seq<u8>>)
    requires
        name.len() > 0,
        all_ascii(name),
        !name.contains(47u8),
        !name.contains(37u8),
        disposition matches Some(raw) ==> header_filename(raw) is None,
    ensures
        filename_for(prefix + seq![47u8] + name, None, disposition) == ascii_chars(name),
{
    let path = prefix + seq![47u8] + name;
    crate::bytes::lemma_after_last_append(prefix + seq![47u8], name, 47u8);
    assert((prefix + seq![47u8]).last() == 47u8);
    assert(after_last(prefix + seq![47u8], 47u8) == Seq::<u8>::empty());
    assert(Seq::<u8>::empty() + name == name);
    assert(after_last(path, 47u8) == name);
    crate::percent::law_percent_decode_plain(name);
    lemma_ascii_utf8(name);
}

/// For a value `<anything>filename="<n>"` whose name `n` is non-empty visible
/// ASCII without `;`, `=` or `"`, the file name is exactly `n` (spaces and
/// all).
pub proof fn law_disposition_quoted(prefix: Seq<u8>, n: Seq<u8>)
    requires
        all_visible(prefix),
        n.len() > 0,
        all_visible(n),
        !n.contains(59u8),
        !n.contains(61u8),
        !n.contains(34u8),
    ensures
        header_filename(
            prefix + seq![102u8, 105u8, 108u8, 101u8, 110u8, 97u8, 109u8, 101u8, 61u8] + seq![34u8]
                + n + seq![34u8],
        ) == Some(n),
{
    let key = seq![102u8, 105u8, 108u8, 101u8, 110u8, 97u8, 109u8, 101u8, 61u8];
    let q = seq![34u8];
    let text = prefix + key + q + n + q;
    assert forall|i: int| 0 <= i < text.len() implies is_visible_ascii(#[trigger] text[i]) by {
        if i < prefix.len() {
            assert(text[i] == prefix[i]);
        } else if i < prefix.len() + key.len() {
            assert(text[i] == key[i - prefix.len()]);
        } else if i < prefix.len() + key.len() + 1 {
        } else if i < prefix.len() + key.len() + 1 + n.len() {
            assert(text[i] == n[i - prefix.len() - key.len() - 1]);
        }
    }
    assert(header_text(text) == text);
    assert(key == filename_key());
    assert(text.subrange(prefix.len() as int, (prefix.len() + key.len()) as int) == key);
    assert(occurs_at(text, filename_key(), prefix.len() as int));
    // after the last ';'
    let b = key + q + n + q;
    assert(!b.contains(59u8)) by {
        if b.contains(59u8) {
            let j = choose|j: int| 0 <= j < b.len() && b[j] == 59u8;
            if j < key.len() + 1 {
            } else if j < key.len() + 1 + n.len() {
                assert(n[j - key.len() - 1] == 59u8);
                assert(n.contains(59u8));
            }
        }
    }
    assert(text == prefix + b);
    crate::bytes::lemma_after_last_append(prefix, b, 59u8);
    let a = after_last(prefix, 59u8);
    // after the last '='
    let c = q + n + q;
    assert(!c.contains(61u8)) by {
        if c.contains(61u8) {
            let j = choose|j: int| 0 <= j < c.len() && c[j] == 61u8;
            if 0 < j < c.len() - 1 {
                assert(n[j - 1] == 61u8);
                assert(n.contains(61u8));
            }
        }
    }
    assert(a + b == (a + key) + c);
    crate::bytes::lemma_after_last_append(a + key, c, 61u8);
    assert((a + key).last() == 61u8);
    assert(after_last(a + key, 61u8) == Seq::<u8>::empty());
    assert(Seq::<u8>::empty() + c == c);
    // the quotes
    assert(n.contains(n[0]));
    crate::bytes::lemma_trim_start_at(c, 34u8, 1);
    assert(c.subrange(1, c.len() as int) == n + q);
    assert(n.contains(n[n.len() - 1]));
    crate::bytes::lemma_trim_end_at(n + q, 34u8, n.len() as int);
    assert((n + q).subrange(0, n.len() as int) == n);
}

fn filename_key_bytes() -> (r: Vec<u8>)
    ensures
        r@ == filename_key(),
{
    let mut r: Vec<u8> = Vec::new();
    r.push(102);
    r.push(105);
    r.push(108);
    r.push(101);
    r.push(110);
    r.push(97);
    r.push(109);
    r.push(101);
    r.push(61);
    assert(r@ =~= filename_key());
    r
}

/// The file name that the raw `Content-Disposition` value gives, if any.
pub fn content_disposition_filename(raw: &[u8]) -> (r: Option<Vec<u8>>)
    ensures
        r matches Some(v) ==> header_filename(raw@) == Some(v@),
        r is None ==> header_filename(raw@) is None,
{
    let text = header_text_bytes(raw);
    let key = filename_key_bytes();
    if !contains_pattern(text.as_slice(), key.as_slice()) {
        return None;
    }
    let t = text.as_slice();
    let ka = after_last_start(t, 59);
    let a = &t[ka..t.len()];
    let kb = after_last_start(a, 61);
    let b = &a[kb..a.len()];
    let kc = trim_start_index(b, 34);
    let c = &b[kc..b.len()];
    let kx = trim_end_index(c, 34);
    if kx == 0 {
        return None;
    }
    Some(copy_range(c, 0, kx))
}

/// The name a download from `url` is saved under: `fname` when given, else
/// the file name of the `Content-Disposition` header among `headers`, else
/// the percent-decoded last segment of the URL's path (the segment as it
/// stands when it does not decode to UTF-8), else `index.html`.
pub fn gen_filename(
    url: &DownloadUrl,
    fname: Option<&str>,
    headers: Option<&ResponseHeaders>,
) -> (r: String)
    ensures
        r@ == filename_for(
            encode_utf8(url_path(url.text_view())),
            opt_chars(fname),
            disposition_value(headers),
        ),
        fname matches Some(n) ==> r@ == n@,
        fname is None ==> r@.len() > 0,
        (fname is None && disposition_value(headers) is Some && header_filename(
            disposition_value(headers)->0,
        ) is Some) ==> r@ == ascii_chars(header_filename(disposition_value(headers)->0)->0),
{
    filename_from_path(url.path(), fname, headers)
}

/// The name a download is saved under, for a URL whose (ASCII,
/// percent-encoded) path is `path`; see [`gen_filename`].
pub fn filename_from_path(
    path: &str,
    fname: Option<&str>,
    headers: Option<&ResponseHeaders>,
) -> (r: String)
    requires
        is_ascii_chars(path@),
    ensures
        r@ == filename_for(encode_utf8(path@), opt_chars(fname), disposition_value(headers)),
        fname matches Some(n) ==> r@ == n@,
        fname is None ==> r@.len() > 0,
        (fname is None && disposition_value(headers) is Some && header_filename(
            disposition_value(headers)->0,
        ) is Some) ==> r@ == ascii_chars(header_filename(disposition_value(headers)->0)->0),
{
    proof {
        law_filename_nonempty(encode_utf8(path@), disposition_value(headers));
    }
    if let Some(name) = fname {
        return name.to_owned();
    }
    let from_header = match headers {
        Some(h) => match &h.content_disposition {
            Some(v) => content_disposition_filename(v.as_slice()),
            None => None,
        },
        None => None,
    };
    if let Some(x) = from_header {
        proof {
            law_disposition_filename_clean(disposition_value(headers)->0);
        }
        return ascii_string(x);
    }
    let pb = path.as_bytes();
    proof {
        lemma_ascii_chars_bytes(path@);
    }
    let k = after_last_start(pb, 47);
    if k == pb.len() {
        return String::from_str("index.html");
    }
    let name = copy_range(pb, k, pb.len());
    proof {
        lemma_ascii_bytes_chars(name@);
    }
    let name_text = ascii_string(name);
    assert(encode_utf8(name_text@) == name@);
    match decode_percent_encoded_data(name_text.as_str()) {
        Ok(val) => val,
        Err(e) => {
            assert(match e {
                crate::percent::DecodeError::MalformedEscape => percent_decode(name@) is None,
                crate::percent::DecodeError::InvalidUtf8 => !valid_utf8(percent_decode(name@)->0),
            });
            name_text
        },
    }
}

} // verus!
