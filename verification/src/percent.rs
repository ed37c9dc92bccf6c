//! Percent-decoding of URL text (`%41` stands for the byte `0x41`).

use vstd::prelude::*;
use vstd::utf8::{valid_utf8, decode_utf8, encode_utf8};
use crate::bytes::string_from_utf8;

verus! {

/// The value of a hexadecimal digit.
pub open spec fn hex_value(b: u8) -> Option<u8> {
    if 48 <= b <= 57 {
        Some((b - 48) as u8)
    } else if 97 <= b <= 102 {
        Some((b - 87) as u8)
    } else if 65 <= b <= 70 {
        Some((b - 55) as u8)
    } else {
        None
    }
}

/// The bytes that the percent-encoded text `s` stands for: `%` and two
/// hexadecimal digits stand for the byte they spell, any other byte for
/// itself. A `%` that two hexadecimal digits do not follow makes the text
/// malformed (`None`).
pub open spec fn percent_decode(s: Seq<u8>) -> Option<Seq<u8>>
    decreases s.len(),
{
    if s.len() == 0 {
        Some(Seq::empty())
    } else if s[0] == 37 {
        if s.len() >= 3 && hex_value(s[1]) is Some && hex_value(s[2]) is Some {
            match percent_decode(s.skip(3)) {
                Some(rest) => Some(
                    seq![(hex_value(s[1])->0 * 16 + hex_value(s[2])->0) as u8] + rest,
                ),
                None => None,
            }
        } else {
            None
        }
    } else {
        match percent_decode(s.drop_first()) {
            Some(rest) => Some(seq![s[0]] + rest),
            None => None,
        }
    }
}

/// Why percent-encoded text could not be decoded.
#[derive(Debug, PartialEq, Eq, Clone, Copy)]
pub enum DecodeError {
    /// A `%` is not followed by two hexadecimal digits.
    MalformedEscape,
    /// The decoded bytes are not UTF-8.
    InvalidUtf8,
}

/// Text without `%` decodes to itself: every byte other than a `%`
/// escape, `+` included, stands for itself.
pub proof fn law_percent_decode_plain(s: Seq<u8>)
    requires
        !s.contains(37u8),
    ensures
        percent_decode(s) == Some(s),
    decreases s.len(),
{
    if s.len() > 0 {
        assert(s[0] != 37u8) by {
            assert(s.contains(s[0]));
        }
        let t = s.drop_first();
        assert(!t.contains(37u8)) by {
            if t.contains(37u8) {
                let j = choose|j: int| 0 <= j < t.len() && t[j] == 37u8;
                assert(s[j + 1] == 37u8);
            }
        }
        law_percent_decode_plain(t);
        assert(seq![s[0]] + t == s);
    }
}

/// A `%` escape followed by plain text decodes to the escaped byte followed
/// by that text.
pub proof fn law_percent_decode_escape(hi: u8, lo: u8, rest: Seq<u8>)
    requires
        hex_value(hi) is Some,
        hex_value(lo) is Some,
        !rest.contains(37u8),
    ensures
        percent_decode(seq![37u8, hi, lo] + rest) == Some(
            seq![(hex_value(hi)->0 * 16 + hex_value(lo)->0) as u8] + rest,
        ),
{
    let s = seq![37u8, hi, lo] + rest;
    assert(s.skip(3) == rest);
    law_percent_decode_plain(rest);
}

/// Decoding keeps text non-empty.
pub proof fn lemma_percent_decode_nonempty(s: Seq<u8>)
    requires
        s.len() > 0,
        percent_decode(s) is Some,
    ensures
        percent_decode(s)->0.len() > 0,
{
}

/// Non-empty UTF-8 decodes to at least one character.
pub proof fn lemma_decode_utf8_nonempty(b: Seq<u8>)
    requires
        b.len() > 0,
        valid_utf8(b),
    ensures
        decode_utf8(b).len() > 0,
{
}

fn hex_digit(b: u8) -> (r: Option<u8>)
    ensures
        r == hex_value(b),
{
    if 48 <= b && b <= 57 {
        Some(b - 48)
    } else if 97 <= b && b <= 102 {
        Some(b - 87)
    } else if 65 <= b && b <= 70 {
        Some(b - 55)
    } else {
        None
    }
}

/// The bytes that the percent-encoded text `s` stands for, `None` when a `%`
/// is not followed by two hexadecimal digits.
pub fn percent_decode_bytes(s: &[u8]) -> (r: Option<Vec<u8>>)
    ensures
        r matches Some(v) ==> percent_decode(s@) == Some(v@),
        r is None ==> percent_decode(s@) is None,
{
    let mut out: Vec<u8> = Vec::new();
    let mut i: usize = 0;
    proof {
        assert(s@.skip(0) == s@);
        assert forall|rest: Seq<u8>| Seq::<u8>::empty() + rest == rest by {
            assert(Seq::<u8>::empty() + rest =~= rest);
        }
    }
    while i < s.len()
        invariant
            i <= s.len(),
            percent_decode(s@) == match percent_decode(s@.skip(i as int)) {
                Some(rest) => Some(out@ + rest),
                None => None::<Seq<u8>>,
            },
        decreases s.len() - i,
    {
        let ghost rest_before = s@.skip(i as int);
        let b = s[i];
        assert(rest_before[0] == b);
        if b == 37 {
            if s.len() - i > 2 {
                let hi = hex_digit(s[i + 1]);
                let lo = hex_digit(s[i + 2]);
                assert(rest_before[1] == s@[i + 1]);
                assert(rest_before[2] == s@[i + 2]);
                match (hi, lo) {
                    (Some(h), Some(l)) => {
                        assert(rest_before.skip(3) == s@.skip(i + 3));
                        let v: u8 = h * 16 + l;
                        proof {
                            let ghost old_out = out@;
                            assert forall|rest: Seq<u8>| old_out + (seq![v] + rest) == old_out.push(v) + rest by {
                                assert(old_out + (seq![v] + rest) =~= old_out.push(v) + rest);
                            }
                        }
                        out.push(v);
                        i = i + 3;
                    },
                    _ => {
                        return None;
                    },
                }
            } else {
                return None;
            }
        } else {
            assert(rest_before.drop_first() == s@.skip(i + 1));
            proof {
                let ghost old_out = out@;
                assert forall|rest: Seq<u8>| old_out + (seq![b] + rest) == old_out.push(b) + rest by {
                    assert(old_out + (seq![b] + rest) =~= old_out.push(b) + rest);
                }
            }
            out.push(b);
            i = i + 1;
        }
    }
    assert(s@.skip(i as int) == Seq::<u8>::empty());
    assert(out@ + Seq::<u8>::empty() == out@);
    Some(out)
}

/// Percent-decodes `data` and reads the bytes it stands for as UTF-8.
pub fn decode_percent_encoded_data(data: &str) -> (r: Result<String, DecodeError>)
    ensures
        r matches Ok(s) ==> percent_decode(encode_utf8(data@)) matches Some(b) && valid_utf8(b)
            && s@ == decode_utf8(b),
        r == Err::<String, DecodeError>(DecodeError::MalformedEscape) <==> percent_decode(
            encode_utf8(data@),
        ) is None,
        r == Err::<String, DecodeError>(DecodeError::InvalidUtf8) <==> (percent_decode(
            encode_utf8(data@),
        ) matches Some(b) && !valid_utf8(b)),
        !encode_utf8(data@).contains(37u8) ==> (r matches Ok(s) && s@ == data@),
{
    proof {
        if !encode_utf8(data@).contains(37u8) {
            law_percent_decode_plain(encode_utf8(data@));
            vstd::utf8::encode_utf8_valid_utf8(data@);
            vstd::utf8::encode_utf8_decode_utf8(data@);
        }
    }
    match percent_decode_bytes(data.as_bytes()) {
        None => Err(DecodeError::MalformedEscape),
        Some(bytes) => match string_from_utf8(bytes) {
            Some(s) => Ok(s),
            None => Err(DecodeError::InvalidUtf8),
        },
    }
}

} // verus!
