//! The state file of a concurrent download: one `<byte count>:<offset>` line
//! per chunk written, and the byte count on disk that it records.

use vstd::prelude::*;
use vstd::utf8::{valid_utf8, encode_utf8};
use crate::bytes::{
    before_first, find_byte, find_first, lemma_find_byte, copy_range, string_from_utf8,
    all_ascii, ascii_chars, ascii_string,
};
use crate::decimal::{parse_u64, parse_u64_bytes, decimal, decimal_bytes, lemma_decimal_shape};

verus! {

/// Why the byte count on disk could not be read from a state file.
#[derive(Debug, PartialEq, Eq, Clone, Copy)]
pub enum StateFileError {
    /// A line is not UTF-8.
    InvalidUtf8,
    /// The text before a line's first `:` is not a `u64`.
    InvalidNumber,
    /// The byte counts add up to more than a `u64` holds.
    Overflow,
}

/// The first line of `s`, as `BufRead::lines` yields it: the text before the
/// first `\n`, without the `\r` before that `\n`.
pub open spec fn first_line(s: Seq<u8>) -> Seq<u8> {
    let k = find_byte(s, 10);
    let l = s.take(k);
    if k < s.len() && l.len() > 0 && l.last() == 13 {
        l.drop_last()
    } else {
        l
    }
}

/// What follows the first line of `s` and its `\n`.
pub open spec fn after_first_line(s: Seq<u8>) -> Seq<u8> {
    let k = find_byte(s, 10);
    if k < s.len() {
        s.skip(k + 1)
    } else {
        Seq::empty()
    }
}

/// The byte count that a state file's text `s` records on top of `acc`: the
/// sum of the numbers before the first `:` of each line, read line by line;
/// the first line that is not UTF-8 or holds no number, or the first sum that
/// a `u64` cannot hold, is an error.
pub open spec fn state_total(s: Seq<u8>, acc: int) -> Result<u64, StateFileError>
    decreases s.len(),
{
    if s.len() == 0 {
        Ok(acc as u64)
    } else {
        let line = first_line(s);
        if !valid_utf8(line) {
            Err(StateFileError::InvalidUtf8)
        } else {
            match parse_u64(before_first(line, 58)) {
                None => Err(StateFileError::InvalidNumber),
                Some(v) => if acc + v > u64::MAX {
                    Err(StateFileError::Overflow)
                } else {
                    proof {
                        lemma_find_byte(s, 10);
                    }
                    state_total(after_first_line(s), acc + v)
                },
            }
        }
    }
}

/// The line that records a chunk of `byte_count` bytes written at `offset`:
/// `<byte_count>:<offset>` and a newline.
pub open spec fn state_line(byte_count: u64, offset: u64) -> Seq<u8> {
    decimal(byte_count as nat) + seq![58u8] + decimal(offset as nat) + seq![10u8]
}

/// The text of a state file holding one line per record, in order.
pub open spec fn state_file_text(records: Seq<(u64, u64)>) -> Seq<u8>
    decreases records.len(),
{
    if records.len() == 0 {
        Seq::empty()
    } else {
        state_line(records[0].0, records[0].1) + state_file_text(records.drop_first())
    }
}

/// The sum of the records' byte counts.
pub open spec fn records_total(records: Seq<(u64, u64)>) -> int
    decreases records.len(),
{
    if records.len() == 0 {
        0
    } else {
        records[0].0 + records_total(records.drop_first())
    }
}

proof fn lemma_find_byte_at(s: Seq<u8>, c: u8, k: int)
    requires
        0 <= k < s.len(),
        s[k] == c,
        forall|i: int| 0 <= i < k ==> s[i] != c,
    ensures
        find_byte(s, c) == k,
{
    lemma_find_byte(s, c);
    let f = find_byte(s, c);
    if f < k {
        assert(s[f] == c);
    }
}

proof fn lemma_records_total_nonneg(records: Seq<(u64, u64)>)
    ensures
        records_total(records) >= 0,
    decreases records.len(),
{
    if records.len() > 0 {
        lemma_records_total_nonneg(records.drop_first());
    }
}

/// Reading back what the state-file lines record gives the sum of their byte
/// counts on top of `acc`, whenever that sum fits in a `u64`.
pub proof fn law_state_file_total(records: Seq<(u64, u64)>, acc: int)
    requires
        0 <= acc,
        acc + records_total(records) <= u64::MAX,
    ensures
        state_total(state_file_text(records), acc) == Ok::<u64, StateFileError>(
            (acc + records_total(records)) as u64,
        ),
    decreases records.len(),
{
    lemma_records_total_nonneg(records);
    if records.len() > 0 {
        let b = records[0].0;
        let o = records[0].1;
        let rest = records.drop_first();
        lemma_records_total_nonneg(rest);
        let d1 = decimal(b as nat);
        let d2 = decimal(o as nat);
        crate::decimal::lemma_decimal_shape(b as nat);
        crate::decimal::lemma_decimal_shape(o as nat);
        crate::decimal::law_parse_decimal_roundtrip(b);
        let l = state_line(b, o);
        let t = state_file_text(rest);
        let s = l + t;
        assert(state_file_text(records) == s);
        let k = l.len() - 1;
        assert forall|i: int| 0 <= i < k implies s[i] != 10u8 && s[i] < 128 by {
            if i < d1.len() {
                assert(s[i] == d1[i]);
                assert(crate::decimal::is_digit(d1[i]));
            } else if i > d1.len() {
                assert(s[i] == d2[i - d1.len() - 1]);
                assert(crate::decimal::is_digit(d2[i - d1.len() - 1]));
            }
        }
        assert(s[k] == 10u8);
        lemma_find_byte_at(s, 10u8, k);
        let line = s.take(k);
        assert(line == d1 + seq![58u8] + d2);
        assert(line.last() == d2.last());
        assert(crate::decimal::is_digit(d2[d2.len() - 1]));
        assert(first_line(s) == line);
        assert(all_ascii(line)) by {
            assert forall|i: int| 0 <= i < line.len() implies line[i] < 128 by {
                assert(line[i] == s[i]);
            }
        }
        crate::bytes::lemma_ascii_utf8(line);
        assert forall|i: int| 0 <= i < d1.len() implies line[i] != 58u8 by {
            assert(line[i] == d1[i]);
            assert(crate::decimal::is_digit(d1[i]));
        }
        assert(line[d1.len() as int] == 58u8);
        lemma_find_byte_at(line, 58u8, d1.len() as int);
        lemma_find_byte(line, 58u8);
        assert(line.take(d1.len() as int) == d1);
        assert(before_first(line, 58u8) == d1);
        assert(after_first_line(s) == t);
        assert(s.len() > 0);
        law_state_file_total(rest, acc + b);
    }
}

/// The byte count on disk read from a state file's text.
pub fn sum_state_file(content: &[u8]) -> (r: Result<u64, StateFileError>)
    ensures
        r == state_total(content@, 0),
{
    let mut pos: usize = 0;
    let mut acc: u64 = 0;
    assert(content@.skip(0) == content@);
    while pos < content.len()
        invariant
            pos <= content.len(),
            state_total(content@, 0) == state_total(content@.skip(pos as int), acc as int),
        decreases content.len() - pos,
    {
        let rest = &content[pos..content.len()];
        assert(rest@ == content@.skip(pos as int));
        let k = find_first(rest, 10);
        proof {
            lemma_find_byte(rest@, 10);
        }
        let mut end = k;
        if k < rest.len() && k > 0 && rest[k - 1] == 13 {
            end = k - 1;
        }
        let line = copy_range(rest, 0, end);
        assert(line@ == first_line(rest@));
        let ghost line_view = line@;
        let colon = find_first(line.as_slice(), 58);
        proof {
            lemma_find_byte(line_view, 58);
        }
        let number = parse_u64_bytes(&line.as_slice()[0..colon]);
        assert(line_view.subrange(0, colon as int) == before_first(line_view, 58));
        match string_from_utf8(line) {
            None => {
                return Err(StateFileError::InvalidUtf8);
            },
            Some(_) => {},
        }
        match number {
            None => {
                return Err(StateFileError::InvalidNumber);
            },
            Some(v) => {
                if acc > u64::MAX - v {
                    return Err(StateFileError::Overflow);
                }
                acc = acc + v;
            },
        }
        if k < rest.len() {
            assert(content@.skip(pos + k + 1) == rest@.skip(k + 1));
            pos = pos + k + 1;
        } else {
            assert(content@.skip(content.len() as int) == Seq::<u8>::empty());
            pos = content.len();
        }
    }
    assert(content@.skip(pos as int) == Seq::<u8>::empty());
    Ok(acc)
}

/// The byte count already on disk: what the state file records when there is
/// one (`state_file` holds its text), else the length of the downloaded file
/// when there is one.
pub fn bytes_on_disk(state_file: Option<&[u8]>, file_len: Option<u64>) -> (r: Result<
    Option<u64>,
    StateFileError,
>)
    ensures
        state_file matches Some(t) ==> match state_total(t@, 0) {
            Ok(n) => r == Ok::<Option<u64>, StateFileError>(Some(n)),
            Err(e) => r == Err::<Option<u64>, StateFileError>(e),
        },
        state_file is None ==> r == Ok::<Option<u64>, StateFileError>(file_len),
{
    match state_file {
        Some(text) => match sum_state_file(text) {
            Ok(n) => Ok(Some(n)),
            Err(e) => Err(e),
        },
        None => Ok(file_len),
    }
}

/// The state-file line for a chunk of `byte_count` bytes written at `offset`.
pub fn format_state_line(byte_count: u64, offset: u64) -> (r: String)
    ensures
        r@ == ascii_chars(state_line(byte_count, offset)),
        encode_utf8(r@) == state_line(byte_count, offset),
{
    proof {
        lemma_decimal_shape(byte_count as nat);
        lemma_decimal_shape(offset as nat);
    }
    let mut line = decimal_bytes(byte_count);
    line.push(58);
    let digits = decimal_bytes(offset);
    let mut i: usize = 0;
    let ghost start = line@;
    while i < digits.len()
        invariant
            i <= digits.len(),
            line@ == start + digits@.take(i as int),
        decreases digits.len() - i,
    {
        line.push(digits[i]);
        assert(digits@.take(i + 1) == digits@.take(i as int).push(digits@[i as int]));
        i = i + 1;
    }
    assert(digits@.take(digits.len() as int) == digits@);
    line.push(10);
    assert(line@ == state_line(byte_count, offset));
    assert(all_ascii(line@)) by {
        assert forall|j: int| 0 <= j < line@.len() implies line@[j] < 128 by {
            let d1 = decimal(byte_count as nat);
            let d2 = decimal(offset as nat);
            if j < d1.len() {
                assert(line@[j] == d1[j]);
            } else if j == d1.len() {
            } else if j < d1.len() + 1 + d2.len() {
                assert(line@[j] == d2[j - d1.len() - 1]);
            }
        }
    }
    proof {
        crate::bytes::lemma_ascii_bytes_chars(line@);
    }
    ascii_string(line)
}

} // verus!
