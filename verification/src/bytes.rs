//! Byte-string specifications and the verified scans built on them.

use vstd::prelude::*;
use vstd::utf8::*;
use vstd::string::*;

verus! {

/// The part of `s` after the last occurrence of `sep`, or all of `s` when
/// `sep` does not occur: the first item that `rsplit(sep)` yields, and the
/// last item that `split(sep)` yields.
pub open spec fn after_last<T>(s: Seq<T>, sep: T) -> Seq<T>
    decreases s.len(),
{
    if s.len() == 0 {
        s
    } else if s.last() == sep {
        Seq::empty()
    } else {
        after_last(s.drop_last(), sep).push(s.last())
    }
}

/// The part of `s` before the first occurrence of `sep`, or all of `s`:
/// the first item that `split(sep)` yields.
pub open spec fn before_first<T>(s: Seq<T>, sep: T) -> Seq<T>
    decreases s.len(),
{
    if s.len() == 0 {
        s
    } else if s[0] == sep {
        Seq::empty()
    } else {
        seq![s[0]] + before_first(s.drop_first(), sep)
    }
}

/// `s` without all of its leading copies of `c` (`trim_start_matches`).
pub open spec fn trim_start<T>(s: Seq<T>, c: T) -> Seq<T>
    decreases s.len(),
{
    if s.len() > 0 && s[0] == c {
        trim_start(s.drop_first(), c)
    } else {
        s
    }
}

/// `s` without all of its trailing copies of `c` (`trim_end_matches`).
pub open spec fn trim_end<T>(s: Seq<T>, c: T) -> Seq<T>
    decreases s.len(),
{
    if s.len() > 0 && s.last() == c {
        trim_end(s.drop_last(), c)
    } else {
        s
    }
}

/// `pat` occurs in `s` starting at index `i`.
pub open spec fn occurs_at<T>(s: Seq<T>, pat: Seq<T>, i: int) -> bool {
    0 <= i && i + pat.len() <= s.len() && s.subrange(i, i + pat.len()) == pat
}

/// `pat` occurs somewhere in `s`.
pub open spec fn contains_seq<T>(s: Seq<T>, pat: Seq<T>) -> bool {
    exists|i: int| occurs_at(s, pat, i)
}

/// Every byte of `b` is ASCII.
pub open spec fn all_ascii(b: Seq<u8>) -> bool {
    forall|i: int| 0 <= i < b.len() ==> b[i] < 128
}

/// The characters that the ASCII bytes `b` stand for.
pub open spec fn ascii_chars(b: Seq<u8>) -> Seq<char> {
    Seq::new(b.len(), |i: int| b[i] as char)
}

pub proof fn lemma_after_last_no_sep<T>(s: Seq<T>, sep: T)
    ensures
        !after_last(s, sep).contains(sep),
        after_last(s, sep).len() <= s.len(),
    decreases s.len(),
{
    if s.len() > 0 && s.last() != sep {
        lemma_after_last_no_sep(s.drop_last(), sep);
        let a = after_last(s.drop_last(), sep);
        assert forall|i: int| 0 <= i < a.push(s.last()).len() implies a.push(s.last())[i] != sep by {
            if i < a.len() {
                assert(a.contains(a[i]));
            }
        }
    }
}

/// A suffix of `s` that starts just after a `sep` (or at 0) and holds no `sep`
/// is what `after_last` gives.
pub proof fn lemma_after_last_at<T>(s: Seq<T>, sep: T, k: int)
    requires
        0 <= k <= s.len(),
        k > 0 ==> s[k - 1] == sep,
        forall|i: int| k <= i < s.len() ==> s[i] != sep,
    ensures
        after_last(s, sep) == s.subrange(k, s.len() as int),
    decreases s.len(),
{
    if s.len() == 0 {
    } else if s.last() == sep {
        assert(k == s.len());
    } else {
        lemma_after_last_at(s.drop_last(), sep, k);
        assert(s.subrange(k, s.len() as int) == s.drop_last().subrange(k, s.len() - 1).push(s.last()));
    }
}

/// The ASCII bytes are valid UTF-8 and decode to the characters they stand for.
pub proof fn lemma_ascii_utf8(b: Seq<u8>)
    requires
        all_ascii(b),
    ensures
        valid_utf8(b),
        decode_utf8(b) == ascii_chars(b),
    decreases b.len(),
{
    if b.len() > 0 {
        let rest = b.drop_first();
        let x = b[0];
        assert(x & 0x7f == x) by (bit_vector)
            requires
                x < 128,
        ;
        assert(decode_first_scalar(b) == x as u32);
        assert(pop_first_scalar(b) == rest);
        lemma_ascii_utf8(rest);
        assert(ascii_chars(b) == seq![b[0] as char] + ascii_chars(rest));
    }
}

/// `String::from_utf8`: the string the bytes encode, when they are valid UTF-8.
#[verifier::external_body]
pub(crate) fn string_from_utf8(bytes: Vec<u8>) -> (r: Option<String>)
    ensures
        r is Some <==> valid_utf8(bytes@),
        r matches Some(s) ==> s@ == decode_utf8(bytes@),
{
    String::from_utf8(bytes).ok()
}

/// Index just past the last `sep` in `s`, or 0 when there is none.
pub fn after_last_start(s: &[u8], sep: u8) -> (k: usize)
    ensures
        k <= s.len(),
        s@.subrange(k as int, s@.len() as int) == after_last(s@, sep),
{
    let mut k = s.len();
    while k > 0 && s[k - 1] != sep
        invariant
            k <= s.len(),
            forall|i: int| k <= i < s@.len() ==> s@[i] != sep,
        decreases k,
    {
        k = k - 1;
    }
    proof {
        lemma_after_last_at(s@, sep, k as int);
    }
    k
}


/// Text without `sep` appended after `a` stays whole after the last `sep`.
pub proof fn lemma_after_last_append<T>(a: Seq<T>, b: Seq<T>, sep: T)
    requires
        !b.contains(sep),
    ensures
        after_last(a + b, sep) == after_last(a, sep) + b,
    decreases b.len(),
{
    if b.len() == 0 {
        assert(a + b == a);
        assert(after_last(a, sep) + b == after_last(a, sep));
    } else {
        let bl = b.drop_last();
        assert(!bl.contains(sep)) by {
            if bl.contains(sep) {
                let j = choose|j: int| 0 <= j < bl.len() && bl[j] == sep;
                assert(b[j] == sep);
            }
        }
        assert(b.last() != sep) by {
            assert(b.contains(b[b.len() - 1]));
        }
        lemma_after_last_append(a, bl, sep);
        assert((a + b).drop_last() == a + bl);
        assert((a + b).last() == b.last());
        assert((after_last(a, sep) + bl).push(b.last()) == after_last(a, sep) + b);
    }
}

/// `trim_start(s, c)` is the suffix of `s` after its leading run of `c`.
pub proof fn lemma_trim_start_at<T>(s: Seq<T>, c: T, k: int)
    requires
        0 <= k <= s.len(),
        forall|i: int| 0 <= i < k ==> s[i] == c,
        k < s.len() ==> s[k] != c,
    ensures
        trim_start(s, c) == s.subrange(k, s.len() as int),
    decreases k,
{
    if k > 0 {
        lemma_trim_start_at(s.drop_first(), c, k - 1);
        assert(s.drop_first().subrange(k - 1, s.len() - 1) == s.subrange(k, s.len() as int));
    } else {
        assert(s.subrange(0, s.len() as int) == s);
    }
}

/// `trim_end(s, c)` is the prefix of `s` before its trailing run of `c`.
pub proof fn lemma_trim_end_at<T>(s: Seq<T>, c: T, k: int)
    requires
        0 <= k <= s.len(),
        forall|i: int| k <= i < s.len() ==> s[i] == c,
        k > 0 ==> s[k - 1] != c,
    ensures
        trim_end(s, c) == s.subrange(0, k),
    decreases s.len() - k,
{
    if k < s.len() {
        lemma_trim_end_at(s.drop_last(), c, k);
        assert(s.drop_last().subrange(0, k) == s.subrange(0, k));
    } else {
        assert(s.subrange(0, s.len() as int) == s);
    }
}

/// Index of the first element of `s` that is not `c` (or `s.len()`).
pub fn trim_start_index(s: &[u8], c: u8) -> (k: usize)
    ensures
        k <= s.len(),
        s@.subrange(k as int, s@.len() as int) == trim_start(s@, c),
{
    let mut k: usize = 0;
    while k < s.len() && s[k] == c
        invariant
            k <= s.len(),
            forall|i: int| 0 <= i < k ==> s@[i] == c,
        decreases s.len() - k,
    {
        k = k + 1;
    }
    proof {
        lemma_trim_start_at(s@, c, k as int);
    }
    k
}

/// One past the index of the last element of `s` that is not `c` (or 0).
pub fn trim_end_index(s: &[u8], c: u8) -> (k: usize)
    ensures
        k <= s.len(),
        s@.subrange(0, k as int) == trim_end(s@, c),
{
    let mut k: usize = s.len();
    while k > 0 && s[k - 1] == c
        invariant
            k <= s.len(),
            forall|i: int| k <= i < s@.len() ==> s@[i] == c,
        decreases k,
    {
        k = k - 1;
    }
    proof {
        lemma_trim_end_at(s@, c, k as int);
    }
    k
}

/// Whether `pat` occurs in `s`.
pub fn contains_pattern(s: &[u8], pat: &[u8]) -> (r: bool)
    ensures
        r == contains_seq(s@, pat@),
{
    if pat.len() > s.len() {
        assert forall|i: int| !occurs_at(s@, pat@, i) by {}
        return false;
    }
    let last = s.len() - pat.len();
    let mut i: usize = 0;
    while i <= last
        invariant
            last == s.len() - pat.len(),
            pat.len() <= s.len(),
            forall|j: int| 0 <= j < i ==> !occurs_at(s@, pat@, j),
        decreases last + 1 - i,
    {
        let mut m: usize = 0;
        while m < pat.len() && s[i + m] == pat[m]
            invariant
                i <= last,
                last == s.len() - pat.len(),
                m <= pat.len(),
                forall|t: int| 0 <= t < m ==> s@[i + t] == pat@[t],
            decreases pat.len() - m,
        {
            m = m + 1;
        }
        if m == pat.len() {
            assert(s@.subrange(i as int, i + pat@.len()) == pat@);
            assert(occurs_at(s@, pat@, i as int));
            return true;
        }
        assert(s@.subrange(i as int, i + pat@.len())[m as int] != pat@[m as int]);
        i = i + 1;
    }
    assert forall|j: int| !occurs_at(s@, pat@, j) by {
        if 0 <= j < i {
        }
    }
    false
}

/// A copy of `s[from..to]`.
pub fn copy_range(s: &[u8], from: usize, to: usize) -> (r: Vec<u8>)
    requires
        from <= to <= s.len(),
    ensures
        r@ == s@.subrange(from as int, to as int),
{
    let mut r: Vec<u8> = Vec::new();
    let mut i = from;
    while i < to
        invariant
            from <= i <= to <= s.len(),
            r@ == s@.subrange(from as int, i as int),
        decreases to - i,
    {
        r.push(s[i]);
        i = i + 1;
    }
    r
}

/// The string that the ASCII bytes `b` spell.
pub fn ascii_string(b: Vec<u8>) -> (r: String)
    requires
        all_ascii(b@),
    ensures
        r@ == ascii_chars(b@),
{
    proof {
        lemma_ascii_utf8(b@);
    }
    match string_from_utf8(b) {
        Some(s) => s,
        None => String::new(),
    }
}

/// Whether the two texts hold the same characters.
pub fn str_eq(a: &str, b: &str) -> (r: bool)
    ensures
        r == (a@ == b@),
{
    let n = a.unicode_len();
    if n != b.unicode_len() {
        return false;
    }
    let mut i: usize = 0;
    while i < n
        invariant
            n == a@.len(),
            n == b@.len(),
            i <= n,
            forall|j: int| 0 <= j < i ==> a@[j] == b@[j],
        decreases n - i,
    {
        if a.get_char(i) != b.get_char(i) {
            return false;
        }
        i = i + 1;
    }
    assert(a@ =~= b@);
    true
}

/// `after_last(s, sep)` is a suffix of `s`.
pub proof fn lemma_after_last_is_suffix<T>(s: Seq<T>, sep: T) -> (k: int)
    ensures
        0 <= k <= s.len(),
        after_last(s, sep) == s.subrange(k, s.len() as int),
    decreases s.len(),
{
    if s.len() == 0 {
        assert(s.subrange(0, 0) == s);
        0
    } else if s.last() == sep {
        s.len() as int
    } else {
        let k = lemma_after_last_is_suffix(s.drop_last(), sep);
        assert(s.subrange(k, s.len() as int) == s.drop_last().subrange(k, s.len() - 1).push(s.last()));
        k
    }
}

/// `trim_start(s, c)` is a suffix of `s` that does not begin with `c`.
pub proof fn lemma_trim_start_is_suffix<T>(s: Seq<T>, c: T) -> (k: int)
    ensures
        0 <= k <= s.len(),
        trim_start(s, c) == s.subrange(k, s.len() as int),
        trim_start(s, c).len() > 0 ==> trim_start(s, c)[0] != c,
    decreases s.len(),
{
    if s.len() > 0 && s[0] == c {
        let k = lemma_trim_start_is_suffix(s.drop_first(), c);
        assert(s.drop_first().subrange(k, s.len() - 1) == s.subrange(k + 1, s.len() as int));
        k + 1
    } else {
        assert(s.subrange(0, s.len() as int) == s);
        0
    }
}

/// `trim_end(s, c)` is a prefix of `s` that does not end with `c`.
pub proof fn lemma_trim_end_is_prefix<T>(s: Seq<T>, c: T) -> (k: int)
    ensures
        0 <= k <= s.len(),
        trim_end(s, c) == s.subrange(0, k),
        trim_end(s, c).len() > 0 ==> trim_end(s, c).last() != c,
    decreases s.len(),
{
    if s.len() > 0 && s.last() == c {
        let k = lemma_trim_end_is_prefix(s.drop_last(), c);
        assert(s.drop_last().subrange(0, k) == s.subrange(0, k));
        k
    } else {
        assert(s.subrange(0, s.len() as int) == s);
        s.len() as int
    }
}

/// The bytes of ASCII characters are those characters' codes.
pub proof fn lemma_ascii_chars_bytes(chars: Seq<char>)
    requires
        is_ascii_chars(chars),
    ensures
        all_ascii(encode_utf8(chars)),
        ascii_chars(encode_utf8(chars)) == chars,
{
    is_ascii_chars_encode_utf8(chars);
    let b = encode_utf8(chars);
    assert forall|i: int| 0 <= i < b.len() implies b[i] < 128 by {
        assert(chars[i] as u8 == b[i]);
    }
    assert forall|i: int| 0 <= i < chars.len() implies ascii_chars(b)[i] == chars[i] by {
        assert(chars[i] as u8 == b[i]);
    }
    assert(ascii_chars(b) =~= chars);
}

/// The characters of ASCII bytes encode back to those bytes.
pub proof fn lemma_ascii_bytes_chars(b: Seq<u8>)
    requires
        all_ascii(b),
    ensures
        is_ascii_chars(ascii_chars(b)),
        encode_utf8(ascii_chars(b)) == b,
{
    let c = ascii_chars(b);
    assert forall|i: int| 0 <= i < c.len() implies '\0' <= #[trigger] c[i] <= '\u{7f}' by {
        assert(c[i] == b[i] as char);
    }
    is_ascii_chars_encode_utf8(c);
    assert forall|i: int| 0 <= i < b.len() implies encode_utf8(c)[i] == b[i] by {
        assert(c[i] as u8 == encode_utf8(c)[i]);
    }
    assert(encode_utf8(c) =~= b);
}

/// Index of the first `c` in `s`, or `s.len()` when there is none.
pub open spec fn find_byte(s: Seq<u8>, c: u8) -> int
    decreases s.len(),
{
    if s.len() == 0 {
        0
    } else if s[0] == c {
        0
    } else {
        1 + find_byte(s.drop_first(), c)
    }
}

pub proof fn lemma_find_byte(s: Seq<u8>, c: u8)
    ensures
        0 <= find_byte(s, c) <= s.len(),
        forall|i: int| 0 <= i < find_byte(s, c) ==> s[i] != c,
        find_byte(s, c) < s.len() ==> s[find_byte(s, c)] == c,
        before_first(s, c) == s.take(find_byte(s, c)),
    decreases s.len(),
{
    if s.len() == 0 {
        assert(s.take(0) == s);
    } else if s[0] == c {
        assert(s.take(0) == Seq::<u8>::empty());
    } else {
        lemma_find_byte(s.drop_first(), c);
        let k = find_byte(s.drop_first(), c);
        assert forall|i: int| 0 <= i < find_byte(s, c) implies s[i] != c by {
            if i > 0 {
                assert(s[i] == s.drop_first()[i - 1]);
            }
        }
        assert(seq![s[0]] + s.drop_first().take(k) == s.take(k + 1));
    }
}

/// Index of the first `c` in `s`, or `s.len()` when there is none.
pub fn find_first(s: &[u8], c: u8) -> (k: usize)
    ensures
        k as int == find_byte(s@, c),
{
    proof {
        lemma_find_byte(s@, c);
    }
    let mut k: usize = 0;
    while k < s.len() && s[k] != c
        invariant
            k <= s.len(),
            forall|i: int| 0 <= i < k ==> s@[i] != c,
        decreases s.len() - k,
    {
        k = k + 1;
    }
    proof {
        let f = find_byte(s@, c);
        if f < k {
            assert(s@[f] == c);
        } else if f > k {
            assert(s@[k as int] != c);
        }
    }
    k
}

} // verus!
