//! Bytes and characters: decimal numbers, UTF-8 output, and search in bytes.

use vstd::prelude::*;
use vstd::utf8::{encode_utf8, is_ascii_chars, is_ascii_chars_encode_utf8};

pub mod laws;

verus! {

/// The character that stands for a digit below ten.
pub open spec fn digit(d: nat) -> char {
    (48 + d) as char
}

/// The decimal notation of `n`, without leading zeros.
pub open spec fn decimal(n: nat) -> Seq<char>
    decreases n,
{
    if n < 10 {
        seq![digit(n)]
    } else {
        decimal(n / 10).push(digit(n % 10))
    }
}

/// The characters of a text that may be missing.
pub open spec fn optional_text(s: Option<String>) -> Option<Seq<char>> {
    match s {
        Some(s) => Some(s@),
        None => None,
    }
}

/// `needle` stands in `hay` at index `i`.
pub open spec fn occurs_at<T>(needle: Seq<T>, hay: Seq<T>, i: int) -> bool {
    &&& 0 <= i
    &&& i + needle.len() <= hay.len()
    &&& hay.subrange(i, i + needle.len()) == needle
}

/// `needle` stands somewhere in `hay`.
pub open spec fn occurs<T>(needle: Seq<T>, hay: Seq<T>) -> bool {
    exists|i: int| occurs_at(needle, hay, i)
}

/// UTF-8 output of two texts in turn is that of the texts joined.
pub proof fn lemma_encode_concat(a: Seq<char>, b: Seq<char>)
    ensures
        encode_utf8(a + b) == encode_utf8(a) + encode_utf8(b),
    decreases a.len(),
{
    if a.len() == 0 {
        assert(a + b == b);
        assert(encode_utf8(a) + encode_utf8(b) == encode_utf8(b));
    } else {
        assert((a + b).drop_first() == a.drop_first() + b);
        lemma_encode_concat(a.drop_first(), b);
    }
}

/// Appends a text.
pub fn put_str(out: &mut Vec<u8>, s: &str)
    ensures
        final(out)@ == old(out)@ + encode_utf8(s@),
{
    let bytes: &[u8] = s.as_bytes();
    out.extend_from_slice(bytes);
    assert(out@ =~= old(out)@ + encode_utf8(s@));
}

/// Appends a number in decimal notation.
pub fn put_decimal(out: &mut Vec<u8>, n: u16)
    ensures
        final(out)@ == old(out)@ + encode_utf8(decimal(n as nat)),
    decreases n,
{
    let last: u8 = 48 + (n % 10) as u8;
    proof {
        let one = seq![digit((n % 10) as nat)];
        assert(is_ascii_chars(one));
        is_ascii_chars_encode_utf8(one);
        assert(encode_utf8(one) =~= seq![last]);
    }
    if n < 10 {
        out.push(last);
        assert(out@ =~= old(out)@ + seq![last]);
    } else {
        put_decimal(out, n / 10);
        out.push(last);
        proof {
            let front = decimal((n / 10) as nat);
            let one = seq![digit((n % 10) as nat)];
            assert(decimal(n as nat) =~= front + one);
            lemma_encode_concat(front, one);
            assert(out@ =~= old(out)@ + (encode_utf8(front) + seq![last]));
        }
    }
}

/// Whether `needle` stands in `hay` at index `i`.
pub fn find_at(needle: &[u8], hay: &[u8], i: usize) -> (found: bool)
    ensures
        found == occurs_at(needle@, hay@, i as int),
{
    let len: usize = hay.len();
    if i > len || needle.len() > len - i {
        return false;
    }
    let mut k: usize = 0;
    while k < needle.len()
        invariant
            k <= needle@.len(),
            len == hay@.len(),
            i + needle@.len() <= len,
            forall|j: int| 0 <= j < k ==> needle@[j] == hay@[i + j],
        decreases needle@.len() - k,
    {
        if needle[k] != hay[i + k] {
            assert(hay@.subrange(i as int, i + needle@.len())[k as int] == hay@[i + k]);
            return false;
        }
        k += 1;
    }
    assert(hay@.subrange(i as int, i + needle@.len()) =~= needle@);
    true
}

/// Whether `hay` begins with `needle`.
pub fn starts_with(hay: &[u8], needle: &[u8]) -> (found: bool)
    ensures
        found == needle@.is_prefix_of(hay@),
{
    let found: bool = find_at(needle, hay, 0);
    proof {
        if needle@.len() <= hay@.len() {
            assert(hay@.subrange(0, needle@.len() as int) =~= hay@.take(needle@.len() as int));
        }
    }
    found
}

/// Whether `needle` stands somewhere in `hay`.
pub fn contains(hay: &[u8], needle: &[u8]) -> (found: bool)
    ensures
        found == occurs(needle@, hay@),
{
    let mut i: usize = 0;
    while i < hay.len()
        invariant
            i <= hay@.len(),
            forall|j: int| 0 <= j < i ==> !occurs_at(needle@, hay@, j),
        decreases hay@.len() - i,
    {
        if find_at(needle, hay, i) {
            return true;
        }
        i += 1;
    }
    let found: bool = find_at(needle, hay, i);
    assert(forall|j: int| j > hay@.len() ==> !occurs_at(needle@, hay@, j));
    found
}

} // verus!
