//! Bytes: searching, comparing, appending and reading text from them.

use vstd::prelude::*;
use vstd::string::*;
use vstd::utf8::{decode_utf8, encode_utf8, valid_utf8};

verus! {

/// Whether `needle` stands in `haystack` at position `i`.
pub open spec fn occurs_at(haystack: Seq<u8>, needle: Seq<u8>, i: int) -> bool {
    0 <= i && i + needle.len() <= haystack.len() && haystack.subrange(i, i + needle.len())
        == needle
}

/// The first position from `i` on where `needle` stands in `haystack`.
pub open spec fn index_from(haystack: Seq<u8>, needle: Seq<u8>, i: int) -> Option<int>
    decreases haystack.len() - i,
{
    if i < 0 || i + needle.len() > haystack.len() {
        None
    } else if occurs_at(haystack, needle, i) {
        Some(i)
    } else if i == haystack.len() {
        None
    } else {
        index_from(haystack, needle, i + 1)
    }
}

/// The first position where `needle` stands in `haystack`.
pub open spec fn index_of(haystack: Seq<u8>, needle: Seq<u8>) -> Option<int> {
    index_from(haystack, needle, 0)
}

/// Calls `memchr::memmem::find`.
///
/// Claimed: it returns the first position where the needle stands in the haystack, and
/// nothing where it stands nowhere.
#[verifier::external_body]
pub(crate) fn find_bytes(haystack: &[u8], needle: &[u8]) -> (r: Option<usize>)
    ensures
        r matches Some(i) ==> occurs_at(haystack@, needle@, i as int) && forall|j: int|
            0 <= j < i ==> !occurs_at(haystack@, needle@, j),
        r.is_none() ==> forall|j: int| !occurs_at(haystack@, needle@, j),
{
    memchr::memmem::find(haystack, needle)
}

/// Calls `std::str::from_utf8`.
///
/// Claimed: it accepts exactly the well-formed UTF-8 sequences and hands back the text that
/// the bytes encode.
#[verifier::external_body]
pub(crate) fn utf8_text(bytes: &[u8]) -> (r: Option<String>)
    ensures
        r.is_some() <==> valid_utf8(bytes@),
        r matches Some(s) ==> s@ == decode_utf8(bytes@),
{
    std::str::from_utf8(bytes).ok().map(|s| s.to_owned())
}

/// The least position from `from` on that holds the needle is `index_from`.
pub proof fn lemma_index_from(haystack: Seq<u8>, needle: Seq<u8>, from: int)
    requires
        0 <= from,
    ensures
        index_from(haystack, needle, from) matches Some(i) ==> from <= i && occurs_at(
            haystack,
            needle,
            i,
        ),
        forall|j: int|
            #![trigger occurs_at(haystack, needle, j)]
            from <= j && occurs_at(haystack, needle, j) ==> (index_from(haystack, needle, from) matches Some(i)
                && i <= j),
    decreases haystack.len() - from,
{
    if from + needle.len() <= haystack.len() && !occurs_at(haystack, needle, from) && from
        != haystack.len() {
        lemma_index_from(haystack, needle, from + 1);
    }
}

/// The first position of `needle` in `haystack`.
pub fn find(haystack: &[u8], needle: &[u8]) -> (r: Option<usize>)
    ensures
        (match r {
            Some(i) => Some(i as int),
            None => None::<int>,
        }) == index_of(haystack@, needle@),
        r matches Some(i) ==> occurs_at(haystack@, needle@, i as int),
{
    let r = find_bytes(haystack, needle);
    proof {
        lemma_index_from(haystack@, needle@, 0);
        if let Some(k) = index_of(haystack@, needle@) {
            assert(occurs_at(haystack@, needle@, k));
        }
        if let Some(i) = r {
            assert(occurs_at(haystack@, needle@, i as int));
        }
    }
    r
}

/// The ASCII lower case of a byte.
pub open spec fn lower_byte(b: u8) -> u8 {
    if 65 <= b <= 90 {
        (b + 32) as u8
    } else {
        b
    }
}

/// Bytes with every ASCII letter in lower case.
pub open spec fn lower_bytes(s: Seq<u8>) -> Seq<u8> {
    s.map_values(|b: u8| lower_byte(b))
}

/// Whether `needle` stands somewhere in `haystack`, up to the case of ASCII letters.
pub open spec fn contains_ignoring_case(haystack: Seq<u8>, needle: Seq<u8>) -> bool {
    exists|i: int| occurs_at(lower_bytes(haystack), lower_bytes(needle), i)
}

fn byte_to_lower(b: u8) -> (r: u8)
    ensures
        r == lower_byte(b),
{
    if 65 <= b && b <= 90 {
        b + 32
    } else {
        b
    }
}

/// Whether `needle` stands somewhere in `haystack`, up to the case of ASCII letters.
pub fn ascii_contains(haystack: &[u8], needle: &[u8]) -> (r: bool)
    requires
        needle@.len() > 0,
    ensures
        r == contains_ignoring_case(haystack@, needle@),
{
    let ghost h = lower_bytes(haystack@);
    let ghost n = lower_bytes(needle@);
    let mut i: usize = 0;
    while i < haystack.len() && needle.len() <= haystack.len() - i
        invariant
            i <= haystack.len(),
            needle.len() > 0,
            h == lower_bytes(haystack@),
            n == lower_bytes(needle@),
            forall|j: int| 0 <= j < i ==> !occurs_at(h, n, j),
        decreases haystack.len() - i,
    {
        let mut k: usize = 0;
        while k < needle.len() && byte_to_lower(haystack[i + k]) == byte_to_lower(needle[k])
            invariant
                k <= needle.len(),
                i + needle.len() <= haystack.len(),
                h == lower_bytes(haystack@),
                n == lower_bytes(needle@),
                forall|j: int| 0 <= j < k ==> h[i + j] == n[j],
            decreases needle.len() - k,
        {
            k = k + 1;
        }
        if k == needle.len() {
            proof {
                assert(h.subrange(i as int, i + n.len()) =~= n);
                assert(occurs_at(h, n, i as int));
            }
            return true;
        }
        proof {
            assert(h[i + k] != n[k as int]);
            if occurs_at(h, n, i as int) {
                assert(h.subrange(i as int, i + n.len())[k as int] == h[i + k]);
            }
        }
        i = i + 1;
    }
    proof {
        assert forall|j: int| !occurs_at(h, n, j) by {}
    }
    false
}

/// Whether two byte strings are the same.
pub fn bytes_eq(a: &[u8], b: &[u8]) -> (r: bool)
    ensures
        r == (a@ == b@),
{
    if a.len() != b.len() {
        return false;
    }
    let mut i: usize = 0;
    while i < a.len()
        invariant
            i <= a.len() == b.len(),
            forall|k: int| 0 <= k < i ==> a@[k] == b@[k],
        decreases a.len() - i,
    {
        if a[i] != b[i] {
            return false;
        }
        i = i + 1;
    }
    proof {
        assert(a@ =~= b@);
    }
    true
}

/// Appends `bytes`.
pub fn push_bytes(out: &mut Vec<u8>, bytes: &[u8])
    ensures
        final(out)@ == old(out)@ + bytes@,
{
    let ghost before = out@;
    let mut i: usize = 0;
    proof {
        assert(before + bytes@.take(0) =~= before);
    }
    while i < bytes.len()
        invariant
            i <= bytes.len(),
            out@ == before + bytes@.take(i as int),
        decreases bytes.len() - i,
    {
        out.push(bytes[i]);
        i = i + 1;
        proof {
            assert(bytes@.take(i as int) =~= bytes@.take(i - 1).push(bytes@[i - 1]));
            assert(out@ =~= before + bytes@.take(i as int));
        }
    }
    proof {
        assert(bytes@.take(i as int) =~= bytes@);
    }
}

/// Appends the UTF-8 bytes of `s`.
pub fn push_text(out: &mut Vec<u8>, s: &str)
    ensures
        final(out)@ == old(out)@ + encode_utf8(s@),
{
    push_bytes(out, s.as_bytes());
}

/// The first `count` bytes of `buf`.
pub fn prefix_of(buf: &[u8], count: usize) -> (v: Vec<u8>)
    requires
        count <= buf@.len(),
    ensures
        v@ == buf@.take(count as int),
{
    let mut v: Vec<u8> = Vec::new();
    let mut i: usize = 0;
    while i < count
        invariant
            i <= count <= buf@.len(),
            v@ == buf@.take(i as int),
        decreases count - i,
    {
        v.push(buf[i]);
        i = i + 1;
        proof {
            assert(buf@.take(i as int) =~= buf@.take(i - 1).push(buf@[i - 1]));
        }
    }
    v
}

/// What is left of a buffer once its first `count` bytes were used.
pub open spec fn rest_after(buf: Seq<u8>, count: int) -> Seq<u8> {
    if count >= buf.len() {
        Seq::empty()
    } else {
        buf.skip(count)
    }
}

/// Drops the first `count` bytes; all of them where there are fewer.
pub fn discard_buffer_prefix(buf: &mut Vec<u8>, count: usize)
    ensures
        final(buf)@ == rest_after(old(buf)@, count as int),
{
    if count >= buf.len() {
        buf.clear();
    } else {
        let ghost before = buf@;
        let rest = buf.split_off(count);
        *buf = rest;
        proof {
            assert(buf@ =~= before.skip(count as int));
        }
    }
}

/// The first position that holds the needle is `index_of`.
pub proof fn lemma_index_is(haystack: Seq<u8>, needle: Seq<u8>, n: int)
    requires
        occurs_at(haystack, needle, n),
        forall|j: int| 0 <= j < n ==> !#[trigger] occurs_at(haystack, needle, j),
    ensures
        index_of(haystack, needle) == Some(n),
{
    lemma_index_from(haystack, needle, 0);
}

/// What is dropped from the front of a buffer and what is left make up the buffer.
pub proof fn nothing_is_lost_behind_a_prefix(buf: Seq<u8>, count: int)
    requires
        0 <= count,
    ensures
        count <= buf.len() ==> buf.take(count) + rest_after(buf, count) == buf,
        count > buf.len() ==> rest_after(buf, count).len() == 0,
{
    if count <= buf.len() {
        assert(buf.take(count) + rest_after(buf, count) =~= buf);
    }
}

/// Bytes are compared in either case of the ASCII letters, and in no other way.
pub proof fn only_letters_have_a_case(a: u8, b: u8)
    ensures
        lower_byte(a) == lower_byte(b) <==> a == b || (65 <= a <= 90 && b == a + 32) || (65 <= b
            <= 90 && a == b + 32),
{
}

/// A needle is found at its first place, or nowhere.
pub proof fn the_first_place_is_found(haystack: Seq<u8>, needle: Seq<u8>, i: int)
    ensures
        index_of(haystack, needle) matches Some(n) ==> 0 <= n && n + needle.len() <= haystack.len()
            && haystack.subrange(n, n + needle.len()) == needle,
        0 <= i && i + needle.len() <= haystack.len() && haystack.subrange(i, i + needle.len())
            == needle ==> (index_of(haystack, needle) matches Some(n) && n <= i),
{
    lemma_index_from(haystack, needle, 0);
    if 0 <= i && i + needle.len() <= haystack.len() && haystack.subrange(i, i + needle.len())
        == needle {
        assert(occurs_at(haystack, needle, i));
    }
}

} // verus!
