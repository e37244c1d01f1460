//! Substring containment.

use vstd::prelude::*;
use vstd::utf8::*;
use crate::encoding::lemma_encode_concat;

verus! {

/// Whether `needle` stands in `haystack` at index `at`.
pub open spec fn occurs_at<T>(haystack: Seq<T>, needle: Seq<T>, at: int) -> bool {
    &&& 0 <= at
    &&& at + needle.len() <= haystack.len()
    &&& haystack.subrange(at, at + needle.len()) == needle
}

/// Whether `needle` stands somewhere in `haystack` as a contiguous run.
pub open spec fn has_substring<T>(haystack: Seq<T>, needle: Seq<T>) -> bool {
    exists|at: int| occurs_at(haystack, needle, at)
}

/// The empty sequence stands in every sequence.
pub proof fn lemma_empty_needle<T>(haystack: Seq<T>)
    ensures
        has_substring(haystack, Seq::<T>::empty()),
{
    assert(haystack.subrange(0, 0) =~= Seq::<T>::empty());
    assert(occurs_at(haystack, Seq::<T>::empty(), 0));
}

/// A well-formed text that begins another one ends on one of its character
/// boundaries.
proof fn lemma_prefix_boundary(bytes: Seq<u8>, prefix: Seq<u8>)
    requires
        valid_utf8(bytes),
        valid_utf8(prefix),
        prefix.len() <= bytes.len(),
        bytes.subrange(0, prefix.len() as int) == prefix,
    ensures
        is_char_boundary(bytes, prefix.len() as int),
    decreases prefix.len(),
{
    if prefix.len() > 0 {
        // Both begin with the same character. Past it, the rest of the
        // prefix begins the rest of the text.
        assert(bytes[0] == prefix[0]);
        let bytes_rest = pop_first_scalar(bytes);
        let prefix_rest = pop_first_scalar(prefix);
        assert(bytes_rest.subrange(0, prefix_rest.len() as int) =~= prefix_rest);
        lemma_prefix_boundary(bytes_rest, prefix_rest);
    }
}

/// The encoding of `needle` stands in the encoding of `haystack` exactly when
/// `needle` stands in `haystack`.
pub proof fn lemma_substring_of_encoding(haystack: Seq<char>, needle: Seq<char>)
    ensures
        has_substring(encode_utf8(haystack), encode_utf8(needle)) <==> has_substring(
            haystack,
            needle,
        ),
{
    let hay = encode_utf8(haystack);
    let pat = encode_utf8(needle);
    encode_utf8_valid_utf8(haystack);
    encode_utf8_valid_utf8(needle);
    encode_utf8_decode_utf8(haystack);
    encode_utf8_decode_utf8(needle);
    if has_substring(haystack, needle) {
        let at = choose|at: int| occurs_at(haystack, needle, at);
        let before = haystack.take(at);
        let after = haystack.skip(at + needle.len());
        assert(haystack =~= before + needle + after);
        lemma_encode_concat(before + needle, after);
        lemma_encode_concat(before, needle);
        let p = encode_utf8(before).len() as int;
        assert(hay.subrange(p, p + pat.len()) =~= pat);
        assert(occurs_at(hay, pat, p));
    }
    if has_substring(hay, pat) {
        if needle.len() == 0 {
            lemma_empty_needle(haystack);
        } else {
            let p = choose|p: int| occurs_at(hay, pat, p);
            // The occurrence starts with the first byte of a character, so
            // it starts on a character boundary of the haystack.
            assert(hay[p] == pat[0]);
            is_char_boundary_iff_not_is_continuation_byte(hay, p);
            valid_utf8_split(hay, p);
            decode_utf8_split(hay, p);
            // It ends on one too, since it begins what follows that boundary.
            let head = hay.subrange(0, p);
            let tail = hay.subrange(p, hay.len() as int);
            assert(tail.subrange(0, pat.len() as int) =~= pat);
            lemma_prefix_boundary(tail, pat);
            decode_utf8_split(tail, pat.len() as int);
            // So the haystack decodes to a text, the needle, and a text.
            let before = decode_utf8(head);
            let after = decode_utf8(tail.subrange(pat.len() as int, tail.len() as int));
            assert(haystack == before + (needle + after));
            let at = before.len() as int;
            assert(haystack.subrange(at, at + needle.len()) =~= needle);
            assert(occurs_at(haystack, needle, at));
        }
    }
}

/// Whether `needle` stands in `haystack` at index `at`.
fn bytes_occur_at(haystack: &[u8], needle: &[u8], at: usize) -> (found: bool)
    requires
        at + needle@.len() <= haystack@.len(),
    ensures
        found == occurs_at(haystack@, needle@, at as int),
{
    let n: usize = haystack.len();
    let m: usize = needle.len();
    let mut j: usize = 0;
    while j < m
        invariant
            j <= m,
            m == needle@.len(),
            n == haystack@.len(),
            at + m <= n,
            forall|k: int| 0 <= k < j ==> haystack@[at + k] == needle@[k],
        decreases m - j,
    {
        if haystack[at + j] != needle[j] {
            return false;
        }
        j = j + 1;
    }
    proof {
        assert(haystack@.subrange(at as int, at + m) =~= needle@);
    }
    true
}

/// Whether the bytes `needle` stand somewhere in `haystack`.
fn bytes_contain(haystack: &[u8], needle: &[u8]) -> (found: bool)
    ensures
        found == has_substring(haystack@, needle@),
{
    let n: usize = haystack.len();
    let m: usize = needle.len();
    if m > n {
        return false;
    }
    let last: usize = n - m;
    let mut at: usize = 0;
    loop
        invariant
            n == haystack@.len(),
            m == needle@.len(),
            last == n - m,
            at <= last,
            forall|k: int| 0 <= k < at ==> !occurs_at(haystack@, needle@, k),
        decreases last - at,
    {
        if bytes_occur_at(haystack, needle, at) {
            return true;
        }
        if at == last {
            return false;
        }
        at = at + 1;
    }
}

/// Whether `needle` is a substring of `haystack`.
pub fn contains(haystack: &str, needle: &str) -> (found: bool)
    ensures
        found == has_substring(haystack@, needle@),
{
    proof {
        lemma_substring_of_encoding(haystack@, needle@);
    }
    bytes_contain(haystack.as_bytes(), needle.as_bytes())
}

} // verus!
