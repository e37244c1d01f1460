//! How a text and its UTF-8 bytes correspond.
//!
//! The contracts of this crate speak of texts as sequences of characters,
//! while the executable code scans their bytes. The lemmas here carry facts
//! from one side to the other.

use vstd::prelude::*;
use vstd::utf8::*;

verus! {

/// Encoding distributes over concatenation.
pub proof fn lemma_encode_concat(a: Seq<char>, b: Seq<char>)
    ensures
        encode_utf8(a + b) == encode_utf8(a) + encode_utf8(b),
    decreases a.len(),
{
    if a.len() > 0 {
        assert((a + b).drop_first() =~= a.drop_first() + b);
        lemma_encode_concat(a.drop_first(), b);
    }
}

/// An ASCII character is encoded as the one byte that has its value.
pub proof fn lemma_encode_ascii(c: char)
    requires
        c as u32 <= 0x7f,
    ensures
        encode_utf8(seq![c]) == seq![c as u8],
{
    let s = c as u32;
    assert((s & 0x7F) as u8 == s as u8) by (bit_vector)
        requires
            s <= 0x7f,
    ;
    assert(encode_utf8(seq![c].drop_first()) =~= Seq::<u8>::empty());
}

/// The byte of an ASCII character stands in the encoding of a text right
/// after the encoding of what precedes the character.
pub proof fn lemma_ascii_char_byte(text: Seq<char>, j: int)
    requires
        0 <= j < text.len(),
        text[j] as u32 <= 0x7f,
    ensures
        encode_utf8(text) == encode_utf8(text.take(j)).push(text[j] as u8) + encode_utf8(
            text.skip(j + 1),
        ),
{
    let before = text.take(j);
    let after = text.skip(j + 1);
    assert(text =~= before + seq![text[j]] + after);
    lemma_encode_concat(before + seq![text[j]], after);
    lemma_encode_concat(before, seq![text[j]]);
    lemma_encode_ascii(text[j]);
}

/// In well-formed UTF-8 an ASCII byte is a character of its own: the bytes
/// before it and the bytes after it are well-formed texts, and the whole
/// decodes to what they decode to with the character in between.
pub proof fn lemma_ascii_byte_char(bytes: Seq<u8>, i: int)
    requires
        valid_utf8(bytes),
        0 <= i < bytes.len(),
        bytes[i] <= 0x7f,
    ensures
        is_char_boundary(bytes, i),
        is_char_boundary(bytes, i + 1),
        is_char_boundary(bytes.subrange(i, bytes.len() as int), 1),
        valid_utf8(bytes.subrange(0, i)),
        valid_utf8(bytes.subrange(i + 1, bytes.len() as int)),
        decode_utf8(bytes) == decode_utf8(bytes.subrange(0, i)).push(bytes[i] as char)
            + decode_utf8(bytes.subrange(i + 1, bytes.len() as int)),
{
    let n = bytes.len() as int;
    let tail = bytes.subrange(i, n);
    let rest = bytes.subrange(i + 1, n);
    is_char_boundary_iff_not_is_continuation_byte(bytes, i);
    valid_utf8_split(bytes, i);
    decode_utf8_split(bytes, i);
    // The tail starts with a one-byte character, which decodes to itself.
    let b = bytes[i];
    assert((b & 0x7F) as u32 == b as u32) by (bit_vector)
        requires
            b <= 0x7f,
    ;
    assert(pop_first_scalar(tail) =~= rest);
    assert(decode_utf8(tail) == seq![b as char] + decode_utf8(rest));
    assert(is_char_boundary(tail, 1)) by {
        reveal_with_fuel(is_char_boundary, 2);
    }
    // What follows it is well-formed, so the next byte starts a character,
    // or the text ends there.
    assert(valid_utf8(rest));
    if i + 1 < n {
        is_char_boundary_iff_not_is_continuation_byte(bytes, i + 1);
    } else {
        is_char_boundary_start_end_of_seq(bytes);
    }
}

} // verus!
