//! Text as a sequence of characters, and its division into lines.

use vstd::prelude::*;
use vstd::string::StringSliceAdditionalSpecFns;
use vstd::utf8::*;
use crate::encoding::{lemma_ascii_byte_char, lemma_ascii_char_byte};

verus! {

/// The index of the first line feed in `text`, or the length of `text` when it
/// holds none.
pub open spec fn first_newline(text: Seq<char>) -> int
    decreases text.len(),
{
    if text.len() == 0 || text[0] == '\n' {
        0
    } else {
        1 + first_newline(text.drop_first())
    }
}

/// `line` without the carriage return that ends it, if there is one.
pub open spec fn without_carriage_return(line: Seq<char>) -> Seq<char> {
    if line.len() > 0 && line.last() == '\r' {
        line.drop_last()
    } else {
        line
    }
}

/// The first line of `text`: what stands before the first line feed, less a
/// carriage return directly before that line feed; all of `text` when it
/// holds no line feed.
pub open spec fn first_line(text: Seq<char>) -> Seq<char> {
    let k = first_newline(text);
    if 0 <= k < text.len() {
        without_carriage_return(text.take(k))
    } else {
        text
    }
}

/// What follows the first line of `text` and its terminator.
pub open spec fn after_first_line(text: Seq<char>) -> Seq<char> {
    let k = first_newline(text);
    if 0 <= k < text.len() {
        text.skip(k + 1)
    } else {
        Seq::empty()
    }
}

/// The lines of `text`.
///
/// A line ends at a line feed, or at a carriage return directly followed by a
/// line feed; the terminator is not part of the line. The last line needs no
/// terminator, and a text that ends with one has no empty line after it.
pub open spec fn lines_of(text: Seq<char>) -> Seq<Seq<char>>
    decreases text.len(),
{
    if text.len() == 0 {
        Seq::empty()
    } else {
        seq![first_line(text)] + lines_of(after_first_line(text))
    }
}

/// `first_newline` is the least index that holds a line feed, and the length
/// of the text where none does.
pub proof fn lemma_first_newline(text: Seq<char>)
    ensures
        0 <= first_newline(text) <= text.len(),
        first_newline(text) < text.len() ==> text[first_newline(text)] == '\n',
        forall|j: int| 0 <= j < first_newline(text) ==> text[j] != '\n',
    decreases text.len(),
{
    if text.len() == 0 || text[0] == '\n' {
    } else {
        let rest = text.drop_first();
        lemma_first_newline(rest);
        assert forall|j: int| 0 <= j < first_newline(text) implies text[j] != '\n' by {
            if j > 0 {
                assert(text[j] == rest[j - 1]);
            }
        }
    }
}

/// An index is `first_newline` when no line feed stands before it and either
/// one stands at it or the text ends there.
pub proof fn lemma_first_newline_is(text: Seq<char>, k: int)
    requires
        0 <= k <= text.len(),
        forall|j: int| 0 <= j < k ==> text[j] != '\n',
        k < text.len() ==> text[k] == '\n',
    ensures
        first_newline(text) == k,
{
    lemma_first_newline(text);
}

/// No line of a text holds a line feed.
pub proof fn lemma_lines_hold_no_line_feed(text: Seq<char>)
    ensures
        forall|i: int, j: int|
            0 <= i < lines_of(text).len() && 0 <= j < lines_of(text)[i].len() ==> #[trigger] lines_of(
                text,
            )[i][j] != '\n',
    decreases text.len(),
{
    if text.len() > 0 {
        let first = first_line(text);
        let rest = lines_of(after_first_line(text));
        lemma_first_newline(text);
        lemma_lines_hold_no_line_feed(after_first_line(text));
        assert forall|i: int, j: int|
            0 <= i < lines_of(text).len() && 0 <= j < lines_of(text)[i].len() implies #[trigger] lines_of(
            text,
        )[i][j] != '\n' by {
            if i == 0 {
                assert(lines_of(text)[0] == first);
            } else {
                assert(lines_of(text)[i] == rest[i - 1]);
            }
        }
    }
}

/// A text whose encoding holds no line-feed byte holds no line feed.
proof fn lemma_no_line_feed(text: Seq<char>)
    requires
        forall|j: int| 0 <= j < encode_utf8(text).len() ==> encode_utf8(text)[j] != 0x0Au8,
    ensures
        first_newline(text) == text.len(),
{
    assert forall|j: int| 0 <= j < text.len() implies text[j] != '\n' by {
        if text[j] == '\n' {
            lemma_ascii_char_byte(text, j);
            let at = encode_utf8(text.take(j)).len() as int;
            assert(encode_utf8(text)[at] == 0x0Au8);
        }
    }
    lemma_first_newline_is(text, text.len() as int);
}

/// Where the first line-feed byte of an encoded text stands at `i`, the text
/// is what the bytes before `i` decode to, a line feed, and what the bytes
/// after `i` decode to; and its first line feed is that one.
proof fn lemma_first_line_feed_byte(bytes: Seq<u8>, i: int)
    requires
        valid_utf8(bytes),
        0 <= i < bytes.len(),
        bytes[i] == 0x0Au8,
        forall|j: int| 0 <= j < i ==> bytes[j] != 0x0Au8,
    ensures
        is_char_boundary(bytes, i),
        is_char_boundary(bytes.subrange(i, bytes.len() as int), 1),
        valid_utf8(bytes.subrange(0, i)),
        ({
            let text = decode_utf8(bytes);
            let head = decode_utf8(bytes.subrange(0, i));
            let rest = decode_utf8(bytes.subrange(i + 1, bytes.len() as int));
            &&& first_newline(text) == head.len()
            &&& head.len() < text.len()
            &&& text.take(head.len() as int) == head
            &&& text.skip(head.len() as int + 1) == rest
        }),
{
    let text = decode_utf8(bytes);
    let head_bytes = bytes.subrange(0, i);
    let head = decode_utf8(head_bytes);
    let rest = decode_utf8(bytes.subrange(i + 1, bytes.len() as int));
    lemma_ascii_byte_char(bytes, i);
    assert(text == head.push('\n') + rest);
    // No line feed stands in the head, so the one after it is the first.
    decode_utf8_encode_utf8(head_bytes);
    lemma_no_line_feed(head);
    lemma_first_newline(head);
    lemma_first_newline_is(text, head.len() as int);
}

/// An encoded text ends with a carriage-return byte exactly when the text
/// ends with a carriage return; what stands before that byte is then the
/// encoding of the text without it.
proof fn lemma_last_carriage_return(bytes: Seq<u8>)
    requires
        valid_utf8(bytes),
    ensures
        ({
            let text = decode_utf8(bytes);
            let n = bytes.len() as int;
            &&& (n > 0 && bytes[n - 1] == 0x0Du8) <==> (text.len() > 0 && text.last() == '\r')
            &&& n > 0 && bytes[n - 1] == 0x0Du8 ==> {
                &&& is_char_boundary(bytes, n - 1)
                &&& text.drop_last() == decode_utf8(bytes.subrange(0, n - 1))
            }
        }),
{
    let text = decode_utf8(bytes);
    let n = bytes.len() as int;
    decode_utf8_encode_utf8(bytes);
    if n > 0 && bytes[n - 1] == 0x0Du8 {
        lemma_ascii_byte_char(bytes, n - 1);
        assert(text == decode_utf8(bytes.subrange(0, n - 1)).push('\r'));
    }
    if text.len() > 0 && text.last() == '\r' {
        lemma_ascii_char_byte(text, text.len() - 1);
        assert(bytes.last() == 0x0Du8);
    }
}

/// The text of a string slice is what its bytes decode to, and those bytes
/// are well-formed UTF-8.
proof fn lemma_str_bytes(s: &str)
    ensures
        valid_utf8(s.spec_bytes()),
        s@ == decode_utf8(s.spec_bytes()),
        s.spec_bytes().len() == 0 <==> s@.len() == 0,
{
    encode_utf8_valid_utf8(s@);
    encode_utf8_decode_utf8(s@);
}

/// Splits the first line off `text`.
///
/// Returns `None` for the empty text, which has no line. Otherwise returns
/// the first line, without its terminator, and the text that follows that
/// terminator.
pub fn split_first_line<'a>(text: &'a str) -> (r: Option<(&'a str, &'a str)>)
    ensures
        r is None <==> text@.len() == 0,
        r matches Some((line, rest)) ==> {
            &&& line@ == first_line(text@)
            &&& rest@ == after_first_line(text@)
            &&& rest.spec_bytes().len() < text.spec_bytes().len()
        },
{
    let bytes = text.as_bytes();
    let n: usize = bytes.len();
    let ghost all = text.spec_bytes();
    proof {
        lemma_str_bytes(text);
    }
    if n == 0 {
        return None;
    }
    let mut i: usize = 0;
    while i < n && bytes[i] != 0x0Au8
        invariant
            i <= n,
            n == bytes@.len(),
            forall|j: int| 0 <= j < i ==> bytes@[j] != 0x0Au8,
        decreases n - i,
    {
        i = i + 1;
    }
    if i == n {
        proof {
            is_char_boundary_start_end_of_seq(all);
            lemma_no_line_feed(text@);
        }
        let (line, rest) = text.split_at(n);
        proof {
            lemma_str_bytes(line);
            assert(all.subrange(0, n as int) =~= all);
        }
        Some((line, rest))
    } else {
        proof {
            lemma_first_line_feed_byte(all, i as int);
        }
        let (head, tail) = text.split_at(i);
        let (_, rest) = tail.split_at(1);
        proof {
            lemma_str_bytes(head);
            lemma_str_bytes(rest);
            assert(tail.spec_bytes().subrange(1, tail.spec_bytes().len() as int) =~= all.subrange(
                i + 1,
                n as int,
            ));
            lemma_last_carriage_return(head.spec_bytes());
        }
        if i > 0 && bytes[i - 1] == 0x0Du8 {
            let (line, _) = head.split_at(i - 1);
            proof {
                lemma_str_bytes(line);
            }
            Some((line, rest))
        } else {
            Some((head, rest))
        }
    }
}

} // verus!
