//! Byte offsets of characters in UTF-8 text.
//!
//! Source locations count characters, while text is sliced by bytes. This
//! module converts the one into the other and proves that the result always
//! falls on a character boundary.

use vstd::prelude::*;
use vstd::string::StringSliceAdditionalSpecFns;
use vstd::utf8::*;

verus! {

/// The number of bytes that the first `count` characters of `text` take up
/// in UTF-8, which is the byte offset at which character `count` starts.
pub open spec fn char_offset(text: Seq<char>, count: int) -> int {
    encode_utf8(text.take(count)).len() as int
}

/// The character that a character index stands for once it is clamped to
/// the text: the index itself while it names a character, the last
/// character beyond that, and 0 in an empty text.
pub open spec fn clamped_char_index(text: Seq<char>, index: int) -> int {
    if text.len() == 0 {
        0
    } else if index < text.len() {
        index
    } else {
        text.len() - 1
    }
}

/// The byte offset that [`byte_index`] returns for a character index.
pub open spec fn byte_index_spec(text: Seq<char>, index: int) -> int {
    char_offset(text, clamped_char_index(text, index))
}

/// The encoding of a concatenation is the concatenation of the encodings.
pub proof fn lemma_encode_concat(a: Seq<char>, b: Seq<char>)
    ensures
        encode_utf8(a + b) == encode_utf8(a) + encode_utf8(b),
    decreases a.len(),
{
    if a.len() == 0 {
        assert(a + b == b);
        assert(encode_utf8(a) + encode_utf8(b) == encode_utf8(b));
    } else {
        lemma_encode_concat(a.drop_first(), b);
        assert((a + b).drop_first() == a.drop_first() + b);
        assert((a + b)[0] == a[0]);
        assert(encode_utf8(a + b) == encode_scalar(a[0] as u32) + encode_utf8(
            a.drop_first() + b,
        ));
        assert(encode_scalar(a[0] as u32) + (encode_utf8(a.drop_first()) + encode_utf8(b)) == (
        encode_scalar(a[0] as u32) + encode_utf8(a.drop_first())) + encode_utf8(b));
    }
}

/// Every character takes between one and four bytes.
pub proof fn lemma_encode_scalar_len(c: char)
    ensures
        1 <= encode_scalar(c as u32).len() <= 4,
{
}

/// The text splits at character `count` into two pieces whose encodings
/// make up the encoding of the whole.
pub proof fn lemma_encode_split(text: Seq<char>, count: int)
    requires
        0 <= count <= text.len(),
    ensures
        encode_utf8(text) == encode_utf8(text.take(count)) + encode_utf8(text.skip(count)),
        encode_utf8(text).subrange(0, char_offset(text, count)) == encode_utf8(text.take(count)),
        encode_utf8(text).subrange(char_offset(text, count), encode_utf8(text).len() as int)
            == encode_utf8(text.skip(count)),
        0 <= char_offset(text, count) <= encode_utf8(text).len(),
{
    assert(text == text.take(count) + text.skip(count));
    lemma_encode_concat(text.take(count), text.skip(count));
    let head = encode_utf8(text.take(count));
    let tail = encode_utf8(text.skip(count));
    assert((head + tail).subrange(0, head.len() as int) == head);
    assert((head + tail).subrange(head.len() as int, (head + tail).len() as int) == tail);
}

/// The encoding of a text that holds one character is that character's
/// encoding.
pub proof fn lemma_encode_single(c: char)
    ensures
        encode_utf8(seq![c]) == encode_scalar(c as u32),
{
    let one = seq![c];
    assert(one.drop_first() == Seq::<char>::empty());
    assert(encode_utf8(one.drop_first()) == Seq::<u8>::empty());
    assert(encode_utf8(one) == encode_scalar(one[0] as u32) + encode_utf8(one.drop_first()));
}

/// Character 0 starts at byte 0, and the offset after the last character
/// is the length of the encoded text.
pub proof fn lemma_char_offset_ends(text: Seq<char>)
    ensures
        char_offset(text, 0) == 0,
        char_offset(text, text.len() as int) == encode_utf8(text).len(),
{
    assert(text.take(0) == Seq::<char>::empty());
    assert(text.take(text.len() as int) == text);
}

/// Each character moves the offset on by the one to four bytes it takes.
pub proof fn lemma_char_offset_step(text: Seq<char>, count: int)
    requires
        0 <= count < text.len(),
    ensures
        char_offset(text, count + 1) == char_offset(text, count) + encode_scalar(
            text[count] as u32,
        ).len(),
        char_offset(text, count) < char_offset(text, count + 1) <= char_offset(text, count) + 4,
{
    assert(text.take(count + 1) == text.take(count) + seq![text[count]]);
    lemma_encode_concat(text.take(count), seq![text[count]]);
    lemma_encode_single(text[count]);
    lemma_encode_scalar_len(text[count]);
}

/// Later characters start at later bytes.
pub proof fn lemma_char_offset_increases(text: Seq<char>, first: int, second: int)
    requires
        0 <= first <= second <= text.len(),
    ensures
        char_offset(text, first) <= char_offset(text, second),
        first < second ==> char_offset(text, first) < char_offset(text, second),
        char_offset(text, second) <= encode_utf8(text).len(),
    decreases second - first,
{
    lemma_encode_split(text, second);
    if first < second {
        lemma_char_offset_increases(text, first, second - 1);
        lemma_char_offset_step(text, second - 1);
    }
}

/// What is left of the encoding once the first character is taken off, and
/// how offsets in the rest relate to offsets in the whole.
proof fn lemma_drop_first_char(text: Seq<char>, count: int)
    requires
        0 < count <= text.len(),
    ensures
        valid_utf8(encode_utf8(text)),
        pop_first_scalar(encode_utf8(text)) == encode_utf8(text.drop_first()),
        length_of_first_scalar(encode_utf8(text)) == encode_scalar(text[0] as u32).len(),
        char_offset(text, count) == encode_scalar(text[0] as u32).len() + char_offset(
            text.drop_first(),
            count - 1,
        ),
{
    let bytes = encode_utf8(text);
    encode_utf8_valid_utf8(text);
    encode_utf8_first_scalar(text);
    let first = encode_scalar(text[0] as u32);
    assert(bytes == first + encode_utf8(text.drop_first()));
    assert(bytes.subrange(first.len() as int, bytes.len() as int) == encode_utf8(
        text.drop_first(),
    ));
    let head = text.take(count);
    assert(head[0] == text[0]);
    assert(head.drop_first() == text.drop_first().take(count - 1));
    assert(encode_utf8(head) == first + encode_utf8(head.drop_first()));
}

/// The byte at which a character starts is a character boundary of the
/// encoded text, and so is the end of the text.
pub proof fn lemma_char_offset_is_boundary(text: Seq<char>, count: int)
    requires
        0 <= count <= text.len(),
    ensures
        is_char_boundary(encode_utf8(text), char_offset(text, count)),
    decreases count,
{
    encode_utf8_valid_utf8(text);
    lemma_char_offset_ends(text);
    if count > 0 {
        lemma_drop_first_char(text, count);
        lemma_char_offset_is_boundary(text.drop_first(), count - 1);
        lemma_char_offset_increases(text, 0, count);
        lemma_char_offset_increases(text, count, text.len() as int);
    }
}

/// No byte strictly inside a character's encoding is a character boundary.
pub proof fn lemma_inside_char_is_no_boundary(text: Seq<char>, count: int, index: int)
    requires
        0 <= count < text.len(),
        char_offset(text, count) < index < char_offset(text, count + 1),
    ensures
        !is_char_boundary(encode_utf8(text), index),
    decreases count,
{
    let bytes = encode_utf8(text);
    lemma_char_offset_ends(text);
    lemma_char_offset_increases(text, count + 1, text.len() as int);
    lemma_drop_first_char(text, count + 1);
    let rest = text.drop_first();
    let width = encode_scalar(text[0] as u32).len() as int;
    encode_utf8_valid_utf8(rest);
    assert(is_char_boundary(bytes, index) == is_char_boundary(encode_utf8(rest), index - width));
    if count == 0 {
        lemma_char_offset_ends(rest);
        assert(!is_char_boundary(encode_utf8(rest), index - width));
    } else {
        lemma_drop_first_char(text, count);
        lemma_inside_char_is_no_boundary(rest, count - 1, index - width);
    }
}

/// Whether a byte continues a character that started at a byte before it.
pub fn is_continuation(byte: u8) -> (r: bool)
    ensures
        r == is_continuation_byte(byte),
{
    0x80 <= byte && byte <= 0xbf
}

/// The byte offset at which character `index` of `string` starts.
///
/// The function walks the character boundaries of the text and counts the
/// characters from zero. An index at or beyond the number of characters is
/// not an error: it is clamped, and the offset of the last character's
/// start comes back (0 for an empty text). The result is a character
/// boundary of the text for every index.
pub fn byte_index(string: &str, index: u32) -> (offset: usize)
    ensures
        offset == byte_index_spec(string@, index as int),
        index < string@.len() ==> offset == char_offset(string@, index as int),
        index >= string@.len() > 0 ==> offset == char_offset(string@, string@.len() - 1),
        index == 0 ==> offset == 0,
        offset <= string.spec_bytes().len(),
        is_char_boundary(string.spec_bytes(), offset as int),
{
    let bytes = string.as_bytes();
    let n = bytes.len();
    let mut offset: usize = 0;
    let mut seen: u32 = 0;
    let mut i: usize = 0;
    proof {
        encode_utf8_valid_utf8(string@);
        lemma_char_offset_ends(string@);
    }
    while i < n
        invariant
            bytes@ == encode_utf8(string@),
            n == bytes@.len(),
            valid_utf8(bytes@),
            0 <= i <= n,
            seen <= string@.len(),
            seen <= index,
            i <= char_offset(string@, seen as int),
            seen > 0 ==> offset == char_offset(string@, seen - 1) && offset < i,
            seen == 0 ==> offset == 0,
        decreases n - i,
    {
        let byte = bytes[i];
        proof {
            is_char_boundary_iff_not_is_continuation_byte(bytes@, i as int);
            lemma_char_offset_ends(string@);
            lemma_char_offset_is_boundary(string@, seen as int);
            if seen > 0 && i < char_offset(string@, seen as int) {
                lemma_inside_char_is_no_boundary(string@, seen - 1, i as int);
            }
            if seen < string@.len() {
                lemma_char_offset_step(string@, seen as int);
            }
        }
        if !is_continuation(byte) {
            offset = i;
            if seen == index {
                return offset;
            }
            seen = seen + 1;
        }
        i = i + 1;
    }
    proof {
        lemma_char_offset_ends(string@);
        if seen < string@.len() {
            lemma_char_offset_increases(string@, seen as int, string@.len() as int);
        }
        if seen > 0 {
            lemma_char_offset_is_boundary(string@, seen - 1);
            lemma_char_offset_increases(string@, seen - 1, string@.len() as int);
        }
    }
    offset
}

} // verus!
