//! Text building: what `String` offers for appending, and numbers written out
//! in decimal and hexadecimal digits.

use vstd::prelude::*;
use vstd::utf8::{
    decode_utf8, decode_utf8_split, encode_scalar, encode_utf8, encode_utf8_decode_utf8,
    encode_utf8_first_scalar, encode_utf8_valid_utf8, is_ascii_chars_encode_utf8,
    is_char_boundary, is_char_boundary_iff_is_leading_byte,
    is_char_boundary_iff_not_is_continuation_byte, is_char_boundary_start_end_of_seq, valid_utf8,
    valid_utf8_split,
};

verus! {

/// `String::push` appends the character to the end of the string.
pub assume_specification[ String::push ](s: &mut String, ch: char)
    ensures
        final(s)@ == old(s)@.push(ch),
;

/// `String::push_str` appends the string slice to the end of the string.
pub assume_specification[ String::push_str ](s: &mut String, string: &str)
    ensures
        final(s)@ == old(s)@ + string@,
;

/// `String::clear` removes all contents of the string.
pub assume_specification[ String::clear ](s: &mut String)
    ensures
        final(s)@ == Seq::<char>::empty(),
;

/// The character that stands for a digit below ten.
pub open spec fn decimal_digit(d: nat) -> char
    recommends
        d < 10,
{
    (48u8 + d as u8) as char
}

/// The decimal numeral of a number, without leading zeros.
pub open spec fn decimal(n: nat) -> Seq<char>
    decreases n,
{
    if n < 10 {
        seq![decimal_digit(n)]
    } else {
        decimal(n / 10).push(decimal_digit(n % 10))
    }
}

/// Appends the decimal numeral of `n` to `buf`.
pub fn push_decimal(buf: &mut String, n: u32)
    ensures
        final(buf)@ == old(buf)@ + decimal(n as nat),
    decreases n,
{
    if n >= 10 {
        push_decimal(buf, n / 10);
    }
    let d: u8 = (n % 10) as u8;
    let ch: char = (48u8 + d) as char;
    buf.push(ch);
    assert(final(buf)@ =~= old(buf)@ + decimal(n as nat));
}

/// In well-formed UTF-8 a character begins at an ASCII byte, and another
/// one, or the end of the text, follows it.
pub proof fn lemma_boundary_at_ascii(bytes: Seq<u8>, i: int)
    requires
        valid_utf8(bytes),
        0 <= i < bytes.len(),
        bytes[i] <= 0x7f,
    ensures
        is_char_boundary(bytes, i),
        is_char_boundary(bytes, i + 1),
{
    is_char_boundary_iff_not_is_continuation_byte(bytes, i);
    valid_utf8_split(bytes, i);
    let tail = bytes.subrange(i, bytes.len() as int);
    assert(tail[0] == bytes[i]);
    if i + 1 < bytes.len() {
        let next = tail.subrange(1, tail.len() as int);
        assert(valid_utf8(next));
        assert(next[0] == bytes[i + 1]);
        is_char_boundary_iff_is_leading_byte(bytes, i + 1);
    } else {
        is_char_boundary_start_end_of_seq(bytes);
    }
}

/// An ASCII character is encoded as the one byte of its number.
pub proof fn lemma_encode_ascii(c: char)
    requires
        c <= '\u{7f}',
    ensures
        encode_scalar(c as u32) == seq![c as u8],
{
    let single = seq![c];
    is_ascii_chars_encode_utf8(single);
    assert(encode_utf8(single.drop_first()) == Seq::<u8>::empty());
    assert(encode_utf8(single) =~= encode_scalar(c as u32));
    assert(encode_utf8(single) =~= seq![c as u8]);
}

/// A character whose number is below 128 is an ASCII character.
proof fn lemma_char_is_ascii(c: char)
    requires
        c as u32 <= 0x7f,
    ensures
        c <= '\u{7f}',
{
}

/// A text whose encoding begins with an ASCII byte begins with the
/// character of that number, and the rest of the encoding is the encoding
/// of the rest of the text.
pub proof fn lemma_ascii_first(text: Seq<char>)
    requires
        encode_utf8(text).len() > 0,
        encode_utf8(text)[0] <= 0x7f,
    ensures
        text.len() > 0,
        text[0] <= '\u{7f}',
        text[0] as u8 == encode_utf8(text)[0],
        encode_utf8(text).skip(1) == encode_utf8(text.drop_first()),
{
    let bytes = encode_utf8(text);
    assert(text.len() > 0);
    encode_utf8_first_scalar(text);
    let b = bytes[0];
    assert(b & 0x7f == b) by (bit_vector)
        requires
            b <= 0x7f,
    ;
    lemma_char_is_ascii(text[0]);
    lemma_encode_ascii(text[0]);
    assert(bytes.skip(1) =~= encode_utf8(text.drop_first()));
}

/// An ASCII character of a text shows in its encoding, as the byte of its
/// number.
pub proof fn lemma_ascii_char_shows(text: Seq<char>, at: int) -> (k: int)
    requires
        0 <= at < text.len(),
        text[at] <= '\u{7f}',
    ensures
        0 <= k < encode_utf8(text).len(),
        encode_utf8(text)[k] == text[at] as u8,
    decreases text.len(),
{
    let head = encode_scalar(text[0] as u32);
    let tail = encode_utf8(text.drop_first());
    assert(encode_utf8(text) == head + tail);
    if at == 0 {
        lemma_encode_ascii(text[0]);
        0
    } else {
        let k = lemma_ascii_char_shows(text.drop_first(), at - 1);
        head.len() + k
    }
}

/// A text cut between two characters of its encoding is the text of the
/// first part and then the text of the second.
pub proof fn lemma_split_text(text: Seq<char>, at: int)
    requires
        is_char_boundary(encode_utf8(text), at),
    ensures
        valid_utf8(encode_utf8(text).take(at)),
        valid_utf8(encode_utf8(text).skip(at)),
        text == decode_utf8(encode_utf8(text).take(at)) + decode_utf8(encode_utf8(text).skip(at)),
{
    let bytes = encode_utf8(text);
    encode_utf8_valid_utf8(text);
    encode_utf8_decode_utf8(text);
    valid_utf8_split(bytes, at);
    decode_utf8_split(bytes, at);
    assert(bytes.take(at) == bytes.subrange(0, at));
    assert(bytes.skip(at) == bytes.subrange(at, bytes.len() as int));
}

/// The index of the first `byte` in `bytes`, or the length of `bytes` where
/// it holds none.
pub open spec fn first_index(bytes: Seq<u8>, byte: u8) -> int
    decreases bytes.len(),
{
    if bytes.len() == 0 || bytes[0] == byte {
        0
    } else {
        1 + first_index(bytes.drop_first(), byte)
    }
}

/// `first_index` lies within the bytes, nothing before it is the byte, and
/// where it is not the length, the byte is there.
pub proof fn lemma_first_index(bytes: Seq<u8>, byte: u8)
    ensures
        0 <= first_index(bytes, byte) <= bytes.len(),
        forall|i: int| 0 <= i < first_index(bytes, byte) ==> #[trigger] bytes[i] != byte,
        first_index(bytes, byte) < bytes.len() ==> bytes[first_index(bytes, byte)] == byte,
    decreases bytes.len(),
{
    if bytes.len() == 0 || bytes[0] == byte {
    } else {
        let rest = bytes.drop_first();
        lemma_first_index(rest, byte);
        assert forall|i: int| 0 <= i < first_index(bytes, byte) implies #[trigger] bytes[i]
            != byte by {
            if i > 0 {
                assert(bytes[i] == rest[i - 1]);
            }
        }
    }
}

/// An index is the first index of the byte if nothing before it is the byte
/// and it is the length or the byte is there.
pub proof fn lemma_first_index_is(bytes: Seq<u8>, byte: u8, at: int)
    requires
        0 <= at <= bytes.len(),
        forall|i: int| 0 <= i < at ==> #[trigger] bytes[i] != byte,
        at < bytes.len() ==> bytes[at] == byte,
    ensures
        first_index(bytes, byte) == at,
    decreases bytes.len(),
{
    if bytes.len() == 0 || bytes[0] == byte {
        if at > 0 {
            assert(bytes[0] != byte);
        }
    } else {
        let rest = bytes.drop_first();
        assert forall|i: int| 0 <= i < at - 1 implies #[trigger] rest[i] != byte by {
            assert(rest[i] == bytes[i + 1]);
        }
        lemma_first_index_is(rest, byte, at - 1);
    }
}

/// Finds the first `byte` in `bytes`.
pub fn find_byte(bytes: &[u8], byte: u8) -> (at: usize)
    ensures
        at == first_index(bytes@, byte),
{
    let mut i: usize = 0;
    while i < bytes.len() && bytes[i] != byte
        invariant
            i <= bytes.len(),
            forall|k: int| 0 <= k < i ==> #[trigger] bytes@[k] != byte,
        decreases bytes.len() - i,
    {
        i = i + 1;
    }
    proof {
        lemma_first_index_is(bytes@, byte, i as int);
    }
    i
}

} // verus!
