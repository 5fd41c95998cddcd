//! Percent-encoding: a character as the bytes of its UTF-8 encoding, each
//! written as `%` and two hexadecimal digits.

use vstd::prelude::*;
use vstd::utf8::{decode_utf8, encode_scalar, encode_utf8, encode_utf8_decode_utf8};
use crate::request_line::code_points::lemma_char_is_scalar;
use crate::request_line::text::{hex_digit, hex_digit_char, hex_digit_value, push_char};

verus! {

/// The bytes of the UTF-8 encoding of `c`.
pub open spec fn utf8_of(c: char) -> Seq<u8> {
    encode_scalar(c as u32)
}

/// One byte as `%` and its two hexadecimal digits, in lower case.
pub open spec fn percent_group(byte: u8) -> Seq<char> {
    seq!['%', hex_digit(byte as int / 16), hex_digit(byte as int % 16)]
}

/// Each byte as its group, one after another.
pub open spec fn percent_groups(bytes: Seq<u8>) -> Seq<char>
    decreases bytes.len(),
{
    if bytes.len() == 0 {
        seq![]
    } else {
        percent_groups(bytes.drop_last()) + percent_group(bytes.last())
    }
}

/// The escape sequence of `c`: one group for each byte of its UTF-8 encoding.
pub open spec fn percent_encoded(c: char) -> Seq<char> {
    percent_groups(utf8_of(c))
}

/// The bytes that a text made of `%XX` groups alone stands for, if it is one.
pub open spec fn percent_decoded(text: Seq<char>) -> Option<Seq<u8>>
    decreases text.len(),
{
    if text.len() == 0 {
        Some(seq![])
    } else if text.len() < 3 {
        None
    } else {
        let n = text.len() as int;
        match (
            percent_decoded(text.subrange(0, n - 3)),
            text[n - 3] == '%',
            hex_digit_value(text[n - 2]),
            hex_digit_value(text[n - 1]),
        ) {
            (Some(bytes), true, Some(high), Some(low)) => Some(bytes.push((high * 16 + low) as u8)),
            _ => None,
        }
    }
}

/// Decoding the groups of any bytes gives the bytes back.
pub proof fn lemma_percent_groups_decoded(bytes: Seq<u8>)
    ensures
        percent_decoded(percent_groups(bytes)) == Some(bytes),
        percent_groups(bytes).len() == 3 * bytes.len(),
    decreases bytes.len(),
{
    if bytes.len() > 0 {
        let init = bytes.drop_last();
        let last = bytes.last();
        lemma_percent_groups_decoded(init);
        let text = percent_groups(bytes);
        let n = text.len() as int;
        assert(text.subrange(0, n - 3) =~= percent_groups(init));
        assert(text[n - 3] == '%');
        assert(text[n - 2] == hex_digit(last as int / 16));
        assert(text[n - 1] == hex_digit(last as int % 16));
        assert(init.push(last) =~= bytes);
    }
}

/// Decoding the `%XX` groups of an escape sequence gives exactly the UTF-8
/// encoding of the character it was made from, and those bytes decode to that
/// character alone.
pub proof fn lemma_percent_round_trip(c: char)
    ensures
        percent_decoded(percent_encoded(c)) == Some(utf8_of(c)),
        decode_utf8(utf8_of(c)) == seq![c],
        1 <= utf8_of(c).len() <= 4,
{
    lemma_percent_groups_decoded(utf8_of(c));
    let one: Seq<char> = seq![c];
    encode_utf8_decode_utf8(one);
    assert(one.drop_first() =~= Seq::<char>::empty());
    assert(encode_utf8(one.drop_first()) =~= Seq::<u8>::empty());
    assert(encode_utf8(one) =~= utf8_of(c));
}

/// The bytes of the UTF-8 encoding of `c`.
pub fn utf8_bytes(c: char) -> (bytes: Vec<u8>)
    ensures
        bytes@ == utf8_of(c),
{
    let v: u32 = c as u32;
    let mut bytes: Vec<u8> = Vec::new();
    if v <= 0x7F {
        let b0: u8 = (v & 0x7F) as u8;
        bytes.push(b0);
    } else if v <= 0x7FF {
        let b0: u8 = 0xC0 | ((v >> 6) & 0x1F) as u8;
        let b1: u8 = 0x80 | (v & 0x3F) as u8;
        bytes.push(b0);
        bytes.push(b1);
    } else if v <= 0xFFFF {
        let b0: u8 = 0xE0 | ((v >> 12) & 0x0F) as u8;
        let b1: u8 = 0x80 | ((v >> 6) & 0x3F) as u8;
        let b2: u8 = 0x80 | (v & 0x3F) as u8;
        bytes.push(b0);
        bytes.push(b1);
        bytes.push(b2);
    } else {
        let b0: u8 = 0xF0 | ((v >> 18) & 0x7) as u8;
        let b1: u8 = 0x80 | ((v >> 12) & 0x3F) as u8;
        let b2: u8 = 0x80 | ((v >> 6) & 0x3F) as u8;
        let b3: u8 = 0x80 | (v & 0x3F) as u8;
        bytes.push(b0);
        bytes.push(b1);
        bytes.push(b2);
        bytes.push(b3);
    }
    proof {
        lemma_char_is_scalar(c);
        assert(bytes@ =~= utf8_of(c));
    }
    bytes
}

/// Appends the `%XX` group of one byte.
pub fn push_percent_group(text: &mut String, byte: u8)
    ensures
        final(text)@ == old(text)@ + percent_group(byte),
{
    let ghost before = text@;
    push_char(text, '%');
    push_char(text, hex_digit_char(byte / 16));
    push_char(text, hex_digit_char(byte % 16));
    assert(text@ =~= before + percent_group(byte));
}

/// The escape sequence of `c`.
pub fn percent_encode(c: char) -> (text: String)
    ensures
        text@ == percent_encoded(c),
{
    let bytes = utf8_bytes(c);
    let mut text = String::new();
    let mut i: usize = 0;
    while i < bytes.len()
        invariant
            i <= bytes.len(),
            text@ == percent_groups(bytes@.take(i as int)),
        decreases bytes.len() - i,
    {
        push_percent_group(&mut text, bytes[i]);
        proof {
            let next = bytes@.take(i + 1);
            assert(next.drop_last() =~= bytes@.take(i as int));
            assert(next.last() == bytes@[i as int]);
        }
        i = i + 1;
    }
    proof {
        assert(bytes@.take(bytes.len() as int) =~= bytes@);
    }
    text
}

} // verus!
