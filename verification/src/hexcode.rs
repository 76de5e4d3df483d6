//! Hexadecimal text: what the script machine reads and what a digest prints as.

use vstd::prelude::*;
use crate::errors::Error;

verus! {

/// `hex::FromHexError`, the error of `hex::decode`, used as an opaque
/// value.
#[verifier::external_type_specification]
#[verifier::external_body]
pub struct ExFromHexError(hex::FromHexError);

/// The value of one hexadecimal digit, in either case.
pub open spec fn hex_digit_value(c: u8) -> Option<u8> {
    if 0x30 <= c <= 0x39 {
        Some((c - 0x30) as u8)
    } else if 0x61 <= c <= 0x66 {
        Some((c - 0x61 + 10) as u8)
    } else if 0x41 <= c <= 0x46 {
        Some((c - 0x41 + 10) as u8)
    } else {
        None
    }
}

/// An even number of bytes, each of them a hexadecimal digit.
pub open spec fn is_hex_text(text: Seq<u8>) -> bool {
    &&& text.len() % 2 == 0
    &&& forall|i: int| 0 <= i < text.len() ==> (#[trigger] hex_digit_value(text[i])) is Some
}

/// The bytes that hexadecimal text stands for: one byte for each pair of
/// digits, the high digit first.
pub open spec fn hex_decoded(text: Seq<u8>) -> Seq<u8> {
    Seq::new(
        text.len() / 2,
        |i: int|
            (16 * hex_digit_value(text[2 * i]).unwrap() + hex_digit_value(
                text[2 * i + 1],
            ).unwrap()) as u8,
    )
}

/// The lower-case hexadecimal digit of a value below 16.
pub open spec fn lower_hex_digit(v: u8) -> char {
    if v < 10 {
        ((0x30 + v) as u8) as char
    } else {
        ((0x61 + v - 10) as u8) as char
    }
}

/// Lower-case hexadecimal text of `data`: two digits for each byte, the high
/// one first.
pub open spec fn lower_hex(data: Seq<u8>) -> Seq<char> {
    Seq::new(
        2 * data.len(),
        |i: int|
            lower_hex_digit(
                if i % 2 == 0 {
                    data[i / 2] / 16
                } else {
                    data[i / 2] % 16
                },
            ),
    )
}

/// The bytes of the characters of an ASCII text.
pub open spec fn ascii_bytes(text: Seq<char>) -> Seq<u8> {
    Seq::new(text.len(), |i: int| text[i] as u8)
}

/// The text that `lower_hex` prints is ASCII, is hexadecimal text, and
/// decodes to the bytes that it was printed from.
pub proof fn lemma_hex_round_trip(data: Seq<u8>)
    ensures
        vstd::utf8::is_ascii_chars(lower_hex(data)),
        vstd::utf8::encode_utf8(lower_hex(data)) == ascii_bytes(lower_hex(data)),
        is_hex_text(ascii_bytes(lower_hex(data))),
        hex_decoded(ascii_bytes(lower_hex(data))) == data,
{
    let text = lower_hex(data);
    let bytes = ascii_bytes(text);
    assert forall|i: int| 0 <= i < text.len() implies 0x30 <= #[trigger] (text[i] as u8) <= 0x66
        && text[i] as u32 <= 0x66 && hex_digit_value(text[i] as u8) == Some(
        if i % 2 == 0 {
            data[i / 2] / 16
        } else {
            data[i / 2] % 16
        },
    ) by {
        let v: u8 = if i % 2 == 0 {
            data[i / 2] / 16
        } else {
            data[i / 2] % 16
        };
        assert(v < 16);
        assert(text[i] == lower_hex_digit(v));
    }
    assert(vstd::utf8::is_ascii_chars(text)) by {
        assert forall|i: int| 0 <= i < text.len() implies 0 <= #[trigger] (text[i] as nat) < 128 by {
            assert(text[i] as u8 <= 0x66);
        }
    }
    vstd::utf8::is_ascii_chars_encode_utf8(text);
    assert(vstd::utf8::encode_utf8(text) =~= bytes);
    assert forall|i: int| 0 <= i < bytes.len() implies (#[trigger] hex_digit_value(bytes[i]))
        is Some by {
        assert(bytes[i] == text[i] as u8);
    }
    assert(hex_decoded(bytes) =~= data) by {
        assert forall|k: int| 0 <= k < data.len() implies hex_decoded(bytes)[k] == data[k] by {
            assert(bytes[2 * k] == text[2 * k] as u8);
            assert(bytes[2 * k + 1] == text[2 * k + 1] as u8);
            assert((2 * k) / 2 == k && (2 * k + 1) / 2 == k);
            assert((2 * k) % 2 == 0 && (2 * k + 1) % 2 == 1);
            let b = data[k];
            assert(16 * (b / 16) + b % 16 == b);
        }
    }
}

/// Calls `hex::decode`. It succeeds exactly on an even number of
/// hexadecimal digits, upper or lower case, and then returns one byte for
/// each pair, the first digit of a pair being the high half.
#[verifier::external_body]
fn hex_decode(text: &[u8]) -> (r: Result<Vec<u8>, hex::FromHexError>)
    ensures
        r is Ok <==> is_hex_text(text@),
        r is Ok ==> r->Ok_0@ == hex_decoded(text@),
{
    hex::decode(text)
}

/// Decodes hexadecimal text. Anything but an even number of hexadecimal
/// digits is a `HexcodeError`.
pub fn decode_hex(text: &[u8]) -> (r: Result<Vec<u8>, Error>)
    ensures
        is_hex_text(text@) ==> r is Ok && r->Ok_0@ == hex_decoded(text@),
        !is_hex_text(text@) ==> r == Err::<Vec<u8>, Error>(Error::HexcodeError),
{
    match hex_decode(text) {
        Ok(bytes) => Ok(bytes),
        Err(_) => Err(Error::HexcodeError),
    }
}

/// Calls `blake3::Hash::to_hex`, which prints each byte of the digest as
/// two lower-case hexadecimal digits.
#[verifier::external_body]
pub(crate) fn digest_hex(digest: &[u8; 32]) -> (text: String)
    ensures
        text@ == lower_hex(digest@),
{
    blake3::Hash::from_bytes(*digest).to_hex().to_string()
}

/// Calls `hex::encode`, which prints each byte as two lower-case
/// hexadecimal digits.
#[verifier::external_body]
pub(crate) fn hex_encode(data: &[u8]) -> (text: String)
    ensures
        text@ == lower_hex(data@),
{
    hex::encode(data)
}

} // verus!
