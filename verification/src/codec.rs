//! The canonical binary codec: little-endian scalars, byte strings and
//! lists with a 32-bit length in front, and a one-byte tag in front of the
//! body of a variant. This file holds the scalars, arrays and text.

use vstd::prelude::*;
use vstd::string::*;
use vstd::array::{spec_array_fill_for_copy_type, spec_array_update};
use vstd::slice::slice_subrange;
use vstd::utf8::{
    decode_utf8, encode_utf8, encode_utf8_decode_utf8, encode_utf8_valid_utf8, valid_utf8,
};
use crate::bytes::{
    append_bytes, append_u32_le, lemma_le_value_bound, lemma_pow256_widths,
    lemma_u128_le, lemma_u32_le, lemma_u64_le, read_le, u128_le, u128_of_le, u32_le, u32_of_le,
    u64_le, u64_of_le,
};
use crate::errors::{Error, ProtocolError};

verus! {

/// The array that holds the first `n` bytes of `s` and zeros after them.
pub open spec fn array_prefix<const N: usize>(s: Seq<u8>, n: nat) -> [u8; N]
    decreases n,
{
    if n == 0 {
        spec_array_fill_for_copy_type::<u8, N>(0u8)
    } else {
        spec_array_update(array_prefix::<N>(s, (n - 1) as nat), n - 1, s[n - 1])
    }
}

/// The array that holds the `N` bytes of `s`.
pub open spec fn array_of<const N: usize>(s: Seq<u8>) -> [u8; N] {
    array_prefix::<N>(s, N as nat)
}

/// The array of a prefix holds the bytes of the prefix.
proof fn lemma_array_prefix<const N: usize>(s: Seq<u8>, n: nat)
    requires
        n <= N,
        s.len() >= n,
    ensures
        forall|i: int| 0 <= i < n ==> array_prefix::<N>(s, n)@[i] == s[i],
    decreases n,
{
    broadcast use vstd::array::axiom_spec_array_update;
    broadcast use vstd::array::array_len_matches_n;

    if n > 0 {
        lemma_array_prefix::<N>(s, (n - 1) as nat);
    }
}

/// The array of a sequence of `N` bytes holds exactly those bytes.
pub proof fn lemma_array_of<const N: usize>(s: Seq<u8>)
    requires
        s.len() == N,
    ensures
        array_of::<N>(s)@ == s,
{
    broadcast use vstd::array::array_len_matches_n;

    lemma_array_prefix::<N>(s, N as nat);
    assert(array_of::<N>(s)@ =~= s);
}

/// An array is the array of its own bytes.
pub proof fn lemma_array_of_view<const N: usize>(a: [u8; N])
    ensures
        array_of::<N>(a@) == a,
{
    broadcast use vstd::array::array_len_matches_n;

    lemma_array_of::<N>(a@);
    assert(array_of::<N>(a@) =~= a);
}

/// Whether a length can stand in front of a list or a text.
pub open spec fn fits_u32(n: nat) -> bool {
    n <= u32::MAX
}

/// The four bytes that announce `n` items or bytes.
pub open spec fn enc_len(n: nat) -> Seq<u8> {
    u32_le((n % 0x1_0000_0000) as u32)
}

/// One byte.
pub open spec fn parse_u8(bytes: Seq<u8>) -> Option<(u8, Seq<u8>)> {
    if bytes.len() < 1 {
        None
    } else {
        Some((bytes[0], bytes.skip(1)))
    }
}

/// One byte for a truth value: 1 for `true`, 0 for `false`.
pub open spec fn enc_bool(b: bool) -> Seq<u8> {
    seq![if b { 1u8 } else { 0u8 }]
}

/// One byte, 0 for `false` and 1 for `true`; any other byte is refused.
pub open spec fn parse_bool(bytes: Seq<u8>) -> Option<(bool, Seq<u8>)> {
    if bytes.len() < 1 || bytes[0] > 1 {
        None
    } else {
        Some((bytes[0] == 1, bytes.skip(1)))
    }
}

/// Four bytes as a number in little-endian order.
pub open spec fn parse_u32(bytes: Seq<u8>) -> Option<(u32, Seq<u8>)> {
    if bytes.len() < 4 {
        None
    } else {
        Some((u32_of_le(bytes.subrange(0, 4)), bytes.skip(4)))
    }
}

/// Eight bytes as a number in little-endian order.
pub open spec fn parse_u64(bytes: Seq<u8>) -> Option<(u64, Seq<u8>)> {
    if bytes.len() < 8 {
        None
    } else {
        Some((u64_of_le(bytes.subrange(0, 8)), bytes.skip(8)))
    }
}

/// Sixteen bytes as a number in little-endian order.
pub open spec fn parse_u128(bytes: Seq<u8>) -> Option<(u128, Seq<u8>)> {
    if bytes.len() < 16 {
        None
    } else {
        Some((u128_of_le(bytes.subrange(0, 16)), bytes.skip(16)))
    }
}

/// The next `N` bytes as an array.
pub open spec fn parse_array<const N: usize>(bytes: Seq<u8>) -> Option<([u8; N], Seq<u8>)> {
    if bytes.len() < N {
        None
    } else {
        Some((array_of::<N>(bytes.subrange(0, N as int)), bytes.skip(N as int)))
    }
}

/// A text: the length of its UTF-8 bytes, then the bytes.
pub open spec fn enc_text(text: Seq<char>) -> Seq<u8> {
    enc_len(encode_utf8(text).len()) + encode_utf8(text)
}

/// A length, then that many bytes, which must be valid UTF-8.
pub open spec fn parse_text(bytes: Seq<u8>) -> Option<(Seq<char>, Seq<u8>)> {
    match parse_u32(bytes) {
        None => None,
        Some((n, rest)) => if rest.len() < n || !valid_utf8(rest.subrange(0, n as int)) {
            None
        } else {
            Some((decode_utf8(rest.subrange(0, n as int)), rest.skip(n as int)))
        },
    }
}

/// Joining byte strings does not depend on the order of the joins.
pub proof fn lemma_concat_assoc(a: Seq<u8>, b: Seq<u8>, c: Seq<u8>)
    ensures
        (a + b) + c == a + (b + c),
{
    assert((a + b) + c =~= a + (b + c));
}

/// Decoding the byte of a truth value gives the value back.
pub proof fn lemma_bool_round_trip(b: bool, rest: Seq<u8>)
    ensures
        parse_bool(enc_bool(b) + rest) == Some((b, rest)),
{
    assert((enc_bool(b) + rest).skip(1) =~= rest);
}

/// Decoding the four bytes of a number gives the number back.
pub proof fn lemma_u32_round_trip(x: u32, rest: Seq<u8>)
    ensures
        parse_u32(u32_le(x) + rest) == Some((x, rest)),
        u32_le(x).len() == 4,
{
    lemma_u32_le(x);
    let all = u32_le(x) + rest;
    assert(all.subrange(0, 4) =~= u32_le(x));
    assert(all.skip(4) =~= rest);
}

/// Decoding the eight bytes of a number gives the number back.
pub proof fn lemma_u64_round_trip(x: u64, rest: Seq<u8>)
    ensures
        parse_u64(u64_le(x) + rest) == Some((x, rest)),
        u64_le(x).len() == 8,
{
    lemma_u64_le(x);
    let all = u64_le(x) + rest;
    assert(all.subrange(0, 8) =~= u64_le(x));
    assert(all.skip(8) =~= rest);
}

/// Decoding the sixteen bytes of a number gives the number back.
pub proof fn lemma_u128_round_trip(x: u128, rest: Seq<u8>)
    ensures
        parse_u128(u128_le(x) + rest) == Some((x, rest)),
        u128_le(x).len() == 16,
{
    lemma_u128_le(x);
    let all = u128_le(x) + rest;
    assert(all.subrange(0, 16) =~= u128_le(x));
    assert(all.skip(16) =~= rest);
}

/// Decoding the bytes of an array gives the array back.
pub proof fn lemma_array_round_trip<const N: usize>(a: [u8; N], rest: Seq<u8>)
    ensures
        parse_array::<N>(a@ + rest) == Some((a, rest)),
        a@.len() == N,
{
    broadcast use vstd::array::array_len_matches_n;

    let all = a@ + rest;
    assert(all.subrange(0, N as int) =~= a@);
    assert(all.skip(N as int) =~= rest);
    lemma_array_of_view::<N>(a);
}

/// Decoding the four bytes that announce a length gives the length back.
pub proof fn lemma_len_round_trip(n: nat, rest: Seq<u8>)
    requires
        fits_u32(n),
    ensures
        parse_u32(enc_len(n) + rest) == Some((n as u32, rest)),
        enc_len(n).len() == 4,
{
    lemma_u32_round_trip(n as u32, rest);
}

/// Decoding the encoding of a text gives the text back.
pub proof fn lemma_text_round_trip(text: Seq<char>, rest: Seq<u8>)
    requires
        fits_u32(encode_utf8(text).len()),
    ensures
        parse_text(enc_text(text) + rest) == Some((text, rest)),
{
    let body = encode_utf8(text);
    lemma_len_round_trip(body.len(), body + rest);
    assert(enc_text(text) + rest =~= enc_len(body.len()) + (body + rest));
    assert((body + rest).subrange(0, body.len() as int) =~= body);
    assert((body + rest).skip(body.len() as int) =~= rest);
    encode_utf8_valid_utf8(text);
    encode_utf8_decode_utf8(text);
}

/// Calls `String::from_utf8`, which accepts exactly the valid UTF-8 byte
/// strings and then returns the text that has those bytes.
#[verifier::external_body]
fn text_from_utf8(bytes: Vec<u8>) -> (r: Option<String>)
    ensures
        r is Some <==> valid_utf8(bytes@),
        r is Some ==> encode_utf8(r->Some_0@) == bytes@,
{
    String::from_utf8(bytes).ok()
}

/// Appends the four bytes that announce `n`, when `n` fits.
pub fn write_len(out: &mut Vec<u8>, n: usize) -> (ok: bool)
    ensures
        ok == fits_u32(n as nat),
        ok ==> final(out)@ == old(out)@ + enc_len(n as nat),
        !ok ==> final(out)@ == old(out)@,
{
    if n > 0xffff_ffff {
        return false;
    }
    append_u32_le(out, n as u32);
    true
}

/// Appends one byte for a truth value.
pub fn write_bool(out: &mut Vec<u8>, b: bool)
    ensures
        final(out)@ == old(out)@ + enc_bool(b),
{
    let byte: u8 = if b { 1 } else { 0 };
    out.push(byte);
    assert(out@ =~= old(out)@ + enc_bool(b));
}

/// Appends a text, when its length fits.
pub fn write_text(out: &mut Vec<u8>, text: &str) -> (ok: bool)
    ensures
        ok == fits_u32(encode_utf8(text@).len()),
        ok ==> final(out)@ == old(out)@ + enc_text(text@),
{
    let body = text.as_bytes();
    if !write_len(out, body.len()) {
        return false;
    }
    append_bytes(out, body);
    assert(out@ =~= old(out)@ + enc_text(text@));
    true
}

/// What a reader returns for a parse of the bytes from `pos` on: the
/// value, and the position at which the rest begins.
pub open spec fn reads<T>(
    parsed: Option<(T, Seq<u8>)>,
    bytes: Seq<u8>,
    pos: usize,
    r: Option<(T, usize)>,
) -> bool {
    match parsed {
        None => r is None,
        Some((value, rest)) => r is Some && r->Some_0.0 == value && pos <= r->Some_0.1
            <= bytes.len() && bytes.skip(r->Some_0.1 as int) == rest,
    }
}

/// Reads one byte at `pos`.
pub fn read_u8(bytes: &[u8], pos: usize) -> (r: Option<(u8, usize)>)
    requires
        pos <= bytes@.len(),
    ensures
        reads(parse_u8(bytes@.skip(pos as int)), bytes@, pos, r),
{
    if bytes.len() - pos < 1 {
        return None;
    }
    assert(bytes@.skip(pos as int).skip(1) =~= bytes@.skip(pos + 1));
    Some((bytes[pos], pos + 1))
}

/// Reads a truth value at `pos`.
pub fn read_bool(bytes: &[u8], pos: usize) -> (r: Option<(bool, usize)>)
    requires
        pos <= bytes@.len(),
    ensures
        reads(parse_bool(bytes@.skip(pos as int)), bytes@, pos, r),
{
    if bytes.len() - pos < 1 || bytes[pos] > 1 {
        return None;
    }
    assert(bytes@.skip(pos as int).skip(1) =~= bytes@.skip(pos + 1));
    Some((bytes[pos] == 1, pos + 1))
}

/// Reads a 32-bit number at `pos`.
pub fn read_u32(bytes: &[u8], pos: usize) -> (r: Option<(u32, usize)>)
    requires
        pos <= bytes@.len(),
    ensures
        reads(parse_u32(bytes@.skip(pos as int)), bytes@, pos, r),
{
    if bytes.len() - pos < 4 {
        return None;
    }
    let value = read_le(bytes, pos, 4);
    proof {
        let part = bytes@.subrange(pos as int, pos + 4);
        assert(part =~= bytes@.skip(pos as int).subrange(0, 4));
        assert(bytes@.skip(pos as int).skip(4) =~= bytes@.skip(pos + 4));
        lemma_le_value_bound(part);
        lemma_pow256_widths();
    }
    Some((value as u32, pos + 4))
}

/// Reads a 64-bit number at `pos`.
pub fn read_u64(bytes: &[u8], pos: usize) -> (r: Option<(u64, usize)>)
    requires
        pos <= bytes@.len(),
    ensures
        reads(parse_u64(bytes@.skip(pos as int)), bytes@, pos, r),
{
    if bytes.len() - pos < 8 {
        return None;
    }
    let value = read_le(bytes, pos, 8);
    proof {
        let part = bytes@.subrange(pos as int, pos + 8);
        assert(part =~= bytes@.skip(pos as int).subrange(0, 8));
        assert(bytes@.skip(pos as int).skip(8) =~= bytes@.skip(pos + 8));
        lemma_le_value_bound(part);
        lemma_pow256_widths();
    }
    Some((value as u64, pos + 8))
}

/// Reads a 128-bit number at `pos`.
pub fn read_u128(bytes: &[u8], pos: usize) -> (r: Option<(u128, usize)>)
    requires
        pos <= bytes@.len(),
    ensures
        reads(parse_u128(bytes@.skip(pos as int)), bytes@, pos, r),
{
    if bytes.len() - pos < 16 {
        return None;
    }
    let value = read_le(bytes, pos, 16);
    proof {
        assert(bytes@.subrange(pos as int, pos + 16) =~= bytes@.skip(pos as int).subrange(0, 16));
        assert(bytes@.skip(pos as int).skip(16) =~= bytes@.skip(pos + 16));
    }
    Some((value, pos + 16))
}

/// Reads 32 bytes at `pos`.
pub fn read_digest(bytes: &[u8], pos: usize) -> (r: Option<([u8; 32], usize)>)
    requires
        pos <= bytes@.len(),
    ensures
        reads(parse_array::<32>(bytes@.skip(pos as int)), bytes@, pos, r),
{
    if bytes.len() - pos < 32 {
        return None;
    }
    let mut out = [0u8; 32];
    let mut i: usize = 0;
    while i < 32
        invariant
            i <= 32,
            pos + 32 <= bytes.len(),
            forall|j: int| 0 <= j < i ==> out@[j] == bytes@[pos + j],
        decreases 32 - i,
    {
        out[i] = bytes[pos + i];
        i += 1;
    }
    proof {
        let part = bytes@.skip(pos as int).subrange(0, 32);
        lemma_array_of::<32>(part);
        assert(out@ =~= part);
        assert(out =~= array_of::<32>(part));
        assert(bytes@.skip(pos as int).skip(32) =~= bytes@.skip(pos + 32));
    }
    Some((out, pos + 32))
}

/// Reads 64 bytes at `pos`.
pub fn read_signature(bytes: &[u8], pos: usize) -> (r: Option<([u8; 64], usize)>)
    requires
        pos <= bytes@.len(),
    ensures
        reads(parse_array::<64>(bytes@.skip(pos as int)), bytes@, pos, r),
{
    if bytes.len() - pos < 64 {
        return None;
    }
    let mut out = [0u8; 64];
    let mut i: usize = 0;
    while i < 64
        invariant
            i <= 64,
            pos + 64 <= bytes.len(),
            forall|j: int| 0 <= j < i ==> out@[j] == bytes@[pos + j],
        decreases 64 - i,
    {
        out[i] = bytes[pos + i];
        i += 1;
    }
    proof {
        let part = bytes@.skip(pos as int).subrange(0, 64);
        lemma_array_of::<64>(part);
        assert(out@ =~= part);
        assert(out =~= array_of::<64>(part));
        assert(bytes@.skip(pos as int).skip(64) =~= bytes@.skip(pos + 64));
    }
    Some((out, pos + 64))
}

/// Reads a text. The value is given by its characters.
pub fn read_text(bytes: &[u8], pos: usize) -> (r: Option<(String, usize)>)
    requires
        pos <= bytes@.len(),
    ensures
        match parse_text(bytes@.skip(pos as int)) {
            None => r is None,
            Some((text, rest)) => r is Some && r->Some_0.0@ == text && pos <= r->Some_0.1
                <= bytes@.len() && bytes@.skip(r->Some_0.1 as int) == rest,
        },
{
    let (n, start) = match read_u32(bytes, pos) {
        Some(pair) => pair,
        None => { return None; },
    };
    if bytes.len() - start < n as usize {
        return None;
    }
    let end = start + n as usize;
    let mut body: Vec<u8> = Vec::new();
    append_bytes(&mut body, slice_subrange(bytes, start, end));
    proof {
        let rest = bytes@.skip(start as int);
        assert(body@ =~= rest.subrange(0, n as int));
        assert(rest.skip(n as int) =~= bytes@.skip(end as int));
    }
    match text_from_utf8(body) {
        Some(text) => {
            proof {
                encode_utf8_decode_utf8(text@);
            }
            Some((text, end))
        },
        None => None,
    }
}

/// What a list parse gives once `done` have been read and `more` is the
/// parse of the remaining items.
pub open spec fn extend_parse<T>(done: Seq<T>, more: Option<(Seq<T>, Seq<u8>)>) -> Option<
    (Seq<T>, Seq<u8>),
> {
    match more {
        None => None,
        Some((others, end)) => Some((done + others, end)),
    }
}

/// The error of an encoding or decoding that cannot be done.
pub open spec fn codec_error() -> Error {
    Error::Protocol(ProtocolError::SerializationError)
}

} // verus!
