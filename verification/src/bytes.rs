//! Byte buffers: appending byte strings and little-endian scalars.

use vstd::prelude::*;
verus! {

/// Appends `data` to `out`.
pub fn append_bytes(out: &mut Vec<u8>, data: &[u8])
    ensures
        final(out)@ == old(out)@ + data@,
{
    let mut i: usize = 0;
    while i < data.len()
        invariant
            i <= data@.len(),
            out@ == old(out)@ + data@.subrange(0, i as int),
        decreases data@.len() - i,
    {
        out.push(data[i]);
        assert(data@.subrange(0, i + 1) =~= data@.subrange(0, i as int).push(data@[i as int]));
        i += 1;
    }
    assert(data@.subrange(0, data@.len() as int) =~= data@);
}

/// The `width` low bytes of `x`, the lowest first.
#[verifier::opaque]
pub open spec fn le_bytes(x: nat, width: nat) -> Seq<u8>
    decreases width,
{
    if width == 0 {
        Seq::empty()
    } else {
        seq![(x % 256) as u8] + le_bytes(x / 256, (width - 1) as nat)
    }
}

/// The number that `bytes` spell in little-endian order.
#[verifier::opaque]
pub open spec fn le_value(bytes: Seq<u8>) -> nat
    decreases bytes.len(),
{
    if bytes.len() == 0 {
        0
    } else {
        bytes[0] as nat + 256 * le_value(bytes.drop_first())
    }
}

/// The four bytes of `x` in little-endian order.
pub open spec fn u32_le(x: u32) -> Seq<u8> {
    le_bytes(x as nat, 4)
}

/// The eight bytes of `x` in little-endian order.
pub open spec fn u64_le(x: u64) -> Seq<u8> {
    le_bytes(x as nat, 8)
}

/// The sixteen bytes of `x` in little-endian order.
pub open spec fn u128_le(x: u128) -> Seq<u8> {
    le_bytes(x as nat, 16)
}

/// The 32-bit number that four bytes spell in little-endian order.
pub open spec fn u32_of_le(bytes: Seq<u8>) -> u32 {
    le_value(bytes) as u32
}

/// The 64-bit number that eight bytes spell in little-endian order.
pub open spec fn u64_of_le(bytes: Seq<u8>) -> u64 {
    le_value(bytes) as u64
}

/// The 128-bit number that sixteen bytes spell in little-endian order.
pub open spec fn u128_of_le(bytes: Seq<u8>) -> u128 {
    le_value(bytes) as u128
}

/// The low bytes of a number are as many as were asked for.
pub proof fn lemma_le_bytes_len(x: nat, width: nat)
    ensures
        le_bytes(x, width).len() == width,
    decreases width,
{
    reveal_with_fuel(le_bytes, 2);
    if width > 0 {
        lemma_le_bytes_len(x / 256, (width - 1) as nat);
    }
}

/// A little-endian number of `n` bytes is below 256 to the `n`.
pub proof fn lemma_le_value_bound(bytes: Seq<u8>)
    ensures
        le_value(bytes) < pow256(bytes.len()),
    decreases bytes.len(),
{
    reveal_with_fuel(le_value, 2);
    if bytes.len() > 0 {
        lemma_le_value_bound(bytes.drop_first());
    }
}

/// The bytes of a number below 256 to the `width` spell the number.
pub proof fn lemma_le_round_trip(x: nat, width: nat)
    requires
        x < pow256(width),
    ensures
        le_value(le_bytes(x, width)) == x,
    decreases width,
{
    reveal_with_fuel(le_bytes, 2);
    reveal_with_fuel(le_value, 2);
    if width > 0 {
        let rest = le_bytes(x / 256, (width - 1) as nat);
        let all = le_bytes(x, width);
        assert(all[0] == (x % 256) as u8);
        assert(all.drop_first() =~= rest);
        lemma_le_round_trip(x / 256, (width - 1) as nat);
    }
}

/// Four, eight and sixteen bytes spell the numbers that 32, 64 and 128
/// bits hold.
pub proof fn lemma_pow256_widths()
    ensures
        pow256(4) == 0x1_0000_0000,
        pow256(8) == 0x1_0000_0000_0000_0000,
        pow256(16) == 0x1_0000_0000_0000_0000_0000_0000_0000_0000,
{
    reveal_with_fuel(pow256, 17);
}

/// The bytes of a 32-bit number are four and spell the number.
pub proof fn lemma_u32_le(x: u32)
    ensures
        u32_le(x).len() == 4,
        u32_of_le(u32_le(x)) == x,
{
    lemma_pow256_widths();
    lemma_le_bytes_len(x as nat, 4);
    lemma_le_round_trip(x as nat, 4);
}

/// The bytes of a 64-bit number are eight and spell the number.
pub proof fn lemma_u64_le(x: u64)
    ensures
        u64_le(x).len() == 8,
        u64_of_le(u64_le(x)) == x,
{
    lemma_pow256_widths();
    lemma_le_bytes_len(x as nat, 8);
    lemma_le_round_trip(x as nat, 8);
}

/// The bytes of a 128-bit number are sixteen and spell the number.
pub proof fn lemma_u128_le(x: u128)
    ensures
        u128_le(x).len() == 16,
        u128_of_le(u128_le(x)) == x,
{
    lemma_pow256_widths();
    lemma_le_bytes_len(x as nat, 16);
    lemma_le_round_trip(x as nat, 16);
}

/// The bytes of a number are as many as its width asks for.
pub proof fn lemma_scalar_lengths()
    ensures
        forall|x: u32| (#[trigger] u32_le(x)).len() == 4,
        forall|x: u64| (#[trigger] u64_le(x)).len() == 8,
        forall|x: u128| (#[trigger] u128_le(x)).len() == 16,
{
    assert forall|x: u32| (#[trigger] u32_le(x)).len() == 4 by {
        lemma_le_bytes_len(x as nat, 4);
    }
    assert forall|x: u64| (#[trigger] u64_le(x)).len() == 8 by {
        lemma_le_bytes_len(x as nat, 8);
    }
    assert forall|x: u128| (#[trigger] u128_le(x)).len() == 16 by {
        lemma_le_bytes_len(x as nat, 16);
    }
}

/// Appends the `width` low bytes of `x` to `out`, the lowest first.
pub fn append_le(out: &mut Vec<u8>, x: u128, width: usize)
    ensures
        final(out)@ == old(out)@ + le_bytes(x as nat, width as nat),
{
    let mut rest = x;
    let mut i: usize = 0;
    proof {
        reveal_with_fuel(le_bytes, 2);
    }
    while i < width
        invariant
            i <= width,
            out@ + le_bytes(rest as nat, (width - i) as nat) == old(out)@ + le_bytes(
                x as nat,
                width as nat,
            ),
        decreases width - i,
    {
        let ghost before = out@;
        out.push((rest % 256) as u8);
        proof {
            reveal_with_fuel(le_bytes, 2);
        }
        assert(out@ + le_bytes((rest / 256) as nat, (width - i - 1) as nat) =~= before
            + le_bytes(rest as nat, (width - i) as nat));
        rest = rest / 256;
        i += 1;
    }
    assert(out@ + le_bytes(rest as nat, 0) =~= out@);
}

/// The number that the `width` bytes from `pos` on spell in little-endian
/// order.
pub fn read_le(bytes: &[u8], pos: usize, width: usize) -> (value: u128)
    requires
        pos + width <= bytes@.len(),
        width <= 16,
    ensures
        value == le_value(bytes@.subrange(pos as int, pos + width)),
{
    let mut value: u128 = 0;
    let mut i: usize = width;
    proof {
        reveal_with_fuel(le_value, 2);
    }
    assert(bytes@.subrange(pos + width, pos + width) =~= Seq::<u8>::empty());
    while i > 0
        invariant
            i <= width <= 16,
            pos + width <= bytes.len(),
            value == le_value(bytes@.subrange(pos + i, pos + width)),
        decreases i,
    {
        proof {
            reveal_with_fuel(le_value, 2);
            let next = bytes@.subrange(pos + i - 1, pos + width);
            assert(next[0] == bytes@[pos + i - 1]);
            assert(next.drop_first() =~= bytes@.subrange(pos + i, pos + width));
            lemma_le_value_bound(next);
            lemma_pow256_grows(next.len(), 16);
            lemma_pow256_16();
        }
        i -= 1;
        value = value * 256 + bytes[pos + i] as u128;
    }
    value
}

/// Appends the four little-endian bytes of `x` to `out`.
pub fn append_u32_le(out: &mut Vec<u8>, x: u32)
    ensures
        final(out)@ == old(out)@ + u32_le(x),
{
    append_le(out, x as u128, 4);
}

/// Appends the eight little-endian bytes of `x` to `out`.
pub fn append_u64_le(out: &mut Vec<u8>, x: u64)
    ensures
        final(out)@ == old(out)@ + u64_le(x),
{
    append_le(out, x as u128, 8);
}

/// Appends the sixteen little-endian bytes of `x` to `out`.
pub fn append_u128_le(out: &mut Vec<u8>, x: u128)
    ensures
        final(out)@ == old(out)@ + u128_le(x),
{
    append_le(out, x, 16);
}

} // verus!

verus! {

/// Whether two digests are equal.
pub fn same_digest(a: &[u8; 32], b: &[u8; 32]) -> (r: bool)
    ensures
        r == (*a == *b),
{
    let mut i: usize = 0;
    while i < 32
        invariant
            i <= 32,
            forall|j: int| 0 <= j < i ==> a@[j] == b@[j],
        decreases 32 - i,
    {
        if a[i] != b[i] {
            return false;
        }
        i += 1;
    }
    assert(*a =~= *b);
    true
}

/// The number that `bytes` spell in big-endian order.
pub open spec fn be_value(bytes: Seq<u8>) -> nat
    decreases bytes.len(),
{
    if bytes.len() == 0 {
        0
    } else {
        be_value(bytes.drop_last()) * 256 + bytes.last() as nat
    }
}

/// 256 to the power `n`.
pub open spec fn pow256(n: nat) -> nat
    decreases n,
{
    if n == 0 {
        1
    } else {
        256 * pow256((n - 1) as nat)
    }
}

/// A big-endian number of `n` bytes is below 256 to the `n`.
pub proof fn lemma_be_value_bound(bytes: Seq<u8>)
    ensures
        be_value(bytes) < pow256(bytes.len()),
    decreases bytes.len(),
{
    if bytes.len() > 0 {
        lemma_be_value_bound(bytes.drop_last());
    }
}

/// Powers of 256 grow with the exponent.
pub proof fn lemma_pow256_grows(a: nat, b: nat)
    requires
        a <= b,
    ensures
        0 < pow256(a) <= pow256(b),
    decreases b,
{
    if a < b {
        lemma_pow256_grows(a, (b - 1) as nat);
    } else if a > 0 {
        lemma_pow256_grows((a - 1) as nat, (a - 1) as nat);
    }
}

/// Sixteen bytes spell a number that 128 bits hold.
pub proof fn lemma_pow256_16()
    ensures
        pow256(16) == 0x1_0000_0000_0000_0000_0000_0000_0000_0000,
{
    reveal_with_fuel(pow256, 17);
}

/// The number that the first 16 bytes of `bytes` spell in big-endian order.
pub fn be_prefix_u128(bytes: &[u8; 32]) -> (value: u128)
    ensures
        value == be_value(bytes@.subrange(0, 16)),
{
    let mut value: u128 = 0;
    let mut i: usize = 0;
    assert(bytes@.subrange(0, 0) =~= Seq::<u8>::empty());
    while i < 16
        invariant
            i <= 16,
            value == be_value(bytes@.subrange(0, i as int)),
        decreases 16 - i,
    {
        proof {
            let next = bytes@.subrange(0, i + 1);
            assert(next.drop_last() =~= bytes@.subrange(0, i as int));
            assert(next.last() == bytes@[i as int]);
            lemma_be_value_bound(next);
            lemma_pow256_grows(next.len(), 16);
            lemma_pow256_16();
        }
        value = value * 256 + bytes[i] as u128;
        i += 1;
    }
    value
}

} // verus!
