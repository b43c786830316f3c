//! Fixed-width integers as bytes.

use vstd::prelude::*;

verus! {

/// `value` as four little-endian bytes.
pub open spec fn le_u32(value: u32) -> Seq<u8> {
    seq![
        (value as int % 0x100) as u8,
        (value as int / 0x100 % 0x100) as u8,
        (value as int / 0x1_0000 % 0x100) as u8,
        (value as int / 0x100_0000) as u8,
    ]
}

/// `value` as four big-endian bytes.
pub open spec fn be_u32(value: u32) -> Seq<u8> {
    seq![
        (value as int / 0x100_0000) as u8,
        (value as int / 0x1_0000 % 0x100) as u8,
        (value as int / 0x100 % 0x100) as u8,
        (value as int % 0x100) as u8,
    ]
}

/// `value` as two little-endian bytes.
pub open spec fn le_u16(value: u16) -> Seq<u8> {
    seq![(value as int % 0x100) as u8, (value as int / 0x100) as u8]
}

/// The little-endian `u32` stored at `bytes[position..position + 4]`.
pub open spec fn u32_at(bytes: Seq<u8>, position: int) -> u32 {
    (bytes[position] as int + bytes[position + 1] as int * 0x100 + bytes[position + 2] as int * 0x1_0000
        + bytes[position + 3] as int * 0x100_0000) as u32
}

/// Reading back four little-endian bytes gives the value they encode.
pub proof fn lemma_le_u32_round_trip(value: u32, prefix: Seq<u8>, suffix: Seq<u8>)
    ensures
        u32_at(prefix + le_u32(value) + suffix, prefix.len() as int) == value,
        le_u32(value).len() == 4,
{
    let bytes = prefix + le_u32(value) + suffix;
    let p = prefix.len() as int;
    assert(bytes[p] == le_u32(value)[0]);
    assert(bytes[p + 1] == le_u32(value)[1]);
    assert(bytes[p + 2] == le_u32(value)[2]);
    assert(bytes[p + 3] == le_u32(value)[3]);
    let v = value;
    assert((v % 0x100u32) + (v / 0x100u32 % 0x100u32) * 0x100u32 + (v / 0x1_0000u32 % 0x100u32) * 0x1_0000u32
        + (v / 0x100_0000u32) * 0x100_0000u32 == v) by (bit_vector);
}

/// Appends `value` as four little-endian bytes.
pub fn push_u32_le(out: &mut Vec<u8>, value: u32)
    ensures
        final(out)@ == old(out)@ + le_u32(value),
{
    out.push((value & 0xff) as u8);
    out.push(((value >> 8u32) & 0xff) as u8);
    out.push(((value >> 16u32) & 0xff) as u8);
    out.push((value >> 24u32) as u8);
    proof {
        lemma_byte_bits(value);
    }
    assert(out@ =~= old(out)@ + le_u32(value));
}

/// Appends `value` as four big-endian bytes.
pub fn push_u32_be(out: &mut Vec<u8>, value: u32)
    ensures
        final(out)@ == old(out)@ + be_u32(value),
{
    out.push((value >> 24u32) as u8);
    out.push(((value >> 16u32) & 0xff) as u8);
    out.push(((value >> 8u32) & 0xff) as u8);
    out.push((value & 0xff) as u8);
    proof {
        lemma_byte_bits(value);
    }
    assert(out@ =~= old(out)@ + be_u32(value));
}

/// Appends `value` as two little-endian bytes.
pub fn push_u16_le(out: &mut Vec<u8>, value: u16)
    ensures
        final(out)@ == old(out)@ + le_u16(value),
{
    out.push((value & 0xff) as u8);
    out.push((value >> 8u16) as u8);
    proof {
        assert((value & 0xff) == value % 0x100u16) by (bit_vector);
        assert((value >> 8u16) == value / 0x100u16) by (bit_vector);
    }
    assert(out@ =~= old(out)@ + le_u16(value));
}

/// Appends every byte of `bytes`.
pub fn push_bytes(out: &mut Vec<u8>, bytes: &[u8])
    ensures
        final(out)@ == old(out)@ + bytes@,
{
    let mut i: usize = 0;
    while i < bytes.len()
        invariant
            i <= bytes@.len(),
            out@ == old(out)@ + bytes@.take(i as int),
        decreases bytes@.len() - i,
    {
        out.push(bytes[i]);
        assert(bytes@.take(i + 1) =~= bytes@.take(i as int).push(bytes@[i as int]));
        i += 1;
    }
    assert(bytes@.take(bytes@.len() as int) =~= bytes@);
}

/// The little-endian `u32` at `bytes[position..position + 4]`.
pub fn read_u32_le(bytes: &[u8], position: usize) -> (value: u32)
    requires
        position + 4 <= bytes@.len(),
    ensures
        value == u32_at(bytes@, position as int),
{
    let b0 = bytes[position] as u32;
    let b1 = bytes[position + 1] as u32;
    let b2 = bytes[position + 2] as u32;
    let b3 = bytes[position + 3] as u32;
    proof {
        assert(b0 | (b1 << 8u32) | (b2 << 16u32) | (b3 << 24u32) == b0 + b1 * 0x100u32 + b2 * 0x1_0000u32
            + b3 * 0x100_0000u32) by (bit_vector)
            requires b0 < 256, b1 < 256, b2 < 256, b3 < 256;
    }
    b0 | (b1 << 8u32) | (b2 << 16u32) | (b3 << 24u32)
}

proof fn lemma_byte_bits(value: u32)
    ensures
        (value & 0xff) as u8 == (value as int % 0x100) as u8,
        ((value >> 8u32) & 0xff) as u8 == (value as int / 0x100 % 0x100) as u8,
        ((value >> 16u32) & 0xff) as u8 == (value as int / 0x1_0000 % 0x100) as u8,
        (value >> 24u32) as u8 == (value as int / 0x100_0000) as u8,
{
    assert(value & 0xff == value % 0x100u32) by (bit_vector);
    assert((value >> 8u32) & 0xff == value / 0x100u32 % 0x100u32) by (bit_vector);
    assert((value >> 16u32) & 0xff == value / 0x1_0000u32 % 0x100u32) by (bit_vector);
    assert(value >> 24u32 == value / 0x100_0000u32) by (bit_vector);
}

/// A window of four bytes that spells `le_u32(value)` reads back as `value`.
pub proof fn lemma_u32_at_window(bytes: Seq<u8>, position: int, value: u32)
    requires
        0 <= position,
        position + 4 <= bytes.len(),
        bytes.subrange(position, position + 4) == le_u32(value),
    ensures
        u32_at(bytes, position) == value,
{
    let prefix = bytes.subrange(0, position);
    let suffix = bytes.subrange(position + 4, bytes.len() as int);
    assert(bytes =~= prefix + le_u32(value) + suffix);
    lemma_le_u32_round_trip(value, prefix, suffix);
}

} // verus!
