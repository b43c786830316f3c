//! The checksums that PNG files carry: CRC-32 on chunks and Adler-32 on the
//! zlib stream.

use vstd::prelude::*;

verus! {

/// The reversed CRC-32 polynomial.
pub const CRC_POLYNOMIAL: u32 = 0xedb8_8320;

/// `n` rounds of the bitwise CRC-32 shift register on `value`.
pub open spec fn crc_shift(value: u32, n: nat) -> u32
    decreases n,
{
    if n == 0 {
        value
    } else {
        let previous = crc_shift(value, (n - 1) as nat);
        if previous & 1 == 0 {
            previous >> 1
        } else {
            CRC_POLYNOMIAL ^ (previous >> 1)
        }
    }
}

/// Entry `index` of the byte-wise CRC-32 table.
pub open spec fn crc_entry(index: int) -> u32 {
    crc_shift(index as u32, 8)
}

/// The running CRC-32 register after feeding `bytes`, starting from `crc`.
pub open spec fn crc_update(crc: u32, bytes: Seq<u8>) -> u32
    decreases bytes.len(),
{
    if bytes.len() == 0 {
        crc
    } else {
        let previous = crc_update(crc, bytes.drop_last());
        crc_entry(((previous ^ (bytes.last() as u32)) & 0xff) as int) ^ (previous >> 8)
    }
}

/// Feeding `first` and then `second` into the CRC-32 register leaves it as
/// feeding their concatenation does, so a checksum may be computed piece by
/// piece.
pub proof fn lemma_crc_chaining(crc: u32, first: Seq<u8>, second: Seq<u8>)
    ensures
        crc_update(crc_update(crc, first), second) == crc_update(crc, first + second),
    decreases second.len(),
{
    if second.len() == 0 {
        assert(first + second =~= first);
    } else {
        lemma_crc_chaining(crc, first, second.drop_last());
        assert((first + second).drop_last() =~= first + second.drop_last());
        assert((first + second).last() == second.last());
    }
}

/// The 256-entry table of `crc_entry`.
pub open spec fn is_crc_table(table: Seq<u32>) -> bool {
    table.len() == 256 && forall|i: int| 0 <= i < 256 ==> #[trigger] table[i] == crc_entry(i)
}

/// Builds the byte-wise CRC-32 lookup table.
pub fn crc_table() -> (table: [u32; 256])
    ensures
        is_crc_table(table@),
{
    let mut table = [0u32; 256];
    let mut value: usize = 0;
    while value < 256
        invariant
            value <= 256,
            table@.len() == 256,
            forall|i: int| 0 <= i < value ==> #[trigger] table@[i] == crc_entry(i),
        decreases 256 - value,
    {
        let mut crc = value as u32;
        let mut round: usize = 0;
        while round < 8
            invariant
                round <= 8,
                value < 256,
                crc == crc_shift(value as u32, round as nat),
            decreases 8 - round,
        {
            crc = if crc & 1 == 0 {
                crc >> 1
            } else {
                CRC_POLYNOMIAL ^ (crc >> 1)
            };
            round += 1;
        }
        table[value] = crc;
        value += 1;
    }
    table
}

/// Feeds `bytes` into the CRC-32 register `crc`.
pub fn crc32(crc: u32, bytes: &[u8], table: &[u32; 256]) -> (result: u32)
    requires
        is_crc_table(table@),
    ensures
        result == crc_update(crc, bytes@),
{
    let mut crc = crc;
    let ghost start = crc;
    let mut i: usize = 0;
    while i < bytes.len()
        invariant
            i <= bytes@.len(),
            is_crc_table(table@),
            crc == crc_update(start, bytes@.take(i as int)),
        decreases bytes@.len() - i,
    {
        let byte = bytes[i] as u32;
        let index = (crc ^ byte) & 0xff;
        proof {
            assert((crc ^ byte) & 0xff < 256) by (bit_vector);
            assert(bytes@.take(i + 1).drop_last() =~= bytes@.take(i as int));
        }
        crc = table[index as usize] ^ (crc >> 8u32);
        i += 1;
    }
    assert(bytes@.take(i as int) =~= bytes@);
    crc
}

/// The Adler-32 modulus, the largest prime below 2^16.
pub const ADLER_MODULUS: u64 = 65_521;

/// One byte through the Adler-32 sums `(a, b)`.
pub open spec fn adler_step(state: (int, int), byte: u8) -> (int, int) {
    let a = (state.0 + byte as int) % 65_521;
    (a, (state.1 + a) % 65_521)
}

/// The Adler-32 sums after feeding `bytes`, starting from `state`.
pub open spec fn adler_sums(state: (int, int), bytes: Seq<u8>) -> (int, int)
    decreases bytes.len(),
{
    if bytes.len() == 0 {
        state
    } else {
        adler_step(adler_sums(state, bytes.drop_last()), bytes.last())
    }
}

/// Feeding `first` and then `second` into the Adler-32 sums leaves them as
/// feeding their concatenation does.
pub proof fn lemma_adler_chaining(state: (int, int), first: Seq<u8>, second: Seq<u8>)
    ensures
        adler_sums(adler_sums(state, first), second) == adler_sums(state, first + second),
    decreases second.len(),
{
    if second.len() == 0 {
        assert(first + second =~= first);
    } else {
        lemma_adler_chaining(state, first, second.drop_last());
        assert((first + second).drop_last() =~= first + second.drop_last());
        assert((first + second).last() == second.last());
    }
}

/// The Adler-32 checksum of `bytes`.
pub open spec fn adler32(bytes: Seq<u8>) -> u32 {
    let sums = adler_sums((1, 0), bytes);
    (sums.1 * 65_536 + sums.0) as u32
}

/// Running Adler-32 sums.
pub struct Adler32 {
    pub first: u32,
    pub second: u32,
}

impl Adler32 {
    pub open spec fn wf(&self) -> bool {
        self.first < 65_521 && self.second < 65_521
    }

    pub open spec fn sums(&self) -> (int, int) {
        (self.first as int, self.second as int)
    }

    /// The sums of no data.
    pub fn new() -> (adler: Adler32)
        ensures
            adler.wf(),
            adler.sums() == (1int, 0int),
    {
        Adler32 { first: 1, second: 0 }
    }

    /// Feeds `bytes`, reducing the sums once per block of 5552 bytes, the
    /// most that 64-bit sums can take before a reduction is due.
    pub fn update(&mut self, bytes: &[u8])
        requires
            old(self).wf(),
        ensures
            final(self).wf(),
            final(self).sums() == adler_sums(old(self).sums(), bytes@),
    {
        let ghost start = self.sums();
        let length = bytes.len();
        let mut chunk_start: usize = 0;
        while chunk_start < length
            invariant
                self.wf(),
                length == bytes@.len(),
                chunk_start <= length,
                self.sums() == adler_sums(start, bytes@.take(chunk_start as int)),
            decreases length - chunk_start,
        {
            let chunk_end = if length - chunk_start > 5552 {
                chunk_start + 5552
            } else {
                length
            };
            let mut first = self.first as u64;
            let mut second = self.second as u64;
            let ghost base = self.sums();
            let mut i = chunk_start;
            while i < chunk_end
                invariant
                    chunk_start <= i <= chunk_end,
                    chunk_end <= length,
                    chunk_end - chunk_start <= 5552,
                    length == bytes@.len(),
                    base.0 < 65_521 && base.1 < 65_521,
                    first <= 65_520 + 255 * (i - chunk_start),
                    second <= 65_520 + (i - chunk_start) * 1_500_000,
                    (first as int % 65_521, second as int % 65_521) == adler_sums(
                        start,
                        bytes@.take(i as int),
                    ),
                decreases chunk_end - i,
            {
                let ghost previous = adler_sums(start, bytes@.take(i as int));
                first = first + bytes[i] as u64;
                second = second + first;
                proof {
                    assert(bytes@.take(i + 1).drop_last() =~= bytes@.take(i as int));
                    let old_first = (first - bytes@[i as int]) as int;
                    let old_second = (second - first) as int;
                    vstd::arithmetic::div_mod::lemma_add_mod_noop(old_first, bytes@[i as int] as int, 65_521);
                    vstd::arithmetic::div_mod::lemma_add_mod_noop(old_second, first as int, 65_521);
                    vstd::arithmetic::div_mod::lemma_mod_twice(old_first + bytes@[i as int] as int, 65_521);
                    vstd::arithmetic::div_mod::lemma_add_mod_noop(previous.1, (previous.0 + bytes@[i as int] as int) % 65_521, 65_521);
                    vstd::arithmetic::div_mod::lemma_add_mod_noop(previous.0, bytes@[i as int] as int, 65_521);
                    vstd::arithmetic::div_mod::lemma_mod_twice(previous.0, 65_521);
                    vstd::arithmetic::div_mod::lemma_mod_twice(previous.1, 65_521);
                }
                i += 1;
            }
            self.first = (first % ADLER_MODULUS) as u32;
            self.second = (second % ADLER_MODULUS) as u32;
            chunk_start = chunk_end;
        }
        assert(bytes@.take(length as int) =~= bytes@);
    }

    /// The checksum: the second sum in the high half, the first in the low.
    pub fn value(&self) -> (value: u32)
        requires
            self.wf(),
        ensures
            value == (self.second as int * 65_536 + self.first as int) as u32,
    {
        let first = self.first;
        let second = self.second;
        assert((second << 16u32) | first == second * 65_536 + first) by (bit_vector)
            requires first < 65_521, second < 65_521;
        (second << 16u32) | first
    }
}

} // verus!
