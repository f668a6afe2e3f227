//! Bit strings packed into bytes, least significant bit first.

use vstd::prelude::*;

verus! {

/// Number of bytes that hold `bits` bits.
pub open spec fn byte_len(bits: nat) -> nat {
    (bits + 7) / 8
}

/// Bit `k` of a byte, counting from the least significant one.
pub open spec fn bit_of(byte: u8, k: int) -> bool {
    (byte >> (k as u8)) & 1u8 == 1u8
}

/// Bit `i` of a bit string packed into bytes.
pub open spec fn bit_at(bytes: Seq<u8>, i: int) -> bool {
    bit_of(bytes[i / 8], i % 8)
}

/// Number of bytes that hold `bit_count` bits.
pub fn bytes_for_bits(bit_count: usize) -> (byte_count: usize)
    ensures
        byte_count == byte_len(bit_count as nat),
{
    let whole: usize = bit_count / 8;
    if bit_count % 8 == 0 {
        whole
    } else {
        whole + 1
    }
}

/// Bit `k` of a byte, counting from the least significant one.
pub fn test_bit(byte: u8, k: u8) -> (high: bool)
    requires
        k < 8,
    ensures
        high == bit_of(byte, k as int),
{
    (byte >> k) & 1u8 == 1u8
}

/// Setting bit `k` leaves every other bit alone.
pub proof fn lemma_set_bit(byte: u8, k: u8, j: u8)
    requires
        k < 8,
        j < 8,
    ensures
        bit_of(byte | (1u8 << k), j as int) == (bit_of(byte, j as int) || j == k),
{
    assert((((byte | (1u8 << k)) >> j) & 1u8 == 1u8) == (((byte >> j) & 1u8 == 1u8) || j == k))
        by (bit_vector)
        requires
            k < 8,
            j < 8,
    ;
}

/// The zero byte has no bit set.
pub proof fn lemma_zero_bit(j: u8)
    requires
        j < 8,
    ensures
        !bit_of(0u8, j as int),
{
    assert((0u8 >> j) & 1u8 == 0u8) by (bit_vector)
        requires
            j < 8,
    ;
}

/// A bit of some of the bytes of a bit string is the bit of the whole string at
/// its place.
pub proof fn lemma_bit_of_part(bytes: Seq<u8>, from: int, to: int, i: int)
    requires
        0 <= from <= to <= bytes.len(),
        0 <= i < 8 * (to - from),
    ensures
        bit_at(bytes.subrange(from, to), i) == bit_at(bytes, 8 * from + i),
{
    assert((8 * from + i) / 8 == from + i / 8);
    assert((8 * from + i) % 8 == i % 8);
}

/// Masking a byte to its low `kept` bits.
proof fn lemma_mask_bit(byte: u8, kept: u8, j: u8)
    requires
        0 < kept < 8,
        j < 8,
    ensures
        (1u8 << kept) >= 1,
        bit_of(byte & ((1u8 << kept) - 1) as u8, j as int) == (bit_of(byte, j as int) && j < kept),
{
    assert((1u8 << kept) >= 1) by (bit_vector)
        requires
            0 < kept < 8,
    ;
    assert((((byte & (((1u8 << kept) - 1) as u8)) >> j) & 1u8 == 1u8) == (((byte >> j) & 1u8 == 1u8)
        && j < kept)) by (bit_vector)
        requires
            0 < kept < 8,
            j < 8,
    ;
}

/// Clears the bits of the last byte that lie past `bit_count`.
pub fn mask_tail(bit_count: usize, bytes: &mut [u8])
    requires
        old(bytes)@.len() == byte_len(bit_count as nat),
    ensures
        final(bytes)@.len() == old(bytes)@.len(),
        forall|i: int|
            0 <= i < 8 * old(bytes)@.len() ==> #[trigger] bit_at(final(bytes)@, i) == (bit_at(
                old(bytes)@,
                i,
            ) && i < bit_count),
{
    let used: u8 = (bit_count % 8) as u8;
    if used != 0 {
        let last: usize = bytes.len() - 1;
        let ghost before = bytes@;
        let byte: u8 = bytes[last];
        proof {
            lemma_mask_bit(byte, used, 0);
        }
        bytes[last] = byte & ((1u8 << used) - 1);
        assert forall|i: int| 0 <= i < 8 * before.len() implies #[trigger] bit_at(bytes@, i) == (
        bit_at(before, i) && i < bit_count) by {
            lemma_mask_bit(byte, used, (i % 8) as u8);
        }
    }
}

/// A bit string takes as few whole bytes as hold all of its bits.
pub proof fn law_bytes_hold_the_bits(bits: nat)
    ensures
        bits <= 8 * byte_len(bits) < bits + 8,
{
}

/// `bytes_for_bits` finds the smallest number of bytes with room for the bits.
pub proof fn law_byte_count_is_the_smallest(bit_count: usize, byte_count: usize)
    requires
        call_ensures(bytes_for_bits, (bit_count,), byte_count),
    ensures
        bit_count <= 8 * byte_count < bit_count + 8,
{
}

/// A byte is the sum of the powers of two that belong to its bits.
pub proof fn law_bits_make_up_the_byte(bytes: Seq<u8>, at: int)
    requires
        0 <= at < bytes.len(),
    ensures
        bytes[at] == (if bit_at(bytes, 8 * at) {
            1int
        } else {
            0
        }) + (if bit_at(bytes, 8 * at + 1) {
            2int
        } else {
            0
        }) + (if bit_at(bytes, 8 * at + 2) {
            4int
        } else {
            0
        }) + (if bit_at(bytes, 8 * at + 3) {
            8int
        } else {
            0
        }) + (if bit_at(bytes, 8 * at + 4) {
            16int
        } else {
            0
        }) + (if bit_at(bytes, 8 * at + 5) {
            32int
        } else {
            0
        }) + (if bit_at(bytes, 8 * at + 6) {
            64int
        } else {
            0
        }) + (if bit_at(bytes, 8 * at + 7) {
            128int
        } else {
            0
        }),
{
    let byte = bytes[at];
    lemma_byte_is_its_bits(byte);
    assert((8 * at) / 8 == at && (8 * at) % 8 == 0);
    assert((8 * at + 1) / 8 == at && (8 * at + 1) % 8 == 1);
    assert((8 * at + 2) / 8 == at && (8 * at + 2) % 8 == 2);
    assert((8 * at + 3) / 8 == at && (8 * at + 3) % 8 == 3);
    assert((8 * at + 4) / 8 == at && (8 * at + 4) % 8 == 4);
    assert((8 * at + 5) / 8 == at && (8 * at + 5) % 8 == 5);
    assert((8 * at + 6) / 8 == at && (8 * at + 6) % 8 == 6);
    assert((8 * at + 7) / 8 == at && (8 * at + 7) % 8 == 7);
}

/// What bit `k` adds to the value of a byte.
spec fn weight(byte: u8, k: u8) -> int {
    if (byte >> k) & 1u8 == 1u8 {
        (1u8 << k) as int
    } else {
        0
    }
}

/// A byte is the sum of its bits.
proof fn lemma_byte_is_its_bits(byte: u8)
    ensures
        byte == weight(byte, 0) + weight(byte, 1) + weight(byte, 2) + weight(byte, 3) + weight(
            byte,
            4,
        ) + weight(byte, 5) + weight(byte, 6) + weight(byte, 7),
        1u8 << 0u8 == 1,
        1u8 << 1u8 == 2,
        1u8 << 2u8 == 4,
        1u8 << 3u8 == 8,
        1u8 << 4u8 == 16,
        1u8 << 5u8 == 32,
        1u8 << 6u8 == 64,
        1u8 << 7u8 == 128,
{
    assert(byte == weight(byte, 0) + weight(byte, 1) + weight(byte, 2) + weight(byte, 3) + weight(
        byte,
        4,
    ) + weight(byte, 5) + weight(byte, 6) + weight(byte, 7)) by (bit_vector);
    assert(1u8 << 0u8 == 1 && 1u8 << 1u8 == 2 && 1u8 << 2u8 == 4 && 1u8 << 3u8 == 8 && 1u8 << 4u8
        == 16 && 1u8 << 5u8 == 32 && 1u8 << 6u8 == 64 && 1u8 << 7u8 == 128) by (bit_vector);
}

/// The bits of a byte are the binary digits of its value.
proof fn lemma_bit_values(byte: u8)
    ensures
        bit_of(byte, 0) == (byte % 2 == 1),
        bit_of(byte, 1) == (byte / 2 % 2 == 1),
        bit_of(byte, 2) == (byte / 4 % 2 == 1),
        bit_of(byte, 3) == (byte / 8 % 2 == 1),
        bit_of(byte, 4) == (byte / 16 % 2 == 1),
        bit_of(byte, 5) == (byte / 32 % 2 == 1),
        bit_of(byte, 6) == (byte / 64 % 2 == 1),
        bit_of(byte, 7) == (byte / 128 == 1),
{
    assert((byte >> 0u8) & 1u8 == byte % 2 && (byte >> 1u8) & 1u8 == byte / 2 % 2 && (byte >> 2u8)
        & 1u8 == byte / 4 % 2 && (byte >> 3u8) & 1u8 == byte / 8 % 2 && (byte >> 4u8) & 1u8 == byte
        / 16 % 2 && (byte >> 5u8) & 1u8 == byte / 32 % 2 && (byte >> 6u8) & 1u8 == byte / 64 % 2
        && (byte >> 7u8) & 1u8 == byte / 128) by (bit_vector);
}

/// `test_bit` tells the binary digits of a byte, from the ones digit on.
pub proof fn law_test_bit_reads_binary_digits(byte: u8, k: u8, high: bool)
    requires
        k < 8,
        call_ensures(test_bit, (byte, k), high),
    ensures
        k == 0 ==> high == (byte % 2 == 1),
        k == 1 ==> high == (byte / 2 % 2 == 1),
        k == 2 ==> high == (byte / 4 % 2 == 1),
        k == 3 ==> high == (byte / 8 % 2 == 1),
        k == 4 ==> high == (byte / 16 % 2 == 1),
        k == 5 ==> high == (byte / 32 % 2 == 1),
        k == 6 ==> high == (byte / 64 % 2 == 1),
        k == 7 ==> high == (byte / 128 == 1),
{
    lemma_bit_values(byte);
}

/// Bytes with the same bits are the same.
proof fn lemma_same_bits(a: Seq<u8>, b: Seq<u8>, at: int)
    requires
        0 <= at < a.len(),
        0 <= at < b.len(),
        forall|i: int| 8 * at <= i < 8 * at + 8 ==> bit_at(a, i) == #[trigger] bit_at(b, i),
    ensures
        a[at] == b[at],
{
    law_bits_make_up_the_byte(a, at);
    law_bits_make_up_the_byte(b, at);
}

/// Cutting the bits past `bit_count` off leaves the bytes before the last alone,
/// and of a last byte that is not full the remainder by a power of two.
pub proof fn law_tail_is_cut_off(bit_count: usize, bytes: &mut [u8], at: int)
    requires
        bytes@.len() == byte_len(bit_count as nat),
        0 <= at < bytes@.len(),
        call_ensures(mask_tail, (bit_count, bytes), ()),
    ensures
        final(bytes)@.len() == old(bytes)@.len(),
        8 * at + 8 <= bit_count ==> final(bytes)@[at] == old(bytes)@[at],
        8 * at + 7 == bit_count ==> final(bytes)@[at] == old(bytes)@[at] % 128,
        8 * at + 6 == bit_count ==> final(bytes)@[at] == old(bytes)@[at] % 64,
        8 * at + 5 == bit_count ==> final(bytes)@[at] == old(bytes)@[at] % 32,
        8 * at + 4 == bit_count ==> final(bytes)@[at] == old(bytes)@[at] % 16,
        8 * at + 3 == bit_count ==> final(bytes)@[at] == old(bytes)@[at] % 8,
        8 * at + 2 == bit_count ==> final(bytes)@[at] == old(bytes)@[at] % 4,
        8 * at + 1 == bit_count ==> final(bytes)@[at] == old(bytes)@[at] % 2,
{
    if 8 * at + 8 <= bit_count {
        assert forall|i: int| 8 * at <= i < 8 * at + 8 implies bit_at(final(bytes)@, i)
            == #[trigger] bit_at(bytes@, i) by {}
        lemma_same_bits(final(bytes)@, bytes@, at);
    } else {
        let kept = (bit_count - 8 * at) as u8;
        let byte = bytes@[at];
        let cut = bytes@.update(at, byte & ((1u8 << kept) - 1) as u8);
        assert forall|i: int| 8 * at <= i < 8 * at + 8 implies bit_at(final(bytes)@, i)
            == #[trigger] bit_at(cut, i) by {
            lemma_mask_bit(byte, kept, (i % 8) as u8);
            assert(bit_at(bytes@, i) == bit_of(byte, i % 8));
        }
        lemma_same_bits(final(bytes)@, cut, at);
        assert(byte & (((1u8 << 7u8) - 1) as u8) == byte % 128 && byte & (((1u8 << 6u8) - 1) as u8)
            == byte % 64 && byte & (((1u8 << 5u8) - 1) as u8) == byte % 32 && byte & (((1u8 << 4u8)
            - 1) as u8) == byte % 16 && byte & (((1u8 << 3u8) - 1) as u8) == byte % 8 && byte & (((
        1u8 << 2u8) - 1) as u8) == byte % 4 && byte & (((1u8 << 1u8) - 1) as u8) == byte % 2)
            by (bit_vector);
    }
}

} // verus!
