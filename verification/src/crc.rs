//! The CRC-8 that guards every packet.
//!
//! The checksum is table driven. The table is a fixed constant shared with
//! the coprocessor firmware; this module states what the checksum of a frame
//! is and what the table guarantees.

use vstd::prelude::*;

verus! {

/// The lookup table of the checksum, entry by entry as the coprocessor
/// firmware holds it.
pub const CRC8_TABLE: [u8; 256] = [
    0x00, 0x07, 0x0E, 0x09, 0x1C, 0x1B, 0x12, 0x15,
    0x38, 0x3F, 0x36, 0x31, 0x24, 0x23, 0x2A, 0x2D,
    0x70, 0x77, 0x7E, 0x79, 0x6C, 0x6B, 0x62, 0x65,
    0x48, 0x4F, 0x46, 0x41, 0x54, 0x53, 0x5A, 0x5D,
    0xE0, 0xE7, 0xEE, 0xE9, 0xFC, 0xFB, 0xF2, 0xF5,
    0xD8, 0xDF, 0xD6, 0xD1, 0xC4, 0xC3, 0xCA, 0xCD,
    0x90, 0x97, 0x9E, 0x99, 0x8C, 0x8B, 0x82, 0x85,
    0xA8, 0xAF, 0xA6, 0xA1, 0xB4, 0xB3, 0xBA, 0xBD,
    0xC7, 0xC0, 0xC9, 0xCE, 0xDB, 0xDC, 0xD5, 0xD2,
    0xFF, 0xF8, 0xF1, 0xF6, 0xE3, 0xE4, 0xED, 0xEA,
    0xB7, 0xB0, 0xB9, 0xBE, 0xAB, 0xAC, 0xA5, 0xA2,
    0x8F, 0x88, 0x81, 0x86, 0x93, 0x94, 0x9D, 0x9A,
    0x27, 0x20, 0x29, 0x2E, 0x3B, 0x3C, 0x35, 0x32,
    0x1F, 0x18, 0x11, 0x16, 0x03, 0x04, 0x0D, 0x0A,
    0x57, 0x50, 0x59, 0x5E, 0x4B, 0x4C, 0x45, 0x42,
    0x6F, 0x68, 0x61, 0x66, 0x73, 0x74, 0x7D, 0x7A,
    0x89, 0x8E, 0x87, 0x80, 0x95, 0x92, 0x9B, 0x9C,
    0xB1, 0xB6, 0xBF, 0xB8, 0xAD, 0xAA, 0xA3, 0xA4,
    0xF9, 0xFE, 0xF7, 0xF0, 0xE5, 0xE2, 0xEB, 0xEC,
    0xC1, 0xC6, 0xCF, 0xC8, 0xDD, 0xDA, 0xD3, 0xD4,
    0x69, 0x6E, 0x67, 0x60, 0x75, 0x72, 0x7B, 0x7C,
    0x51, 0x56, 0x5F, 0x58, 0x4D, 0x4A, 0x43, 0x44,
    0x19, 0x1E, 0x17, 0x10, 0x05, 0x02, 0x0B, 0x0C,
    0x21, 0x26, 0x2F, 0x28, 0x3D, 0x3A, 0x33, 0x34,
    0x4E, 0x49, 0x40, 0x47, 0x52, 0x55, 0x5C, 0x5B,
    0x76, 0x71, 0x78, 0x7F, 0x6A, 0x6D, 0x64, 0x63,
    0x3E, 0x39, 0x30, 0x37, 0x22, 0x25, 0x2C, 0x2B,
    0x06, 0x01, 0x08, 0x0F, 0x1A, 0x1D, 0x14, 0x13,
    0xAE, 0xA9, 0xA0, 0xA7, 0xB2, 0xB5, 0xBC, 0xBB,
    0x96, 0x91, 0x98, 0x9F, 0x8A, 0x8D, 0x84, 0x83,
    0xDE, 0xD9, 0xD0, 0xD7, 0xC2, 0xC5, 0xCC, 0xCB,
    0xE6, 0xE1, 0xE8, 0xEF, 0xFA, 0xFD, 0xF4, 0xF3,
];

/// The table entry for `index`.
pub open spec fn crc8_lookup(index: u8) -> u8 {
    CRC8_TABLE[index as int]
}

/// The running checksum after `data` has been folded into `seed`: each byte
/// is xored into the running value, which is then replaced by its table
/// entry.
pub open spec fn crc8_fold(seed: u8, data: Seq<u8>) -> u8
    decreases data.len(),
{
    if data.len() == 0 {
        seed
    } else {
        crc8_lookup(crc8_fold(seed, data.drop_last()) ^ data.last())
    }
}

/// The checksum of a frame that carries `reg_count` registers.
///
/// The seed is the table entry of the first byte. The checksum slot (byte 1)
/// is never fed as data: in its place the running value itself goes through
/// the table once more. Then the bytes from index 2 up to the end of the last
/// valid register are folded in.
pub open spec fn crc8_frame(frame: Seq<u8>, reg_count: nat) -> u8
    recommends
        4 + 2 * reg_count <= frame.len(),
{
    crc8_fold(crc8_lookup(crc8_lookup(frame[0])), frame.subrange(2, 4 + 2 * reg_count as int))
}

/// Folds one more byte into a running checksum.
pub fn crc8_update(crc: u8, byte: u8) -> (next: u8)
    ensures
        next == crc8_lookup(crc ^ byte),
        next == crc8_fold(crc, seq![byte]),
{
    proof {
        lemma_fold_push(crc, Seq::empty(), byte);
        assert(Seq::<u8>::empty().push(byte) =~= seq![byte]);
    }
    CRC8_TABLE[(crc ^ byte) as usize]
}

/// Folding `data` followed by `byte` is folding `data`, then one table step.
pub proof fn lemma_fold_push(seed: u8, data: Seq<u8>, byte: u8)
    ensures
        crc8_fold(seed, data.push(byte)) == crc8_lookup(crc8_fold(seed, data) ^ byte),
{
    assert(data.push(byte).drop_last() =~= data);
}

/// One step of the division by the generator polynomial x^8 + x^2 + x + 1:
/// the remainder moves up by one bit, and where a one falls out at the top
/// the polynomial's low byte is xored in.
pub open spec fn crc8_shift(c: u8) -> u8 {
    if c & 0x80 != 0 {
        (c << 1) ^ 0x07
    } else {
        c << 1
    }
}

/// The remainder of `c`, taken as a polynomial and moved up by eight bits,
/// after division by the generator polynomial.
pub open spec fn crc8_divide(c: u8) -> u8 {
    crc8_shift(
        crc8_shift(
            crc8_shift(crc8_shift(crc8_shift(crc8_shift(crc8_shift(crc8_shift(c)))))),
        ),
    )
}

// `crc8_shift` in terms of plain arithmetic.
spec fn shift_arith(c: int) -> int {
    if c >= 128 {
        2 * (c - 128) + 7 - 2 * ((2 * (c - 128)) % 8)
    } else {
        2 * c
    }
}

// `c ^ 0x07` in terms of plain arithmetic.
spec fn flip_arith(c: int) -> int {
    c + 7 - 2 * (c % 8)
}

// The entries at `2 * i` and `2 * i + 1` are what the entry at `i` gives
// after one more step of the division.
spec fn pair_follows(i: int) -> bool {
    &&& CRC8_TABLE[2 * i] == shift_arith(CRC8_TABLE[i] as int)
    &&& CRC8_TABLE[2 * i + 1] == flip_arith(CRC8_TABLE[2 * i] as int)
}

// `pair_follows` holds of the `n` indices from `lo` on.
#[verifier::opaque]
spec fn pairs_follow(lo: nat, n: nat) -> bool
    decreases n,
{
    n == 0 || (pair_follows(lo + n - 1) && pairs_follow(lo, (n - 1) as nat))
}

// The table is checked entry by entry, sixteen pairs at a time.
proof fn lemma_pairs_follow()
    ensures
        pairs_follow(0, 16),
        pairs_follow(16, 16),
        pairs_follow(32, 16),
        pairs_follow(48, 16),
        pairs_follow(64, 16),
        pairs_follow(80, 16),
        pairs_follow(96, 16),
        pairs_follow(112, 16),
{
    assert(pairs_follow(0, 16)) by {
        reveal_with_fuel(pairs_follow, 17);
    }
    assert(pairs_follow(16, 16)) by {
        reveal_with_fuel(pairs_follow, 17);
    }
    assert(pairs_follow(32, 16)) by {
        reveal_with_fuel(pairs_follow, 17);
    }
    assert(pairs_follow(48, 16)) by {
        reveal_with_fuel(pairs_follow, 17);
    }
    assert(pairs_follow(64, 16)) by {
        reveal_with_fuel(pairs_follow, 17);
    }
    assert(pairs_follow(80, 16)) by {
        reveal_with_fuel(pairs_follow, 17);
    }
    assert(pairs_follow(96, 16)) by {
        reveal_with_fuel(pairs_follow, 17);
    }
    assert(pairs_follow(112, 16)) by {
        reveal_with_fuel(pairs_follow, 17);
    }
}

// What holds of a run of indices holds of each index in it.
proof fn lemma_pair_in_run(lo: nat, n: nat, i: nat)
    requires
        pairs_follow(lo, n),
        lo <= i < lo + n,
    ensures
        pair_follows(i as int),
    decreases n,
{
    reveal_with_fuel(pairs_follow, 2);
    if i != lo + n - 1 {
        lemma_pair_in_run(lo, (n - 1) as nat, i);
    }
}

// Every pair of entries in the table follows from the entry at half its
// index.
proof fn lemma_pair_follows(i: nat)
    requires
        i < 128,
    ensures
        pair_follows(i as int),
{
    lemma_pairs_follow();
    if i < 16 {
        lemma_pair_in_run(0, 16, i);
    } else if i < 32 {
        lemma_pair_in_run(16, 16, i);
    } else if i < 48 {
        lemma_pair_in_run(32, 16, i);
    } else if i < 64 {
        lemma_pair_in_run(48, 16, i);
    } else if i < 80 {
        lemma_pair_in_run(64, 16, i);
    } else if i < 96 {
        lemma_pair_in_run(80, 16, i);
    } else if i < 112 {
        lemma_pair_in_run(96, 16, i);
    } else if i < 128 {
        lemma_pair_in_run(112, 16, i);
    }
}

/// Every table entry is the remainder that the division by the generator
/// polynomial leaves of its index.
pub proof fn lemma_table_is_division(i: u8)
    ensures
        crc8_lookup(i) == crc8_divide(i),
    decreases i,
{
    if i == 0 {
        assert(crc8_divide(0) == 0) by (bit_vector);
    } else {
        let h: u8 = i / 2;
        let e: u8 = (2 * h) as u8;
        lemma_table_is_division(h);
        lemma_pair_follows(h as nat);
        let at_h = crc8_lookup(h);
        let at_e = crc8_lookup(e);
        assert(crc8_shift(at_h) == (if at_h >= 128 {
            2 * (at_h - 128) + 7 - 2 * ((2 * (at_h - 128)) % 8)
        } else {
            2 * at_h
        })) by (bit_vector);
        assert(crc8_divide(e) == crc8_shift(crc8_divide(h))) by (bit_vector)
            requires
                h < 128,
                e == 2 * h,
        ;
        if i != e {
            assert(at_e ^ 0x07 == at_e + 7 - 2 * (at_e % 8)) by (bit_vector);
            assert(crc8_divide(i) == crc8_divide(e) ^ 0x07) by (bit_vector)
                requires
                    e % 2 == 0,
                    i == e + 1,
            ;
        }
    }
}

/// No two indices share a table entry.
pub proof fn lemma_lookup_injective(a: u8, b: u8)
    requires
        crc8_lookup(a) == crc8_lookup(b),
    ensures
        a == b,
{
    lemma_table_is_division(a);
    lemma_table_is_division(b);
    assert(crc8_divide(a) == crc8_divide(b) ==> a == b) by (bit_vector);
}

/// The same data folded into two seeds gives one value only where the seeds
/// are one.
pub proof fn lemma_fold_injective(seed_a: u8, seed_b: u8, data: Seq<u8>)
    requires
        crc8_fold(seed_a, data) == crc8_fold(seed_b, data),
    ensures
        seed_a == seed_b,
    decreases data.len(),
{
    if data.len() > 0 {
        let before_a = crc8_fold(seed_a, data.drop_last());
        let before_b = crc8_fold(seed_b, data.drop_last());
        let byte = data.last();
        lemma_lookup_injective(before_a ^ byte, before_b ^ byte);
        assert(before_a ^ byte == before_b ^ byte ==> before_a == before_b) by (bit_vector);
        lemma_fold_injective(seed_a, seed_b, data.drop_last());
    }
}

/// Two runs of bytes of one length that differ in exactly one place fold to
/// different values.
pub proof fn lemma_fold_detects_change(seed: u8, a: Seq<u8>, b: Seq<u8>, at: int)
    requires
        a.len() == b.len(),
        0 <= at < a.len(),
        a[at] != b[at],
        forall|j: int| 0 <= j < a.len() && j != at ==> a[j] == b[j],
    ensures
        crc8_fold(seed, a) != crc8_fold(seed, b),
    decreases a.len(),
{
    let before_a = crc8_fold(seed, a.drop_last());
    let before_b = crc8_fold(seed, b.drop_last());
    let byte_a = a.last();
    let byte_b = b.last();
    if at == a.len() - 1 {
        assert(a.drop_last() =~= b.drop_last());
    } else {
        lemma_fold_detects_change(seed, a.drop_last(), b.drop_last(), at);
    }
    if crc8_fold(seed, a) == crc8_fold(seed, b) {
        lemma_lookup_injective(before_a ^ byte_a, before_b ^ byte_b);
        assert(before_a ^ byte_a == before_b ^ byte_b ==> (before_a == before_b <==> byte_a
            == byte_b)) by (bit_vector);
    }
}

/// Two frames that carry the same number of registers and differ in exactly
/// one of the bytes that the checksum covers have different checksums.
pub proof fn lemma_frame_detects_change(a: Seq<u8>, b: Seq<u8>, reg_count: nat, at: int)
    requires
        4 + 2 * reg_count <= a.len(),
        4 + 2 * reg_count <= b.len(),
        at == 0 || 2 <= at < 4 + 2 * reg_count,
        a[at] != b[at],
        forall|j: int| (j == 0 || 2 <= j < 4 + 2 * reg_count) && j != at ==> a[j] == b[j],
    ensures
        crc8_frame(a, reg_count) != crc8_frame(b, reg_count),
{
    let end = 4 + 2 * reg_count as int;
    let data_a = a.subrange(2, end);
    let data_b = b.subrange(2, end);
    let seed_a = crc8_lookup(crc8_lookup(a[0]));
    let seed_b = crc8_lookup(crc8_lookup(b[0]));
    if at == 0 {
        assert(data_a =~= data_b);
        if crc8_frame(a, reg_count) == crc8_frame(b, reg_count) {
            lemma_fold_injective(seed_a, seed_b, data_a);
            lemma_lookup_injective(crc8_lookup(a[0]), crc8_lookup(b[0]));
            lemma_lookup_injective(a[0], b[0]);
        }
    } else {
        lemma_fold_detects_change(seed_a, data_a, data_b, at - 2);
    }
}

} // verus!
