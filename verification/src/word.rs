//! Machine words of the tracee and the single byte that a patch replaces.
//!
//! The tracing primitive reads and writes whole words at word-aligned
//! addresses only. A byte patch therefore reads the word around the byte,
//! replaces one byte of it and writes the word back. Bytes of a word are
//! counted from the least significant one, as x86-64 lays them out in memory.

use vstd::prelude::*;

verus! {

/// Number of bytes in a machine word.
pub const WORD_SIZE: usize = 8;

/// The trap instruction, one byte long.
pub const TRAP_BYTE: u8 = 0xcc;

/// `addr` rounded down to a word boundary.
pub open spec fn base_of(addr: int) -> int {
    addr - addr % 8
}

/// Offset of `addr` within its word.
pub open spec fn offset_of(addr: int) -> int {
    addr % 8
}

/// Byte `k` of `word`.
pub open spec fn byte_at(word: u64, k: u64) -> u8 {
    ((word >> (8 * k)) & 0xff) as u8
}

/// `word` with byte `k` replaced by `value`.
pub open spec fn with_byte(word: u64, k: u64, value: u8) -> u64 {
    (word & !(0xffu64 << (8 * k))) | ((value as u64) << (8 * k))
}

/// Rounds `addr` down to the boundary of the word that holds it.
pub fn word_base(addr: usize) -> (base: usize)
    ensures
        base == base_of(addr as int),
        base % 8 == 0,
        base <= addr < base + 8,
{
    addr - addr % WORD_SIZE
}

/// Offset of `addr` within the word that holds it.
pub fn byte_offset(addr: usize) -> (k: usize)
    ensures
        k == offset_of(addr as int),
        k < 8,
{
    addr % WORD_SIZE
}

/// Replaces byte `k` of `word` by `value` and returns the new word together
/// with the byte that was displaced.
pub fn patch_word(word: u64, k: usize, value: u8) -> (patched: (u64, u8))
    requires
        k < 8,
    ensures
        patched.0 == with_byte(word, k as u64, value),
        patched.1 == byte_at(word, k as u64),
{
    let shift: u64 = 8 * (k as u64);
    let original: u8 = ((word >> shift) & 0xff) as u8;
    let cleared: u64 = word & !(0xffu64 << shift);
    let new_word: u64 = cleared | ((value as u64) << shift);
    (new_word, original)
}

/// The patched byte reads back as the value written.
pub proof fn lemma_patched_byte(word: u64, k: u64, value: u8)
    requires
        k < 8,
    ensures
        byte_at(with_byte(word, k, value), k) == value,
{
    assert(((((word & !(0xffu64 << (8 * k))) | ((value as u64) << (8 * k))) >> (8 * k)) & 0xff) as u8
        == value) by (bit_vector)
        requires
            k < 8,
    ;
}

/// Every other byte of the word is as it was.
pub proof fn lemma_other_bytes(word: u64, k: u64, value: u8, j: u64)
    requires
        k < 8,
        j < 8,
        j != k,
    ensures
        byte_at(with_byte(word, k, value), j) == byte_at(word, j),
{
    assert(((((word & !(0xffu64 << (8 * k))) | ((value as u64) << (8 * k))) >> (8 * j)) & 0xff) as u8
        == ((word >> (8 * j)) & 0xff) as u8) by (bit_vector)
        requires
            k < 8,
            j < 8,
            j != k,
    ;
}

/// The word whose bytes, from the least significant up, are the first eight
/// items of `bytes`.
pub open spec fn word_from(bytes: Seq<u8>) -> u64 {
    (bytes[0] as u64) | ((bytes[1] as u64) << 8) | ((bytes[2] as u64) << 16) | ((bytes[3] as u64)
        << 24) | ((bytes[4] as u64) << 32) | ((bytes[5] as u64) << 40) | ((bytes[6] as u64) << 48)
        | ((bytes[7] as u64) << 56)
}

/// A word put together from eight bytes gives each of them back.
pub proof fn lemma_word_from_bytes(bytes: Seq<u8>, j: u64)
    requires
        j < 8,
    ensures
        byte_at(word_from(bytes), j) == bytes[j as int],
{
    let b0 = bytes[0];
    let b1 = bytes[1];
    let b2 = bytes[2];
    let b3 = bytes[3];
    let b4 = bytes[4];
    let b5 = bytes[5];
    let b6 = bytes[6];
    let b7 = bytes[7];
    let picked = if j == 0 {
        b0
    } else if j == 1 {
        b1
    } else if j == 2 {
        b2
    } else if j == 3 {
        b3
    } else if j == 4 {
        b4
    } else if j == 5 {
        b5
    } else if j == 6 {
        b6
    } else {
        b7
    };
    assert((((((b0 as u64) | ((b1 as u64) << 8) | ((b2 as u64) << 16) | ((b3 as u64) << 24) | ((
    b4 as u64) << 32) | ((b5 as u64) << 40) | ((b6 as u64) << 48) | ((b7 as u64) << 56)) >> (8
        * j)) & 0xff) as u8) == picked) by (bit_vector)
        requires
            j < 8,
            picked == (if j == 0 {
                b0
            } else if j == 1 {
                b1
            } else if j == 2 {
                b2
            } else if j == 3 {
                b3
            } else if j == 4 {
                b4
            } else if j == 5 {
                b5
            } else if j == 6 {
                b6
            } else {
                b7
            }),
    ;
}

} // verus!
