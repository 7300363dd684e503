//! Arithmetic on the machine words through which a traced process's memory is
//! read and written: a word is eight bytes, least significant byte first.

use vstd::prelude::*;

verus! {

/// Number of bytes in one word of target memory.
pub const WORD_SIZE: usize = 8;

/// The byte of `word` that lives `offset` bytes above the word's address.
pub open spec fn byte_at(word: u64, offset: usize) -> u8 {
    ((word >> ((8 * offset) as u64)) & 0xff) as u8
}

/// `word` with the byte at `offset` replaced by `val`.
pub open spec fn with_byte(word: u64, offset: usize, val: u8) -> u64 {
    (word & !(0xffu64 << ((8 * offset) as u64))) | ((val as u64) << ((8 * offset) as u64))
}

/// The address of the word that contains `addr`.
pub open spec fn word_base(addr: usize) -> usize {
    (addr - addr % 8) as usize
}

/// Rounds `addr` down to the word that contains it.
pub fn align_addr_to_word(addr: usize) -> (aligned: usize)
    ensures
        aligned == word_base(addr),
        aligned % 8 == 0,
        aligned <= addr < aligned + 8,
{
    assert(addr & !7usize == addr - addr % 8) by (bit_vector);
    addr & !7usize
}

/// Replaces one byte of a word. Returns the new word and the byte that was
/// there before.
pub fn splice_byte(word: u64, offset: usize, val: u8) -> (r: (u64, u8))
    requires
        offset < 8,
    ensures
        r.0 == with_byte(word, offset, val),
        r.1 == byte_at(word, offset),
{
    let shift: u64 = 8 * (offset as u64);
    let orig: u64 = (word >> shift) & 0xff;
    assert(((word >> shift) & 0xff) < 256) by (bit_vector);
    let masked: u64 = word & !(0xffu64 << shift);
    let updated: u64 = masked | ((val as u64) << shift);
    (updated, orig as u8)
}

/// Replacing a byte changes that byte and leaves the other seven alone.
pub proof fn lemma_with_byte_reads(word: u64, offset: usize, val: u8, other: usize)
    requires
        offset < 8,
        other < 8,
    ensures
        byte_at(with_byte(word, offset, val), other) == if other == offset {
            val
        } else {
            byte_at(word, other)
        },
{
    let s: u64 = (8 * offset) as u64;
    let t: u64 = (8 * other) as u64;
    let k: u64 = offset as u64;
    let j: u64 = other as u64;
    assert(s == 8 * k && t == 8 * j);
    assert(((((word & !(0xffu64 << s)) | ((val as u64) << s)) >> t) & 0xff) as u8 == if j == k {
        val
    } else {
        ((word >> t) & 0xff) as u8
    }) by (bit_vector)
        requires
            k < 8,
            j < 8,
            s == 8 * k,
            t == 8 * j,
    ;
}

/// Writing a byte and then writing back the byte that was there before
/// restores the word exactly.
pub proof fn lemma_with_byte_round_trip(word: u64, offset: usize, val: u8)
    requires
        offset < 8,
    ensures
        with_byte(with_byte(word, offset, val), offset, byte_at(word, offset)) == word,
{
    let s: u64 = (8 * offset) as u64;
    let k: u64 = offset as u64;
    assert(s == 8 * k);
    let orig: u8 = ((word >> s) & 0xff) as u8;
    let patched: u64 = (word & !(0xffu64 << s)) | ((val as u64) << s);
    assert((((word & !(0xffu64 << s)) | ((val as u64) << s)) & !(0xffu64 << s)) | (((((word >> s)
        & 0xff) as u8) as u64) << s) == word) by (bit_vector)
        requires
            k < 8,
            s == 8 * k,
    ;
}

/// Writing the same byte twice is the same as writing it once.
pub proof fn lemma_with_byte_idempotent(word: u64, offset: usize, val: u8)
    requires
        offset < 8,
    ensures
        with_byte(with_byte(word, offset, val), offset, val) == with_byte(word, offset, val),
{
    let s: u64 = (8 * offset) as u64;
    let k: u64 = offset as u64;
    assert(s == 8 * k);
    assert((((word & !(0xffu64 << s)) | ((val as u64) << s)) & !(0xffu64 << s)) | ((val as u64)
        << s) == (word & !(0xffu64 << s)) | ((val as u64) << s)) by (bit_vector)
        requires
            k < 8,
            s == 8 * k,
    ;
}

/// A word is determined by its eight bytes.
pub proof fn lemma_word_by_bytes(a: u64, b: u64)
    requires
        forall|offset: usize| offset < 8 ==> byte_at(a, offset) == byte_at(b, offset),
    ensures
        a == b,
{
    assert(byte_at(a, 0) == byte_at(b, 0));
    assert(byte_at(a, 1) == byte_at(b, 1));
    assert(byte_at(a, 2) == byte_at(b, 2));
    assert(byte_at(a, 3) == byte_at(b, 3));
    assert(byte_at(a, 4) == byte_at(b, 4));
    assert(byte_at(a, 5) == byte_at(b, 5));
    assert(byte_at(a, 6) == byte_at(b, 6));
    assert(byte_at(a, 7) == byte_at(b, 7));
    assert(a == b) by (bit_vector)
        requires
            ((a >> 0u64) & 0xff) as u8 == ((b >> 0u64) & 0xff) as u8,
            ((a >> 8u64) & 0xff) as u8 == ((b >> 8u64) & 0xff) as u8,
            ((a >> 16u64) & 0xff) as u8 == ((b >> 16u64) & 0xff) as u8,
            ((a >> 24u64) & 0xff) as u8 == ((b >> 24u64) & 0xff) as u8,
            ((a >> 32u64) & 0xff) as u8 == ((b >> 32u64) & 0xff) as u8,
            ((a >> 40u64) & 0xff) as u8 == ((b >> 40u64) & 0xff) as u8,
            ((a >> 48u64) & 0xff) as u8 == ((b >> 48u64) & 0xff) as u8,
            ((a >> 56u64) & 0xff) as u8 == ((b >> 56u64) & 0xff) as u8,
    ;
}

} // verus!
