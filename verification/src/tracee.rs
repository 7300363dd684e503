//! The narrow interface through which everything else touches the target:
//! words of memory, two registers, and the two ways of letting it run.

use vstd::prelude::*;
use crate::status::{DebugError, Status};
use crate::word::{
    align_addr_to_word, byte_at, lemma_with_byte_reads, lemma_with_byte_round_trip, splice_byte,
    with_byte, word_base,
};

verus! {

/// A process stopped under trace.
///
/// Operations that only look at the target borrow it. Operations that change
/// it, or let it run, take it and hand it back: what they hand back stands
/// for the target after the operation. Contracts follow the target from one
/// operation to the next, and so fix the order in which it is worked on.
///
/// Nothing is promised about what the operations return: the target's memory,
/// registers and fate belong to the operating system. Code written against
/// this trait is verified for every outcome, and states of its own result
/// from which outcomes of which operations it arose.
pub trait Tracee: Sized {
    /// Reads the word of target memory at `addr`.
    fn read_word(&self, addr: usize) -> Result<u64, DebugError>;

    /// Writes `word` to target memory at `addr`.
    fn write_word(self, addr: usize, word: u64) -> (Result<(), DebugError>, Self);

    /// Reads the instruction pointer.
    fn get_rip(&self) -> Result<usize, DebugError>;

    /// Reads the frame-base pointer.
    fn get_rbp(&self) -> Result<usize, DebugError>;

    /// Sets the instruction pointer.
    fn set_rip(self, rip: usize) -> (Result<(), DebugError>, Self);

    /// Executes exactly one instruction and reports how the target stopped.
    fn single_step(self) -> (Result<Status, DebugError>, Self);

    /// Lets the target run until its next stop, exit or fatal signal.
    fn resume(self) -> (Result<Status, DebugError>, Self);
}

/// Reading the word at `addr` from `target` can give `outcome`.
pub open spec fn word_read<T: Tracee>(
    target: &T,
    addr: usize,
    outcome: Result<u64, DebugError>,
) -> bool {
    call_ensures(T::read_word, (target, addr), outcome)
}

/// Writing `word` at `addr` to the target `before` can give `outcome` and
/// leave the target `after`.
pub open spec fn word_written<T: Tracee>(
    before: T,
    addr: usize,
    word: u64,
    outcome: Result<(), DebugError>,
    after: T,
) -> bool {
    call_ensures(T::write_word, (before, addr, word), (outcome, after))
}

/// Reading the instruction pointer of `target` can give `outcome`.
pub open spec fn rip_read<T: Tracee>(target: &T, outcome: Result<usize, DebugError>) -> bool {
    call_ensures(T::get_rip, (target,), outcome)
}

/// Reading the frame-base pointer of `target` can give `outcome`.
pub open spec fn rbp_read<T: Tracee>(target: &T, outcome: Result<usize, DebugError>) -> bool {
    call_ensures(T::get_rbp, (target,), outcome)
}

/// Setting the instruction pointer of the target `before` to `rip` can give
/// `outcome` and leave the target `after`.
pub open spec fn rip_set<T: Tracee>(
    before: T,
    rip: usize,
    outcome: Result<(), DebugError>,
    after: T,
) -> bool {
    call_ensures(T::set_rip, (before, rip), (outcome, after))
}

/// Single-stepping the target `before` can give `outcome` and leave the
/// target `after`.
pub open spec fn stepped<T: Tracee>(
    before: T,
    outcome: Result<Status, DebugError>,
    after: T,
) -> bool {
    call_ensures(T::single_step, (before,), (outcome, after))
}

/// Continuing the target `before` can give `outcome` and leave the target
/// `after`.
pub open spec fn continued<T: Tracee>(
    before: T,
    outcome: Result<Status, DebugError>,
    after: T,
) -> bool {
    call_ensures(T::resume, (before,), (outcome, after))
}

/// The outcome of replacing a byte, given what the read of the containing
/// word gave and what the write of the changed word gave: the first failure,
/// or else the byte that stood at `offset` in the word read.
pub open spec fn replaced_byte(
    read: Result<u64, DebugError>,
    written: Result<(), DebugError>,
    offset: usize,
) -> Result<u8, DebugError> {
    match read {
        Ok(word) => match written {
            Ok(()) => Ok(byte_at(word, offset)),
            Err(e) => Err(e),
        },
        Err(e) => Err(e),
    }
}

/// Replacing the byte at `addr` in the target `before` by `val` can give
/// `outcome` and leave the target `after`.
///
/// The word that contains `addr` is read. If that fails, so does the
/// replacement, and nothing is written. Otherwise the word is written back
/// with the one byte replaced and all others as read; if that fails, so does
/// the replacement, and if not the outcome is the byte that was read.
pub open spec fn byte_written<T: Tracee>(
    before: T,
    addr: usize,
    val: u8,
    outcome: Result<u8, DebugError>,
    after: T,
) -> bool {
    let base = word_base(addr);
    let offset = (addr - base) as usize;
    exists|read: Result<u64, DebugError>| #[trigger]
        word_read(&before, base, read) && match read {
            Ok(word) => exists|written: Result<(), DebugError>| #[trigger]
                word_written(before, base, with_byte(word, offset, val), written, after)
                    && outcome == replaced_byte(read, written, offset),
            Err(e) => outcome == Err::<u8, DebugError>(e) && after == before,
        }
}

/// The round trip of a byte. Let `word` be the word read when the byte at
/// `addr` is replaced by `val`. The word written in its place holds `val` at
/// `addr` and, at the other seven addresses, what was read. And when the
/// byte that was handed back is written over that word in turn, the word
/// that was read is there again, bit for bit.
pub proof fn lemma_byte_round_trip(word: u64, addr: usize, val: u8)
    ensures
        ({
            let offset = (addr - word_base(addr)) as usize;
            let written = with_byte(word, offset, val);
            &&& offset < 8
            &&& byte_at(written, offset) == val
            &&& forall|other: usize|
                other < 8 && other != offset ==> byte_at(written, other) == byte_at(word, other)
            &&& with_byte(written, offset, byte_at(word, offset)) == word
        }),
{
    let offset = (addr - word_base(addr)) as usize;
    let written = with_byte(word, offset, val);
    lemma_with_byte_reads(word, offset, val, offset);
    lemma_with_byte_round_trip(word, offset, val);
    assert forall|other: usize| other < 8 && other != offset implies byte_at(written, other)
        == byte_at(word, other) by {
        lemma_with_byte_reads(word, offset, val, other);
    }
}

/// Replaces the byte at `addr` in the target by `val` and returns the byte
/// that was there, and the target.
///
/// Memory is only reachable a word at a time, so this reads the word that
/// contains `addr`, replaces the one byte and writes the word back.
pub fn write_byte<T: Tracee>(target: T, addr: usize, val: u8) -> (r: (Result<u8, DebugError>, T))
    ensures
        byte_written(target, addr, val, r.0, r.1),
{
    let aligned = align_addr_to_word(addr);
    let offset = addr - aligned;
    let read = target.read_word(aligned);
    assert(word_read(&target, aligned, read));
    let word = match read {
        Ok(word) => word,
        Err(e) => { return (Err(e), target); },
    };
    let (updated, orig) = splice_byte(word, offset, val);
    let (written, after) = target.write_word(aligned, updated);
    assert(word_written(target, aligned, with_byte(word, offset, val), written, after));
    match written {
        Ok(()) => (Ok(orig), after),
        Err(e) => (Err(e), after),
    }
}

} // verus!
