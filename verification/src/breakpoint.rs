//! The table of breakpoints and how its entries are patched into a target.
//!
//! The table maps an instruction address to a [`Breakpoint`]. An entry is
//! either *installed* (the trap byte is in the target's memory and the entry
//! holds the byte it replaced) or *deferred* (nothing is patched; the entry
//! waits for the next launch).

use std::collections::HashMap;
use vstd::prelude::*;
use vstd::std_specs::hash::*;
use vstd::std_specs::iter::IteratorSpec;
use crate::status::DebugError;
use crate::tracee::{byte_written, write_byte, Tracee};

verus! {

broadcast use vstd::std_specs::hash::group_hash_axioms;

/// The one-byte instruction that raises a trace trap when executed.
pub const TRAP_OPCODE: u8 = 0xcc;

/// A trap at one instruction address.
#[derive(Clone, Copy, Debug, PartialEq, Eq, Structural)]
pub struct Breakpoint {
    /// Address of the instruction the trap replaces.
    pub addr: usize,
    /// The byte the trap overwrote, while the trap is in the target's memory;
    /// `None` while the breakpoint waits for the next launch.
    pub orig_byte: Option<u8>,
}

/// The entry for `addr` after an attempt to patch the trap in: installed with
/// the byte that was read back, deferred if the attempt failed.
pub open spec fn patched(addr: usize, outcome: Result<u8, DebugError>) -> Breakpoint {
    Breakpoint {
        addr,
        orig_byte: match outcome {
            Ok(byte) => Some(byte),
            Err(_) => None,
        },
    }
}

/// The breakpoint whose trap the target has just executed, if any.
///
/// A trap leaves the instruction pointer one byte past its own address, so
/// the target stopped at `rip` sits on a breakpoint exactly when the table
/// holds an installed entry for `rip - 1`. The result is that address and the
/// saved byte.
pub open spec fn trap_behind(rip: usize, table: Map<usize, Breakpoint>) -> Option<(usize, u8)> {
    let addr = (rip - 1) as usize;
    if rip >= 1 && table.contains_key(addr) && table[addr].orig_byte is Some {
        Some((addr, table[addr].orig_byte->0))
    } else {
        None
    }
}

/// Every entry of the table records the address it is stored under.
pub open spec fn well_formed(table: Map<usize, Breakpoint>) -> bool {
    forall|addr: usize| table.contains_key(addr) ==> (#[trigger] table[addr]).addr == addr
}

/// The table with every entry deferred.
pub open spec fn all_deferred(table: Map<usize, Breakpoint>) -> Map<usize, Breakpoint> {
    Map::new(
        |addr: usize| table.contains_key(addr),
        |addr: usize| Breakpoint { addr, orig_byte: None },
    )
}

/// Tells whether the table has an entry for `addr`.
pub fn check_at_breakpoint(addr: usize, breakpoints: &HashMap<usize, Breakpoint>) -> (r: bool)
    ensures
        r == breakpoints@.contains_key(addr),
{
    breakpoints.contains_key(&addr)
}

/// Finds the installed breakpoint that a target stopped at `rip` has just
/// trapped on.
pub fn breakpoint_hit(rip: usize, breakpoints: &HashMap<usize, Breakpoint>) -> (r: Option<
    (usize, u8),
>)
    ensures
        r == trap_behind(rip, breakpoints@),
{
    if rip == 0 {
        return None;
    }
    let addr = rip - 1;
    match breakpoints.get(&addr) {
        Some(entry) => match entry.orig_byte {
            Some(byte) => Some((addr, byte)),
            None => None,
        },
        None => None,
    }
}

/// The addresses of all breakpoints in the table, each once, in no
/// particular order.
pub fn addresses(breakpoints: &HashMap<usize, Breakpoint>) -> (r: Vec<usize>)
    ensures
        r@.no_duplicates(),
        r@.to_set() == breakpoints@.dom(),
{
    let mut out: Vec<usize> = Vec::new();
    for addr in it: breakpoints.keys()
        invariant
            out@.len() == it.index(),
            forall|i: int| 0 <= i < out@.len() ==> out@[i] == *it.seq()[i],
    {
        out.push(*addr);
    }
    proof {
        let keys = spec_keys_iter(breakpoints).remaining();
        assert(out@ =~= keys.unref());
    }
    out
}

/// The traps of `report` are written into the target `before`, one address
/// after the other in the order of the report, each with the outcome the
/// report gives for it and each on the target as the write before has left
/// it. The last write leaves the target `after`.
pub open spec fn traps_written<T: Tracee>(
    before: T,
    report: Seq<(usize, Result<u8, DebugError>)>,
    after: T,
) -> bool
    decreases report.len(),
{
    if report.len() == 0 {
        after == before
    } else {
        exists|mid: T| #[trigger]
            byte_written(mid, report.last().0, TRAP_OPCODE, report.last().1, after)
                && traps_written(before, report.drop_last(), mid)
    }
}

/// The report accounts for the table: it names every address of the table
/// `before` once and no other, and in the table `after`, which has the same
/// addresses, every entry is installed with the byte its write gave back,
/// or deferred if its write failed.
pub open spec fn accounts_for(
    report: Seq<(usize, Result<u8, DebugError>)>,
    before: Map<usize, Breakpoint>,
    after: Map<usize, Breakpoint>,
) -> bool {
    &&& after.dom() == before.dom()
    &&& report.len() == before.dom().len()
    &&& forall|i: int, j: int|
        0 <= i < j < report.len() ==> (#[trigger] report[i]).0 != (#[trigger] report[j]).0
    &&& forall|addr: usize|
        before.contains_key(addr) ==> exists|i: int|
            0 <= i < report.len() && (#[trigger] report[i]).0 == addr
    &&& forall|i: int|
        0 <= i < report.len() ==> {
            &&& after.contains_key((#[trigger] report[i]).0)
            &&& after[report[i].0] == patched(report[i].0, report[i].1)
        }
}

/// The table `after` is the table `before` with every breakpoint patched into
/// the target: the trap byte was written at every address of the table, in
/// some order, and the entries record what came back. The writes have turned
/// the target `target` into the target `patched`.
pub open spec fn installed_into<T: Tracee>(
    target: T,
    before: Map<usize, Breakpoint>,
    after: Map<usize, Breakpoint>,
    patched: T,
) -> bool {
    exists|report: Seq<(usize, Result<u8, DebugError>)>| #[trigger]
        traps_written(target, report, patched) && accounts_for(report, before, after)
}

/// Patches every breakpoint of the table into a freshly launched target and
/// hands the target back.
///
/// Each address of the table is tried once: the trap byte is written there.
/// The report lists, per address and in the order of the writes, what the
/// attempt returned; afterwards the entry is installed with the byte read
/// back, or deferred if the attempt failed. No entry is added or removed.
pub fn install_all<T: Tracee>(target: T, breakpoints: &mut HashMap<usize, Breakpoint>) -> (r: (
    Vec<(usize, Result<u8, DebugError>)>,
    T,
))
    ensures
        traps_written(target, r.0@, r.1),
        accounts_for(r.0@, old(breakpoints)@, final(breakpoints)@),
        installed_into(target, old(breakpoints)@, final(breakpoints)@, r.1),
        well_formed(final(breakpoints)@),
{
    let addrs = addresses(breakpoints);
    let mut report: Vec<(usize, Result<u8, DebugError>)> = Vec::new();
    let mut target = target;
    let ghost first = target;
    let mut i: usize = 0;
    proof {
        addrs@.unique_seq_to_set();
    }
    while i < addrs.len()
        invariant
            i <= addrs@.len(),
            addrs@.no_duplicates(),
            addrs@.to_set() == old(breakpoints)@.dom(),
            addrs@.len() == old(breakpoints)@.dom().len(),
            breakpoints@.dom() == old(breakpoints)@.dom(),
            report@.len() == i,
            traps_written(first, report@, target),
            forall|k: int| 0 <= k < i ==> (#[trigger] report@[k]).0 == addrs@[k],
            forall|k: int|
                0 <= k < i ==> breakpoints@[addrs@[k]] == patched(
                    addrs@[k],
                    (#[trigger] report@[k]).1,
                ),
        decreases addrs@.len() - i,
    {
        let addr = addrs[i];
        let ghost before = target;
        let ghost so_far = report@;
        let (outcome, after) = write_byte(target, addr, TRAP_OPCODE);
        target = after;
        let entry = Breakpoint {
            addr,
            orig_byte: match outcome {
                Ok(byte) => Some(byte),
                Err(_) => None,
            },
        };
        breakpoints.insert(addr, entry);
        report.push((addr, outcome));
        proof {
            assert(report@.drop_last() =~= so_far);
            assert(byte_written(before, report@.last().0, TRAP_OPCODE, report@.last().1, target));
        }
        i += 1;
    }
    proof {
        assert forall|addr: usize| old(breakpoints)@.contains_key(addr) implies exists|k: int|
            0 <= k < report@.len() && (#[trigger] report@[k]).0 == addr by {
            assert(addrs@.to_set().contains(addr));
            let k = choose|k: int| 0 <= k < addrs@.len() && addrs@[k] == addr;
            assert(report@[k].0 == addr);
        }
        assert forall|addr: usize| breakpoints@.contains_key(addr) implies (
        #[trigger] breakpoints@[addr]).addr == addr by {
            assert(addrs@.to_set().contains(addr));
            let k = choose|k: int| 0 <= k < addrs@.len() && addrs@[k] == addr;
            assert(breakpoints@[addrs@[k]] == patched(addrs@[k], report@[k].1));
        }
    }
    (report, target)
}

/// The entry for `addr` is installed in the table.
pub open spec fn installed_at(table: Map<usize, Breakpoint>, addr: usize) -> bool {
    table.contains_key(addr) && table[addr].addr == addr && table[addr].orig_byte is Some
}

/// Setting a breakpoint at `addr` has nothing left to do: with a live target
/// the entry is installed, without one the table has an entry for `addr`.
pub open spec fn already_set(table: Map<usize, Breakpoint>, live: bool, addr: usize) -> bool {
    if live {
        installed_at(table, addr)
    } else {
        table.contains_key(addr)
    }
}

/// What setting a breakpoint at `addr` asks of the target. Without a target
/// there is none afterwards either. A target on which the breakpoint is
/// already set is left alone. On any other target the trap byte is written
/// at `addr`; a failed write fails the operation with its error, and after a
/// successful one the entry holds the byte that came back.
pub open spec fn target_patched<T: Tracee>(
    before: Map<usize, Breakpoint>,
    target: Option<T>,
    addr: usize,
    result: Result<(), DebugError>,
    after: Map<usize, Breakpoint>,
    patched: Option<T>,
) -> bool {
    match target {
        None => patched is None,
        Some(live) => if already_set(before, true, addr) {
            patched == Some(live)
        } else {
            patched is Some && exists|outcome: Result<u8, DebugError>| #[trigger]
                byte_written(live, addr, TRAP_OPCODE, outcome, patched->0) && match outcome {
                    Ok(byte) => result is Ok && after[addr].orig_byte == Some(byte),
                    Err(e) => result == Err::<(), DebugError>(e),
                }
        },
    }
}

/// How setting a breakpoint at `addr` changes the table. `live` says whether
/// there is a target to patch, `ok` whether the operation succeeded.
///
/// A breakpoint that is already set leaves the table alone and succeeds. One
/// that is not gets its entry, installed if there is a target and deferred if
/// there is none, and no other entry changes. Failure is only possible with
/// a target and leaves the table alone.
pub open spec fn breakpoint_set(
    before: Map<usize, Breakpoint>,
    live: bool,
    addr: usize,
    ok: bool,
    after: Map<usize, Breakpoint>,
) -> bool {
    if already_set(before, live, addr) {
        ok && after == before
    } else if ok {
        &&& after == before.insert(addr, Breakpoint { addr, orig_byte: after[addr].orig_byte })
        &&& after[addr].orig_byte is Some <==> live
    } else {
        live && after == before
    }
}

/// Setting a breakpoint twice in a row is the same as setting it once: the
/// second time succeeds and leaves the table as the first left it.
pub proof fn lemma_set_twice(
    before: Map<usize, Breakpoint>,
    live: bool,
    addr: usize,
    once: Map<usize, Breakpoint>,
    ok: bool,
    twice: Map<usize, Breakpoint>,
)
    requires
        breakpoint_set(before, live, addr, true, once),
        breakpoint_set(once, live, addr, ok, twice),
    ensures
        ok,
        twice == once,
        once.dom() == before.dom().insert(addr),
        twice.dom().len() == once.dom().len(),
{
}

/// Setting a breakpoint keeps a well-formed table well-formed.
pub proof fn lemma_set_keeps_well_formed(
    before: Map<usize, Breakpoint>,
    live: bool,
    addr: usize,
    ok: bool,
    after: Map<usize, Breakpoint>,
)
    requires
        well_formed(before),
        breakpoint_set(before, live, addr, ok, after),
    ensures
        well_formed(after),
        !ok ==> after == before,
        ok ==> after.dom() == before.dom().insert(addr) && already_set(after, live, addr),
{
}

/// Sets a breakpoint at `addr` and hands the target back.
///
/// With a live target the trap is patched in at once and the entry is
/// installed; if the patch fails the error is returned and the table is left
/// as it was. Without a target the entry is stored deferred. An address that
/// is already installed, or already in the table while no target is live, is
/// left untouched: setting a breakpoint twice is the same as setting it once.
pub fn install_one<T: Tracee>(
    target: Option<T>,
    breakpoints: &mut HashMap<usize, Breakpoint>,
    addr: usize,
) -> (r: (Result<(), DebugError>, Option<T>))
    ensures
        breakpoint_set(old(breakpoints)@, target is Some, addr, r.0 is Ok, final(breakpoints)@),
        target_patched(old(breakpoints)@, target, addr, r.0, final(breakpoints)@, r.1),
{
    let known: Option<Breakpoint> = match breakpoints.get(&addr) {
        Some(entry) => Some(*entry),
        None => None,
    };
    match target {
        Some(live) => {
            let installed = match known {
                Some(entry) => entry.orig_byte.is_some() && entry.addr == addr,
                None => false,
            };
            if installed {
                return (Ok(()), Some(live));
            }
            let (outcome, after) = write_byte(live, addr, TRAP_OPCODE);
            match outcome {
                Ok(byte) => {
                    breakpoints.insert(addr, Breakpoint { addr, orig_byte: Some(byte) });
                    let r = (Ok::<(), DebugError>(()), Some(after));
                    assert(byte_written(live, addr, TRAP_OPCODE, outcome, r.1->0));
                    r
                },
                Err(e) => {
                    let r = (Err::<(), DebugError>(e), Some(after));
                    assert(byte_written(live, addr, TRAP_OPCODE, outcome, r.1->0));
                    r
                },
            }
        },
        None => {
            if known.is_none() {
                breakpoints.insert(addr, Breakpoint { addr, orig_byte: None });
            }
            (Ok(()), None)
        },
    }
}

/// The table holds an entry under `addr`, and the entry has a saved byte.
pub open spec fn has_saved_byte(table: Map<usize, Breakpoint>, addr: usize) -> bool {
    table.contains_key(addr) && table[addr].orig_byte is Some
}

/// What removing the breakpoint at `addr` asks of the target. If the
/// breakpoint is installed and there is a target, the saved byte is written
/// back at `addr`; a failed write fails the removal with its error. In every
/// other case the target is left alone and the removal succeeds.
pub open spec fn target_restored<T: Tracee>(
    before: Map<usize, Breakpoint>,
    target: Option<T>,
    addr: usize,
    result: Result<Option<Breakpoint>, DebugError>,
    restored: Option<T>,
) -> bool {
    match target {
        Some(live) => if has_saved_byte(before, addr) {
            restored is Some && exists|outcome: Result<u8, DebugError>| #[trigger]
                byte_written(live, addr, before[addr].orig_byte->0, outcome, restored->0)
                    && match outcome {
                    Ok(_) => result is Ok,
                    Err(e) => result == Err::<Option<Breakpoint>, DebugError>(e),
                }
        } else {
            result is Ok && restored == Some(live)
        },
        None => result is Ok && restored is None,
    }
}

/// Removes the breakpoint at `addr` from the table and returns its entry,
/// and the target.
///
/// If the entry was installed and a target is live, the saved byte is written
/// back first; if that fails the error is returned and the table is left as
/// it was. In every other case the removal succeeds.
pub fn remove_one<T: Tracee>(
    target: Option<T>,
    breakpoints: &mut HashMap<usize, Breakpoint>,
    addr: usize,
) -> (r: (Result<Option<Breakpoint>, DebugError>, Option<T>))
    ensures
        target_restored(old(breakpoints)@, target, addr, r.0, r.1),
        match r.0 {
            Ok(entry) => {
                &&& final(breakpoints)@ == old(breakpoints)@.remove(addr)
                &&& entry == if old(breakpoints)@.contains_key(addr) {
                    Some(old(breakpoints)@[addr])
                } else {
                    None::<Breakpoint>
                }
            },
            Err(_) => final(breakpoints)@ == old(breakpoints)@,
        },
{
    let known: Option<Breakpoint> = match breakpoints.get(&addr) {
        Some(entry) => Some(*entry),
        None => None,
    };
    let entry = match known {
        Some(entry) => entry,
        None => {
            return (Ok(None), target);
        },
    };
    let saved = match entry.orig_byte {
        Some(saved) => saved,
        None => {
            breakpoints.remove(&addr);
            return (Ok(Some(entry)), target);
        },
    };
    match target {
        Some(live) => {
            let (outcome, after) = write_byte(live, addr, saved);
            match outcome {
                Ok(_) => {
                    breakpoints.remove(&addr);
                    let r = (Ok::<Option<Breakpoint>, DebugError>(Some(entry)), Some(after));
                    assert(byte_written(live, addr, saved, outcome, r.1->0));
                    r
                },
                Err(e) => {
                    let r = (Err::<Option<Breakpoint>, DebugError>(e), Some(after));
                    assert(byte_written(live, addr, saved, outcome, r.1->0));
                    r
                },
            }
        },
        None => {
            breakpoints.remove(&addr);
            (Ok(Some(entry)), None)
        },
    }
}

/// Marks every entry deferred. Called when the target is gone: the saved
/// bytes described an address space that no longer exists.
pub fn defer_all(breakpoints: &mut HashMap<usize, Breakpoint>)
    ensures
        final(breakpoints)@ == all_deferred(old(breakpoints)@),
{
    let addrs = addresses(breakpoints);
    let mut i: usize = 0;
    while i < addrs.len()
        invariant
            i <= addrs@.len(),
            addrs@.to_set() == old(breakpoints)@.dom(),
            breakpoints@.dom() == old(breakpoints)@.dom(),
            forall|k: int|
                0 <= k < i ==> breakpoints@[#[trigger] addrs@[k]] == (Breakpoint {
                    addr: addrs@[k],
                    orig_byte: None,
                }),
        decreases addrs@.len() - i,
    {
        let addr = addrs[i];
        breakpoints.insert(addr, Breakpoint { addr, orig_byte: None });
        i += 1;
    }
    proof {
        assert forall|addr: usize| breakpoints@.contains_key(addr) implies breakpoints@[addr] == (
        Breakpoint { addr, orig_byte: None }) by {
            assert(addrs@.to_set().contains(addr));
            let k = choose|k: int| 0 <= k < addrs@.len() && addrs@[k] == addr;
            assert(breakpoints@[addrs@[k]] == (Breakpoint { addr: addrs@[k], orig_byte: None }));
        }
    }
}

} // verus!
