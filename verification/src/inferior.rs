//! The traced child process, reached through `ptrace` and `waitpid`.
//!
//! Only x86-64 Linux is supported: words are eight bytes and the instruction
//! and frame-base pointers are the registers `rip` and `rbp`.

use std::collections::HashMap;
use nix::libc::user_regs_struct;
use nix::sys::ptrace;
use nix::sys::wait::{waitpid, WaitPidFlag, WaitStatus};
use nix::unistd::Pid;
use vstd::prelude::*;
use crate::breakpoint::{
    install_all, installed_into, traps_written, well_formed, Breakpoint, TRAP_OPCODE,
};
use crate::dwarf_data::{DwarfData, DwarfDataView};
use crate::status::{DebugError, Status, WaitEvent, SIGTRAP};
use crate::engine::resumed;
use crate::tracee::{byte_written, rbp_read, rip_read, word_read, Tracee};
use crate::unwind::{
    beyond, complete_stack, frame_at, frames_of, return_slot, trace_of, under, unwound, walked,
    Frame, FrameView, ENTRY_FUNCTION,
};

verus! {

/// The register file of an x86-64 Linux process, as `ptrace` hands it out.
#[verifier::external_type_specification]
#[verifier::external_body]
pub struct ExUserRegsStruct(user_regs_struct);

/// The option flags of `waitpid`.
#[verifier::external_type_specification]
#[verifier::external_body]
pub struct ExWaitPidFlag(WaitPidFlag);

/// The registers of a stopped target: the two pointers the debugger works
/// with, and the full register file they were taken from.
struct Registers {
    /// Instruction pointer.
    rip: u64,
    /// Frame-base pointer.
    rbp: u64,
    /// The register file, with whatever `rip` and `rbp` it was read with.
    rest: user_regs_struct,
}

/// Calls `nix::sys::wait::waitpid` for the process `pid` and hands back what
/// it reported, variant for variant, without the process id. Nothing is
/// claimed about the outcome. The call blocks until the process changes
/// state unless `options` say otherwise.
#[verifier::external_body]
fn wait_for(pid: i32, options: Option<WaitPidFlag>) -> Result<WaitEvent, i32> {
    match waitpid(Pid::from_raw(pid), options) {
        Ok(WaitStatus::Exited(_, code)) => Ok(WaitEvent::Exited(code)),
        Ok(WaitStatus::Signaled(_, signal, core)) => Ok(WaitEvent::Signaled(signal as i32, core)),
        Ok(WaitStatus::Stopped(_, signal)) => Ok(WaitEvent::Stopped(signal as i32)),
        Ok(WaitStatus::PtraceEvent(_, signal, event)) => Ok(
            WaitEvent::PtraceEvent(signal as i32, event),
        ),
        Ok(WaitStatus::PtraceSyscall(_)) => Ok(WaitEvent::PtraceSyscall),
        Ok(WaitStatus::Continued(_)) => Ok(WaitEvent::Continued),
        Ok(WaitStatus::StillAlive) => Ok(WaitEvent::StillAlive),
        Err(errno) => Err(errno as i32),
    }
}

/// Calls `nix::sys::ptrace::getregs` and copies `rip` and `rbp` out of the
/// register file. Nothing is claimed about the values.
#[verifier::external_body]
fn ptrace_getregs(pid: i32) -> Result<Registers, i32> {
    match ptrace::getregs(Pid::from_raw(pid)) {
        Ok(regs) => Ok(Registers { rip: regs.rip, rbp: regs.rbp, rest: regs }),
        Err(errno) => Err(errno as i32),
    }
}

/// Calls `nix::sys::ptrace::setregs` with the register file of `regs` in
/// which `rip` and `rbp` are replaced by the values of the fields of those
/// names. Nothing is claimed about the outcome.
#[verifier::external_body]
fn ptrace_setregs(pid: i32, regs: Registers) -> Result<(), i32> {
    let mut file = regs.rest;
    file.rip = regs.rip;
    file.rbp = regs.rbp;
    match ptrace::setregs(Pid::from_raw(pid), file) {
        Ok(()) => Ok(()),
        Err(errno) => Err(errno as i32),
    }
}

/// Calls `nix::sys::ptrace::read`: the word at `addr` in the memory of
/// process `pid`. Nothing is claimed about the value.
#[verifier::external_body]
fn ptrace_read(pid: i32, addr: usize) -> Result<u64, i32> {
    match ptrace::read(Pid::from_raw(pid), addr as ptrace::AddressType) {
        Ok(word) => Ok(word as u64),
        Err(errno) => Err(errno as i32),
    }
}

/// Calls `nix::sys::ptrace::write`: stores `word` at `addr` in the memory of
/// process `pid`. Nothing is claimed about the outcome.
#[verifier::external_body]
fn ptrace_write(pid: i32, addr: usize, word: u64) -> Result<(), i32> {
    match ptrace::write(Pid::from_raw(pid), addr as ptrace::AddressType, word as nix::libc::c_long) {
        Ok(()) => Ok(()),
        Err(errno) => Err(errno as i32),
    }
}

/// Calls `nix::sys::ptrace::step` without a signal to deliver. Nothing is
/// claimed about the outcome.
#[verifier::external_body]
fn ptrace_step(pid: i32) -> Result<(), i32> {
    match ptrace::step(Pid::from_raw(pid), None) {
        Ok(()) => Ok(()),
        Err(errno) => Err(errno as i32),
    }
}

/// Calls `nix::sys::ptrace::cont` without a signal to deliver. Nothing is
/// claimed about the outcome.
#[verifier::external_body]
fn ptrace_cont(pid: i32) -> Result<(), i32> {
    match ptrace::cont(Pid::from_raw(pid), None) {
        Ok(()) => Ok(()),
        Err(errno) => Err(errno as i32),
    }
}

/// A child process under trace.
#[derive(Debug)]
pub struct Inferior {
    pid: i32,
}

/// Waiting for the process `pid` with `options` can give `outcome`: an event,
/// or the `errno` of a failed wait.
pub closed spec fn waited(
    pid: i32,
    options: Option<WaitPidFlag>,
    outcome: Result<WaitEvent, i32>,
) -> bool {
    call_ensures(wait_for, (pid, options), outcome)
}

/// Fetching the registers of the process `pid` can give `outcome`: the
/// instruction pointer and the frame-base pointer, in this order, or the
/// `errno` of a failed fetch.
pub closed spec fn registers_fetched(pid: i32, outcome: Result<(u64, u64), i32>) -> bool {
    exists|regs: Result<Registers, i32>| #[trigger]
        getregs_gave(pid, regs) && outcome == pointers_of(regs)
}

/// The two pointers of a fetch of the registers, or its `errno`.
spec fn pointers_of(regs: Result<Registers, i32>) -> Result<(u64, u64), i32> {
    match regs {
        Ok(file) => Ok((file.rip, file.rbp)),
        Err(errno) => Err(errno),
    }
}

/// The fetch of the registers of the process `pid` gave `regs`.
spec fn getregs_gave(pid: i32, regs: Result<Registers, i32>) -> bool {
    call_ensures(ptrace_getregs, (pid,), regs)
}

/// The instruction pointer among the registers that a fetch gave, as an
/// address. A failed fetch is a failure of registers with the same `errno`.
pub open spec fn rip_among(fetched: Result<(u64, u64), i32>) -> Result<usize, DebugError> {
    match fetched {
        Ok(pointers) => Ok(pointers.0 as usize),
        Err(errno) => Err(DebugError::Register(errno)),
    }
}

/// The frame-base pointer among the registers that a fetch gave, as an
/// address. A failed fetch is a failure of registers with the same `errno`.
pub open spec fn rbp_among(fetched: Result<(u64, u64), i32>) -> Result<usize, DebugError> {
    match fetched {
        Ok(pointers) => Ok(pointers.1 as usize),
        Err(errno) => Err(DebugError::Register(errno)),
    }
}

/// Peeking at the word at `addr` in the memory of the process `pid` can give
/// `outcome`: the word, or the `errno` of a failed peek.
pub closed spec fn word_peeked(pid: i32, addr: usize, outcome: Result<u64, i32>) -> bool {
    call_ensures(ptrace_read, (pid, addr), outcome)
}

/// The outcome of reading a word, given what the peek gave: the word, or a
/// failure of memory with the same `errno`.
pub open spec fn word_among(peeked: Result<u64, i32>) -> Result<u64, DebugError> {
    match peeked {
        Ok(word) => Ok(word),
        Err(errno) => Err(DebugError::Memory(errno)),
    }
}

/// Poking `word` into the memory of the process `pid` at `addr` can give
/// `outcome`: success, or the `errno` of a failed poke.
pub closed spec fn word_poked(pid: i32, addr: usize, word: u64, outcome: Result<(), i32>) -> bool {
    call_ensures(ptrace_write, (pid, addr, word), outcome)
}

/// The outcome of writing a word, given what the poke gave: success, or a
/// failure of memory with the same `errno`.
pub open spec fn poke_among(poked: Result<(), i32>) -> Result<(), DebugError> {
    match poked {
        Ok(()) => Ok(()),
        Err(errno) => Err(DebugError::Memory(errno)),
    }
}

/// Handing the registers `regs` to the process `pid` gave `outcome`.
spec fn setregs_gave(pid: i32, regs: Registers, outcome: Result<(), i32>) -> bool {
    call_ensures(ptrace_setregs, (pid, regs), outcome)
}

/// Replacing the instruction pointer of the process `pid` by `rip` can give
/// `outcome`: success, or the `errno` of the request that failed.
///
/// The registers are fetched. If that fails, so does the replacement, with
/// the `errno` of the fetch, and nothing is handed to the process. Otherwise
/// the registers that were fetched are handed back with the instruction
/// pointer replaced by `rip` and every other register as fetched, and the
/// outcome is that of handing them back.
pub closed spec fn rip_replaced(pid: i32, rip: u64, outcome: Result<(), i32>) -> bool {
    exists|fetched: Result<Registers, i32>| #[trigger]
        getregs_gave(pid, fetched) && match fetched {
            Ok(file) => setregs_gave(pid, Registers { rip, ..file }, outcome),
            Err(errno) => outcome == Err::<(), i32>(errno),
        }
}

/// The outcome of setting the instruction pointer, given what the
/// replacement gave: success, or a failure of registers with the same
/// `errno`.
pub open spec fn set_among(replaced: Result<(), i32>) -> Result<(), DebugError> {
    match replaced {
        Ok(()) => Ok(()),
        Err(errno) => Err(DebugError::Register(errno)),
    }
}

/// Asking the process `pid` for a single step can give `outcome`: the
/// request is taken, or refused with this `errno`.
pub closed spec fn step_asked(pid: i32, outcome: Result<(), i32>) -> bool {
    call_ensures(ptrace_step, (pid,), outcome)
}

/// Asking the process `pid` to continue can give `outcome`: the request is
/// taken, or refused with this `errno`.
pub closed spec fn continue_asked(pid: i32, outcome: Result<(), i32>) -> bool {
    call_ensures(ptrace_cont, (pid,), outcome)
}

/// Reads the instruction pointer of the process `pid`: the registers are
/// fetched once, and the result is the instruction pointer among them.
fn fetch_rip(pid: i32) -> (r: Result<usize, DebugError>)
    ensures
        exists|fetched: Result<(u64, u64), i32>| #[trigger]
            registers_fetched(pid, fetched) && r == rip_among(fetched),
        r matches Err(e) ==> e is Register,
{
    let regs = ptrace_getregs(pid);
    proof {
        assert(getregs_gave(pid, regs));
        assert(registers_fetched(pid, pointers_of(regs)));
    }
    match regs {
        Ok(regs) => Ok(regs.rip as usize),
        Err(errno) => Err(DebugError::Register(errno)),
    }
}

/// Reading the instruction pointer of the process `pid` can give `outcome`.
pub closed spec fn rip_fetched(pid: i32, outcome: Result<usize, DebugError>) -> bool {
    call_ensures(fetch_rip, (pid,), outcome)
}

/// The outcome of waiting for a process, given what the wait gave and what
/// reading the instruction pointer gave. A failed wait is a failure of
/// control. After a stop the status holds the instruction pointer that was
/// read, and a failed read fails the wait. Exits and fatal signals carry
/// over, and any other event is an unexpected status.
pub open spec fn wait_outcome(
    waited: Result<WaitEvent, i32>,
    rip: Result<usize, DebugError>,
) -> Result<Status, DebugError> {
    match waited {
        Ok(event) => if event is Stopped {
            match rip {
                Ok(rip) => Ok(Status::of_event(event, rip)->0),
                Err(e) => Err(e),
            }
        } else {
            match Status::of_event(event, 0) {
                Some(status) => Ok(status),
                None => Err(DebugError::UnexpectedStatus),
            }
        },
        Err(errno) => Err(DebugError::Control(errno)),
    }
}

/// Waiting for the process `pid` with `options` and reading its state can
/// give `result`.
///
/// The process is waited for once. After a stop, and only then, the
/// instruction pointer is read, and the result is [`wait_outcome`] of what
/// the wait and the read gave. After anything else no register is read, and
/// the result is [`wait_outcome`] of what the wait gave.
pub open spec fn wait_gave(
    pid: i32,
    options: Option<WaitPidFlag>,
    result: Result<Status, DebugError>,
) -> bool {
    exists|outcome: Result<WaitEvent, i32>| #[trigger]
        waited(pid, options, outcome) && if outcome matches Ok(event) && event is Stopped {
            exists|rip: Result<usize, DebugError>| #[trigger]
                rip_fetched(pid, rip) && result == wait_outcome(outcome, rip)
        } else {
            result == wait_outcome(outcome, Ok(0))
        }
}

/// The outcome of setting the process `pid` going, given what the request
/// gave. A request that is refused is a failure of control with its `errno`,
/// and the process is not waited for. After a request that is taken the
/// process is waited for, without options, and the result is what that
/// gives.
pub open spec fn set_going(
    asked: Result<(), i32>,
    pid: i32,
    result: Result<Status, DebugError>,
) -> bool {
    match asked {
        Ok(()) => wait_gave(pid, None, result),
        Err(errno) => result == Err::<Status, DebugError>(DebugError::Control(errno)),
    }
}

impl Inferior {
    /// The process id, for contracts.
    pub closed spec fn spec_pid(&self) -> i32 {
        self.pid
    }

    /// Takes charge of the child `pid`, which the caller has just spawned
    /// with tracing requested, by waiting for its first stop.
    ///
    /// Returns the inferior only if that wait reports a stop by the trace
    /// trap; on any other outcome there is none.
    pub fn attach(pid: i32) -> (r: Option<Inferior>)
        ensures
            r matches Some(inferior) ==> inferior.pid() == pid,
            exists|outcome: Result<WaitEvent, i32>| #[trigger]
                waited(pid, None, outcome) && (r is Some <==> outcome == Ok::<WaitEvent, i32>(
                    WaitEvent::Stopped(SIGTRAP),
                )),
    {
        let outcome = wait_for(pid, None);
        assert(waited(pid, None, outcome));
        match outcome {
            Ok(event) => Self::after_first_wait(pid, event),
            Err(_) => None,
        }
    }

    /// Decides from the first wait event whether the child came up as a
    /// traced process should: stopped by the trace trap.
    pub fn after_first_wait(pid: i32, event: WaitEvent) -> (r: Option<Inferior>)
        ensures
            r is Some <==> event == WaitEvent::Stopped(SIGTRAP),
            r matches Some(inferior) ==> inferior.pid() == pid,
    {
        match event {
            WaitEvent::Stopped(signal) => if signal == SIGTRAP {
                Some(Inferior { pid })
            } else {
                None
            },
            _ => None,
        }
    }

    /// Takes charge of the child `pid` as [`Inferior::attach`] does and then
    /// patches every breakpoint of the table into it, before the target has
    /// executed anything.
    ///
    /// There is an inferior exactly if the wait for the child reports a stop
    /// by the trace trap. If it does not, the table is left as it was.
    /// Otherwise the table keeps its addresses; each entry is installed, or
    /// deferred where patching failed.
    pub fn new(pid: i32, breakpoints: &mut HashMap<usize, Breakpoint>) -> (r: Option<Inferior>)
        ensures
            exists|outcome: Result<WaitEvent, i32>| #[trigger]
                waited(pid, None, outcome) && (r is Some <==> outcome == Ok::<WaitEvent, i32>(
                    WaitEvent::Stopped(SIGTRAP),
                )),
            final(breakpoints)@.dom() == old(breakpoints)@.dom(),
            r is None ==> final(breakpoints)@ == old(breakpoints)@,
            r matches Some(inferior) ==> {
                &&& inferior.pid() == pid
                &&& installed_into(inferior, old(breakpoints)@, final(breakpoints)@, inferior)
                &&& well_formed(final(breakpoints)@)
            },
    {
        match Self::attach(pid) {
            Some(inferior) => {
                let (report, patched) = install_all(inferior, breakpoints);
                proof {
                    lemma_traps_keep_handle(inferior, report@, patched);
                }
                Some(patched)
            },
            None => None,
        }
    }

    /// Another handle on the same process.
    fn handle(&self) -> (r: Inferior)
        ensures
            r == *self,
    {
        Inferior { pid: self.pid }
    }

    /// The id of the process.
    #[verifier::when_used_as_spec(spec_pid)]
    pub fn pid(&self) -> (r: i32)
        ensures
            r == self.spec_pid(),
    {
        self.pid
    }

    /// Waits for the process and reports its state.
    ///
    /// After a stop the instruction pointer is read and becomes part of the
    /// status. A wait that fails gives [`DebugError::Control`], a register
    /// read that fails gives [`DebugError::Register`], and an event that is
    /// neither an exit, a fatal signal nor a stop gives
    /// [`DebugError::UnexpectedStatus`].
    pub fn wait(&self, options: Option<WaitPidFlag>) -> (r: Result<Status, DebugError>)
        ensures
            wait_gave(self.pid(), options, r),
            r matches Err(e) ==> e is Control || e is Register || e is UnexpectedStatus,
    {
        let outcome = wait_for(self.pid, options);
        assert(waited(self.pid(), options, outcome));
        let event = match outcome {
            Ok(event) => event,
            Err(errno) => { return Err(DebugError::Control(errno)); },
        };
        if event.is_stop() {
            let rip = fetch_rip(self.pid);
            assert(rip_fetched(self.pid(), rip));
            match rip {
                Ok(rip) => event.into_status(rip),
                Err(e) => Err(e),
            }
        } else {
            event.into_status(0)
        }
    }

    /// Replaces one byte of the process's memory; see
    /// [`write_byte`](crate::tracee::write_byte).
    pub fn write_byte(&mut self, addr: usize, val: u8) -> (r: Result<u8, DebugError>)
        ensures
            byte_written(*old(self), addr, val, r, *final(self)),
            r matches Err(e) ==> e is Memory,
            *final(self) == *old(self),
    {
        let (r, after) = crate::tracee::write_byte(self.handle(), addr, val);
        proof {
            lemma_write_keeps_handle(*old(self), addr, val, r, after);
        }
        *self = after;
        r
    }

    /// Sets the process going again; see
    /// [`continue_exec`](crate::engine::continue_exec). The table is not
    /// changed.
    pub fn continue_exec(&mut self, breakpoints: &mut HashMap<usize, Breakpoint>) -> (r: Result<
        Status,
        DebugError,
    >)
        ensures
            resumed(*old(self), old(breakpoints)@, r, *final(self)),
            r matches Err(e) ==> e is Memory || e is Register || e is Control || e
                is UnexpectedStatus,
            final(breakpoints)@ == old(breakpoints)@,
            *final(self) == *old(self),
    {
        let (r, after) = crate::engine::continue_exec(self.handle(), breakpoints);
        proof {
            lemma_resume_failures(*old(self), breakpoints@, r, after);
        }
        *self = after;
        r
    }

    /// Tells whether the table has a breakpoint at `rip`.
    pub fn check_at_breakpoint(&self, rip: usize, breakpoints: &HashMap<usize, Breakpoint>) -> (r:
        bool)
        ensures
            r == breakpoints@.contains_key(rip),
    {
        crate::breakpoint::check_at_breakpoint(rip, breakpoints)
    }

    /// Walks the stack of the stopped process; see
    /// [`backtrace`](crate::unwind::backtrace).
    pub fn backtrace(&self, debug_data: &DwarfData, max_frames: usize) -> (r: Result<
        Vec<Frame>,
        DebugError,
    >)
        ensures
            unwound(self, debug_data@, max_frames as nat, trace_of(r)),
            r matches Ok(frames) ==> {
                &&& frames@.len() <= max_frames
                &&& complete_stack(debug_data@, frames_of(frames@))
            },
            r matches Err(e) ==> e is Memory || e is Register || e is Unresolved || e is TooDeep,
    {
        let r = crate::unwind::backtrace(self, debug_data, max_frames);
        proof {
            lemma_unwind_failures(self, debug_data@, max_frames as nat, trace_of(r));
        }
        r
    }
}

/// Replacing a byte in an inferior leaves the handle as it is, and fails
/// only with an error of memory.
pub proof fn lemma_write_keeps_handle(
    before: Inferior,
    addr: usize,
    val: u8,
    outcome: Result<u8, DebugError>,
    after: Inferior,
)
    requires
        byte_written(before, addr, val, outcome, after),
    ensures
        after == before,
        outcome matches Err(e) ==> e is Memory,
{
}

/// Patching traps into an inferior leaves the handle as it is.
pub proof fn lemma_traps_keep_handle(
    before: Inferior,
    report: Seq<(usize, Result<u8, DebugError>)>,
    after: Inferior,
)
    requires
        traps_written(before, report, after),
    ensures
        after == before,
    decreases report.len(),
{
    if report.len() > 0 {
        let mid = choose|mid: Inferior| #[trigger]
            byte_written(mid, report.last().0, TRAP_OPCODE, report.last().1, after)
                && traps_written(before, report.drop_last(), mid);
        lemma_traps_keep_handle(before, report.drop_last(), mid);
        lemma_write_keeps_handle(mid, report.last().0, TRAP_OPCODE, report.last().1, after);
    }
}

/// A resume of an inferior leaves the handle as it is and fails only with an
/// error of memory, of registers, of control or of an unexpected status.
pub proof fn lemma_resume_failures(
    before: Inferior,
    table: Map<usize, Breakpoint>,
    outcome: Result<Status, DebugError>,
    after: Inferior,
)
    requires
        resumed(before, table, outcome, after),
    ensures
        after == before,
        outcome matches Err(e) ==> e is Memory || e is Register || e is Control || e
            is UnexpectedStatus,
{
}

/// A walk over the stack of an inferior fails only with an error of memory,
/// at an unresolved address, or as too deep.
pub proof fn lemma_walk_failures(
    inferior: &Inferior,
    data: DwarfDataView,
    ip: usize,
    base: usize,
    limit: nat,
    outcome: Result<Seq<FrameView>, DebugError>,
)
    requires
        walked(inferior, data, ip, base, limit, outcome),
    ensures
        outcome matches Err(e) ==> e is Memory || e is Unresolved || e is TooDeep,
    decreases limit,
{
    if limit > 0 && outcome is Err {
        match frame_at(data, ip) {
            Some(frame) => {
                if frame.function != ENTRY_FUNCTION@ {
                    let ret = choose|ret: Result<u64, DebugError>| #[trigger]
                        word_read(inferior, return_slot(base), ret) && match ret {
                            Err(e) => outcome == Err::<Seq<FrameView>, DebugError>(e),
                            Ok(return_addr) => exists|saved: Result<u64, DebugError>| #[trigger]
                                word_read(inferior, base, saved) && match saved {
                                    Err(e) => outcome == Err::<Seq<FrameView>, DebugError>(e),
                                    Ok(caller_base) => {
                                        &&& walked(
                                            inferior,
                                            data,
                                            return_addr as usize,
                                            caller_base as usize,
                                            (limit - 1) as nat,
                                            beyond(outcome),
                                        )
                                        &&& outcome == under(frame, beyond(outcome))
                                    },
                                },
                        };
                    if let Ok(return_addr) = ret {
                        let saved = choose|saved: Result<u64, DebugError>| #[trigger]
                            word_read(inferior, base, saved) && match saved {
                                Err(e) => outcome == Err::<Seq<FrameView>, DebugError>(e),
                                Ok(caller_base) => {
                                    &&& walked(
                                        inferior,
                                        data,
                                        return_addr as usize,
                                        caller_base as usize,
                                        (limit - 1) as nat,
                                        beyond(outcome),
                                    )
                                    &&& outcome == under(frame, beyond(outcome))
                                },
                            };
                        if let Ok(caller_base) = saved {
                            lemma_walk_failures(
                                inferior,
                                data,
                                return_addr as usize,
                                caller_base as usize,
                                (limit - 1) as nat,
                                beyond(outcome),
                            );
                        }
                    }
                }
            },
            None => {},
        }
    }
}

/// An unwinding of the stack of an inferior fails only with an error of
/// memory or of registers, at an unresolved address, or as too deep.
pub proof fn lemma_unwind_failures(
    inferior: &Inferior,
    data: DwarfDataView,
    limit: nat,
    outcome: Result<Seq<FrameView>, DebugError>,
)
    requires
        unwound(inferior, data, limit, outcome),
    ensures
        outcome matches Err(e) ==> e is Memory || e is Register || e is Unresolved || e is TooDeep,
{
    let rip = choose|rip: Result<usize, DebugError>| #[trigger]
        rip_read(inferior, rip) && match rip {
            Err(e) => outcome == Err::<Seq<FrameView>, DebugError>(e),
            Ok(ip) => exists|rbp: Result<usize, DebugError>| #[trigger]
                rbp_read(inferior, rbp) && match rbp {
                    Err(e) => outcome == Err::<Seq<FrameView>, DebugError>(e),
                    Ok(base) => walked(inferior, data, ip, base, limit, outcome),
                },
        };
    if let Ok(ip) = rip {
        let rbp = choose|rbp: Result<usize, DebugError>| #[trigger]
            rbp_read(inferior, rbp) && match rbp {
                Err(e) => outcome == Err::<Seq<FrameView>, DebugError>(e),
                Ok(base) => walked(inferior, data, ip, base, limit, outcome),
            };
        if let Ok(base) = rbp {
            lemma_walk_failures(inferior, data, ip, base, limit, outcome);
        }
    }
}

impl Tracee for Inferior {
    /// The word is peeked at once; the result is the word that the peek
    /// gave, or a failure of memory with its `errno`.
    fn read_word(&self, addr: usize) -> (r: Result<u64, DebugError>)
        ensures
            exists|peeked: Result<u64, i32>| #[trigger]
                word_peeked(self.pid(), addr, peeked) && r == word_among(peeked),
            r matches Err(e) ==> e is Memory,
    {
        let peeked = ptrace_read(self.pid, addr);
        assert(word_peeked(self.pid(), addr, peeked));
        match peeked {
            Ok(word) => Ok(word),
            Err(errno) => Err(DebugError::Memory(errno)),
        }
    }

    /// The word is poked once; the result is success if the poke succeeded,
    /// or a failure of memory with its `errno`. The handle comes back as it
    /// was.
    fn write_word(self, addr: usize, word: u64) -> (r: (Result<(), DebugError>, Inferior))
        ensures
            exists|poked: Result<(), i32>| #[trigger]
                word_poked(self.pid(), addr, word, poked) && r.0 == poke_among(poked),
            r.0 matches Err(e) ==> e is Memory,
            r.1 == self,
    {
        let poked = ptrace_write(self.pid, addr, word);
        assert(word_poked(self.pid(), addr, word, poked));
        match poked {
            Ok(()) => (Ok(()), self),
            Err(errno) => (Err(DebugError::Memory(errno)), self),
        }
    }

    /// The registers are fetched once; the result is the instruction
    /// pointer among them, or a failure of registers with the `errno` of the
    /// fetch.
    fn get_rip(&self) -> (r: Result<usize, DebugError>)
        ensures
            exists|fetched: Result<(u64, u64), i32>| #[trigger]
                registers_fetched(self.pid(), fetched) && r == rip_among(fetched),
            r matches Err(e) ==> e is Register,
    {
        let r = fetch_rip(self.pid);
        proof {
            let fetched = choose|fetched: Result<(u64, u64), i32>| #[trigger]
                registers_fetched(self.pid, fetched) && r == rip_among(fetched);
            assert(registers_fetched(self.pid(), fetched));
        }
        r
    }

    /// The registers are fetched once; the result is the frame-base pointer
    /// among them, or a failure of registers with the `errno` of the fetch.
    fn get_rbp(&self) -> (r: Result<usize, DebugError>)
        ensures
            exists|fetched: Result<(u64, u64), i32>| #[trigger]
                registers_fetched(self.pid(), fetched) && r == rbp_among(fetched),
            r matches Err(e) ==> e is Register,
    {
        let regs = ptrace_getregs(self.pid);
        proof {
            assert(getregs_gave(self.pid(), regs));
            assert(registers_fetched(self.pid(), pointers_of(regs)));
        }
        match regs {
            Ok(regs) => Ok(regs.rbp as usize),
            Err(errno) => Err(DebugError::Register(errno)),
        }
    }

    /// The registers are fetched and handed back with only the instruction
    /// pointer replaced; the result is success if both requests succeeded, or
    /// a failure of registers with the `errno` of the request that failed.
    /// The handle comes back as it was.
    fn set_rip(self, rip: usize) -> (r: (Result<(), DebugError>, Inferior))
        ensures
            exists|replaced: Result<(), i32>| #[trigger]
                rip_replaced(self.pid(), rip as u64, replaced) && r.0 == set_among(replaced),
            r.0 matches Err(e) ==> e is Register,
            r.1 == self,
    {
        let fetched = ptrace_getregs(self.pid);
        assert(getregs_gave(self.pid(), fetched));
        let mut regs = match fetched {
            Ok(regs) => regs,
            Err(errno) => {
                assert(rip_replaced(self.pid(), rip as u64, Err(errno)));
                return (Err(DebugError::Register(errno)), self);
            },
        };
        let ghost file = regs;
        regs.rip = rip as u64;
        let ghost sent = regs;
        let replaced = ptrace_setregs(self.pid, regs);
        proof {
            assert(sent == Registers { rip: rip as u64, ..file });
            assert(setregs_gave(self.pid(), sent, replaced));
            assert(rip_replaced(self.pid(), rip as u64, replaced));
        }
        match replaced {
            Ok(()) => (Ok(()), self),
            Err(errno) => (Err(DebugError::Register(errno)), self),
        }
    }

    /// The process is asked once for a single step. If the request is
    /// refused the result is a failure of control with its `errno`.
    /// Otherwise the process is waited for and the result is what
    /// [`Inferior::wait`] gives. The handle comes back as it was.
    fn single_step(self) -> (r: (Result<Status, DebugError>, Inferior))
        ensures
            exists|asked: Result<(), i32>| #[trigger]
                step_asked(self.pid(), asked) && set_going(asked, self.pid(), r.0),
            r.0 matches Err(e) ==> e is Control || e is Register || e is UnexpectedStatus,
            r.1 == self,
    {
        let asked = ptrace_step(self.pid);
        assert(step_asked(self.pid(), asked));
        match asked {
            Ok(()) => (self.wait(None), self),
            Err(errno) => (Err(DebugError::Control(errno)), self),
        }
    }

    /// The process is asked once to continue. If the request is refused the
    /// result is a failure of control with its `errno`. Otherwise the
    /// process is waited for and the result is what [`Inferior::wait`]
    /// gives. The handle comes back as it was.
    fn resume(self) -> (r: (Result<Status, DebugError>, Inferior))
        ensures
            exists|asked: Result<(), i32>| #[trigger]
                continue_asked(self.pid(), asked) && set_going(asked, self.pid(), r.0),
            r.0 matches Err(e) ==> e is Control || e is Register || e is UnexpectedStatus,
            r.1 == self,
    {
        let asked = ptrace_cont(self.pid);
        assert(continue_asked(self.pid(), asked));
        match asked {
            Ok(()) => (self.wait(None), self),
            Err(errno) => (Err(DebugError::Control(errno)), self),
        }
    }
}

} // verus!
