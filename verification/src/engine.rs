//! The resume protocol: how a target that may be sitting on a breakpoint is
//! set going again.
//!
//! A breakpoint is a trap byte written over the first byte of an instruction.
//! A target that has trapped must execute the instruction itself before it
//! goes on, so a resume from a breakpoint takes five steps, in this order:
//! restore the saved byte, rewind the instruction pointer onto it, single-step
//! that one instruction, patch the trap in again, continue. The first two make
//! the step execute the original instruction, the fourth keeps the breakpoint
//! in force for the next pass.

use std::collections::HashMap;
use vstd::prelude::*;
use crate::breakpoint::{breakpoint_hit, trap_behind, Breakpoint, TRAP_OPCODE};
use crate::status::{DebugError, Status};
use crate::tracee::{
    byte_written, continued, rip_read, rip_set, stepped, write_byte, Tracee,
};

verus! {

/// Where a target is after a run.
#[derive(Clone, Copy, Debug, PartialEq, Eq, Structural)]
pub enum State {
    /// Stopped right behind the trap of the installed breakpoint at this
    /// address.
    StoppedAtBreakpoint(usize),
    /// Stopped by this signal, not on a breakpoint.
    StoppedAtOtherSignal(i32),
    /// Exited with this code.
    Exited(i32),
    /// Killed by this signal.
    Signaled(i32),
}

/// The state that a status stands for, given the table of breakpoints: a stop
/// is a stop at a breakpoint exactly when the table holds an installed
/// breakpoint one byte behind the instruction pointer.
pub open spec fn state_at(status: Status, table: Map<usize, Breakpoint>) -> State {
    match status {
        Status::Stopped(signal, rip) => match trap_behind(rip, table) {
            Some((addr, _)) => State::StoppedAtBreakpoint(addr),
            None => State::StoppedAtOtherSignal(signal),
        },
        Status::Exited(code) => State::Exited(code),
        Status::Signaled(signal) => State::Signaled(signal),
    }
}

/// Classifies the status that a run ended with.
pub fn state_of(status: Status, breakpoints: &HashMap<usize, Breakpoint>) -> (r: State)
    ensures
        r == state_at(status, breakpoints@),
{
    match status {
        Status::Stopped(signal, rip) => match breakpoint_hit(rip, breakpoints) {
            Some((addr, _)) => State::StoppedAtBreakpoint(addr),
            None => State::StoppedAtOtherSignal(signal),
        },
        Status::Exited(code) => State::Exited(code),
        Status::Signaled(signal) => State::Signaled(signal),
    }
}

/// Last step: the trap is patched in again, with outcome `repatched`, and
/// has left the target `before`. A failed patch fails the resume. After a
/// successful one the target is continued, and the resume gives what that
/// gives.
pub open spec fn after_repatch<T: Tracee>(
    before: T,
    repatched: Result<u8, DebugError>,
    outcome: Result<Status, DebugError>,
    after: T,
) -> bool {
    match repatched {
        Ok(_) => continued(before, outcome, after),
        Err(e) => outcome == Err::<Status, DebugError>(e) && after == before,
    }
}

/// Fourth step: the restored instruction at `addr` is single-stepped, with
/// outcome `step`, and has left the target `before`. A failed step fails the
/// resume, and a step that ends the target ends the resume with that status.
/// Otherwise the trap is patched in again at `addr` and the resume goes on
/// to the last step.
pub open spec fn after_step<T: Tracee>(
    before: T,
    addr: usize,
    step: Result<Status, DebugError>,
    outcome: Result<Status, DebugError>,
    after: T,
) -> bool {
    match step {
        Ok(status) => if status.terminal() {
            outcome == Ok::<Status, DebugError>(status) && after == before
        } else {
            exists|repatched: Result<u8, DebugError>, next: T| #[trigger]
                byte_written(before, addr, TRAP_OPCODE, repatched, next) && after_repatch(
                    next,
                    repatched,
                    outcome,
                    after,
                )
        },
        Err(e) => outcome == Err::<Status, DebugError>(e) && after == before,
    }
}

/// Third step: the instruction pointer is rewound to `addr`, with outcome
/// `rewound`, and has left the target `before`. A failure fails the resume.
/// Otherwise the target is single-stepped and the resume goes on to the
/// fourth step.
pub open spec fn after_rewind<T: Tracee>(
    before: T,
    addr: usize,
    rewound: Result<(), DebugError>,
    outcome: Result<Status, DebugError>,
    after: T,
) -> bool {
    match rewound {
        Ok(()) => exists|step: Result<Status, DebugError>, next: T| #[trigger]
            stepped(before, step, next) && after_step(next, addr, step, outcome, after),
        Err(e) => outcome == Err::<Status, DebugError>(e) && after == before,
    }
}

/// Second step: the saved byte is written back at `addr`, with outcome
/// `restored`, and has left the target `before`. A failure fails the
/// resume. Otherwise the instruction pointer is rewound to `addr` and the
/// resume goes on to the third step.
pub open spec fn after_restore<T: Tracee>(
    before: T,
    addr: usize,
    restored: Result<u8, DebugError>,
    outcome: Result<Status, DebugError>,
    after: T,
) -> bool {
    match restored {
        Ok(_) => exists|rewound: Result<(), DebugError>, next: T| #[trigger]
            rip_set(before, addr, rewound, next) && after_rewind(
                next,
                addr,
                rewound,
                outcome,
                after,
            ),
        Err(e) => outcome == Err::<Status, DebugError>(e) && after == before,
    }
}

/// First step: the instruction pointer of the target `before` is read, with
/// outcome `rip`. A failed read fails the resume. A target that is not right
/// behind an installed breakpoint is continued, and the resume gives what
/// that gives. For one that is, the saved byte is written back over the trap
/// and the resume goes on to the second step.
pub open spec fn after_rip<T: Tracee>(
    before: T,
    table: Map<usize, Breakpoint>,
    rip: Result<usize, DebugError>,
    outcome: Result<Status, DebugError>,
    after: T,
) -> bool {
    match rip {
        Ok(rip) => match trap_behind(rip, table) {
            Some((addr, saved)) => exists|restored: Result<u8, DebugError>, next: T| #[trigger]
                byte_written(before, addr, saved, restored, next) && after_restore(
                    next,
                    addr,
                    restored,
                    outcome,
                    after,
                ),
            None => continued(before, outcome, after),
        },
        Err(e) => outcome == Err::<Status, DebugError>(e) && after == before,
    }
}

/// Resuming the target `before` under the breakpoints of `table` can give
/// `outcome` and leave the target `after`: the instruction pointer is read
/// and the resume takes its steps from there, each on the target as the
/// step before has left it.
pub open spec fn resumed<T: Tracee>(
    before: T,
    table: Map<usize, Breakpoint>,
    outcome: Result<Status, DebugError>,
    after: T,
) -> bool {
    exists|rip: Result<usize, DebugError>| #[trigger]
        rip_read(&before, rip) && after_rip(before, table, rip, outcome, after)
}

/// The five steps of a resume from the breakpoint at `addr`, each on the
/// target as the step before has left it: the byte `saved` is written back
/// at the breakpoint, the instruction pointer is set to the breakpoint, one
/// instruction is stepped and leaves the target alive, the trap is written
/// at the breakpoint again, and the target is continued, which gives
/// `status` and leaves the target `after`.
pub open spec fn stepped_past<T: Tracee>(
    before: T,
    addr: usize,
    saved: u8,
    status: Status,
    after: T,
) -> bool {
    exists|original: u8, restored: T, rewound: T, step: Status, walked: T, trap: u8, repatched: T|
        #![trigger
            byte_written(before, addr, saved, Ok(original), restored),
            rip_set(restored, addr, Ok(()), rewound),
            stepped(rewound, Ok(step), walked),
            byte_written(walked, addr, TRAP_OPCODE, Ok(trap), repatched),
        ]
        {
            &&& byte_written(before, addr, saved, Ok(original), restored)
            &&& rip_set(restored, addr, Ok(()), rewound)
            &&& stepped(rewound, Ok(step), walked)
            &&& !step.terminal()
            &&& byte_written(walked, addr, TRAP_OPCODE, Ok(trap), repatched)
            &&& continued(repatched, Ok(status), after)
        }
}

/// A resume from a breakpoint that brings the target to its next stop has
/// taken all five steps, in their order, and every step has succeeded.
pub proof fn lemma_resume_from_breakpoint<T: Tracee>(
    before: T,
    table: Map<usize, Breakpoint>,
    rip: usize,
    status: Status,
    after: T,
)
    requires
        trap_behind(rip, table) is Some,
        after_rip(before, table, Ok(rip), Ok(status), after),
        !status.terminal(),
    ensures
        ({
            let (addr, saved) = trap_behind(rip, table)->0;
            &&& addr == rip - 1
            &&& table[addr].orig_byte == Some(saved)
            &&& stepped_past(before, addr, saved, status, after)
        }),
{
    let (addr, saved) = trap_behind(rip, table)->0;
    let outcome = Ok::<Status, DebugError>(status);
    let (restored, t1) = choose|restored: Result<u8, DebugError>, next: T| #[trigger]
        byte_written(before, addr, saved, restored, next) && after_restore(
            next,
            addr,
            restored,
            outcome,
            after,
        );
    let (rewound, t2) = choose|rewound: Result<(), DebugError>, next: T| #[trigger]
        rip_set(t1, addr, rewound, next) && after_rewind(next, addr, rewound, outcome, after);
    assert(rewound == Ok::<(), DebugError>(())) by {
        assert(rewound->Ok_0 == ());
    }
    let (step, t3) = choose|step: Result<Status, DebugError>, next: T| #[trigger]
        stepped(t2, step, next) && after_step(next, addr, step, outcome, after);
    let (repatched, t4) = choose|repatched: Result<u8, DebugError>, next: T| #[trigger]
        byte_written(t3, addr, TRAP_OPCODE, repatched, next) && after_repatch(
            next,
            repatched,
            outcome,
            after,
        );
}

/// A resume that is not from a breakpoint gives what continuing the target
/// gives.
pub proof fn lemma_resume_elsewhere<T: Tracee>(
    before: T,
    table: Map<usize, Breakpoint>,
    rip: usize,
    outcome: Result<Status, DebugError>,
    after: T,
)
    requires
        trap_behind(rip, table) is None,
        after_rip(before, table, Ok(rip), outcome, after),
    ensures
        continued(before, outcome, after),
{
}

/// With no breakpoint installed, a resume patches and steps nothing: once the
/// instruction pointer is read, the target is continued, and the resume gives
/// exactly what that gives, the exit code of a target that runs to its end
/// included.
pub proof fn lemma_resume_without_breakpoints<T: Tracee>(
    before: T,
    table: Map<usize, Breakpoint>,
    outcome: Result<Status, DebugError>,
    after: T,
)
    requires
        forall|addr: usize| table.contains_key(addr) ==> (#[trigger] table[addr]).orig_byte is None,
        resumed(before, table, outcome, after),
    ensures
        continued(before, outcome, after) || (outcome is Err && after == before && rip_read(
            &before,
            Err::<usize, DebugError>(outcome->Err_0),
        )),
{
    let rip = choose|rip: Result<usize, DebugError>| #[trigger]
        rip_read(&before, rip) && after_rip(before, table, rip, outcome, after);
    match rip {
        Ok(at) => {
        },
        Err(e) => {
        },
    }
}

/// Lets the target run until it next stops, exits or is killed, and hands it
/// back.
///
/// A target that has just trapped on an installed breakpoint is first moved
/// past it: the saved byte is written back over the trap, the instruction
/// pointer is pulled back onto the restored instruction, and exactly that
/// instruction is single-stepped. If the step ends the target, its status is
/// returned at once. Otherwise the trap is written in again and the target is
/// continued. A target that is not on a breakpoint is continued directly.
///
/// The first request that fails ends the resume with its error; nothing
/// further is asked of the target. The table is only read.
pub fn continue_exec<T: Tracee>(target: T, breakpoints: &HashMap<usize, Breakpoint>) -> (r: (
    Result<Status, DebugError>,
    T,
))
    ensures
        resumed(target, breakpoints@, r.0, r.1),
{
    let rip = target.get_rip();
    assert(rip_read(&target, rip));
    let rip = match rip {
        Ok(rip) => rip,
        Err(e) => { return (Err(e), target); },
    };
    match breakpoint_hit(rip, breakpoints) {
        Some((addr, orig_byte)) => {
            let (restored, t1) = write_byte(target, addr, orig_byte);
            if let Err(e) = restored {
                return (Err(e), t1);
            }
            let (rewound, t2) = t1.set_rip(addr);
            assert(rip_set(t1, addr, rewound, t2));
            if let Err(e) = rewound {
                return (Err(e), t2);
            }
            let (step, t3) = t2.single_step();
            assert(stepped(t2, step, t3));
            let status = match step {
                Ok(status) => status,
                Err(e) => {
                    return (Err(e), t3);
                },
            };
            if status.is_terminal() {
                return (Ok(status), t3);
            }
            let (repatched, t4) = write_byte(t3, addr, TRAP_OPCODE);
            if let Err(e) = repatched {
                return (Err(e), t4);
            }
            let (r, after) = t4.resume();
            (r, after)
        },
        None => {
            let (r, after) = target.resume();
            (r, after)
        },
    }
}

} // verus!
