//! Result values that travel up from the traced process to the caller.

use vstd::prelude::*;

verus! {

/// Number of the trace-trap signal on Linux. A target started under trace
/// raises it before its first instruction, and again at every breakpoint and
/// after every single step.
pub const SIGTRAP: i32 = 5;

/// How a resume of the target ended.
#[derive(Clone, Copy, Debug, PartialEq, Eq, Structural)]
pub enum Status {
    /// The target stopped. Holds the number of the signal that stopped it and
    /// the instruction pointer it stopped at.
    Stopped(i32, usize),
    /// The target exited normally. Holds its exit code.
    Exited(i32),
    /// The target was killed by a signal. Holds the signal's number.
    Signaled(i32),
}

/// What one wait on the target reported, before any register is read.
#[derive(Clone, Copy, Debug, PartialEq, Eq, Structural)]
pub enum WaitEvent {
    /// Normal exit with this code.
    Exited(i32),
    /// Killed by this signal; the flag says whether a core was dumped.
    Signaled(i32, bool),
    /// Stopped by this signal.
    Stopped(i32),
    /// Stopped by this signal for the trace event with this number.
    PtraceEvent(i32, i32),
    /// Stopped at the entry to or exit from a system call.
    PtraceSyscall,
    /// Continued after a job-control stop.
    Continued,
    /// Nothing to report: the target is still running.
    StillAlive,
}

/// Why an operation of the debugger did not complete.
#[derive(Clone, Copy, Debug, PartialEq, Eq, Structural)]
pub enum DebugError {
    /// The operation needs a live target and none is being traced.
    NoProcess,
    /// The target did not come up stopped at its initial trap.
    Launch,
    /// A breakpoint specification names no known line, function or address.
    Resolve,
    /// Reading or writing target memory failed with this `errno`.
    Memory(i32),
    /// Reading or writing target registers failed with this `errno`.
    Register(i32),
    /// Continuing, stepping or waiting for the target failed with this `errno`.
    Control(i32),
    /// A wait reported something other than an exit, a fatal signal or a stop.
    UnexpectedStatus,
    /// While unwinding, no function or no source line is known for this address.
    Unresolved(usize),
    /// While unwinding, the frame limit was reached before the entry function.
    TooDeep,
}

impl Status {
    /// True for the two outcomes after which the target no longer exists.
    pub open spec fn terminal(self) -> bool {
        self is Exited || self is Signaled
    }

    /// Tells whether the target is gone after this status.
    pub fn is_terminal(&self) -> (r: bool)
        ensures
            r == self.terminal(),
    {
        match self {
            Status::Stopped(_, _) => false,
            Status::Exited(_) => true,
            Status::Signaled(_) => true,
        }
    }

    /// The status that corresponds to a wait event, given the instruction
    /// pointer read after a stop: exits and fatal signals carry over, a stop is
    /// paired with `rip`, and every other event has no status.
    pub open spec fn of_event(event: WaitEvent, rip: usize) -> Option<Status> {
        match event {
            WaitEvent::Exited(code) => Some(Status::Exited(code)),
            WaitEvent::Signaled(signal, _) => Some(Status::Signaled(signal)),
            WaitEvent::Stopped(signal) => Some(Status::Stopped(signal, rip)),
            _ => None,
        }
    }
}

impl WaitEvent {
    /// True when the event is a plain stop, the only one after which the
    /// target's registers are read.
    pub fn is_stop(&self) -> (r: bool)
        ensures
            r == (*self is Stopped),
    {
        match self {
            WaitEvent::Stopped(_) => true,
            _ => false,
        }
    }

    /// Turns the event into a status. `rip` is the instruction pointer read
    /// after the wait; it is used only for a stop.
    pub fn into_status(self, rip: usize) -> (r: Result<Status, DebugError>)
        ensures
            r == match Status::of_event(self, rip) {
                Some(status) => Ok::<Status, DebugError>(status),
                None => Err::<Status, DebugError>(DebugError::UnexpectedStatus),
            },
    {
        match self {
            WaitEvent::Exited(code) => Ok(Status::Exited(code)),
            WaitEvent::Signaled(signal, _) => Ok(Status::Signaled(signal)),
            WaitEvent::Stopped(signal) => Ok(Status::Stopped(signal, rip)),
            _ => Err(DebugError::UnexpectedStatus),
        }
    }
}

} // verus!
