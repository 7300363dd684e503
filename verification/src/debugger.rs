//! The debugging session: at most one live target, the table of breakpoints
//! and the symbol tables, behind the operations the command loop asks for.

use std::collections::HashMap;
use vstd::prelude::*;
use vstd::std_specs::hash::*;
use vstd::string::*;
use crate::breakpoint::{
    all_deferred, breakpoint_set, defer_all, install_all, install_one, installed_into,
    lemma_set_keeps_well_formed, lemma_set_twice, target_patched, well_formed, Breakpoint,
};
use crate::debugger_command::DebuggerCommand;
use crate::dwarf_data::{DwarfData, DwarfDataView};
use crate::engine::{continue_exec, resumed};
use crate::inferior::{lemma_resume_failures, waited, Inferior};
use crate::point::{address_of, resolve};
use crate::status::{DebugError, Status, WaitEvent, SIGTRAP};
use crate::tracee::Tracee;
use crate::unwind::{backtrace, complete_stack, frames_of, trace_of, unwound, Frame};

verus! {

broadcast use vstd::std_specs::hash::group_hash_axioms;

/// What the command loop has to do or to show after a command.
pub enum Reply<T> {
    /// Leave. A target that is handed over is to be killed first.
    Quit(Option<T>),
    /// Spawn the program with these arguments and launch it in the session.
    /// A target that is handed over is to be killed first.
    Launch(Vec<String>, Option<T>),
    /// The target was resumed, or could not be.
    Resumed(Result<Status, DebugError>),
    /// The call stack, or why there is none.
    Trace(Result<Vec<Frame>, DebugError>),
    /// The index and the address of the breakpoint that was set, or why none
    /// was.
    BreakpointSet(Result<(usize, usize), DebugError>),
}

/// A debugging session on one program.
pub struct Debugger<T: Tracee> {
    target: String,
    inferior: Option<T>,
    debug_data: DwarfData,
    breakpoints: HashMap<usize, Breakpoint>,
    max_frames: usize,
}

/// What a session consists of, apart from the target itself.
pub struct SessionView {
    /// Whether a target is live.
    pub live: bool,
    /// The table of breakpoints.
    pub table: Map<usize, Breakpoint>,
    /// The symbol tables.
    pub symbols: DwarfDataView,
    /// The path of the program.
    pub program: Seq<char>,
    /// The largest number of frames a backtrace walks.
    pub frame_limit: usize,
}

impl SessionView {
    /// Every breakpoint is stored under its own address, and while no target
    /// is live every breakpoint is deferred.
    pub open spec fn well_formed(self) -> bool {
        &&& well_formed(self.table)
        &&& !self.live ==> self.table == all_deferred(self.table)
    }

    /// The session with another table.
    pub open spec fn with_table(self, table: Map<usize, Breakpoint>) -> SessionView {
        SessionView { table, ..self }
    }

    /// The session once its target is gone: none is live and every breakpoint
    /// is deferred.
    pub open spec fn without_process(self) -> SessionView {
        SessionView { live: false, table: all_deferred(self.table), ..self }
    }

    /// The session after letting the target run with this outcome: unchanged,
    /// unless the run ended a live target.
    pub open spec fn after_run(self, outcome: Result<Status, DebugError>) -> SessionView {
        if self.live && (outcome matches Ok(status) && status.terminal()) {
            self.without_process()
        } else {
            self
        }
    }

    /// How setting a breakpoint at the place `point` names changes the
    /// session. `ok` says whether the operation succeeded.
    ///
    /// A specification that resolves to nothing fails and changes nothing.
    /// One that resolves changes the table as [`breakpoint_set`] says and
    /// nothing else.
    pub open spec fn breakpoint_set_at(self, point: Seq<char>, ok: bool, after: SessionView) -> bool {
        match address_of(self.symbols, point) {
            Some(addr) => {
                &&& breakpoint_set(self.table, self.live, addr, ok, after.table)
                &&& after == self.with_table(after.table)
            },
            None => !ok && after == self,
        }
    }
}

/// After the target is given up there is no live target, so that letting it
/// run on is refused and changes nothing, whatever the outcome would be.
pub proof fn lemma_no_run_after_terminate(session: SessionView, outcome: Result<Status, DebugError>)
    ensures
        !session.without_process().live,
        session.without_process().after_run(outcome) == session.without_process(),
        well_formed(session.table) ==> session.without_process().well_formed(),
{
    assert(all_deferred(all_deferred(session.table)) =~= all_deferred(session.table));
}

/// Setting the same breakpoint twice in a row is the same as setting it
/// once: the second time succeeds, the session stays as the first time left
/// it, and the table has no more entries than after the first time.
pub proof fn lemma_set_breakpoint_twice(
    before: SessionView,
    point: Seq<char>,
    once: SessionView,
    ok: bool,
    twice: SessionView,
)
    requires
        before.breakpoint_set_at(point, true, once),
        once.breakpoint_set_at(point, ok, twice),
    ensures
        ok,
        twice == once,
        twice.table.dom().len() == once.table.dom().len(),
{
    let addr = address_of(before.symbols, point)->0;
    lemma_set_twice(before.table, before.live, addr, once.table, ok, twice.table);
}

/// Setting a breakpoint keeps a well-formed session well-formed.
pub proof fn lemma_set_breakpoint_keeps_well_formed(
    before: SessionView,
    point: Seq<char>,
    ok: bool,
    after: SessionView,
)
    requires
        before.well_formed(),
        before.breakpoint_set_at(point, ok, after),
    ensures
        after.well_formed(),
        !ok ==> after == before,
        ok ==> after.table.dom() == before.table.dom().insert(address_of(before.symbols, point)->0),
{
    match address_of(before.symbols, point) {
        Some(addr) => {
            lemma_set_keeps_well_formed(before.table, before.live, addr, ok, after.table);
            if !before.live {
                assert(after.table =~= all_deferred(after.table));
            }
        },
        None => {},
    }
}

/// Launching `target` into a session with the breakpoints `before` can give
/// `outcome` and leave the table `after` and the live target `process`.
///
/// First every breakpoint is patched into the target, then the patched
/// target is resumed, which gives the outcome. A target that is still there
/// is the session's live target, and the table is as the patching left it.
/// If the target has ended there is none, and every breakpoint is deferred
/// again.
pub open spec fn launched<T: Tracee>(
    target: T,
    before: Map<usize, Breakpoint>,
    outcome: Result<Status, DebugError>,
    after: Map<usize, Breakpoint>,
    process: Option<T>,
) -> bool {
    exists|patched: T, table: Map<usize, Breakpoint>, run: T|
        #![trigger installed_into(target, before, table, patched), resumed(patched, table, outcome, run)]
        {
            &&& installed_into(target, before, table, patched)
            &&& resumed(patched, table, outcome, run)
            &&& if outcome matches Ok(status) && status.terminal() {
                process is None && after == all_deferred(table)
            } else {
                process == Some(run) && after == table
            }
        }
}

/// A session that still has a live target after a run has the target as the
/// run has left it.
pub open spec fn run_kept<T: Tracee>(process: Option<T>, run: T) -> bool {
    process is Some ==> process == Some(run)
}

/// The target that a session hands back to be killed: its live target, as
/// long as the operating system still knows it.
pub open spec fn handed_back<T: Tracee>(session: Debugger<T>, alive: bool) -> Option<T> {
    if alive {
        session.process()
    } else {
        None
    }
}

impl<T: Tracee> View for Debugger<T> {
    type V = SessionView;

    closed spec fn view(&self) -> SessionView {
        SessionView {
            live: self.inferior is Some,
            table: self.breakpoints@,
            symbols: self.debug_data@,
            program: self.target@,
            frame_limit: self.max_frames,
        }
    }
}

impl<T: Tracee> Debugger<T> {
    /// The live target, if there is one.
    pub closed spec fn process(&self) -> Option<T> {
        self.inferior
    }

    /// The session knows whether its target is live.
    pub proof fn lemma_live(&self)
        ensures
            self@.live == (self.process() is Some),
    {
    }

    /// Opens a session on the program at `target` with its symbol tables.
    /// There is no live target and no breakpoint, and backtraces are not
    /// limited.
    pub fn new(target: &str, debug_data: DwarfData) -> (r: Debugger<T>)
        ensures
            r@.well_formed(),
            r.process() is None,
            r@ == (SessionView {
                live: false,
                table: Map::<usize, Breakpoint>::empty(),
                symbols: debug_data@,
                program: target@,
                frame_limit: usize::MAX,
            }),
    {
        let r = Debugger {
            target: target.to_owned(),
            inferior: None,
            debug_data,
            breakpoints: HashMap::new(),
            max_frames: usize::MAX,
        };
        assert(r.breakpoints@ =~= all_deferred(r.breakpoints@));
        r
    }

    /// The path of the program.
    pub fn target(&self) -> (r: &str)
        ensures
            r@ == self@.program,
    {
        self.target.as_str()
    }

    /// The symbol tables.
    pub fn debug_data(&self) -> (r: &DwarfData)
        ensures
            r@ == self@.symbols,
    {
        &self.debug_data
    }

    /// The table of breakpoints.
    pub fn breakpoints(&self) -> (r: &HashMap<usize, Breakpoint>)
        ensures
            r@ == self@.table,
    {
        &self.breakpoints
    }

    /// Tells whether a target is live.
    pub fn has_process(&self) -> (r: bool)
        ensures
            r == self@.live,
    {
        self.inferior.is_some()
    }

    /// Limits the number of frames a backtrace walks.
    pub fn set_max_frames(&mut self, max_frames: usize)
        ensures
            final(self)@ == (SessionView { frame_limit: max_frames, ..old(self)@ }),
            final(self).process() == old(self).process(),
    {
        self.max_frames = max_frames;
    }

    /// Takes a freshly launched target into the session, patches every
    /// breakpoint into it and lets it run for the first time.
    ///
    /// The session must not hold a live target: the caller ends the previous
    /// one first. The result is how the first run ended. If it ended the
    /// target, the session holds none afterwards. The set of breakpoints
    /// does not change.
    pub fn start(&mut self, target: T) -> (r: Result<Status, DebugError>)
        requires
            !old(self)@.live,
        ensures
            final(self)@.well_formed(),
            final(self)@.table.dom() == old(self)@.table.dom(),
            final(self)@.live <==> !(r matches Ok(status) && status.terminal()),
            launched(target, old(self)@.table, r, final(self)@.table, final(self).process()),
            final(self)@ == (SessionView {
                live: final(self)@.live,
                table: final(self)@.table,
                ..old(self)@
            }),
    {
        let (_, patched) = install_all(target, &mut self.breakpoints);
        let ghost table = self.breakpoints@;
        let (r, after) = continue_exec(patched, &self.breakpoints);
        self.settle(after, &r);
        proof {
            assert(installed_into(target, old(self)@.table, table, patched) && resumed(
                patched,
                table,
                r,
                after,
            ));
        }
        r
    }

    /// Keeps the target after a run unless the run ended it.
    fn settle(&mut self, target: T, outcome: &Result<Status, DebugError>)
        ensures
            well_formed(old(self)@.table) ==> final(self)@.well_formed(),
            final(self)@ == (SessionView { live: true, ..old(self)@ }).after_run(*outcome),
            final(self)@.live ==> final(self).process() == Some(target),
    {
        let ended = match outcome {
            Ok(status) => status.is_terminal(),
            Err(_) => false,
        };
        if ended {
            self.inferior = None;
            defer_all(&mut self.breakpoints);
            assert(all_deferred(self.breakpoints@) =~= self.breakpoints@);
        } else {
            self.inferior = Some(target);
        }
    }

    /// Lets the stopped target run on.
    ///
    /// Without a live target this fails with [`DebugError::NoProcess`] and
    /// changes nothing. Otherwise the result is that of the resume protocol;
    /// if the target ended, the session holds none afterwards and every
    /// breakpoint is deferred. The set of breakpoints never changes.
    pub fn resume(&mut self) -> (r: Result<Status, DebugError>)
        ensures
            old(self)@.well_formed() ==> final(self)@.well_formed(),
            final(self)@ == old(self)@.after_run(r),
            !old(self)@.live ==> r == Err::<Status, DebugError>(DebugError::NoProcess),
            !old(self)@.live ==> *final(self) == *old(self),
            old(self).process() matches Some(target) ==> exists|after: T| #[trigger]
                resumed(target, old(self)@.table, r, after) && run_kept(
                    final(self).process(),
                    after,
                ),
    {
        if self.inferior.is_none() {
            return Err(DebugError::NoProcess);
        }
        let target = self.inferior.take().unwrap();
        let (r, after) = continue_exec(target, &self.breakpoints);
        self.settle(after, &r);
        r
    }

    /// Sets a breakpoint at the place that `point` names and returns its
    /// index and its address.
    ///
    /// A specification that resolves to nothing fails with
    /// [`DebugError::Resolve`]. With a live target the trap is patched in at
    /// once, and a failure to do so is returned; without one the breakpoint
    /// is deferred to the next launch. On any failure the session is left as
    /// it was. The index is the number of breakpoints that were in the table
    /// before. Setting a breakpoint where one is already set leaves the
    /// table as it is.
    pub fn set_breakpoint(&mut self, point: &str) -> (r: Result<(usize, usize), DebugError>)
        ensures
            old(self)@.well_formed() ==> final(self)@.well_formed(),
            old(self)@.breakpoint_set_at(point@, r is Ok, final(self)@),
            address_of(old(self)@.symbols, point@) is None ==> r == Err::<
                (usize, usize),
                DebugError,
            >(DebugError::Resolve),
            r matches Ok((index, addr)) ==> address_of(old(self)@.symbols, point@) == Some(addr)
                && index == old(self)@.table.len(),
            match address_of(old(self)@.symbols, point@) {
                Some(addr) => target_patched(
                    old(self)@.table,
                    old(self).process(),
                    addr,
                    match r {
                        Ok(_) => Ok::<(), DebugError>(()),
                        Err(e) => Err::<(), DebugError>(e),
                    },
                    final(self)@.table,
                    final(self).process(),
                ),
                None => final(self).process() == old(self).process(),
            },
    {
        let addr = resolve(&self.debug_data, point)?;
        let index = self.breakpoints.len();
        let (installed, target) = install_one(self.inferior.take(), &mut self.breakpoints, addr);
        self.inferior = target;
        proof {
            if old(self)@.well_formed() {
                lemma_set_breakpoint_keeps_well_formed(old(self)@, point@, installed is Ok, self@);
            }
        }
        match installed {
            Ok(()) => Ok((index, addr)),
            Err(e) => Err(e),
        }
    }

    /// Walks the call stack of the stopped target, innermost frame first.
    ///
    /// Without a live target this fails with [`DebugError::NoProcess`].
    /// Nothing in the session changes either way.
    pub fn backtrace(&self) -> (r: Result<Vec<Frame>, DebugError>)
        ensures
            !self@.live ==> r == Err::<Vec<Frame>, DebugError>(DebugError::NoProcess),
            self.process() matches Some(target) ==> unwound(
                &target,
                self@.symbols,
                self@.frame_limit as nat,
                trace_of(r),
            ),
            r matches Ok(frames) ==> {
                &&& self@.live
                &&& frames@.len() <= self@.frame_limit
                &&& complete_stack(self@.symbols, frames_of(frames@))
            },
    {
        match &self.inferior {
            Some(target) => backtrace(target, &self.debug_data, self.max_frames),
            None => Err(DebugError::NoProcess),
        }
    }

    /// Gives up the live target, if there is one, and hands it to the caller,
    /// who kills it. Every breakpoint is deferred to the next launch.
    pub fn terminate(&mut self) -> (r: Option<T>)
        ensures
            final(self)@ == old(self)@.without_process(),
            r == old(self).process(),
            final(self).process() is None,
            well_formed(old(self)@.table) ==> final(self)@.well_formed(),
    {
        let r = self.inferior.take();
        defer_all(&mut self.breakpoints);
        assert(all_deferred(self.breakpoints@) =~= self.breakpoints@);
        r
    }

    /// Carries out one command of the prompt.
    ///
    /// `alive` says whether the operating system still knows the target; if
    /// it does not, the session first gives it up. `Quit` and `Run` then give
    /// up the target and hand it back to be killed. `Continue`, `Backtrace`
    /// and `Breakpoint` answer as [`Debugger::resume`],
    /// [`Debugger::backtrace`] and [`Debugger::set_breakpoint`] do.
    pub fn run(&mut self, command: DebuggerCommand, alive: bool) -> (r: Reply<T>)
        ensures
            old(self)@.well_formed() ==> final(self)@.well_formed(),
            match command {
                DebuggerCommand::Quit => r matches Reply::Quit(victim) && gave_up(
                    *old(self),
                    alive,
                    victim,
                    *final(self),
                ),
                DebuggerCommand::Run(args) => r matches Reply::Launch(passed, victim) && passed
                    == args && gave_up(*old(self), alive, victim, *final(self)),
                DebuggerCommand::Continue => r matches Reply::Resumed(outcome) && ran_on(
                    *old(self),
                    alive,
                    outcome,
                    *final(self),
                ),
                DebuggerCommand::Backtrace => r matches Reply::Trace(outcome) && traced(
                    *old(self),
                    alive,
                    outcome,
                    *final(self),
                ),
                DebuggerCommand::Breakpoint(point) => r matches Reply::BreakpointSet(outcome)
                    && breakpoint_asked(*old(self), alive, point@, outcome, *final(self)),
            },
    {
        if !alive {
            let _ = self.terminate();
        }
        proof {
            if !alive {
                assert(all_deferred(old(self)@.table).dom() =~= old(self)@.table.dom());
                assert(all_deferred(all_deferred(old(self)@.table)) =~= all_deferred(
                    old(self)@.table,
                ));
            }
        }
        match command {
            DebuggerCommand::Quit => Reply::Quit(self.terminate()),
            DebuggerCommand::Run(args) => Reply::Launch(args, self.terminate()),
            DebuggerCommand::Continue => Reply::Resumed(self.resume()),
            DebuggerCommand::Backtrace => Reply::Trace(self.backtrace()),
            DebuggerCommand::Breakpoint(point) => Reply::BreakpointSet(
                self.set_breakpoint(point.as_str()),
            ),
        }
    }
}

/// The answer to `Quit` and to `Run`: the session gives up its target and
/// hands it back as `victim`, if the operating system still knows it.
pub open spec fn gave_up<T: Tracee>(
    before: Debugger<T>,
    alive: bool,
    victim: Option<T>,
    after: Debugger<T>,
) -> bool {
    &&& victim == handed_back(before, alive)
    &&& after@ == before@.without_process()
    &&& after.process() is None
}

/// The answer to `Continue`: without a target that the operating system
/// still knows, the refusal; otherwise the outcome of resuming it. The
/// session is left as the run leaves it.
pub open spec fn ran_on<T: Tracee>(
    before: Debugger<T>,
    alive: bool,
    outcome: Result<Status, DebugError>,
    after: Debugger<T>,
) -> bool {
    &&& after@ == seen(before@, alive).after_run(outcome)
    &&& match handed_back(before, alive) {
        Some(target) => exists|run: T| #[trigger]
            resumed(target, before@.table, outcome, run) && run_kept(after.process(), run),
        None => outcome == Err::<Status, DebugError>(DebugError::NoProcess),
    }
}

/// The answer to `Backtrace`: without a target that the operating system
/// still knows, the refusal; otherwise the outcome of unwinding its stack.
/// The session is left as the command found it.
pub open spec fn traced<T: Tracee>(
    before: Debugger<T>,
    alive: bool,
    outcome: Result<Vec<Frame>, DebugError>,
    after: Debugger<T>,
) -> bool {
    &&& after@ == seen(before@, alive)
    &&& after.process() == handed_back(before, alive)
    &&& match handed_back(before, alive) {
        Some(target) => unwound(
            &target,
            before@.symbols,
            before@.frame_limit as nat,
            trace_of(outcome),
        ),
        None => outcome == Err::<Vec<Frame>, DebugError>(DebugError::NoProcess),
    }
    &&& outcome matches Ok(frames) ==> complete_stack(before@.symbols, frames_of(frames@))
}

/// The answer to `Breakpoint`: the refusal of a specification that resolves
/// to nothing, which leaves the target alone, or the index and the address
/// of the breakpoint, set as
/// [`SessionView::breakpoint_set_at`] and [`target_patched`] say, or the
/// error of the patching.
pub open spec fn breakpoint_asked<T: Tracee>(
    before: Debugger<T>,
    alive: bool,
    point: Seq<char>,
    outcome: Result<(usize, usize), DebugError>,
    after: Debugger<T>,
) -> bool {
    &&& seen(before@, alive).breakpoint_set_at(point, outcome is Ok, after@)
    &&& match address_of(before@.symbols, point) {
        Some(addr) => {
            &&& outcome matches Ok(set) ==> set.0 == before@.table.len() && set.1 == addr
            &&& target_patched(
                seen(before@, alive).table,
                handed_back(before, alive),
                addr,
                match outcome {
                    Ok(_) => Ok::<(), DebugError>(()),
                    Err(e) => Err::<(), DebugError>(e),
                },
                after@.table,
                after.process(),
            )
        },
        None => {
            &&& outcome == Err::<(usize, usize), DebugError>(DebugError::Resolve)
            &&& after.process() == handed_back(before, alive)
        },
    }
}

/// The session as a command finds it: as it was if the operating system
/// still knows the target, without a target otherwise.
pub open spec fn seen(session: SessionView, alive: bool) -> SessionView {
    if alive {
        session
    } else {
        session.without_process()
    }
}

impl Debugger<Inferior> {
    /// Takes the child `pid`, which the caller has just spawned with tracing
    /// requested, into the session and lets it run for the first time.
    ///
    /// The child is waited for. Unless that wait reports a stop by the trace
    /// trap, the launch fails with [`DebugError::Launch`] and the session is
    /// left without a target, as it was. Otherwise the child is launched
    /// into the session as [`Debugger::start`] does.
    pub fn launch(&mut self, pid: i32) -> (r: Result<Status, DebugError>)
        requires
            !old(self)@.live,
        ensures
            old(self)@.well_formed() ==> final(self)@.well_formed(),
            final(self)@.table.dom() == old(self)@.table.dom(),
            exists|outcome: Result<WaitEvent, i32>| #[trigger]
                waited(pid, None, outcome) && if outcome == Ok::<WaitEvent, i32>(
                    WaitEvent::Stopped(SIGTRAP),
                ) {
                    exists|inferior: Inferior| #[trigger]
                        launched(
                            inferior,
                            old(self)@.table,
                            r,
                            final(self)@.table,
                            final(self).process(),
                        ) && inferior.pid() == pid
                } else {
                    r == Err::<Status, DebugError>(DebugError::Launch) && *final(self) == *old(
                        self,
                    )
                },
            final(self)@.live <==> !(r matches Ok(status) && status.terminal()) && r != Err::<
                Status,
                DebugError,
            >(DebugError::Launch),
            final(self)@ == (SessionView {
                live: final(self)@.live,
                table: final(self)@.table,
                ..old(self)@
            }),
    {
        match Inferior::attach(pid) {
            Some(inferior) => {
                let r = self.start(inferior);
                proof {
                    lemma_resume_never_fails_to_launch(
                        inferior,
                        old(self)@.table,
                        r,
                        self@.table,
                        self.process(),
                    );
                }
                r
            },
            None => Err(DebugError::Launch),
        }
    }
}

/// The launch of an inferior that has come up stopped does not fail as a
/// launch: whatever goes wrong afterwards is an error of memory, of
/// registers, of control or of an unexpected status.
pub proof fn lemma_resume_never_fails_to_launch(
    inferior: Inferior,
    before: Map<usize, Breakpoint>,
    outcome: Result<Status, DebugError>,
    after: Map<usize, Breakpoint>,
    process: Option<Inferior>,
)
    requires
        launched(inferior, before, outcome, after, process),
    ensures
        outcome != Err::<Status, DebugError>(DebugError::Launch),
{
    let (patched, table, run) = choose|
        patched: Inferior,
        table: Map<usize, Breakpoint>,
        run: Inferior,
    |
        #![trigger installed_into(inferior, before, table, patched), resumed(patched, table, outcome, run)]
        {
            &&& installed_into(inferior, before, table, patched)
            &&& resumed(patched, table, outcome, run)
            &&& if outcome matches Ok(status) && status.terminal() {
                process is None && after == all_deferred(table)
            } else {
                process == Some(run) && after == table
            }
        };
    lemma_resume_failures(patched, table, outcome, run);
}

} // verus!
