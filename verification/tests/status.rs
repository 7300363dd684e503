use std::collections::HashMap;

use deet::breakpoint::Breakpoint;
use deet::debugger::Debugger;
use deet::dwarf_data::DwarfData;
use deet::inferior::Inferior;
use deet::status::{DebugError, Status, WaitEvent, SIGTRAP};
use deet::tracee::Tracee;
use nix::sys::wait::WaitPidFlag;

/// A process id that belongs to no process.
const NOBODY: i32 = 0x7fff_fff0;

fn stranger() -> Inferior {
    Inferior::after_first_wait(NOBODY, WaitEvent::Stopped(SIGTRAP)).unwrap()
}

#[test]
fn exits_and_fatal_signals_are_terminal() {
    assert!(Status::Exited(0).is_terminal());
    assert!(Status::Exited(-1).is_terminal());
    assert!(Status::Signaled(9).is_terminal());
    assert!(!Status::Stopped(SIGTRAP, 0x401000).is_terminal());
    assert!(!Status::Stopped(19, 0).is_terminal());
}

#[test]
fn wait_events_become_statuses() {
    assert_eq!(WaitEvent::Exited(3).into_status(0x40), Ok(Status::Exited(3)));
    assert_eq!(WaitEvent::Signaled(11, true).into_status(0x40), Ok(Status::Signaled(11)));
    assert_eq!(WaitEvent::Signaled(9, false).into_status(0x40), Ok(Status::Signaled(9)));
    assert_eq!(WaitEvent::Stopped(5).into_status(0x40), Ok(Status::Stopped(5, 0x40)));
    assert_eq!(WaitEvent::Stopped(19).into_status(0), Ok(Status::Stopped(19, 0)));
    assert_eq!(WaitEvent::PtraceEvent(5, 1).into_status(0x40), Err(DebugError::UnexpectedStatus));
    assert_eq!(WaitEvent::PtraceSyscall.into_status(0x40), Err(DebugError::UnexpectedStatus));
    assert_eq!(WaitEvent::Continued.into_status(0x40), Err(DebugError::UnexpectedStatus));
    assert_eq!(WaitEvent::StillAlive.into_status(0x40), Err(DebugError::UnexpectedStatus));
}

#[test]
fn only_a_plain_stop_is_a_stop() {
    assert!(WaitEvent::Stopped(5).is_stop());
    assert!(!WaitEvent::Exited(0).is_stop());
    assert!(!WaitEvent::Signaled(5, false).is_stop());
    assert!(!WaitEvent::PtraceEvent(5, 1).is_stop());
    assert!(!WaitEvent::PtraceSyscall.is_stop());
    assert!(!WaitEvent::Continued.is_stop());
    assert!(!WaitEvent::StillAlive.is_stop());
}

#[test]
fn the_trace_trap_is_signal_five() {
    assert_eq!(SIGTRAP, 5);
    assert_eq!(SIGTRAP, nix::sys::signal::Signal::SIGTRAP as i32);
}

#[test]
fn only_a_child_stopped_by_the_trace_trap_becomes_an_inferior() {
    assert_eq!(Inferior::after_first_wait(77, WaitEvent::Stopped(SIGTRAP)).map(|i| i.pid()), Some(77));
    assert!(Inferior::after_first_wait(77, WaitEvent::Stopped(19)).is_none());
    assert!(Inferior::after_first_wait(77, WaitEvent::Exited(0)).is_none());
    assert!(Inferior::after_first_wait(77, WaitEvent::Signaled(SIGTRAP, false)).is_none());
    assert!(Inferior::after_first_wait(77, WaitEvent::PtraceEvent(SIGTRAP, 1)).is_none());
    assert!(Inferior::after_first_wait(77, WaitEvent::StillAlive).is_none());
}

#[test]
fn a_process_that_is_no_child_cannot_be_taken_over() {
    assert!(Inferior::attach(i32::MAX).is_none());
    let mut table = HashMap::new();
    table.insert(0x40, Breakpoint { addr: 0x40, orig_byte: Some(1) });
    let before = table.clone();
    assert!(Inferior::new(i32::MAX, &mut table).is_none());
    assert_eq!(table, before);
}

#[test]
fn memory_of_a_process_that_is_not_traced_cannot_be_reached() {
    let mut inferior = stranger();
    assert!(matches!(inferior.read_word(0x1000), Err(DebugError::Memory(_))));
    assert!(matches!(inferior.write_byte(0x1003, 0xcc), Err(DebugError::Memory(_))));
    assert_eq!(inferior.pid(), NOBODY);
    let (outcome, inferior) = inferior.write_word(0x1000, 0);
    assert!(matches!(outcome, Err(DebugError::Memory(_))));
    assert_eq!(inferior.pid(), NOBODY);
}

#[test]
fn registers_of_a_process_that_is_not_traced_cannot_be_reached() {
    let inferior = stranger();
    assert!(matches!(inferior.get_rip(), Err(DebugError::Register(_))));
    assert!(matches!(inferior.get_rbp(), Err(DebugError::Register(_))));
    let (outcome, inferior) = inferior.set_rip(0x1000);
    assert!(matches!(outcome, Err(DebugError::Register(_))));
    assert_eq!(inferior.pid(), NOBODY);
}

#[test]
fn a_process_that_is_not_traced_cannot_be_set_going() {
    let (outcome, inferior) = stranger().single_step();
    assert!(matches!(outcome, Err(DebugError::Control(_))));
    let (outcome, mut inferior) = inferior.resume();
    assert!(matches!(outcome, Err(DebugError::Control(_))));
    assert!(matches!(inferior.wait(None), Err(DebugError::Control(_))));
    assert!(matches!(
        inferior.wait(Some(WaitPidFlag::WNOHANG)),
        Err(DebugError::Control(_))
    ));
    let mut table = HashMap::new();
    table.insert(0x40, Breakpoint { addr: 0x40, orig_byte: Some(1) });
    let before = table.clone();
    assert!(matches!(
        inferior.continue_exec(&mut table),
        Err(DebugError::Register(_))
    ));
    assert_eq!(table, before);
    assert!(inferior.check_at_breakpoint(0x40, &table));
    assert!(!inferior.check_at_breakpoint(0x41, &table));
}

#[test]
fn the_stack_of_a_process_that_is_not_traced_cannot_be_walked() {
    let inferior = stranger();
    let data = DwarfData::new(vec![], vec![]);
    assert!(matches!(inferior.backtrace(&data, 16), Err(DebugError::Register(_))));
}

#[test]
fn a_launch_fails_when_the_child_does_not_come_up_stopped() {
    let mut session: Debugger<Inferior> = Debugger::new("./prog", DwarfData::new(vec![], vec![]));
    session.set_breakpoint("*0x40").unwrap();
    let before = session.breakpoints().clone();
    assert_eq!(session.launch(NOBODY), Err(DebugError::Launch));
    assert!(!session.has_process());
    assert_eq!(session.breakpoints(), &before);
    assert_eq!(session.resume(), Err(DebugError::NoProcess));
}
