use std::cell::{Cell, RefCell};
use std::ops::Deref;
use std::rc::Rc;
use std::collections::HashMap;

use deet::breakpoint::{
    addresses, breakpoint_hit, check_at_breakpoint, defer_all, install_all, install_one,
    remove_one, Breakpoint, TRAP_OPCODE,
};
use deet::debugger::{Debugger, Reply};
use deet::debugger_command::DebuggerCommand;
use deet::dwarf_data::{DwarfData, Function, Line};
use deet::engine::{continue_exec, state_of, State};
use deet::status::{DebugError, Status, SIGTRAP};
use deet::tracee::{write_byte, Tracee};
use deet::unwind::{backtrace, resolve_frame, Frame};

const BASE: usize = 0x1000;
const JUMP_BACK: u8 = 0xeb;
const STACK: usize = 0x8000;

#[derive(Clone, Debug, PartialEq, Eq)]
enum Call {
    ReadWord(usize),
    WriteWord(usize, u64),
    GetRip,
    GetRbp,
    SetRip(usize),
    SingleStep,
    Resume,
}

/// A make-believe target. Its program is a run of one-byte instructions
/// starting at `BASE`; running off its end exits with `exit_code`. The trap
/// opcode stops it one byte further on, `JUMP_BACK` jumps to `BASE` as long
/// as `loops_left` is not used up, every other byte just executes. Executed
/// instructions are recorded with their address and opcode. A second region
/// at `STACK` holds words for the unwinder.
struct Core {
    code: RefCell<Vec<u8>>,
    stack: RefCell<Vec<u8>>,
    rip: Cell<usize>,
    rbp: Cell<usize>,
    exit_code: Cell<i32>,
    loops_left: Cell<usize>,
    executed: RefCell<Vec<(usize, u8)>>,
    calls: RefCell<Vec<Call>>,
    fail_writes: Cell<bool>,
    fail_reads: Cell<bool>,
    fail_registers: Cell<bool>,
}

/// A handle on a make-believe target. All handles made from one another
/// are handles on the same target.
#[derive(Clone)]
struct Sim(Rc<Core>);

impl Deref for Sim {
    type Target = Core;

    fn deref(&self) -> &Core {
        &self.0
    }
}

impl Sim {
    fn new(code: Vec<u8>) -> Sim {
        let mut padded = code;
        while padded.len() % 8 != 0 {
            padded.push(0x90);
        }
        Sim(Rc::new(Core {
            code: RefCell::new(padded),
            stack: RefCell::new(vec![0; 256]),
            rip: Cell::new(BASE),
            rbp: Cell::new(STACK),
            exit_code: Cell::new(0),
            loops_left: Cell::new(0),
            executed: RefCell::new(Vec::new()),
            calls: RefCell::new(Vec::new()),
            fail_writes: Cell::new(false),
            fail_reads: Cell::new(false),
            fail_registers: Cell::new(false),
        }))
    }
}

impl Core {
    fn in_code(&self, addr: usize) -> bool {
        addr >= BASE && addr + 8 <= BASE + self.code.borrow().len()
    }

    fn in_stack(&self, addr: usize) -> bool {
        addr >= STACK && addr + 8 <= STACK + self.stack.borrow().len()
    }

    fn byte(&self, addr: usize) -> u8 {
        self.code.borrow()[addr - BASE]
    }

    fn put_stack_word(&self, addr: usize, word: u64) {
        let at = addr - STACK;
        self.stack.borrow_mut()[at..at + 8].copy_from_slice(&word.to_le_bytes());
    }

    /// Executes the instruction at `rip`. Returns the status if the target
    /// stopped or ended by it.
    fn execute_one(&self) -> Option<Status> {
        let rip = self.rip.get();
        let opcode = self.byte(rip);
        if opcode == TRAP_OPCODE {
            self.rip.set(rip + 1);
            return Some(Status::Stopped(SIGTRAP, rip + 1));
        }
        self.executed.borrow_mut().push((rip, opcode));
        if opcode == JUMP_BACK && self.loops_left.get() > 0 {
            self.loops_left.set(self.loops_left.get() - 1);
            self.rip.set(BASE);
        } else {
            self.rip.set(rip + 1);
        }
        if self.rip.get() >= BASE + self.code.borrow().len() {
            return Some(Status::Exited(self.exit_code.get()));
        }
        None
    }
}

impl Tracee for Sim {
    fn read_word(&self, addr: usize) -> Result<u64, DebugError> {
        self.calls.borrow_mut().push(Call::ReadWord(addr));
        if self.fail_reads.get() {
            return Err(DebugError::Memory(5));
        }
        let mut word = [0u8; 8];
        if self.in_code(addr) {
            word.copy_from_slice(&self.code.borrow()[addr - BASE..addr - BASE + 8]);
        } else if self.in_stack(addr) {
            word.copy_from_slice(&self.stack.borrow()[addr - STACK..addr - STACK + 8]);
        } else {
            return Err(DebugError::Memory(14));
        }
        Ok(u64::from_le_bytes(word))
    }

    fn write_word(self, addr: usize, word: u64) -> (Result<(), DebugError>, Sim) {
        self.calls.borrow_mut().push(Call::WriteWord(addr, word));
        let outcome = if self.fail_writes.get() {
            Err(DebugError::Memory(5))
        } else if self.in_code(addr) {
            let at = addr - BASE;
            self.code.borrow_mut()[at..at + 8].copy_from_slice(&word.to_le_bytes());
            Ok(())
        } else if self.in_stack(addr) {
            let at = addr - STACK;
            self.stack.borrow_mut()[at..at + 8].copy_from_slice(&word.to_le_bytes());
            Ok(())
        } else {
            Err(DebugError::Memory(14))
        };
        (outcome, self)
    }

    fn get_rip(&self) -> Result<usize, DebugError> {
        self.calls.borrow_mut().push(Call::GetRip);
        if self.fail_registers.get() {
            return Err(DebugError::Register(3));
        }
        Ok(self.rip.get())
    }

    fn get_rbp(&self) -> Result<usize, DebugError> {
        self.calls.borrow_mut().push(Call::GetRbp);
        if self.fail_registers.get() {
            return Err(DebugError::Register(3));
        }
        Ok(self.rbp.get())
    }

    fn set_rip(self, rip: usize) -> (Result<(), DebugError>, Sim) {
        self.calls.borrow_mut().push(Call::SetRip(rip));
        if self.fail_registers.get() {
            return (Err(DebugError::Register(3)), self);
        }
        self.rip.set(rip);
        (Ok(()), self)
    }

    fn single_step(self) -> (Result<Status, DebugError>, Sim) {
        self.calls.borrow_mut().push(Call::SingleStep);
        let status = match self.execute_one() {
            Some(status) => status,
            None => Status::Stopped(SIGTRAP, self.rip.get()),
        };
        (Ok(status), self)
    }

    fn resume(self) -> (Result<Status, DebugError>, Sim) {
        self.calls.borrow_mut().push(Call::Resume);
        loop {
            if let Some(status) = self.execute_one() {
                return (Ok(status), self);
            }
        }
    }
}

fn program() -> Vec<u8> {
    vec![0x10, 0x11, 0x12, 0x13, 0x14, 0x15, 0x16, 0x17, 0x18, 0x19, 0x1a, 0x1b]
}

fn plain_trace(code: &[u8]) -> Vec<(usize, u8)> {
    let sim = Sim::new(code.to_vec());
    let status = sim.clone().resume().0.unwrap();
    assert_eq!(status, Status::Exited(0));
    let trace = sim.executed.borrow().clone();
    trace
}

fn table_at(addrs: &[usize]) -> HashMap<usize, Breakpoint> {
    let mut table = HashMap::new();
    for addr in addrs {
        table.insert(*addr, Breakpoint { addr: *addr, orig_byte: None });
    }
    table
}

fn symbols() -> DwarfData {
    let function = |name: &str, address: usize, text_length: usize| Function {
        name: name.to_string(),
        file: "prog.c".to_string(),
        address,
        text_length,
    };
    let line = |number: usize, address: usize| Line {
        file: "prog.c".to_string(),
        number,
        address,
    };
    DwarfData::new(
        vec![
            function("leaf", 0x1000, 0x10),
            function("middle", 0x1010, 0x10),
            function("main", 0x1020, 0x20),
        ],
        vec![
            line(3, 0x1000),
            line(4, 0x1008),
            line(8, 0x1010),
            line(9, 0x1018),
            line(14, 0x1020),
            line(15, 0x1030),
        ],
    )
}

#[test]
fn write_byte_returns_the_old_byte_and_changes_only_that_byte() {
    let sim = Sim::new(vec![0x11, 0x22, 0x33, 0x44, 0x55, 0x66, 0x77, 0x88]);
    let old = write_byte(sim.clone(), BASE + 5, 0xcc).0.unwrap();
    assert_eq!(old, 0x66);
    assert_eq!(*sim.code.borrow(), vec![0x11, 0x22, 0x33, 0x44, 0x55, 0xcc, 0x77, 0x88]);
    assert_eq!(
        *sim.calls.borrow(),
        vec![Call::ReadWord(BASE), Call::WriteWord(BASE, 0x8877_cc55_4433_2211)]
    );
}

#[test]
fn write_byte_then_read_gives_the_new_byte_and_writing_back_restores_the_word() {
    for offset in 0..16 {
        let sim = Sim::new((0..16).map(|i| 0xa0 + i as u8).collect());
        let addr = BASE + offset;
        let aligned = addr - addr % 8;
        let before = sim.read_word(aligned).unwrap();
        let old = write_byte(sim.clone(), addr, 0x5a).0.unwrap();
        assert_eq!(old, 0xa0 + offset as u8);
        let after = sim.read_word(aligned).unwrap();
        assert_eq!(after.to_le_bytes()[addr % 8], 0x5a);
        let again = write_byte(sim.clone(), addr, old).0.unwrap();
        assert_eq!(again, 0x5a);
        assert_eq!(sim.read_word(aligned).unwrap(), before);
    }
}

#[test]
fn write_byte_does_not_write_when_the_read_fails() {
    let sim = Sim::new(program());
    sim.fail_reads.set(true);
    assert_eq!(write_byte(sim.clone(), BASE + 1, 0xcc).0, Err(DebugError::Memory(5)));
    assert_eq!(*sim.calls.borrow(), vec![Call::ReadWord(BASE)]);
    assert_eq!(sim.code.borrow()[..12], program()[..]);
}

#[test]
fn write_byte_reports_a_failed_write() {
    let sim = Sim::new(program());
    sim.fail_writes.set(true);
    assert_eq!(write_byte(sim.clone(), BASE + 1, 0xcc).0, Err(DebugError::Memory(5)));
    assert_eq!(write_byte(sim.clone(), 0x10, 0xcc).0, Err(DebugError::Memory(14)));
}

#[test]
fn install_all_patches_every_breakpoint_and_saves_the_bytes() {
    let sim = Sim::new(program());
    let mut table = table_at(&[BASE + 2, BASE + 9]);
    let mut report = install_all(sim.clone(), &mut table).0;
    report.sort_by_key(|entry| entry.0);
    assert_eq!(report, vec![(BASE + 2, Ok(0x12)), (BASE + 9, Ok(0x19))]);
    assert_eq!(table.len(), 2);
    assert_eq!(table[&(BASE + 2)], Breakpoint { addr: BASE + 2, orig_byte: Some(0x12) });
    assert_eq!(table[&(BASE + 9)], Breakpoint { addr: BASE + 9, orig_byte: Some(0x19) });
    assert_eq!(sim.byte(BASE + 2), TRAP_OPCODE);
    assert_eq!(sim.byte(BASE + 9), TRAP_OPCODE);
    assert_eq!(sim.byte(BASE + 3), 0x13);
}

#[test]
fn install_all_defers_what_it_cannot_patch() {
    let sim = Sim::new(program());
    let mut table = HashMap::new();
    table.insert(BASE + 1, Breakpoint { addr: BASE + 1, orig_byte: Some(0x77) });
    table.insert(0x10, Breakpoint { addr: 0x10, orig_byte: Some(0x78) });
    let mut report = install_all(sim.clone(), &mut table).0;
    report.sort_by_key(|entry| entry.0);
    assert_eq!(report, vec![(0x10, Err(DebugError::Memory(14))), (BASE + 1, Ok(0x11))]);
    assert_eq!(table[&0x10], Breakpoint { addr: 0x10, orig_byte: None });
    assert_eq!(table[&(BASE + 1)], Breakpoint { addr: BASE + 1, orig_byte: Some(0x11) });
}

#[test]
fn install_one_without_a_target_defers() {
    let mut table = HashMap::new();
    assert_eq!(install_one::<Sim>(None, &mut table, BASE + 4).0, Ok(()));
    assert_eq!(table.len(), 1);
    assert_eq!(table[&(BASE + 4)], Breakpoint { addr: BASE + 4, orig_byte: None });
    assert_eq!(install_one::<Sim>(None, &mut table, BASE + 4).0, Ok(()));
    assert_eq!(table.len(), 1);
    assert_eq!(table[&(BASE + 4)], Breakpoint { addr: BASE + 4, orig_byte: None });
}

#[test]
fn install_one_with_a_target_patches_once() {
    let sim = Sim::new(program());
    let mut table = HashMap::new();
    assert_eq!(install_one(Some(sim.clone()), &mut table, BASE + 4).0, Ok(()));
    assert_eq!(table[&(BASE + 4)], Breakpoint { addr: BASE + 4, orig_byte: Some(0x14) });
    assert_eq!(sim.byte(BASE + 4), TRAP_OPCODE);
    let calls_after_first = sim.calls.borrow().len();
    assert_eq!(install_one(Some(sim.clone()), &mut table, BASE + 4).0, Ok(()));
    assert_eq!(table.len(), 1);
    assert_eq!(table[&(BASE + 4)], Breakpoint { addr: BASE + 4, orig_byte: Some(0x14) });
    assert_eq!(sim.calls.borrow().len(), calls_after_first);
}

#[test]
fn install_one_patches_a_deferred_entry_into_a_live_target() {
    let sim = Sim::new(program());
    let mut table = table_at(&[BASE + 6]);
    assert_eq!(install_one(Some(sim.clone()), &mut table, BASE + 6).0, Ok(()));
    assert_eq!(table[&(BASE + 6)], Breakpoint { addr: BASE + 6, orig_byte: Some(0x16) });
}

#[test]
fn install_one_leaves_the_table_alone_when_patching_fails() {
    let sim = Sim::new(program());
    sim.fail_writes.set(true);
    let mut table = table_at(&[BASE + 1]);
    assert_eq!(install_one(Some(sim.clone()), &mut table, BASE + 6).0, Err(DebugError::Memory(5)));
    assert_eq!(table, table_at(&[BASE + 1]));
}

#[test]
fn remove_one_restores_the_byte_and_drops_the_entry() {
    let sim = Sim::new(program());
    let mut table = HashMap::new();
    install_one(Some(sim.clone()), &mut table, BASE + 3).0.unwrap();
    assert_eq!(sim.byte(BASE + 3), TRAP_OPCODE);
    let removed = remove_one(Some(sim.clone()), &mut table, BASE + 3).0;
    assert_eq!(removed, Ok(Some(Breakpoint { addr: BASE + 3, orig_byte: Some(0x13) })));
    assert_eq!(sim.byte(BASE + 3), 0x13);
    assert!(table.is_empty());
    assert_eq!(remove_one(Some(sim.clone()), &mut table, BASE + 3).0, Ok(None));
    let mut deferred = table_at(&[BASE + 3]);
    assert_eq!(
        remove_one::<Sim>(None, &mut deferred, BASE + 3).0,
        Ok(Some(Breakpoint { addr: BASE + 3, orig_byte: None }))
    );
    assert!(deferred.is_empty());
}

#[test]
fn remove_one_keeps_the_entry_when_restoring_fails() {
    let sim = Sim::new(program());
    let mut table = HashMap::new();
    install_one(Some(sim.clone()), &mut table, BASE + 3).0.unwrap();
    sim.fail_writes.set(true);
    assert_eq!(remove_one(Some(sim.clone()), &mut table, BASE + 3).0, Err(DebugError::Memory(5)));
    assert_eq!(table[&(BASE + 3)], Breakpoint { addr: BASE + 3, orig_byte: Some(0x13) });
}

#[test]
fn defer_all_forgets_every_saved_byte() {
    let mut table = HashMap::new();
    table.insert(1, Breakpoint { addr: 1, orig_byte: Some(9) });
    table.insert(2, Breakpoint { addr: 2, orig_byte: None });
    table.insert(3, Breakpoint { addr: 7, orig_byte: Some(8) });
    defer_all(&mut table);
    assert_eq!(table, table_at(&[1, 2, 3]));
}

#[test]
fn addresses_lists_each_key_once() {
    let table = table_at(&[5, 1, 9]);
    let mut addrs = addresses(&table);
    addrs.sort();
    assert_eq!(addrs, vec![1, 5, 9]);
    assert_eq!(addresses(&HashMap::new()), Vec::<usize>::new());
}

#[test]
fn breakpoint_hit_looks_one_byte_back() {
    let mut table = HashMap::new();
    table.insert(0x40, Breakpoint { addr: 0x40, orig_byte: Some(0x55) });
    table.insert(0x50, Breakpoint { addr: 0x50, orig_byte: None });
    table.insert(usize::MAX, Breakpoint { addr: usize::MAX, orig_byte: Some(1) });
    assert_eq!(breakpoint_hit(0x41, &table), Some((0x40, 0x55)));
    assert_eq!(breakpoint_hit(0x40, &table), None);
    assert_eq!(breakpoint_hit(0x42, &table), None);
    assert_eq!(breakpoint_hit(0x51, &table), None);
    assert_eq!(breakpoint_hit(0, &table), None);
    assert!(check_at_breakpoint(0x50, &table));
    assert!(!check_at_breakpoint(0x51, &table));
}

#[test]
fn resume_without_breakpoints_runs_to_the_exit_code() {
    let sim = Sim::new(program());
    sim.exit_code.set(42);
    let table = HashMap::new();
    assert_eq!(continue_exec(sim.clone(), &table).0, Ok(Status::Exited(42)));
    assert_eq!(*sim.calls.borrow(), vec![Call::GetRip, Call::Resume]);
    assert_eq!(*sim.executed.borrow(), plain_trace(&program()));
}

#[test]
fn resume_from_a_breakpoint_restores_rewinds_steps_repatches_and_continues() {
    let sim = Sim::new(program());
    let mut table = table_at(&[BASE + 2, BASE + 3]);
    install_all(sim.clone(), &mut table);
    assert_eq!(continue_exec(sim.clone(), &table).0, Ok(Status::Stopped(SIGTRAP, BASE + 3)));
    sim.calls.borrow_mut().clear();
    let patched = sim.read_word(BASE).unwrap();
    let original = u64::from_le_bytes([0x10, 0x11, 0x12, 0xcc, 0x14, 0x15, 0x16, 0x17]);
    sim.calls.borrow_mut().clear();
    assert_eq!(continue_exec(sim.clone(), &table).0, Ok(Status::Stopped(SIGTRAP, BASE + 4)));
    assert_eq!(
        *sim.calls.borrow(),
        vec![
            Call::GetRip,
            Call::ReadWord(BASE),
            Call::WriteWord(BASE, original),
            Call::SetRip(BASE + 2),
            Call::SingleStep,
            Call::ReadWord(BASE),
            Call::WriteWord(BASE, patched),
            Call::Resume,
        ]
    );
    assert_eq!(sim.byte(BASE + 2), TRAP_OPCODE);
    assert_eq!(*sim.executed.borrow(), vec![(BASE, 0x10), (BASE + 1, 0x11), (BASE + 2, 0x12)]);
}

#[test]
fn a_run_with_breakpoints_executes_what_a_run_without_executes() {
    let sim = Sim::new(program());
    sim.exit_code.set(7);
    let mut table = table_at(&[BASE, BASE + 4, BASE + 5, BASE + 11]);
    install_all(sim.clone(), &mut table);
    let saved = table.clone();
    let mut stops = Vec::new();
    loop {
        match continue_exec(sim.clone(), &table).0.unwrap() {
            Status::Stopped(signal, rip) => {
                assert_eq!(signal, SIGTRAP);
                stops.push(rip);
            }
            Status::Exited(code) => {
                assert_eq!(code, 7);
                break;
            }
            Status::Signaled(_) => unreachable!(),
        }
        for addr in saved.keys() {
            assert_eq!(sim.byte(*addr), TRAP_OPCODE);
        }
    }
    assert_eq!(stops, vec![BASE + 1, BASE + 5, BASE + 6, BASE + 12]);
    assert_eq!(*sim.executed.borrow(), plain_trace(&program()));
    assert_eq!(table, saved);
}

#[test]
fn a_breakpoint_in_a_loop_stops_every_time_round() {
    let code = vec![0x20, 0x21, 0x22, JUMP_BACK, 0x24];
    let plain = Sim::new(code.clone());
    plain.loops_left.set(5);
    assert_eq!(plain.clone().resume().0, Ok(Status::Exited(0)));

    let sim = Sim::new(code);
    sim.loops_left.set(5);
    let mut table = table_at(&[BASE + 1]);
    install_all(sim.clone(), &mut table);
    let mut stops = 0;
    loop {
        match continue_exec(sim.clone(), &table).0.unwrap() {
            Status::Stopped(_, rip) => {
                assert_eq!(rip, BASE + 2);
                assert_eq!(sim.byte(BASE + 1), TRAP_OPCODE);
                assert_eq!(table[&(BASE + 1)].orig_byte, Some(0x21));
                stops += 1;
            }
            Status::Exited(_) => break,
            Status::Signaled(_) => unreachable!(),
        }
    }
    assert_eq!(stops, 6);
    assert_eq!(*sim.executed.borrow(), *plain.executed.borrow());
}

#[test]
fn resume_returns_at_once_when_the_step_ends_the_target() {
    let sim = Sim::new(vec![0x30, 0x31, 0x32, 0x33, 0x34, 0x35, 0x36, 0x37]);
    sim.exit_code.set(3);
    let mut table = table_at(&[BASE + 7]);
    install_all(sim.clone(), &mut table);
    assert_eq!(continue_exec(sim.clone(), &table).0, Ok(Status::Stopped(SIGTRAP, BASE + 8)));
    sim.calls.borrow_mut().clear();
    assert_eq!(continue_exec(sim.clone(), &table).0, Ok(Status::Exited(3)));
    let calls = sim.calls.borrow().clone();
    assert_eq!(calls.last(), Some(&Call::SingleStep));
    assert!(!calls.contains(&Call::Resume));
    assert_eq!(sim.byte(BASE + 7), 0x37);
}

#[test]
fn resume_ignores_a_deferred_breakpoint_behind_the_instruction_pointer() {
    let sim = Sim::new(program());
    sim.rip.set(BASE + 3);
    let table = table_at(&[BASE + 2]);
    assert_eq!(continue_exec(sim.clone(), &table).0, Ok(Status::Exited(0)));
    assert_eq!(*sim.calls.borrow(), vec![Call::GetRip, Call::Resume]);
}

#[test]
fn resume_stops_at_the_first_failure() {
    let sim = Sim::new(program());
    sim.fail_registers.set(true);
    assert_eq!(continue_exec(sim.clone(), &HashMap::new()).0, Err(DebugError::Register(3)));
    assert_eq!(*sim.calls.borrow(), vec![Call::GetRip]);

    let sim = Sim::new(program());
    let mut table = table_at(&[BASE + 2]);
    install_all(sim.clone(), &mut table);
    continue_exec(sim.clone(), &table).0.unwrap();
    sim.calls.borrow_mut().clear();
    sim.fail_writes.set(true);
    assert_eq!(continue_exec(sim.clone(), &table).0, Err(DebugError::Memory(5)));
    let calls = sim.calls.borrow().clone();
    assert!(!calls.contains(&Call::SingleStep));
    assert!(!calls.contains(&Call::Resume));
    assert_eq!(table[&(BASE + 2)].orig_byte, Some(0x12));
}

fn three_deep() -> Sim {
    let sim = Sim::new(vec![0x90; 0x40]);
    sim.rip.set(0x1004);
    sim.rbp.set(STACK + 0x10);
    sim.put_stack_word(STACK + 0x10, (STACK + 0x30) as u64);
    sim.put_stack_word(STACK + 0x18, 0x101a);
    sim.put_stack_word(STACK + 0x30, (STACK + 0x50) as u64);
    sim.put_stack_word(STACK + 0x38, 0x1033);
    sim.put_stack_word(STACK + 0x50, 0);
    sim.put_stack_word(STACK + 0x58, 0x7777);
    sim
}

fn frame(address: usize, function: &str, number: usize, line_address: usize) -> Frame {
    Frame {
        address,
        function: function.to_string(),
        line: Line { file: "prog.c".to_string(), number, address: line_address },
    }
}

#[test]
fn backtrace_three_calls_deep_ends_at_main() {
    let sim = three_deep();
    let frames = backtrace(&sim, &symbols(), usize::MAX).unwrap();
    assert_eq!(
        frames,
        vec![
            frame(0x1004, "leaf", 3, 0x1000),
            frame(0x101a, "middle", 9, 0x1018),
            frame(0x1033, "main", 15, 0x1030),
        ]
    );
    assert_eq!(
        *sim.calls.borrow(),
        vec![
            Call::GetRip,
            Call::GetRbp,
            Call::ReadWord(STACK + 0x18),
            Call::ReadWord(STACK + 0x10),
            Call::ReadWord(STACK + 0x38),
            Call::ReadWord(STACK + 0x30),
        ]
    );
}

#[test]
fn backtrace_inside_main_is_one_frame() {
    let sim = three_deep();
    sim.rip.set(0x1020);
    let frames = backtrace(&sim, &symbols(), 1).unwrap();
    assert_eq!(frames, vec![frame(0x1020, "main", 14, 0x1020)]);
    assert_eq!(*sim.calls.borrow(), vec![Call::GetRip, Call::GetRbp]);
}

#[test]
fn backtrace_gives_up_at_the_frame_limit() {
    let sim = three_deep();
    assert_eq!(backtrace(&sim, &symbols(), 2), Err(DebugError::TooDeep));
    assert_eq!(backtrace(&sim, &symbols(), 0), Err(DebugError::TooDeep));
    assert_eq!(backtrace(&sim, &symbols(), 3).map(|frames| frames.len()), Ok(3));
}

#[test]
fn backtrace_fails_on_an_unknown_address() {
    let sim = three_deep();
    sim.put_stack_word(STACK + 0x18, 0x5000);
    assert_eq!(backtrace(&sim, &symbols(), usize::MAX), Err(DebugError::Unresolved(0x5000)));
    assert_eq!(
        resolve_frame(&symbols(), 0x0fff),
        Err(DebugError::Unresolved(0x0fff))
    );
    assert_eq!(resolve_frame(&symbols(), 0x1010), Ok(frame(0x1010, "middle", 8, 0x1010)));
}

#[test]
fn backtrace_fails_when_memory_cannot_be_read() {
    let sim = three_deep();
    sim.rbp.set(0x20);
    assert_eq!(backtrace(&sim, &symbols(), usize::MAX), Err(DebugError::Memory(14)));
    let sim = three_deep();
    sim.fail_registers.set(true);
    assert_eq!(backtrace(&sim, &symbols(), usize::MAX), Err(DebugError::Register(3)));
}

#[test]
fn backtrace_survives_a_frame_base_at_the_top_of_memory() {
    let sim = three_deep();
    sim.rbp.set(usize::MAX - 3);
    assert_eq!(backtrace(&sim, &symbols(), usize::MAX), Err(DebugError::Memory(14)));
    assert_eq!(sim.calls.borrow().last(), Some(&Call::ReadWord(4)));
}

#[test]
fn a_new_session_has_no_process_and_no_breakpoints() {
    let session: Debugger<Sim> = Debugger::new("./prog", symbols());
    assert!(!session.has_process());
    assert!(session.breakpoints().is_empty());
    assert_eq!(session.target(), "./prog");
    assert_eq!(session.debug_data(), &symbols());
}

#[test]
fn resume_and_backtrace_without_a_process_are_refused() {
    let mut session: Debugger<Sim> = Debugger::new("./prog", symbols());
    session.set_breakpoint("*0x1002").unwrap();
    let before = session.breakpoints().clone();
    assert_eq!(session.resume(), Err(DebugError::NoProcess));
    assert_eq!(session.backtrace(), Err(DebugError::NoProcess));
    assert!(!session.has_process());
    assert_eq!(session.breakpoints(), &before);
}

#[test]
fn a_breakpoint_set_twice_is_in_the_table_once() {
    let mut session: Debugger<Sim> = Debugger::new("./prog", symbols());
    assert_eq!(session.set_breakpoint("*0x1002"), Ok((0, 0x1002)));
    let once = session.breakpoints().clone();
    assert_eq!(session.set_breakpoint("*0x1002"), Ok((1, 0x1002)));
    assert_eq!(session.breakpoints(), &once);
    assert_eq!(session.breakpoints().len(), 1);
    assert_eq!(session.set_breakpoint("*1002"), Ok((1, 0x1002)));
    assert_eq!(session.breakpoints().len(), 1);

    session.start(Sim::new(program())).unwrap();
    let installed = session.breakpoints().clone();
    assert_eq!(installed[&0x1002].orig_byte, Some(0x12));
    assert_eq!(session.set_breakpoint("*0x1002"), Ok((1, 0x1002)));
    assert_eq!(session.breakpoints(), &installed);
    assert_eq!(session.set_breakpoint("*0x1007"), Ok((1, 0x1007)));
    let two = session.breakpoints().clone();
    assert_eq!(two[&0x1007].orig_byte, Some(0x17));
    assert_eq!(session.set_breakpoint("*0x1007"), Ok((2, 0x1007)));
    assert_eq!(session.breakpoints(), &two);
}

#[test]
fn breakpoints_are_resolved_through_the_symbol_tables() {
    let mut session: Debugger<Sim> = Debugger::new("./prog", symbols());
    assert_eq!(session.set_breakpoint("middle"), Ok((0, 0x1010)));
    assert_eq!(session.set_breakpoint("9"), Ok((1, 0x1018)));
    assert_eq!(session.set_breakpoint("10"), Ok((2, 0x1020)));
    assert_eq!(session.set_breakpoint("nowhere"), Err(DebugError::Resolve));
    assert_eq!(session.set_breakpoint("16"), Err(DebugError::Resolve));
    assert_eq!(session.set_breakpoint("*xyz"), Err(DebugError::Resolve));
    assert_eq!(session.set_breakpoint("*"), Err(DebugError::Resolve));
    assert_eq!(session.breakpoints().len(), 3);
}

#[test]
fn deferred_breakpoints_are_installed_at_the_start() {
    let mut session: Debugger<Sim> = Debugger::new("./prog", symbols());
    session.set_breakpoint("*0x1003").unwrap();
    session.set_breakpoint("*0x1009").unwrap();
    assert_eq!(session.breakpoints()[&0x1003].orig_byte, None);
    assert_eq!(session.start(Sim::new(program())), Ok(Status::Stopped(SIGTRAP, 0x1004)));
    assert!(session.has_process());
    assert_eq!(session.breakpoints()[&0x1003].orig_byte, Some(0x13));
    assert_eq!(session.breakpoints()[&0x1009].orig_byte, Some(0x19));
    assert_eq!(session.resume(), Ok(Status::Stopped(SIGTRAP, 0x100a)));
    assert_eq!(session.resume(), Ok(Status::Exited(0)));
    assert!(!session.has_process());
    assert_eq!(session.breakpoints().len(), 2);
    assert_eq!(session.breakpoints()[&0x1003].orig_byte, None);
    assert_eq!(session.breakpoints()[&0x1009].orig_byte, None);
    assert_eq!(session.resume(), Err(DebugError::NoProcess));
}

#[test]
fn a_session_without_breakpoints_runs_the_target_to_its_exit_code() {
    let mut session: Debugger<Sim> = Debugger::new("./prog", symbols());
    let sim = Sim::new(program());
    sim.exit_code.set(17);
    assert_eq!(session.start(sim), Ok(Status::Exited(17)));
    assert!(!session.has_process());
}

#[test]
fn resume_after_terminate_is_refused() {
    let mut session: Debugger<Sim> = Debugger::new("./prog", symbols());
    session.set_breakpoint("*0x1003").unwrap();
    session.start(Sim::new(program())).unwrap();
    assert!(session.has_process());
    let victim = session.terminate();
    assert!(victim.is_some());
    assert!(!session.has_process());
    assert_eq!(session.resume(), Err(DebugError::NoProcess));
    assert_eq!(session.backtrace(), Err(DebugError::NoProcess));
    assert_eq!(session.breakpoints()[&0x1003].orig_byte, None);
    assert!(session.terminate().is_none());
}

#[test]
fn a_failed_resume_keeps_the_target() {
    let mut session: Debugger<Sim> = Debugger::new("./prog", symbols());
    let sim = Sim::new(program());
    sim.fail_registers.set(true);
    assert_eq!(session.start(sim), Err(DebugError::Register(3)));
    assert!(session.has_process());
    assert_eq!(session.resume(), Err(DebugError::Register(3)));
    assert!(session.has_process());
}

#[test]
fn the_session_walks_the_stack_of_its_target() {
    let mut session: Debugger<Sim> = Debugger::new("./prog", symbols());
    let sim = three_deep();
    sim.code.borrow_mut()[4] = TRAP_OPCODE;
    sim.rip.set(0x1003);
    assert_eq!(session.start(sim), Ok(Status::Stopped(SIGTRAP, 0x1005)));
    let frames = session.backtrace().unwrap();
    assert_eq!(frames.len(), 3);
    assert_eq!(frames[0], frame(0x1005, "leaf", 3, 0x1000));
    assert_eq!(frames[2].function, "main");
    session.set_max_frames(2);
    assert_eq!(session.backtrace(), Err(DebugError::TooDeep));
}

#[test]
fn run_dispatches_the_commands_of_the_prompt() {
    let mut session: Debugger<Sim> = Debugger::new("./prog", symbols());
    match session.run(DebuggerCommand::Continue, false) {
        Reply::Resumed(outcome) => assert_eq!(outcome, Err(DebugError::NoProcess)),
        _ => unreachable!(),
    }
    match session.run(DebuggerCommand::Backtrace, false) {
        Reply::Trace(outcome) => assert_eq!(outcome, Err(DebugError::NoProcess)),
        _ => unreachable!(),
    }
    match session.run(DebuggerCommand::Breakpoint("*0x1005".to_string()), false) {
        Reply::BreakpointSet(outcome) => assert_eq!(outcome, Ok((0, 0x1005))),
        _ => unreachable!(),
    }
    match session.run(DebuggerCommand::Run(vec!["a".to_string(), "b".to_string()]), false) {
        Reply::Launch(args, victim) => {
            assert_eq!(args, vec!["a".to_string(), "b".to_string()]);
            assert!(victim.is_none());
        }
        _ => unreachable!(),
    }
    assert_eq!(session.start(Sim::new(program())), Ok(Status::Stopped(SIGTRAP, 0x1006)));
    match session.run(DebuggerCommand::Breakpoint("*0x1008".to_string()), true) {
        Reply::BreakpointSet(outcome) => assert_eq!(outcome, Ok((1, 0x1008))),
        _ => unreachable!(),
    }
    assert_eq!(session.breakpoints()[&0x1008].orig_byte, Some(0x18));
    match session.run(DebuggerCommand::Continue, true) {
        Reply::Resumed(outcome) => assert_eq!(outcome, Ok(Status::Stopped(SIGTRAP, 0x1009))),
        _ => unreachable!(),
    }
    match session.run(DebuggerCommand::Run(vec![]), true) {
        Reply::Launch(args, victim) => {
            assert!(args.is_empty());
            assert_eq!(victim.map(|sim| sim.rip.get()), Some(0x1009));
        }
        _ => unreachable!(),
    }
    assert!(!session.has_process());
    assert_eq!(session.breakpoints()[&0x1008].orig_byte, None);
    match session.run(DebuggerCommand::Quit, true) {
        Reply::Quit(victim) => assert!(victim.is_none()),
        _ => unreachable!(),
    }
}

#[test]
fn run_forgets_a_target_that_is_no_longer_alive() {
    let mut session: Debugger<Sim> = Debugger::new("./prog", symbols());
    session.set_breakpoint("*0x1003").unwrap();
    session.start(Sim::new(program())).unwrap();
    match session.run(DebuggerCommand::Continue, false) {
        Reply::Resumed(outcome) => assert_eq!(outcome, Err(DebugError::NoProcess)),
        _ => unreachable!(),
    }
    assert!(!session.has_process());
    assert_eq!(session.breakpoints()[&0x1003].orig_byte, None);
    session.start(Sim::new(program())).unwrap();
    match session.run(DebuggerCommand::Quit, false) {
        Reply::Quit(victim) => assert!(victim.is_none()),
        _ => unreachable!(),
    }
    session.start(Sim::new(program())).unwrap();
    match session.run(DebuggerCommand::Quit, true) {
        Reply::Quit(victim) => assert!(victim.is_some()),
        _ => unreachable!(),
    }
}

#[test]
fn a_stop_is_classified_by_the_breakpoint_behind_it() {
    let mut table = HashMap::new();
    table.insert(0x40, Breakpoint { addr: 0x40, orig_byte: Some(0x55) });
    table.insert(0x50, Breakpoint { addr: 0x50, orig_byte: None });
    assert_eq!(
        state_of(Status::Stopped(SIGTRAP, 0x41), &table),
        State::StoppedAtBreakpoint(0x40)
    );
    assert_eq!(
        state_of(Status::Stopped(SIGTRAP, 0x51), &table),
        State::StoppedAtOtherSignal(SIGTRAP)
    );
    assert_eq!(state_of(Status::Stopped(11, 0x40), &table), State::StoppedAtOtherSignal(11));
    assert_eq!(state_of(Status::Stopped(2, 0), &table), State::StoppedAtOtherSignal(2));
    assert_eq!(state_of(Status::Exited(9), &table), State::Exited(9));
    assert_eq!(state_of(Status::Signaled(9), &table), State::Signaled(9));
}
