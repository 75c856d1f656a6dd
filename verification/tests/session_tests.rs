use deet::debugger::{cross_breakpoint, resume, Action, Debugger, Event, Halt, Response};
use deet::debugger_command::DebuggerCommand;
use deet::dwarf_data::{DwarfData, Function, Line};
use deet::error::{Error, Fault, LaunchFailure};
use deet::inferior::{Inferior, InstallFailure};
use deet::signal::Signal;
use deet::status::Status;
use deet::tracee::{Registers, Tracee, WaitOutcome};
use std::cell::RefCell;
use std::collections::HashMap;
use std::rc::Rc;

const EIO: i32 = 5;
const ESRCH: i32 = 3;

const GREET: usize = 0x401126;
const MAIN: usize = 0x401146;
const CALL_SITE: usize = 0x401150;
const AFTER_CALL: usize = 0x401155;
const LINE_8: usize = 0x40115a;
const LAST: usize = 0x40115f;
const STACK: usize = 0x7ffd_1000;

/// A simulated child: a few bytes of text, a stack, and the path that its
/// program takes. It runs along the path until it meets a trap byte.
struct Machine {
    memory: HashMap<usize, u8>,
    path: Vec<(usize, usize)>,
    at: usize,
    rip: usize,
    rbp: usize,
    pending: Option<WaitOutcome>,
    forced: Option<WaitOutcome>,
    alive: bool,
    log: Vec<String>,
}

impl Machine {
    fn word_at(&self, addr: usize) -> Option<u64> {
        let mut word: u64 = 0;
        for i in 0..8 {
            let byte = *self.memory.get(&(addr + i))?;
            word |= (byte as u64) << (8 * i);
        }
        Some(word)
    }

    fn put_word(&mut self, addr: usize, word: u64) -> Option<()> {
        for i in 0..8 {
            if !self.memory.contains_key(&(addr + i)) {
                return None;
            }
        }
        for i in 0..8 {
            self.memory.insert(addr + i, (word >> (8 * i)) as u8);
        }
        Some(())
    }

    fn trap() -> Signal {
        Signal::new(5).unwrap()
    }

    fn advance(&mut self) -> bool {
        self.at += 1;
        if self.at >= self.path.len() {
            self.alive = false;
            self.pending = Some(WaitOutcome::Exited(0));
            false
        } else {
            self.rip = self.path[self.at].0;
            self.rbp = self.path[self.at].1;
            true
        }
    }

    fn execute_one(&mut self) -> bool {
        if self.memory.get(&self.rip) == Some(&0xcc) {
            self.rip += 1;
            self.pending = Some(WaitOutcome::Stopped(Machine::trap()));
            false
        } else {
            self.advance()
        }
    }
}

#[derive(Clone)]
struct Fake(Rc<RefCell<Machine>>);

impl Fake {
    fn byte(&self, addr: usize) -> u8 {
        self.0.borrow().memory[&addr]
    }

    fn log(&self) -> Vec<String> {
        self.0.borrow().log.clone()
    }
}

impl Tracee for Fake {
    fn pid(&self) -> i32 {
        4242
    }

    fn wait(&self) -> Result<WaitOutcome, i32> {
        let mut m = self.0.borrow_mut();
        m.log.push("wait".to_string());
        if let Some(outcome) = m.forced.take() {
            m.pending = None;
            return Ok(outcome);
        }
        m.pending.take().ok_or(10)
    }

    fn cont(&self) -> Result<(), i32> {
        let mut m = self.0.borrow_mut();
        m.log.push("cont".to_string());
        if !m.alive {
            return Err(ESRCH);
        }
        while m.execute_one() {}
        Ok(())
    }

    fn step(&self) -> Result<(), i32> {
        let mut m = self.0.borrow_mut();
        m.log.push("step".to_string());
        if !m.alive {
            return Err(ESRCH);
        }
        if m.execute_one() {
            m.pending = Some(WaitOutcome::Stopped(Machine::trap()));
        }
        Ok(())
    }

    fn kill(&self) -> Result<(), i32> {
        let mut m = self.0.borrow_mut();
        m.log.push("kill".to_string());
        if !m.alive {
            return Err(ESRCH);
        }
        m.alive = false;
        m.pending = Some(WaitOutcome::Signaled(Signal::new(9).unwrap()));
        Ok(())
    }

    fn peek(&self, addr: usize) -> Result<u64, i32> {
        let mut m = self.0.borrow_mut();
        m.log.push(format!("peek {:#x}", addr));
        if !m.alive {
            return Err(ESRCH);
        }
        m.word_at(addr).ok_or(EIO)
    }

    fn poke(&self, addr: usize, word: u64) -> Result<(), i32> {
        let mut m = self.0.borrow_mut();
        m.log.push(format!("poke {:#x}", addr));
        if !m.alive {
            return Err(ESRCH);
        }
        m.put_word(addr, word).ok_or(EIO)
    }

    fn registers(&self) -> Result<Registers, i32> {
        let m = self.0.borrow();
        if !m.alive {
            return Err(ESRCH);
        }
        Ok(Registers { rip: m.rip as u64, rbp: m.rbp as u64 })
    }

    fn set_instruction_pointer(&self, rip: u64) -> Result<(), i32> {
        let mut m = self.0.borrow_mut();
        m.log.push(format!("rewind {:#x}", rip));
        if !m.alive {
            return Err(ESRCH);
        }
        m.rip = rip as usize;
        Ok(())
    }
}

/// The target of the scenarios: `main` calls `greet`, which prints and
/// returns. In `greet` the frame pointer is one frame below that of `main`.
fn target() -> Fake {
    let mut memory = HashMap::new();
    for addr in 0x401120..0x401180usize {
        memory.insert(addr, 0x90);
    }
    for addr in STACK - 0x40..STACK + 0x40 {
        memory.insert(addr, 0);
    }
    let main_frame = STACK;
    let greet_frame = STACK - 0x20;
    let mut machine = Machine {
        memory,
        path: vec![
            (MAIN, main_frame),
            (CALL_SITE, main_frame),
            (GREET, greet_frame),
            (GREET + 4, greet_frame),
            (AFTER_CALL, main_frame),
            (LINE_8, main_frame),
            (LAST, main_frame),
        ],
        at: 0,
        rip: MAIN,
        rbp: main_frame,
        pending: Some(WaitOutcome::Stopped(Machine::trap())),
        forced: None,
        alive: true,
        log: Vec::new(),
    };
    machine.put_word(greet_frame, main_frame as u64).unwrap();
    machine.put_word(greet_frame + 8, AFTER_CALL as u64).unwrap();
    Fake(Rc::new(RefCell::new(machine)))
}

fn symbols() -> DwarfData {
    DwarfData::new(
        vec![
            Function { name: "greet".to_string(), address: GREET, text_length: 0x20 },
            Function { name: "main".to_string(), address: MAIN, text_length: 0x30 },
        ],
        vec![
            Line { file: "main.c".to_string(), number: 3, address: GREET },
            Line { file: "main.c".to_string(), number: 6, address: MAIN },
            Line { file: "main.c".to_string(), number: 7, address: CALL_SITE },
            Line { file: "main.c".to_string(), number: 8, address: LINE_8 },
        ],
    )
}

fn launch(fake: &Fake, breakpoints: &[usize]) -> (Inferior<Fake>, Vec<InstallFailure>) {
    let (inferior, outcome) = Inferior::new(fake.clone(), &breakpoints.to_vec());
    (inferior, outcome.unwrap())
}

fn launch_error(fake: Fake) -> Error {
    Inferior::new(fake, &vec![]).1.unwrap_err()
}

fn session() -> Debugger<Fake> {
    Debugger::new("/bin/target", symbols())
}

fn command(session: &mut Debugger<Fake>, command: DebuggerCommand) -> Response {
    session.run(Event::Command(command))
}

fn start_stopped(session: &mut Debugger<Fake>) -> (Fake, Response) {
    command(session, DebuggerCommand::Breakpoint("greet".to_string()));
    start(session)
}

fn start(session: &mut Debugger<Fake>) -> (Fake, Response) {
    let asked = command(session, DebuggerCommand::Run(vec![]));
    assert!(matches!(asked.action, Action::Spawn(_)));
    let fake = target();
    let response = session.run(Event::Spawned(fake.clone()));
    (fake, response)
}

#[test]
fn clean_run_to_completion() {
    let mut session = session();
    let asked = command(&mut session, DebuggerCommand::Run(vec!["-v".to_string()]));
    assert!(asked.lines.is_empty());
    match asked.action {
        Action::Spawn(args) => assert_eq!(args, vec!["-v".to_string()]),
        other => panic!("unexpected action {:?}", other),
    }
    let response = session.run(Event::Spawned(target()));
    assert_eq!(response.lines, vec!["target exited (status 0)".to_string()]);
    assert!(matches!(response.action, Action::Prompt));
    assert!(session.has_inferior());
}

#[test]
fn breakpoint_hit_and_continue_through() {
    let mut session = session();
    let set = command(&mut session, DebuggerCommand::Breakpoint("greet".to_string()));
    assert_eq!(set.lines, vec!["set breakpoint 0 at position 0x401126".to_string()]);
    let (fake, stopped) = start(&mut session);
    assert_eq!(
        stopped.lines,
        vec!["target stopped at 0x401127 by signal SIGTRAP in greet (main.c:3)".to_string()]
    );
    assert_eq!(fake.byte(GREET), 0xcc);
    let done = command(&mut session, DebuggerCommand::Continue);
    assert_eq!(done.lines, vec!["target exited (status 0)".to_string()]);
    assert!(matches!(done.action, Action::Prompt));
}

#[test]
fn crossing_a_breakpoint_restores_rewinds_steps_and_rearms() {
    let mut session = session();
    command(&mut session, DebuggerCommand::Breakpoint("0x401126".to_string()));
    let (fake, _) = start(&mut session);
    let before = fake.log().len();
    command(&mut session, DebuggerCommand::Continue);
    let log = fake.log()[before..].to_vec();
    assert_eq!(
        log,
        vec![
            "peek 0x401120",
            "poke 0x401120",
            "rewind 0x401126",
            "step",
            "wait",
            "peek 0x401120",
            "poke 0x401120",
            "cont",
            "wait",
        ]
    );
    assert_eq!(fake.byte(GREET), 0xcc);
    assert_eq!(fake.byte(GREET + 1), 0x90);
    assert_eq!(fake.byte(GREET - 1), 0x90);
}

#[test]
fn set_breakpoint_after_run() {
    let mut session = session();
    command(&mut session, DebuggerCommand::Breakpoint("greet".to_string()));
    let (fake, _) = start(&mut session);
    let main = command(&mut session, DebuggerCommand::Breakpoint("main".to_string()));
    assert_eq!(main.lines, vec!["set breakpoint 1 at position 0x401146".to_string()]);
    assert_eq!(fake.byte(MAIN), 0xcc);
    let later = command(&mut session, DebuggerCommand::Breakpoint("8".to_string()));
    assert_eq!(later.lines, vec!["set breakpoint 2 at position 0x40115a".to_string()]);
    assert_eq!(fake.byte(LINE_8), 0xcc);
    let stopped = command(&mut session, DebuggerCommand::Continue);
    assert_eq!(
        stopped.lines,
        vec!["target stopped at 0x40115b by signal SIGTRAP in main (main.c:8)".to_string()]
    );
    let done = command(&mut session, DebuggerCommand::Continue);
    assert_eq!(done.lines, vec!["target exited (status 0)".to_string()]);
}

#[test]
fn backtrace_walks_from_greet_to_main() {
    let mut session = session();
    command(&mut session, DebuggerCommand::Breakpoint("greet".to_string()));
    start(&mut session);
    let trace = command(&mut session, DebuggerCommand::BackTrace);
    assert_eq!(
        trace.lines,
        vec![
            "%rip 0x401127 greet (main.c:3)".to_string(),
            "%rip 0x401155 main (main.c:7)".to_string(),
        ]
    );
    assert!(matches!(trace.action, Action::Prompt));
}

#[test]
fn invalid_breakpoint_spec() {
    let mut session = session();
    let refused = command(&mut session, DebuggerCommand::Breakpoint("nosuchfunc".to_string()));
    assert_eq!(refused.lines, vec!["invalid breakpoint format".to_string()]);
    assert_eq!(session.breakpoint_count(), 0);
    let set = command(&mut session, DebuggerCommand::Breakpoint("0x10".to_string()));
    assert_eq!(set.lines, vec!["set breakpoint 0 at position 0x10".to_string()]);
    assert_eq!(session.breakpoint_count(), 1);
}

#[test]
fn rerun_replaces_inferior() {
    let mut session = session();
    command(&mut session, DebuggerCommand::Breakpoint("greet".to_string()));
    command(&mut session, DebuggerCommand::Breakpoint("0x40115a".to_string()));
    let (first, _) = start(&mut session);
    let again = command(&mut session, DebuggerCommand::Run(vec![]));
    assert_eq!(again.lines, vec!["target signaled(killed) by SIGKILL".to_string()]);
    assert!(matches!(again.action, Action::Spawn(_)));
    assert!(!session.has_inferior());
    assert_eq!(first.log().last().unwrap(), "wait");
    let second = target();
    let stopped = session.run(Event::Spawned(second.clone()));
    assert_eq!(
        stopped.lines,
        vec!["target stopped at 0x401127 by signal SIGTRAP in greet (main.c:3)".to_string()]
    );
    assert_eq!(second.byte(GREET), 0xcc);
    assert_eq!(second.byte(LINE_8), 0xcc);
    assert!(session.has_inferior());
}

#[test]
fn ordinals_count_up_from_zero() {
    let mut session = session();
    let specs = ["greet", "0x401126", "7", "main", "0X401126"];
    for (k, spec) in specs.iter().enumerate() {
        let set = command(&mut session, DebuggerCommand::Breakpoint(spec.to_string()));
        let line = set.lines.last().unwrap().clone();
        assert!(line.starts_with(&format!("set breakpoint {} at position 0x", k)), "{}", line);
    }
    assert_eq!(session.breakpoint_count(), 5);
}

#[test]
fn shadowed_addresses_hold_the_trap_byte_while_stopped() {
    let mut session = session();
    let places = [GREET, LINE_8, CALL_SITE + 3];
    for place in places {
        command(&mut session, DebuggerCommand::Breakpoint(format!("{:#x}", place)));
    }
    let (fake, _) = start(&mut session);
    for place in places {
        assert_eq!(fake.byte(place), 0xcc);
    }
    command(&mut session, DebuggerCommand::Continue);
    for place in places {
        assert_eq!(fake.byte(place), 0xcc);
    }
}

#[test]
fn continue_and_backtrace_need_an_inferior() {
    let mut session = session();
    let cont = command(&mut session, DebuggerCommand::Continue);
    assert_eq!(cont.lines, vec!["please run target first".to_string()]);
    let trace = command(&mut session, DebuggerCommand::BackTrace);
    assert_eq!(trace.lines, vec!["please run target first".to_string()]);
    assert!(!session.has_inferior());
}

#[test]
fn quit_without_inferior_just_exits() {
    let mut session = session();
    let quit = command(&mut session, DebuggerCommand::Quit);
    assert!(quit.lines.is_empty());
    assert!(matches!(quit.action, Action::Exit));
}

#[test]
fn quit_terminates_the_inferior() {
    let mut session = session();
    command(&mut session, DebuggerCommand::Breakpoint("greet".to_string()));
    let (fake, _) = start(&mut session);
    let quit = command(&mut session, DebuggerCommand::Quit);
    assert_eq!(quit.lines, vec!["target signaled(killed) by SIGKILL".to_string()]);
    assert!(matches!(quit.action, Action::Exit));
    assert!(!session.has_inferior());
    assert!(fake.log().contains(&"kill".to_string()));
}

#[test]
fn spawn_failure_is_reported() {
    let mut session = session();
    let response = session.run(Event::SpawnFailed);
    assert_eq!(response.lines, vec!["Error starting subprocess".to_string()]);
    assert!(matches!(response.action, Action::Prompt));
}

#[test]
fn launch_fails_when_child_exits_first() {
    let fake = target();
    fake.0.borrow_mut().pending = Some(WaitOutcome::Exited(3));
    let (_, launched) = Inferior::new(fake.clone(), &vec![GREET]);
    assert_eq!(launched, Err(Error::LaunchFailed(LaunchFailure::Exited(3))));
    assert_eq!(fake.byte(GREET), 0x90);
    let mut session = session();
    let fake = target();
    fake.0.borrow_mut().pending = Some(WaitOutcome::Exited(3));
    let response = session.run(Event::Spawned(fake));
    assert_eq!(
        response.lines,
        vec![
            "target programme exited prematurely (status 3)".to_string(),
            "Error starting subprocess".to_string(),
        ]
    );
    assert!(!session.has_inferior());
}

#[test]
fn launch_fails_when_trap_signal_killed_the_child() {
    let fake = target();
    fake.0.borrow_mut().pending = Some(WaitOutcome::Signaled(Signal::new(5).unwrap()));
    assert!(matches!(launch_error(fake), Error::LaunchFailed(LaunchFailure::Signaled(_))));
}

#[test]
fn launch_fails_on_another_stop_signal() {
    let fake = target();
    fake.0.borrow_mut().pending = Some(WaitOutcome::Stopped(Signal::new(19).unwrap()));
    assert!(matches!(launch_error(fake), Error::LaunchFailed(LaunchFailure::Stopped(_))));
}

#[test]
fn launch_fails_when_wait_fails() {
    let fake = target();
    fake.0.borrow_mut().pending = None;
    assert!(matches!(launch_error(fake), Error::LaunchFailed(LaunchFailure::Trace(10))));
    let fake = target();
    fake.0.borrow_mut().pending = Some(WaitOutcome::Other);
    assert!(matches!(launch_error(fake), Error::LaunchFailed(LaunchFailure::WaitFailed)));
}

#[test]
fn launch_skips_breakpoints_that_cannot_be_written() {
    let fake = target();
    let (inferior, failures) = launch(&fake, &[GREET, 0x10, LINE_8]);
    assert_eq!(
        failures,
        vec![InstallFailure { addr: 0x10, error: Error::MemoryAccess(EIO) }]
    );
    assert_eq!(inferior.replaced_value(GREET), Some(0x90));
    assert_eq!(inferior.replaced_value(LINE_8), Some(0x90));
    assert_eq!(inferior.replaced_value(0x10), None);
    assert_eq!(inferior.pid(), 4242);
}

#[test]
fn unwritable_breakpoint_is_kept_and_reported() {
    let mut session = session();
    command(&mut session, DebuggerCommand::Breakpoint("greet".to_string()));
    start(&mut session);
    let set = command(&mut session, DebuggerCommand::Breakpoint("0x10".to_string()));
    assert_eq!(
        set.lines,
        vec![
            "failed to set breakpoint at position 0x10, EIO: I/O error".to_string(),
            "set breakpoint 1 at position 0x10".to_string(),
        ]
    );
    assert_eq!(session.breakpoint_count(), 2);
    let again = command(&mut session, DebuggerCommand::Run(vec![]));
    assert!(matches!(again.action, Action::Spawn(_)));
    let stopped = session.run(Event::Spawned(target()));
    assert_eq!(
        stopped.lines,
        vec![
            "failed to set breakpoint at position 0x10, EIO: I/O error".to_string(),
            "target stopped at 0x401127 by signal SIGTRAP in greet (main.c:3)".to_string(),
        ]
    );
}

#[test]
fn write_byte_patches_one_byte_and_keeps_the_shadow() {
    let fake = target();
    let (mut inferior, _) = launch(&fake, &[]);
    let addr = GREET + 5;
    fake.0.borrow_mut().memory.insert(addr, 0x55);
    assert_eq!(inferior.write_byte(addr, 0xcc), Ok(0x55));
    assert_eq!(fake.byte(addr), 0xcc);
    assert_eq!(fake.byte(addr - 1), 0x90);
    assert_eq!(fake.byte(addr + 1), 0x90);
    assert_eq!(inferior.replaced_value(addr), Some(0x55));
    assert_eq!(inferior.write_byte(addr, 0x55), Ok(0xcc));
    assert_eq!(fake.byte(addr), 0x55);
    assert_eq!(inferior.replaced_value(addr), Some(0x55));
    assert_eq!(inferior.write_byte(addr, 0x11), Ok(0x55));
    assert_eq!(inferior.write_byte(addr, 0x22), Ok(0x11));
    assert_eq!(fake.byte(addr), 0x22);
    assert_eq!(inferior.write_byte(0x10, 0xcc), Err(Error::MemoryAccess(EIO)));
    assert_eq!(inferior.replaced_value(0x10), None);
}

#[test]
fn wait_reads_the_instruction_pointer_of_a_stopped_child() {
    let fake = target();
    let (mut inferior, _) = launch(&fake, &[GREET]);
    let status = inferior.cont().unwrap();
    assert_eq!(status, Status::Stopped(Signal::new(5).unwrap(), GREET + 1));
    fake.0.borrow_mut().pending = Some(WaitOutcome::Other);
    assert_eq!(inferior.wait(), Err(Error::WaitFailed));
    assert_eq!(inferior.wait(), Err(Error::Trace(10)));
}

#[test]
fn step_runs_one_instruction() {
    let fake = target();
    let (mut inferior, _) = launch(&fake, &[]);
    let status = inferior.step().unwrap();
    assert_eq!(status, Status::Stopped(Signal::new(5).unwrap(), CALL_SITE));
}

#[test]
fn terminate_kills_and_waits() {
    let fake = target();
    let (mut inferior, _) = launch(&fake, &[]);
    assert_eq!(inferior.terminate(), Ok(Status::Signaled(Signal::new(9).unwrap())));
    assert_eq!(inferior.terminate(), Err(Error::Trace(10)));
}

#[test]
fn cross_breakpoint_does_nothing_away_from_breakpoints() {
    let fake = target();
    let (mut inferior, _) = launch(&fake, &[GREET]);
    let before = fake.log().len();
    assert_eq!(cross_breakpoint(&mut inferior, MAIN), Ok(()));
    assert_eq!(cross_breakpoint(&mut inferior, 0), Ok(()));
    assert_eq!(fake.log().len(), before);
}

#[test]
fn cross_breakpoint_reports_broken_integrity() {
    let fake = target();
    let (mut inferior, _) = launch(&fake, &[GREET]);
    fake.0.borrow_mut().memory.insert(GREET, 0x41);
    assert_eq!(
        cross_breakpoint(&mut inferior, GREET + 1),
        Err(Fault::Integrity(0x41))
    );
}

#[test]
fn resume_fails_where_registers_cannot_be_read() {
    let fake = target();
    let (mut inferior, _) = launch(&fake, &[]);
    fake.0.borrow_mut().alive = false;
    assert_eq!(resume(&mut inferior), Err(Halt::Failed(Error::Trace(ESRCH))));
}

#[test]
fn continue_after_exit_is_reported_and_the_session_goes_on() {
    let mut session = session();
    start(&mut session);
    let response = command(&mut session, DebuggerCommand::Continue);
    assert_eq!(
        response.lines,
        vec!["failed to run command, ESRCH: No such process".to_string()]
    );
    assert!(matches!(response.action, Action::Prompt));
}

#[test]
fn backtrace_stops_at_a_failed_read() {
    let fake = target();
    let (mut inferior, _) = launch(&fake, &[GREET]);
    inferior.cont().unwrap();
    fake.0.borrow_mut().rbp = 0x10;
    let trace = inferior.backtrace(&symbols());
    assert_eq!(trace.frames, vec![GREET + 1]);
    assert_eq!(trace.error, Some(Error::MemoryAccess(EIO)));
    let (lines, error) = inferior.print_backtrace(&symbols());
    assert_eq!(lines, vec!["%rip 0x401127 greet (main.c:3)".to_string()]);
    assert_eq!(error, Some(Error::MemoryAccess(EIO)));
}

#[test]
fn a_step_that_ends_the_tracee_breaks_the_sequence_off() {
    let mut session = session();
    command(&mut session, DebuggerCommand::Breakpoint("0x40115f".to_string()));
    let (_, stopped) = start(&mut session);
    assert_eq!(
        stopped.lines,
        vec!["target stopped at 0x401160 by signal SIGTRAP in main (main.c:8)".to_string()]
    );
    let response = command(&mut session, DebuggerCommand::Continue);
    assert_eq!(
        response.lines,
        vec!["can not reinstall breakpoint: ESRCH: No such process".to_string()]
    );
    assert!(matches!(response.action, Action::Abort));
}

#[test]
fn two_breakpoints_at_one_address_keep_the_original_byte() {
    let fake = target();
    fake.0.borrow_mut().memory.insert(GREET, 0x55);
    let (inferior, failures) = launch(&fake, &[GREET, GREET]);
    assert!(failures.is_empty());
    assert_eq!(fake.byte(GREET), 0xcc);
    assert_eq!(inferior.replaced_value(GREET), Some(0x55));
}

#[test]
fn a_doubled_breakpoint_is_crossed_like_a_single_one() {
    let mut session = session();
    let first = command(&mut session, DebuggerCommand::Breakpoint("greet".to_string()));
    let second = command(&mut session, DebuggerCommand::Breakpoint("0x401126".to_string()));
    assert_eq!(first.lines, vec!["set breakpoint 0 at position 0x401126".to_string()]);
    assert_eq!(second.lines, vec!["set breakpoint 1 at position 0x401126".to_string()]);
    let (fake, stopped) = start(&mut session);
    assert_eq!(
        stopped.lines,
        vec!["target stopped at 0x401127 by signal SIGTRAP in greet (main.c:3)".to_string()]
    );
    let again = command(&mut session, DebuggerCommand::Breakpoint("greet".to_string()));
    assert_eq!(again.lines, vec!["set breakpoint 2 at position 0x401126".to_string()]);
    let done = command(&mut session, DebuggerCommand::Continue);
    assert_eq!(done.lines, vec!["target exited (status 0)".to_string()]);
    assert!(matches!(done.action, Action::Prompt));
    assert_eq!(fake.byte(GREET), 0xcc);
}

#[test]
fn an_unknown_wait_status_ends_the_session_on_continue() {
    let mut session = session();
    let (fake, _) = start_stopped(&mut session);
    fake.0.borrow_mut().forced = Some(WaitOutcome::Other);
    let response = command(&mut session, DebuggerCommand::Continue);
    assert!(matches!(response.action, Action::Abort));
    assert_eq!(response.lines.len(), 1);
    assert!(response.lines[0].ends_with("wait returned an unexpected status"));
}

#[test]
fn an_unknown_wait_status_ends_the_session_on_quit_and_run() {
    let mut session = session();
    let (fake, _) = start_stopped(&mut session);
    fake.0.borrow_mut().forced = Some(WaitOutcome::Other);
    let response = command(&mut session, DebuggerCommand::Quit);
    assert_eq!(
        response.lines,
        vec!["failed to terminate target, wait returned an unexpected status".to_string()]
    );
    assert!(matches!(response.action, Action::Abort));
    assert!(!session.has_inferior());

    let mut session = self::session();
    let (fake, _) = start_stopped(&mut session);
    fake.0.borrow_mut().forced = Some(WaitOutcome::Other);
    let response = command(&mut session, DebuggerCommand::Run(vec![]));
    assert_eq!(
        response.lines,
        vec!["failed to terminate previous target, wait returned an unexpected status".to_string()]
    );
    assert!(matches!(response.action, Action::Abort));
}

#[test]
fn an_unknown_wait_status_at_launch_ends_the_session() {
    let mut session = session();
    let fake = target();
    fake.0.borrow_mut().pending = Some(WaitOutcome::Other);
    let response = session.run(Event::Spawned(fake));
    assert_eq!(
        response.lines,
        vec![
            "failed to stop target programme, wait returned an unexpected status".to_string(),
            "Error starting subprocess".to_string(),
        ]
    );
    assert!(matches!(response.action, Action::Abort));
    assert!(!session.has_inferior());
}

#[test]
fn a_failed_wait_is_reported_and_the_session_goes_on() {
    let mut session = session();
    let fake = target();
    fake.0.borrow_mut().pending = None;
    let response = session.run(Event::Spawned(fake));
    assert_eq!(
        response.lines,
        vec![
            "failed to stop target programme, ECHILD: No child processes".to_string(),
            "Error starting subprocess".to_string(),
        ]
    );
    assert!(matches!(response.action, Action::Prompt));
    assert!(!session.has_inferior());
}

#[test]
fn the_error_that_ends_a_stack_walk_is_shown() {
    let mut session = session();
    let (fake, _) = start_stopped(&mut session);
    fake.0.borrow_mut().rbp = 0x10;
    let trace = command(&mut session, DebuggerCommand::BackTrace);
    assert_eq!(
        trace.lines,
        vec![
            "%rip 0x401127 greet (main.c:3)".to_string(),
            "failed to walk the stack, EIO: I/O error".to_string(),
        ]
    );
    assert!(matches!(trace.action, Action::Prompt));
    fake.0.borrow_mut().alive = false;
    let trace = command(&mut session, DebuggerCommand::BackTrace);
    assert_eq!(
        trace.lines,
        vec!["failed to walk the stack, ESRCH: No such process".to_string()]
    );
}

#[test]
fn a_backtrace_reads_the_two_words_of_each_frame_below_the_entry() {
    let mut session = session();
    let (fake, _) = start_stopped(&mut session);
    let before = fake.log().len();
    command(&mut session, DebuggerCommand::BackTrace);
    assert_eq!(fake.log()[before..].to_vec(), vec!["peek 0x7ffd0fe8", "peek 0x7ffd0fe0"]);
    assert_eq!(fake.byte(GREET), 0xcc);
}

#[test]
fn a_child_is_not_taken_while_an_inferior_is_held() {
    let mut session = session();
    let (first, _) = start_stopped(&mut session);
    let second = target();
    let response = session.run(Event::Spawned(second.clone()));
    assert_eq!(response.lines, vec!["Error starting subprocess".to_string()]);
    assert!(matches!(response.action, Action::Prompt));
    assert!(second.log().is_empty());
    assert!(session.has_inferior());
    let done = command(&mut session, DebuggerCommand::Continue);
    assert_eq!(done.lines, vec!["target exited (status 0)".to_string()]);
    assert!(first.log().contains(&"cont".to_string()));
}

#[test]
fn a_breakpoint_in_a_live_inferior_patches_one_byte_of_its_word() {
    let mut session = session();
    let (fake, _) = start_stopped(&mut session);
    let word: u64 = 0x8877_6655_4433_2211;
    fake.0.borrow_mut().put_word(0x401130, word).unwrap();
    let before = fake.log().len();
    let set = command(&mut session, DebuggerCommand::Breakpoint("0x401133".to_string()));
    assert_eq!(set.lines, vec!["set breakpoint 1 at position 0x401133".to_string()]);
    assert_eq!(fake.0.borrow().word_at(0x401130), Some(0x8877_6655_cc33_2211));
    assert_eq!(fake.log()[before..].to_vec(), vec!["peek 0x401130", "poke 0x401130"]);
}

#[test]
fn launch_asks_for_the_wait_and_the_patches_and_does_not_continue() {
    let fake = target();
    let (inferior, _) = launch(&fake, &[GREET, LINE_8]);
    assert_eq!(
        fake.log(),
        vec!["wait", "peek 0x401120", "poke 0x401120", "peek 0x401158", "poke 0x401158"]
    );
    assert_eq!(inferior.replaced_value(GREET), Some(0x90));
    assert_eq!(inferior.replaced_value(LINE_8), Some(0x90));
}
