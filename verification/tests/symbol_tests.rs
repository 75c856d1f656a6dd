use deet::debugger::{breakpoint_line, ends_session, failure_line, install_failure_line};
use deet::debugger::{install_failure_lines, Debugger, Halt};
use deet::error::Fault;
use deet::dwarf_data::{DwarfData, Function, Line};
use deet::error::Error;
use deet::inferior::{frame_line, frame_lines, is_entry, return_slot, trap_site, InstallFailure};
use deet::process::{outcome_of, Process, RawWait};
use deet::signal::Signal;
use deet::status::{check_first_stop, Status};
use deet::tracee::{Tracee, WaitOutcome};
use deet::error::LaunchFailure;

fn symbols() -> DwarfData {
    DwarfData::new(
        vec![
            Function { name: "greet".to_string(), address: 0x1000, text_length: 0x20 },
            Function { name: "main".to_string(), address: 0x1020, text_length: 0x40 },
            Function { name: "greet".to_string(), address: 0x3000, text_length: 0x10 },
            Function { name: "top".to_string(), address: usize::MAX - 3, text_length: 0x10 },
        ],
        vec![
            Line { file: "main.c".to_string(), number: 3, address: 0x1000 },
            Line { file: "main.c".to_string(), number: 4, address: 0x1008 },
            Line { file: "main.c".to_string(), number: 7, address: 0x1020 },
            Line { file: "util.c".to_string(), number: 7, address: 0x3000 },
            Line { file: "main.c".to_string(), number: 9, address: 0x1008 },
        ],
    )
}

#[test]
fn function_lookup_by_address() {
    let table = symbols();
    assert_eq!(table.get_function_from_addr(0x1000), Some("greet".to_string()));
    assert_eq!(table.get_function_from_addr(0x101f), Some("greet".to_string()));
    assert_eq!(table.get_function_from_addr(0x1020), Some("main".to_string()));
    assert_eq!(table.get_function_from_addr(0x105f), Some("main".to_string()));
    assert_eq!(table.get_function_from_addr(0x1060), None);
    assert_eq!(table.get_function_from_addr(0xfff), None);
    assert_eq!(table.get_function_from_addr(usize::MAX), Some("top".to_string()));
    assert_eq!(table.function_name(0x1060), "unknown");
    assert_eq!(table.function_name(0x1021), "main");
}

#[test]
fn function_lookup_by_name_takes_the_first() {
    let table = symbols();
    assert_eq!(table.get_addr_for_function("greet"), Some(0x1000));
    assert_eq!(table.get_addr_for_function("main"), Some(0x1020));
    assert_eq!(table.get_addr_for_function("Main"), None);
    assert_eq!(table.get_addr_for_function(""), None);
}

#[test]
fn line_lookup_by_number() {
    let table = symbols();
    assert_eq!(table.get_addr_for_line(None, 3), Some(0x1000));
    assert_eq!(table.get_addr_for_line(None, 7), Some(0x1020));
    assert_eq!(table.get_addr_for_line(Some("util.c"), 7), Some(0x3000));
    assert_eq!(table.get_addr_for_line(Some("main.c"), 7), Some(0x1020));
    assert_eq!(table.get_addr_for_line(Some("util.c"), 3), None);
    assert_eq!(table.get_addr_for_line(None, 5), None);
}

#[test]
fn line_lookup_by_address_takes_the_nearest_below() {
    let table = symbols();
    assert_eq!(table.get_line_from_addr(0x1000), Some("main.c:3".to_string()));
    assert_eq!(table.get_line_from_addr(0x1007), Some("main.c:3".to_string()));
    assert_eq!(table.get_line_from_addr(0x1008), Some("main.c:4".to_string()));
    assert_eq!(table.get_line_from_addr(0x2fff), Some("main.c:7".to_string()));
    assert_eq!(table.get_line_from_addr(0x3001), Some("util.c:7".to_string()));
    assert_eq!(table.get_line_from_addr(0xfff), None);
    assert_eq!(table.location(0xfff), "unknown");
    assert_eq!(table.location(0x1021), "main.c:7");
    let empty = DwarfData::new(vec![], vec![]);
    assert_eq!(empty.get_line_from_addr(0x1000), None);
    assert_eq!(empty.get_function_from_addr(0x1000), None);
}

#[test]
fn frames_are_shown_with_function_and_line() {
    let table = symbols();
    assert_eq!(frame_line(&table, 0x1009), "%rip 0x1009 greet (main.c:4)");
    assert_eq!(frame_line(&table, 0x10), "%rip 0x10 unknown (unknown)");
    assert_eq!(
        frame_lines(&table, &vec![0x1009, 0x1030]),
        vec!["%rip 0x1009 greet (main.c:4)", "%rip 0x1030 main (main.c:7)"]
    );
    assert!(is_entry(&table, 0x1030));
    assert!(!is_entry(&table, 0x1009));
    assert!(!is_entry(&table, 0x10));
}

#[test]
fn frame_arithmetic_wraps_and_stops_at_zero() {
    assert_eq!(return_slot(0x7ffd_1000), 0x7ffd_1008);
    assert_eq!(return_slot(usize::MAX), 7);
    assert_eq!(trap_site(0x401127), Some(0x401126));
    assert_eq!(trap_site(1), Some(0));
    assert_eq!(trap_site(0), None);
}

#[test]
fn addresses_are_parsed_by_prefix_digits_or_name() {
    let session: Debugger<Process> = Debugger::new("/bin/true", symbols());
    assert_eq!(session.target_path(), "/bin/true");
    assert_eq!(session.parse_addr("0x401126"), Some(0x401126));
    assert_eq!(session.parse_addr("0X1f"), Some(0x1f));
    assert_eq!(session.parse_addr("0x"), None);
    assert_eq!(session.parse_addr("0xzz"), None);
    assert_eq!(session.parse_addr("0x+1f"), None);
    assert_eq!(session.parse_addr("7"), Some(0x1020));
    assert_eq!(session.parse_addr("5"), None);
    assert_eq!(session.parse_addr("main"), Some(0x1020));
    assert_eq!(session.parse_addr("greet"), Some(0x1000));
    assert_eq!(session.parse_addr("nosuchfunc"), None);
    assert_eq!(session.parse_addr(""), None);
    assert_eq!(session.parse_addr("99999999999999999999999"), None);
}

#[test]
fn statuses_are_reported_in_one_line() {
    let session: Debugger<Process> = Debugger::new("/bin/true", symbols());
    assert_eq!(session.print_status(Status::Exited(0)), "target exited (status 0)");
    assert_eq!(session.print_status(Status::Exited(-7)), "target exited (status -7)");
    assert_eq!(
        session.print_status(Status::Signaled(Signal::new(11).unwrap())),
        "target signaled(killed) by SIGSEGV"
    );
    assert_eq!(
        session.print_status(Status::Stopped(Signal::new(5).unwrap(), 0x1001)),
        "target stopped at 0x1001 by signal SIGTRAP in greet (main.c:3)"
    );
    assert_eq!(
        session.print_status(Status::Stopped(Signal::new(2).unwrap(), 0x10)),
        "target stopped at 0x10 by signal SIGINT in unknown (unknown)"
    );
}

#[test]
fn report_lines_have_their_formats() {
    assert_eq!(breakpoint_line(0, 0x401126), "set breakpoint 0 at position 0x401126");
    assert_eq!(breakpoint_line(12, 0), "set breakpoint 12 at position 0x0");
    assert_eq!(
        install_failure_line(&InstallFailure { addr: 0x10, error: Error::MemoryAccess(5) }),
        "failed to set breakpoint at position 0x10, EIO: I/O error"
    );
    assert_eq!(
        failure_line("failed to run command", &Error::Trace(3)),
        "failed to run command, ESRCH: No such process"
    );
}

#[test]
fn first_stop_must_be_on_the_trap_signal() {
    let trap = Signal::new(5).unwrap();
    let stop = Signal::new(19).unwrap();
    assert_eq!(check_first_stop(Ok(Status::Stopped(trap, 0x1000))), Ok(()));
    assert_eq!(
        check_first_stop(Ok(Status::Stopped(stop, 0x1000))),
        Err(Error::LaunchFailed(LaunchFailure::Stopped(stop)))
    );
    assert_eq!(
        check_first_stop(Ok(Status::Exited(1))),
        Err(Error::LaunchFailed(LaunchFailure::Exited(1)))
    );
    assert_eq!(
        check_first_stop(Ok(Status::Signaled(trap))),
        Err(Error::LaunchFailed(LaunchFailure::Signaled(trap)))
    );
    assert_eq!(
        check_first_stop(Err(Error::Trace(10))),
        Err(Error::LaunchFailed(LaunchFailure::Trace(10)))
    );
    assert_eq!(
        check_first_stop(Err(Error::WaitFailed)),
        Err(Error::LaunchFailed(LaunchFailure::WaitFailed))
    );
}

#[test]
fn wait_outcomes_become_statuses() {
    let trap = Signal::new(5).unwrap();
    assert_eq!(Status::from_wait(WaitOutcome::Exited(2), 0), Ok(Status::Exited(2)));
    assert_eq!(Status::from_wait(WaitOutcome::Signaled(trap), 9), Ok(Status::Signaled(trap)));
    assert_eq!(Status::from_wait(WaitOutcome::Stopped(trap), 9), Ok(Status::Stopped(trap, 9)));
    assert_eq!(Status::from_wait(WaitOutcome::Other, 9), Err(Error::WaitFailed));
}

#[test]
fn a_process_is_one_process() {
    assert!(Process::new(0).is_none());
    assert!(Process::new(-1).is_none());
    let this = nix::unistd::getpid().as_raw();
    let process = Process::new(this).unwrap();
    assert_eq!(process.pid(), this);
}

#[test]
fn requests_on_an_untraced_process_fail() {
    let this = nix::unistd::getpid().as_raw();
    let process = Process::new(this).unwrap();
    assert!(process.peek(0).is_err());
    assert!(process.poke(0, 0).is_err());
    assert!(process.registers().is_err());
    assert!(process.set_instruction_pointer(0).is_err());
    assert!(process.step().is_err());
    assert!(process.cont().is_err());
    assert!(process.wait().is_err());
}

#[test]
fn wait_reports_keep_their_code_and_their_named_signal() {
    let trap = Signal::new(5).unwrap();
    assert_eq!(outcome_of(RawWait::Exited(7)), WaitOutcome::Exited(7));
    assert_eq!(outcome_of(RawWait::Signaled(5)), WaitOutcome::Signaled(trap));
    assert_eq!(outcome_of(RawWait::Stopped(5)), WaitOutcome::Stopped(trap));
    assert_eq!(outcome_of(RawWait::Stopped(0)), WaitOutcome::Other);
    assert_eq!(outcome_of(RawWait::Signaled(4096)), WaitOutcome::Other);
    assert_eq!(outcome_of(RawWait::Other), WaitOutcome::Other);
}

#[test]
fn only_an_unknown_wait_status_ends_the_session() {
    assert!(ends_session(&Error::WaitFailed));
    assert!(ends_session(&Error::LaunchFailed(LaunchFailure::WaitFailed)));
    assert!(!ends_session(&Error::Trace(3)));
    assert!(!ends_session(&Error::MemoryAccess(5)));
    assert!(!ends_session(&Error::LaunchFailed(LaunchFailure::Exited(0))));
    assert!(!ends_session(&Error::CommandParse));
}

#[test]
fn the_end_of_a_run_is_reported_by_its_kind() {
    let session: Debugger<Process> = Debugger::new("/bin/true", symbols());
    assert_eq!(
        session.report_resumed(Ok(Status::Exited(0))),
        ("target exited (status 0)".to_string(), false)
    );
    assert_eq!(
        session.report_resumed(Err(Halt::Failed(Error::Trace(3)))),
        ("failed to run command, ESRCH: No such process".to_string(), false)
    );
    assert_eq!(
        session.report_resumed(Err(Halt::Failed(Error::WaitFailed))),
        ("failed to run command, wait returned an unexpected status".to_string(), true)
    );
    assert_eq!(
        session.report_resumed(Err(Halt::Fatal(Fault::Integrity(0x90)))),
        ("failed to resume original byte".to_string(), true)
    );
    assert_eq!(
        session.report_ended("failed to terminate target", Ok(Status::Exited(1))),
        ("target exited (status 1)".to_string(), false)
    );
    assert_eq!(
        session.report_ended("failed to terminate target", Err(Error::Trace(10))),
        ("failed to terminate target, ECHILD: No child processes".to_string(), false)
    );
    assert_eq!(
        session.report_ended("failed to terminate target", Err(Error::WaitFailed)),
        ("failed to terminate target, wait returned an unexpected status".to_string(), true)
    );
}

#[test]
fn unwritten_breakpoints_get_a_line_each() {
    assert!(install_failure_lines(&vec![]).is_empty());
    assert_eq!(
        install_failure_lines(&vec![
            InstallFailure { addr: 0x10, error: Error::MemoryAccess(5) },
            InstallFailure { addr: 0x20, error: Error::MemoryAccess(3) },
        ]),
        vec![
            "failed to set breakpoint at position 0x10, EIO: I/O error",
            "failed to set breakpoint at position 0x20, ESRCH: No such process",
        ]
    );
}
