use deet::debugger_command::{is_whitespace, split_words, DebuggerCommand};
use deet::error::{Error, Fault, LaunchFailure};
use deet::signal::{Signal, SIGTRAP};
use deet::text::{parse_decimal, parse_hex, to_decimal, to_decimal_signed, to_hex, to_hex_address};

#[test]
fn hexadecimal_has_no_leading_zeros() {
    assert_eq!(to_hex(0), "0");
    assert_eq!(to_hex(0x401126), "401126");
    assert_eq!(to_hex(0xdead_beef), "deadbeef");
    assert_eq!(to_hex(usize::MAX), format!("{:x}", usize::MAX));
    assert_eq!(to_hex_address(0), "0x0");
    assert_eq!(to_hex_address(0x7ffd_1000), "0x7ffd1000");
    assert_eq!(to_hex_address(usize::MAX), format!("{:#x}", usize::MAX));
}

#[test]
fn decimal_numbers_are_written_with_their_sign() {
    assert_eq!(to_decimal(0), "0");
    assert_eq!(to_decimal(9), "9");
    assert_eq!(to_decimal(10), "10");
    assert_eq!(to_decimal(4096), "4096");
    assert_eq!(to_decimal(usize::MAX), usize::MAX.to_string());
    assert_eq!(to_decimal_signed(0), "0");
    assert_eq!(to_decimal_signed(-1), "-1");
    assert_eq!(to_decimal_signed(i32::MAX), i32::MAX.to_string());
    assert_eq!(to_decimal_signed(i32::MIN), i32::MIN.to_string());
}

#[test]
fn numbers_are_digits_only_and_fit_a_word() {
    assert_eq!(parse_hex("401126"), Some(0x401126));
    assert_eq!(parse_hex("deadBEEF"), Some(0xdead_beef));
    assert_eq!(parse_hex("0"), Some(0));
    assert_eq!(parse_hex("000a"), Some(10));
    assert_eq!(parse_hex(""), None);
    assert_eq!(parse_hex("+1f"), None);
    assert_eq!(parse_hex("1g"), None);
    assert_eq!(parse_hex("0x10"), None);
    assert_eq!(parse_decimal("42"), Some(42));
    assert_eq!(parse_decimal("007"), Some(7));
    assert_eq!(parse_decimal(""), None);
    assert_eq!(parse_decimal("4a"), None);
    assert_eq!(parse_decimal("-4"), None);
    assert_eq!(parse_decimal("+4"), None);
    assert_eq!(parse_decimal(" 4"), None);
    assert_eq!(parse_hex("ffffffffffffffff"), Some(usize::MAX));
    assert_eq!(parse_hex("10000000000000000"), None);
    assert_eq!(parse_decimal("18446744073709551615"), Some(usize::MAX));
    assert_eq!(parse_decimal("18446744073709551616"), None);
    assert_eq!(parse_decimal("99999999999999999999999"), None);
}

#[test]
fn signals_have_the_names_of_nix() {
    assert_eq!(SIGTRAP, nix::sys::signal::Signal::SIGTRAP as i32);
    let trap = Signal::new(SIGTRAP).unwrap();
    assert_eq!(trap.name(), "SIGTRAP");
    assert_eq!(trap.number(), 5);
    assert!(trap.is_trap());
    let kill = Signal::new(nix::sys::signal::Signal::SIGKILL as i32).unwrap();
    assert_eq!(kill.name(), "SIGKILL");
    assert!(!kill.is_trap());
    assert_eq!(Signal::new(11).unwrap().name(), "SIGSEGV");
    assert!(Signal::new(0).is_none());
    assert!(Signal::new(-5).is_none());
    assert!(Signal::new(4096).is_none());
}

#[test]
fn errors_say_what_nix_says_of_the_errno() {
    let esrch = nix::errno::Errno::ESRCH;
    assert_eq!(Error::MemoryAccess(esrch as i32).message(), esrch.to_string());
    assert_eq!(Error::MemoryAccess(3).message(), "ESRCH: No such process");
    assert_eq!(Error::Trace(10).message(), "ECHILD: No child processes");
    assert_ne!(Error::Trace(10).message(), Error::Trace(3).message());
    assert_eq!(Error::WaitFailed.message(), "wait returned an unexpected status");
    assert_eq!(Error::CommandParse.message(), "Unrecognized command.");
    assert_eq!(
        Error::LaunchFailed(LaunchFailure::Exited(1)).message(),
        "target programme exited prematurely (status 1)"
    );
}

#[test]
fn launch_failures_have_their_lines() {
    let trap = Signal::new(5).unwrap();
    let stop = Signal::new(19).unwrap();
    assert_eq!(
        LaunchFailure::Exited(-2).message(),
        "target programme exited prematurely (status -2)"
    );
    assert_eq!(LaunchFailure::Signaled(trap).message(), "target programme killed by SIGTRAP");
    assert_eq!(LaunchFailure::Signaled(stop).message(), "failed to create inferior");
    assert_eq!(LaunchFailure::Stopped(stop).message(), "failed to create inferior");
    assert_eq!(
        LaunchFailure::Trace(10).message(),
        "failed to stop target programme, ECHILD: No child processes"
    );
    assert_eq!(
        LaunchFailure::WaitFailed.message(),
        "failed to stop target programme, wait returned an unexpected status"
    );
}

#[test]
fn faults_name_the_step_that_failed() {
    let cause = Error::Trace(3);
    assert_eq!(
        Fault::RestoreByte(Error::MemoryAccess(3)).message(),
        "can not resume original byte: ESRCH: No such process"
    );
    assert_eq!(Fault::Integrity(0x90).message(), "failed to resume original byte");
    assert_eq!(Fault::Rewind(cause).message(), "can not set %rip: ESRCH: No such process");
    assert_eq!(Fault::Step(cause).message(), "can not step target: ESRCH: No such process");
    assert_eq!(
        Fault::AwaitStep(Error::WaitFailed).message(),
        "can not stop after stepping: wait returned an unexpected status"
    );
    assert_eq!(
        Fault::Rearm(Error::MemoryAccess(3)).message(),
        "can not reinstall breakpoint: ESRCH: No such process"
    );
}

#[test]
fn white_space_is_what_std_calls_white_space() {
    for code in 0..0x3100u32 {
        if let Some(c) = char::from_u32(code) {
            assert_eq!(is_whitespace(c), c.is_whitespace(), "{:#x}", code);
        }
    }
}

#[test]
fn lines_split_at_white_space() {
    assert_eq!(split_words(""), Vec::<String>::new());
    assert_eq!(split_words("  \t "), Vec::<String>::new());
    assert_eq!(split_words("run"), vec!["run"]);
    assert_eq!(split_words("  break   main.c:7\t"), vec!["break", "main.c:7"]);
    assert_eq!(split_words("r a  b\u{a0}c"), vec!["r", "a", "b", "c"]);
    let line = "run  one two\tthree ";
    let expected: Vec<String> = line.split_whitespace().map(|w| w.to_string()).collect();
    assert_eq!(split_words(line), expected);
}

fn tokens(words: &[&str]) -> Vec<String> {
    words.iter().map(|w| w.to_string()).collect()
}

#[test]
fn commands_are_spelled_in_full_or_short() {
    for word in ["q", "quit"] {
        assert!(matches!(
            DebuggerCommand::from_tokens(&tokens(&[word])),
            Some(DebuggerCommand::Quit)
        ));
    }
    for word in ["c", "cont", "continue"] {
        assert!(matches!(
            DebuggerCommand::from_tokens(&tokens(&[word])),
            Some(DebuggerCommand::Continue)
        ));
    }
    for word in ["bt", "back", "backtrace"] {
        assert!(matches!(
            DebuggerCommand::from_tokens(&tokens(&[word])),
            Some(DebuggerCommand::BackTrace)
        ));
    }
    for word in ["r", "run"] {
        match DebuggerCommand::from_tokens(&tokens(&[word, "a", "b"])) {
            Some(DebuggerCommand::Run(args)) => assert_eq!(args, vec!["a", "b"]),
            other => panic!("unexpected {:?}", other),
        }
    }
    for word in ["b", "break"] {
        match DebuggerCommand::from_tokens(&tokens(&[word, "0x10", "more"])) {
            Some(DebuggerCommand::Breakpoint(spec)) => assert_eq!(spec, "0x10"),
            other => panic!("unexpected {:?}", other),
        }
    }
    assert!(DebuggerCommand::from_tokens(&tokens(&["break"])).is_none());
    assert!(DebuggerCommand::from_tokens(&tokens(&["jump"])).is_none());
    assert!(DebuggerCommand::from_tokens(&tokens(&["Quit"])).is_none());
    assert!(DebuggerCommand::from_tokens(&tokens(&[])).is_none());
}

#[test]
fn lines_are_blank_commands_or_errors() {
    assert!(matches!(DebuggerCommand::parse("   "), Ok(None)));
    assert!(matches!(DebuggerCommand::parse(""), Ok(None)));
    assert!(matches!(DebuggerCommand::parse(" continue "), Ok(Some(DebuggerCommand::Continue))));
    assert!(matches!(DebuggerCommand::parse("frobnicate"), Err(Error::CommandParse)));
    match DebuggerCommand::parse("run -l /tmp") {
        Ok(Some(DebuggerCommand::Run(args))) => assert_eq!(args, vec!["-l", "/tmp"]),
        other => panic!("unexpected {:?}", other),
    }
}
