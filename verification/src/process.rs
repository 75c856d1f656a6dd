//! A child process of this one, traced through `ptrace` and `waitpid`.

use crate::signal::{signal_text, Signal};
use crate::tracee::{Registers, Tracee, WaitOutcome};
use vstd::prelude::*;

verus! {

/// The errno type of nix.
#[verifier::external_type_specification]
#[verifier::external_body]
pub struct ExErrno(nix::errno::Errno);

/// The register file of an x86-64 thread, as `PTRACE_GETREGS` fills it.
#[verifier::external_type_specification]
#[verifier::external_body]
pub struct ExUserRegs(libc::user_regs_struct);

/// What `waitpid` reported, with signals by number.
#[derive(Clone, Copy, Debug, PartialEq, Eq)]
pub enum RawWait {
    /// The child exited, with this code.
    Exited(i32),
    /// The signal with this number killed the child.
    Signaled(i32),
    /// The signal with this number stopped the child.
    Stopped(i32),
    /// Anything else.
    Other,
}

/// The outcome that a report of `waitpid` stands for. An exit keeps its
/// code. A kill or a stop keeps its signal, where the signal's number has
/// a name; a number without one makes the report one that the engine does
/// not know.
pub fn outcome_of(raw: RawWait) -> (outcome: WaitOutcome)
    ensures
        match raw {
            RawWait::Exited(code) => outcome == WaitOutcome::Exited(code),
            RawWait::Signaled(number) => match signal_text(number as int) {
                Some(_) => outcome matches WaitOutcome::Signaled(signal) && signal.id() == number,
                None => outcome is Other,
            },
            RawWait::Stopped(number) => match signal_text(number as int) {
                Some(_) => outcome matches WaitOutcome::Stopped(signal) && signal.id() == number,
                None => outcome is Other,
            },
            RawWait::Other => outcome is Other,
        },
{
    match raw {
        RawWait::Exited(code) => WaitOutcome::Exited(code),
        RawWait::Signaled(number) => match Signal::new(number) {
            Some(signal) => WaitOutcome::Signaled(signal),
            None => WaitOutcome::Other,
        },
        RawWait::Stopped(number) => match Signal::new(number) {
            Some(signal) => WaitOutcome::Stopped(signal),
            None => WaitOutcome::Other,
        },
        RawWait::Other => WaitOutcome::Other,
    }
}

/// The errno's number: the cast of an `Errno` of nix to `i32`.
#[verifier::external_body]
fn errno_code(errno: nix::errno::Errno) -> i32 {
    errno as i32
}

/// Calls `waitpid` of nix on the child, with no options, and tells its
/// answers apart. Nothing is claimed of the answer.
#[verifier::external_body]
fn wait_for(pid: i32) -> Result<RawWait, nix::errno::Errno>
    requires
        pid > 0,
{
    match nix::sys::wait::waitpid(nix::unistd::Pid::from_raw(pid), None) {
        Ok(nix::sys::wait::WaitStatus::Exited(_, code)) => Ok(RawWait::Exited(code)),
        Ok(nix::sys::wait::WaitStatus::Signaled(_, signal, _)) => Ok(
            RawWait::Signaled(signal as i32),
        ),
        Ok(nix::sys::wait::WaitStatus::Stopped(_, signal)) => Ok(RawWait::Stopped(signal as i32)),
        Ok(_) => Ok(RawWait::Other),
        Err(errno) => Err(errno),
    }
}

/// Calls `ptrace::cont` of nix with no signal. Nothing is claimed of the
/// answer.
#[verifier::external_body]
fn ptrace_cont(pid: i32) -> Result<(), nix::errno::Errno>
    requires
        pid > 0,
{
    nix::sys::ptrace::cont(nix::unistd::Pid::from_raw(pid), None)
}

/// Calls `ptrace::step` of nix with no signal. Nothing is claimed of the
/// answer.
#[verifier::external_body]
fn ptrace_step(pid: i32) -> Result<(), nix::errno::Errno>
    requires
        pid > 0,
{
    nix::sys::ptrace::step(nix::unistd::Pid::from_raw(pid), None)
}

/// Calls `signal::kill` of nix with `SIGKILL`. Nothing is claimed of the
/// answer.
#[verifier::external_body]
fn send_kill(pid: i32) -> Result<(), nix::errno::Errno>
    requires
        pid > 0,
{
    nix::sys::signal::kill(nix::unistd::Pid::from_raw(pid), nix::sys::signal::Signal::SIGKILL)
}

/// Calls `ptrace::read` of nix. Nothing is claimed of the word.
#[verifier::external_body]
fn ptrace_read(pid: i32, addr: usize) -> Result<u64, nix::errno::Errno>
    requires
        pid > 0,
{
    nix::sys::ptrace::read(nix::unistd::Pid::from_raw(pid), addr as nix::sys::ptrace::AddressType)
        .map(|word| word as u64)
}

/// Calls `ptrace::write` of nix. Nothing is claimed of the answer.
#[verifier::external_body]
fn ptrace_write(pid: i32, addr: usize, word: u64) -> Result<(), nix::errno::Errno>
    requires
        pid > 0,
{
    nix::sys::ptrace::write(
        nix::unistd::Pid::from_raw(pid),
        addr as nix::sys::ptrace::AddressType,
        word as libc::c_long,
    )
}

/// Calls `ptrace::getregs` of nix. Nothing is claimed of the registers.
#[verifier::external_body]
fn ptrace_getregs(pid: i32) -> Result<libc::user_regs_struct, nix::errno::Errno>
    requires
        pid > 0,
{
    nix::sys::ptrace::getregs(nix::unistd::Pid::from_raw(pid))
}

/// Calls `ptrace::setregs` of nix. Nothing is claimed of the answer.
#[verifier::external_body]
fn ptrace_setregs(pid: i32, regs: libc::user_regs_struct) -> Result<(), nix::errno::Errno>
    requires
        pid > 0,
{
    nix::sys::ptrace::setregs(nix::unistd::Pid::from_raw(pid), regs)
}

/// Picks the instruction pointer and the frame pointer out of a register
/// file.
#[verifier::external_body]
fn pointers_of(regs: &libc::user_regs_struct) -> Registers {
    Registers { rip: regs.rip, rbp: regs.rbp }
}

/// Puts `rip` into a register file as its instruction pointer.
#[verifier::external_body]
fn with_rip(regs: libc::user_regs_struct, rip: u64) -> libc::user_regs_struct {
    libc::user_regs_struct { rip, ..regs }
}

/// A traced child process, by its process id.
#[derive(Debug)]
pub struct Process {
    pid: i32,
}

impl Process {
    #[verifier::type_invariant]
    spec fn is_one_process(self) -> bool {
        self.pid > 0
    }

    /// The child's process id.
    pub closed spec fn id(self) -> i32 {
        self.pid
    }

    /// The child with this process id. Ids below one stand for groups of
    /// processes and are refused.
    pub fn new(pid: i32) -> (process: Option<Process>)
        ensures
            process is Some <==> pid > 0,
            process matches Some(p) ==> p.id() == pid,
    {
        if pid > 0 {
            Some(Process { pid })
        } else {
            None
        }
    }
}

impl Tracee for Process {
    fn pid(&self) -> (pid: i32)
        ensures
            pid == self.id(),
    {
        self.pid
    }

    fn wait(&self) -> (outcome: Result<WaitOutcome, i32>) {
        proof {
            use_type_invariant(self);
        }
        match wait_for(self.pid) {
            Ok(raw) => Ok(outcome_of(raw)),
            Err(errno) => Err(errno_code(errno)),
        }
    }

    fn cont(&self) -> (done: Result<(), i32>) {
        proof {
            use_type_invariant(self);
        }
        match ptrace_cont(self.pid) {
            Ok(()) => Ok(()),
            Err(errno) => Err(errno_code(errno)),
        }
    }

    fn step(&self) -> (done: Result<(), i32>) {
        proof {
            use_type_invariant(self);
        }
        match ptrace_step(self.pid) {
            Ok(()) => Ok(()),
            Err(errno) => Err(errno_code(errno)),
        }
    }

    fn kill(&self) -> (done: Result<(), i32>) {
        proof {
            use_type_invariant(self);
        }
        match send_kill(self.pid) {
            Ok(()) => Ok(()),
            Err(errno) => Err(errno_code(errno)),
        }
    }

    fn peek(&self, addr: usize) -> (word: Result<u64, i32>) {
        proof {
            use_type_invariant(self);
        }
        match ptrace_read(self.pid, addr) {
            Ok(word) => Ok(word),
            Err(errno) => Err(errno_code(errno)),
        }
    }

    fn poke(&self, addr: usize, word: u64) -> (done: Result<(), i32>) {
        proof {
            use_type_invariant(self);
        }
        match ptrace_write(self.pid, addr, word) {
            Ok(()) => Ok(()),
            Err(errno) => Err(errno_code(errno)),
        }
    }

    fn registers(&self) -> (registers: Result<Registers, i32>) {
        proof {
            use_type_invariant(self);
        }
        match ptrace_getregs(self.pid) {
            Ok(regs) => Ok(pointers_of(&regs)),
            Err(errno) => Err(errno_code(errno)),
        }
    }

    fn set_instruction_pointer(&self, rip: u64) -> (done: Result<(), i32>) {
        proof {
            use_type_invariant(self);
        }
        match ptrace_getregs(self.pid) {
            Ok(regs) => match ptrace_setregs(self.pid, with_rip(regs, rip)) {
                Ok(()) => Ok(()),
                Err(errno) => Err(errno_code(errno)),
            },
            Err(errno) => Err(errno_code(errno)),
        }
    }
}

} // verus!
