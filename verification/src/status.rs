//! The state of a tracee as a wait reports it.

use crate::error::{Error, LaunchFailure};
use crate::signal::{Signal, SIGTRAP};
use crate::tracee::WaitOutcome;
use vstd::prelude::*;

verus! {

/// The state of a tracee after a wait.
#[derive(Clone, Copy, Debug, PartialEq, Eq)]
pub enum Status {
    /// It stopped on this signal, with its instruction pointer at this
    /// address.
    Stopped(Signal, usize),
    /// It exited normally, with this code.
    Exited(i32),
    /// This signal killed it.
    Signaled(Signal),
}

impl Status {
    /// The status that a wait outcome stands for, where `rip` is the
    /// instruction pointer of a stopped tracee. An outcome that is none of
    /// exited, signaled and stopped is an error.
    pub open spec fn of(outcome: WaitOutcome, rip: usize) -> Result<Status, Error> {
        match outcome {
            WaitOutcome::Exited(code) => Ok(Status::Exited(code)),
            WaitOutcome::Signaled(signal) => Ok(Status::Signaled(signal)),
            WaitOutcome::Stopped(signal) => Ok(Status::Stopped(signal, rip)),
            WaitOutcome::Other => Err(Error::WaitFailed),
        }
    }

    /// Turns a wait outcome into a status.
    pub fn from_wait(outcome: WaitOutcome, rip: usize) -> (status: Result<Status, Error>)
        ensures
            status == Status::of(outcome, rip),
    {
        match outcome {
            WaitOutcome::Exited(code) => Ok(Status::Exited(code)),
            WaitOutcome::Signaled(signal) => Ok(Status::Signaled(signal)),
            WaitOutcome::Stopped(signal) => Ok(Status::Stopped(signal, rip)),
            WaitOutcome::Other => Err(Error::WaitFailed),
        }
    }
}

/// Why the first wait on a new child does not make it a tracee, or `None`
/// where it does: the child must have stopped on the trap signal. A child
/// that the trap signal killed has not stopped and is refused too.
pub open spec fn launch_failure(first: Result<Status, Error>) -> Option<LaunchFailure> {
    match first {
        Ok(Status::Stopped(signal, _)) => if signal.id() == SIGTRAP {
            None
        } else {
            Some(LaunchFailure::Stopped(signal))
        },
        Ok(Status::Exited(code)) => Some(LaunchFailure::Exited(code)),
        Ok(Status::Signaled(signal)) => Some(LaunchFailure::Signaled(signal)),
        Err(Error::Trace(code)) => Some(LaunchFailure::Trace(code)),
        Err(Error::MemoryAccess(code)) => Some(LaunchFailure::Trace(code)),
        Err(_) => Some(LaunchFailure::WaitFailed),
    }
}

/// Judges the first wait on a new child.
pub fn check_first_stop(first: Result<Status, Error>) -> (verdict: Result<(), Error>)
    ensures
        verdict == match launch_failure(first) {
            None => Ok::<(), Error>(()),
            Some(failure) => Err(Error::LaunchFailed(failure)),
        },
{
    match first {
        Ok(Status::Stopped(signal, _)) => {
            if signal.is_trap() {
                Ok(())
            } else {
                Err(Error::LaunchFailed(LaunchFailure::Stopped(signal)))
            }
        },
        Ok(Status::Exited(code)) => Err(Error::LaunchFailed(LaunchFailure::Exited(code))),
        Ok(Status::Signaled(signal)) => Err(Error::LaunchFailed(LaunchFailure::Signaled(signal))),
        Err(Error::Trace(code)) => Err(Error::LaunchFailed(LaunchFailure::Trace(code))),
        Err(Error::MemoryAccess(code)) => Err(Error::LaunchFailed(LaunchFailure::Trace(code))),
        Err(_) => Err(Error::LaunchFailed(LaunchFailure::WaitFailed)),
    }
}

} // verus!
