//! What can go wrong while a tracee is controlled.

use crate::signal::{Signal, SIGTRAP};
use crate::text::{decimal_int, to_decimal_signed};
use vstd::prelude::*;
use vstd::string::StringExecFns;

verus! {

/// The text that nix shows for the errno with this number.
pub uninterp spec fn errno_text(code: int) -> Seq<char>;

/// Calls `Errno::from_raw` of nix and writes the errno through its
/// `Display`. Not proved: that the text is the one nix shows for that number.
#[verifier::external_body]
fn describe_errno(code: i32) -> (text: String)
    ensures
        text@ == errno_text(code as int),
{
    format!("{}", nix::errno::Errno::from_raw(code))
}

/// Why a child did not become a controlled tracee.
#[derive(Clone, Copy, Debug, PartialEq, Eq)]
pub enum LaunchFailure {
    /// It exited, with this code, before it stopped.
    Exited(i32),
    /// A signal killed it before it stopped.
    Signaled(Signal),
    /// Its first stop was not on the trap signal.
    Stopped(Signal),
    /// The wait for its first stop failed with this errno.
    Trace(i32),
    /// The wait for its first stop reported no state that the engine knows.
    WaitFailed,
}

/// An error of the engine.
#[derive(Clone, Copy, Debug, PartialEq, Eq)]
pub enum Error {
    /// The child did not reach its first stop on the trap signal.
    LaunchFailed(LaunchFailure),
    /// A word of tracee memory could not be read or written; the errno.
    MemoryAccess(i32),
    /// A wait reported a state that is none of exited, signaled and stopped.
    WaitFailed,
    /// Another request to the tracing or wait primitive failed; the errno.
    Trace(i32),
    /// The user's line is no command.
    CommandParse,
}

/// Where the sequence that crosses a breakpoint broke off, and on what.
/// After any of these the tracee's text may hold a half-applied patch, so
/// the session cannot go on.
#[derive(Clone, Copy, Debug, PartialEq, Eq)]
pub enum Fault {
    /// The original byte could not be written back over the trap byte.
    RestoreByte(Error),
    /// The restore displaced this byte, which is not the trap byte.
    Integrity(u8),
    /// The instruction pointer could not be set back onto the restored
    /// instruction.
    Rewind(Error),
    /// The single step could not be asked for.
    Step(Error),
    /// The wait for the stop after the single step failed.
    AwaitStep(Error),
    /// The trap byte could not be written again.
    Rearm(Error),
}

impl LaunchFailure {
    /// The line that tells the user of this failure.
    pub open spec fn text(self) -> Seq<char> {
        match self {
            LaunchFailure::Exited(code) => "target programme exited prematurely (status "@
                + decimal_int(code as int) + ")"@,
            LaunchFailure::Signaled(signal) => if signal.id() == SIGTRAP {
                "target programme killed by SIGTRAP"@
            } else {
                "failed to create inferior"@
            },
            LaunchFailure::Stopped(_) => "failed to create inferior"@,
            LaunchFailure::Trace(code) => "failed to stop target programme, "@ + errno_text(
                code as int,
            ),
            LaunchFailure::WaitFailed => "failed to stop target programme, "@
                + "wait returned an unexpected status"@,
        }
    }

    /// Writes the line that tells the user of this failure.
    pub fn message(&self) -> (line: String)
        ensures
            line@ == self.text(),
    {
        match self {
            LaunchFailure::Exited(code) => {
                let mut line = String::from_str("target programme exited prematurely (status ");
                let number = to_decimal_signed(*code);
                line.append(number.as_str());
                line.append(")");
                line
            },
            LaunchFailure::Signaled(signal) => {
                if signal.is_trap() {
                    String::from_str("target programme killed by SIGTRAP")
                } else {
                    String::from_str("failed to create inferior")
                }
            },
            LaunchFailure::Stopped(_) => String::from_str("failed to create inferior"),
            LaunchFailure::Trace(code) => {
                let mut line = String::from_str("failed to stop target programme, ");
                let cause = describe_errno(*code);
                line.append(cause.as_str());
                line
            },
            LaunchFailure::WaitFailed => {
                let mut line = String::from_str("failed to stop target programme, ");
                line.append("wait returned an unexpected status");
                line
            },
        }
    }
}

impl Error {
    /// What this error says of itself.
    pub open spec fn text(self) -> Seq<char> {
        match self {
            Error::LaunchFailed(failure) => failure.text(),
            Error::MemoryAccess(code) => errno_text(code as int),
            Error::WaitFailed => "wait returned an unexpected status"@,
            Error::Trace(code) => errno_text(code as int),
            Error::CommandParse => "Unrecognized command."@,
        }
    }

    /// Writes what this error says of itself.
    pub fn message(&self) -> (line: String)
        ensures
            line@ == self.text(),
    {
        match self {
            Error::LaunchFailed(failure) => failure.message(),
            Error::MemoryAccess(code) => describe_errno(*code),
            Error::WaitFailed => String::from_str("wait returned an unexpected status"),
            Error::Trace(code) => describe_errno(*code),
            Error::CommandParse => String::from_str("Unrecognized command."),
        }
    }
}

impl Fault {
    /// What the session says when the sequence breaks off.
    pub open spec fn text(self) -> Seq<char> {
        match self {
            Fault::RestoreByte(e) => "can not resume original byte: "@ + e.text(),
            Fault::Integrity(_) => "failed to resume original byte"@,
            Fault::Rewind(e) => "can not set %rip: "@ + e.text(),
            Fault::Step(e) => "can not step target: "@ + e.text(),
            Fault::AwaitStep(e) => "can not stop after stepping: "@ + e.text(),
            Fault::Rearm(e) => "can not reinstall breakpoint: "@ + e.text(),
        }
    }

    /// Writes what the session says when the sequence breaks off.
    pub fn message(&self) -> (line: String)
        ensures
            line@ == self.text(),
    {
        let (mut line, cause) = match self {
            Fault::RestoreByte(e) => (String::from_str("can not resume original byte: "), e),
            Fault::Integrity(_) => {
                return String::from_str("failed to resume original byte");
            },
            Fault::Rewind(e) => (String::from_str("can not set %rip: "), e),
            Fault::Step(e) => (String::from_str("can not step target: "), e),
            Fault::AwaitStep(e) => (String::from_str("can not stop after stepping: "), e),
            Fault::Rearm(e) => (String::from_str("can not reinstall breakpoint: "), e),
        };
        let text = cause.message();
        line.append(text.as_str());
        line
    }
}

} // verus!
