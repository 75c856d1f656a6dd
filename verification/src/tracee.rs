//! The tracing primitive that the engine drives.
//!
//! The engine asks for eight things of a traced child: to wait for it, to
//! let it run on, to let it run one instruction, to kill it, to read and
//! write one word of its memory, and to read its registers and set its
//! instruction pointer. Nothing is promised of what comes back: the child
//! is another process, and what is proved of the engine holds whatever the
//! child does.

use crate::signal::Signal;
use vstd::prelude::*;

verus! {

/// What a wait reports of the child.
#[derive(Clone, Copy, Debug, PartialEq, Eq)]
pub enum WaitOutcome {
    /// It exited, with this code.
    Exited(i32),
    /// This signal killed it.
    Signaled(Signal),
    /// This signal stopped it.
    Stopped(Signal),
    /// Anything else.
    Other,
}

/// The two registers that the engine reads.
#[derive(Clone, Copy, Debug, PartialEq, Eq)]
pub struct Registers {
    /// The instruction pointer.
    pub rip: u64,
    /// The frame pointer.
    pub rbp: u64,
}

/// A traced child process. Every request fails with an errno.
pub trait Tracee {
    /// The child's process id.
    fn pid(&self) -> i32;

    /// Blocks until the child changes state.
    fn wait(&self) -> Result<WaitOutcome, i32>;

    /// Lets the stopped child run on, with no signal delivered.
    fn cont(&self) -> Result<(), i32>;

    /// Lets the stopped child run one instruction.
    fn step(&self) -> Result<(), i32>;

    /// Sends the child the kill signal.
    fn kill(&self) -> Result<(), i32>;

    /// Reads the word at `addr` in the child's memory.
    fn peek(&self, addr: usize) -> Result<u64, i32>;

    /// Writes `word` at `addr` in the child's memory.
    fn poke(&self, addr: usize, word: u64) -> Result<(), i32>;

    /// Reads the child's registers.
    fn registers(&self) -> Result<Registers, i32>;

    /// Sets the child's instruction pointer and leaves its other registers
    /// as they are.
    fn set_instruction_pointer(&self, rip: u64) -> Result<(), i32>;
}

} // verus!
