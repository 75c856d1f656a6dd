//! The inferior controller: one traced child, the bytes that its
//! breakpoints displaced, and the operations of the session on it.

use crate::dwarf_data::DwarfData;
use crate::error::Error;
use crate::memory::{lemma_install_keeps_overlay, lemma_overlay_is_consistent};
use crate::memory::lemma_patch_touches_one_byte;
use crate::memory::{peek, poke, shadow_after, word_mapped, Snapshot};
use crate::status::{check_first_stop, launch_failure, Status};
use crate::text::{hex_address, texts, to_hex_address};
use crate::tracee::{Registers, Tracee, WaitOutcome};
use crate::word::{base_of, byte_at, byte_offset, offset_of, patch_word, with_byte, word_base};
use crate::word::TRAP_BYTE;
use std::collections::HashMap;
use vstd::prelude::*;
use vstd::string::StringExecFns;

verus! {

/// A breakpoint that could not be installed, and why.
#[derive(Clone, Copy, Debug, PartialEq, Eq)]
pub struct InstallFailure {
    /// The breakpoint's address.
    pub addr: usize,
    /// The error of the byte patch.
    pub error: Error,
}

/// A stack walk: the instruction pointers of the frames found, innermost
/// first, and the error that ended the walk early, if one did.
#[derive(Debug)]
pub struct Backtrace {
    /// Instruction pointer of each frame.
    pub frames: Vec<usize>,
    /// What ended the walk before the entry function was reached.
    pub error: Option<Error>,
}

/// One request that the controller made of its tracee, with what was
/// handed over and what the tracee answered.
pub enum Exchange {
    /// The question for the process id.
    Pid(i32),
    /// A wait for the next change of state.
    Wait(Result<WaitOutcome, i32>),
    /// A request to run on.
    Cont(Result<(), i32>),
    /// A request to run one instruction.
    Step(Result<(), i32>),
    /// The kill signal.
    Kill(Result<(), i32>),
    /// A read of the word at this address.
    Peek(usize, Result<u64, i32>),
    /// A write of this word at this address.
    Poke(usize, u64, Result<(), i32>),
    /// A read of the registers.
    Registers(Result<Registers, i32>),
    /// A request to set the instruction pointer to this address.
    SetInstructionPointer(u64, Result<(), i32>),
}

/// One traced child and the shadow map of its breakpoints.
///
/// The controller keeps, for proofs only, the list of all that it has asked
/// of the tracee and of what the tracee answered. What an operation does is
/// stated over that list: which requests it added, and how its result
/// follows from the answers.
pub struct Inferior<T: Tracee> {
    tracee: T,
    pid: i32,
    replaced_values: HashMap<usize, u8>,
    exchanges: Ghost<Seq<Exchange>>,
}

/// What a wait comes to, read off the requests `asked` from their start:
/// the status, and how many requests the wait took.
///
/// A wait that fails gives its errno. A tracee that stopped is asked for
/// its registers next, and its status holds the instruction pointer from
/// them; if the registers cannot be read, that errno is given. An outcome
/// that is none of exited, signaled and stopped is an error.
pub open spec fn read_wait(asked: Seq<Exchange>) -> Option<(Result<Status, Error>, nat)> {
    if asked.len() == 0 {
        None
    } else {
        match asked[0] {
            Exchange::Wait(Err(errno)) => Some((Err(Error::Trace(errno)), 1)),
            Exchange::Wait(Ok(WaitOutcome::Stopped(signal))) => if asked.len() < 2 {
                None
            } else {
                match asked[1] {
                    Exchange::Registers(Ok(registers)) => Some(
                        (Ok(Status::Stopped(signal, registers.rip as usize)), 2),
                    ),
                    Exchange::Registers(Err(errno)) => Some((Err(Error::Trace(errno)), 2)),
                    _ => None,
                }
            },
            Exchange::Wait(Ok(outcome)) => Some((Status::of(outcome, 0), 1)),
            _ => None,
        }
    }
}

/// What a continue comes to: the request to run on, with no signal, and
/// then, unless the request failed, a wait.
pub open spec fn read_cont(asked: Seq<Exchange>) -> Option<(Result<Status, Error>, nat)> {
    if asked.len() == 0 {
        None
    } else {
        match asked[0] {
            Exchange::Cont(Err(errno)) => Some((Err(Error::Trace(errno)), 1)),
            Exchange::Cont(Ok(_)) => match read_wait(asked.skip(1)) {
                Some((status, taken)) => Some((status, taken + 1)),
                None => None,
            },
            _ => None,
        }
    }
}

/// What the request for one instruction comes to, without the wait.
pub open spec fn read_step_only(asked: Seq<Exchange>) -> Option<(Result<(), Error>, nat)> {
    if asked.len() == 0 {
        None
    } else {
        match asked[0] {
            Exchange::Step(Err(errno)) => Some((Err(Error::Trace(errno)), 1)),
            Exchange::Step(Ok(_)) => Some((Ok(()), 1)),
            _ => None,
        }
    }
}

/// What a single step comes to: the request for one instruction and then,
/// unless the request failed, a wait.
pub open spec fn read_step(asked: Seq<Exchange>) -> Option<(Result<Status, Error>, nat)> {
    match read_step_only(asked) {
        Some((Err(e), taken)) => Some((Err(e), taken)),
        Some((Ok(_), taken)) => match read_wait(asked.skip(taken as int)) {
            Some((status, more)) => Some((status, taken + more)),
            None => None,
        },
        None => None,
    }
}

/// What a termination comes to: the kill signal, whose answer plays no
/// part, and then a wait.
pub open spec fn read_terminate(asked: Seq<Exchange>) -> Option<(Result<Status, Error>, nat)> {
    if asked.len() == 0 {
        None
    } else {
        match asked[0] {
            Exchange::Kill(_) => match read_wait(asked.skip(1)) {
                Some((status, taken)) => Some((status, taken + 1)),
                None => None,
            },
            _ => None,
        }
    }
}

/// What reading the instruction pointer comes to: one read of the
/// registers.
pub open spec fn read_instruction_pointer(asked: Seq<Exchange>) -> Option<
    (Result<usize, Error>, nat),
> {
    if asked.len() == 0 {
        None
    } else {
        match asked[0] {
            Exchange::Registers(Ok(registers)) => Some((Ok(registers.rip as usize), 1)),
            Exchange::Registers(Err(errno)) => Some((Err(Error::Trace(errno)), 1)),
            _ => None,
        }
    }
}

/// What setting the instruction pointer to `rip` comes to: one request,
/// for that address.
pub open spec fn read_rewind(asked: Seq<Exchange>, rip: usize) -> Option<(Result<(), Error>, nat)> {
    if asked.len() == 0 {
        None
    } else {
        match asked[0] {
            Exchange::SetInstructionPointer(to, answer) => if to == rip as u64 {
                match answer {
                    Ok(_) => Some((Ok(()), 1)),
                    Err(errno) => Some((Err(Error::Trace(errno)), 1)),
                }
            } else {
                None
            },
            _ => None,
        }
    }
}

/// What a byte patch of `val` at `addr` comes to.
///
/// The word is read at the boundary below `addr`. If the read fails the
/// patch fails with its errno and nothing is written. Else the word is
/// written back at the same boundary with the one byte replaced. If the
/// write fails the patch fails with its errno; else it gives the byte that
/// the word read held at the offset of `addr`.
pub open spec fn read_patch(asked: Seq<Exchange>, addr: usize, val: u8) -> Option<
    (Result<u8, Error>, nat),
> {
    let base = base_of(addr as int);
    let k = offset_of(addr as int) as u64;
    if asked.len() == 0 {
        None
    } else {
        match asked[0] {
            Exchange::Peek(at, Err(errno)) => if at == base {
                Some((Err(Error::MemoryAccess(errno)), 1))
            } else {
                None
            },
            Exchange::Peek(at, Ok(word)) => if at == base && asked.len() >= 2 {
                match asked[1] {
                    Exchange::Poke(to, written, answer) => if to == base && written == with_byte(
                        word,
                        k,
                        val,
                    ) {
                        match answer {
                            Ok(_) => Some((Ok(byte_at(word, k)), 2)),
                            Err(errno) => Some((Err(Error::MemoryAccess(errno)), 2)),
                        }
                    } else {
                        None
                    },
                    _ => None,
                }
            } else {
                None
            },
            _ => None,
        }
    }
}

/// What installing `breakpoints` in a tracee whose shadow map is `shadow`
/// comes to: the shadow map afterwards, the breakpoints that could not be
/// written, and how many requests it took.
///
/// The trap byte is patched in at each breakpoint, in the order of the
/// list, one patch after the other. A patch that went through changes the
/// map as a trap patch does; one that failed is reported with its error
/// and changes nothing.
pub open spec fn read_install(
    asked: Seq<Exchange>,
    breakpoints: Seq<usize>,
    shadow: Map<usize, u8>,
) -> Option<(Map<usize, u8>, Seq<InstallFailure>, nat)>
    decreases breakpoints.len(),
{
    if breakpoints.len() == 0 {
        Some((shadow, Seq::empty(), 0))
    } else {
        match read_install(asked, breakpoints.drop_last(), shadow) {
            None => None,
            Some((before, failures, taken)) => {
                let addr = breakpoints.last();
                match read_patch(asked.skip(taken as int), addr, TRAP_BYTE) {
                    None => None,
                    Some((Ok(original), more)) => Some(
                        (shadow_after(before, addr, TRAP_BYTE, original), failures, taken + more),
                    ),
                    Some((Err(error), more)) => Some(
                        (before, failures.push(InstallFailure { addr, error }), taken + more),
                    ),
                }
            },
        }
    }
}

/// What a launch with `breakpoints` comes to: the process id that the
/// child gave, and either the error of the launch or the shadow map and
/// the breakpoints that could not be written.
///
/// The child is asked for its id and waited for. Unless that first wait
/// read as a stop on the trap signal, the launch has failed with what
/// `launch_failure` makes of it, and nothing more is asked. Else the
/// breakpoints are installed, and nothing else is asked: the child is not
/// continued.
pub open spec fn read_launch(asked: Seq<Exchange>, breakpoints: Seq<usize>) -> Option<
    (i32, Result<(Map<usize, u8>, Seq<InstallFailure>), Error>, nat),
> {
    if asked.len() == 0 {
        None
    } else {
        match asked[0] {
            Exchange::Pid(pid) => match read_wait(asked.skip(1)) {
                None => None,
                Some((first, taken)) => match launch_failure(first) {
                    Some(failure) => Some((pid, Err(Error::LaunchFailed(failure)), 1 + taken)),
                    None => match read_install(
                        asked.skip(1 + taken as int),
                        breakpoints,
                        Map::empty(),
                    ) {
                        None => None,
                        Some((shadow, failures, more)) => Some(
                            (pid, Ok((shadow, failures)), 1 + taken + more),
                        ),
                    },
                },
            },
            _ => None,
        }
    }
}

/// What a stack walk comes to from the frame with instruction pointer
/// `rip` and frame pointer `rbp` on, when `found` frames were found before
/// it: the instruction pointers of this frame and of those above it, the
/// error that ended the walk, if one did, and how many requests it took.
///
/// A frame in the entry function ends the walk, and so does the frame that
/// fills the list. From any other frame the word one word above the frame
/// pointer is read, and then the word at the frame pointer. A read that
/// fails ends the walk with its errno. Else the first word is the caller's
/// instruction pointer and the second its frame pointer, and the walk goes
/// on from there.
pub open spec fn read_frames(
    asked: Seq<Exchange>,
    debug_data: DwarfData,
    rip: usize,
    rbp: usize,
    found: nat,
) -> Option<(Seq<usize>, Option<Error>, nat)>
    decreases asked.len(),
{
    if in_entry_function(debug_data, rip) || found + 1 >= usize::MAX {
        Some((seq![rip], None, 0))
    } else if asked.len() == 0 {
        None
    } else {
        match asked[0] {
            Exchange::Peek(at, Err(errno)) => if at == return_slot_of(rbp) {
                Some((seq![rip], Some(Error::MemoryAccess(errno)), 1))
            } else {
                None
            },
            Exchange::Peek(at, Ok(above)) => if at == return_slot_of(rbp) && asked.len() >= 2 {
                match asked[1] {
                    Exchange::Peek(at, Err(errno)) => if at == rbp {
                        Some((seq![rip], Some(Error::MemoryAccess(errno)), 2))
                    } else {
                        None
                    },
                    Exchange::Peek(at, Ok(saved)) => if at == rbp {
                        match read_frames(
                            asked.skip(2),
                            debug_data,
                            above as usize,
                            saved as usize,
                            found + 1,
                        ) {
                            None => None,
                            Some((frames, error, taken)) => Some(
                                (seq![rip] + frames, error, taken + 2),
                            ),
                        }
                    } else {
                        None
                    },
                    _ => None,
                }
            } else {
                None
            },
            _ => None,
        }
    }
}

/// What a stack walk comes to: the registers are read, and the walk starts
/// at their instruction pointer and frame pointer. If they cannot be read
/// there are no frames, and the walk ends with that errno.
pub open spec fn read_walk(asked: Seq<Exchange>, debug_data: DwarfData) -> Option<
    (Seq<usize>, Option<Error>, nat),
> {
    if asked.len() == 0 {
        None
    } else {
        match asked[0] {
            Exchange::Registers(Err(errno)) => Some((Seq::empty(), Some(Error::Trace(errno)), 1)),
            Exchange::Registers(Ok(registers)) => joined(
                Seq::empty(),
                1,
                read_frames(
                    asked.skip(1),
                    debug_data,
                    registers.rip as usize,
                    registers.rbp as usize,
                    0,
                ),
            ),
            _ => None,
        }
    }
}

/// A reading of the rest of a walk, behind the frames found and the
/// requests made before it.
pub open spec fn joined(
    frames: Seq<usize>,
    taken: nat,
    rest: Option<(Seq<usize>, Option<Error>, nat)>,
) -> Option<(Seq<usize>, Option<Error>, nat)> {
    match rest {
        None => None,
        Some((more, error, further)) => Some((frames + more, error, taken + further)),
    }
}

/// The lines that show the frames of a stack walk, one for each frame.
pub open spec fn frame_texts(debug_data: DwarfData, frames: Seq<usize>) -> Seq<Seq<char>> {
    frames.map_values(|rip: usize| frame_text(debug_data, rip))
}

/// The address at which a frame keeps its caller's return address: one
/// word above the frame pointer.
pub open spec fn return_slot_of(frame_pointer: usize) -> usize {
    if frame_pointer + 8 <= usize::MAX {
        (frame_pointer + 8) as usize
    } else {
        (frame_pointer + 8 - usize::MAX - 1) as usize
    }
}

/// Where a frame keeps its caller's return address. Addresses wrap, as
/// they do in the machine.
pub fn return_slot(frame_pointer: usize) -> (slot: usize)
    ensures
        slot == return_slot_of(frame_pointer),
{
    frame_pointer.wrapping_add(8)
}

/// The address of the trap instruction that a tracee has just executed
/// when it stops with its instruction pointer at `rip`: the trap is one
/// byte long, so it is the byte before. At address zero there is none.
pub open spec fn trap_site_of(rip: usize) -> Option<usize> {
    if rip == 0 {
        None
    } else {
        Some((rip - 1) as usize)
    }
}

/// The address of the trap instruction before `rip`.
pub fn trap_site(rip: usize) -> (site: Option<usize>)
    ensures
        site == trap_site_of(rip),
{
    if rip == 0 {
        None
    } else {
        Some(rip - 1)
    }
}

/// Whether `rip` lies in the entry function, at which a stack walk ends.
pub open spec fn in_entry_function(debug_data: DwarfData, rip: usize) -> bool {
    debug_data.function_at(rip) == Some("main"@)
}

/// The line that shows one frame of a stack walk.
pub open spec fn frame_text(debug_data: DwarfData, rip: usize) -> Seq<char> {
    "%rip "@ + hex_address(rip as nat) + " "@ + debug_data.function_text(rip) + " ("@
        + debug_data.line_text(rip) + ")"@
}

/// Writes the line that shows the frame at `rip`.
pub fn frame_line(debug_data: &DwarfData, rip: usize) -> (line: String)
    ensures
        line@ == frame_text(*debug_data, rip),
{
    let mut line = String::from_str("%rip ");
    let address = to_hex_address(rip);
    line.append(address.as_str());
    line.append(" ");
    let function = debug_data.function_name(rip);
    line.append(function.as_str());
    line.append(" (");
    let location = debug_data.location(rip);
    line.append(location.as_str());
    line.append(")");
    line
}

/// Whether the stack walk stops at `rip`.
pub fn is_entry(debug_data: &DwarfData, rip: usize) -> (entry: bool)
    ensures
        entry == in_entry_function(*debug_data, rip),
{
    match debug_data.get_function_from_addr(rip) {
        Some(name) => name == String::from_str("main"),
        None => false,
    }
}

impl<T: Tracee> Inferior<T> {
    /// The shadow map: for each address at which the trap byte was
    /// written, the byte that it displaced.
    pub closed spec fn shadow(&self) -> Map<usize, u8> {
        self.replaced_values@
    }

    /// The child under control.
    pub closed spec fn tracee(&self) -> T {
        self.tracee
    }

    /// The process id that the child gave when control was taken of it.
    pub closed spec fn id(&self) -> i32 {
        self.pid
    }

    /// All that was asked of the tracee so far, in order, with its answers.
    pub closed spec fn exchanges(&self) -> Seq<Exchange> {
        self.exchanges@
    }

    /// Whether `self` is the controller `before` at a later time: the same
    /// child, and all that had been asked of it then, followed by what was
    /// asked since.
    pub open spec fn follows(&self, before: &Inferior<T>) -> bool {
        &&& self.tracee() == before.tracee()
        &&& self.id() == before.id()
        &&& before.exchanges().is_prefix_of(self.exchanges())
    }

    /// What was asked of the tracee since the time of `before`.
    pub open spec fn asked_since(&self, before: &Inferior<T>) -> Seq<Exchange> {
        self.exchanges().skip(before.exchanges().len() as int)
    }

    /// Notes one request and its answer.
    fn note(&mut self, Ghost(exchange): Ghost<Exchange>)
        ensures
            final(self).tracee() == old(self).tracee(),
            final(self).id() == old(self).id(),
            final(self).shadow() == old(self).shadow(),
            final(self).exchanges() == old(self).exchanges().push(exchange),
            final(self).follows(old(self)),
            final(self).asked_since(old(self)) == seq![exchange],
    {
        self.exchanges = Ghost(self.exchanges@.push(exchange));
        assert(self.asked_since(old(self)) =~= seq![exchange]);
    }

    /// What was asked over two stretches of time is what was asked in the
    /// first, followed by what was asked in the second.
    pub proof fn lemma_asked_in_turn(first: &Inferior<T>, then: &Inferior<T>, last: &Inferior<T>)
        requires
            then.follows(first),
            last.follows(then),
        ensures
            last.follows(first),
            last.asked_since(first) == then.asked_since(first) + last.asked_since(then),
    {
        let a = first.exchanges();
        let b = then.exchanges();
        let c = last.exchanges();
        assert(a =~= c.subrange(0, a.len() as int)) by {
            assert(b =~= c.subrange(0, b.len() as int));
            assert(a =~= b.subrange(0, a.len() as int));
        }
        assert(last.asked_since(first) =~= then.asked_since(first) + last.asked_since(then)) by {
            assert(b =~= c.subrange(0, b.len() as int));
        }
    }

    /// Takes control of a new child and installs `breakpoints` in it.
    ///
    /// The child must be about to stop for the first time: it has asked to
    /// be traced and starts the target program. The first wait decides. If
    /// the child has stopped on the trap signal, every breakpoint is
    /// written; one that cannot be written is reported and skipped. In any
    /// other case the launch has failed. The controller is handed back in
    /// both cases, with all that was asked of the child.
    pub fn new(tracee: T, breakpoints: &Vec<usize>) -> (launched: (
        Inferior<T>,
        Result<Vec<InstallFailure>, Error>,
    ))
        ensures
            launched.0.tracee() == tracee,
            read_launch(launched.0.exchanges(), breakpoints@) == Some(
                (
                    launched.0.id(),
                    match launched.1 {
                        Ok(failures) => Ok((launched.0.shadow(), failures@)),
                        Err(e) => Err(e),
                    },
                    launched.0.exchanges().len(),
                ),
            ),
            launched.1 matches Err(e) ==> e is LaunchFailed && launched.0.shadow() == Map::<
                usize,
                u8,
            >::empty(),
    {
        let pid = tracee.pid();
        let mut inferior = Inferior {
            tracee,
            pid,
            replaced_values: HashMap::new(),
            exchanges: Ghost(Seq::empty().push(Exchange::Pid(pid))),
        };
        let ghost asked = inferior;
        let first = inferior.wait();
        let ghost waited = inferior;
        proof {
            assert(asked.exchanges() =~= seq![Exchange::Pid(pid)]);
            assert(inferior.exchanges().skip(1) =~= inferior.asked_since(&asked));
            assert(inferior.exchanges()[0] == asked.exchanges()[0]) by {
                assert(inferior.exchanges().subrange(0, 1)[0] == asked.exchanges()[0]);
            }
        }
        match check_first_stop(first) {
            Ok(()) => {
                let failures = inferior.install(breakpoints);
                proof {
                    Self::lemma_asked_in_turn(&asked, &waited, &inferior);
                    let first_part = waited.asked_since(&asked);
                    let rest = inferior.asked_since(&waited);
                    assert(inferior.exchanges().skip(1) =~= first_part + rest);
                    lemma_read_wait_extends(first_part, rest);
                    assert(inferior.exchanges().skip(1 + first_part.len() as int) =~= rest);
                    assert(inferior.exchanges()[0] == asked.exchanges()[0]) by {
                        assert(inferior.exchanges().subrange(0, 1)[0] == asked.exchanges()[0]);
                    }
                }
                (inferior, Ok(failures))
            },
            Err(e) => (inferior, Err(e)),
        }
    }

    /// Writes the trap byte at each of `breakpoints`, in order, and returns
    /// those that could not be written.
    pub fn install(&mut self, breakpoints: &Vec<usize>) -> (failures: Vec<InstallFailure>)
        ensures
            final(self).follows(old(self)),
            read_install(final(self).asked_since(old(self)), breakpoints@, old(self).shadow())
                == Some(
                (final(self).shadow(), failures@, final(self).asked_since(old(self)).len()),
            ),
    {
        let mut failures: Vec<InstallFailure> = Vec::new();
        let mut i: usize = 0;
        assert(self.asked_since(old(self)) =~= Seq::empty());
        assert(breakpoints@.take(0) =~= Seq::empty());
        while i < breakpoints.len()
            invariant
                i <= breakpoints@.len(),
                self.follows(old(self)),
                read_install(
                    self.asked_since(old(self)),
                    breakpoints@.take(i as int),
                    old(self).shadow(),
                ) == Some((self.shadow(), failures@, self.asked_since(old(self)).len())),
            decreases breakpoints@.len() - i,
        {
            let addr = breakpoints[i];
            let ghost earlier = *self;
            let ghost reported = failures@;
            let patched = self.write_byte(addr, TRAP_BYTE);
            match patched {
                Ok(_) => {},
                Err(error) => {
                    failures.push(InstallFailure { addr, error });
                },
            }
            proof {
                Self::lemma_asked_in_turn(old(self), &earlier, self);
                let done = earlier.asked_since(old(self));
                let added = self.asked_since(&earlier);
                let so_far = breakpoints@.take(i as int);
                let next = breakpoints@.take(i + 1);
                lemma_read_install_extends(done, added, so_far, old(self).shadow());
                assert(next.drop_last() =~= so_far);
                assert(next.last() == addr);
                assert((done + added).skip(done.len() as int) =~= added);
            }
            i += 1;
        }
        assert(breakpoints@.take(i as int) == breakpoints@);
        failures
    }

    /// The process id of the child, as the child gave it when control was
    /// taken of it.
    pub fn pid(&self) -> (pid: i32)
        ensures
            pid == self.id(),
    {
        self.pid
    }

    /// Blocks until the child changes state and says what it changed to.
    /// For a child that stopped, the instruction pointer is read from its
    /// registers.
    pub fn wait(&mut self) -> (status: Result<Status, Error>)
        ensures
            final(self).follows(old(self)),
            final(self).shadow() == old(self).shadow(),
            read_wait(final(self).asked_since(old(self))) == Some(
                (status, final(self).asked_since(old(self)).len()),
            ),
            status matches Err(e) ==> e is Trace || e is WaitFailed,
    {
        let answer = self.tracee.wait();
        self.note(Ghost(Exchange::Wait(answer)));
        let outcome = match answer {
            Ok(outcome) => outcome,
            Err(errno) => {
                assert(self.asked_since(old(self)) =~= seq![Exchange::Wait(answer)]);
                return Err(Error::Trace(errno));
            },
        };
        match outcome {
            WaitOutcome::Stopped(signal) => {
                let read = self.tracee.registers();
                self.note(Ghost(Exchange::Registers(read)));
                assert(self.asked_since(old(self)) =~= seq![
                    Exchange::Wait(answer),
                    Exchange::Registers(read),
                ]);
                match read {
                    Ok(registers) => Ok(Status::Stopped(signal, registers.rip as usize)),
                    Err(errno) => Err(Error::Trace(errno)),
                }
            },
            _ => {
                assert(self.asked_since(old(self)) =~= seq![Exchange::Wait(answer)]);
                Status::from_wait(outcome, 0)
            },
        }
    }

    /// Lets the stopped child run on, with no signal delivered, and waits
    /// for its next change of state.
    pub fn cont(&mut self) -> (status: Result<Status, Error>)
        ensures
            final(self).follows(old(self)),
            final(self).shadow() == old(self).shadow(),
            read_cont(final(self).asked_since(old(self))) == Some(
                (status, final(self).asked_since(old(self)).len()),
            ),
            status matches Err(e) ==> e is Trace || e is WaitFailed,
    {
        let answer = self.tracee.cont();
        self.note(Ghost(Exchange::Cont(answer)));
        match answer {
            Ok(()) => {
                let ghost asked = *self;
                let status = self.wait();
                assert(self.asked_since(old(self)).skip(1) =~= self.asked_since(&asked));
                status
            },
            Err(errno) => {
                assert(self.asked_since(old(self)) =~= seq![Exchange::Cont(answer)]);
                Err(Error::Trace(errno))
            },
        }
    }

    /// Lets the stopped child run one instruction and waits for the stop
    /// after it.
    pub fn step(&mut self) -> (status: Result<Status, Error>)
        ensures
            final(self).follows(old(self)),
            final(self).shadow() == old(self).shadow(),
            read_step(final(self).asked_since(old(self))) == Some(
                (status, final(self).asked_since(old(self)).len()),
            ),
            status matches Err(e) ==> e is Trace || e is WaitFailed,
    {
        match self.step_only() {
            Ok(()) => {
                let ghost asked = *self;
                let status = self.wait();
                assert(self.asked_since(old(self)).skip(1) =~= self.asked_since(&asked));
                assert(self.asked_since(old(self))[0] == asked.asked_since(old(self))[0]);
                status
            },
            Err(e) => Err(e),
        }
    }

    /// Asks for one instruction of the stopped child to be run, without
    /// waiting for the stop after it.
    pub fn step_only(&mut self) -> (asked: Result<(), Error>)
        ensures
            final(self).follows(old(self)),
            final(self).shadow() == old(self).shadow(),
            read_step_only(final(self).asked_since(old(self))) == Some(
                (asked, final(self).asked_since(old(self)).len()),
            ),
            asked matches Err(e) ==> e is Trace,
    {
        let answer = self.tracee.step();
        self.note(Ghost(Exchange::Step(answer)));
        assert(self.asked_since(old(self)) =~= seq![Exchange::Step(answer)]);
        match answer {
            Ok(()) => Ok(()),
            Err(errno) => Err(Error::Trace(errno)),
        }
    }

    /// The instruction pointer of the stopped child.
    pub fn instruction_pointer(&mut self) -> (rip: Result<usize, Error>)
        ensures
            final(self).follows(old(self)),
            final(self).shadow() == old(self).shadow(),
            read_instruction_pointer(final(self).asked_since(old(self))) == Some(
                (rip, final(self).asked_since(old(self)).len()),
            ),
            rip matches Err(e) ==> e is Trace,
    {
        let answer = self.tracee.registers();
        self.note(Ghost(Exchange::Registers(answer)));
        assert(self.asked_since(old(self)) =~= seq![Exchange::Registers(answer)]);
        match answer {
            Ok(registers) => Ok(registers.rip as usize),
            Err(errno) => Err(Error::Trace(errno)),
        }
    }

    /// Sets the instruction pointer of the stopped child.
    pub fn set_instruction_pointer(&mut self, rip: usize) -> (set: Result<(), Error>)
        ensures
            final(self).follows(old(self)),
            final(self).shadow() == old(self).shadow(),
            read_rewind(final(self).asked_since(old(self)), rip) == Some(
                (set, final(self).asked_since(old(self)).len()),
            ),
            set matches Err(e) ==> e is Trace,
    {
        let answer = self.tracee.set_instruction_pointer(rip as u64);
        self.note(Ghost(Exchange::SetInstructionPointer(rip as u64, answer)));
        assert(self.asked_since(old(self)) =~= seq![
            Exchange::SetInstructionPointer(rip as u64, answer),
        ]);
        match answer {
            Ok(()) => Ok(()),
            Err(errno) => Err(Error::Trace(errno)),
        }
    }

    /// Kills the child and waits for its last status. Whether the kill
    /// itself went through is not looked at: the wait tells.
    pub fn terminate(&mut self) -> (status: Result<Status, Error>)
        ensures
            final(self).follows(old(self)),
            final(self).shadow() == old(self).shadow(),
            read_terminate(final(self).asked_since(old(self))) == Some(
                (status, final(self).asked_since(old(self)).len()),
            ),
            status matches Err(e) ==> e is Trace || e is WaitFailed,
    {
        let answer = self.tracee.kill();
        self.note(Ghost(Exchange::Kill(answer)));
        let ghost asked = *self;
        let status = self.wait();
        assert(self.asked_since(old(self)).skip(1) =~= self.asked_since(&asked));
        assert(self.asked_since(old(self))[0] == Exchange::Kill(answer)) by {
            let n = old(self).exchanges().len() as int;
            assert(asked.exchanges()[n] == Exchange::Kill(answer));
            assert(self.exchanges().subrange(0, n + 1)[n] == asked.exchanges()[n]);
        }
        status
    }

    /// The byte that the breakpoint at `addr` displaced, if the shadow map
    /// has one there.
    pub fn replaced_value(&self, addr: usize) -> (original: Option<u8>)
        ensures
            original is Some <==> self.shadow().dom().contains(addr),
            original matches Some(byte) ==> self.shadow()[addr] == byte,
    {
        match self.replaced_values.get(&addr) {
            Some(byte) => Some(*byte),
            None => None,
        }
    }

    /// Writes `val` at `addr` in the tracee and returns the byte that was
    /// there.
    ///
    /// The word that holds `addr` is read at its boundary, the one byte is
    /// replaced in it, and the word is written back. Writing the trap byte
    /// at an address that the shadow map does not hold records the displaced
    /// byte there; in every other case the map stays as it is, so that it
    /// holds the original byte of each breakpoint whatever is written over
    /// it later. If the read or the write fails, so does the patch.
    pub fn write_byte(&mut self, addr: usize, val: u8) -> (displaced: Result<u8, Error>)
        ensures
            final(self).follows(old(self)),
            read_patch(final(self).asked_since(old(self)), addr, val) == Some(
                (displaced, final(self).asked_since(old(self)).len()),
            ),
            displaced matches Ok(original) ==> final(self).shadow() == shadow_after(
                old(self).shadow(),
                addr,
                val,
                original,
            ),
            displaced matches Err(e) ==> e is MemoryAccess && final(self).shadow() == old(
                self,
            ).shadow(),
    {
        let base = word_base(addr);
        let read = self.tracee.peek(base);
        self.note(Ghost(Exchange::Peek(base, read)));
        let word = match read {
            Ok(word) => word,
            Err(errno) => {
                assert(self.asked_since(old(self)) =~= seq![Exchange::Peek(base, read)]);
                return Err(Error::MemoryAccess(errno));
            },
        };
        let (patched, original) = patch_word(word, byte_offset(addr), val);
        let written = self.tracee.poke(base, patched);
        self.note(Ghost(Exchange::Poke(base, patched, written)));
        assert(self.asked_since(old(self)) =~= seq![
            Exchange::Peek(base, read),
            Exchange::Poke(base, patched, written),
        ]);
        match written {
            Ok(()) => {},
            Err(errno) => {
                return Err(Error::MemoryAccess(errno));
            },
        }
        if val == TRAP_BYTE && !self.replaced_values.contains_key(&addr) {
            self.replaced_values.insert(addr, original);
        }
        Ok(original)
    }

    /// Walks the stack of the stopped tracee along its frame pointers.
    ///
    /// The walk starts at the instruction pointer and the frame pointer in
    /// the registers. A frame in the entry function ends it. From any other
    /// frame the caller's instruction pointer is read one word above the
    /// frame pointer, and the caller's frame pointer at the frame pointer.
    /// The walk reads and never writes.
    pub fn backtrace(&mut self, debug_data: &DwarfData) -> (trace: Backtrace)
        ensures
            final(self).follows(old(self)),
            final(self).shadow() == old(self).shadow(),
            only_reads(final(self).asked_since(old(self))),
            read_walk(final(self).asked_since(old(self)), *debug_data) == Some(
                (trace.frames@, trace.error, final(self).asked_since(old(self)).len()),
            ),
    {
        let mut frames: Vec<usize> = Vec::new();
        let read = self.tracee.registers();
        self.note(Ghost(Exchange::Registers(read)));
        let registers = match read {
            Ok(registers) => registers,
            Err(errno) => {
                return Backtrace { frames, error: Some(Error::Trace(errno)) };
            },
        };
        let ghost first_rip = registers.rip as usize;
        let ghost first_rbp = registers.rbp as usize;
        let ghost done: Seq<Exchange> = Seq::empty();
        let mut rip = registers.rip as usize;
        let mut rbp = registers.rbp as usize;
        proof {
            assert forall|tail: Seq<Exchange>|
                #[trigger] read_frames(done + tail, *debug_data, first_rip, first_rbp, 0) == joined(
                    frames@,
                    done.len(),
                    read_frames(tail, *debug_data, rip, rbp, frames@.len()),
                ) by {
                assert(done + tail =~= tail);
                match read_frames(tail, *debug_data, rip, rbp, 0) {
                    Some((more, _, _)) => {
                        assert(frames@ + more =~= more);
                    },
                    None => {},
                }
            }
        }
        loop
            invariant
                frames@.len() < usize::MAX,
                self.follows(old(self)),
                self.shadow() == old(self).shadow(),
                only_reads(self.asked_since(old(self))),
                self.asked_since(old(self)) == seq![Exchange::Registers(read)] + done,
                read == Ok::<Registers, i32>(registers),
                first_rip == registers.rip as usize,
                first_rbp == registers.rbp as usize,
                forall|tail: Seq<Exchange>|
                    #[trigger] read_frames(done + tail, *debug_data, first_rip, first_rbp, 0)
                        == joined(
                        frames@,
                        done.len(),
                        read_frames(tail, *debug_data, rip, rbp, frames@.len()),
                    ),
            decreases usize::MAX - frames@.len(),
        {
            let ghost found = frames@;
            frames.push(rip);
            if is_entry(debug_data, rip) || frames.len() == usize::MAX {
                proof {
                    let tail = Seq::<Exchange>::empty();
                    assert(done + tail =~= done);
                    assert(found + seq![rip] =~= frames@);
                    assert((seq![Exchange::Registers(read)] + done).skip(1) =~= done);
                    assert(read_frames(done + tail, *debug_data, first_rip, first_rbp, 0) == Some(
                        (frames@, None::<Error>, done.len()),
                    ));
                }
                return Backtrace { frames, error: None };
            }
            let ghost earlier = *self;
            let slot = return_slot(rbp);
            let above = self.tracee.peek(slot);
            self.note(Ghost(Exchange::Peek(slot, above)));
            proof {
                Self::lemma_asked_in_turn(old(self), &earlier, self);
            }
            let ret = match above {
                Ok(word) => word as usize,
                Err(errno) => {
                    proof {
                        let tail = seq![Exchange::Peek(slot, above)];
                        assert(found + seq![rip] =~= frames@);
                        assert(self.asked_since(old(self)).skip(1) =~= done + tail);
                        assert(read_frames(done + tail, *debug_data, first_rip, first_rbp, 0)
                            == Some(
                            (frames@, Some(Error::MemoryAccess(errno)), done.len() + 1),
                        ));
                    }
                    return Backtrace { frames, error: Some(Error::MemoryAccess(errno)) };
                },
            };
            let ghost between = *self;
            let saved = self.tracee.peek(rbp);
            self.note(Ghost(Exchange::Peek(rbp, saved)));
            proof {
                Self::lemma_asked_in_turn(old(self), &between, self);
            }
            let next = match saved {
                Ok(word) => word as usize,
                Err(errno) => {
                    proof {
                        let tail = seq![Exchange::Peek(slot, above), Exchange::Peek(rbp, saved)];
                        assert(found + seq![rip] =~= frames@);
                        assert(self.asked_since(old(self)).skip(1) =~= done + tail);
                        assert(read_frames(done + tail, *debug_data, first_rip, first_rbp, 0)
                            == Some(
                            (frames@, Some(Error::MemoryAccess(errno)), done.len() + 2),
                        ));
                    }
                    return Backtrace { frames, error: Some(Error::MemoryAccess(errno)) };
                },
            };
            proof {
                let step = seq![Exchange::Peek(slot, above), Exchange::Peek(rbp, saved)];
                let longer = done + step;
                assert(self.asked_since(old(self)) =~= seq![Exchange::Registers(read)] + longer);
                assert forall|tail: Seq<Exchange>|
                    #[trigger] read_frames(longer + tail, *debug_data, first_rip, first_rbp, 0)
                        == joined(
                        frames@,
                        longer.len(),
                        read_frames(tail, *debug_data, ret, next, frames@.len()),
                    ) by {
                    let whole = step + tail;
                    assert(longer + tail =~= done + whole);
                    assert(whole[0] == step[0] && whole[1] == step[1]);
                    assert(whole.skip(2) =~= tail);
                    let rest = read_frames(tail, *debug_data, ret, next, frames@.len());
                    assert(read_frames(whole, *debug_data, rip, rbp, found.len()) == joined(
                        seq![rip],
                        2,
                        rest,
                    ));
                    assert(read_frames(done + whole, *debug_data, first_rip, first_rbp, 0)
                        == joined(found, done.len(), read_frames(whole, *debug_data, rip, rbp, found.len())));
                    match rest {
                        Some((more, _, _)) => {
                            assert(found + (seq![rip] + more) =~= frames@ + more);
                        },
                        None => {},
                    }
                }
                done = longer;
            }
            rip = ret;
            rbp = next;
        }
    }

    /// Walks the stack and writes one line for each frame found.
    pub fn print_backtrace(&mut self, debug_data: &DwarfData) -> (printed: (
        Vec<String>,
        Option<Error>,
    ))
        ensures
            final(self).follows(old(self)),
            final(self).shadow() == old(self).shadow(),
            only_reads(final(self).asked_since(old(self))),
            read_walk(final(self).asked_since(old(self)), *debug_data) matches Some(
                (frames, error, taken),
            ) && taken == final(self).asked_since(old(self)).len() && error == printed.1 && texts(
                printed.0@,
            ) == frame_texts(*debug_data, frames),
    {
        let trace = self.backtrace(debug_data);
        let lines = frame_lines(debug_data, &trace.frames);
        (lines, trace.error)
    }
}

/// Whether every request of `asked` reads from the tracee: its registers,
/// or a word of its memory.
pub open spec fn only_reads(asked: Seq<Exchange>) -> bool {
    forall|i: int| 0 <= i < asked.len() ==> (#[trigger] asked[i]) is Registers || asked[i] is Peek
}

/// A wait reads the same off a longer list of requests.
pub proof fn lemma_read_wait_extends(asked: Seq<Exchange>, more: Seq<Exchange>)
    requires
        read_wait(asked) is Some,
    ensures
        read_wait(asked + more) == read_wait(asked),
{
    assert((asked + more)[0] == asked[0]);
    if asked.len() >= 2 {
        assert((asked + more)[1] == asked[1]);
    }
}

/// A request for one instruction reads the same off a longer list.
pub proof fn lemma_read_step_only_extends(asked: Seq<Exchange>, more: Seq<Exchange>)
    requires
        read_step_only(asked) is Some,
    ensures
        read_step_only(asked + more) == read_step_only(asked),
{
    assert((asked + more)[0] == asked[0]);
}

/// A request to set the instruction pointer reads the same off a longer
/// list.
pub proof fn lemma_read_rewind_extends(asked: Seq<Exchange>, more: Seq<Exchange>, rip: usize)
    requires
        read_rewind(asked, rip) is Some,
    ensures
        read_rewind(asked + more, rip) == read_rewind(asked, rip),
{
    assert((asked + more)[0] == asked[0]);
}

/// The instruction pointer reads the same off a longer list.
pub proof fn lemma_read_instruction_pointer_extends(asked: Seq<Exchange>, more: Seq<Exchange>)
    requires
        read_instruction_pointer(asked) is Some,
    ensures
        read_instruction_pointer(asked + more) == read_instruction_pointer(asked),
{
    assert((asked + more)[0] == asked[0]);
}

/// Whether a read was answered from `memory`: a read that gave a word gave
/// the word that `memory` holds there.
pub open spec fn answered_from(memory: Map<usize, u8>, exchange: Exchange) -> bool {
    exchange matches Exchange::Peek(at, Ok(word)) ==> word_mapped(memory, at) && word == peek(
        memory,
        at,
    )
}

/// The memory after a request made of a tracee with memory `memory`: a
/// write that went through has put its word there.
pub open spec fn memory_after(memory: Map<usize, u8>, exchange: Exchange) -> Map<usize, u8> {
    match exchange {
        Exchange::Poke(to, word, Ok(_)) => poke(memory, to, word),
        _ => memory,
    }
}

/// A byte patch that went through, on a tracee that answers reads from
/// its memory and takes writes into it, gives the byte that was at the
/// address and leaves the memory changed at that address alone.
pub proof fn lemma_patch_of_memory(
    asked: Seq<Exchange>,
    memory: Map<usize, u8>,
    addr: usize,
    val: u8,
    displaced: u8,
)
    requires
        read_patch(asked, addr, val) == Some((Ok::<u8, Error>(displaced), 2nat)),
        answered_from(memory, asked[0]),
    ensures
        displaced == memory[addr],
        memory_after(memory, asked[1]) == memory.insert(addr, val),
{
    let s = Snapshot { memory, shadow: Map::empty() };
    lemma_patch_touches_one_byte(s, addr, val);
}

/// The memory of a tracee that had the memory `memory` and took the
/// requests `asked`, one after the other.
pub open spec fn memory_through(asked: Seq<Exchange>, memory: Map<usize, u8>) -> Map<usize, u8>
    decreases asked.len(),
{
    if asked.len() == 0 {
        memory
    } else {
        memory_after(memory_through(asked.drop_last(), memory), asked.last())
    }
}

/// Whether the tracee answered every read of `asked` from its memory, as
/// that memory was by then: it started as `memory` and took the writes
/// made before the read.
pub open spec fn answers_from(asked: Seq<Exchange>, memory: Map<usize, u8>) -> bool {
    forall|i: int|
        0 <= i < asked.len() ==> answered_from(
            memory_through(asked.take(i), memory),
            #[trigger] asked[i],
        )
}

/// Installing breakpoints in a tracee that answers from its memory leaves
/// the memory an overlay of the same image: each address of the shadow map
/// holds the trap byte, the map holds the byte that the image has there,
/// also where one address has two breakpoints, and no other byte of the
/// memory has changed.
pub proof fn lemma_install_of_memory(
    asked: Seq<Exchange>,
    breakpoints: Seq<usize>,
    shadow: Map<usize, u8>,
    memory: Map<usize, u8>,
    image: Map<usize, u8>,
)
    requires
        read_install(asked, breakpoints, shadow) is Some,
        answers_from(asked.take(read_install(asked, breakpoints, shadow)->Some_0.2 as int), memory),
        (Snapshot { memory, shadow }).overlays(image),
    ensures
        read_install(asked, breakpoints, shadow)->Some_0.2 <= asked.len(),
        (Snapshot {
            memory: memory_through(
                asked.take(read_install(asked, breakpoints, shadow)->Some_0.2 as int),
                memory,
            ),
            shadow: read_install(asked, breakpoints, shadow)->Some_0.0,
        }).overlays(image),
    decreases breakpoints.len(),
{
    lemma_read_install_extends(asked, Seq::empty(), breakpoints, shadow);
    let taken = read_install(asked, breakpoints, shadow)->Some_0.2 as int;
    if breakpoints.len() == 0 {
        assert(asked.take(0) =~= Seq::empty());
    } else {
        let earlier = breakpoints.drop_last();
        let addr = breakpoints.last();
        lemma_read_install_extends(asked, Seq::empty(), earlier, shadow);
        let (before, _, done) = read_install(asked, earlier, shadow)->Some_0;
        let done = done as int;
        let rest = asked.skip(done);
        assert(done <= taken <= asked.len());
        assert forall|i: int| 0 <= i < done implies answered_from(
            memory_through(asked.take(done).take(i), memory),
            #[trigger] asked.take(done)[i],
        ) by {
            assert(asked.take(done).take(i) =~= asked.take(taken).take(i));
            assert(asked.take(done)[i] == asked.take(taken)[i]);
        }
        lemma_install_of_memory(asked, earlier, shadow, memory, image);
        let then = memory_through(asked.take(done), memory);
        let s = Snapshot { memory: then, shadow: before };
        assert(asked.take(taken).take(done) =~= asked.take(done));
        assert(answered_from(then, asked.take(taken)[done]));
        assert(asked.take(taken)[done] == rest[0]);
        assert(asked.take(done + 1).drop_last() =~= asked.take(done));
        assert(asked.take(done + 1).last() == rest[0]);
        match rest[0] {
            Exchange::Peek(at, Ok(word)) => {
                assert(asked.take(done + 2).drop_last() =~= asked.take(done + 1));
                assert(asked.take(done + 2).last() == rest[1]);
                assert(at == Snapshot::base(addr));
                lemma_install_keeps_overlay(s, image, addr);
                match rest[1] {
                    Exchange::Poke(_, _, Ok(_)) => {
                        assert(memory_through(asked.take(taken), memory) == s.write_byte(
                            addr,
                            TRAP_BYTE,
                        ).memory);
                    },
                    _ => {},
                }
            },
            _ => {},
        }
    }
}

/// A launch that went through, of a tracee that answers from its memory,
/// leaves the memory the image that the tracee started with, with the trap
/// byte at the addresses of the shadow map and nowhere else, and the map
/// holds the bytes that the image has at those addresses.
pub proof fn lemma_launch_of_memory(
    asked: Seq<Exchange>,
    breakpoints: Seq<usize>,
    image: Map<usize, u8>,
    pid: i32,
    shadow: Map<usize, u8>,
    failures: Seq<InstallFailure>,
)
    requires
        read_launch(asked, breakpoints) == Some(
            (pid, Ok::<(Map<usize, u8>, Seq<InstallFailure>), Error>((shadow, failures)), asked.len()),
        ),
        answers_from(asked, image),
    ensures
        (Snapshot { memory: memory_through(asked, image), shadow }).overlays(image),
        (Snapshot { memory: memory_through(asked, image), shadow }).consistent(),
{
    let waited = read_wait(asked.skip(1))->Some_0.1 as int;
    let start = 1 + waited;
    let rest = asked.skip(start);
    lemma_read_install_extends(rest, Seq::empty(), breakpoints, Map::empty());
    assert(rest.take(rest.len() as int) =~= rest);
    lemma_reads_keep_memory(asked.take(start), image);
    lemma_memory_in_turn(asked, start, image);
    let then = memory_through(asked.take(start), image);
    assert(then == image);
    assert forall|i: int| 0 <= i < rest.len() implies answered_from(
        memory_through(rest.take(i), then),
        #[trigger] rest[i],
    ) by {
        lemma_memory_in_turn(asked.take(start + i), start, image);
        assert(asked.take(start + i).take(start) =~= asked.take(start));
        assert(asked.take(start + i).skip(start) =~= rest.take(i));
        assert(asked[start + i] == rest[i]);
    }
    lemma_install_of_memory(rest, breakpoints, Map::empty(), then, image);
    assert(memory_through(asked, image) == memory_through(rest, then)) by {
        assert(asked.take(asked.len() as int) =~= asked);
    }
    lemma_overlay_is_consistent(
        Snapshot { memory: memory_through(asked, image), shadow },
        image,
    );
}

/// Requests that write nothing leave the memory as it is.
pub proof fn lemma_reads_keep_memory(asked: Seq<Exchange>, memory: Map<usize, u8>)
    requires
        forall|i: int| 0 <= i < asked.len() ==> !(#[trigger] asked[i] is Poke),
    ensures
        memory_through(asked, memory) == memory,
    decreases asked.len(),
{
    if asked.len() > 0 {
        assert forall|i: int| 0 <= i < asked.drop_last().len() implies !(
        #[trigger] asked.drop_last()[i] is Poke) by {
            assert(asked.drop_last()[i] == asked[i]);
        }
        lemma_reads_keep_memory(asked.drop_last(), memory);
    }
}

/// The memory after a list of requests is the memory after its first
/// `n`, taken through the rest.
pub proof fn lemma_memory_in_turn(asked: Seq<Exchange>, n: int, memory: Map<usize, u8>)
    requires
        0 <= n <= asked.len(),
    ensures
        memory_through(asked, memory) == memory_through(
            asked.skip(n),
            memory_through(asked.take(n), memory),
        ),
    decreases asked.len(),
{
    if n == asked.len() {
        assert(asked.take(n) =~= asked);
        assert(asked.skip(n) =~= Seq::empty());
    } else {
        lemma_memory_in_turn(asked.drop_last(), n, memory);
        assert(asked.drop_last().take(n) =~= asked.take(n));
        assert(asked.skip(n).drop_last() =~= asked.drop_last().skip(n));
        assert(asked.skip(n).last() == asked.last());
    }
}

/// A byte patch reads the same off a longer list.
pub proof fn lemma_read_patch_extends(asked: Seq<Exchange>, more: Seq<Exchange>, addr: usize, val: u8)
    requires
        read_patch(asked, addr, val) is Some,
    ensures
        read_patch(asked + more, addr, val) == read_patch(asked, addr, val),
{
    assert((asked + more)[0] == asked[0]);
    if asked.len() >= 2 {
        assert((asked + more)[1] == asked[1]);
    }
}

/// Installing reads the same off a longer list, and takes no more
/// requests than there are.
pub proof fn lemma_read_install_extends(
    asked: Seq<Exchange>,
    more: Seq<Exchange>,
    breakpoints: Seq<usize>,
    shadow: Map<usize, u8>,
)
    requires
        read_install(asked, breakpoints, shadow) is Some,
    ensures
        read_install(asked + more, breakpoints, shadow) == read_install(asked, breakpoints, shadow),
        read_install(asked, breakpoints, shadow)->Some_0.2 <= asked.len(),
    decreases breakpoints.len(),
{
    if breakpoints.len() > 0 {
        lemma_read_install_extends(asked, more, breakpoints.drop_last(), shadow);
        let taken = read_install(asked, breakpoints.drop_last(), shadow)->Some_0.2;
        assert((asked + more).skip(taken as int) =~= asked.skip(taken as int) + more);
        lemma_read_patch_extends(asked.skip(taken as int), more, breakpoints.last(), TRAP_BYTE);
    }
}

/// A launch reads the same off a longer list.
pub proof fn lemma_read_launch_extends(asked: Seq<Exchange>, more: Seq<Exchange>, breakpoints: Seq<usize>)
    requires
        read_launch(asked, breakpoints) is Some,
    ensures
        read_launch(asked + more, breakpoints) == read_launch(asked, breakpoints),
{
    assert((asked + more)[0] == asked[0]);
    assert((asked + more).skip(1) =~= asked.skip(1) + more);
    lemma_read_wait_extends(asked.skip(1), more);
    match read_wait(asked.skip(1)) {
        Some((first, taken)) => {
            if launch_failure(first) is None {
                assert((asked + more).skip(1 + taken as int) =~= asked.skip(1 + taken as int) + more);
                lemma_read_install_extends(asked.skip(1 + taken as int), more, breakpoints, Map::empty());
            }
        },
        None => {},
    }
}

/// Writes one line for each frame of a stack walk.
pub fn frame_lines(debug_data: &DwarfData, frames: &Vec<usize>) -> (lines: Vec<String>)
    ensures
        texts(lines@) == frame_texts(*debug_data, frames@),
{
    let mut lines: Vec<String> = Vec::new();
    let mut i: usize = 0;
    while i < frames.len()
        invariant
            i <= frames@.len(),
            texts(lines@) =~= frame_texts(*debug_data, frames@.take(i as int)),
        decreases frames@.len() - i,
    {
        let line = frame_line(debug_data, frames[i]);
        let ghost shown = lines@;
        lines.push(line);
        proof {
            assert(texts(lines@) =~= texts(shown).push(line@));
            assert(frames@.take(i + 1) =~= frames@.take(i as int).push(frames@[i as int]));
            assert(frame_texts(*debug_data, frames@.take(i + 1)) =~= frame_texts(
                *debug_data,
                frames@.take(i as int),
            ).push(frame_text(*debug_data, frames@[i as int])));
        }
        i += 1;
    }
    assert(frames@.take(i as int) == frames@);
    lines
}

} // verus!
