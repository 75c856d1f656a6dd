//! The debugger session: the user's breakpoints, the inferior under
//! control, and what each command does to them.
//!
//! The session neither reads commands nor prints. It is handed one event
//! at a time, a command of the user or the outcome of starting the target,
//! and answers with the lines to show and with what has to happen next.

use crate::debugger_command::DebuggerCommand;
use crate::dwarf_data::DwarfData;
use crate::error::{Error, Fault, LaunchFailure};
use crate::inferior::lemma_read_instruction_pointer_extends;
use crate::inferior::{lemma_read_patch_extends, lemma_read_rewind_extends};
use crate::inferior::{read_cont, read_instruction_pointer};
use crate::inferior::{lemma_read_step_only_extends, lemma_read_wait_extends};
use crate::inferior::{frame_texts, lemma_read_launch_extends, read_launch, read_terminate};
use crate::inferior::{only_reads, read_patch, read_rewind, read_step_only, read_wait, read_walk};
use crate::inferior::{trap_site, trap_site_of, Exchange, Inferior, InstallFailure};
use crate::inferior::{answers_from, lemma_memory_in_turn, lemma_patch_of_memory};
use crate::inferior::{lemma_reads_keep_memory, memory_after, memory_through};
use crate::memory::{shadow_after, Snapshot};
use crate::status::Status;
use crate::text::{decimal_digits, decimal_int, hex_address, number_of, texts};
use crate::text::{parse_decimal, parse_number};
use crate::text::{to_decimal, to_decimal_signed, to_hex_address};
use crate::tracee::Tracee;
use crate::word::TRAP_BYTE;
use vstd::prelude::*;
use vstd::string::{StrSliceExecFns, StringExecFns};

verus! {

/// How an attempt to let the tracee run on ended without a status.
#[derive(Clone, Copy, Debug, PartialEq, Eq)]
pub enum Halt {
    /// The sequence that crosses a breakpoint broke off. The tracee's text
    /// may hold a half-applied patch; the session must end.
    Fatal(Fault),
    /// The tracee could not be asked where it stopped, or could not be
    /// continued. Its text is whole; the session goes on.
    Failed(Error),
}

/// What the session is told.
pub enum Event<T: Tracee> {
    /// The user gave this command.
    Command(DebuggerCommand),
    /// The target was started, as this child.
    Spawned(T),
    /// The target could not be started.
    SpawnFailed,
}

/// What has to happen after an event.
#[derive(Debug)]
pub enum Action {
    /// Ask the user for the next command.
    Prompt,
    /// Start the target with these arguments, as a child that asks to be
    /// traced before it runs the target, and tell the session how that went.
    Spawn(Vec<String>),
    /// End the session.
    Exit,
    /// End the session at once: the tracee is in a state from which it
    /// cannot go on.
    Abort,
}

/// The session's answer to an event.
#[derive(Debug)]
pub struct Response {
    /// The lines to show, in order.
    pub lines: Vec<String>,
    /// What has to happen next.
    pub action: Action,
}

/// The debugger session.
///
/// Besides its inferior the session keeps, for proofs only, the
/// controllers that it has let go of, each as it was then: what a command
/// did to a tracee that is no longer held is stated over them.
pub struct Debugger<T: Tracee> {
    target: String,
    inferior: Option<Inferior<T>>,
    debug_data: DwarfData,
    breakpoints: Vec<usize>,
    retired: Ghost<Seq<Inferior<T>>>,
}

/// Whether `spec` starts with `0x` or `0X`.
pub open spec fn has_hex_prefix(spec: Seq<char>) -> bool {
    spec.len() >= 2 && spec[0] == '0' && (spec[1] == 'x' || spec[1] == 'X')
}

/// The address that the text of a breakpoint stands for.
///
/// After `0x`, in either case, the text is an address in base 16. Decimal
/// digits alone are a line number, which the symbol table resolves. Any
/// other text is a function's name, which the symbol table resolves too.
pub open spec fn resolve(debug_data: DwarfData, spec: Seq<char>) -> Option<usize> {
    if has_hex_prefix(spec) {
        number_of(spec.skip(2), 16)
    } else {
        match number_of(spec, 10) {
            Some(line) => debug_data.addr_of_line(None, line),
            None => debug_data.addr_of_function(spec),
        }
    }
}

/// The line that reports a status to the user.
pub open spec fn status_text(debug_data: DwarfData, status: Status) -> Seq<char> {
    match status {
        Status::Exited(code) => "target exited (status "@ + decimal_int(code as int) + ")"@,
        Status::Signaled(signal) => "target signaled(killed) by "@ + signal.text(),
        Status::Stopped(signal, rip) => "target stopped at "@ + hex_address(rip as nat)
            + " by signal "@ + signal.text() + " in "@ + debug_data.function_text(rip) + " ("@
            + debug_data.line_text(rip) + ")"@,
    }
}

/// The line that confirms a breakpoint.
pub open spec fn breakpoint_text(ordinal: nat, addr: usize) -> Seq<char> {
    "set breakpoint "@ + decimal_digits(ordinal) + " at position "@ + hex_address(addr as nat)
}

/// The line that reports a breakpoint that could not be written.
pub open spec fn install_failure_text(failure: InstallFailure) -> Seq<char> {
    "failed to set breakpoint at position "@ + hex_address(failure.addr as nat) + ", "@
        + failure.error.text()
}

/// The line that reports an error, after a few words on what failed.
pub open spec fn failure_text(what: Seq<char>, error: Error) -> Seq<char> {
    what + ", "@ + error.text()
}

/// Writes the line that confirms a breakpoint.
pub fn breakpoint_line(ordinal: usize, addr: usize) -> (line: String)
    ensures
        line@ == breakpoint_text(ordinal as nat, addr),
{
    let mut line = String::from_str("set breakpoint ");
    let number = to_decimal(ordinal);
    line.append(number.as_str());
    line.append(" at position ");
    let address = to_hex_address(addr);
    line.append(address.as_str());
    line
}

/// Writes the line that reports a breakpoint that could not be written.
pub fn install_failure_line(failure: &InstallFailure) -> (line: String)
    ensures
        line@ == install_failure_text(*failure),
{
    let mut line = String::from_str("failed to set breakpoint at position ");
    let address = to_hex_address(failure.addr);
    line.append(address.as_str());
    line.append(", ");
    let cause = failure.error.message();
    line.append(cause.as_str());
    line
}

/// Writes the line that reports an error.
pub fn failure_line(what: &str, error: &Error) -> (line: String)
    ensures
        line@ == failure_text(what@, *error),
{
    let mut line = String::from_str(what);
    line.append(", ");
    let cause = error.message();
    line.append(cause.as_str());
    line
}

/// Whether a tracee that stopped with its instruction pointer at `rip` has
/// just run into one of its breakpoints: the byte before `rip` is in the
/// shadow map.
pub open spec fn at_breakpoint(shadow: Map<usize, u8>, rip: usize) -> bool {
    trap_site_of(rip) matches Some(site) && shadow.dom().contains(site)
}

/// What writing the trap byte again at `site` comes to: one byte patch.
pub open spec fn read_rearm(asked: Seq<Exchange>, site: usize) -> Option<(Result<(), Fault>, nat)> {
    match read_patch(asked, site, TRAP_BYTE) {
        None => None,
        Some((Err(e), taken)) => Some((Err(Fault::Rearm(e)), taken)),
        Some((Ok(_), taken)) => Some((Ok(()), taken)),
    }
}

/// What the end of a crossing comes to, from the wait for the stop after
/// the single step on: the wait, whose status plays no part unless it is an
/// error, and then the trap byte written again.
pub open spec fn read_awaited(asked: Seq<Exchange>, site: usize) -> Option<(Result<(), Fault>, nat)> {
    match read_wait(asked) {
        None => None,
        Some((Err(e), taken)) => Some((Err(Fault::AwaitStep(e)), taken)),
        Some((Ok(_), taken)) => match read_rearm(asked.skip(taken as int), site) {
            None => None,
            Some((done, more)) => Some((done, taken + more)),
        },
    }
}

/// What a crossing comes to from the single step on: the request for one
/// instruction, and then the wait and the trap byte.
pub open spec fn read_stepped(asked: Seq<Exchange>, site: usize) -> Option<(Result<(), Fault>, nat)> {
    match read_step_only(asked) {
        None => None,
        Some((Err(e), taken)) => Some((Err(Fault::Step(e)), taken)),
        Some((Ok(_), taken)) => match read_awaited(asked.skip(taken as int), site) {
            None => None,
            Some((done, more)) => Some((done, taken + more)),
        },
    }
}

/// What a crossing comes to once the original byte is back: the
/// instruction pointer is set to `site`, and then the step, the wait and
/// the trap byte.
pub open spec fn read_rewound(asked: Seq<Exchange>, site: usize) -> Option<(Result<(), Fault>, nat)> {
    match read_rewind(asked, site) {
        None => None,
        Some((Err(e), taken)) => Some((Err(Fault::Rewind(e)), taken)),
        Some((Ok(_), taken)) => match read_stepped(asked.skip(taken as int), site) {
            None => None,
            Some((done, more)) => Some((done, taken + more)),
        },
    }
}

/// What crossing a breakpoint comes to, for a tracee that stopped with its
/// instruction pointer at `rip` while its shadow map was `shadow`.
///
/// Where the byte before `rip` is not in the map, nothing is asked of the
/// tracee. Where it is, the byte that the map holds for it is written
/// there. If that patch fails, or displaces another byte than the trap
/// byte, the crossing breaks off. Else the instruction pointer is set onto
/// that address, one instruction is run and waited for, and the trap byte
/// is written again; the first of these that fails breaks the crossing
/// off, and nothing is asked after it.
pub open spec fn read_crossing(asked: Seq<Exchange>, shadow: Map<usize, u8>, rip: usize) -> Option<
    (Result<(), Fault>, nat),
> {
    if !at_breakpoint(shadow, rip) {
        Some((Ok(()), 0))
    } else {
        let site = trap_site_of(rip)->Some_0;
        match read_patch(asked, site, shadow[site]) {
            None => None,
            Some((Err(e), taken)) => Some((Err(Fault::RestoreByte(e)), taken)),
            Some((Ok(found), taken)) => if found != TRAP_BYTE {
                Some((Err(Fault::Integrity(found)), taken))
            } else {
                match read_rewound(asked.skip(taken as int), site) {
                    None => None,
                    Some((done, more)) => Some((done, taken + more)),
                }
            },
        }
    }
}

/// Writes the trap byte again at `site`.
fn rearm<T: Tracee>(inferior: &mut Inferior<T>, site: usize) -> (done: Result<(), Fault>)
    requires
        old(inferior).shadow().dom().contains(site),
    ensures
        final(inferior).follows(old(inferior)),
        final(inferior).shadow() == old(inferior).shadow(),
        read_rearm(final(inferior).asked_since(old(inferior)), site) == Some(
            (done, final(inferior).asked_since(old(inferior)).len()),
        ),
        done matches Err(fault) ==> fault matches Fault::Rearm(e) && e is MemoryAccess,
{
    match inferior.write_byte(site, TRAP_BYTE) {
        Ok(_) => Ok(()),
        Err(e) => Err(Fault::Rearm(e)),
    }
}

/// Waits for the stop after the single step and writes the trap byte
/// again.
fn await_and_rearm<T: Tracee>(inferior: &mut Inferior<T>, site: usize) -> (done: Result<(), Fault>)
    requires
        old(inferior).shadow().dom().contains(site),
    ensures
        final(inferior).follows(old(inferior)),
        final(inferior).shadow() == old(inferior).shadow(),
        read_awaited(final(inferior).asked_since(old(inferior)), site) == Some(
            (done, final(inferior).asked_since(old(inferior)).len()),
        ),
        done matches Err(fault) ==> match fault {
            Fault::AwaitStep(e) => e is Trace || e is WaitFailed,
            Fault::Rearm(e) => e is MemoryAccess,
            _ => false,
        },
{
    match inferior.wait() {
        Ok(_) => {},
        Err(e) => {
            return Err(Fault::AwaitStep(e));
        },
    }
    let ghost waited = *inferior;
    let done = rearm(inferior, site);
    proof {
        Inferior::lemma_asked_in_turn(old(inferior), &waited, inferior);
        let first = waited.asked_since(old(inferior));
        let rest = inferior.asked_since(&waited);
        lemma_read_wait_extends(first, rest);
        assert((first + rest).skip(first.len() as int) =~= rest);
    }
    done
}

/// Lets the tracee run the restored instruction and writes the trap byte
/// again.
fn step_and_rearm<T: Tracee>(inferior: &mut Inferior<T>, site: usize) -> (done: Result<(), Fault>)
    requires
        old(inferior).shadow().dom().contains(site),
    ensures
        final(inferior).follows(old(inferior)),
        final(inferior).shadow() == old(inferior).shadow(),
        read_stepped(final(inferior).asked_since(old(inferior)), site) == Some(
            (done, final(inferior).asked_since(old(inferior)).len()),
        ),
        done matches Err(fault) ==> match fault {
            Fault::Step(e) => e is Trace,
            Fault::AwaitStep(e) => e is Trace || e is WaitFailed,
            Fault::Rearm(e) => e is MemoryAccess,
            _ => false,
        },
{
    match inferior.step_only() {
        Ok(()) => {},
        Err(e) => {
            return Err(Fault::Step(e));
        },
    }
    let ghost stepped = *inferior;
    let done = await_and_rearm(inferior, site);
    proof {
        Inferior::lemma_asked_in_turn(old(inferior), &stepped, inferior);
        let first = stepped.asked_since(old(inferior));
        let rest = inferior.asked_since(&stepped);
        lemma_read_step_only_extends(first, rest);
        assert((first + rest).skip(first.len() as int) =~= rest);
    }
    done
}

/// Sets the instruction pointer onto the restored instruction at `site`,
/// lets the tracee run it and writes the trap byte again.
fn rewind_and_step<T: Tracee>(inferior: &mut Inferior<T>, site: usize) -> (done: Result<(), Fault>)
    requires
        old(inferior).shadow().dom().contains(site),
    ensures
        final(inferior).follows(old(inferior)),
        final(inferior).shadow() == old(inferior).shadow(),
        read_rewound(final(inferior).asked_since(old(inferior)), site) == Some(
            (done, final(inferior).asked_since(old(inferior)).len()),
        ),
        done matches Err(fault) ==> match fault {
            Fault::Rewind(e) => e is Trace,
            Fault::Step(e) => e is Trace,
            Fault::AwaitStep(e) => e is Trace || e is WaitFailed,
            Fault::Rearm(e) => e is MemoryAccess,
            _ => false,
        },
{
    match inferior.set_instruction_pointer(site) {
        Ok(()) => {},
        Err(e) => {
            return Err(Fault::Rewind(e));
        },
    }
    let ghost rewound = *inferior;
    let done = step_and_rearm(inferior, site);
    proof {
        Inferior::lemma_asked_in_turn(old(inferior), &rewound, inferior);
        let first = rewound.asked_since(old(inferior));
        let rest = inferior.asked_since(&rewound);
        lemma_read_rewind_extends(first, rest, site);
        assert((first + rest).skip(first.len() as int) =~= rest);
    }
    done
}

/// Takes a tracee that stopped with its instruction pointer at `rip` across
/// the breakpoint it has run into, if it has run into one.
///
/// The original byte is written back over the trap byte, and the patch
/// must report that it displaced the trap byte. The instruction pointer is
/// set back onto the restored instruction, the tracee runs that one
/// instruction, and the trap byte is written again. A failure at any of
/// these steps is fatal. Where the tracee is at no breakpoint nothing is
/// done.
pub fn cross_breakpoint<T: Tracee>(inferior: &mut Inferior<T>, rip: usize) -> (crossed: Result<
    (),
    Fault,
>)
    ensures
        final(inferior).follows(old(inferior)),
        read_crossing(final(inferior).asked_since(old(inferior)), old(inferior).shadow(), rip)
            == Some((crossed, final(inferior).asked_since(old(inferior)).len())),
        final(inferior).shadow() == old(inferior).shadow(),
        !at_breakpoint(old(inferior).shadow(), rip) ==> crossed is Ok,
        crossed matches Err(fault) ==> match fault {
            Fault::RestoreByte(e) => e is MemoryAccess,
            Fault::Integrity(found) => found != TRAP_BYTE,
            Fault::Rewind(e) => e is Trace,
            Fault::Step(e) => e is Trace,
            Fault::AwaitStep(e) => e is Trace || e is WaitFailed,
            Fault::Rearm(e) => e is MemoryAccess,
        },
{
    let site = match trap_site(rip) {
        Some(site) => site,
        None => {
            assert(inferior.asked_since(old(inferior)) =~= Seq::empty());
            return Ok(());
        },
    };
    let original = match inferior.replaced_value(site) {
        Some(original) => original,
        None => {
            assert(inferior.asked_since(old(inferior)) =~= Seq::empty());
            return Ok(());
        },
    };
    match inferior.write_byte(site, original) {
        Ok(displaced) => {
            if displaced != TRAP_BYTE {
                return Err(Fault::Integrity(displaced));
            }
        },
        Err(e) => {
            return Err(Fault::RestoreByte(e));
        },
    }
    let ghost restored = *inferior;
    let done = rewind_and_step(inferior, site);
    proof {
        Inferior::lemma_asked_in_turn(old(inferior), &restored, inferior);
        let first = restored.asked_since(old(inferior));
        let rest = inferior.asked_since(&restored);
        lemma_read_patch_extends(first, rest, site, original);
        assert((first + rest).skip(first.len() as int) =~= rest);
    }
    done
}

/// Writing the trap byte again reads the same off a longer list.
pub proof fn lemma_read_rearm_extends(asked: Seq<Exchange>, more: Seq<Exchange>, site: usize)
    requires
        read_rearm(asked, site) is Some,
    ensures
        read_rearm(asked + more, site) == read_rearm(asked, site),
{
    lemma_read_patch_extends(asked, more, site, TRAP_BYTE);
}

/// The end of a crossing reads the same off a longer list.
pub proof fn lemma_read_awaited_extends(asked: Seq<Exchange>, more: Seq<Exchange>, site: usize)
    requires
        read_awaited(asked, site) is Some,
    ensures
        read_awaited(asked + more, site) == read_awaited(asked, site),
{
    lemma_read_wait_extends(asked, more);
    match read_wait(asked) {
        Some((Ok(_), taken)) => {
            assert((asked + more).skip(taken as int) =~= asked.skip(taken as int) + more);
            lemma_read_rearm_extends(asked.skip(taken as int), more, site);
        },
        _ => {},
    }
}

/// A crossing from the single step on reads the same off a longer list.
pub proof fn lemma_read_stepped_extends(asked: Seq<Exchange>, more: Seq<Exchange>, site: usize)
    requires
        read_stepped(asked, site) is Some,
    ensures
        read_stepped(asked + more, site) == read_stepped(asked, site),
{
    lemma_read_step_only_extends(asked, more);
    match read_step_only(asked) {
        Some((Ok(_), taken)) => {
            assert((asked + more).skip(taken as int) =~= asked.skip(taken as int) + more);
            lemma_read_awaited_extends(asked.skip(taken as int), more, site);
        },
        _ => {},
    }
}

/// A crossing from the rewind on reads the same off a longer list.
pub proof fn lemma_read_rewound_extends(asked: Seq<Exchange>, more: Seq<Exchange>, site: usize)
    requires
        read_rewound(asked, site) is Some,
    ensures
        read_rewound(asked + more, site) == read_rewound(asked, site),
{
    lemma_read_rewind_extends(asked, more, site);
    match read_rewind(asked, site) {
        Some((Ok(_), taken)) => {
            assert((asked + more).skip(taken as int) =~= asked.skip(taken as int) + more);
            lemma_read_stepped_extends(asked.skip(taken as int), more, site);
        },
        _ => {},
    }
}

/// A crossing reads the same off a longer list.
pub proof fn lemma_read_crossing_extends(
    asked: Seq<Exchange>,
    more: Seq<Exchange>,
    shadow: Map<usize, u8>,
    rip: usize,
)
    requires
        read_crossing(asked, shadow, rip) is Some,
    ensures
        read_crossing(asked + more, shadow, rip) == read_crossing(asked, shadow, rip),
{
    if at_breakpoint(shadow, rip) {
        let site = trap_site_of(rip)->Some_0;
        lemma_read_patch_extends(asked, more, site, shadow[site]);
        match read_patch(asked, site, shadow[site]) {
            Some((Ok(found), taken)) => {
                if found == TRAP_BYTE {
                    assert((asked + more).skip(taken as int) =~= asked.skip(taken as int) + more);
                    lemma_read_rewound_extends(asked.skip(taken as int), more, site);
                }
            },
            _ => {},
        }
    }
}

/// A crossing that went through, in a tracee that answers from its memory
/// and does not write to its own text, leaves the memory as it was: the
/// original byte stood at the breakpoint for the one step, and the trap
/// byte stands there again.
pub proof fn lemma_crossing_of_memory(
    asked: Seq<Exchange>,
    shadow: Map<usize, u8>,
    rip: usize,
    memory: Map<usize, u8>,
    image: Map<usize, u8>,
)
    requires
        read_crossing(asked, shadow, rip) == Some((Ok::<(), Fault>(()), asked.len())),
        answers_from(asked, memory),
        (Snapshot { memory, shadow }).overlays(image),
    ensures
        memory_through(asked, memory) == memory,
        at_breakpoint(shadow, rip) ==> memory_through(asked.take(2), memory) == memory.insert(
            trap_site_of(rip)->Some_0,
            image[trap_site_of(rip)->Some_0],
        ),
{
    if at_breakpoint(shadow, rip) {
        let site = trap_site_of(rip)->Some_0;
        let original = shadow[site];
        let after_restore = asked.skip(2);
        let after_rewind = after_restore.skip(1);
        let after_step = after_rewind.skip(1);
        let waited = read_wait(after_step)->Some_0.1 as int;
        let last = after_step.skip(waited);
        let mid = 4 + waited;
        assert(asked.len() == mid + 2);
        assert(last =~= asked.skip(mid));
        assert(asked.take(0) =~= Seq::empty());
        assert(memory_through(asked.take(0), memory) == memory);
        lemma_patch_of_memory(asked, memory, site, original, TRAP_BYTE);
        let restored = memory.insert(site, original);
        assert(memory_through(asked.take(2), memory) == restored) by {
            assert(asked.take(2).drop_last() =~= asked.take(1));
            assert(asked.take(1).drop_last() =~= asked.take(0));
            assert(asked.take(2).last() == asked[1]);
            assert(asked.take(1).last() == asked[0]);
        }
        let upto = asked.take(mid);
        lemma_memory_in_turn(upto, 2, memory);
        assert(upto.take(2) =~= asked.take(2));
        let middle = upto.skip(2);
        assert forall|i: int| 0 <= i < middle.len() implies !(#[trigger] middle[i] is Poke) by {
            assert(middle[i] == asked[2 + i]);
            assert(after_restore[0] == asked[2]);
            assert(after_rewind[0] == asked[3]);
            if i >= 2 {
                assert(after_step[i - 2] == asked[2 + i]);
            }
        }
        lemma_reads_keep_memory(middle, restored);
        assert(memory_through(upto, memory) == restored);
        assert(last[0] == asked[mid]);
        lemma_patch_of_memory(last, restored, site, TRAP_BYTE, read_patch(
            last,
            site,
            TRAP_BYTE,
        )->Some_0.0->Ok_0);
        lemma_memory_in_turn(asked, mid, memory);
        assert(memory_through(last, restored) == restored.insert(site, TRAP_BYTE)) by {
            let one = last.drop_last();
            assert(one.drop_last() =~= Seq::empty());
            assert(memory_through(one.drop_last(), restored) == restored);
            assert(one.last() == last[0]);
            assert(memory_through(one, restored) == memory_after(restored, last[0]));
            assert(last.last() == last[1]);
        }
        assert(restored.insert(site, TRAP_BYTE) =~= memory);
    } else {
        assert(asked =~= Seq::empty());
    }
}

/// What letting a tracee run on comes to once it is known to have stopped
/// with its instruction pointer at `rip`: the crossing of the breakpoint
/// there, if there is one, and then a continue. A crossing that breaks off
/// is fatal and nothing is asked after it; a continue that fails is not.
pub open spec fn read_crossed(asked: Seq<Exchange>, shadow: Map<usize, u8>, rip: usize) -> Option<
    (Result<Status, Halt>, nat),
> {
    match read_crossing(asked, shadow, rip) {
        None => None,
        Some((Err(fault), taken)) => Some((Err(Halt::Fatal(fault)), taken)),
        Some((Ok(_), taken)) => match read_cont(asked.skip(taken as int)) {
            None => None,
            Some((Ok(status), more)) => Some((Ok(status), taken + more)),
            Some((Err(e), more)) => Some((Err(Halt::Failed(e)), taken + more)),
        },
    }
}

/// What letting a stopped tracee run on comes to, for a tracee whose shadow
/// map is `shadow`: the registers are read for the instruction pointer
/// and, unless that fails, the breakpoint there is crossed and the tracee
/// continued.
pub open spec fn read_resume(asked: Seq<Exchange>, shadow: Map<usize, u8>) -> Option<
    (Result<Status, Halt>, nat),
> {
    match read_instruction_pointer(asked) {
        None => None,
        Some((Err(e), taken)) => Some((Err(Halt::Failed(e)), taken)),
        Some((Ok(rip), taken)) => match read_crossed(asked.skip(taken as int), shadow, rip) {
            None => None,
            Some((status, more)) => Some((status, taken + more)),
        },
    }
}

/// Takes a tracee that stopped with its instruction pointer at `rip` across
/// the breakpoint there, if there is one, and lets it run on.
fn cross_and_continue<T: Tracee>(inferior: &mut Inferior<T>, rip: usize) -> (status: Result<
    Status,
    Halt,
>)
    ensures
        final(inferior).follows(old(inferior)),
        final(inferior).shadow() == old(inferior).shadow(),
        read_crossed(final(inferior).asked_since(old(inferior)), old(inferior).shadow(), rip)
            == Some((status, final(inferior).asked_since(old(inferior)).len())),
        status matches Err(Halt::Failed(e)) ==> e is Trace || e is WaitFailed,
{
    let ghost before = inferior.shadow();
    match cross_breakpoint(inferior, rip) {
        Ok(()) => {},
        Err(fault) => {
            return Err(Halt::Fatal(fault));
        },
    }
    let ghost across = *inferior;
    let status = inferior.cont();
    proof {
        Inferior::lemma_asked_in_turn(old(inferior), &across, inferior);
        let first = across.asked_since(old(inferior));
        let rest = inferior.asked_since(&across);
        lemma_read_crossing_extends(first, rest, before, rip);
        assert((first + rest).skip(first.len() as int) =~= rest);
    }
    match status {
        Ok(status) => Ok(status),
        Err(e) => Err(Halt::Failed(e)),
    }
}

/// Lets the stopped tracee run on: reads where it stopped, takes it across
/// the breakpoint there if it stopped at one, continues it and waits.
///
/// Only the crossing is fatal. Where the registers cannot be read, or the
/// tracee cannot be continued or waited for, nothing has been patched and
/// the session goes on.
pub fn resume<T: Tracee>(inferior: &mut Inferior<T>) -> (status: Result<Status, Halt>)
    ensures
        final(inferior).follows(old(inferior)),
        final(inferior).shadow() == old(inferior).shadow(),
        read_resume(final(inferior).asked_since(old(inferior)), old(inferior).shadow()) == Some(
            (status, final(inferior).asked_since(old(inferior)).len()),
        ),
        status matches Err(Halt::Failed(e)) ==> e is Trace || e is WaitFailed,
{
    let rip = match inferior.instruction_pointer() {
        Ok(rip) => rip,
        Err(e) => {
            return Err(Halt::Failed(e));
        },
    };
    let ghost asked = *inferior;
    let status = cross_and_continue(inferior, rip);
    proof {
        Inferior::lemma_asked_in_turn(old(inferior), &asked, inferior);
        let first = asked.asked_since(old(inferior));
        let rest = inferior.asked_since(&asked);
        lemma_read_instruction_pointer_extends(first, rest);
        assert((first + rest).skip(first.len() as int) =~= rest);
    }
    status
}

/// Appends one line to the lines to show.
fn push_line(lines: &mut Vec<String>, line: String)
    ensures
        texts(final(lines)@) == texts(old(lines)@).push(line@),
{
    lines.push(line);
}

/// Whether an error ends the session: a wait that reported a state that
/// the engine does not know.
pub open spec fn must_end(error: Error) -> bool {
    error is WaitFailed || error == Error::LaunchFailed(LaunchFailure::WaitFailed)
}

/// Whether `error` ends the session.
pub fn ends_session(error: &Error) -> (fatal: bool)
    ensures
        fatal == must_end(*error),
{
    match error {
        Error::WaitFailed => true,
        Error::LaunchFailed(LaunchFailure::WaitFailed) => true,
        _ => false,
    }
}

/// What has to happen after a command that leaves the user at the prompt,
/// unless the session has to end.
pub open spec fn action_after(fatal: bool) -> Action {
    if fatal {
        Action::Abort
    } else {
        Action::Prompt
    }
}

/// The line that reports how a termination ended: the last status of the
/// tracee, or the error, after the words `what`.
pub open spec fn ended_text(debug_data: DwarfData, what: Seq<char>, status: Result<Status, Error>) -> Seq<
    char,
> {
    match status {
        Ok(status) => status_text(debug_data, status),
        Err(error) => failure_text(what, error),
    }
}

/// The line that reports how letting the tracee run on ended.
pub open spec fn resumed_text(debug_data: DwarfData, outcome: Result<Status, Halt>) -> Seq<char> {
    match outcome {
        Ok(status) => status_text(debug_data, status),
        Err(Halt::Failed(error)) => failure_text("failed to run command"@, error),
        Err(Halt::Fatal(fault)) => fault.text(),
    }
}

/// Whether the session has to end after letting the tracee run on: the
/// crossing of a breakpoint broke off, or a wait reported a state that the
/// engine does not know.
pub open spec fn resumed_fatal(outcome: Result<Status, Halt>) -> bool {
    match outcome {
        Ok(_) => false,
        Err(Halt::Failed(error)) => must_end(error),
        Err(Halt::Fatal(_)) => true,
    }
}

/// The lines that show a stack walk: one for each frame and, where an
/// error ended the walk, one for the error.
pub open spec fn walk_texts(debug_data: DwarfData, frames: Seq<usize>, error: Option<Error>) -> Seq<
    Seq<char>,
> {
    match error {
        None => frame_texts(debug_data, frames),
        Some(error) => frame_texts(debug_data, frames).push(
            failure_text("failed to walk the stack"@, error),
        ),
    }
}

/// The lines that report the breakpoints that could not be written.
pub open spec fn install_failure_texts(failures: Seq<InstallFailure>) -> Seq<Seq<char>> {
    failures.map_values(|failure: InstallFailure| install_failure_text(failure))
}

/// Writes the lines that report the breakpoints that could not be written.
pub fn install_failure_lines(failures: &Vec<InstallFailure>) -> (lines: Vec<String>)
    ensures
        texts(lines@) == install_failure_texts(failures@),
{
    let mut lines: Vec<String> = Vec::new();
    let mut j: usize = 0;
    assert(texts(lines@) =~= install_failure_texts(failures@.take(0)));
    while j < failures.len()
        invariant
            j <= failures@.len(),
            texts(lines@) =~= install_failure_texts(failures@.take(j as int)),
        decreases failures@.len() - j,
    {
        let line = install_failure_line(&failures[j]);
        let ghost shown = lines@;
        lines.push(line);
        proof {
            assert(texts(lines@) =~= texts(shown).push(line@));
            assert(failures@.take(j + 1) =~= failures@.take(j as int).push(failures@[j as int]));
            assert(install_failure_texts(failures@.take(j + 1)) =~= install_failure_texts(
                failures@.take(j as int),
            ).push(install_failure_text(failures@[j as int])));
        }
        j += 1;
    }
    assert(failures@.take(j as int) == failures@);
    lines
}

/// What starting a tracee with `breakpoints` comes to: the launch and,
/// unless it failed, the first letting it run on. It gives the error of the
/// launch, or the shadow map, the breakpoints that could not be written,
/// and how the first run ended.
pub open spec fn read_started(asked: Seq<Exchange>, breakpoints: Seq<usize>) -> Option<
    (Result<(Map<usize, u8>, Seq<InstallFailure>, Result<Status, Halt>), Error>, nat),
> {
    match read_launch(asked, breakpoints) {
        None => None,
        Some((_, Err(error), taken)) => Some((Err(error), taken)),
        Some((_, Ok((shadow, failures)), taken)) => match read_resume(
            asked.skip(taken as int),
            shadow,
        ) {
            None => None,
            Some((outcome, more)) => Some((Ok((shadow, failures, outcome)), taken + more)),
        },
    }
}

impl<T: Tracee> Debugger<T> {
    /// The path of the target.
    pub closed spec fn target(&self) -> Seq<char> {
        self.target@
    }

    /// The symbol table of the target.
    pub closed spec fn debug_data(&self) -> DwarfData {
        self.debug_data
    }

    /// The addresses of the user's breakpoints, in the order in which they
    /// were set. The index of an address is the ordinal of its breakpoint.
    pub closed spec fn breakpoints(&self) -> Seq<usize> {
        self.breakpoints@
    }

    /// The inferior under control, if there is one.
    pub closed spec fn inferior(&self) -> Option<Inferior<T>> {
        self.inferior
    }

    /// The controllers that the session has let go of, oldest first, each
    /// as it was when it was let go of.
    pub closed spec fn retired(&self) -> Seq<Inferior<T>> {
        self.retired@
    }

    /// How many inferiors the session holds.
    pub open spec fn controllers(&self) -> nat {
        if self.inferior() is Some {
            1
        } else {
            0
        }
    }

    /// Whether `self` has the target, the symbol table and the breakpoints
    /// of `other`.
    pub open spec fn same_session_as(&self, other: &Debugger<T>) -> bool {
        &&& self.target() == other.target()
        &&& self.debug_data() == other.debug_data()
        &&& self.breakpoints() == other.breakpoints()
    }

    /// A session for `target`, with no breakpoints and no inferior.
    pub fn new(target: &str, debug_data: DwarfData) -> (session: Debugger<T>)
        ensures
            session.target() == target@,
            session.debug_data() == debug_data,
            session.breakpoints() == Seq::<usize>::empty(),
            session.inferior() is None,
            session.retired() == Seq::<Inferior<T>>::empty(),
    {
        Debugger {
            target: String::from_str(target),
            inferior: None,
            debug_data,
            breakpoints: Vec::new(),
            retired: Ghost(Seq::empty()),
        }
    }

    /// The path of the target.
    pub fn target_path(&self) -> (path: &str)
        ensures
            path@ == self.target(),
    {
        self.target.as_str()
    }

    /// Whether the session holds an inferior.
    pub fn has_inferior(&self) -> (held: bool)
        ensures
            held == (self.inferior() is Some),
    {
        self.inferior.is_some()
    }

    /// How many breakpoints the user has set.
    pub fn breakpoint_count(&self) -> (count: usize)
        ensures
            count == self.breakpoints().len(),
    {
        self.breakpoints.len()
    }

    /// The address that the text of a breakpoint stands for.
    pub fn parse_addr(&self, addr: &str) -> (resolved: Option<usize>)
        ensures
            resolved == resolve(self.debug_data(), addr@),
    {
        let len = addr.unicode_len();
        if len >= 2 && addr.get_char(0) == '0' && (addr.get_char(1) == 'x' || addr.get_char(1)
            == 'X') {
            parse_number(addr, 2, 16)
        } else {
            match parse_decimal(addr) {
                Some(line) => self.debug_data.get_addr_for_line(None, line),
                None => self.debug_data.get_addr_for_function(addr),
            }
        }
    }

    /// Writes the line that reports `status` to the user.
    pub fn print_status(&self, status: Status) -> (line: String)
        ensures
            line@ == status_text(self.debug_data(), status),
    {
        match status {
            Status::Exited(code) => {
                let mut line = String::from_str("target exited (status ");
                let number = to_decimal_signed(code);
                line.append(number.as_str());
                line.append(")");
                line
            },
            Status::Signaled(signal) => {
                let mut line = String::from_str("target signaled(killed) by ");
                let name = signal.name();
                line.append(name.as_str());
                line
            },
            Status::Stopped(signal, rip) => {
                let mut line = String::from_str("target stopped at ");
                let address = to_hex_address(rip);
                line.append(address.as_str());
                line.append(" by signal ");
                let name = signal.name();
                line.append(name.as_str());
                line.append(" in ");
                let function = self.debug_data.function_name(rip);
                line.append(function.as_str());
                line.append(" (");
                let location = self.debug_data.location(rip);
                line.append(location.as_str());
                line.append(")");
                line
            },
        }
    }

    /// Writes the line that reports how letting the tracee run on ended,
    /// and says whether the session has to end.
    pub fn report_resumed(&self, outcome: Result<Status, Halt>) -> (report: (String, bool))
        ensures
            report.0@ == resumed_text(self.debug_data(), outcome),
            report.1 == resumed_fatal(outcome),
    {
        match outcome {
            Ok(status) => (self.print_status(status), false),
            Err(Halt::Failed(error)) => (
                failure_line("failed to run command", &error),
                ends_session(&error),
            ),
            Err(Halt::Fatal(fault)) => (fault.message(), true),
        }
    }

    /// Writes the line that reports how a termination ended, and says
    /// whether the session has to end.
    pub fn report_ended(&self, what: &str, status: Result<Status, Error>) -> (report: (
        String,
        bool,
    ))
        ensures
            report.0@ == ended_text(self.debug_data(), what@, status),
            report.1 == (status matches Err(error) && must_end(error)),
    {
        match status {
            Ok(status) => (self.print_status(status), false),
            Err(error) => (failure_line(what, &error), ends_session(&error)),
        }
    }

    /// What a `break` command does.
    ///
    /// A text that stands for no address changes nothing and is answered
    /// with one line. An address is appended to the breakpoints, and its
    /// ordinal is the number of breakpoints set before it. Where there is an
    /// inferior, one byte patch writes the trap byte there at once. If the
    /// patch went through, the shadow map is changed as a trap patch
    /// changes it; if not, the map is as it was and the first line says why.
    pub open spec fn breakpoint_set(
        pre: Debugger<T>,
        post: Debugger<T>,
        spec: Seq<char>,
        lines: Seq<Seq<char>>,
    ) -> bool {
        &&& post.target() == pre.target()
        &&& post.debug_data() == pre.debug_data()
        &&& post.retired() == pre.retired()
        &&& match resolve(pre.debug_data(), spec) {
            None => {
                &&& post.breakpoints() == pre.breakpoints()
                &&& post.inferior() == pre.inferior()
                &&& lines == seq!["invalid breakpoint format"@]
            },
            Some(addr) => {
                let confirmed = breakpoint_text(pre.breakpoints().len(), addr);
                &&& post.breakpoints() == pre.breakpoints().push(addr)
                &&& match pre.inferior() {
                    None => post.inferior() is None && lines == seq![confirmed],
                    Some(before) => {
                        &&& post.inferior() matches Some(after)
                        &&& after.follows(&before)
                        &&& read_patch(after.asked_since(&before), addr, TRAP_BYTE) matches Some(
                            (patched, taken),
                        )
                        &&& taken == after.asked_since(&before).len()
                        &&& match patched {
                            Ok(original) => {
                                &&& after.shadow() == shadow_after(
                                    before.shadow(),
                                    addr,
                                    TRAP_BYTE,
                                    original,
                                )
                                &&& lines == seq![confirmed]
                            },
                            Err(error) => {
                                &&& after.shadow() == before.shadow()
                                &&& lines == seq![
                                    install_failure_text(InstallFailure { addr, error }),
                                    confirmed,
                                ]
                            },
                        }
                    },
                }
            },
        }
    }

    /// Sets a breakpoint where `spec` says.
    pub fn set_breakpoint(&mut self, spec: &str) -> (lines: Vec<String>)
        ensures
            Self::breakpoint_set(*old(self), *final(self), spec@, texts(lines@)),
    {
        let mut lines: Vec<String> = Vec::new();
        let addr = match self.parse_addr(spec) {
            Some(addr) => addr,
            None => {
                push_line(&mut lines, String::from_str("invalid breakpoint format"));
                assert(texts(lines@) =~= seq!["invalid breakpoint format"@]);
                return lines;
            },
        };
        let ordinal = self.breakpoints.len();
        self.breakpoints.push(addr);
        match &mut self.inferior {
            Some(inferior) => {
                match inferior.write_byte(addr, TRAP_BYTE) {
                    Ok(_) => {},
                    Err(error) => {
                        let failure = InstallFailure { addr, error };
                        push_line(&mut lines, install_failure_line(&failure));
                    },
                }
            },
            None => {},
        }
        let ghost before = texts(lines@);
        push_line(&mut lines, breakpoint_line(ordinal, addr));
        proof {
            let confirmed = breakpoint_text(ordinal as nat, addr);
            if before.len() == 0 {
                assert(texts(lines@) =~= seq![confirmed]);
            } else {
                assert(texts(lines@) =~= seq![before[0], confirmed]);
            }
        }
        lines
    }

    /// What ending the inferior does: the session holds none afterwards.
    /// Where it held one, the tracee is killed and waited for, one line
    /// reports what the wait gave, and the ended controller is the last of
    /// those that the session has let go of. The session has to end if the
    /// wait reported a state that the engine does not know.
    pub open spec fn terminated(
        pre: Debugger<T>,
        post: Debugger<T>,
        what: Seq<char>,
        lines: Seq<Seq<char>>,
        fatal: bool,
    ) -> bool {
        &&& post.same_session_as(&pre)
        &&& post.inferior() is None
        &&& match pre.inferior() {
            None => post.retired() == pre.retired() && lines.len() == 0 && !fatal,
            Some(before) => {
                &&& post.retired().len() == pre.retired().len() + 1
                &&& post.retired() == pre.retired().push(post.retired().last())
                &&& post.retired().last().follows(&before)
                &&& post.retired().last().shadow() == before.shadow()
                &&& read_terminate(post.retired().last().asked_since(&before)) matches Some(
                    (status, taken),
                )
                &&& taken == post.retired().last().asked_since(&before).len()
                &&& lines == seq![ended_text(pre.debug_data(), what, status)]
                &&& fatal == (status matches Err(error) && must_end(error))
            },
        }
    }

    /// Kills the inferior, if there is one, waits for its last status and
    /// lets go of it. `what` starts the line that reports a failed wait.
    /// Gives the lines to show, and whether the session has to end.
    pub fn stop_inferior(&mut self, what: &str) -> (ended: (Vec<String>, bool))
        ensures
            Self::terminated(*old(self), *final(self), what@, texts(ended.0@), ended.1),
    {
        let mut lines: Vec<String> = Vec::new();
        match self.inferior.take() {
            Some(mut inferior) => {
                let status = inferior.terminate();
                let (line, fatal) = self.report_ended(what, status);
                push_line(&mut lines, line);
                assert(texts(lines@) =~= seq![line@]);
                self.retired = Ghost(self.retired@.push(inferior));
                (lines, fatal)
            },
            None => (lines, false),
        }
    }

    /// What letting the inferior run on does. Without an inferior one line
    /// says so. With one, the registers are read, the breakpoint at which
    /// the tracee stopped is crossed, and the tracee is continued and
    /// waited for; one line reports how that ended. The shadow map is as it
    /// was. The session has to end if the crossing broke off or a wait
    /// reported a state that the engine does not know.
    pub open spec fn continued(pre: Debugger<T>, post: Debugger<T>, response: Response) -> bool {
        let lines = texts(response.lines@);
        &&& post.same_session_as(&pre)
        &&& post.retired() == pre.retired()
        &&& match pre.inferior() {
            None => {
                &&& post.inferior() is None
                &&& lines == seq!["please run target first"@]
                &&& response.action is Prompt
            },
            Some(before) => {
                &&& post.inferior() matches Some(after)
                &&& after.follows(&before)
                &&& after.shadow() == before.shadow()
                &&& read_resume(after.asked_since(&before), before.shadow()) matches Some(
                    (outcome, taken),
                )
                &&& taken == after.asked_since(&before).len()
                &&& lines == seq![resumed_text(pre.debug_data(), outcome)]
                &&& response.action == action_after(resumed_fatal(outcome))
            },
        }
    }

    /// Lets the inferior run on.
    pub fn continue_inferior(&mut self) -> (response: Response)
        ensures
            Self::continued(*old(self), *final(self), response),
    {
        let mut lines: Vec<String> = Vec::new();
        let outcome = match &mut self.inferior {
            Some(inferior) => resume(inferior),
            None => {
                push_line(&mut lines, String::from_str("please run target first"));
                assert(texts(lines@) =~= seq!["please run target first"@]);
                return Response { lines, action: Action::Prompt };
            },
        };
        let (line, fatal) = self.report_resumed(outcome);
        push_line(&mut lines, line);
        assert(texts(lines@) =~= seq![line@]);
        Response {
            lines,
            action: if fatal {
                Action::Abort
            } else {
                Action::Prompt
            },
        }
    }

    /// What the arrival of a child that was started for the target does.
    ///
    /// A session that holds an inferior does not take the child: it holds
    /// one inferior at most. Else the child is launched with the user's
    /// breakpoints. If the launch fails, the session holds no inferior, the
    /// failed controller is the last of those let go of, and two lines say
    /// why and that the target did not start. If it succeeds, the session
    /// holds the child and lets it run; a line is shown for each breakpoint
    /// that could not be written, and a last one reports how the run ended.
    pub open spec fn launched(pre: Debugger<T>, post: Debugger<T>, tracee: T, response: Response) -> bool {
        let lines = texts(response.lines@);
        &&& post.same_session_as(&pre)
        &&& match pre.inferior() {
            Some(_) => {
                &&& post.inferior() == pre.inferior()
                &&& post.retired() == pre.retired()
                &&& lines == seq!["Error starting subprocess"@]
                &&& response.action is Prompt
            },
            None => {
                let child = match post.inferior() {
                    Some(held) => held,
                    None => post.retired().last(),
                };
                &&& child.tracee() == tracee
                &&& read_started(child.exchanges(), pre.breakpoints()) matches Some(
                    (started, taken),
                )
                &&& taken == child.exchanges().len()
                &&& match started {
                    Err(error) => {
                        &&& post.inferior() is None
                        &&& post.retired() == pre.retired().push(child)
                        &&& lines == seq![error.text(), "Error starting subprocess"@]
                        &&& response.action == action_after(must_end(error))
                    },
                    Ok((shadow, failures, outcome)) => {
                        &&& post.inferior() is Some
                        &&& post.retired() == pre.retired()
                        &&& child.shadow() == shadow
                        &&& lines == install_failure_texts(failures).push(
                            resumed_text(pre.debug_data(), outcome),
                        )
                        &&& response.action == action_after(resumed_fatal(outcome))
                    },
                }
            },
        }
    }

    /// Takes control of the child that was started for the target, writes
    /// the user's breakpoints into it and lets it run.
    pub fn launch(&mut self, tracee: T) -> (response: Response)
        ensures
            Self::launched(*old(self), *final(self), tracee, response),
    {
        let mut lines: Vec<String> = Vec::new();
        if self.inferior.is_some() {
            push_line(&mut lines, String::from_str("Error starting subprocess"));
            assert(texts(lines@) =~= seq!["Error starting subprocess"@]);
            return Response { lines, action: Action::Prompt };
        }
        let (mut inferior, launched) = Inferior::new(tracee, &self.breakpoints);
        let failures = match launched {
            Ok(failures) => failures,
            Err(error) => {
                push_line(&mut lines, error.message());
                push_line(&mut lines, String::from_str("Error starting subprocess"));
                assert(texts(lines@) =~= seq![error.text(), "Error starting subprocess"@]);
                let fatal = ends_session(&error);
                self.retired = Ghost(self.retired@.push(inferior));
                return Response {
                    lines,
                    action: if fatal {
                        Action::Abort
                    } else {
                        Action::Prompt
                    },
                };
            },
        };
        let mut lines = install_failure_lines(&failures);
        let ghost taken = inferior;
        let outcome = resume(&mut inferior);
        let (line, fatal) = self.report_resumed(outcome);
        push_line(&mut lines, line);
        proof {
            let first = taken.exchanges();
            let rest = inferior.asked_since(&taken);
            assert(inferior.exchanges() =~= first + rest);
            lemma_read_launch_extends(first, rest, self.breakpoints@);
            assert((first + rest).skip(first.len() as int) =~= rest);
        }
        self.inferior = Some(inferior);
        Response {
            lines,
            action: if fatal {
                Action::Abort
            } else {
                Action::Prompt
            },
        }
    }

    /// What a `backtrace` command does: without an inferior one line says
    /// so. With one, its stack is walked from the registers up; a line is
    /// shown for each frame and, where an error ended the walk, one for the
    /// error. The walk only reads from the tracee, and the shadow map is as
    /// it was.
    pub open spec fn backtraced(pre: Debugger<T>, post: Debugger<T>, lines: Seq<Seq<char>>) -> bool {
        &&& post.same_session_as(&pre)
        &&& post.retired() == pre.retired()
        &&& match pre.inferior() {
            None => post.inferior() is None && lines == seq!["please run target first"@],
            Some(before) => {
                &&& post.inferior() matches Some(after)
                &&& after.follows(&before)
                &&& after.shadow() == before.shadow()
                &&& only_reads(after.asked_since(&before))
                &&& read_walk(after.asked_since(&before), pre.debug_data()) matches Some(
                    (frames, error, taken),
                )
                &&& taken == after.asked_since(&before).len()
                &&& lines == walk_texts(pre.debug_data(), frames, error)
            },
        }
    }

    /// Shows the call stack of the stopped inferior.
    pub fn show_backtrace(&mut self) -> (lines: Vec<String>)
        ensures
            Self::backtraced(*old(self), *final(self), texts(lines@)),
    {
        match &mut self.inferior {
            Some(inferior) => {
                let (mut lines, error) = inferior.print_backtrace(&self.debug_data);
                match error {
                    Some(error) => {
                        push_line(&mut lines, failure_line("failed to walk the stack", &error));
                    },
                    None => {},
                }
                lines
            },
            None => {
                let mut lines: Vec<String> = Vec::new();
                push_line(&mut lines, String::from_str("please run target first"));
                assert(texts(lines@) =~= seq!["please run target first"@]);
                lines
            },
        }
    }

    /// What the session does on an event, by the kind of the event.
    pub open spec fn answered(
        pre: Debugger<T>,
        post: Debugger<T>,
        event: Event<T>,
        response: Response,
    ) -> bool {
        let lines = texts(response.lines@);
        match event {
            Event::Command(DebuggerCommand::Quit) => {
                &&& Self::terminated(
                    pre,
                    post,
                    "failed to terminate target"@,
                    lines,
                    response.action is Abort,
                )
                &&& response.action is Abort || response.action is Exit
            },
            Event::Command(DebuggerCommand::Run(args)) => {
                &&& Self::terminated(
                    pre,
                    post,
                    "failed to terminate previous target"@,
                    lines,
                    response.action is Abort,
                )
                &&& response.action is Abort || response.action == Action::Spawn(args)
            },
            Event::Command(DebuggerCommand::Continue) => Self::continued(pre, post, response),
            Event::Command(DebuggerCommand::BackTrace) => {
                &&& Self::backtraced(pre, post, lines)
                &&& response.action is Prompt
            },
            Event::Command(DebuggerCommand::Breakpoint(spec)) => {
                &&& Self::breakpoint_set(pre, post, spec@, lines)
                &&& response.action is Prompt
            },
            Event::Spawned(tracee) => Self::launched(pre, post, tracee, response),
            Event::SpawnFailed => {
                &&& post == pre
                &&& lines == seq!["Error starting subprocess"@]
                &&& response.action is Prompt
            },
        }
    }

    /// Takes the session through one event and says what to show and what
    /// has to happen next. Whatever the event, the session holds one
    /// inferior at most afterwards.
    pub fn run(&mut self, event: Event<T>) -> (response: Response)
        ensures
            Self::answered(*old(self), *final(self), event, response),
            final(self).controllers() <= 1,
    {
        match event {
            Event::Command(DebuggerCommand::Quit) => {
                let (lines, fatal) = self.stop_inferior("failed to terminate target");
                Response {
                    lines,
                    action: if fatal {
                        Action::Abort
                    } else {
                        Action::Exit
                    },
                }
            },
            Event::Command(DebuggerCommand::Run(args)) => {
                let (lines, fatal) = self.stop_inferior("failed to terminate previous target");
                Response {
                    lines,
                    action: if fatal {
                        Action::Abort
                    } else {
                        Action::Spawn(args)
                    },
                }
            },
            Event::Command(DebuggerCommand::Continue) => self.continue_inferior(),
            Event::Command(DebuggerCommand::BackTrace) => {
                let lines = self.show_backtrace();
                Response { lines, action: Action::Prompt }
            },
            Event::Command(DebuggerCommand::Breakpoint(spec)) => {
                let lines = self.set_breakpoint(spec.as_str());
                Response { lines, action: Action::Prompt }
            },
            Event::Spawned(tracee) => self.launch(tracee),
            Event::SpawnFailed => {
                let mut lines: Vec<String> = Vec::new();
                push_line(&mut lines, String::from_str("Error starting subprocess"));
                assert(texts(lines@) =~= seq!["Error starting subprocess"@]);
                Response { lines, action: Action::Prompt }
            },
        }
    }
}

/// The breakpoints of a session that started with `list` and was given the
/// `break` commands `specs`, in order.
pub open spec fn breakpoints_after(debug_data: DwarfData, list: Seq<usize>, specs: Seq<Seq<char>>) -> Seq<
    usize,
>
    decreases specs.len(),
{
    if specs.len() == 0 {
        list
    } else {
        let before = breakpoints_after(debug_data, list, specs.drop_last());
        match resolve(debug_data, specs.last()) {
            Some(addr) => before.push(addr),
            None => before,
        }
    }
}

/// The ordinal that the last of the `break` commands `specs` is answered
/// with, in a session that started with `list`; `None` where its text
/// stands for no address.
pub open spec fn ordinal_of_last(debug_data: DwarfData, list: Seq<usize>, specs: Seq<Seq<char>>) -> Option<
    nat,
>
    recommends
        specs.len() > 0,
{
    match resolve(debug_data, specs.last()) {
        Some(_) => Some(breakpoints_after(debug_data, list, specs.drop_last()).len()),
        None => None,
    }
}

/// Ordinals count up from zero: in a new session, where every text so far
/// stood for an address, the `break` command number `k`, counted from one,
/// is answered with the ordinal `k - 1`. Two breakpoints at one address
/// have two ordinals. Whether the trap byte could be written plays no part.
pub proof fn lemma_ordinals_count_up(debug_data: DwarfData, specs: Seq<Seq<char>>)
    requires
        specs.len() > 0,
        forall|i: int| 0 <= i < specs.len() ==> resolve(debug_data, #[trigger] specs[i]) is Some,
    ensures
        ordinal_of_last(debug_data, Seq::empty(), specs) == Some((specs.len() - 1) as nat),
        breakpoints_after(debug_data, Seq::empty(), specs).len() == specs.len(),
    decreases specs.len(),
{
    let earlier = specs.drop_last();
    if earlier.len() > 0 {
        lemma_ordinals_count_up(debug_data, earlier);
    }
}

} // verus!
