//! Signals, by number and by name.

use vstd::prelude::*;

verus! {

/// Number of the trap signal, which a traced child raises when it starts a
/// new program and when it executes the trap instruction.
pub const SIGTRAP: i32 = 5;

/// The name that nix has for the signal with this number, where it has one.
pub uninterp spec fn signal_text(number: int) -> Option<Seq<char>>;

/// Calls `Signal::try_from` of nix on `number` and, where that finds a
/// signal, `Signal::as_str` on it. Not proved: that the result is the name
/// nix has for that number, and `None` for a number nix has no signal for.
#[verifier::external_body]
fn lookup_name(number: i32) -> (name: Option<String>)
    ensures
        name is Some <==> signal_text(number as int) is Some,
        name matches Some(text) ==> signal_text(number as int) == Some(text@),
{
    match nix::sys::signal::Signal::try_from(number) {
        Ok(signal) => Some(signal.as_str().to_string()),
        Err(_) => None,
    }
}

/// A signal that has a name.
#[derive(Clone, Copy, Debug, PartialEq, Eq)]
pub struct Signal {
    number: i32,
}

impl Signal {
    #[verifier::type_invariant]
    spec fn named(self) -> bool {
        signal_text(self.number as int) is Some
    }

    /// The signal's number.
    pub closed spec fn id(self) -> i32 {
        self.number
    }

    /// The signal's name.
    pub open spec fn text(self) -> Seq<char> {
        signal_text(self.id() as int)->Some_0
    }

    /// The signal with this number, if there is one.
    pub fn new(number: i32) -> (signal: Option<Signal>)
        ensures
            signal is Some <==> signal_text(number as int) is Some,
            signal matches Some(s) ==> s.id() == number,
    {
        match lookup_name(number) {
            Some(_) => Some(Signal { number }),
            None => None,
        }
    }

    /// The signal's number.
    pub fn number(&self) -> (number: i32)
        ensures
            number == self.id(),
    {
        self.number
    }

    /// The signal's name, such as `SIGTRAP`.
    pub fn name(&self) -> (name: String)
        ensures
            name@ == self.text(),
            signal_text(self.id() as int) == Some(name@),
    {
        proof {
            use_type_invariant(self);
        }
        match lookup_name(self.number) {
            Some(name) => name,
            None => String::new(),
        }
    }

    /// Whether this is the trap signal.
    pub fn is_trap(&self) -> (trap: bool)
        ensures
            trap == (self.id() == SIGTRAP),
    {
        self.number == SIGTRAP
    }
}

} // verus!
