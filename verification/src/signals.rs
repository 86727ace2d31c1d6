//! The signals that steer the superdaemon, and what has been received of them.
use crate::outside::{sighup, sigint, signal_from_str, signal_named, sigterm};
use nix::sys::signal::Signal;
use vstd::prelude::*;

verus! {

/// Which of the steering signals have been received.
#[derive(Debug, Clone, Copy, PartialEq, Eq, Structural)]
pub struct SignalFlags {
    /// Set when `SIGHUP` has been received since the flag was last cleared.
    pub hup: bool,
    /// Set when `SIGTERM` or `SIGINT` has been received.
    pub term: bool,
}

impl SignalFlags {
    /// Nothing has been received.
    pub fn new() -> (r: SignalFlags)
        ensures
            r == (SignalFlags { hup: false, term: false }),
    {
        SignalFlags { hup: false, term: false }
    }
}

/// What has been received when the signal of number `sig` has arrived on top of `flags`.
pub open spec fn noted(flags: SignalFlags, sig: int) -> SignalFlags {
    SignalFlags { hup: flags.hup || sig == 1, term: flags.term || sig == 15 || sig == 2 }
}

/// `SIGHUP` alone asks for a restart, `SIGTERM` and `SIGINT` alone ask for an end, what was asked
/// for stays asked for, and the order in which signals arrive is of no account.
pub proof fn law_signals_are_noted(flags: SignalFlags, sig: int, other: int)
    ensures
        noted(flags, 1).hup,
        noted(flags, 15).term,
        noted(flags, 2).term,
        sig != 1 ==> noted(flags, sig).hup == flags.hup,
        sig != 15 && sig != 2 ==> noted(flags, sig).term == flags.term,
        noted(noted(flags, sig), other) == noted(noted(flags, other), sig),
        noted(noted(flags, sig), sig) == noted(flags, sig),
{
}

/// Notes that the signal of number `sig` has arrived: `SIGHUP` (1) asks for a restart, `SIGTERM`
/// (15) and `SIGINT` (2) ask for an end, and every other only wakes the superdaemon.
pub fn handler(flags: &mut SignalFlags, sig: i32)
    ensures
        *final(flags) == (SignalFlags {
            hup: old(flags).hup || sig == 1,
            term: old(flags).term || sig == 15 || sig == 2,
        }),
        *final(flags) == noted(*old(flags), sig as int),
{
    if sig == sighup() {
        flags.hup = true;
    } else if sig == sigterm() || sig == sigint() {
        flags.term = true;
    }
}

/// Reads and clears the `SIGHUP` flag.
pub fn take_hup(flags: &mut SignalFlags) -> (r: bool)
    ensures
        r == old(flags).hup,
        *final(flags) == (SignalFlags { hup: false, ..*old(flags) }),
{
    let r = flags.hup;
    flags.hup = false;
    r
}

/// Reads (without clearing) whether a terminating signal has been received.
pub fn got_term(flags: &SignalFlags) -> (r: bool)
    ensures
        r == flags.term,
{
    flags.term
}

/// What is done about a signal.
#[derive(Debug, Clone, Copy, PartialEq, Eq, Structural)]
pub enum Disposition {
    /// It is noted, and wakes the superdaemon.
    Handle,
    /// Nothing.
    Ignore,
}

/// The signal of a name that every system knows, with what is done about it.
pub open spec fn disposed(name: Seq<char>, disposition: Disposition) -> (Signal, Disposition) {
    (signal_named(name)->Some_0, disposition)
}

/// The signals that the superdaemon cares about. Writing to a pipe whose worker end closed must not
/// kill it, so `SIGPIPE` is ignored.
pub fn dispositions() -> (r: Vec<(Signal, Disposition)>)
    ensures
        r@ == seq![
            disposed("SIGHUP"@, Disposition::Handle),
            disposed("SIGTERM"@, Disposition::Handle),
            disposed("SIGINT"@, Disposition::Handle),
            disposed("SIGCHLD"@, Disposition::Handle),
            disposed("SIGALRM"@, Disposition::Handle),
            disposed("SIGPIPE"@, Disposition::Ignore),
        ],
        signal_named("SIGHUP"@) is Some,
        signal_named("SIGTERM"@) is Some,
        signal_named("SIGINT"@) is Some,
        signal_named("SIGCHLD"@) is Some,
        signal_named("SIGALRM"@) is Some,
        signal_named("SIGPIPE"@) is Some,
{
    let mut r: Vec<(Signal, Disposition)> = Vec::new();
    r.push((signal_from_str("SIGHUP").unwrap(), Disposition::Handle));
    r.push((signal_from_str("SIGTERM").unwrap(), Disposition::Handle));
    r.push((signal_from_str("SIGINT").unwrap(), Disposition::Handle));
    r.push((signal_from_str("SIGCHLD").unwrap(), Disposition::Handle));
    r.push((signal_from_str("SIGALRM").unwrap(), Disposition::Handle));
    r.push((signal_from_str("SIGPIPE").unwrap(), Disposition::Ignore));
    r
}

} // verus!
