//! What the library takes from `nix`, `libc` and the standard library without proof.
use nix::sys::signal::Signal;
use vstd::prelude::*;

verus! {

/// `nix`'s enumeration of signals, carried through as it is.
#[verifier::external_type_specification]
#[verifier::external_body]
pub struct ExSignal(nix::sys::signal::Signal);

/// The signal of a name such as `SIGTERM`: what `nix`'s `Signal::from_str` returns. `nix` settles
/// the table of names when it is compiled for its target.
pub uninterp spec fn signal_named(name: Seq<char>) -> Option<Signal>;

/// The names that `nix` knows on every target.
pub open spec fn portable_signal(name: Seq<char>) -> bool {
    ||| name == "SIGHUP"@
    ||| name == "SIGINT"@
    ||| name == "SIGQUIT"@
    ||| name == "SIGILL"@
    ||| name == "SIGTRAP"@
    ||| name == "SIGABRT"@
    ||| name == "SIGBUS"@
    ||| name == "SIGFPE"@
    ||| name == "SIGKILL"@
    ||| name == "SIGUSR1"@
    ||| name == "SIGSEGV"@
    ||| name == "SIGUSR2"@
    ||| name == "SIGPIPE"@
    ||| name == "SIGALRM"@
    ||| name == "SIGTERM"@
    ||| name == "SIGCHLD"@
    ||| name == "SIGCONT"@
    ||| name == "SIGSTOP"@
    ||| name == "SIGTSTP"@
    ||| name == "SIGTTIN"@
    ||| name == "SIGTTOU"@
    ||| name == "SIGURG"@
    ||| name == "SIGXCPU"@
    ||| name == "SIGXFSZ"@
    ||| name == "SIGVTALRM"@
    ||| name == "SIGPROF"@
    ||| name == "SIGWINCH"@
    ||| name == "SIGSYS"@
}

/// The names that `nix` knows on some targets only.
pub open spec fn platform_signal(name: Seq<char>) -> bool {
    ||| name == "SIGSTKFLT"@
    ||| name == "SIGIO"@
    ||| name == "SIGPWR"@
    ||| name == "SIGEMT"@
    ||| name == "SIGINFO"@
}

/// Calls `nix::sys::signal::Signal::from_str`. Claimed: the signal depends on the name alone;
/// every portable name has one; a name that is neither portable nor known to some platform has
/// none; and no two names share a signal. Which of the platform's names there are is not stated:
/// it follows from the target that `nix` is compiled for.
#[verifier::external_body]
pub(crate) fn signal_from_str(name: &str) -> (found: Option<Signal>)
    ensures
        found == signal_named(name@),
        portable_signal(name@) ==> found is Some,
        found is Some ==> portable_signal(name@) || platform_signal(name@),
        found is Some ==> forall|other: Seq<char>| #[trigger]
            signal_named(other) == found ==> other == name@,
{
    name.parse::<Signal>().ok()
}

/// Whether `name` is what the signal `signal` is called: the only name by which it can be found,
/// and one by which it is found, though `SIGPWR` need not be.
pub open spec fn is_name_of(name: Seq<char>, signal: Signal) -> bool {
    &&& portable_signal(name) || platform_signal(name)
    &&& name != "SIGPWR"@ ==> signal_named(name) == Some(signal)
    &&& forall|other: Seq<char>| #[trigger] signal_named(other) == Some(signal) ==> other == name
}

/// Calls `nix::sys::signal::Signal::as_str`. Claimed: it gives one of the names that `nix` knows on
/// some target, the one by which the signal is found, and no other name finds it. That `SIGPWR` is
/// found by its name is not claimed: on AIX `nix` has the signal but does not find it by name.
#[verifier::external_body]
pub(crate) fn signal_name(signal: Signal) -> (name: &'static str)
    ensures
        is_name_of(name@, signal),
{
    signal.as_str()
}

/// What `{:?}` of a string slice writes: the text in double quotes, with escapes.
pub uninterp spec fn quoted_text(s: Seq<char>) -> Seq<char>;

/// Calls `format!` with `{:?}` on a string slice. Claimed: what is written depends on the text
/// alone.
#[verifier::external_body]
pub(crate) fn quoted(s: &str) -> (r: String)
    ensures
        r@ == quoted_text(s@),
{
    format!("{:?}", s)
}

/// `String::push` puts one character at the end.
pub assume_specification[ String::push ](s: &mut String, c: char)
    ensures
        final(s)@ == old(s)@.push(c),
;

/// Reads `libc::SOMAXCONN`. Claimed: it is positive. The number itself differs from one target to
/// another.
#[verifier::external_body]
pub(crate) fn somaxconn() -> (n: i32)
    ensures
        n > 0,
{
    libc::SOMAXCONN
}

/// Reads `libc::SIGHUP`, which is 1 on every target.
#[verifier::external_body]
pub(crate) fn sighup() -> (n: i32)
    ensures
        n == 1,
{
    libc::SIGHUP
}

/// Reads `libc::SIGINT`, which is 2 on every target.
#[verifier::external_body]
pub(crate) fn sigint() -> (n: i32)
    ensures
        n == 2,
{
    libc::SIGINT
}

/// Reads `libc::SIGTERM`, which is 15 on every target.
#[verifier::external_body]
pub(crate) fn sigterm() -> (n: i32)
    ensures
        n == 15,
{
    libc::SIGTERM
}

} // verus!
