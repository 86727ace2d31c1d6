//! What the superdaemon does around its supervision: setting itself up, and putting into words what
//! became of a worker.
use crate::number::{int_text, push_i32};
use crate::options::{Options, OptionsView};
use crate::outside::{is_name_of, quoted, quoted_text, signal_name};
use crate::text::joined;
use nix::sys::signal::Signal;
use vstd::prelude::*;
use vstd::string::StrSliceExecFns;
use vstd::string::StringExecFns;

verus! {

/// One step on the way to the first worker.
#[derive(Debug, Clone, Copy, PartialEq, Eq, Structural)]
pub enum SetupStep {
    /// Bind every socket. It comes first so that binding errors surface on the console before the
    /// superdaemon potentially detaches into the background.
    BindSockets,
    /// Detach from the terminal.
    Daemonize,
    /// Redirect the output to `--log-file`.
    RedirectOutput,
    /// Lock `--pid-file` and write the pid into it.
    LockPidFile,
    /// Install the signal handlers.
    InstallSignals,
}

/// One step if `wanted`, none otherwise.
pub open spec fn step_if(wanted: bool, step: SetupStep) -> Seq<SetupStep> {
    if wanted {
        seq![step]
    } else {
        Seq::empty()
    }
}

/// The steps on the way to the first worker, in their order.
pub open spec fn setup(opts: OptionsView) -> Seq<SetupStep> {
    seq![SetupStep::BindSockets] + step_if(opts.daemonize, SetupStep::Daemonize) + step_if(
        opts.log_file is Some,
        SetupStep::RedirectOutput,
    ) + step_if(opts.pid_file is Some, SetupStep::LockPidFile) + seq![SetupStep::InstallSignals]
}

/// The steps on the way to the first worker, in their order.
pub fn setup_steps(opts: &Options) -> (r: Vec<SetupStep>)
    ensures
        r@ == setup(opts@),
{
    let mut steps: Vec<SetupStep> = Vec::new();
    steps.push(SetupStep::BindSockets);
    if opts.daemonize {
        steps.push(SetupStep::Daemonize);
    }
    if opts.log_file.is_some() {
        steps.push(SetupStep::RedirectOutput);
    }
    if opts.pid_file.is_some() {
        steps.push(SetupStep::LockPidFile);
    }
    steps.push(SetupStep::InstallSignals);
    assert(steps@ =~= setup(opts@));
    steps
}

/// Whether the step `a` is taken, and the step `b` after it.
pub open spec fn taken_before(steps: Seq<SetupStep>, a: SetupStep, b: SetupStep) -> bool {
    exists|i: int, j: int|
        0 <= i < j < steps.len() && #[trigger] steps[i] == a && #[trigger] steps[j] == b
}

/// Each step is taken exactly when the options ask for it, whatever the others are, and no step is
/// taken twice. The sockets are bound before anything else, and the signals are seen to last.
pub proof fn law_setup_takes_the_steps_asked_for(opts: OptionsView)
    ensures
        setup(opts).contains(SetupStep::BindSockets),
        setup(opts).contains(SetupStep::InstallSignals),
        setup(opts).contains(SetupStep::Daemonize) <==> opts.daemonize,
        setup(opts).contains(SetupStep::RedirectOutput) <==> opts.log_file is Some,
        setup(opts).contains(SetupStep::LockPidFile) <==> opts.pid_file is Some,
        forall|i: int, j: int|
            0 <= i < j < setup(opts).len() ==> #[trigger] setup(opts)[i] != #[trigger] setup(
                opts,
            )[j],
        setup(opts)[0] == SetupStep::BindSockets,
        setup(opts).last() == SetupStep::InstallSignals,
{
    let d = opts.daemonize as int;
    let l = (opts.log_file is Some) as int;
    let p = (opts.pid_file is Some) as int;
    let steps = setup(opts);
    assert(steps.len() == 2 + d + l + p);
    assert(steps[0] == SetupStep::BindSockets);
    assert(steps[1 + d + l + p] == SetupStep::InstallSignals);
    if opts.daemonize {
        assert(steps[1] == SetupStep::Daemonize);
    }
    if opts.log_file is Some {
        assert(steps[1 + d] == SetupStep::RedirectOutput);
    }
    if opts.pid_file is Some {
        assert(steps[1 + d + l] == SetupStep::LockPidFile);
    }
}

/// The superdaemon detaches before it redirects its output, so that detaching does not undo it, and
/// both come before the pid file is written, so that it holds the pid of the detached process.
pub proof fn law_setup_order(opts: OptionsView)
    ensures
        opts.daemonize && opts.log_file is Some ==> taken_before(
            setup(opts),
            SetupStep::Daemonize,
            SetupStep::RedirectOutput,
        ),
        opts.daemonize && opts.pid_file is Some ==> taken_before(
            setup(opts),
            SetupStep::Daemonize,
            SetupStep::LockPidFile,
        ),
        opts.log_file is Some && opts.pid_file is Some ==> taken_before(
            setup(opts),
            SetupStep::RedirectOutput,
            SetupStep::LockPidFile,
        ),
{
    let d = opts.daemonize as int;
    let l = (opts.log_file is Some) as int;
    let steps = setup(opts);
    if opts.daemonize {
        assert(steps[1] == SetupStep::Daemonize);
    }
    if opts.log_file is Some {
        assert(steps[1 + d] == SetupStep::RedirectOutput);
    }
    if opts.pid_file is Some {
        assert(steps[1 + d + l] == SetupStep::LockPidFile);
    }
}

/// The message for the user when the pid file `path` is locked by another superdaemon.
pub fn already_locked(path: &str) -> (r: String)
    ensures
        r@ == "another start_server already holds "@ + quoted_text(path@),
{
    joined("another start_server already holds ", quoted(path).as_str())
}

/// What became of a child.
#[derive(Debug)]
pub enum Ending {
    /// It exited with that status.
    Exited(i32),
    /// That signal killed it.
    Signaled(Signal),
    /// Something else, in words.
    Other(String),
}

/// Puts what became of a child into words.
pub fn describe_status(ending: &Ending) -> (r: String)
    ensures
        match *ending {
            Ending::Exited(code) => r@ == "exit status "@ + int_text(code as int),
            Ending::Signaled(signal) => exists|name: Seq<char>| #[trigger]
                is_name_of(name, signal) && r@ == "signal "@ + name,
            Ending::Other(text) => r@ == text@,
        },
{
    match ending {
        Ending::Exited(code) => {
            let mut r = String::from_str("exit status ");
            push_i32(&mut r, *code);
            r
        },
        Ending::Signaled(signal) => joined("signal ", signal_name(*signal)),
        Ending::Other(text) => text.clone(),
    }
}

/// Where the superdaemon's output goes.
#[derive(Debug)]
pub enum LogTarget {
    /// To the standard input of a shell command.
    Command(String),
    /// To the end of a file.
    File(String),
}

/// What a [`LogTarget`] holds.
pub enum LogTargetView {
    Command(Seq<char>),
    File(Seq<char>),
}

impl View for LogTarget {
    type V = LogTargetView;

    open spec fn view(&self) -> LogTargetView {
        match *self {
            LogTarget::Command(c) => LogTargetView::Command(c@),
            LogTarget::File(f) => LogTargetView::File(f@),
        }
    }
}

/// Where the value `value` of `--log-file` sends the output: a leading `|` names a command.
pub open spec fn log_target_of(value: Seq<char>) -> LogTargetView {
    if value.len() > 0 && value[0] == '|' {
        LogTargetView::Command(value.skip(1))
    } else {
        LogTargetView::File(value)
    }
}

/// What follows a leading `|` is a command, verbatim, and every other value is the name of a file,
/// as it is.
pub proof fn law_log_targets(rest: Seq<char>, value: Seq<char>)
    requires
        value.len() == 0 || value[0] != '|',
    ensures
        log_target_of(seq!['|'] + rest) == LogTargetView::Command(rest),
        log_target_of(value) == LogTargetView::File(value),
{
    assert((seq!['|'] + rest).skip(1) =~= rest);
}

/// Reads the value of `--log-file`: a leading `|` names a command.
pub fn log_target(spec: &str) -> (r: LogTarget)
    ensures
        r@ == (if spec@.len() > 0 && spec@[0] == '|' {
            LogTargetView::Command(spec@.skip(1))
        } else {
            LogTargetView::File(spec@)
        }),
        r@ == log_target_of(spec@),
{
    let n = spec.unicode_len();
    if n > 0 && spec.get_char(0) == '|' {
        let command = spec.substring_char(1, n);
        assert(command@ =~= spec@.skip(1));
        LogTarget::Command(String::from_str(command))
    } else {
        LogTarget::File(String::from_str(spec))
    }
}

} // verus!
