//! The `--restart` and `--stop` control commands, which act on an already-running superdaemon
//! identified by its `--pid-file`.
use crate::number::{int_text, push_i32};
use crate::options::{optional_text, Options, OptionsView};
use crate::outside::{quoted, quoted_text, signal_from_str, signal_named};
use crate::status::{
    generation_read, law_max_generation_bounds_the_status, law_max_generation_of_written_status,
    law_nothing_is_listed_without_a_file, law_pid_is_read_back, law_status_is_read_back,
    max_generation, parse_pid, pid_read, pid_text, read_status, status_read, status_text,
};
use crate::text::{ends_with, joined, lemma_ends_with};
use nix::sys::signal::Signal;
use vstd::prelude::*;
use vstd::string::StringExecFns;

verus! {

/// Why a control command failed.
#[derive(Debug)]
pub enum ControlError {
    /// `--restart` was given without `--pid-file`.
    RestartWithoutPidFile,
    /// `--restart` was given without `--status-file`.
    RestartWithoutStatusFile,
    /// `--stop` was given without `--pid-file`.
    StopWithoutPidFile,
    /// The pid file of the first field could not be read; the second says why.
    UnreadablePidFile(String, String),
    /// The pid file holds something else than a pid.
    NotAPid,
    /// The process of the first field could not be signalled; the second says why.
    NotSignalled(i32, String),
    /// The superdaemon is gone, and no restart was seen.
    Gone,
}

/// What a [`ControlError`] holds.
pub enum ControlErrorView {
    RestartWithoutPidFile,
    RestartWithoutStatusFile,
    StopWithoutPidFile,
    UnreadablePidFile(Seq<char>, Seq<char>),
    NotAPid,
    NotSignalled(i32, Seq<char>),
    Gone,
}

impl View for ControlError {
    type V = ControlErrorView;

    open spec fn view(&self) -> ControlErrorView {
        match *self {
            ControlError::RestartWithoutPidFile => ControlErrorView::RestartWithoutPidFile,
            ControlError::RestartWithoutStatusFile => ControlErrorView::RestartWithoutStatusFile,
            ControlError::StopWithoutPidFile => ControlErrorView::StopWithoutPidFile,
            ControlError::UnreadablePidFile(path, cause) => ControlErrorView::UnreadablePidFile(
                path@,
                cause@,
            ),
            ControlError::NotAPid => ControlErrorView::NotAPid,
            ControlError::NotSignalled(pid, cause) => ControlErrorView::NotSignalled(pid, cause@),
            ControlError::Gone => ControlErrorView::Gone,
        }
    }
}

/// The class of an error.
#[derive(Debug, Clone, Copy, PartialEq, Eq, Structural)]
pub enum ErrorClass {
    /// The command was called with the wrong options.
    InvalidInput,
    /// A file holds the wrong data.
    InvalidData,
    /// That of the read that failed.
    Read,
    Other,
}

impl ControlErrorView {
    /// The message for the user.
    pub open spec fn text(self) -> Seq<char> {
        match self {
            ControlErrorView::RestartWithoutPidFile => "--restart requires --pid-file"@,
            ControlErrorView::RestartWithoutStatusFile => "--restart requires --status-file"@,
            ControlErrorView::StopWithoutPidFile => "--stop requires --pid-file"@,
            ControlErrorView::UnreadablePidFile(path, cause) => "cannot read pid file "@
                + quoted_text(path) + ": "@ + cause,
            ControlErrorView::NotAPid => "pid file does not contain a pid"@,
            ControlErrorView::NotSignalled(pid, cause) => "failed to signal "@ + int_text(
                pid as int,
            ) + ": "@ + cause,
            ControlErrorView::Gone => "the superdaemon exited without completing the restart"@,
        }
    }

    /// The class of the error.
    pub open spec fn class(self) -> ErrorClass {
        match self {
            ControlErrorView::RestartWithoutPidFile => ErrorClass::InvalidInput,
            ControlErrorView::RestartWithoutStatusFile => ErrorClass::InvalidInput,
            ControlErrorView::StopWithoutPidFile => ErrorClass::InvalidInput,
            ControlErrorView::UnreadablePidFile(..) => ErrorClass::Read,
            ControlErrorView::NotAPid => ErrorClass::InvalidData,
            ControlErrorView::NotSignalled(..) => ErrorClass::Other,
            ControlErrorView::Gone => ErrorClass::Other,
        }
    }
}

impl ControlError {
    /// The message for the user.
    pub fn message(&self) -> (r: String)
        ensures
            r@ == self@.text(),
    {
        match self {
            ControlError::RestartWithoutPidFile => String::from_str(
                "--restart requires --pid-file",
            ),
            ControlError::RestartWithoutStatusFile => String::from_str(
                "--restart requires --status-file",
            ),
            ControlError::StopWithoutPidFile => String::from_str("--stop requires --pid-file"),
            ControlError::UnreadablePidFile(path, cause) => {
                let mut r = joined("cannot read pid file ", quoted(path.as_str()).as_str());
                r.append(": ");
                r.append(cause.as_str());
                r
            },
            ControlError::NotAPid => String::from_str("pid file does not contain a pid"),
            ControlError::NotSignalled(pid, cause) => {
                let mut r = String::from_str("failed to signal ");
                push_i32(&mut r, *pid);
                r.append(": ");
                r.append(cause.as_str());
                r
            },
            ControlError::Gone => String::from_str(
                "the superdaemon exited without completing the restart",
            ),
        }
    }

    /// The class of the error.
    pub fn class(&self) -> (r: ErrorClass)
        ensures
            r == self@.class(),
    {
        match self {
            ControlError::RestartWithoutPidFile => ErrorClass::InvalidInput,
            ControlError::RestartWithoutStatusFile => ErrorClass::InvalidInput,
            ControlError::StopWithoutPidFile => ErrorClass::InvalidInput,
            ControlError::UnreadablePidFile(..) => ErrorClass::Read,
            ControlError::NotAPid => ErrorClass::InvalidData,
            ControlError::NotSignalled(..) => ErrorClass::Other,
            ControlError::Gone => ErrorClass::Other,
        }
    }
}

/// How far a control command has come.
#[derive(Debug, Clone, Copy, PartialEq, Eq, Structural)]
pub enum Stage {
    /// The pid file is to be read.
    ReadingPid,
    /// The status file is to be read, before the superdaemon of that pid is signalled.
    ReadingBase(i32),
    /// The superdaemon is to be signalled; the second field is the newest generation before that.
    Signalling(i32, u64),
    /// A second is to pass.
    Sleeping(i32, u64),
    /// It is to be seen whether the superdaemon is still there.
    Probing(i32, u64),
    /// The status file is to be read again.
    Checking(i32, u64),
    /// Nothing is left to do.
    Done,
}

/// A control command on its way.
#[derive(Debug)]
pub struct Control {
    pid_file: String,
    /// The status file that tells of the restart, for `--restart`; none for `--stop`.
    status_file: Option<String>,
    stage: Stage,
}

/// What a [`Control`] holds.
pub struct ControlView {
    pub pid_file: Seq<char>,
    pub status_file: Option<Seq<char>>,
    pub stage: Stage,
}

impl View for Control {
    type V = ControlView;

    closed spec fn view(&self) -> ControlView {
        ControlView {
            pid_file: self.pid_file@,
            status_file: optional_text(self.status_file),
            stage: self.stage,
        }
    }
}

/// What has to be done next for a control command.
#[derive(Debug)]
pub enum ControlRequest {
    /// Read the pid file of that path.
    ReadPidFile(String),
    /// Read the status file of that path.
    ReadStatusFile(String),
    /// Send a signal to the process of that pid.
    Signal(i32, Signal),
    /// Let that many seconds pass.
    Sleep(u64),
    /// See whether the process of that pid can be signalled.
    Probe(i32),
    /// Report success.
    Finish,
}

/// What a [`ControlRequest`] holds.
pub enum ControlRequestView {
    ReadPidFile(Seq<char>),
    ReadStatusFile(Seq<char>),
    Signal(i32, Signal),
    Sleep(u64),
    Probe(i32),
    Finish,
}

impl View for ControlRequest {
    type V = ControlRequestView;

    open spec fn view(&self) -> ControlRequestView {
        match *self {
            ControlRequest::ReadPidFile(path) => ControlRequestView::ReadPidFile(path@),
            ControlRequest::ReadStatusFile(path) => ControlRequestView::ReadStatusFile(path@),
            ControlRequest::Signal(pid, signal) => ControlRequestView::Signal(pid, signal),
            ControlRequest::Sleep(seconds) => ControlRequestView::Sleep(seconds),
            ControlRequest::Probe(pid) => ControlRequestView::Probe(pid),
            ControlRequest::Finish => ControlRequestView::Finish,
        }
    }
}

/// What came of a request.
#[derive(Debug)]
pub enum Reply {
    /// The contents of the pid file, or why it could not be read.
    PidFile(Result<String, String>),
    /// The contents of the status file, if it could be read.
    StatusFile(Option<String>),
    /// The signal was sent, or why it was not.
    Signalled(Result<(), String>),
    /// The time has passed.
    Slept,
    /// Whether the process could be signalled.
    Probed(bool),
}

/// What a [`Reply`] holds.
pub enum ReplyView {
    PidFile(Result<Seq<char>, Seq<char>>),
    StatusFile(Option<Seq<char>>),
    Signalled(Result<(), Seq<char>>),
    Slept,
    Probed(bool),
}

impl View for Reply {
    type V = ReplyView;

    open spec fn view(&self) -> ReplyView {
        match *self {
            Reply::PidFile(Ok(contents)) => ReplyView::PidFile(Ok(contents@)),
            Reply::PidFile(Err(cause)) => ReplyView::PidFile(Err(cause@)),
            Reply::StatusFile(Some(contents)) => ReplyView::StatusFile(Some(contents@)),
            Reply::StatusFile(None) => ReplyView::StatusFile(None),
            Reply::Signalled(Ok(())) => ReplyView::Signalled(Ok(())),
            Reply::Signalled(Err(cause)) => ReplyView::Signalled(Err(cause@)),
            Reply::Slept => ReplyView::Slept,
            Reply::Probed(alive) => ReplyView::Probed(alive),
        }
    }
}

/// Whether `status` shows a restart to be complete where `base` was the newest generation before
/// it: workers are listed, all of one generation, and that one is newer than `base`.
pub open spec fn completed(status: Seq<(u64, i32)>, base: u64) -> bool {
    &&& status.len() > 0
    &&& status[0].0 > base
    &&& forall|i: int| 0 <= i < status.len() ==> (#[trigger] status[i]).0 == status[0].0
}

/// Whether `status` shows a restart to be complete.
pub fn restart_completed(status: &Vec<(u64, i32)>, base: u64) -> (r: bool)
    ensures
        r == completed(status@, base),
{
    if status.len() == 0 || status[0].0 <= base {
        return false;
    }
    let mut i: usize = 1;
    while i < status.len()
        invariant
            1 <= i <= status.len(),
            forall|j: int| 0 <= j < i ==> (#[trigger] status@[j]).0 == status@[0].0,
        decreases status.len() - i,
    {
        if status[i].0 != status[0].0 {
            return false;
        }
        i = i + 1;
    }
    true
}

impl ControlView {
    /// What has to be done next.
    pub open spec fn request(self) -> ControlRequestView {
        match self.stage {
            Stage::ReadingPid => ControlRequestView::ReadPidFile(self.pid_file),
            Stage::ReadingBase(_) => ControlRequestView::ReadStatusFile(self.status_file->Some_0),
            Stage::Signalling(pid, _) => ControlRequestView::Signal(
                pid,
                if self.status_file is Some {
                    signal_named("SIGHUP"@)->Some_0
                } else {
                    signal_named("SIGTERM"@)->Some_0
                },
            ),
            Stage::Sleeping(..) => ControlRequestView::Sleep(1),
            Stage::Probing(pid, _) => ControlRequestView::Probe(pid),
            Stage::Checking(..) => ControlRequestView::ReadStatusFile(self.status_file->Some_0),
            Stage::Done => ControlRequestView::Finish,
        }
    }

    /// Whether the stage is one that the command goes through: only a restart looks at the status
    /// file.
    pub open spec fn wf(self) -> bool {
        match self.stage {
            Stage::ReadingBase(_) | Stage::Sleeping(..) | Stage::Probing(..) | Stage::Checking(
                ..,
            ) => self.status_file is Some,
            _ => true,
        }
    }

    /// Whether `reply` answers what has to be done next.
    pub open spec fn awaits(self, reply: ReplyView) -> bool {
        match self.stage {
            Stage::ReadingPid => reply is PidFile,
            Stage::ReadingBase(_) => reply is StatusFile,
            Stage::Signalling(..) => reply is Signalled,
            Stage::Sleeping(..) => reply is Slept,
            Stage::Probing(..) => reply is Probed,
            Stage::Checking(..) => reply is StatusFile,
            Stage::Done => false,
        }
    }

    pub open spec fn at(self, stage: Stage) -> ControlView {
        ControlView { stage, ..self }
    }

    /// How the command goes on when `reply` has come.
    pub open spec fn answered(self, reply: ReplyView) -> Result<ControlView, ControlErrorView> {
        match (self.stage, reply) {
            (Stage::ReadingPid, ReplyView::PidFile(Err(cause))) => Err(
                ControlErrorView::UnreadablePidFile(self.pid_file, cause),
            ),
            (Stage::ReadingPid, ReplyView::PidFile(Ok(contents))) => match pid_read(contents) {
                Some(pid) => Ok(
                    if self.status_file is Some {
                        self.at(Stage::ReadingBase(pid))
                    } else {
                        self.at(Stage::Signalling(pid, 0))
                    },
                ),
                None => Err(ControlErrorView::NotAPid),
            },
            (Stage::ReadingBase(pid), ReplyView::StatusFile(contents)) => Ok(
                self.at(Stage::Signalling(pid, generation_read(contents))),
            ),
            (Stage::Signalling(pid, _), ReplyView::Signalled(Err(cause))) => Err(
                ControlErrorView::NotSignalled(pid, cause),
            ),
            (Stage::Signalling(pid, base), ReplyView::Signalled(Ok(()))) => Ok(
                if self.status_file is Some {
                    self.at(Stage::Sleeping(pid, base))
                } else {
                    self.at(Stage::Done)
                },
            ),
            (Stage::Sleeping(pid, base), ReplyView::Slept) => Ok(
                self.at(Stage::Probing(pid, base)),
            ),
            (Stage::Probing(pid, base), ReplyView::Probed(alive)) => if alive {
                Ok(self.at(Stage::Checking(pid, base)))
            } else {
                Err(ControlErrorView::Gone)
            },
            (Stage::Checking(pid, base), ReplyView::StatusFile(contents)) => Ok(
                if completed(status_read(contents), base) {
                    self.at(Stage::Done)
                } else {
                    self.at(Stage::Sleeping(pid, base))
                },
            ),
            _ => Ok(self),
        }
    }
}

/// How `--restart` starts: it needs a pid file and a status file.
pub open spec fn restart_begun(opts: OptionsView) -> Result<ControlView, ControlErrorView> {
    match (opts.pid_file, opts.status_file) {
        (None, _) => Err(ControlErrorView::RestartWithoutPidFile),
        (Some(_), None) => Err(ControlErrorView::RestartWithoutStatusFile),
        (Some(pid_file), Some(status_file)) => Ok(
            ControlView { pid_file, status_file: Some(status_file), stage: Stage::ReadingPid },
        ),
    }
}

/// How `--stop` starts: it needs a pid file.
pub open spec fn stop_begun(opts: OptionsView) -> Result<ControlView, ControlErrorView> {
    match opts.pid_file {
        None => Err(ControlErrorView::StopWithoutPidFile),
        Some(pid_file) => Ok(
            ControlView { pid_file, status_file: None, stage: Stage::ReadingPid },
        ),
    }
}

/// Sends `SIGHUP` to the running superdaemon and waits until the new worker generation has fully
/// taken over (all older generations have exited).
///
/// Requires both `--pid-file` and `--status-file`.
pub fn restart_server(opts: &Options) -> (r: Result<Control, ControlError>)
    ensures
        match r {
            Ok(control) => restart_begun(opts@) == Ok::<_, ControlErrorView>(control@)
                && control@.wf(),
            Err(e) => restart_begun(opts@) == Err::<ControlView, _>(e@),
        },
{
    match (&opts.pid_file, &opts.status_file) {
        (Some(pid_file), Some(status_file)) => Ok(
            Control {
                pid_file: pid_file.clone(),
                status_file: Some(status_file.clone()),
                stage: Stage::ReadingPid,
            },
        ),
        (Some(_), None) => Err(ControlError::RestartWithoutStatusFile),
        (None, _) => Err(ControlError::RestartWithoutPidFile),
    }
}

/// Sends `SIGTERM` to the running superdaemon. Requires `--pid-file`.
pub fn stop_server(opts: &Options) -> (r: Result<Control, ControlError>)
    ensures
        match r {
            Ok(control) => stop_begun(opts@) == Ok::<_, ControlErrorView>(control@)
                && control@.wf(),
            Err(e) => stop_begun(opts@) == Err::<ControlView, _>(e@),
        },
{
    match &opts.pid_file {
        Some(pid_file) => Ok(
            Control { pid_file: pid_file.clone(), status_file: None, stage: Stage::ReadingPid },
        ),
        None => Err(ControlError::StopWithoutPidFile),
    }
}

/// Reads the pid stored in the contents of the pid file `path`.
pub fn read_pid(path: &str, contents: &Result<String, String>) -> (r: Result<i32, ControlError>)
    ensures
        match r {
            Ok(pid) => contents matches Ok(text) && pid_read(text@) == Some(pid),
            Err(e) => match contents {
                Ok(text) => pid_read(text@) is None && e == ControlError::NotAPid,
                Err(cause) => e@ == ControlErrorView::UnreadablePidFile(path@, cause@),
            },
        },
{
    match contents {
        Ok(text) => match parse_pid(text.as_str()) {
            Some(pid) => Ok(pid),
            None => Err(ControlError::NotAPid),
        },
        Err(cause) => Err(
            ControlError::UnreadablePidFile(String::from_str(path), cause.clone()),
        ),
    }
}

impl Control {
    fn status_path(&self) -> (r: String)
        requires
            self.status_file is Some,
        ensures
            r@ == self@.status_file->Some_0,
    {
        match &self.status_file {
            Some(path) => path.clone(),
            None => String::new(),
        }
    }

    fn order(&self) -> (r: Signal)
        ensures
            Some(r) == if self@.status_file is Some {
                signal_named("SIGHUP"@)
            } else {
                signal_named("SIGTERM"@)
            },
    {
        if self.status_file.is_some() {
            signal_from_str("SIGHUP").unwrap()
        } else {
            signal_from_str("SIGTERM").unwrap()
        }
    }

    /// What has to be done next.
    pub fn request(&self) -> (r: ControlRequest)
        requires
            self@.wf(),
        ensures
            r@ == self@.request(),
            r matches ControlRequest::Signal(_, signal) ==> Some(signal)
                == if self@.status_file is Some {
                signal_named("SIGHUP"@)
            } else {
                signal_named("SIGTERM"@)
            },
    {
        match self.stage {
            Stage::ReadingPid => ControlRequest::ReadPidFile(self.pid_file.clone()),
            Stage::ReadingBase(_) => ControlRequest::ReadStatusFile(self.status_path()),
            Stage::Signalling(pid, _) => ControlRequest::Signal(pid, self.order()),
            Stage::Sleeping(..) => ControlRequest::Sleep(1),
            Stage::Probing(pid, _) => ControlRequest::Probe(pid),
            Stage::Checking(..) => ControlRequest::ReadStatusFile(self.status_path()),
            Stage::Done => ControlRequest::Finish,
        }
    }

    /// Goes on with what came of the request.
    pub fn answer(&mut self, reply: &Reply) -> (r: Result<(), ControlError>)
        requires
            old(self)@.wf(),
            old(self)@.awaits(reply@),
        ensures
            final(self)@.wf(),
            match r {
                Ok(()) => old(self)@.answered(reply@) == Ok::<_, ControlErrorView>(final(self)@),
                Err(e) => old(self)@.answered(reply@) == Err::<ControlView, _>(e@) && final(self)@
                    == old(self)@,
            },
    {
        match (self.stage, reply) {
            (Stage::ReadingPid, Reply::PidFile(contents)) => {
                match read_pid(self.pid_file.as_str(), contents) {
                    Ok(pid) => {
                        self.stage =
                        if self.status_file.is_some() {
                            Stage::ReadingBase(pid)
                        } else {
                            Stage::Signalling(pid, 0)
                        };
                    },
                    Err(e) => {
                        return Err(e);
                    },
                }
            },
            (Stage::ReadingBase(pid), Reply::StatusFile(contents)) => {
                let base: u64 = match contents {
                    Some(text) => max_generation(Some(text.as_str())),
                    None => max_generation(None),
                };
                self.stage = Stage::Signalling(pid, base);
            },
            (Stage::Signalling(pid, base), Reply::Signalled(sent)) => {
                match sent {
                    Ok(()) => {
                        self.stage =
                        if self.status_file.is_some() {
                            Stage::Sleeping(pid, base)
                        } else {
                            Stage::Done
                        };
                    },
                    Err(cause) => {
                        return Err(ControlError::NotSignalled(pid, cause.clone()));
                    },
                }
            },
            (Stage::Sleeping(pid, base), Reply::Slept) => {
                self.stage = Stage::Probing(pid, base);
            },
            (Stage::Probing(pid, base), Reply::Probed(alive)) => {
                if !*alive {
                    return Err(ControlError::Gone);
                }
                self.stage = Stage::Checking(pid, base);
            },
            (Stage::Checking(pid, base), Reply::StatusFile(contents)) => {
                let status = match contents {
                    Some(text) => read_status(Some(text.as_str())),
                    None => read_status(None),
                };
                self.stage =
                if restart_completed(&status, base) {
                    Stage::Done
                } else {
                    Stage::Sleeping(pid, base)
                };
            },
            _ => {},
        }
        Ok(())
    }
}

/// What the status file showed before the signal never counts as a completed restart.
pub proof fn law_restart_waits_for_a_newer_generation(contents: Option<Seq<char>>)
    ensures
        !completed(status_read(contents), generation_read(contents)),
{
    law_max_generation_bounds_the_status(contents);
}

/// A restart is reported as complete only by a look at a status file that lists a generation newer
/// than every one listed before the signal, and no other.
pub proof fn law_done_means_completed(c: ControlView, reply: ReplyView)
    requires
        c.wf(),
        c.awaits(reply),
        c.status_file is Some,
        c.answered(reply) matches Ok(next) && next.stage is Done,
    ensures
        c.stage is Checking,
        reply matches ReplyView::StatusFile(contents) && completed(
            status_read(contents),
            c.stage->Checking_1,
        ),
{
}

/// What a restart compares with stays the newest generation listed before the signal was sent, and
/// the pid stays the one of the pid file.
pub proof fn law_base_is_kept(c: ControlView, reply: ReplyView, pid: i32, base: u64)
    requires
        c.wf(),
        c.awaits(reply),
        c.status_file is Some,
        ({
            ||| c.stage == Stage::Signalling(pid, base)
            ||| c.stage == Stage::Sleeping(pid, base)
            ||| c.stage == Stage::Probing(pid, base)
            ||| c.stage == Stage::Checking(pid, base)
        }),
    ensures
        c.answered(reply) matches Ok(next) ==> {
            ||| next.stage == Stage::Sleeping(pid, base)
            ||| next.stage == Stage::Probing(pid, base)
            ||| next.stage == Stage::Checking(pid, base)
            ||| next.stage is Done
        },
{
}

/// `--restart` needs a pid file and a status file, `--stop` needs a pid file; each begins with
/// reading the pid file that was given.
pub proof fn law_control_commands_need_their_files(opts: OptionsView)
    ensures
        opts.pid_file is None ==> restart_begun(opts) == Err::<ControlView, _>(
            ControlErrorView::RestartWithoutPidFile,
        ) && stop_begun(opts) == Err::<ControlView, _>(ControlErrorView::StopWithoutPidFile),
        opts.pid_file is Some && opts.status_file is None ==> restart_begun(opts) == Err::<
            ControlView,
            _,
        >(ControlErrorView::RestartWithoutStatusFile),
        opts.pid_file is Some && opts.status_file is Some ==> (restart_begun(opts) matches Ok(c)
            && c.wf() && c.request() == ControlRequestView::ReadPidFile(opts.pid_file->Some_0)),
        opts.pid_file is Some ==> (stop_begun(opts) matches Ok(c) && c.wf() && c.request()
            == ControlRequestView::ReadPidFile(opts.pid_file->Some_0)),
{
}

/// A restart reads the pid that the superdaemon wrote and the status file, and only then sends
/// `SIGHUP` to that pid. After every second it sees whether the superdaemon is there, and reads the
/// status file again. It ends well exactly where that lists workers of one generation alone, one
/// newer than all that were listed before the signal, and otherwise lets another second pass.
pub proof fn law_restart_course(
    opts: OptionsView,
    pid: nat,
    earlier: Seq<(u64, i32)>,
    now: Seq<(u64, i32)>,
)
    requires
        opts.pid_file is Some,
        opts.status_file is Some,
        pid <= i32::MAX,
    ensures
        ({
            let path = opts.status_file->Some_0;
            let begun = restart_begun(opts)->Ok_0;
            let named = begun.answered(ReplyView::PidFile(Ok(pid_text(pid))))->Ok_0;
            let based = named.answered(ReplyView::StatusFile(Some(status_text(earlier))))->Ok_0;
            let told = based.answered(ReplyView::Signalled(Ok(())))->Ok_0;
            let waited = told.answered(ReplyView::Slept)->Ok_0;
            let seen = waited.answered(ReplyView::Probed(true))->Ok_0;
            let last = seen.answered(ReplyView::StatusFile(Some(status_text(now))))->Ok_0;
            &&& named.request() == ControlRequestView::ReadStatusFile(path)
            &&& based.request() == ControlRequestView::Signal(
                pid as i32,
                signal_named("SIGHUP"@)->Some_0,
            )
            &&& told.request() == ControlRequestView::Sleep(1)
            &&& waited.request() == ControlRequestView::Probe(pid as i32)
            &&& seen.request() == ControlRequestView::ReadStatusFile(path)
            &&& last.request() == ControlRequestView::Finish <==> {
                &&& now.len() > 0
                &&& now[0].0 > 0
                &&& forall|i: int| 0 <= i < now.len() ==> (#[trigger] now[i]).0 == now[0].0
                &&& forall|i: int| 0 <= i < earlier.len() ==> (#[trigger] earlier[i]).0 < now[0].0
            }
            &&& last.request() != ControlRequestView::Finish ==> last == told
        }),
{
    let base = generation_read(Some(status_text(earlier)));
    law_pid_is_read_back(pid);
    law_status_is_read_back(earlier);
    law_status_is_read_back(now);
    law_nothing_is_listed_without_a_file();
    if earlier.len() > 0 {
        law_max_generation_of_written_status(earlier);
        let k = choose|k: int| 0 <= k < earlier.len() && (#[trigger] earlier[k]).0 == base;
        if now.len() > 0 && forall|i: int|
            0 <= i < earlier.len() ==> (#[trigger] earlier[i]).0 < now[0].0 {
            assert(earlier[k].0 < now[0].0);
        }
    } else {
        assert(status_text(earlier) =~= Seq::<char>::empty());
        assert(base == 0);
    }
}

/// A stop reads the pid that the superdaemon wrote, sends `SIGTERM` to it, and is done.
pub proof fn law_stop_course(opts: OptionsView, pid: nat)
    requires
        opts.pid_file is Some,
        pid <= i32::MAX,
    ensures
        ({
            let begun = stop_begun(opts)->Ok_0;
            let named = begun.answered(ReplyView::PidFile(Ok(pid_text(pid))))->Ok_0;
            let told = named.answered(ReplyView::Signalled(Ok(())))->Ok_0;
            &&& named.request() == ControlRequestView::Signal(
                pid as i32,
                signal_named("SIGTERM"@)->Some_0,
            )
            &&& told.request() == ControlRequestView::Finish
        }),
{
    law_pid_is_read_back(pid);
}

/// A control command fails where the pid file cannot be read or holds no pid, where the signal
/// cannot be sent, and where the superdaemon is gone while a restart waits; it fails nowhere else.
pub proof fn law_control_failures(c: ControlView, reply: ReplyView)
    requires
        c.wf(),
        c.awaits(reply),
    ensures
        match c.request() {
            ControlRequestView::ReadPidFile(path) => match reply {
                ReplyView::PidFile(Err(cause)) => c.answered(reply) == Err::<ControlView, _>(
                    ControlErrorView::UnreadablePidFile(path, cause),
                ),
                ReplyView::PidFile(Ok(contents)) => if pid_read(contents) is None {
                    c.answered(reply) == Err::<ControlView, _>(ControlErrorView::NotAPid)
                } else {
                    c.answered(reply) is Ok
                },
                _ => false,
            },
            ControlRequestView::Signal(pid, _) => match reply {
                ReplyView::Signalled(Err(cause)) => c.answered(reply) == Err::<ControlView, _>(
                    ControlErrorView::NotSignalled(pid, cause),
                ),
                _ => c.answered(reply) is Ok,
            },
            ControlRequestView::Probe(_) => match reply {
                ReplyView::Probed(false) => c.answered(reply) == Err::<ControlView, _>(
                    ControlErrorView::Gone,
                ),
                _ => c.answered(reply) is Ok,
            },
            _ => c.answered(reply) is Ok,
        },
{
}

/// A failure tells which file, or which process, and why.
pub proof fn law_failures_tell_why(path: Seq<char>, pid: i32, cause: Seq<char>)
    ensures
        ends_with(
            ControlErrorView::UnreadablePidFile(path, cause).text(),
            quoted_text(path) + ": "@ + cause,
        ),
        ends_with(
            ControlErrorView::NotSignalled(pid, cause).text(),
            int_text(pid as int) + ": "@ + cause,
        ),
{
    let file = quoted_text(path) + ": "@ + cause;
    let process = int_text(pid as int) + ": "@ + cause;
    lemma_ends_with("cannot read pid file "@, file);
    lemma_ends_with("failed to signal "@, process);
    assert(ControlErrorView::UnreadablePidFile(path, cause).text() =~= "cannot read pid file "@
        + file);
    assert(ControlErrorView::NotSignalled(pid, cause).text() =~= "failed to signal "@ + process);
}

} // verus!
