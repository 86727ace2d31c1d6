//! Command-line parsing for the `start_server` program.
use crate::number::{
    decimal, int_text, law_numbers_are_read, law_other_texts_are_no_numbers, lemma_i32_round_trip,
    parse_i32, parse_u64, read_i32, read_unsigned,
};
use crate::outside::{
    platform_signal, portable_signal, quoted, quoted_text, signal_from_str, signal_named, somaxconn,
};
use crate::text::{
    cut_first, ends_with, joined, lemma_cut_first_of_join, lemma_ends_with, lemma_first_index, same,
    split_once, starts_with, texts, upper, uppercase,
};
use nix::sys::signal::Signal;
use vstd::prelude::*;
use vstd::string::StrSliceExecFns;
use vstd::string::StringExecFns;

verus! {

/// The usage/help text shown for `--help`.
pub const USAGE: &'static str = "\
start_server (rs-server-starter 0.1.0) - a superdaemon for hot-deploying server programs\n\
\n\
Usage:\n\
\x20   start_server [OPTIONS] -- server-prog server-arg...\n\
\n\
Options:\n\
\x20   --port=(port|host:port|u<port>)[=fd]\n\
\x20                      TCP (or UDP with the `u' prefix) port to listen on;\n\
\x20                      may be specified multiple times.\n\
\x20   --path=path[=fd]   unix socket path to listen on; repeatable.\n\
\x20   --interval=seconds seconds to wait between spawning workers (default: 1).\n\
\x20   --log-file=file    redirect worker stdout/stderr to file (a `|cmd'\n\
\x20                      value pipes the logs to a command instead).\n\
\x20   --pid-file=file    write the superdaemon pid to file.\n\
\x20   --status-file=file file tracking the running worker generations.\n\
\x20   --dir=path         chdir to path before spawning workers.\n\
\x20   --signal-on-hup=SIG  signal sent to old workers on restart (default: TERM).\n\
\x20   --signal-on-term=SIG signal sent to workers on shutdown  (default: TERM).\n\
\x20   --backlog=n        listen backlog size (default: SOMAXCONN).\n\
\x20   --envdir=path      load environment variables from a directory of files.\n\
\x20   --enable-auto-restart          periodically restart the worker.\n\
\x20   --auto-restart-interval=seconds interval for auto-restart (default: 360).\n\
\x20   --kill-old-delay=seconds       delay before killing old workers\n\
\x20                      (default: 5 with auto-restart, otherwise 0).\n\
\x20   --daemonize        run the superdaemon in the background.\n\
\x20   --restart          restart a running superdaemon (needs --pid-file and\n\
\x20                      --status-file) and exit.\n\
\x20   --stop             stop a running superdaemon (needs --pid-file) and exit.\n\
\x20   --help             print this help and exit.\n\
\x20   --version          print the version and exit.\n";

/// What the user asked `start_server` to do.
#[derive(Debug, Clone, Copy, PartialEq, Eq, Structural)]
pub enum Action {
    /// Bind sockets and supervise a worker (the default).
    Run,
    /// Send `SIGHUP` to a running superdaemon and wait for the new generation.
    Restart,
    /// Send `SIGTERM` to a running superdaemon.
    Stop,
    /// Print help text and exit.
    Help,
    /// Print the version and exit.
    Version,
}

/// Fully-parsed configuration for a `start_server` invocation.
#[derive(Debug)]
pub struct Options {
    pub action: Action,
    pub ports: Vec<String>,
    pub paths: Vec<String>,
    pub interval: u64,
    pub log_file: Option<String>,
    pub pid_file: Option<String>,
    pub dir: Option<String>,
    pub signal_on_hup: Signal,
    pub signal_on_term: Signal,
    pub backlog: Option<i32>,
    pub envdir: Option<String>,
    pub enable_auto_restart: bool,
    pub daemonize: bool,
    pub auto_restart_interval: u64,
    pub kill_old_delay: Option<u64>,
    pub status_file: Option<String>,
    /// The worker command and its arguments.
    pub command: Vec<String>,
}

/// What an [`Options`] holds, with its strings as sequences of characters.
pub struct OptionsView {
    pub action: Action,
    pub ports: Seq<Seq<char>>,
    pub paths: Seq<Seq<char>>,
    pub interval: u64,
    pub log_file: Option<Seq<char>>,
    pub pid_file: Option<Seq<char>>,
    pub dir: Option<Seq<char>>,
    pub signal_on_hup: Signal,
    pub signal_on_term: Signal,
    pub backlog: Option<i32>,
    pub envdir: Option<Seq<char>>,
    pub enable_auto_restart: bool,
    pub daemonize: bool,
    pub auto_restart_interval: u64,
    pub kill_old_delay: Option<u64>,
    pub status_file: Option<Seq<char>>,
    pub command: Seq<Seq<char>>,
}

/// The text of an optional string.
pub open spec fn optional_text(s: Option<String>) -> Option<Seq<char>> {
    match s {
        Some(t) => Some(t@),
        None => None,
    }
}

impl View for Options {
    type V = OptionsView;

    open spec fn view(&self) -> OptionsView {
        OptionsView {
            action: self.action,
            ports: texts(self.ports@),
            paths: texts(self.paths@),
            interval: self.interval,
            log_file: optional_text(self.log_file),
            pid_file: optional_text(self.pid_file),
            dir: optional_text(self.dir),
            signal_on_hup: self.signal_on_hup,
            signal_on_term: self.signal_on_term,
            backlog: self.backlog,
            envdir: optional_text(self.envdir),
            enable_auto_restart: self.enable_auto_restart,
            daemonize: self.daemonize,
            auto_restart_interval: self.auto_restart_interval,
            kill_old_delay: self.kill_old_delay,
            status_file: optional_text(self.status_file),
            command: texts(self.command@),
        }
    }
}

/// The configuration before any argument is read.
pub open spec fn default_options() -> OptionsView {
    OptionsView {
        action: Action::Run,
        ports: Seq::empty(),
        paths: Seq::empty(),
        interval: 1,
        log_file: None,
        pid_file: None,
        dir: None,
        signal_on_hup: signal_named("SIGTERM"@)->Some_0,
        signal_on_term: signal_named("SIGTERM"@)->Some_0,
        backlog: None,
        envdir: None,
        enable_auto_restart: false,
        daemonize: false,
        auto_restart_interval: 360,
        kill_old_delay: None,
        status_file: None,
        command: Seq::empty(),
    }
}

impl OptionsView {
    /// The seconds to wait before old workers are signalled on a restart.
    pub open spec fn kill_delay(self) -> u64 {
        match self.kill_old_delay {
            Some(seconds) => seconds,
            None => if self.enable_auto_restart {
                5
            } else {
                0
            },
        }
    }

    /// Whether the options can be run: there is a command, and a socket to hand to it.
    pub open spec fn runnable(self) -> bool {
        &&& self.command.len() > 0
        &&& self.ports.len() > 0 || self.paths.len() > 0
    }
}

/// An option that `start_server` knows.
#[derive(Debug, Clone, Copy, PartialEq, Eq, Structural)]
pub enum Keyword {
    Help,
    Version,
    Restart,
    Stop,
    EnableAutoRestart,
    Daemonize,
    Port,
    Path,
    LogFile,
    PidFile,
    Dir,
    Envdir,
    StatusFile,
    Interval,
    Backlog,
    AutoRestartInterval,
    KillOldDelay,
    SignalOnHup,
    SignalOnTerm,
}

impl Keyword {
    /// How the option is written.
    pub open spec fn text(self) -> Seq<char> {
        match self {
            Keyword::Help => "--help"@,
            Keyword::Version => "--version"@,
            Keyword::Restart => "--restart"@,
            Keyword::Stop => "--stop"@,
            Keyword::EnableAutoRestart => "--enable-auto-restart"@,
            Keyword::Daemonize => "--daemonize"@,
            Keyword::Port => "--port"@,
            Keyword::Path => "--path"@,
            Keyword::LogFile => "--log-file"@,
            Keyword::PidFile => "--pid-file"@,
            Keyword::Dir => "--dir"@,
            Keyword::Envdir => "--envdir"@,
            Keyword::StatusFile => "--status-file"@,
            Keyword::Interval => "--interval"@,
            Keyword::Backlog => "--backlog"@,
            Keyword::AutoRestartInterval => "--auto-restart-interval"@,
            Keyword::KillOldDelay => "--kill-old-delay"@,
            Keyword::SignalOnHup => "--signal-on-hup"@,
            Keyword::SignalOnTerm => "--signal-on-term"@,
        }
    }

    /// Whether the option stands alone, without a value.
    pub open spec fn is_flag(self) -> bool {
        self is Help || self is Version || self is Restart || self is Stop
            || self is EnableAutoRestart || self is Daemonize
    }

    /// How the option is written.
    pub fn name(self) -> (r: &'static str)
        ensures
            r@ == self.text(),
    {
        match self {
            Keyword::Help => "--help",
            Keyword::Version => "--version",
            Keyword::Restart => "--restart",
            Keyword::Stop => "--stop",
            Keyword::EnableAutoRestart => "--enable-auto-restart",
            Keyword::Daemonize => "--daemonize",
            Keyword::Port => "--port",
            Keyword::Path => "--path",
            Keyword::LogFile => "--log-file",
            Keyword::PidFile => "--pid-file",
            Keyword::Dir => "--dir",
            Keyword::Envdir => "--envdir",
            Keyword::StatusFile => "--status-file",
            Keyword::Interval => "--interval",
            Keyword::Backlog => "--backlog",
            Keyword::AutoRestartInterval => "--auto-restart-interval",
            Keyword::KillOldDelay => "--kill-old-delay",
            Keyword::SignalOnHup => "--signal-on-hup",
            Keyword::SignalOnTerm => "--signal-on-term",
        }
    }

    /// The option that is written `name`.
    pub fn named(name: &str) -> (r: Option<Keyword>)
        ensures
            r == keyword_of(name@),
    {
        let r = Keyword::find(name);
        proof {
            if let Some(k) = r {
                lemma_keywords_differ(k, keyword_of(name@)->Some_0);
            }
        }
        r
    }

    fn find(name: &str) -> (r: Option<Keyword>)
        ensures
            match r {
                Some(k) => k.text() == name@,
                None => forall|k: Keyword| #[trigger] k.text() != name@,
            },
    {
        if same(name, "--help") {
            Some(Keyword::Help)
        } else if same(name, "--version") {
            Some(Keyword::Version)
        } else if same(name, "--restart") {
            Some(Keyword::Restart)
        } else if same(name, "--stop") {
            Some(Keyword::Stop)
        } else if same(name, "--enable-auto-restart") {
            Some(Keyword::EnableAutoRestart)
        } else if same(name, "--daemonize") {
            Some(Keyword::Daemonize)
        } else if same(name, "--port") {
            Some(Keyword::Port)
        } else if same(name, "--path") {
            Some(Keyword::Path)
        } else if same(name, "--log-file") {
            Some(Keyword::LogFile)
        } else if same(name, "--pid-file") {
            Some(Keyword::PidFile)
        } else if same(name, "--dir") {
            Some(Keyword::Dir)
        } else if same(name, "--envdir") {
            Some(Keyword::Envdir)
        } else if same(name, "--status-file") {
            Some(Keyword::StatusFile)
        } else if same(name, "--interval") {
            Some(Keyword::Interval)
        } else if same(name, "--backlog") {
            Some(Keyword::Backlog)
        } else if same(name, "--auto-restart-interval") {
            Some(Keyword::AutoRestartInterval)
        } else if same(name, "--kill-old-delay") {
            Some(Keyword::KillOldDelay)
        } else if same(name, "--signal-on-hup") {
            Some(Keyword::SignalOnHup)
        } else if same(name, "--signal-on-term") {
            Some(Keyword::SignalOnTerm)
        } else {
            None
        }
    }
}

/// The option that is written `name`.
pub open spec fn keyword_of(name: Seq<char>) -> Option<Keyword> {
    if exists|k: Keyword| #[trigger] k.text() == name {
        Some(choose|k: Keyword| #[trigger] k.text() == name)
    } else {
        None
    }
}

/// No two options are written alike.
pub proof fn lemma_keywords_differ(a: Keyword, b: Keyword)
    requires
        a.text() == b.text(),
    ensures
        a == b,
{
    reveal_strlit("--help");
    reveal_strlit("--version");
    reveal_strlit("--restart");
    reveal_strlit("--stop");
    reveal_strlit("--enable-auto-restart");
    reveal_strlit("--daemonize");
    reveal_strlit("--port");
    reveal_strlit("--path");
    reveal_strlit("--log-file");
    reveal_strlit("--pid-file");
    reveal_strlit("--dir");
    reveal_strlit("--envdir");
    reveal_strlit("--status-file");
    reveal_strlit("--interval");
    reveal_strlit("--backlog");
    reveal_strlit("--auto-restart-interval");
    reveal_strlit("--kill-old-delay");
    reveal_strlit("--signal-on-hup");
    reveal_strlit("--signal-on-term");
    let s = a.text();
    let t = b.text();
    assert(s.len() == t.len());
    assert(s[2] == t[2]);
    assert(s[3] == t[3]);
    assert(s.len() > 4 ==> s[4] == t[4]);
    assert(s.len() > 12 ==> s[12] == t[12]);
}

/// Why a command line is refused.
pub enum Refusal {
    UnknownOption(Seq<char>),
    MissingValue(Keyword),
    NotAnInteger(Keyword),
    UnknownSignal(Seq<char>),
    RestartAndStop,
    NoProgram,
    NoSocket,
}

impl Refusal {
    /// The message for the user.
    pub open spec fn text(self) -> Seq<char> {
        match self {
            Refusal::UnknownOption(name) => "unknown option "@ + name,
            Refusal::MissingValue(k) => "option "@ + k.text() + " requires a value"@,
            Refusal::NotAnInteger(k) => k.text() + " must be an integer"@,
            Refusal::UnknownSignal(name) => "unknown signal "@ + quoted_text(name),
            Refusal::RestartAndStop => "--restart and --stop are mutually exclusive"@,
            Refusal::NoProgram => "no server program specified"@,
            Refusal::NoSocket => "must specify at least one of --port or --path"@,
        }
    }
}

/// The spelling of a signal that `nix` knows: in upper case, with the prefix `SIG`.
pub open spec fn signal_spelling(name: Seq<char>) -> Seq<char> {
    let capitals = upper(name);
    if "SIG"@.is_prefix_of(capitals) {
        capitals
    } else {
        "SIG"@ + capitals
    }
}

impl Refusal {
    /// Whether the refusal is due as far as signals go: a name that every system knows is never
    /// refused as unknown.
    pub open spec fn is_due(self) -> bool {
        self matches Refusal::UnknownSignal(name) ==> !portable_signal(signal_spelling(name))
    }
}

/// The options as far as the arguments have been read.
pub struct Scan {
    pub opts: OptionsView,
    pub restart: bool,
    pub stop: bool,
}

/// The scan before any argument is read.
pub open spec fn fresh_scan() -> Scan {
    Scan { opts: default_options(), restart: false, stop: false }
}

impl Scan {
    /// After the option `k`, which takes no value.
    pub open spec fn with_flag(self, k: Keyword) -> Scan {
        match k {
            Keyword::Help => Scan {
                opts: OptionsView { action: Action::Help, ..self.opts },
                ..self
            },
            Keyword::Version => Scan {
                opts: OptionsView { action: Action::Version, ..self.opts },
                ..self
            },
            Keyword::Restart => Scan { restart: true, ..self },
            Keyword::Stop => Scan { stop: true, ..self },
            Keyword::EnableAutoRestart => Scan {
                opts: OptionsView { enable_auto_restart: true, ..self.opts },
                ..self
            },
            Keyword::Daemonize => Scan {
                opts: OptionsView { daemonize: true, ..self.opts },
                ..self
            },
            _ => self,
        }
    }

    /// The options after the option `k` with the value `v`.
    pub open spec fn options_with(self, k: Keyword, v: Seq<char>) -> Result<OptionsView, Refusal> {
        let o = self.opts;
        match k {
            Keyword::Port => Ok(OptionsView { ports: o.ports.push(v), ..o }),
            Keyword::Path => Ok(OptionsView { paths: o.paths.push(v), ..o }),
            Keyword::LogFile => Ok(OptionsView { log_file: Some(v), ..o }),
            Keyword::PidFile => Ok(OptionsView { pid_file: Some(v), ..o }),
            Keyword::Dir => Ok(OptionsView { dir: Some(v), ..o }),
            Keyword::Envdir => Ok(OptionsView { envdir: Some(v), ..o }),
            Keyword::StatusFile => Ok(OptionsView { status_file: Some(v), ..o }),
            Keyword::Interval => match read_unsigned(v, u64::MAX as nat) {
                Some(n) => Ok(OptionsView { interval: n as u64, ..o }),
                None => Err(Refusal::NotAnInteger(k)),
            },
            Keyword::Backlog => match read_i32(v) {
                Some(n) => Ok(OptionsView { backlog: Some(n as i32), ..o }),
                None => Err(Refusal::NotAnInteger(k)),
            },
            Keyword::AutoRestartInterval => match read_unsigned(v, u64::MAX as nat) {
                Some(n) => Ok(OptionsView { auto_restart_interval: n as u64, ..o }),
                None => Err(Refusal::NotAnInteger(k)),
            },
            Keyword::KillOldDelay => match read_unsigned(v, u64::MAX as nat) {
                Some(n) => Ok(OptionsView { kill_old_delay: Some(n as u64), ..o }),
                None => Err(Refusal::NotAnInteger(k)),
            },
            Keyword::SignalOnHup => match signal_named(signal_spelling(v)) {
                Some(sig) => Ok(OptionsView { signal_on_hup: sig, ..o }),
                None => Err(Refusal::UnknownSignal(v)),
            },
            Keyword::SignalOnTerm => match signal_named(signal_spelling(v)) {
                Some(sig) => Ok(OptionsView { signal_on_term: sig, ..o }),
                None => Err(Refusal::UnknownSignal(v)),
            },
            _ => Ok(o),
        }
    }

    /// After the option `k` with the value `v`.
    pub open spec fn with_value(self, k: Keyword, v: Seq<char>) -> Result<Scan, Refusal> {
        match self.options_with(k, v) {
            Ok(opts) => Ok(Scan { opts, ..self }),
            Err(e) => Err(e),
        }
    }

    /// After the worker command.
    pub open spec fn with_command(self, command: Seq<Seq<char>>) -> Scan {
        Scan {
            opts: OptionsView { command: self.opts.command + command, ..self.opts },
            ..self
        }
    }

    /// The options that have been read, checked as a whole.
    pub open spec fn concluded(self) -> Result<OptionsView, Refusal> {
        let o = self.opts;
        if o.action != Action::Run {
            Ok(o)
        } else if self.restart && self.stop {
            Err(Refusal::RestartAndStop)
        } else if self.restart {
            Ok(OptionsView { action: Action::Restart, ..o })
        } else if self.stop {
            Ok(OptionsView { action: Action::Stop, ..o })
        } else if o.command.len() == 0 {
            Err(Refusal::NoProgram)
        } else if o.ports.len() == 0 && o.paths.len() == 0 {
            Err(Refusal::NoSocket)
        } else {
            Ok(o)
        }
    }
}

/// The name of an option argument, and the value that stands behind its first `=`.
pub open spec fn name_and_value(arg: Seq<char>) -> (Seq<char>, Option<Seq<char>>) {
    match cut_first(arg, '=') {
        Some((name, v)) => (name, Some(v)),
        None => (arg, None),
    }
}

/// Reads the arguments `args`, from left to right, on top of `st`. Options come first; `--`, or an
/// argument that does not start with `--`, begins the worker command.
pub open spec fn scanned(args: Seq<Seq<char>>, st: Scan) -> Result<Scan, Refusal>
    decreases args.len(),
{
    if args.len() == 0 {
        Ok(st)
    } else if args[0] == "--"@ {
        Ok(st.with_command(args.skip(1)))
    } else if !"--"@.is_prefix_of(args[0]) {
        Ok(st.with_command(args))
    } else {
        let (name, inlined) = name_and_value(args[0]);
        match keyword_of(name) {
            None => Err(Refusal::UnknownOption(name)),
            Some(k) => if k.is_flag() {
                scanned(args.skip(1), st.with_flag(k))
            } else if inlined is Some {
                match st.with_value(k, inlined->Some_0) {
                    Ok(next) => scanned(args.skip(1), next),
                    Err(e) => Err(e),
                }
            } else if args.len() == 1 {
                Err(Refusal::MissingValue(k))
            } else {
                match st.with_value(k, args[1]) {
                    Ok(next) => scanned(args.skip(2), next),
                    Err(e) => Err(e),
                }
            },
        }
    }
}

/// The options that a command line stands for.
pub open spec fn parsed(args: Seq<Seq<char>>) -> Result<OptionsView, Refusal> {
    match scanned(args, fresh_scan()) {
        Ok(st) => st.concluded(),
        Err(e) => Err(e),
    }
}

/// The signal that was found, or the refusal of a name whose quoted form is `quoted_name`.
pub fn known_signal(found: Option<Signal>, quoted_name: &str) -> (r: Result<Signal, String>)
    ensures
        match r {
            Ok(sig) => found == Some(sig),
            Err(m) => found is None && m@ == "unknown signal "@ + quoted_name@,
        },
{
    match found {
        Some(sig) => Ok(sig),
        None => Err(joined("unknown signal ", quoted_name)),
    }
}

/// Parses a signal name such as `TERM`, `SIGTERM`, `USR1` into a [`Signal`].
pub fn parse_signal(name: &str) -> (r: Result<Signal, String>)
    ensures
        match r {
            Ok(sig) => signal_named(signal_spelling(name@)) == Some(sig),
            Err(m) => signal_named(signal_spelling(name@)) is None && m@ == Refusal::UnknownSignal(
                name@,
            ).text(),
        },
        portable_signal(signal_spelling(name@)) ==> r is Ok,
        r is Ok ==> portable_signal(signal_spelling(name@)) || platform_signal(
            signal_spelling(name@),
        ),
{
    let capitals = uppercase(name);
    let spelling = if starts_with(capitals.as_str(), "SIG") {
        capitals
    } else {
        joined("SIG", capitals.as_str())
    };
    known_signal(signal_from_str(spelling.as_str()), quoted(name).as_str())
}

impl Default for Options {
    fn default() -> (r: Options)
        ensures
            r@ == default_options(),
            signal_named("SIGTERM"@) is Some,
    {
        let term = signal_from_str("SIGTERM").unwrap();
        let r = Options {
            action: Action::Run,
            ports: Vec::new(),
            paths: Vec::new(),
            interval: 1,
            log_file: None,
            pid_file: None,
            dir: None,
            signal_on_hup: term,
            signal_on_term: term,
            backlog: None,
            envdir: None,
            enable_auto_restart: false,
            daemonize: false,
            auto_restart_interval: 360,
            kill_old_delay: None,
            status_file: None,
            command: Vec::new(),
        };
        assert(texts(r.ports@) =~= Seq::<Seq<char>>::empty());
        assert(texts(r.paths@) =~= Seq::<Seq<char>>::empty());
        assert(texts(r.command@) =~= Seq::<Seq<char>>::empty());
        r
    }
}

impl Options {
    /// The effective delay, in seconds, before old workers are signalled on a graceful restart.
    /// Defaults to 5 seconds when auto-restart is enabled and 0 otherwise.
    pub fn effective_kill_old_delay(&self) -> (r: u64)
        ensures
            r == self@.kill_delay(),
    {
        self.kill_old_delay.unwrap_or(
            if self.enable_auto_restart {
                5
            } else {
                0
            },
        )
    }

    /// The listen backlog, where the system's own limit is `limit`.
    pub fn backlog_or(&self, limit: i32) -> (r: i32)
        ensures
            r == (match self.backlog {
                Some(n) => n,
                None => limit,
            }),
    {
        self.backlog.unwrap_or(limit)
    }

    /// The listen backlog, defaulting to `SOMAXCONN`, a positive number that the system decides.
    pub fn effective_backlog(&self) -> (r: i32)
        ensures
            self.backlog is Some ==> r == self.backlog->Some_0,
            self.backlog is None ==> r > 0,
    {
        self.backlog_or(somaxconn())
    }
}

/// The options as far as the arguments have been read.
struct Progress {
    opts: Options,
    restart: bool,
    stop: bool,
}

impl View for Progress {
    type V = Scan;

    closed spec fn view(&self) -> Scan {
        Scan { opts: self.opts@, restart: self.restart, stop: self.stop }
    }
}

proof fn lemma_texts_push(list: Seq<String>, s: String)
    ensures
        texts(list.push(s)) == texts(list).push(s@),
{
    assert(texts(list.push(s)) =~= texts(list).push(s@));
}

impl Progress {
    fn set_flag(&mut self, k: Keyword)
        requires
            k.is_flag(),
        ensures
            final(self)@ == old(self)@.with_flag(k),
    {
        match k {
            Keyword::Help => self.opts.action = Action::Help,
            Keyword::Version => self.opts.action = Action::Version,
            Keyword::Restart => self.restart = true,
            Keyword::Stop => self.stop = true,
            Keyword::EnableAutoRestart => self.opts.enable_auto_restart = true,
            _ => self.opts.daemonize = true,
        }
    }

    fn set_number(&mut self, k: Keyword, v: &str) -> (r: Result<(), String>)
        requires
            k is Interval || k is AutoRestartInterval || k is KillOldDelay,
        ensures
            match r {
                Ok(_) => old(self)@.with_value(k, v@) == Ok::<Scan, Refusal>(final(self)@),
                Err(m) => old(self)@.with_value(k, v@) matches Err(e) && m@ == e.text()
                    && e.is_due(),
            },
    {
        match parse_u64(v) {
            Some(n) => {
                match k {
                    Keyword::Interval => self.opts.interval = n,
                    Keyword::AutoRestartInterval => self.opts.auto_restart_interval = n,
                    _ => self.opts.kill_old_delay = Some(n),
                }
                Ok(())
            },
            None => Err(joined(k.name(), " must be an integer")),
        }
    }

    fn set_value(&mut self, k: Keyword, v: String) -> (r: Result<(), String>)
        requires
            !k.is_flag(),
        ensures
            match r {
                Ok(_) => old(self)@.with_value(k, v@) == Ok::<Scan, Refusal>(final(self)@),
                Err(m) => old(self)@.with_value(k, v@) matches Err(e) && m@ == e.text()
                    && e.is_due(),
            },
    {
        match k {
            Keyword::Port => {
                proof {
                    lemma_texts_push(self.opts.ports@, v);
                }
                self.opts.ports.push(v);
            },
            Keyword::Path => {
                proof {
                    lemma_texts_push(self.opts.paths@, v);
                }
                self.opts.paths.push(v);
            },
            Keyword::LogFile => self.opts.log_file = Some(v),
            Keyword::PidFile => self.opts.pid_file = Some(v),
            Keyword::Dir => self.opts.dir = Some(v),
            Keyword::Envdir => self.opts.envdir = Some(v),
            Keyword::StatusFile => self.opts.status_file = Some(v),
            Keyword::Backlog => match parse_i32(v.as_str()) {
                Some(n) => self.opts.backlog = Some(n),
                None => return Err(joined(k.name(), " must be an integer")),
            },
            Keyword::SignalOnHup => match parse_signal(v.as_str()) {
                Ok(sig) => self.opts.signal_on_hup = sig,
                Err(m) => return Err(m),
            },
            Keyword::SignalOnTerm => match parse_signal(v.as_str()) {
                Ok(sig) => self.opts.signal_on_term = sig,
                Err(m) => return Err(m),
            },
            _ => return self.set_number(k, v.as_str()),
        }
        Ok(())
    }

    /// Takes the arguments from index `from` on as the worker command.
    fn set_command(&mut self, args: &[String], from: usize)
        requires
            from <= args.len(),
        ensures
            final(self)@ == old(self)@.with_command(texts(args@).skip(from as int)),
    {
        let ghost start = self@;
        let mut i: usize = from;
        assert(texts(args@).subrange(from as int, i as int) =~= Seq::<Seq<char>>::empty());
        assert(self@.opts.command + Seq::<Seq<char>>::empty() =~= self@.opts.command);
        while i < args.len()
            invariant
                from <= i <= args.len(),
                self@ == start.with_command(texts(args@).subrange(from as int, i as int)),
            decreases args.len() - i,
        {
            proof {
                lemma_texts_push(self.opts.command@, args@[i as int]);
                assert(texts(args@).subrange(from as int, i + 1) =~= texts(args@).subrange(
                    from as int,
                    i as int,
                ).push(args@[i as int]@));
                assert(start.opts.command + texts(args@).subrange(from as int, i + 1)
                    =~= self@.opts.command.push(args@[i as int]@));
            }
            self.opts.command.push(args[i].clone());
            i = i + 1;
        }
        assert(texts(args@).subrange(from as int, i as int) =~= texts(args@).skip(from as int));
    }

    fn conclude(self) -> (r: Result<Options, String>)
        ensures
            match r {
                Ok(o) => self@.concluded() == Ok::<OptionsView, Refusal>(o@),
                Err(m) => self@.concluded() matches Err(e) && m@ == e.text() && e.is_due(),
            },
    {
        let mut opts = self.opts;
        if opts.action == Action::Run {
            if self.restart && self.stop {
                return Err(String::from_str("--restart and --stop are mutually exclusive"));
            }
            if self.restart {
                opts.action = Action::Restart;
            } else if self.stop {
                opts.action = Action::Stop;
            }
        }
        if opts.action == Action::Run {
            if opts.command.is_empty() {
                return Err(String::from_str("no server program specified"));
            }
            if opts.ports.is_empty() && opts.paths.is_empty() {
                return Err(String::from_str("must specify at least one of --port or --path"));
            }
        }
        Ok(opts)
    }
}

/// Reads the arguments from left to right.
fn scan(args: &[String]) -> (r: Result<Progress, String>)
    ensures
        match r {
            Ok(p) => scanned(texts(args@), fresh_scan()) == Ok::<Scan, Refusal>(p@),
            Err(m) => scanned(texts(args@), fresh_scan()) matches Err(e) && m@ == e.text()
                && e.is_due(),
        },
        signal_named("SIGTERM"@) is Some,
{
    let ghost all = texts(args@);
    let mut p = Progress { opts: Options::default(), restart: false, stop: false };
    let mut i: usize = 0;
    assert(all.skip(0) =~= all);
    while i < args.len()
        invariant
            i <= args.len(),
            all == texts(args@),
            scanned(all, fresh_scan()) == scanned(all.skip(i as int), p@),
            signal_named("SIGTERM"@) is Some,
        decreases args.len() - i,
    {
        let arg = args[i].as_str();
        proof {
            assert(all.skip(i as int)[0] == arg@);
            assert(all.skip(i as int).skip(1) =~= all.skip(i + 1));
            if i + 2 <= args.len() {
                assert(all.skip(i as int).skip(2) =~= all.skip(i + 2));
            }
        }
        if same(arg, "--") {
            p.set_command(args, i + 1);
            return Ok(p);
        }
        if !starts_with(arg, "--") {
            p.set_command(args, i);
            return Ok(p);
        }
        let (name, inlined) = match split_once(arg, '=') {
            Some((n, v)) => (n, Some(v)),
            None => (arg, None),
        };
        let k = match Keyword::named(name) {
            Some(k) => k,
            None => return Err(joined("unknown option ", name)),
        };
        i = i + 1;
        match k {
            Keyword::Help | Keyword::Version | Keyword::Restart | Keyword::Stop
            | Keyword::EnableAutoRestart | Keyword::Daemonize => p.set_flag(k),
            _ => {
                let v = match inlined {
                    Some(v) => String::from_str(v),
                    None => {
                        if i == args.len() {
                            return Err(
                                joined(joined("option ", k.name()).as_str(), " requires a value"),
                            );
                        }
                        assert(all.skip(i - 1)[1] == args@[i as int]@);
                        i = i + 1;
                        args[i - 1].clone()
                    },
                };
                match p.set_value(k, v) {
                    Ok(_) => {},
                    Err(m) => return Err(m),
                }
            },
        }
    }
    Ok(p)
}

/// Parses `start_server` command-line arguments (excluding the program name).
pub fn parse(args: &[String]) -> (r: Result<Options, String>)
    ensures
        match r {
            Ok(o) => parsed(texts(args@)) == Ok::<OptionsView, Refusal>(o@),
            Err(m) => parsed(texts(args@)) matches Err(e) && m@ == e.text() && e.is_due(),
        },
        signal_named("SIGTERM"@) is Some,
{
    match scan(args) {
        Ok(p) => p.conclude(),
        Err(m) => Err(m),
    }
}

/// Options that are accepted for a run name a worker command and at least one socket.
pub proof fn law_run_is_runnable(args: Seq<Seq<char>>)
    requires
        parsed(args) is Ok,
        parsed(args)->Ok_0.action == Action::Run,
    ensures
        parsed(args)->Ok_0.runnable(),
{
}

/// `--help` and `--version` win over `--restart` and `--stop`, and need neither a worker command
/// nor a socket.
pub proof fn law_help_and_version_win(args: Seq<Seq<char>>)
    requires
        scanned(args, fresh_scan()) is Ok,
        scanned(args, fresh_scan())->Ok_0.opts.action is Help || scanned(
            args,
            fresh_scan(),
        )->Ok_0.opts.action is Version,
    ensures
        parsed(args) == Ok::<OptionsView, Refusal>(scanned(args, fresh_scan())->Ok_0.opts),
{
}

/// Whether every argument is an option or the value of one.
pub open spec fn only_options(args: Seq<Seq<char>>) -> bool
    decreases args.len(),
{
    if args.len() == 0 {
        true
    } else if args[0] == "--"@ || !"--"@.is_prefix_of(args[0]) {
        false
    } else {
        let (name, inlined) = name_and_value(args[0]);
        match keyword_of(name) {
            None => false,
            Some(k) => if k.is_flag() || inlined is Some {
                only_options(args.skip(1))
            } else {
                args.len() > 1 && only_options(args.skip(2))
            },
        }
    }
}

/// Arguments are read from left to right: what follows some options is read on top of them.
pub proof fn law_arguments_compose(
    options: Seq<Seq<char>>,
    rest: Seq<Seq<char>>,
    st: Scan,
)
    requires
        only_options(options),
    ensures
        scanned(options + rest, st) == (match scanned(options, st) {
            Ok(next) => scanned(rest, next),
            Err(e) => Err(e),
        }),
        scanned(options, st) is Ok ==> scanned(options, st)->Ok_0.opts.command == st.opts.command,
    decreases options.len(),
{
    let all = options + rest;
    if options.len() == 0 {
        assert(all =~= rest);
    } else {
        assert(all[0] == options[0]);
        let (name, inlined) = name_and_value(options[0]);
        let k = keyword_of(name)->Some_0;
        assert(all.skip(1) =~= options.skip(1) + rest);
        if k.is_flag() {
            law_arguments_compose(options.skip(1), rest, st.with_flag(k));
        } else if inlined is Some {
            if let Ok(next) = st.with_value(k, inlined->Some_0) {
                law_arguments_compose(options.skip(1), rest, next);
            }
        } else {
            assert(all[1] == options[1]);
            assert(all.skip(2) =~= options.skip(2) + rest);
            if let Ok(next) = st.with_value(k, options[1]) {
                law_arguments_compose(options.skip(2), rest, next);
            }
        }
    }
}

/// What follows `--` is the worker command, verbatim.
pub proof fn law_command_after_double_dash(options: Seq<Seq<char>>, command: Seq<Seq<char>>)
    requires
        only_options(options),
        parsed(options + seq!["--"@] + command) is Ok,
    ensures
        parsed(options + seq!["--"@] + command)->Ok_0.command == command,
{
    let tail = seq!["--"@] + command;
    assert(options + seq!["--"@] + command =~= options + tail);
    law_arguments_compose(options, tail, fresh_scan());
    assert(tail.skip(1) =~= command);
    assert(Seq::<Seq<char>>::empty() + command =~= command);
}

/// The first argument that does not start with `--` begins the worker command, and all that
/// follows belongs to it.
pub proof fn law_command_from_first_bare_argument(
    options: Seq<Seq<char>>,
    command: Seq<Seq<char>>,
)
    requires
        only_options(options),
        command.len() > 0,
        !"--"@.is_prefix_of(command[0]),
        parsed(options + command) is Ok,
    ensures
        parsed(options + command)->Ok_0.command == command,
{
    law_arguments_compose(options, command, fresh_scan());
    reveal_strlit("--");
    assert("--"@.is_prefix_of("--"@));
    assert(Seq::<Seq<char>>::empty() + command =~= command);
}

proof fn lemma_keyword_shape(k: Keyword)
    ensures
        "--"@.is_prefix_of(k.text()),
        k.text().len() > 2,
        !k.text().contains('='),
        keyword_of(k.text()) == Some(k),
{
    reveal_strlit("--");
    reveal_strlit("--help");
    reveal_strlit("--version");
    reveal_strlit("--restart");
    reveal_strlit("--stop");
    reveal_strlit("--enable-auto-restart");
    reveal_strlit("--daemonize");
    reveal_strlit("--port");
    reveal_strlit("--path");
    reveal_strlit("--log-file");
    reveal_strlit("--pid-file");
    reveal_strlit("--dir");
    reveal_strlit("--envdir");
    reveal_strlit("--status-file");
    reveal_strlit("--interval");
    reveal_strlit("--backlog");
    reveal_strlit("--auto-restart-interval");
    reveal_strlit("--kill-old-delay");
    reveal_strlit("--signal-on-hup");
    reveal_strlit("--signal-on-term");
    assert("--"@ =~= k.text().take(2));
    lemma_keywords_differ(k, keyword_of(k.text())->Some_0);
}

/// `--name=value` and `--name value` mean the same.
pub proof fn law_inlined_value(k: Keyword, v: Seq<char>, rest: Seq<Seq<char>>, st: Scan)
    requires
        !k.is_flag(),
    ensures
        scanned(seq![k.text() + seq!['='] + v] + rest, st) == scanned(
            seq![k.text(), v] + rest,
            st,
        ),
{
    lemma_keyword_shape(k);
    reveal_strlit("--");
    let inlined = seq![k.text() + seq!['='] + v] + rest;
    let apart = seq![k.text(), v] + rest;
    lemma_cut_first_of_join(k.text(), '=', v);
    lemma_first_index(k.text(), '=');
    assert(name_and_value(k.text()) == (k.text(), None::<Seq<char>>));
    assert("--"@ =~= inlined[0].take(2)) by {
        assert("--"@[0] == k.text()[0] && "--"@[1] == k.text()[1]);
    }
    assert("--"@.is_prefix_of(inlined[0]));
    assert(inlined.skip(1) =~= rest);
    assert(apart.skip(2) =~= rest);
    assert(apart[0] == k.text());
    assert(apart[1] == v);
}

/// A signal may be named with or without its prefix `SIG`.
pub proof fn law_signal_prefix_is_optional(name: Seq<char>)
    requires
        !"SIG"@.is_prefix_of(upper(name)),
    ensures
        signal_spelling("SIG"@ + name) == signal_spelling(name),
{
    reveal_strlit("SIG");
    assert(upper("SIG"@ + name) =~= "SIG"@ + upper(name));
    assert("SIG"@.is_prefix_of("SIG"@ + upper(name)));
}

/// A signal may be named in upper or lower case.
pub proof fn law_signal_case_is_ignored(name: Seq<char>)
    ensures
        signal_spelling(upper(name)) == signal_spelling(name),
{
    assert(upper(upper(name)) =~= upper(name));
}

/// An option with a value sets what it is named after to that value and nothing else: ports and
/// paths are put behind those before, and of the others the last counts.
pub proof fn law_value_sets_its_option(st: Scan, k: Keyword, v: Seq<char>)
    requires
        !k.is_flag(),
        st.with_value(k, v) is Ok,
    ensures
        ({
            let o = st.opts;
            let n = st.with_value(k, v)->Ok_0.opts;
            &&& n.action == o.action
            &&& n.command == o.command
            &&& n.enable_auto_restart == o.enable_auto_restart
            &&& n.daemonize == o.daemonize
            &&& st.with_value(k, v)->Ok_0.restart == st.restart
            &&& st.with_value(k, v)->Ok_0.stop == st.stop
            &&& n.ports == if k is Port {
                o.ports.push(v)
            } else {
                o.ports
            }
            &&& n.paths == if k is Path {
                o.paths.push(v)
            } else {
                o.paths
            }
            &&& n.log_file == if k is LogFile {
                Some(v)
            } else {
                o.log_file
            }
            &&& n.pid_file == if k is PidFile {
                Some(v)
            } else {
                o.pid_file
            }
            &&& n.dir == if k is Dir {
                Some(v)
            } else {
                o.dir
            }
            &&& n.envdir == if k is Envdir {
                Some(v)
            } else {
                o.envdir
            }
            &&& n.status_file == if k is StatusFile {
                Some(v)
            } else {
                o.status_file
            }
            &&& k !is Interval ==> n.interval == o.interval
            &&& k !is Backlog ==> n.backlog == o.backlog
            &&& k !is AutoRestartInterval ==> n.auto_restart_interval == o.auto_restart_interval
            &&& k !is KillOldDelay ==> n.kill_old_delay == o.kill_old_delay
            &&& k !is SignalOnHup ==> n.signal_on_hup == o.signal_on_hup
            &&& k !is SignalOnTerm ==> n.signal_on_term == o.signal_on_term
        }),
{
}

/// An option that takes a number is set to the number that is written, and refuses one that does
/// not fit.
pub proof fn law_numbers_set_their_options(st: Scan, n: nat, m: i32)
    ensures
        n <= u64::MAX ==> {
            &&& st.with_value(Keyword::Interval, decimal(n)) matches Ok(i) && i.opts.interval == n
            &&& st.with_value(Keyword::AutoRestartInterval, decimal(n)) matches Ok(a)
                && a.opts.auto_restart_interval == n
            &&& st.with_value(Keyword::KillOldDelay, decimal(n)) matches Ok(d)
                && d.opts.kill_old_delay == Some(n as u64)
        },
        n > u64::MAX ==> {
            &&& st.with_value(Keyword::Interval, decimal(n)) == Err::<Scan, _>(
                Refusal::NotAnInteger(Keyword::Interval),
            )
            &&& st.with_value(Keyword::AutoRestartInterval, decimal(n)) == Err::<Scan, _>(
                Refusal::NotAnInteger(Keyword::AutoRestartInterval),
            )
            &&& st.with_value(Keyword::KillOldDelay, decimal(n)) == Err::<Scan, _>(
                Refusal::NotAnInteger(Keyword::KillOldDelay),
            )
        },
        st.with_value(Keyword::Backlog, int_text(m as int)) matches Ok(b) && b.opts.backlog
            == Some(m),
{
    law_numbers_are_read(0, n, u64::MAX as nat);
    assert(Seq::new(0, |j: int| '0') + decimal(n) =~= decimal(n));
    lemma_i32_round_trip(m);
}

/// An option that takes a number refuses what is none, and names itself in the refusal.
pub proof fn law_other_texts_are_refused(st: Scan, k: Keyword, v: Seq<char>, i: int)
    requires
        k is Interval || k is AutoRestartInterval || k is KillOldDelay || k is Backlog,
        v.len() == 0 || (0 < i < v.len() && !('0' <= v[i] <= '9')),
    ensures
        st.with_value(k, v) == Err::<Scan, _>(Refusal::NotAnInteger(k)),
{
    law_other_texts_are_no_numbers(v, i, u64::MAX as nat);
}

/// An option that takes a signal is set to the signal of that name, whether the name is written in
/// full or without its prefix, and refuses a name that there is not, as it was written.
pub proof fn law_signals_set_their_options(st: Scan, name: Seq<char>)
    requires
        upper(name) == name,
        !"SIG"@.is_prefix_of(name),
    ensures
        match signal_named("SIG"@ + name) {
            Some(signal) => {
                &&& st.with_value(Keyword::SignalOnHup, name) matches Ok(a) && a.opts.signal_on_hup
                    == signal
                &&& st.with_value(Keyword::SignalOnHup, "SIG"@ + name) matches Ok(b)
                    && b.opts.signal_on_hup == signal
                &&& st.with_value(Keyword::SignalOnTerm, name) matches Ok(c)
                    && c.opts.signal_on_term == signal
                &&& st.with_value(Keyword::SignalOnTerm, "SIG"@ + name) matches Ok(d)
                    && d.opts.signal_on_term == signal
            },
            None => {
                &&& st.with_value(Keyword::SignalOnHup, name) == Err::<Scan, _>(
                    Refusal::UnknownSignal(name),
                )
                &&& st.with_value(Keyword::SignalOnTerm, "SIG"@ + name) == Err::<Scan, _>(
                    Refusal::UnknownSignal("SIG"@ + name),
                )
            },
        },
{
    law_signal_prefix_is_optional(name);
}

/// An option without a value sets what it is named after and nothing else.
pub proof fn law_flag_sets_its_option(st: Scan, k: Keyword)
    requires
        k.is_flag(),
    ensures
        ({
            let n = st.with_flag(k);
            &&& n.restart == (st.restart || k is Restart)
            &&& n.stop == (st.stop || k is Stop)
            &&& n.opts.enable_auto_restart == (st.opts.enable_auto_restart
                || k is EnableAutoRestart)
            &&& n.opts.daemonize == (st.opts.daemonize || k is Daemonize)
            &&& n.opts.action == (if k is Help {
                Action::Help
            } else if k is Version {
                Action::Version
            } else {
                st.opts.action
            })
            &&& n.opts == (OptionsView {
                action: n.opts.action,
                enable_auto_restart: n.opts.enable_auto_restart,
                daemonize: n.opts.daemonize,
                ..st.opts
            })
        }),
{
}

proof fn lemma_keyword_argument(k: Keyword)
    ensures
        k.text() != "--"@,
        name_and_value(k.text()) == (k.text(), None::<Seq<char>>),
{
    lemma_keyword_shape(k);
    reveal_strlit("--");
    lemma_first_index(k.text(), '=');
}

/// An option and its value, or an option that takes none, are read and then what follows them. A
/// value that is missing is told of.
pub proof fn law_options_are_read(k: Keyword, v: Seq<char>, rest: Seq<Seq<char>>, st: Scan)
    ensures
        k.is_flag() ==> scanned(seq![k.text()] + rest, st) == scanned(rest, st.with_flag(k)),
        !k.is_flag() ==> scanned(seq![k.text(), v] + rest, st) == (match st.with_value(k, v) {
            Ok(next) => scanned(rest, next),
            Err(e) => Err(e),
        }),
        !k.is_flag() ==> scanned(seq![k.text()], st) == Err::<Scan, _>(Refusal::MissingValue(k)),
{
    lemma_keyword_shape(k);
    lemma_keyword_argument(k);
    let one = seq![k.text()] + rest;
    let two = seq![k.text(), v] + rest;
    assert(one[0] == k.text());
    assert(one.skip(1) =~= rest);
    assert(two[0] == k.text() && two[1] == v);
    assert(two.skip(2) =~= rest);
}

/// An argument that looks like an option and is none is refused, by its name.
pub proof fn law_unknown_option_is_refused(
    name: Seq<char>,
    v: Seq<char>,
    rest: Seq<Seq<char>>,
    st: Scan,
)
    requires
        "--"@.is_prefix_of(name),
        name != "--"@,
        !name.contains('='),
        forall|k: Keyword| #[trigger] k.text() != name,
    ensures
        scanned(seq![name] + rest, st) == Err::<Scan, _>(Refusal::UnknownOption(name)),
        scanned(seq![name + seq!['='] + v] + rest, st) == Err::<Scan, _>(
            Refusal::UnknownOption(name),
        ),
{
    reveal_strlit("--");
    let inlined = name + seq!['='] + v;
    lemma_first_index(name, '=');
    lemma_cut_first_of_join(name, '=', v);
    assert((seq![name] + rest)[0] == name);
    assert((seq![inlined] + rest)[0] == inlined);
    assert("--"@ =~= inlined.take(2)) by {
        assert(name.take(2) =~= "--"@);
        assert(inlined[0] == name.take(2)[0] && inlined[1] == name.take(2)[1]);
    }
    assert("--"@.is_prefix_of(inlined));
    assert(inlined.len() > 2);
}

/// What the user asked for: `--help` and `--version` before all else; one of `--restart` and
/// `--stop`, but not both; and otherwise a run, which needs a command and a socket. Nothing but the
/// action is decided so late.
pub proof fn law_action_is_what_was_asked_for(args: Seq<Seq<char>>)
    requires
        scanned(args, fresh_scan()) is Ok,
    ensures
        ({
            let st = scanned(args, fresh_scan())->Ok_0;
            let o = st.opts;
            let asked = o.action is Run;
            &&& asked && st.restart && st.stop ==> parsed(args) == Err::<OptionsView, _>(
                Refusal::RestartAndStop,
            )
            &&& asked && !st.restart && !st.stop && o.command.len() == 0 ==> parsed(args)
                == Err::<OptionsView, _>(Refusal::NoProgram)
            &&& asked && !st.restart && !st.stop && o.command.len() > 0 && o.ports.len() == 0
                && o.paths.len() == 0 ==> parsed(args) == Err::<OptionsView, _>(Refusal::NoSocket)
            &&& !asked || (st.restart != st.stop) || (!st.restart && !st.stop && o.command.len() > 0
                && o.ports.len() + o.paths.len() > 0) ==> parsed(args) is Ok
            &&& parsed(args) matches Ok(n) ==> n.action == (if !asked {
                o.action
            } else if st.restart {
                Action::Restart
            } else if st.stop {
                Action::Stop
            } else {
                Action::Run
            }) && n == (OptionsView { action: n.action, ..o })
        }),
{
}

/// The shortest command line: one port and a command give a run on that port with that command, and
/// every other option at its default.
pub proof fn law_shortest_command_line(port: Seq<char>, command: Seq<Seq<char>>)
    requires
        command.len() > 0,
    ensures
        parsed(seq!["--port"@, port, "--"@] + command) matches Ok(o) && o == (OptionsView {
            action: Action::Run,
            ports: seq![port],
            paths: Seq::empty(),
            interval: 1,
            log_file: None,
            pid_file: None,
            dir: None,
            signal_on_hup: signal_named("SIGTERM"@)->Some_0,
            signal_on_term: signal_named("SIGTERM"@)->Some_0,
            backlog: None,
            envdir: None,
            enable_auto_restart: false,
            daemonize: false,
            auto_restart_interval: 360,
            kill_old_delay: None,
            status_file: None,
            command,
        }),
{
    let tail = seq!["--"@] + command;
    let args = seq!["--port"@, port, "--"@] + command;
    law_options_are_read(Keyword::Port, port, tail, fresh_scan());
    assert(args =~= seq![Keyword::Port.text(), port] + tail);
    assert(tail[0] == "--"@);
    assert(tail.skip(1) =~= command);
    assert(Seq::<Seq<char>>::empty() + command =~= command);
    assert(Seq::<Seq<char>>::empty().push(port) =~= seq![port]);
}

/// Old workers are spared for the seconds of `--kill-old-delay`; where that is not given, for five
/// with auto-restart and not at all without.
pub proof fn law_kill_delay(o: OptionsView)
    ensures
        o.kill_old_delay matches Some(seconds) ==> o.kill_delay() == seconds,
        o.kill_old_delay is None && o.enable_auto_restart ==> o.kill_delay() == 5,
        o.kill_old_delay is None && !o.enable_auto_restart ==> o.kill_delay() == 0,
{
}

/// A refusal tells what is refused: the option, or the signal as it was written, in quotes.
pub proof fn law_refusals_tell_what_is_refused(name: Seq<char>, k: Keyword)
    ensures
        ends_with(Refusal::UnknownOption(name).text(), name),
        ends_with(Refusal::UnknownSignal(name).text(), quoted_text(name)),
        ends_with(Refusal::MissingValue(k).text(), k.text() + " requires a value"@),
        k.text().is_prefix_of(Refusal::NotAnInteger(k).text()),
{
    lemma_ends_with("unknown option "@, name);
    lemma_ends_with("unknown signal "@, quoted_text(name));
    lemma_ends_with("option "@, k.text() + " requires a value"@);
    assert("option "@ + k.text() + " requires a value"@ =~= "option "@ + (k.text()
        + " requires a value"@));
    assert(Refusal::NotAnInteger(k).text().take(k.text().len() as int) =~= k.text());
}

} // verus!
