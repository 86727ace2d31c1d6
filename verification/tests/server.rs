use nix::sys::signal::Signal;
use server_starter::launch::EnvFile;
use server_starter::notices::{notice_text, notice_words, show_pids, signalled_pids};
use server_starter::port::Listener;
use server_starter::server::{Effect, Event, Notice, Request, Server, WaitOutcome};
use server_starter::setup::{
    already_locked, describe_status, log_target, setup_steps, Ending, LogTarget, SetupStep,
};
use server_starter::signals::{
    dispositions, got_term, handler, take_hup, Disposition, SignalFlags,
};
use server_starter::{start_server, Options};

const ALIVE: Event = Event::Waited(WaitOutcome::StillAlive);
const CALM: Event = Event::Signals(SignalFlags { hup: false, term: false });
const HUP: Event = Event::Signals(SignalFlags { hup: true, term: false });
const TERM: Event = Event::Signals(SignalFlags { hup: false, term: true });

fn gone(pid: i32) -> Event {
    Event::Waited(WaitOutcome::Changed(pid))
}

fn options() -> Options {
    let mut o = Options::default();
    o.command = vec!["prog".to_string(), "arg".to_string()];
    o.status_file = Some("/s".to_string());
    o.pid_file = Some("/p".to_string());
    o.signal_on_hup = Signal::SIGQUIT;
    o
}

fn begin(o: Options) -> Server {
    start_server(o, &vec![Listener { key: "0.0.0.0:80".to_string(), fd: 3 }])
}

/// The effects in short.
fn step(s: &mut Server, event: Event) -> Vec<String> {
    s.advance(event)
        .iter()
        .map(|e| match e {
            Effect::Log(n) => format!("{:?}", n),
            Effect::ResetClock => "clock".to_string(),
            Effect::WriteStatus(body) => format!("status {}", body.replace('\n', " ").trim_end()),
            Effect::Signal(pid, sig) => format!("{} {}", sig.as_str(), pid),
            Effect::RemovePidFile => "unlock".to_string(),
        })
        .collect()
}

/// A superdaemon whose first worker, of pid 100, has come up.
fn up(o: Options) -> Server {
    let mut s = begin(o);
    assert_eq!(s.request(), Request::Spawn);
    assert!(step(&mut s, Event::Spawned(100)).is_empty());
    if s.request() == Request::Sleep(s.options().interval) {
        assert!(step(&mut s, Event::Slept).is_empty());
    }
    assert_eq!(s.request(), Request::Probe(100));
    step(&mut s, ALIVE);
    s
}

/// Leads from waiting to the look at the signals.
fn wake(s: &mut Server) {
    step(s, Event::Woken);
    assert_eq!(s.request(), Request::Reap);
    step(s, ALIVE);
    assert_eq!(s.request(), Request::ReadSignals);
}

#[test]
fn first_worker() {
    let mut s = begin(options());
    assert_eq!(s.generation(), 1);
    step(&mut s, Event::Spawned(100));
    assert_eq!(s.request(), Request::Sleep(1));
    step(&mut s, Event::Slept);
    assert_eq!(s.request(), Request::Probe(100));
    assert_eq!(step(&mut s, ALIVE), vec!["clock", "Started(100, 1)", "status 1:100"]);
    assert_eq!(s.request(), Request::Poll(-1));
    assert_eq!(s.status_entries(), vec![(1, 100)]);
    wake(&mut s);
    assert!(step(&mut s, CALM).is_empty());
    assert_eq!(s.request(), Request::Poll(-1));
}

#[test]
fn failing_starts_are_retried() {
    let mut o = options();
    o.interval = 0;
    let mut s = begin(o);
    assert_eq!(step(&mut s, Event::SpawnFailed), vec!["NotExecuted"]);
    assert_eq!(s.request(), Request::Sleep(1));
    step(&mut s, Event::Slept);
    assert_eq!(s.request(), Request::Spawn);
    assert_eq!(s.generation(), 2);
    step(&mut s, Event::Spawned(7));
    assert_eq!(s.request(), Request::Probe(7));
    assert_eq!(step(&mut s, gone(7)), vec!["ExitedAtOnce(7)", "NotStarted(7)"]);
    assert_eq!(s.generation(), 3);
    step(&mut s, Event::Spawned(8));
    assert_eq!(step(&mut s, Event::Waited(WaitOutcome::Failed)), vec!["NotStarted(8)"]);
    step(&mut s, Event::Spawned(9));
    assert_eq!(step(&mut s, Event::Waited(WaitOutcome::Interrupted)), vec!["NotStarted(9)"]);
    step(&mut s, Event::Spawned(10));
    assert_eq!(step(&mut s, ALIVE), vec!["clock", "Started(10, 5)", "status 5:10"]);
}

#[test]
fn backoff_takes_the_interval() {
    let mut o = options();
    o.interval = 30;
    let mut s = begin(o);
    step(&mut s, Event::SpawnFailed);
    assert_eq!(s.request(), Request::Sleep(30));
}

#[test]
fn hot_deploy() {
    let mut s = up(options());
    wake(&mut s);
    assert_eq!(step(&mut s, HUP), vec!["Restarting"]);
    assert_eq!(s.request(), Request::Spawn);
    assert_eq!(s.generation(), 2);
    assert_eq!(s.status_entries(), vec![(1, 100)]);
    step(&mut s, Event::Spawned(50));
    step(&mut s, Event::Slept);
    // The old worker is signalled only now that the new one is up.
    assert_eq!(
        step(&mut s, ALIVE),
        vec!["clock", "Started(50, 2)", "status 1:100 2:50", "SignallingOld", "SIGQUIT 100"]
    );
    assert_eq!(s.request(), Request::Poll(-1));
    step(&mut s, Event::Woken);
    assert!(step(&mut s, gone(999)).is_empty());
    assert!(step(&mut s, Event::Waited(WaitOutcome::Interrupted)).is_empty());
    assert_eq!(step(&mut s, gone(100)), vec!["OldExited(100)", "status 2:50"]);
    assert!(step(&mut s, Event::Waited(WaitOutcome::Failed)).is_empty());
    assert_eq!(s.request(), Request::ReadSignals);
}

#[test]
fn old_workers_are_signalled_after_the_delay() {
    let mut o = options();
    o.kill_old_delay = Some(6);
    let mut s = up(o);
    for pid in [30, 20, 10] {
        wake(&mut s);
        step(&mut s, HUP);
        step(&mut s, Event::Spawned(pid));
        step(&mut s, Event::Slept);
        step(&mut s, ALIVE);
        assert_eq!(s.request(), Request::Sleep(6));
        if pid != 10 {
            step(&mut s, Event::Slept);
        }
    }
    assert_eq!(s.status_entries(), vec![(1, 100), (2, 30), (3, 20), (4, 10)]);
    assert_eq!(
        step(&mut s, Event::Slept),
        vec!["SignallingOld", "SIGQUIT 20", "SIGQUIT 30", "SIGQUIT 100"]
    );
}

#[test]
fn dead_worker_is_replaced() {
    let mut s = up(options());
    step(&mut s, Event::Woken);
    assert_eq!(step(&mut s, gone(100)), vec!["Died(100)"]);
    step(&mut s, ALIVE);
    assert!(step(&mut s, CALM).is_empty());
    assert_eq!(s.request(), Request::Spawn);
    assert_eq!(s.generation(), 2);
    step(&mut s, Event::Spawned(101));
    step(&mut s, Event::Slept);
    assert_eq!(step(&mut s, ALIVE), vec!["clock", "Started(101, 2)", "status 2:101"]);
    assert_eq!(s.request(), Request::Poll(-1));
}

#[test]
fn restart_follows_a_replacement() {
    let mut s = up(options());
    step(&mut s, Event::Woken);
    step(&mut s, gone(100));
    step(&mut s, ALIVE);
    step(&mut s, HUP);
    step(&mut s, Event::Spawned(101));
    step(&mut s, Event::Slept);
    assert_eq!(
        step(&mut s, ALIVE),
        vec!["clock", "Started(101, 2)", "status 2:101", "Restarting"]
    );
    assert_eq!(s.request(), Request::Spawn);
    assert_eq!(s.generation(), 3);
}

#[test]
fn shutdown() {
    let mut s = up(options());
    wake(&mut s);
    step(&mut s, HUP);
    step(&mut s, Event::Spawned(50));
    step(&mut s, Event::Slept);
    step(&mut s, ALIVE);
    wake(&mut s);
    assert_eq!(step(&mut s, TERM), vec!["ShuttingDown", "SIGTERM 50", "SIGTERM 100"]);
    assert_eq!(s.request(), Request::WaitChild);
    assert!(step(&mut s, Event::Waited(WaitOutcome::Interrupted)).is_empty());
    assert!(step(&mut s, ALIVE).is_empty());
    assert!(step(&mut s, gone(999)).is_empty());
    assert!(step(&mut s, gone(50)).is_empty());
    assert_eq!(s.request(), Request::WaitChild);
    assert_eq!(step(&mut s, gone(100)), vec!["status ", "unlock", "Exiting"]);
    assert_eq!(s.request(), Request::Exit);
}

#[test]
fn shutdown_without_workers_or_files() {
    let mut o = options();
    o.status_file = None;
    o.pid_file = None;
    let mut s = up(o);
    step(&mut s, Event::Woken);
    step(&mut s, gone(100));
    step(&mut s, ALIVE);
    assert_eq!(step(&mut s, TERM), vec!["ShuttingDown", "Exiting"]);
    assert_eq!(s.request(), Request::Exit);
}

#[test]
fn shutdown_gives_up_when_it_cannot_wait() {
    let mut s = up(options());
    wake(&mut s);
    step(&mut s, TERM);
    assert_eq!(
        step(&mut s, Event::Waited(WaitOutcome::Failed)),
        vec!["status 1:100", "unlock", "Exiting"]
    );
}

#[test]
fn restart_by_the_clock() {
    let mut o = options();
    o.enable_auto_restart = true;
    o.auto_restart_interval = 10;
    let mut s = up(o);
    assert_eq!(s.request(), Request::Poll(1000));
    wake(&mut s);
    step(&mut s, CALM);
    assert_eq!(s.request(), Request::ReadClock);
    assert!(step(&mut s, Event::Elapsed(9)).is_empty());
    assert_eq!(s.request(), Request::Poll(1000));
    wake(&mut s);
    step(&mut s, CALM);
    assert_eq!(step(&mut s, Event::Elapsed(10)), vec!["AutoRestart", "Restarting"]);
    step(&mut s, Event::Spawned(50));
    step(&mut s, Event::Slept);
    step(&mut s, ALIVE);
    assert_eq!(s.request(), Request::Sleep(5));
    step(&mut s, Event::Slept);
    // An old worker is left, so the clock waits for twice the interval.
    for (elapsed, restarts) in [(10, false), (19, false), (20, true)] {
        wake(&mut s);
        step(&mut s, CALM);
        assert_eq!(!step(&mut s, Event::Elapsed(elapsed)).is_empty(), restarts);
    }
}

#[test]
fn endless_interval() {
    let mut o = options();
    o.enable_auto_restart = true;
    o.auto_restart_interval = u64::MAX;
    let mut s = up(o);
    wake(&mut s);
    step(&mut s, CALM);
    assert!(step(&mut s, Event::Elapsed(u64::MAX - 1)).is_empty());
}

#[test]
fn worker_environment() {
    let mut o = options();
    o.dir = Some("/srv".to_string());
    let s = begin(o);
    let files = vec![EnvFile { name: "A".to_string(), contents: Some("1\n".to_string()) }];
    let launch = s.launch(&files);
    assert_eq!(launch.program, "prog");
    assert_eq!(launch.args, vec!["arg"]);
    assert_eq!(launch.dir.as_deref(), Some("/srv"));
    let vars: Vec<(&str, &str)> =
        launch.vars.iter().map(|v| (v.0.as_str(), v.1.as_str())).collect();
    assert_eq!(
        vars,
        vec![
            ("SERVER_STARTER_PORT", "0.0.0.0:80=3"),
            ("SERVER_STARTER_GENERATION", "1"),
            ("A", "1"),
        ]
    );
}

#[test]
fn setup_order() {
    let mut o = Options::default();
    assert_eq!(setup_steps(&o), vec![SetupStep::BindSockets, SetupStep::InstallSignals]);
    o.daemonize = true;
    o.log_file = Some("l".to_string());
    o.pid_file = Some("p".to_string());
    assert_eq!(
        setup_steps(&o),
        vec![
            SetupStep::BindSockets,
            SetupStep::Daemonize,
            SetupStep::RedirectOutput,
            SetupStep::LockPidFile,
            SetupStep::InstallSignals,
        ]
    );
}

#[test]
fn words_for_the_user() {
    assert_eq!(already_locked("/p"), "another start_server already holds \"/p\"");
    assert_eq!(describe_status(&Ending::Exited(3)), "exit status 3");
    assert_eq!(describe_status(&Ending::Signaled(Signal::SIGKILL)), "signal SIGKILL");
    assert_eq!(describe_status(&Ending::Other("odd".to_string())), "odd");
    assert_eq!(Notice::Died(3), Notice::Died(3));
}

#[test]
fn log_targets() {
    assert!(matches!(log_target("| cat"), LogTarget::Command(c) if c == " cat"));
    assert!(matches!(log_target("/l|x"), LogTarget::File(f) if f == "/l|x"));
    assert!(matches!(log_target(""), LogTarget::File(f) if f.is_empty()));
}

#[test]
fn signal_flags() {
    let mut flags = SignalFlags::new();
    handler(&mut flags, libc::SIGCHLD);
    assert_eq!(flags, SignalFlags { hup: false, term: false });
    handler(&mut flags, libc::SIGHUP);
    assert!(take_hup(&mut flags));
    assert!(!take_hup(&mut flags));
    assert!(!got_term(&flags));
    handler(&mut flags, libc::SIGINT);
    assert!(got_term(&flags));
    let mut flags = SignalFlags::new();
    handler(&mut flags, libc::SIGTERM);
    assert!(got_term(&flags) && !flags.hup);
}

#[test]
fn handled_signals() {
    let handled = Disposition::Handle;
    assert_eq!(
        dispositions(),
        vec![
            (Signal::SIGHUP, handled),
            (Signal::SIGTERM, handled),
            (Signal::SIGINT, handled),
            (Signal::SIGCHLD, handled),
            (Signal::SIGALRM, handled),
            (Signal::SIGPIPE, Disposition::Ignore),
        ]
    );
}

#[test]
fn zero_interval_restart_signals_every_old_worker() {
    let mut o = options();
    o.interval = 0;
    let mut s = up(o);
    for pid in [50, 75] {
        wake(&mut s);
        step(&mut s, HUP);
        step(&mut s, Event::Spawned(pid));
        if pid == 50 {
            step(&mut s, ALIVE);
        }
    }
    let effects = s.advance(ALIVE);
    assert_eq!(signalled_pids(&effects), vec![50, 100]);
}

#[test]
fn notices_in_words() {
    let mut o = options();
    o.interval = 4;
    let say = |n: Notice| notice_text(n, &o, "exit status 1", "ENOENT", &vec![50, 100]);
    assert_eq!(say(Notice::Started(7, 3)), "started new worker 7 (generation 3)");
    assert_eq!(say(Notice::NotExecuted), "failed to exec \"prog\": ENOENT; retrying in 4s");
    assert_eq!(say(Notice::ExitedAtOnce(7)), "new worker 7 exited immediately with exit status 1");
    assert_eq!(
        say(Notice::NotStarted(7)),
        "new worker 7 seems to have failed to start; restarting"
    );
    assert_eq!(say(Notice::Died(7)), "worker 7 died unexpectedly with exit status 1, restarting");
    assert_eq!(say(Notice::OldExited(7)), "old worker 7 is now dead (exit status 1)");
    assert_eq!(say(Notice::AutoRestart), "autorestart triggered");
    assert_eq!(say(Notice::Restarting), "received HUP, spawning a new worker");
    assert_eq!(
        say(Notice::SignallingOld),
        "sending SIGQUIT to old workers [Pid(50), Pid(100)]"
    );
    assert_eq!(say(Notice::ShuttingDown), "received TERM, shutting down");
    assert_eq!(say(Notice::Exiting), "exiting");
    assert_eq!(
        notice_words(Notice::SignallingOld, &o, "", "", "SIGX", &vec![1]),
        "sending SIGX to old workers [Pid(1)]"
    );
    let pids: Vec<nix::unistd::Pid> = vec![nix::unistd::Pid::from_raw(-3), nix::unistd::Pid::from_raw(9)];
    assert_eq!(show_pids(&vec![-3, 9]), format!("{:?}", pids));
    assert_eq!(show_pids(&vec![]), "[]");
}

#[test]
fn events_that_start_a_worker() {
    let mut s = up(options());
    assert!(!s.starts_worker(Event::Woken));
    wake(&mut s);
    assert!(s.starts_worker(HUP));
    assert!(!s.starts_worker(CALM));
    assert!(!s.starts_worker(TERM));
    step(&mut s, HUP);
    assert!(!s.starts_worker(Event::Spawned(50)));
    step(&mut s, Event::Spawned(50));
    step(&mut s, Event::Slept);
    assert!(!s.starts_worker(ALIVE));
    assert!(s.starts_worker(gone(50)));
    step(&mut s, ALIVE);
    wake(&mut s);
    assert_eq!(signalled_pids(&s.advance(TERM)), vec![50, 100]);
}
