//! The superdaemon's supervision of worker generations, as a machine: it says what has to be done
//! next, is told what came of it, and says what follows.
use crate::launch::{
    build_port_env, file_views, launch, launched, port_env, variables, EnvFile, Launch, LaunchView,
};
use crate::options::{Options, OptionsView};
use crate::order::{
    add_worker, entry_less, generation_of, increasing, lemma_listing_is, listing, lists, pid_less,
    pids_of, remove_worker,
};
use crate::port::{listener_views, Listener, ListenerView};
use crate::signals::{got_term, take_hup, SignalFlags};
use crate::status::{render_status, status_text};
use nix::sys::signal::Signal;
use std::collections::BTreeMap;
use vstd::prelude::*;

verus! {

/// What the superdaemon goes on with when a worker has come up.
#[derive(Debug, Clone, Copy, PartialEq, Eq, Structural)]
pub enum After {
    /// With waiting: this is the first worker.
    Loop,
    /// With a look at whether a restart is due: the worker replaces one that died. The field says
    /// whether a restart was asked for meanwhile.
    Check(bool),
    /// With the end of the workers that this one replaces.
    Retire,
}

/// What the superdaemon is doing.
#[derive(Debug, Clone, Copy, PartialEq, Eq, Structural)]
pub enum Phase {
    /// Starting a worker.
    Spawning(After),
    /// Pausing after a worker could not be started.
    Backoff(After),
    /// Giving the worker of that pid time to come up.
    Settling(i32, After),
    /// Seeing whether the worker of that pid has come up.
    Probing(i32, After),
    /// Waiting for something to happen.
    Idle,
    /// Collecting the children that have exited.
    Reaping,
    /// Looking at which signals have arrived.
    Looking,
    /// Looking at how long ago the last worker came up.
    Timing,
    /// Pausing before the old workers are signalled.
    Delaying,
    /// Waiting for the last workers to exit.
    Draining,
    /// Nothing is left to do.
    Stopped,
}

/// What has to be done next.
#[derive(Debug, Clone, Copy, PartialEq, Eq, Structural)]
pub enum Request {
    /// Start a worker, as [`Server::launch`] says.
    Spawn,
    /// Let that many seconds pass.
    Sleep(u64),
    /// See, without blocking, whether the child of that pid has exited.
    Probe(i32),
    /// Wait for a signal, at most that many milliseconds, or without limit if negative, and drain
    /// the wake-up pipe.
    Poll(i32),
    /// See, without blocking, whether any child has exited.
    Reap,
    /// Look at which signals have arrived.
    ReadSignals,
    /// Look at how many seconds have passed since the clock was last reset.
    ReadClock,
    /// Wait until any child exits.
    WaitChild,
    /// Exit with success.
    Exit,
}

/// What came of looking for a child that has exited.
#[derive(Debug, Clone, Copy, PartialEq, Eq, Structural)]
pub enum WaitOutcome {
    /// None has.
    StillAlive,
    /// That of the given pid has.
    Changed(i32),
    /// A signal came in between.
    Interrupted,
    /// It could not be seen; there may be no child.
    Failed,
}

/// What came of a request.
#[derive(Debug, Clone, Copy, PartialEq, Eq, Structural)]
pub enum Event {
    /// A worker of that pid was started.
    Spawned(i32),
    /// No worker could be started.
    SpawnFailed,
    /// The time has passed.
    Slept,
    /// Something happened, or the time has passed.
    Woken,
    Waited(WaitOutcome),
    Signals(SignalFlags),
    /// That many seconds have passed.
    Elapsed(u64),
}

/// Something to tell the user.
#[derive(Debug, Clone, Copy, PartialEq, Eq, Structural)]
pub enum Notice {
    /// The worker of that pid and generation has come up.
    Started(i32, u64),
    /// The command could not be executed.
    NotExecuted,
    /// The new worker of that pid has exited already.
    ExitedAtOnce(i32),
    /// The new worker of that pid has not come up.
    NotStarted(i32),
    /// The current worker, of that pid, has exited unasked.
    Died(i32),
    /// The old worker of that pid has exited.
    OldExited(i32),
    /// A restart is due by the clock.
    AutoRestart,
    /// A restart begins.
    Restarting,
    /// The old workers are being signalled.
    SignallingOld,
    /// The end begins.
    ShuttingDown,
    /// The end is there.
    Exiting,
}

/// Something to be done at once, of which nothing comes back.
#[derive(Debug)]
pub enum Effect {
    Log(Notice),
    /// Start counting the seconds anew.
    ResetClock,
    /// Make this the contents of the status file.
    WriteStatus(String),
    /// Send a signal to the process of that pid.
    Signal(i32, Signal),
    /// Remove the pid file.
    RemovePidFile,
}

/// What an [`Effect`] holds.
pub enum EffectView {
    Log(Notice),
    ResetClock,
    WriteStatus(Seq<char>),
    Signal(i32, Signal),
    RemovePidFile,
}

impl View for Effect {
    type V = EffectView;

    open spec fn view(&self) -> EffectView {
        match *self {
            Effect::Log(notice) => EffectView::Log(notice),
            Effect::ResetClock => EffectView::ResetClock,
            Effect::WriteStatus(body) => EffectView::WriteStatus(body@),
            Effect::Signal(pid, signal) => EffectView::Signal(pid, signal),
            Effect::RemovePidFile => EffectView::RemovePidFile,
        }
    }
}

/// What the effects of a list hold.
pub open spec fn effect_views(effects: Seq<Effect>) -> Seq<EffectView> {
    effects.map_values(|e: Effect| e@)
}

/// The state of the superdaemon.
#[verifier::ext_equal]
pub struct ServerView {
    pub opts: OptionsView,
    /// The value of `SERVER_STARTER_PORT` for the workers.
    pub port_env: Seq<char>,
    /// The generation of the worker that was last started or is being started.
    pub generation: u64,
    /// The pid of the worker that is up and not retired.
    pub current: Option<i32>,
    /// Retired workers awaiting exit: their pids, each with its generation.
    pub old: Map<i32, u64>,
    /// Whether the current worker died and must be replaced.
    pub died: bool,
    pub phase: Phase,
}

/// The signal `signal` to each of `pids`.
pub open spec fn signals_to(pids: Seq<i32>, signal: Signal) -> Seq<EffectView> {
    pids.map_values(|pid: i32| EffectView::Signal(pid, signal))
}

impl ServerView {
    pub open spec fn at(self, phase: Phase) -> ServerView {
        ServerView { phase, ..self }
    }

    /// The generations and pids of the workers that are up or retired.
    pub open spec fn workers(self) -> Set<(u64, i32)> {
        Set::new(
            |w: (u64, i32)|
                {
                    ||| self.current == Some(w.1) && self.generation == w.0
                    ||| self.old.contains_key(w.1) && self.old[w.1] == w.0
                },
        )
    }

    /// The contents of the status file: the workers by generation.
    pub open spec fn status_body(self) -> Seq<char> {
        status_text(listing(self.workers(), entry_less()))
    }

    /// The status file is written if there is one.
    pub open spec fn status_update(self) -> Seq<EffectView> {
        if self.opts.status_file is Some {
            seq![EffectView::WriteStatus(self.status_body())]
        } else {
            Seq::empty()
        }
    }

    /// The pids of the retired workers, in increasing order.
    pub open spec fn old_pids(self) -> Seq<i32> {
        listing(self.old.dom(), pid_less())
    }

    /// A new generation begins.
    pub open spec fn spawning(self, after: After) -> ServerView {
        ServerView {
            generation: (self.generation + 1) as u64,
            phase: Phase::Spawning(after),
            ..self
        }
    }

    /// The current worker is retired.
    pub open spec fn retired(self) -> ServerView {
        match self.current {
            Some(pid) => ServerView {
                current: None,
                old: self.old.insert(pid, self.generation),
                ..self
            },
            None => self,
        }
    }

    /// A graceful restart begins: the current worker is retired and a new one is started.
    pub open spec fn restarting(self) -> (ServerView, Seq<EffectView>) {
        (self.retired().spawning(After::Retire), seq![EffectView::Log(Notice::Restarting)])
    }

    /// A restart begins if one was asked for; else the clock decides, if it is to.
    pub open spec fn checked(self, restart: bool) -> (ServerView, Seq<EffectView>) {
        if restart {
            self.restarting()
        } else if self.opts.enable_auto_restart {
            (self.at(Phase::Timing), Seq::empty())
        } else {
            (self.at(Phase::Idle), Seq::empty())
        }
    }

    /// The retired workers are signalled, and the restart is over.
    pub open spec fn restarted(self) -> (ServerView, Seq<EffectView>) {
        (
            self.at(Phase::Idle),
            if self.old_pids().len() > 0 {
                seq![EffectView::Log(Notice::SignallingOld)] + signals_to(
                    self.old_pids(),
                    self.opts.signal_on_hup,
                )
            } else {
                Seq::empty()
            },
        )
    }

    /// A worker has come up, and what waited for it goes on.
    pub open spec fn resumed(self, after: After) -> (ServerView, Seq<EffectView>) {
        match after {
            After::Loop => (self.at(Phase::Idle), Seq::empty()),
            After::Check(restart) => self.checked(restart),
            After::Retire => if self.opts.kill_delay() > 0 {
                (self.at(Phase::Delaying), Seq::empty())
            } else {
                self.restarted()
            },
        }
    }

    /// The worker of the pid `pid` has come up.
    pub open spec fn came_up(self, pid: i32, after: After) -> (ServerView, Seq<EffectView>) {
        let up = ServerView { current: Some(pid), ..self };
        let (next, effects) = up.resumed(after);
        (
            next,
            seq![EffectView::ResetClock, EffectView::Log(Notice::Started(pid, self.generation))]
                + up.status_update() + effects,
        )
    }

    /// The child of the pid `pid` has exited. One that is no worker is ignored.
    pub open spec fn reaped(self, pid: i32) -> (ServerView, Seq<EffectView>) {
        if self.current == Some(pid) {
            (
                ServerView { current: None, died: true, ..self },
                seq![EffectView::Log(Notice::Died(pid))],
            )
        } else if self.old.contains_key(pid) {
            let next = ServerView { old: self.old.remove(pid), ..self };
            (next, seq![EffectView::Log(Notice::OldExited(pid))] + next.status_update())
        } else {
            (self, Seq::empty())
        }
    }

    /// Whether a restart is due when `elapsed` seconds have passed: the interval is over and no
    /// old worker is left, or twice the interval is over.
    pub open spec fn due(self, elapsed: u64) -> bool {
        let interval = self.opts.auto_restart_interval;
        let twice = if 2 * interval <= u64::MAX {
            2 * interval
        } else {
            u64::MAX as int
        };
        (elapsed >= interval && self.old.is_empty()) || elapsed >= twice
    }

    /// The last worker is gone.
    pub open spec fn finished(self) -> (ServerView, Seq<EffectView>) {
        (
            self.at(Phase::Stopped),
            self.status_update() + (if self.opts.pid_file is Some {
                seq![EffectView::RemovePidFile]
            } else {
                Seq::empty()
            }) + seq![EffectView::Log(Notice::Exiting)],
        )
    }

    /// The end goes on until no worker is left.
    pub open spec fn drained(self) -> (ServerView, Seq<EffectView>) {
        if self.old.is_empty() {
            self.finished()
        } else {
            (self.at(Phase::Draining), Seq::empty())
        }
    }

    /// The end begins: every worker is signalled.
    pub open spec fn shutting_down(self) -> (ServerView, Seq<EffectView>) {
        let all = self.retired();
        let (next, effects) = all.drained();
        (
            next,
            seq![EffectView::Log(Notice::ShuttingDown)] + signals_to(
                all.old_pids(),
                self.opts.signal_on_term,
            ) + effects,
        )
    }

    /// The signals that have arrived decide.
    pub open spec fn looked(self, flags: SignalFlags) -> (ServerView, Seq<EffectView>) {
        if flags.term {
            self.shutting_down()
        } else if self.died {
            (
                ServerView { died: false, ..self }.spawning(After::Check(flags.hup)),
                Seq::empty(),
            )
        } else {
            self.checked(flags.hup)
        }
    }

    /// What the superdaemon does when `event` has come, and what follows.
    pub open spec fn advanced(self, event: Event) -> (ServerView, Seq<EffectView>) {
        match (self.phase, event) {
            (Phase::Spawning(after), Event::Spawned(pid)) => (
                self.at(
                    if self.opts.interval > 0 {
                        Phase::Settling(pid, after)
                    } else {
                        Phase::Probing(pid, after)
                    },
                ),
                Seq::empty(),
            ),
            (Phase::Spawning(after), Event::SpawnFailed) => (
                self.at(Phase::Backoff(after)),
                seq![EffectView::Log(Notice::NotExecuted)],
            ),
            (Phase::Backoff(after), Event::Slept) => (self.spawning(after), Seq::empty()),
            (Phase::Settling(pid, after), Event::Slept) => (
                self.at(Phase::Probing(pid, after)),
                Seq::empty(),
            ),
            (Phase::Probing(pid, after), Event::Waited(outcome)) => match outcome {
                WaitOutcome::StillAlive => self.came_up(pid, after),
                WaitOutcome::Changed(_) => (
                    self.spawning(after),
                    seq![
                        EffectView::Log(Notice::ExitedAtOnce(pid)),
                        EffectView::Log(Notice::NotStarted(pid)),
                    ],
                ),
                _ => (self.spawning(after), seq![EffectView::Log(Notice::NotStarted(pid))]),
            },
            (Phase::Idle, Event::Woken) => (self.at(Phase::Reaping), Seq::empty()),
            (Phase::Reaping, Event::Waited(outcome)) => match outcome {
                WaitOutcome::Changed(pid) => self.reaped(pid),
                WaitOutcome::Interrupted => (self, Seq::empty()),
                _ => (self.at(Phase::Looking), Seq::empty()),
            },
            (Phase::Looking, Event::Signals(flags)) => self.looked(flags),
            (Phase::Timing, Event::Elapsed(elapsed)) => if self.due(elapsed) {
                let (next, effects) = self.restarting();
                (next, seq![EffectView::Log(Notice::AutoRestart)] + effects)
            } else {
                (self.at(Phase::Idle), Seq::empty())
            },
            (Phase::Delaying, Event::Slept) => self.restarted(),
            (Phase::Draining, Event::Waited(outcome)) => match outcome {
                WaitOutcome::Changed(pid) => ServerView {
                    old: self.old.remove(pid),
                    ..self
                }.drained(),
                WaitOutcome::Failed => self.finished(),
                _ => (self, Seq::empty()),
            },
            _ => (self, Seq::empty()),
        }
    }

    /// Whether `event` answers what has to be done next.
    pub open spec fn awaits(self, event: Event) -> bool {
        match self.phase {
            Phase::Spawning(_) => event is Spawned || event is SpawnFailed,
            Phase::Backoff(_) | Phase::Settling(..) | Phase::Delaying => event is Slept,
            Phase::Probing(..) | Phase::Reaping | Phase::Draining => event is Waited,
            Phase::Idle => event is Woken,
            Phase::Looking => event is Signals,
            Phase::Timing => event is Elapsed,
            Phase::Stopped => false,
        }
    }

    /// Whether a worker is started when `event` has come: one is tried again, a dead one is
    /// replaced, or a restart begins.
    pub open spec fn starts_worker(self, event: Event) -> bool {
        match (self.phase, event) {
            (Phase::Backoff(_), Event::Slept) => true,
            (Phase::Probing(_, after), Event::Waited(outcome)) => outcome !is StillAlive || after
                == After::Check(true),
            (Phase::Looking, Event::Signals(flags)) => !flags.term && (self.died || flags.hup),
            (Phase::Timing, Event::Elapsed(elapsed)) => self.due(elapsed),
            _ => false,
        }
    }

    /// Whether there is a generation left for the worker that `event` starts, if it starts one.
    pub open spec fn has_room(self, event: Event) -> bool {
        self.starts_worker(event) ==> self.generation < u64::MAX
    }

    /// What has to be done next.
    pub open spec fn request(self) -> Request {
        match self.phase {
            Phase::Spawning(_) => Request::Spawn,
            Phase::Backoff(_) => Request::Sleep(
                if self.opts.interval > 1 {
                    self.opts.interval
                } else {
                    1
                },
            ),
            Phase::Settling(..) => Request::Sleep(self.opts.interval),
            Phase::Probing(pid, _) => Request::Probe(pid),
            Phase::Idle => Request::Poll(
                if self.opts.enable_auto_restart {
                    1000
                } else {
                    (-1) as i32
                },
            ),
            Phase::Reaping => Request::Reap,
            Phase::Looking => Request::ReadSignals,
            Phase::Timing => Request::ReadClock,
            Phase::Delaying => Request::Sleep(self.opts.kill_delay()),
            Phase::Draining => Request::WaitChild,
            Phase::Stopped => Request::Exit,
        }
    }

    /// How the worker that is due is started, with the variables `extra` of `--envdir`.
    pub open spec fn launch_of(self, extra: Seq<(Seq<char>, Seq<char>)>) -> LaunchView {
        launched(self.opts, self.port_env, self.generation, extra)
    }

    /// Whether the state is one that the superdaemon can be in.
    ///
    /// There is a command, and at least one worker was started. No retired worker is of a later
    /// generation than the latest, and none is of the current worker's. Unless a worker is being
    /// started, or the current one was found dead a moment ago, or the end has begun, there is a
    /// current worker. A pause takes at least a second, and the clock is only looked at where it
    /// is to decide.
    pub open spec fn wf(self) -> bool {
        &&& self.opts.command.len() > 0
        &&& self.generation >= 1
        &&& self.old.dom().finite()
        &&& forall|pid: i32| #[trigger]
            self.old.contains_key(pid) ==> self.old[pid] <= self.generation
        &&& self.phase !is Draining && self.phase !is Stopped ==> forall|pid: i32| #[trigger]
            self.old.contains_key(pid) ==> self.old[pid] < self.generation
        &&& match self.phase {
            Phase::Spawning(_) | Phase::Backoff(_) | Phase::Probing(..) => self.current is None
                && !self.died,
            Phase::Settling(..) => self.current is None && !self.died && self.opts.interval > 0,
            Phase::Idle => self.current is Some && !self.died,
            Phase::Timing => self.current is Some && !self.died && self.opts.enable_auto_restart,
            Phase::Delaying => self.current is Some && !self.died && self.opts.kill_delay() > 0,
            Phase::Reaping | Phase::Looking => self.died == (self.current is None),
            Phase::Draining => self.current is None && !self.old.is_empty(),
            Phase::Stopped => self.current is None,
        }
    }
}

/// The superdaemon.
#[derive(Debug)]
pub struct Server {
    opts: Options,
    port_env: String,
    generation: u64,
    current: Option<i32>,
    /// Retired workers awaiting exit, keyed by pid, valued by their generation.
    old_workers: BTreeMap<i32, u64>,
    /// Set when the current worker was found dead and must be respawned.
    current_died: bool,
    phase: Phase,
}

impl View for Server {
    type V = ServerView;

    closed spec fn view(&self) -> ServerView {
        ServerView {
            opts: self.opts@,
            port_env: self.port_env@,
            generation: self.generation,
            current: self.current,
            old: self.old_workers@,
            died: self.current_died,
            phase: self.phase,
        }
    }
}

/// The superdaemon at its start: the first generation is about to be started.
pub open spec fn started(opts: OptionsView, listeners: Seq<ListenerView>) -> ServerView {
    ServerView {
        opts,
        port_env: port_env(listeners),
        generation: 1,
        current: None,
        old: Map::empty(),
        died: false,
        phase: Phase::Spawning(After::Loop),
    }
}

/// Starts the superdaemon on the bound sockets `listeners`.
pub fn start_server(opts: Options, listeners: &Vec<Listener>) -> (r: Server)
    requires
        opts.command@.len() > 0,
    ensures
        r@ == started(opts@, listener_views(listeners@)),
        r@.wf(),
{
    Server {
        opts,
        port_env: build_port_env(listeners),
        generation: 1,
        current: None,
        old_workers: BTreeMap::new(),
        current_died: false,
        phase: Phase::Spawning(After::Loop),
    }
}

proof fn lemma_effect_push(effects: Seq<Effect>, e: Effect)
    ensures
        effect_views(effects.push(e)) == effect_views(effects).push(e@),
{
    assert(effect_views(effects.push(e)) =~= effect_views(effects).push(e@));
}

fn note(effects: &mut Vec<Effect>, notice: Notice)
    ensures
        effect_views(final(effects)@) == effect_views(old(effects)@) + seq![
            EffectView::Log(notice),
        ],
{
    proof {
        lemma_effect_push(effects@, Effect::Log(notice));
    }
    effects.push(Effect::Log(notice));
    assert(effect_views(effects@) =~= effect_views(old(effects)@) + seq![EffectView::Log(notice)]);
}

fn signal_all(effects: &mut Vec<Effect>, pids: &Vec<i32>, signal: Signal)
    ensures
        effect_views(final(effects)@) == effect_views(old(effects)@) + signals_to(pids@, signal),
{
    let ghost before = effect_views(effects@);
    let mut i: usize = 0;
    assert(before =~= before + signals_to(pids@.take(0), signal));
    while i < pids.len()
        invariant
            i <= pids.len(),
            effect_views(effects@) == before + signals_to(pids@.take(i as int), signal),
        decreases pids.len() - i,
    {
        proof {
            lemma_effect_push(effects@, Effect::Signal(pids@[i as int], signal));
            assert(pids@.take(i + 1) =~= pids@.take(i as int).push(pids@[i as int]));
            assert(signals_to(pids@.take(i + 1), signal) =~= signals_to(
                pids@.take(i as int),
                signal,
            ).push(EffectView::Signal(pids@[i as int], signal)));
        }
        effects.push(Effect::Signal(pids[i], signal));
        assert(effect_views(effects@) =~= before + signals_to(pids@.take(i + 1), signal));
        i = i + 1;
    }
    assert(pids@.take(i as int) =~= pids@);
}

/// Puts `entry` at its place.
fn insert_entry(entries: &mut Vec<(u64, i32)>, entry: (u64, i32))
    requires
        increasing(old(entries)@, entry_less()),
        !old(entries)@.contains(entry),
    ensures
        increasing(final(entries)@, entry_less()),
        forall|e: (u64, i32)| #[trigger]
            final(entries)@.contains(e) <==> old(entries)@.contains(e) || e == entry,
{
    let ghost was = entries@;
    let mut i: usize = 0;
    while i < entries.len() && (entries[i].0 < entry.0 || (entries[i].0 == entry.0 && entries[i].1
        < entry.1))
        invariant
            i <= entries.len(),
            entries@ == was,
            forall|j: int| 0 <= j < i ==> entry_less()(#[trigger] was[j], entry),
        decreases entries.len() - i,
    {
        i = i + 1;
    }
    entries.insert(i, entry);
    proof {
        let now = entries@;
        let k = i as int;
        assert(now == was.insert(k, entry));
        assert forall|e: (u64, i32)| #[trigger] now.contains(e) <==> was.contains(e) || e
            == entry by {
            if now.contains(e) {
                let j = choose|j: int| 0 <= j < now.len() && now[j] == e;
                if j < k {
                    assert(was[j] == e);
                } else if j > k {
                    assert(was[j - 1] == e);
                }
            }
            if was.contains(e) {
                let j = choose|j: int| 0 <= j < was.len() && was[j] == e;
                if j < k {
                    assert(now[j] == e);
                } else {
                    assert(now[j + 1] == e);
                }
            }
            if e == entry {
                assert(now[k] == e);
            }
        }
        assert forall|j: int| k <= j < was.len() implies entry_less()(
            entry,
            #[trigger] was[j],
        ) by {
            assert(was.contains(was[k]));
            if k < j {
                assert(entry_less()(was[k], was[j]));
            }
        }
        assert forall|a: int, b: int| 0 <= a < b < now.len() implies entry_less()(
            #[trigger] now[a],
            #[trigger] now[b],
        ) by {
            let a0 = if a < k {
                a
            } else {
                a - 1
            };
            let b0 = if b < k {
                b
            } else {
                b - 1
            };
            if a == k {
                assert(now[b] == was[b0]);
            } else if b == k {
                assert(now[a] == was[a0]);
            } else {
                assert(now[a] == was[a0] && now[b] == was[b0]);
                assert(entry_less()(was[a0], was[b0]));
            }
        }
    }
}

impl Server {
    /// What has to be done next.
    pub fn request(&self) -> (r: Request)
        ensures
            r == self@.request(),
    {
        match self.phase {
            Phase::Spawning(_) => Request::Spawn,
            Phase::Backoff(_) => Request::Sleep(
                if self.opts.interval > 1 {
                    self.opts.interval
                } else {
                    1
                },
            ),
            Phase::Settling(..) => Request::Sleep(self.opts.interval),
            Phase::Probing(pid, _) => Request::Probe(pid),
            Phase::Idle => Request::Poll(
                if self.opts.enable_auto_restart {
                    1000
                } else {
                    -1
                },
            ),
            Phase::Reaping => Request::Reap,
            Phase::Looking => Request::ReadSignals,
            Phase::Timing => Request::ReadClock,
            Phase::Delaying => Request::Sleep(self.opts.effective_kill_old_delay()),
            Phase::Draining => Request::WaitChild,
            Phase::Stopped => Request::Exit,
        }
    }

    /// The options that the superdaemon runs with.
    pub fn options(&self) -> (r: &Options)
        ensures
            r@ == self@.opts,
    {
        &self.opts
    }

    /// The generation of the worker that was last started or is being started.
    pub fn generation(&self) -> (r: u64)
        ensures
            r == self@.generation,
    {
        self.generation
    }

    /// How the worker that is due is started, where `files` are those of the `--envdir` directory.
    pub fn launch(&self, files: &Vec<EnvFile>) -> (r: Launch)
        requires
            self@.wf(),
        ensures
            r@ == launched(
                self@.opts,
                self@.port_env,
                self@.generation,
                variables(file_views(files@)),
            ),
            r@ == self@.launch_of(variables(file_views(files@))),
    {
        launch(&self.opts, &self.port_env, self.generation, files)
    }

    /// The workers that are up or retired, by generation.
    pub fn status_entries(&self) -> (r: Vec<(u64, i32)>)
        requires
            self@.current is Some ==> forall|pid: i32| #[trigger]
                self@.old.contains_key(pid) ==> self@.old[pid] < self@.generation,
        ensures
            lists(r@, self@.workers(), entry_less()),
            r@ == listing(self@.workers(), entry_less()),
    {
        let mut entries: Vec<(u64, i32)> = Vec::new();
        if let Some(pid) = self.current {
            entries.push((self.generation, pid));
        }
        let ghost own = entries@;
        assert(self@.old == self.old_workers@);
        let pids = pids_of(&self.old_workers);
        let mut i: usize = 0;
        while i < pids.len()
            invariant
                i <= pids.len(),
                lists(pids@, self.old_workers@.dom(), pid_less()),
                own == (match self.current {
                    Some(pid) => seq![(self.generation, pid)],
                    None => Seq::empty(),
                }),
                self.current is Some ==> forall|pid: i32| #[trigger]
                    self.old_workers@.contains_key(pid) ==> self.old_workers@[pid]
                        < self.generation,
                increasing(entries@, entry_less()),
                forall|e: (u64, i32)| #[trigger]
                    entries@.contains(e) <==> own.contains(e) || (pids@.take(i as int).contains(e.1)
                        && self.old_workers@[e.1] == e.0),
            decreases pids.len() - i,
        {
            let pid = pids[i];
            proof {
                assert(pids@.contains(pid));
                assert(!pids@.take(i as int).contains(pid)) by {
                    if pids@.take(i as int).contains(pid) {
                        let j = choose|j: int| 0 <= j < i && pids@.take(i as int)[j] == pid;
                        assert(pid_less()(pids@[j], pids@[i as int]));
                    }
                }
                assert(pids@.take(i + 1) =~= pids@.take(i as int).push(pid));
            }
            let generation: u64 = generation_of(&self.old_workers, pid);
            insert_entry(&mut entries, (generation, pid));
            proof {
                let now = pids@.take(i + 1);
                assert forall|x: i32| #[trigger] now.contains(x) <==> pids@.take(i as int).contains(
                    x,
                ) || x == pid by {
                    assert(now[i as int] == pid);
                    if pids@.take(i as int).contains(x) {
                        let j = choose|j: int| 0 <= j < i && pids@.take(i as int)[j] == x;
                        assert(now[j] == x);
                    }
                }
            }
            i = i + 1;
        }
        proof {
            assert(pids@.take(i as int) =~= pids@);
            let workers = self@.workers();
            assert forall|e: (u64, i32)| #[trigger]
                entries@.contains(e) <==> workers.contains(e) by {
                if own.contains(e) {
                    assert(own[0] == e);
                }
                if self.current == Some(e.1) && self.generation == e.0 {
                    assert(own[0] == e);
                }
                assert(pids@.contains(e.1) <==> self.old_workers@.dom().contains(e.1));
            }
            lemma_listing_is(entries@, workers, entry_less());
        }
        entries
    }

    /// Writes the status file, if configured, listing each live generation.
    fn update_status(&self, effects: &mut Vec<Effect>)
        requires
            self@.current is Some ==> forall|pid: i32| #[trigger]
                self@.old.contains_key(pid) ==> self@.old[pid] < self@.generation,
        ensures
            effect_views(final(effects)@) == effect_views(old(effects)@) + self@.status_update(),
    {
        if self.opts.status_file.is_some() {
            let body = render_status(&self.status_entries());
            let effect = Effect::WriteStatus(body);
            proof {
                lemma_effect_push(effects@, effect);
            }
            effects.push(effect);
        }
        assert(effect_views(effects@) =~= effect_views(old(effects)@) + self@.status_update());
    }

    fn retire_current(&mut self)
        ensures
            final(self)@ == old(self)@.retired(),
    {
        if let Some(pid) = self.current {
            add_worker(&mut self.old_workers, pid, self.generation);
            self.current = None;
        }
    }

    /// Starts the next generation.
    fn spawn(&mut self, after: After)
        requires
            old(self)@.generation < u64::MAX,
        ensures
            final(self)@ == old(self)@.spawning(after),
    {
        self.generation = self.generation + 1;
        self.phase = Phase::Spawning(after);
    }

    /// Graceful restart: retires the current worker and starts a new one; the old worker(s) are
    /// signalled when it has come up.
    fn restart(&mut self, effects: &mut Vec<Effect>)
        requires
            old(self)@.generation < u64::MAX,
        ensures
            final(self)@ == old(self)@.restarting().0,
            effect_views(final(effects)@) == effect_views(old(effects)@)
                + old(self)@.restarting().1,
    {
        note(effects, Notice::Restarting);
        self.retire_current();
        self.spawn(After::Retire);
    }

    fn check(&mut self, restart: bool, effects: &mut Vec<Effect>)
        requires
            restart ==> old(self)@.generation < u64::MAX,
        ensures
            final(self)@ == old(self)@.checked(restart).0,
            effect_views(final(effects)@) == effect_views(old(effects)@) + old(self)@.checked(
                restart,
            ).1,
    {
        if restart {
            self.restart(effects);
        } else if self.opts.enable_auto_restart {
            self.phase = Phase::Timing;
        } else {
            self.phase = Phase::Idle;
        }
        assert(effect_views(effects@) =~= effect_views(old(effects)@) + old(self)@.checked(
            restart,
        ).1);
    }

    fn end_restart(&mut self, effects: &mut Vec<Effect>)
        ensures
            final(self)@ == old(self)@.restarted().0,
            effect_views(final(effects)@) == effect_views(old(effects)@) + old(
                self,
            )@.restarted().1,
    {
        let victims = pids_of(&self.old_workers);
        if victims.len() > 0 {
            note(effects, Notice::SignallingOld);
            signal_all(effects, &victims, self.opts.signal_on_hup);
        }
        self.phase = Phase::Idle;
        assert(effect_views(effects@) =~= effect_views(old(effects)@) + old(
            self,
        )@.restarted().1);
    }

    fn resume(&mut self, after: After, effects: &mut Vec<Effect>)
        requires
            after == After::Check(true) ==> old(self)@.generation < u64::MAX,
        ensures
            final(self)@ == old(self)@.resumed(after).0,
            effect_views(final(effects)@) == effect_views(old(effects)@) + old(self)@.resumed(
                after,
            ).1,
    {
        match after {
            After::Loop => {
                self.phase = Phase::Idle;
            },
            After::Check(restart) => {
                self.check(restart, effects);
            },
            After::Retire => {
                if self.opts.effective_kill_old_delay() > 0 {
                    self.phase = Phase::Delaying;
                } else {
                    self.end_restart(effects);
                }
            },
        }
        assert(effect_views(effects@) =~= effect_views(old(effects)@) + old(self)@.resumed(
            after,
        ).1);
    }

    fn worker_survived(&mut self, pid: i32, after: After, effects: &mut Vec<Effect>)
        requires
            old(self)@.wf(),
            old(self)@.phase is Probing,
            after == After::Check(true) ==> old(self)@.generation < u64::MAX,
        ensures
            final(self)@ == old(self)@.came_up(pid, after).0,
            effect_views(final(effects)@) == effect_views(old(effects)@) + old(self)@.came_up(
                pid,
                after,
            ).1,
    {
        self.current = Some(pid);
        proof {
            lemma_effect_push(effects@, Effect::ResetClock);
        }
        effects.push(Effect::ResetClock);
        note(effects, Notice::Started(pid, self.generation));
        self.update_status(effects);
        self.resume(after, effects);
        assert(effect_views(effects@) =~= effect_views(old(effects)@) + old(self)@.came_up(
            pid,
            after,
        ).1);
    }

    fn on_exit(&mut self, pid: i32, effects: &mut Vec<Effect>)
        requires
            old(self)@.wf(),
            old(self)@.phase is Reaping,
        ensures
            final(self)@ == old(self)@.reaped(pid).0,
            effect_views(final(effects)@) == effect_views(old(effects)@) + old(self)@.reaped(pid).1,
    {
        if self.current == Some(pid) {
            note(effects, Notice::Died(pid));
            self.current = None;
            self.current_died = true;
        } else if remove_worker(&mut self.old_workers, pid) {
            note(effects, Notice::OldExited(pid));
            assert forall|p: i32| #[trigger] self@.old.contains_key(p) implies self@.old[p]
                < self@.generation by {
                assert(old(self)@.old.contains_key(p));
            }
            self.update_status(effects);
        } else {
            // Unknown pids (e.g. a log-pipe helper) are ignored on purpose.
            assert(self@.old =~= old(self)@.old);
        }
        assert(effect_views(effects@) =~= effect_views(old(effects)@) + old(self)@.reaped(pid).1);
    }

    fn restart_is_due(&self, elapsed: u64) -> (r: bool)
        ensures
            r == self@.due(elapsed),
    {
        let interval: u64 = self.opts.auto_restart_interval;
        let twice: u64 = if interval <= u64::MAX / 2 {
            interval * 2
        } else {
            u64::MAX
        };
        (elapsed >= interval && self.old_workers.is_empty()) || elapsed >= twice
    }

    fn finish(&mut self, effects: &mut Vec<Effect>)
        requires
            old(self)@.current is None,
        ensures
            final(self)@ == old(self)@.finished().0,
            effect_views(final(effects)@) == effect_views(old(effects)@) + old(self)@.finished().1,
    {
        self.update_status(effects);
        if self.opts.pid_file.is_some() {
            proof {
                lemma_effect_push(effects@, Effect::RemovePidFile);
            }
            effects.push(Effect::RemovePidFile);
        }
        note(effects, Notice::Exiting);
        self.phase = Phase::Stopped;
        assert(effect_views(effects@) =~= effect_views(old(effects)@) + old(self)@.finished().1);
    }

    fn drain(&mut self, effects: &mut Vec<Effect>)
        requires
            old(self)@.current is None,
        ensures
            final(self)@ == old(self)@.drained().0,
            effect_views(final(effects)@) == effect_views(old(effects)@) + old(self)@.drained().1,
    {
        if self.old_workers.is_empty() {
            self.finish(effects);
        } else {
            self.phase = Phase::Draining;
        }
        assert(effect_views(effects@) =~= effect_views(old(effects)@) + old(self)@.drained().1);
    }

    /// Terminates all workers.
    fn shutdown(&mut self, effects: &mut Vec<Effect>)
        ensures
            final(self)@ == old(self)@.shutting_down().0,
            effect_views(final(effects)@) == effect_views(old(effects)@) + old(
                self,
            )@.shutting_down().1,
    {
        note(effects, Notice::ShuttingDown);
        self.retire_current();
        let pids = pids_of(&self.old_workers);
        signal_all(effects, &pids, self.opts.signal_on_term);
        self.drain(effects);
        assert(effect_views(effects@) =~= effect_views(old(effects)@) + old(
            self,
        )@.shutting_down().1);
    }

    fn look(&mut self, flags: SignalFlags, effects: &mut Vec<Effect>)
        requires
            old(self)@.phase is Looking,
            old(self)@.has_room(Event::Signals(flags)),
        ensures
            final(self)@ == old(self)@.looked(flags).0,
            effect_views(final(effects)@) == effect_views(old(effects)@) + old(self)@.looked(
                flags,
            ).1,
    {
        let mut pending = flags;
        if got_term(&pending) {
            self.shutdown(effects);
        } else {
            let restart = take_hup(&mut pending);
            if self.current_died {
                self.current_died = false;
                self.spawn(After::Check(restart));
            } else {
                self.check(restart, effects);
            }
        }
        assert(effect_views(effects@) =~= effect_views(old(effects)@) + old(self)@.looked(
            flags,
        ).1);
    }

    /// Whether a worker is started when `event` has come.
    pub fn starts_worker(&self, event: Event) -> (r: bool)
        ensures
            r == self@.starts_worker(event),
    {
        match (self.phase, event) {
            (Phase::Backoff(_), Event::Slept) => true,
            (Phase::Probing(_, after), Event::Waited(outcome)) => match outcome {
                WaitOutcome::StillAlive => after == After::Check(true),
                _ => true,
            },
            (Phase::Looking, Event::Signals(flags)) => !flags.term && (self.current_died
                || flags.hup),
            (Phase::Timing, Event::Elapsed(elapsed)) => self.restart_is_due(elapsed),
            _ => false,
        }
    }

    /// Goes on with what came of the request, and returns what has to be done at once, in this
    /// order.
    pub fn advance(&mut self, event: Event) -> (r: Vec<Effect>)
        requires
            old(self)@.wf(),
            old(self)@.awaits(event),
            old(self)@.has_room(event),
        ensures
            (final(self)@, effect_views(r@)) == old(self)@.advanced(event),
            final(self)@.wf(),
    {
        let mut effects: Vec<Effect> = Vec::new();
        assert(effect_views(effects@) =~= Seq::<EffectView>::empty());
        match (self.phase, event) {
            (Phase::Spawning(after), Event::Spawned(pid)) => {
                self.phase =
                if self.opts.interval > 0 {
                    Phase::Settling(pid, after)
                } else {
                    Phase::Probing(pid, after)
                };
            },
            (Phase::Spawning(after), Event::SpawnFailed) => {
                note(&mut effects, Notice::NotExecuted);
                self.phase = Phase::Backoff(after);
            },
            (Phase::Backoff(after), Event::Slept) => {
                self.spawn(after);
            },
            (Phase::Settling(pid, after), Event::Slept) => {
                self.phase = Phase::Probing(pid, after);
            },
            (Phase::Probing(pid, after), Event::Waited(outcome)) => {
                match outcome {
                    WaitOutcome::StillAlive => {
                        self.worker_survived(pid, after, &mut effects);
                    },
                    WaitOutcome::Changed(_) => {
                        note(&mut effects, Notice::ExitedAtOnce(pid));
                        note(&mut effects, Notice::NotStarted(pid));
                        self.spawn(after);
                    },
                    _ => {
                        // If it already vanished, treat it as failed to start.
                        note(&mut effects, Notice::NotStarted(pid));
                        self.spawn(after);
                    },
                }
            },
            (Phase::Idle, Event::Woken) => {
                self.phase = Phase::Reaping;
            },
            (Phase::Reaping, Event::Waited(outcome)) => {
                match outcome {
                    WaitOutcome::Changed(pid) => {
                        self.on_exit(pid, &mut effects);
                    },
                    WaitOutcome::Interrupted => {},
                    _ => {
                        self.phase = Phase::Looking;
                    },
                }
            },
            (Phase::Looking, Event::Signals(flags)) => {
                self.look(flags, &mut effects);
            },
            (Phase::Timing, Event::Elapsed(elapsed)) => {
                if self.restart_is_due(elapsed) {
                    note(&mut effects, Notice::AutoRestart);
                    self.restart(&mut effects);
                } else {
                    self.phase = Phase::Idle;
                }
            },
            (Phase::Delaying, Event::Slept) => {
                self.end_restart(&mut effects);
            },
            (Phase::Draining, Event::Waited(outcome)) => {
                match outcome {
                    WaitOutcome::Changed(pid) => {
                        let known = remove_worker(&mut self.old_workers, pid);
                        self.drain(&mut effects);
                    },
                    WaitOutcome::Failed => {
                        self.finish(&mut effects);
                    },
                    _ => {},
                }
            },
            _ => {},
        }
        assert(effect_views(effects@) =~= old(self)@.advanced(event).1);
        proof {
            lemma_wf_is_kept(old(self)@, event);
        }
        effects
    }
}

/// Whatever comes, the superdaemon stays in a state that it can be in.
pub proof fn lemma_wf_is_kept(s: ServerView, event: Event)
    requires
        s.wf(),
        s.awaits(event),
        s.has_room(event),
    ensures
        s.advanced(event).0.wf(),
{
}

} // verus!
