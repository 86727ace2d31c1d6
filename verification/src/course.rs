//! What the superdaemon does when, as it is seen from outside: how long it waits and for what, what
//! each event makes of the workers, and what is told and written on the way.
use crate::guarantees::{
    after, allowed, distinct, law_every_run, law_status_lists_the_workers, lemma_contains_sum,
    lemma_old_pids, lemma_signals_reach,
};
use crate::launch::{
    advertised, law_every_listener_is_advertised, law_ports_are_read_back,
    law_worker_finds_its_sockets, law_worker_runs_the_command, lemma_port_value, value_of,
};
use crate::number::read_unsigned;
use crate::options::OptionsView;
use crate::order::{entry_less, pid_less};
use crate::port::ListenerView;
use crate::server::{
    lemma_wf_is_kept, signals_to, started, After, EffectView, Event, Notice, Phase, Request,
    ServerView, WaitOutcome,
};
use crate::signals::SignalFlags;
use crate::status::status_read;
use crate::worker::{ports_read, ErrorView};
use nix::sys::signal::Signal;
use vstd::prelude::*;

verus! {

/// A new worker is watched for exactly the seconds of `--interval` before it can count as up.
pub proof fn law_worker_is_watched_for_the_interval(s: ServerView)
    requires
        s.wf(),
        s.phase is Settling,
    ensures
        s.request() == Request::Sleep(s.opts.interval),
{
}

/// Whenever a worker has been started, the seconds of `--interval` pass, if there are any, then it
/// is seen whether that very worker is alive, and until then no worker is current.
pub proof fn law_started_worker_is_watched(s: ServerView, pid: i32)
    requires
        s.wf(),
        s.request() == Request::Spawn,
    ensures
        ({
            let watched = s.advanced(Event::Spawned(pid)).0;
            let probed = if s.opts.interval > 0 {
                watched.advanced(Event::Slept).0
            } else {
                watched
            };
            &&& s.awaits(Event::Spawned(pid))
            &&& s.advanced(Event::Spawned(pid)).1.len() == 0
            &&& s.opts.interval > 0 ==> {
                &&& watched.request() == Request::Sleep(s.opts.interval)
                &&& watched.awaits(Event::Slept)
                &&& watched.current is None
                &&& watched.advanced(Event::Slept).1.len() == 0
            }
            &&& probed.request() == Request::Probe(pid)
            &&& probed.current is None
            &&& probed.old == s.old
            &&& probed.generation == s.generation
        }),
{
}

/// When no worker could be started, the next try comes after `--interval` seconds, and after one
/// second where the interval is 0.
pub proof fn law_backoff_takes_the_interval(s: ServerView)
    requires
        s.wf(),
        s.request() == Request::Spawn,
    ensures
        ({
            let paused = s.advanced(Event::SpawnFailed).0;
            &&& s.awaits(Event::SpawnFailed)
            &&& paused.request() matches Request::Sleep(seconds) && seconds >= 1 && seconds
                >= s.opts.interval && (seconds == 1 || seconds == s.opts.interval)
            &&& paused.awaits(Event::Slept)
            &&& paused.advanced(Event::Slept).0.request() == Request::Spawn
            &&& paused.old == s.old
            &&& paused.current is None
        }),
{
}

/// After a restart the old workers are spared for the seconds of `--kill-old-delay`; where that is
/// not given, for five with auto-restart and not at all without.
pub proof fn law_old_workers_are_spared_for_the_delay(s: ServerView, pid: i32)
    requires
        s.wf(),
        s.phase == Phase::Probing(pid, After::Retire),
    ensures
        ({
            let delay = match s.opts.kill_old_delay {
                Some(seconds) => seconds as int,
                None => if s.opts.enable_auto_restart {
                    5int
                } else {
                    0int
                },
            };
            let next = s.advanced(Event::Waited(WaitOutcome::StillAlive)).0;
            &&& next.current == Some(pid)
            &&& delay > 0 ==> next.request() == Request::Sleep(delay as u64) && next.advanced(
                Event::Slept,
            ).0.request() is Poll
            &&& delay == 0 ==> next.request() is Poll
        }),
{
}

/// While old workers are spared, the pause is the whole `--kill-old-delay`.
pub proof fn law_delay_is_kept(s: ServerView)
    requires
        s.wf(),
        s.phase is Delaying,
    ensures
        s.request() == Request::Sleep(
            if s.opts.kill_old_delay is Some {
                s.opts.kill_old_delay->Some_0
            } else {
                5
            },
        ),
        s.opts.kill_old_delay is None ==> s.opts.enable_auto_restart,
{
}

/// With auto-restart the superdaemon wakes once a second to look at the clock; without, it sleeps
/// until something happens.
pub proof fn law_wakes_for_the_clock(s: ServerView)
    requires
        s.wf(),
        s.phase is Idle,
    ensures
        s.request() matches Request::Poll(timeout) && if s.opts.enable_auto_restart {
            timeout == 1000
        } else {
            timeout < 0
        },
{
}

/// The superdaemon exits in no other state than that after its end.
pub proof fn law_exit_is_the_end(s: ServerView)
    requires
        s.wf(),
    ensures
        s.request() == Request::Exit <==> s.phase is Stopped,
        s.request() == Request::WaitChild ==> s.current is None && !s.old.is_empty(),
        s.phase matches Phase::Probing(pid, _) ==> s.request() == Request::Probe(pid),
{
}

/// At its start the superdaemon has no worker and is about to start the first generation.
pub proof fn law_start(opts: OptionsView, list: Seq<ListenerView>)
    requires
        opts.command.len() > 0,
    ensures
        started(opts, list).wf(),
        started(opts, list).generation == 1,
        started(opts, list).request() == Request::Spawn,
        started(opts, list).current is None,
        started(opts, list).old.is_empty(),
        started(opts, list).opts == opts,
{
}

/// Every worker that the superdaemon ever starts, of whatever generation, runs the command of the
/// options, and reads from its
/// environment each socket that was bound, at its descriptor, and nothing else, and it reads its
/// own generation: as long as the addresses are distinct and hold no `;`, and no file of `--envdir`
/// takes the place of the two variables.
pub proof fn law_every_worker_is_handed_every_socket(
    opts: OptionsView,
    list: Seq<ListenerView>,
    events: Seq<Event>,
    extra: Seq<(Seq<char>, Seq<char>)>,
)
    requires
        opts.command.len() > 0,
        allowed(started(opts, list), events),
        forall|i: int| 0 <= i < list.len() ==> !(#[trigger] list[i]).key.contains(';'),
        forall|i: int, j: int|
            0 <= i < j < list.len() ==> (#[trigger] list[i]).key != (#[trigger] list[j]).key,
        forall|i: int|
            0 <= i < extra.len() ==> (#[trigger] extra[i]).0 != "SERVER_STARTER_PORT"@
                && extra[i].0 != "SERVER_STARTER_GENERATION"@,
    ensures
        ({
            let s = after(started(opts, list), events);
            let worker = s.launch_of(extra);
            let vars = worker.vars;
            &&& seq![worker.program] + worker.args == opts.command
            &&& worker.dir == opts.dir
            &&& ports_read(s.port_env) matches Ok(ports)
            &&& forall|i: int|
                0 <= i < list.len() ==> ports.contains_key((#[trigger] list[i]).key)
                    && ports[list[i].key] == list[i].fd
            &&& forall|address: Seq<char>| #[trigger]
                ports.contains_key(address) ==> exists|i: int|
                    0 <= i < list.len() && (#[trigger] list[i]).key == address
            &&& value_of(vars, "SERVER_STARTER_PORT"@) == Some(s.port_env)
            &&& value_of(vars, "SERVER_STARTER_GENERATION"@) matches Some(number)
            &&& read_unsigned(number, u64::MAX as nat) == Some(s.generation as nat)
        }),
{
    let first = started(opts, list);
    let s = after(first, events);
    law_start(opts, list);
    law_every_run(first, events);
    law_ports_are_read_back(list);
    law_every_listener_is_advertised(list);
    assert(ports_read(s.port_env) == Ok::<_, ErrorView>(advertised(list)));
    law_worker_finds_its_sockets(s.opts, list, s.generation, extra);
    lemma_port_value(s.opts, s.port_env, s.generation, extra);
    law_worker_runs_the_command(s.opts, s.port_env, s.generation, extra);
}

/// Whether `x` is neither a signal nor the writing of the status file.
spec fn plain(x: EffectView) -> bool {
    x !is Signal && x !is WriteStatus
}

proof fn lemma_plain_parts(s: ServerView, x: EffectView, pids: Seq<i32>, signal: Signal)
    requires
        plain(x),
    ensures
        !signals_to(pids, signal).contains(x),
        !s.status_update().contains(x),
{
    lemma_signals_reach(pids, signal, x);
}

proof fn lemma_plain_restarted(s: ServerView, x: EffectView)
    requires
        plain(x),
    ensures
        s.restarted().1.contains(x) <==> x == EffectView::Log(Notice::SignallingOld)
            && s.old_pids().len() > 0,
{
    let head = seq![EffectView::Log(Notice::SignallingOld)];
    let tail = signals_to(s.old_pids(), s.opts.signal_on_hup);
    lemma_plain_parts(s, x, s.old_pids(), s.opts.signal_on_hup);
    lemma_contains_sum(head, tail, x);
    assert(head[0] == EffectView::Log(Notice::SignallingOld));
    assert(head.contains(EffectView::Log(Notice::SignallingOld)));
    assert(head.contains(x) <==> x == head[0]);
}

proof fn lemma_plain_finished(s: ServerView, x: EffectView)
    requires
        plain(x),
    ensures
        s.finished().1.contains(x) <==> (x is RemovePidFile && s.opts.pid_file is Some) || x
            == EffectView::Log(Notice::Exiting),
{
    let lock = if s.opts.pid_file is Some {
        seq![EffectView::RemovePidFile]
    } else {
        Seq::empty()
    };
    let exit = seq![EffectView::Log(Notice::Exiting)];
    lemma_plain_parts(s, x, Seq::empty(), s.opts.signal_on_hup);
    lemma_contains_sum(s.status_update(), lock, x);
    lemma_contains_sum(s.status_update() + lock, exit, x);
    assert(exit[0] == EffectView::Log(Notice::Exiting));
    if s.opts.pid_file is Some {
        assert(lock[0] == EffectView::RemovePidFile);
    }
    assert(exit.contains(x) <==> x == exit[0]);
    assert(lock.contains(x) <==> x is RemovePidFile && s.opts.pid_file is Some);
}

proof fn lemma_plain_restarting(s: ServerView, x: EffectView)
    ensures
        s.restarting().1.contains(x) <==> x == EffectView::Log(Notice::Restarting),
{
    assert(s.restarting().1[0] == EffectView::Log(Notice::Restarting));
}

proof fn lemma_plain_resumed(s: ServerView, after: After, x: EffectView)
    requires
        plain(x),
    ensures
        s.resumed(after).1.contains(x) <==> {
            ||| after == After::Check(true) && x == EffectView::Log(Notice::Restarting)
            ||| after is Retire && s.opts.kill_delay() == 0 && s.old_pids().len() > 0 && x
                == EffectView::Log(Notice::SignallingOld)
        },
{
    lemma_plain_restarted(s, x);
    lemma_plain_restarting(s, x);
}

proof fn lemma_plain_came_up(s: ServerView, pid: i32, after: After, x: EffectView)
    requires
        plain(x),
    ensures
        s.came_up(pid, after).1.contains(x) <==> {
            ||| x is ResetClock
            ||| x == EffectView::Log(Notice::Started(pid, s.generation))
            ||| after == After::Check(true) && x == EffectView::Log(Notice::Restarting)
            ||| after is Retire && s.opts.kill_delay() == 0 && s.old_pids().len() > 0 && x
                == EffectView::Log(Notice::SignallingOld)
        },
{
    let up = ServerView { current: Some(pid), ..s };
    let head = seq![EffectView::ResetClock, EffectView::Log(Notice::Started(pid, s.generation))];
    lemma_plain_parts(up, x, Seq::empty(), s.opts.signal_on_hup);
    lemma_plain_resumed(up, after, x);
    lemma_contains_sum(head, up.status_update(), x);
    lemma_contains_sum(head + up.status_update(), up.resumed(after).1, x);
    assert(head[0] == EffectView::ResetClock);
    assert(head[1] == EffectView::Log(Notice::Started(pid, s.generation)));
    assert(head.contains(x) <==> x == head[0] || x == head[1]);
}

proof fn lemma_plain_shutdown(s: ServerView, x: EffectView)
    requires
        plain(x),
    ensures
        s.shutting_down().1.contains(x) <==> {
            ||| x == EffectView::Log(Notice::ShuttingDown)
            ||| s.retired().old.is_empty() && ((x is RemovePidFile && s.opts.pid_file is Some) || x
                == EffectView::Log(Notice::Exiting))
        },
{
    let all = s.retired();
    let head = seq![EffectView::Log(Notice::ShuttingDown)];
    let middle = signals_to(all.old_pids(), s.opts.signal_on_term);
    lemma_plain_parts(all, x, all.old_pids(), s.opts.signal_on_term);
    lemma_plain_finished(all, x);
    lemma_contains_sum(head, middle, x);
    lemma_contains_sum(head + middle, all.drained().1, x);
    assert(head[0] == EffectView::Log(Notice::ShuttingDown));
    assert(head.contains(x) <==> x == head[0]);
}

proof fn lemma_plain_reaped(s: ServerView, pid: i32, x: EffectView)
    requires
        plain(x),
    ensures
        s.reaped(pid).1.contains(x) <==> {
            ||| s.current == Some(pid) && x == EffectView::Log(Notice::Died(pid))
            ||| s.current != Some(pid) && s.old.contains_key(pid) && x == EffectView::Log(
                Notice::OldExited(pid),
            )
        },
{
    let died = seq![EffectView::Log(Notice::Died(pid))];
    let gone = seq![EffectView::Log(Notice::OldExited(pid))];
    let next = ServerView { old: s.old.remove(pid), ..s };
    lemma_plain_parts(next, x, Seq::empty(), s.opts.signal_on_hup);
    lemma_contains_sum(gone, next.status_update(), x);
    assert(died[0] == EffectView::Log(Notice::Died(pid)));
    assert(gone[0] == EffectView::Log(Notice::OldExited(pid)));
    assert(died.contains(x) <==> x == died[0]);
    assert(gone.contains(x) <==> x == gone[0]);
}

/// The clock is reset whenever a worker comes up, and at no other time: a restart by the clock is
/// due when the interval has passed since the last worker came up.
pub proof fn law_clock_starts_when_a_worker_is_up(s: ServerView, event: Event)
    requires
        s.wf(),
        s.awaits(event),
    ensures
        s.advanced(event).1.contains(EffectView::ResetClock) <==> s.phase is Probing && event
            == Event::Waited(WaitOutcome::StillAlive),
{
    let x = EffectView::ResetClock;
    lemma_plain_effects(s, event, x);
}

/// What the effects of `event` hold besides signals and the status file.
spec fn plain_effect(s: ServerView, event: Event, x: EffectView) -> bool {
    match (s.phase, event) {
        (Phase::Spawning(_), Event::SpawnFailed) => x == EffectView::Log(Notice::NotExecuted),
        (Phase::Probing(pid, after), Event::Waited(outcome)) => match outcome {
            WaitOutcome::StillAlive => {
                ||| x is ResetClock
                ||| x == EffectView::Log(Notice::Started(pid, s.generation))
                ||| after == After::Check(true) && x == EffectView::Log(Notice::Restarting)
                ||| after is Retire && s.opts.kill_delay() == 0 && s.old_pids().len() > 0 && x
                    == EffectView::Log(Notice::SignallingOld)
            },
            WaitOutcome::Changed(_) => x == EffectView::Log(Notice::ExitedAtOnce(pid)) || x
                == EffectView::Log(Notice::NotStarted(pid)),
            _ => x == EffectView::Log(Notice::NotStarted(pid)),
        },
        (Phase::Reaping, Event::Waited(WaitOutcome::Changed(pid))) => {
            ||| s.current == Some(pid) && x == EffectView::Log(Notice::Died(pid))
            ||| s.current != Some(pid) && s.old.contains_key(pid) && x == EffectView::Log(
                Notice::OldExited(pid),
            )
        },
        (Phase::Looking, Event::Signals(flags)) => if flags.term {
            ||| x == EffectView::Log(Notice::ShuttingDown)
            ||| s.retired().old.is_empty() && ((x is RemovePidFile && s.opts.pid_file is Some) || x
                == EffectView::Log(Notice::Exiting))
        } else {
            !s.died && flags.hup && x == EffectView::Log(Notice::Restarting)
        },
        (Phase::Timing, Event::Elapsed(elapsed)) => s.due(elapsed) && (x == EffectView::Log(
            Notice::AutoRestart,
        ) || x == EffectView::Log(Notice::Restarting)),
        (Phase::Delaying, Event::Slept) => s.old_pids().len() > 0 && x == EffectView::Log(
            Notice::SignallingOld,
        ),
        (Phase::Draining, Event::Waited(outcome)) => match outcome {
            WaitOutcome::Changed(pid) => s.old.remove(pid).is_empty() && ((x is RemovePidFile
                && s.opts.pid_file is Some) || x == EffectView::Log(Notice::Exiting)),
            WaitOutcome::Failed => (x is RemovePidFile && s.opts.pid_file is Some) || x
                == EffectView::Log(Notice::Exiting),
            _ => false,
        },
        _ => false,
    }
}

proof fn lemma_plain_effects(s: ServerView, event: Event, x: EffectView)
    requires
        s.wf(),
        s.awaits(event),
        plain(x),
    ensures
        s.advanced(event).1.contains(x) <==> plain_effect(s, event, x),
{
    match (s.phase, event) {
        (Phase::Spawning(_), Event::SpawnFailed) => {
            assert(s.advanced(event).1[0] == EffectView::Log(Notice::NotExecuted));
        },
        (Phase::Probing(pid, after), Event::Waited(outcome)) => {
            match outcome {
                WaitOutcome::StillAlive => {
                    lemma_plain_came_up(s, pid, after, x);
                },
                WaitOutcome::Changed(_) => {
                    let fx = s.advanced(event).1;
                    assert(fx[0] == EffectView::Log(Notice::ExitedAtOnce(pid)));
                    assert(fx[1] == EffectView::Log(Notice::NotStarted(pid)));
                },
                _ => {
                    assert(s.advanced(event).1[0] == EffectView::Log(Notice::NotStarted(pid)));
                },
            }
        },
        (Phase::Reaping, Event::Waited(WaitOutcome::Changed(pid))) => {
            lemma_plain_reaped(s, pid, x);
        },
        (Phase::Looking, Event::Signals(flags)) => {
            lemma_plain_shutdown(s, x);
            lemma_plain_restarting(s, x);
        },
        (Phase::Timing, Event::Elapsed(elapsed)) => {
            lemma_plain_restarting(s, x);
            let head = seq![EffectView::Log(Notice::AutoRestart)];
            lemma_contains_sum(head, s.restarting().1, x);
            assert(head[0] == EffectView::Log(Notice::AutoRestart));
            assert(head.contains(x) <==> x == head[0]);
        },
        (Phase::Delaying, Event::Slept) => {
            lemma_plain_restarted(s, x);
        },
        (Phase::Draining, Event::Waited(outcome)) => {
            match outcome {
                WaitOutcome::Changed(pid) => {
                    lemma_plain_finished(ServerView { old: s.old.remove(pid), ..s }, x);
                },
                _ => {
                    lemma_plain_finished(s, x);
                },
            }
        },
        _ => {},
    }
}

/// The pid file is removed when the superdaemon is at its end, if there is one, and at no other
/// time.
pub proof fn law_pid_file_is_removed_at_the_end(s: ServerView, event: Event)
    requires
        s.wf(),
        s.awaits(event),
    ensures
        s.advanced(event).1.contains(EffectView::RemovePidFile) <==> s.advanced(event).0.request()
            == Request::Exit && s.opts.pid_file is Some,
{
    lemma_plain_effects(s, event, EffectView::RemovePidFile);
}

/// The start of a worker is told exactly when it comes up, with its pid and generation, and then it
/// is current, or already retired by a restart that was asked for meanwhile.
pub proof fn law_start_is_told(s: ServerView, event: Event, pid: i32, generation: u64)
    requires
        s.wf(),
        s.awaits(event),
    ensures
        s.advanced(event).1.contains(EffectView::Log(Notice::Started(pid, generation))) <==> {
            &&& s.request() == Request::Probe(pid)
            &&& event == Event::Waited(WaitOutcome::StillAlive)
            &&& generation == s.generation
        },
        s.advanced(event).1.contains(EffectView::Log(Notice::Started(pid, generation))) ==> {
            ||| s.advanced(event).0.current == Some(pid)
            ||| s.advanced(event).0.old.contains_key(pid) && s.advanced(event).0.old[pid]
                == generation
        },
{
    lemma_plain_effects(s, event, EffectView::Log(Notice::Started(pid, generation)));
}

/// The death of the current worker and the exit of an old one are told, each exactly when it is
/// found.
pub proof fn law_exits_are_told(s: ServerView, event: Event, pid: i32)
    requires
        s.wf(),
        s.awaits(event),
    ensures
        s.advanced(event).1.contains(EffectView::Log(Notice::Died(pid))) <==> s.request()
            == Request::Reap && event == Event::Waited(WaitOutcome::Changed(pid)) && s.current
            == Some(pid),
        s.advanced(event).1.contains(EffectView::Log(Notice::OldExited(pid))) <==> s.request()
            == Request::Reap && event == Event::Waited(WaitOutcome::Changed(pid)) && s.current
            != Some(pid) && s.old.contains_key(pid),
{
    lemma_plain_effects(s, event, EffectView::Log(Notice::Died(pid)));
    lemma_plain_effects(s, event, EffectView::Log(Notice::OldExited(pid)));
}

/// A worker that cannot be executed or does not come up is told of, each exactly when it happens.
pub proof fn law_failed_starts_are_told(s: ServerView, event: Event, pid: i32)
    requires
        s.wf(),
        s.awaits(event),
    ensures
        s.advanced(event).1.contains(EffectView::Log(Notice::NotExecuted)) <==> event
            == Event::SpawnFailed,
        s.advanced(event).1.contains(EffectView::Log(Notice::NotStarted(pid))) <==> s.request()
            == Request::Probe(pid) && event != Event::Waited(WaitOutcome::StillAlive),
        s.advanced(event).1.contains(EffectView::Log(Notice::ExitedAtOnce(pid))) <==> s.request()
            == Request::Probe(pid) && (event matches Event::Waited(outcome) && outcome is Changed),
{
    lemma_plain_effects(s, event, EffectView::Log(Notice::NotExecuted));
    lemma_plain_effects(s, event, EffectView::Log(Notice::NotStarted(pid)));
    lemma_plain_effects(s, event, EffectView::Log(Notice::ExitedAtOnce(pid)));
}

/// The beginning and the end of the end are told, each exactly when it is there.
pub proof fn law_end_is_told(s: ServerView, event: Event)
    requires
        s.wf(),
        s.awaits(event),
    ensures
        s.advanced(event).1.contains(EffectView::Log(Notice::ShuttingDown))
            <==> (event matches Event::Signals(flags) && flags.term),
        s.advanced(event).1.contains(EffectView::Log(Notice::Exiting)) <==> s.advanced(
            event,
        ).0.request() == Request::Exit,
{
    lemma_plain_effects(s, event, EffectView::Log(Notice::ShuttingDown));
    lemma_plain_effects(s, event, EffectView::Log(Notice::Exiting));
}

/// A restart is told of exactly when it begins, and that the clock asked for it exactly when it
/// did.
pub proof fn law_restart_is_told(s: ServerView, event: Event)
    requires
        s.wf(),
        s.awaits(event),
        s.has_room(event),
    ensures
        s.advanced(event).1.contains(EffectView::Log(Notice::Restarting)) <==> s.advanced(
            event,
        ).0.phase == Phase::Spawning(After::Retire) && (s.current is Some || event
            == Event::Waited(WaitOutcome::StillAlive)),
        s.advanced(event).1.contains(EffectView::Log(Notice::AutoRestart)) <==> event is Elapsed
            && s.advanced(event).0.request() == Request::Spawn,
{
    lemma_plain_effects(s, event, EffectView::Log(Notice::Restarting));
    lemma_plain_effects(s, event, EffectView::Log(Notice::AutoRestart));
}

/// That old workers are being signalled is told exactly when one is, unless the end has begun.
pub proof fn law_signalling_is_told(s: ServerView, event: Event)
    requires
        s.wf(),
        s.awaits(event),
    ensures
        s.advanced(event).1.contains(EffectView::Log(Notice::SignallingOld)) <==> {
            &&& s.advanced(event).0.request() is Poll
            &&& !s.old.is_empty()
            &&& s.phase is Delaying || (s.phase matches Phase::Probing(_, goal) && goal is Retire)
        },
{
    lemma_plain_effects(s, event, EffectView::Log(Notice::SignallingOld));
    lemma_old_pids(s);
    if s.old_pids().len() > 0 {
        assert(s.old_pids().contains(s.old_pids()[0]));
        assert(s.old.dom().contains(s.old_pids()[0]));
    }
    if !s.old.is_empty() {
        let pid = s.old.dom().choose();
        assert(s.old_pids().contains(pid));
    }
}

/// The status file is never written where none is configured.
pub proof fn law_no_status_without_a_file(s: ServerView, event: Event, body: Seq<char>)
    requires
        s.wf(),
        s.awaits(event),
        s.opts.status_file is None,
    ensures
        !s.advanced(event).1.contains(EffectView::WriteStatus(body)),
{
    let x = EffectView::WriteStatus(body);
    let all = s.retired();
    lemma_signals_reach(s.old_pids(), s.opts.signal_on_hup, x);
    lemma_signals_reach(all.old_pids(), s.opts.signal_on_term, x);
    match (s.phase, event) {
        (Phase::Probing(pid, goal), Event::Waited(WaitOutcome::StillAlive)) => {
            let up = ServerView { current: Some(pid), ..s };
            let head = seq![
                EffectView::ResetClock,
                EffectView::Log(Notice::Started(pid, s.generation)),
            ];
            lemma_contains_sum(head, up.status_update(), x);
            lemma_contains_sum(head + up.status_update(), up.resumed(goal).1, x);
            lemma_contains_sum(
                seq![EffectView::Log(Notice::SignallingOld)],
                signals_to(up.old_pids(), s.opts.signal_on_hup),
                x,
            );
        },
        (Phase::Reaping, Event::Waited(WaitOutcome::Changed(pid))) => {
            let next = ServerView { old: s.old.remove(pid), ..s };
            lemma_contains_sum(
                seq![EffectView::Log(Notice::OldExited(pid))],
                next.status_update(),
                x,
            );
        },
        (Phase::Looking, Event::Signals(flags)) => {
            let head = seq![EffectView::Log(Notice::ShuttingDown)];
            let middle = signals_to(all.old_pids(), s.opts.signal_on_term);
            lemma_contains_sum(head, middle, x);
            lemma_contains_sum(head + middle, all.drained().1, x);
        },
        (Phase::Timing, Event::Elapsed(elapsed)) => {
            lemma_contains_sum(
                seq![EffectView::Log(Notice::AutoRestart)],
                s.restarting().1,
                x,
            );
        },
        (Phase::Delaying, Event::Slept) => {
            lemma_contains_sum(
                seq![EffectView::Log(Notice::SignallingOld)],
                signals_to(s.old_pids(), s.opts.signal_on_hup),
                x,
            );
        },
        _ => {},
    }
}

/// When something has happened, the children that have exited are collected, one after the other,
/// until none is left; then it is seen which signals have arrived. None of this starts, retires or
/// signals a worker.
pub proof fn law_children_are_collected(s: ServerView)
    requires
        s.wf(),
        s.request() is Poll,
    ensures
        ({
            let reaping = s.advanced(Event::Woken).0;
            let still = reaping.advanced(Event::Waited(WaitOutcome::StillAlive)).0;
            let failed = reaping.advanced(Event::Waited(WaitOutcome::Failed)).0;
            let interrupted = reaping.advanced(Event::Waited(WaitOutcome::Interrupted)).0;
            &&& reaping.request() == Request::Reap
            &&& reaping.workers() =~= s.workers()
            &&& still.request() == Request::ReadSignals && still.workers() =~= s.workers()
            &&& failed.request() == Request::ReadSignals && failed.workers() =~= s.workers()
            &&& interrupted == reaping
        }),
{
}

/// A child that has exited takes its worker away and no other; one that is no worker changes
/// nothing. The current worker's exit is remembered, so that it is replaced, and the collecting
/// goes on.
pub proof fn law_exit_takes_one_worker_away(s: ServerView, pid: i32)
    requires
        s.wf(),
        s.request() == Request::Reap,
        distinct(s),
    ensures
        ({
            let next = s.advanced(Event::Waited(WaitOutcome::Changed(pid))).0;
            &&& next.request() == Request::Reap
            &&& forall|w: (u64, i32)| #[trigger]
                next.workers().contains(w) <==> s.workers().contains(w) && w.1 != pid
            &&& s.current == Some(pid) ==> next.current is None && next.died
            &&& s.current != Some(pid) ==> next.current == s.current && next.died == s.died
            &&& next.generation == s.generation
        }),
{
}

/// The worker that comes up is added to the others, under the generation that it was started as.
pub proof fn law_worker_that_comes_up_is_added(s: ServerView, pid: i32)
    requires
        s.wf(),
        s.request() == Request::Probe(pid),
        distinct(s),
    ensures
        forall|w: (u64, i32)| #[trigger]
            s.advanced(Event::Waited(WaitOutcome::StillAlive)).0.workers().contains(w)
                <==> s.workers().contains(w) || w == (s.generation, pid),
{
}

/// `SIGHUP` makes the current worker an old one, under its generation, and starts the next.
pub proof fn law_hangup_begins_a_restart(s: ServerView, worker: i32)
    requires
        s.wf(),
        s.request() == Request::ReadSignals,
        s.current == Some(worker),
        s.generation < u64::MAX,
    ensures
        ({
            let next = s.advanced(Event::Signals(SignalFlags { hup: true, term: false })).0;
            &&& next.request() == Request::Spawn
            &&& next.generation == s.generation + 1
            &&& next.current is None
            &&& next.old == s.old.insert(worker, s.generation)
        }),
{
}

/// Where no signal has arrived and the current worker is alive, nothing is done: the clock is
/// looked at if auto-restart is on, and the superdaemon waits again if it is off.
pub proof fn law_nothing_is_done_unasked(s: ServerView)
    requires
        s.wf(),
        s.request() == Request::ReadSignals,
        s.current is Some,
    ensures
        ({
            let calm = Event::Signals(SignalFlags { hup: false, term: false });
            let next = s.advanced(calm).0;
            &&& s.advanced(calm).1.len() == 0
            &&& next.current == s.current
            &&& next.old == s.old
            &&& next.generation == s.generation
            &&& next.request() == Request::ReadClock <==> s.opts.enable_auto_restart
            &&& next.request() is Poll <==> !s.opts.enable_auto_restart
        }),
{
}

/// The clock begins a restart exactly where the interval is over and no old worker is left, or
/// twice the interval is over; otherwise the superdaemon waits again with the same workers.
pub proof fn law_clock_decides(s: ServerView, elapsed: u64)
    requires
        s.wf(),
        s.request() == Request::ReadClock,
        s.generation < u64::MAX,
    ensures
        ({
            let interval = s.opts.auto_restart_interval as int;
            let next = s.advanced(Event::Elapsed(elapsed)).0;
            let over = (elapsed >= interval && s.old.dom().is_empty()) || elapsed >= 2 * interval
                || (elapsed == u64::MAX && 2 * interval > u64::MAX);
            &&& over ==> next.request() == Request::Spawn && next.generation == s.generation + 1
                && next.current is None && next.old == s.old.insert(
                s.current->Some_0,
                s.generation,
            )
            &&& !over ==> next.request() is Poll && next.current == s.current && next.old == s.old
                && next.generation == s.generation && s.advanced(Event::Elapsed(elapsed)).1.len()
                == 0
        }),
{
    assert(s.old.is_empty() <==> s.old.dom().is_empty()) by {
        if s.old.dom().is_empty() {
            assert(s.old =~= Map::<i32, u64>::empty());
        }
    }
}

/// A terminating signal leaves no worker current, waits for those that there are, and ends at once
/// where there is none.
pub proof fn law_terminating_signal_waits_for_the_workers(s: ServerView, hup: bool)
    requires
        s.wf(),
        s.request() == Request::ReadSignals,
    ensures
        ({
            let next = s.advanced(Event::Signals(SignalFlags { hup, term: true })).0;
            &&& next.current is None
            &&& forall|pid: i32| #[trigger]
                next.old.contains_key(pid) <==> s.old.contains_key(pid) || s.current == Some(pid)
            &&& next.request() == Request::Exit <==> next.old.is_empty()
            &&& next.request() == Request::WaitChild <==> !next.old.is_empty()
        }),
{
}

/// At the end the superdaemon goes on waiting until every worker has exited, or until it cannot
/// wait any more.
pub proof fn law_end_waits_for_every_worker(s: ServerView, event: Event)
    requires
        s.wf(),
        s.request() == Request::WaitChild,
        s.awaits(event),
    ensures
        ({
            let next = s.advanced(event).0;
            &&& forall|pid: i32| #[trigger]
                next.old.contains_key(pid) <==> s.old.contains_key(pid) && event != Event::Waited(
                    WaitOutcome::Changed(pid),
                )
            &&& next.request() == Request::Exit <==> next.old.is_empty() || event
                == Event::Waited(WaitOutcome::Failed)
            &&& next.request() == Request::WaitChild <==> next.request() != Request::Exit
        }),
{
}

/// At the end the workers get the signal for that, and no other.
pub proof fn law_end_sends_its_own_signal(s: ServerView, event: Event, pid: i32, signal: Signal)
    requires
        s.wf(),
        s.awaits(event),
        s.advanced(event).0.request() == Request::Exit || s.advanced(event).0.request()
            == Request::WaitChild,
        s.advanced(event).1.contains(EffectView::Signal(pid, signal)),
    ensures
        signal == s.opts.signal_on_term,
        s.current == Some(pid) || s.old.contains_key(pid),
        event is Signals,
{
    let x = EffectView::Signal(pid, signal);
    let all = s.retired();
    lemma_old_pids(all);
    lemma_signals_reach(all.old_pids(), s.opts.signal_on_term, x);
    lemma_no_signal_at_the_end(s, pid, signal);
    lemma_no_signal_at_the_end(all, pid, signal);
    match event {
        Event::Signals(flags) => {
            let head = seq![EffectView::Log(Notice::ShuttingDown)];
            let middle = signals_to(all.old_pids(), s.opts.signal_on_term);
            lemma_contains_sum(head, middle, x);
            lemma_contains_sum(head + middle, all.drained().1, x);
            assert(!head.contains(x));
            assert(all.old_pids().contains(pid));
            assert(all.old.dom().contains(pid));
        },
        Event::Waited(WaitOutcome::Changed(gone)) => {
            lemma_no_signal_at_the_end(
                ServerView { old: s.old.remove(gone), ..s },
                pid,
                signal,
            );
        },
        _ => {},
    }
}

proof fn lemma_no_signal_at_the_end(s: ServerView, pid: i32, signal: Signal)
    ensures
        !s.drained().1.contains(EffectView::Signal(pid, signal)),
        !s.finished().1.contains(EffectView::Signal(pid, signal)),
{
    let x = EffectView::Signal(pid, signal);
    let lock = if s.opts.pid_file is Some {
        seq![EffectView::RemovePidFile]
    } else {
        Seq::empty()
    };
    let exit = seq![EffectView::Log(Notice::Exiting)];
    lemma_contains_sum(s.status_update(), lock, x);
    lemma_contains_sum(s.status_update() + lock, exit, x);
    assert(!s.status_update().contains(x));
    assert(!lock.contains(x));
    assert(!exit.contains(x));
}

/// Old workers are taken in increasing order of their pids, each once.
pub proof fn law_old_workers_are_taken_by_pid(s: ServerView)
    requires
        s.wf(),
    ensures
        forall|i: int, j: int|
            0 <= i < j < s.old_pids().len() ==> #[trigger] s.old_pids()[i]
                < #[trigger] s.old_pids()[j],
        forall|pid: i32| #[trigger] s.old_pids().contains(pid) <==> s.old.contains_key(pid),
{
    lemma_old_pids(s);
    assert forall|i: int, j: int| 0 <= i < j < s.old_pids().len() implies #[trigger] s.old_pids()[i]
        < #[trigger] s.old_pids()[j] by {
        assert(pid_less()(s.old_pids()[i], s.old_pids()[j]));
    }
    assert forall|pid: i32| #[trigger] s.old_pids().contains(pid) <==> s.old.contains_key(pid) by {
        assert(s.old_pids().contains(pid) <==> s.old.dom().contains(pid));
    }
}

/// Who reads the status file finds the current worker under the latest generation, every old worker
/// under its own, and nothing else, by generation and then by pid.
pub proof fn law_status_is_what_runs(s: ServerView)
    requires
        s.wf(),
    ensures
        ({
            let entries = status_read(Some(s.status_body()));
            &&& forall|generation: u64, pid: i32| #[trigger]
                entries.contains((generation, pid)) <==> {
                    ||| s.current == Some(pid) && generation == s.generation
                    ||| s.old.contains_key(pid) && generation == s.old[pid]
                }
            &&& forall|i: int, j: int|
                0 <= i < j < entries.len() ==> {
                    ||| (#[trigger] entries[i]).0 < (#[trigger] entries[j]).0
                    ||| entries[i].0 == entries[j].0 && entries[i].1 < entries[j].1
                }
        }),
{
    let entries = status_read(Some(s.status_body()));
    law_status_lists_the_workers(s);
    assert forall|generation: u64, pid: i32| #[trigger]
        entries.contains((generation, pid)) <==> {
            ||| s.current == Some(pid) && generation == s.generation
            ||| s.old.contains_key(pid) && generation == s.old[pid]
        } by {
        assert(entries.contains((generation, pid)) <==> s.workers().contains((generation, pid)));
    }
    assert forall|i: int, j: int| 0 <= i < j < entries.len() implies {
        ||| (#[trigger] entries[i]).0 < (#[trigger] entries[j]).0
        ||| entries[i].0 == entries[j].0 && entries[i].1 < entries[j].1
    } by {
        assert(entry_less()(entries[i], entries[j]));
    }
}

/// Every event other than a start keeps the generation, and a start raises it by one, so that no
/// two workers share one.
pub proof fn law_generations_are_not_shared(s: ServerView, event: Event)
    requires
        s.wf(),
        s.awaits(event),
        s.has_room(event),
    ensures
        s.advanced(event).0.request() == Request::Spawn ==> s.advanced(event).0.generation
            == s.generation + 1 && forall|pid: i32| #[trigger]
            s.advanced(event).0.old.contains_key(pid) ==> s.advanced(event).0.old[pid]
                < s.advanced(event).0.generation,
        s.advanced(event).0.request() != Request::Spawn ==> s.advanced(event).0.generation
            == s.generation,
{
    lemma_wf_is_kept(s, event);
}

proof fn lemma_bodies_of_sum(a: Seq<EffectView>, b: Seq<EffectView>, body: Seq<char>)
    ensures
        (a + b).contains(EffectView::WriteStatus(body)) <==> a.contains(
            EffectView::WriteStatus(body),
        ) || b.contains(EffectView::WriteStatus(body)),
{
    lemma_contains_sum(a, b, EffectView::WriteStatus(body));
}

proof fn lemma_body_of_update(s: ServerView, body: Seq<char>)
    ensures
        s.status_update().contains(EffectView::WriteStatus(body)) ==> body == s.status_body(),
{
}

proof fn lemma_body_of_finished(s: ServerView, body: Seq<char>)
    ensures
        s.finished().1.contains(EffectView::WriteStatus(body)) ==> body == s.status_body(),
{
    let lock = if s.opts.pid_file is Some {
        seq![EffectView::RemovePidFile]
    } else {
        Seq::empty()
    };
    lemma_body_of_update(s, body);
    lemma_bodies_of_sum(s.status_update(), lock, body);
    lemma_bodies_of_sum(
        s.status_update() + lock,
        seq![EffectView::Log(Notice::Exiting)],
        body,
    );
}

proof fn lemma_body_of_restarted(s: ServerView, body: Seq<char>)
    ensures
        !s.restarted().1.contains(EffectView::WriteStatus(body)),
{
    let x = EffectView::WriteStatus(body);
    lemma_signals_reach(s.old_pids(), s.opts.signal_on_hup, x);
    lemma_bodies_of_sum(
        seq![EffectView::Log(Notice::SignallingOld)],
        signals_to(s.old_pids(), s.opts.signal_on_hup),
        body,
    );
}

/// Whatever is written to the status file is the truth: it lists the workers as they are when the
/// event has been dealt with.
pub proof fn law_status_is_never_wrong(s: ServerView, event: Event, body: Seq<char>)
    requires
        s.wf(),
        s.awaits(event),
        s.has_room(event),
        distinct(s),
        s.advanced(event).1.contains(EffectView::WriteStatus(body)),
    ensures
        ({
            let next = s.advanced(event).0;
            forall|generation: u64, pid: i32| #[trigger]
                status_read(Some(body)).contains((generation, pid)) <==> {
                    ||| next.current == Some(pid) && generation == next.generation
                    ||| next.old.contains_key(pid) && generation == next.old[pid]
                }
        }),
{
    let x = EffectView::WriteStatus(body);
    let next = s.advanced(event).0;
    let all = s.retired();
    lemma_wf_is_kept(s, event);
    law_status_is_what_runs(next);
    match (s.phase, event) {
        (Phase::Probing(pid, goal), Event::Waited(WaitOutcome::StillAlive)) => {
            let up = ServerView { current: Some(pid), ..s };
            let head = seq![
                EffectView::ResetClock,
                EffectView::Log(Notice::Started(pid, s.generation)),
            ];
            lemma_body_of_update(up, body);
            lemma_body_of_restarted(up, body);
            lemma_bodies_of_sum(head, up.status_update(), body);
            lemma_bodies_of_sum(head + up.status_update(), up.resumed(goal).1, body);
            assert(up.workers() =~= next.workers());
            assert(body == next.status_body());
        },
        (Phase::Reaping, Event::Waited(WaitOutcome::Changed(pid))) => {
            lemma_body_of_update(next, body);
            lemma_bodies_of_sum(
                seq![EffectView::Log(Notice::OldExited(pid))],
                next.status_update(),
                body,
            );
            assert(body == next.status_body());
        },
        (Phase::Looking, Event::Signals(flags)) => {
            let head = seq![EffectView::Log(Notice::ShuttingDown)];
            let middle = signals_to(all.old_pids(), s.opts.signal_on_term);
            lemma_signals_reach(all.old_pids(), s.opts.signal_on_term, x);
            lemma_body_of_finished(all, body);
            lemma_bodies_of_sum(head, middle, body);
            lemma_bodies_of_sum(head + middle, all.drained().1, body);
            assert(flags.term);
            assert(all.workers() =~= next.workers());
            assert(body == next.status_body());
        },
        (Phase::Timing, Event::Elapsed(elapsed)) => {
            lemma_bodies_of_sum(
                seq![EffectView::Log(Notice::AutoRestart)],
                s.restarting().1,
                body,
            );
            assert(false);
        },
        (Phase::Delaying, Event::Slept) => {
            lemma_body_of_restarted(s, body);
            assert(false);
        },
        (Phase::Draining, Event::Waited(outcome)) => {
            let left = match outcome {
                WaitOutcome::Changed(pid) => ServerView { old: s.old.remove(pid), ..s },
                _ => s,
            };
            lemma_body_of_finished(left, body);
            assert(left.workers() =~= next.workers());
            assert(body == next.status_body());
        },
        _ => {
            assert(false);
        },
    }
}

/// After the first worker the superdaemon waits. After a replacement it waits too, or looks at the
/// clock if auto-restart is on, unless a restart was asked for meanwhile, which then begins.
pub proof fn law_what_follows_a_start(s: ServerView, pid: i32, goal: After)
    requires
        s.wf(),
        s.phase == Phase::Probing(pid, goal),
        goal !is Retire,
    ensures
        ({
            let next = s.advanced(Event::Waited(WaitOutcome::StillAlive)).0;
            &&& goal is Loop ==> next.request() is Poll
            &&& goal == After::Check(false) ==> next.request() == if s.opts.enable_auto_restart {
                Request::ReadClock
            } else {
                Request::Poll((-1) as i32)
            }
            &&& goal == After::Check(true) ==> next.request() == Request::Spawn
            &&& goal != After::Check(true) ==> next.current == Some(pid) && next.old == s.old
        }),
{
}

/// A dead worker is replaced, and a restart that was asked for in the same moment is kept for when
/// the replacement is up.
pub proof fn law_restart_waits_for_the_replacement(s: ServerView, hup: bool, pid: i32)
    requires
        s.wf(),
        s.request() == Request::ReadSignals,
        s.current is None,
        s.generation < u64::MAX - 1,
    ensures
        ({
            let spawning = s.advanced(Event::Signals(SignalFlags { hup, term: false })).0;
            let started = spawning.advanced(Event::Spawned(pid)).0;
            let probed = if s.opts.interval > 0 {
                started.advanced(Event::Slept).0
            } else {
                started
            };
            let next = probed.advanced(Event::Waited(WaitOutcome::StillAlive)).0;
            &&& spawning.request() == Request::Spawn
            &&& spawning.generation == s.generation + 1
            &&& hup ==> next.request() == Request::Spawn && next.generation == s.generation + 2
                && next.old.contains_key(pid)
            &&& !hup ==> next.request() != Request::Spawn && next.current == Some(pid)
        }),
{
}

} // verus!
