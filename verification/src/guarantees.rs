//! What holds of every run of the superdaemon, whatever happens around it.
use crate::control::completed;
use crate::notices::pids_signalled;
use crate::options::OptionsView;
use crate::order::{entry_less, lemma_listing_exists, listing, lists, pid_less, total_order};
use crate::server::{
    lemma_wf_is_kept, signals_to, After, EffectView, Event, Notice, Phase, Request, ServerView,
    WaitOutcome,
};
use crate::signals::SignalFlags;
use crate::status::{law_status_is_read_back, status_read};
use nix::sys::signal::Signal;
use vstd::prelude::*;

verus! {

/// A worker is started exactly by the events that are said to start one.
pub proof fn law_starts_are_told(s: ServerView, event: Event)
    requires
        s.wf(),
        s.awaits(event),
    ensures
        s.starts_worker(event) <==> s.advanced(event).0.phase is Spawning,
{
}

/// The generation counts the workers that were started: it goes up by one with every start, and at
/// no other time.
pub proof fn law_generation_counts_starts(s: ServerView, event: Event)
    requires
        s.wf(),
        s.awaits(event),
        s.has_room(event),
    ensures
        s.advanced(event).0.generation == s.generation + if s.starts_worker(event) {
            1int
        } else {
            0int
        },
{
}

/// Every generation runs the same command with the same sockets.
pub proof fn law_sockets_stay(s: ServerView, event: Event)
    ensures
        s.advanced(event).0.opts == s.opts,
        s.advanced(event).0.port_env == s.port_env,
{
}

/// While the superdaemon waits for something to happen, there is a current worker.
pub proof fn law_a_worker_is_up(s: ServerView)
    requires
        s.wf(),
        s.request() is Poll,
    ensures
        s.current is Some,
{
}

/// A pause takes at least a second.
pub proof fn law_pauses_take_time(s: ServerView)
    requires
        s.wf(),
    ensures
        s.request() matches Request::Sleep(seconds) ==> seconds > 0,
{
}

proof fn lemma_orders()
    ensures
        total_order(pid_less()),
        total_order(entry_less()),
{
}

pub proof fn lemma_old_pids(s: ServerView)
    requires
        s.old.dom().finite(),
    ensures
        lists(s.old_pids(), s.old.dom(), pid_less()),
{
    lemma_orders();
    lemma_listing_exists(s.old.dom(), pid_less());
}

pub proof fn lemma_signals_reach(pids: Seq<i32>, signal: Signal, effect: EffectView)
    ensures
        signals_to(pids, signal).contains(effect) <==> (effect matches EffectView::Signal(
            pid,
            sent,
        ) && sent == signal && pids.contains(pid)),
{
    if let EffectView::Signal(pid, sent) = effect {
        if pids.contains(pid) && sent == signal {
            let i = choose|i: int| 0 <= i < pids.len() && pids[i] == pid;
            assert(signals_to(pids, signal)[i] == effect);
        }
    }
    if signals_to(pids, signal).contains(effect) {
        let i = choose|i: int|
            0 <= i < signals_to(pids, signal).len() && signals_to(pids, signal)[i] == effect;
        assert(pids.contains(pids[i]));
    }
}

pub proof fn lemma_contains_sum<T>(a: Seq<T>, b: Seq<T>, x: T)
    ensures
        (a + b).contains(x) <==> a.contains(x) || b.contains(x),
{
    let s = a + b;
    if s.contains(x) {
        let i = choose|i: int| 0 <= i < s.len() && s[i] == x;
        if i < a.len() {
            assert(a[i] == x);
        } else {
            assert(b[i - a.len()] == x);
        }
    }
    if a.contains(x) {
        let i = choose|i: int| 0 <= i < a.len() && a[i] == x;
        assert(s[i] == x);
    }
    if b.contains(x) {
        let i = choose|i: int| 0 <= i < b.len() && b[i] == x;
        assert(s[i + a.len()] == x);
    }
}

proof fn lemma_no_signal_in_status(s: ServerView, pid: i32, signal: Signal)
    ensures
        !s.status_update().contains(EffectView::Signal(pid, signal)),
{
}

pub proof fn lemma_restarted_signals(s: ServerView, pid: i32, signal: Signal)
    requires
        s.old.dom().finite(),
    ensures
        s.restarted().1.contains(EffectView::Signal(pid, signal)) <==> s.old.contains_key(pid)
            && signal == s.opts.signal_on_hup,
{
    let effect = EffectView::Signal(pid, signal);
    let head = seq![EffectView::Log(Notice::SignallingOld)];
    let tail = signals_to(s.old_pids(), s.opts.signal_on_hup);
    lemma_old_pids(s);
    lemma_signals_reach(s.old_pids(), s.opts.signal_on_hup, effect);
    lemma_contains_sum(head, tail, effect);
    assert(!head.contains(effect));
    assert(s.old_pids().contains(pid) <==> s.old.dom().contains(pid));
}

proof fn lemma_resumed_signals(s: ServerView, after: After, pid: i32, signal: Signal)
    requires
        s.old.dom().finite(),
        s.resumed(after).1.contains(EffectView::Signal(pid, signal)),
    ensures
        after is Retire,
        s.resumed(after) == s.restarted(),
        s.old.contains_key(pid),
        signal == s.opts.signal_on_hup,
{
    lemma_restarted_signals(s, pid, signal);
}

proof fn lemma_came_up_signals(s: ServerView, up: i32, after: After, pid: i32, signal: Signal)
    requires
        s.old.dom().finite(),
        s.came_up(up, after).1.contains(EffectView::Signal(pid, signal)),
    ensures
        s.came_up(up, after).0.phase is Idle,
        s.came_up(up, after).0.current == Some(up),
        s.came_up(up, after).0.old == s.old,
        s.old.contains_key(pid),
        signal == s.opts.signal_on_hup,
{
    let effect = EffectView::Signal(pid, signal);
    let state = ServerView { current: Some(up), ..s };
    let head = seq![EffectView::ResetClock, EffectView::Log(Notice::Started(up, s.generation))];
    lemma_no_signal_in_status(state, pid, signal);
    assert(!head.contains(effect));
    lemma_contains_sum(head, state.status_update(), effect);
    lemma_contains_sum(head + state.status_update(), state.resumed(after).1, effect);
    lemma_resumed_signals(state, after, pid, signal);
}

/// Unless the end has begun, only a retired worker is ever signalled, with the signal for that, and
/// only once the worker that takes its place is up. So no connection is refused in between.
pub proof fn law_old_worker_is_signalled_when_the_new_one_is_up(
    s: ServerView,
    event: Event,
    pid: i32,
    signal: Signal,
)
    requires
        s.wf(),
        s.awaits(event),
        s.has_room(event),
        s.advanced(event).0.phase !is Draining,
        s.advanced(event).0.phase !is Stopped,
        s.advanced(event).1.contains(EffectView::Signal(pid, signal)),
    ensures
        s.advanced(event).0.current is Some,
        s.advanced(event).0.old.contains_key(pid),
        s.advanced(event).0.old[pid] < s.advanced(event).0.generation,
        signal == s.opts.signal_on_hup,
{
    let effect = EffectView::Signal(pid, signal);
    lemma_wf_is_kept(s, event);
    match (s.phase, event) {
        (Phase::Probing(up, after), Event::Waited(WaitOutcome::StillAlive)) => {
            lemma_came_up_signals(s, up, after, pid, signal);
        },
        (Phase::Delaying, Event::Slept) => {
            lemma_restarted_signals(s, pid, signal);
        },
        (Phase::Reaping, Event::Waited(WaitOutcome::Changed(gone))) => {
            if s.current != Some(gone) && s.old.contains_key(gone) {
                let next = ServerView { old: s.old.remove(gone), ..s };
                lemma_no_signal_in_status(next, pid, signal);
                lemma_contains_sum(
                    seq![EffectView::Log(Notice::OldExited(gone))],
                    next.status_update(),
                    effect,
                );
            }
            assert(false);
        },
        (Phase::Timing, Event::Elapsed(elapsed)) => {
            lemma_contains_sum(
                seq![EffectView::Log(Notice::AutoRestart)],
                seq![EffectView::Log(Notice::Restarting)],
                effect,
            );
            assert(false);
        },
        _ => {
            assert(false);
        },
    }
}

/// Whether `event` ends a restart: the pause before the old workers are signalled is over, or the
/// new worker has come up and there is no such pause.
pub open spec fn ends_restart(s: ServerView, event: Event) -> bool {
    ||| s.phase is Delaying && event is Slept
    ||| s.phase matches Phase::Probing(_, after) && after is Retire && s.opts.kill_delay() == 0
        && event == Event::Waited(WaitOutcome::StillAlive)
}

/// On the end of a restart, with or without a delay, every retired worker is signalled.
pub proof fn law_restart_signals_every_old_worker(s: ServerView, event: Event, pid: i32)
    requires
        s.wf(),
        ends_restart(s, event),
        s.old.contains_key(pid),
    ensures
        s.advanced(event).1.contains(EffectView::Signal(pid, s.opts.signal_on_hup)),
{
    match s.phase {
        Phase::Probing(up, after) => {
            let state = ServerView { current: Some(up), ..s };
            let head = seq![
                EffectView::ResetClock,
                EffectView::Log(Notice::Started(up, s.generation)),
            ] + state.status_update();
            lemma_restarted_signals(state, pid, s.opts.signal_on_hup);
            lemma_contains_sum(
                head,
                state.restarted().1,
                EffectView::Signal(pid, s.opts.signal_on_hup),
            );
        },
        _ => {
            lemma_restarted_signals(s, pid, s.opts.signal_on_hup);
        },
    }
}

proof fn lemma_pids_of_sum(a: Seq<EffectView>, b: Seq<EffectView>)
    ensures
        pids_signalled(a + b) == pids_signalled(a) + pids_signalled(b),
    decreases b.len(),
{
    if b.len() == 0 {
        assert(a + b =~= a);
        assert(pids_signalled(a) + pids_signalled(b) =~= pids_signalled(a));
    } else {
        assert((a + b).drop_last() =~= a + b.drop_last());
        assert((a + b).last() == b.last());
        lemma_pids_of_sum(a, b.drop_last());
        assert(pids_signalled(a + b) =~= pids_signalled(a) + pids_signalled(b));
    }
}

proof fn lemma_pids_of_signals(pids: Seq<i32>, signal: Signal)
    ensures
        pids_signalled(signals_to(pids, signal)) == pids,
    decreases pids.len(),
{
    let effects = signals_to(pids, signal);
    if pids.len() == 0 {
        assert(pids_signalled(effects) =~= pids);
    } else {
        assert(effects.drop_last() =~= signals_to(pids.drop_last(), signal));
        assert(effects.last() == EffectView::Signal(pids.last(), signal));
        lemma_pids_of_signals(pids.drop_last(), signal);
        assert(pids_signalled(effects) =~= pids);
    }
}

proof fn lemma_pids_of_restarted(s: ServerView)
    ensures
        pids_signalled(s.restarted().1) == s.old_pids(),
{
    let head = seq![EffectView::Log(Notice::SignallingOld)];
    let tail = signals_to(s.old_pids(), s.opts.signal_on_hup);
    lemma_pids_of_signals(s.old_pids(), s.opts.signal_on_hup);
    lemma_pids_of_sum(head, tail);
    assert(head.drop_last() =~= Seq::<EffectView>::empty());
    assert(pids_signalled(head.drop_last()) =~= Seq::<i32>::empty());
    assert(pids_signalled(head) =~= Seq::<i32>::empty());
    assert(pids_signalled(head) + pids_signalled(tail) =~= s.old_pids());
    assert(pids_signalled(s.restarted().1) =~= s.old_pids());
}

/// The workers that are signalled on the end of a restart are the retired ones, each once, in
/// increasing order of their pids, and no other.
pub proof fn law_restart_signals_old_workers_in_order(s: ServerView, event: Event)
    requires
        s.wf(),
        ends_restart(s, event),
    ensures
        pids_signalled(s.advanced(event).1) == s.old_pids(),
        lists(s.old_pids(), s.old.dom(), pid_less()),
{
    lemma_old_pids(s);
    match s.phase {
        Phase::Probing(up, after) => {
            let state = ServerView { current: Some(up), ..s };
            let clock = seq![EffectView::ResetClock];
            let head = seq![
                EffectView::ResetClock,
                EffectView::Log(Notice::Started(up, s.generation)),
            ];
            let none = Seq::<EffectView>::empty();
            assert(pids_signalled(none) =~= Seq::<i32>::empty());
            assert(head.drop_last() =~= clock);
            assert(clock.drop_last() =~= none);
            assert(pids_signalled(clock) =~= Seq::<i32>::empty());
            assert(pids_signalled(head) =~= Seq::<i32>::empty());
            if s.opts.status_file is Some {
                assert(state.status_update().drop_last() =~= none);
            }
            assert(pids_signalled(state.status_update()) =~= Seq::<i32>::empty());
            lemma_pids_of_sum(head, state.status_update());
            lemma_pids_of_sum(head + state.status_update(), state.restarted().1);
            lemma_pids_of_restarted(state);
            assert(pids_signalled(s.advanced(event).1) =~= state.old_pids());
        },
        _ => {
            lemma_pids_of_restarted(s);
        },
    }
}

/// When a terminating signal has arrived, every worker is signalled.
pub proof fn law_shutdown_signals_every_worker(
    s: ServerView,
    flags: SignalFlags,
    worker: (u64, i32),
)
    requires
        s.wf(),
        s.phase is Looking,
        flags.term,
        s.workers().contains(worker),
    ensures
        s.advanced(Event::Signals(flags)).1.contains(
            EffectView::Signal(worker.1, s.opts.signal_on_term),
        ),
{
    let all = s.retired();
    let effect = EffectView::Signal(worker.1, s.opts.signal_on_term);
    let head = seq![EffectView::Log(Notice::ShuttingDown)];
    let middle = signals_to(all.old_pids(), s.opts.signal_on_term);
    lemma_old_pids(all);
    assert(all.old.contains_key(worker.1));
    assert(all.old_pids().contains(worker.1));
    lemma_signals_reach(all.old_pids(), s.opts.signal_on_term, effect);
    lemma_contains_sum(head, middle, effect);
    lemma_contains_sum(head + middle, all.drained().1, effect);
}

proof fn lemma_pids_of_finished(s: ServerView)
    ensures
        pids_signalled(s.drained().1) == Seq::<i32>::empty(),
{
    let none = Seq::<EffectView>::empty();
    let lock = if s.opts.pid_file is Some {
        seq![EffectView::RemovePidFile]
    } else {
        none
    };
    let exit = seq![EffectView::Log(Notice::Exiting)];
    assert(pids_signalled(none) =~= Seq::<i32>::empty());
    if s.opts.status_file is Some {
        assert(s.status_update().drop_last() =~= none);
    }
    if s.opts.pid_file is Some {
        assert(lock.drop_last() =~= none);
    }
    assert(exit.drop_last() =~= none);
    lemma_pids_of_sum(s.status_update(), lock);
    lemma_pids_of_sum(s.status_update() + lock, exit);
    assert(pids_signalled(s.status_update()) =~= Seq::<i32>::empty());
    assert(pids_signalled(lock) =~= Seq::<i32>::empty());
    assert(pids_signalled(exit) =~= Seq::<i32>::empty());
    assert(pids_signalled(s.drained().1) =~= Seq::<i32>::empty());
}

/// The workers that are signalled when a terminating signal has arrived are the current one and
/// the retired ones, each once, in increasing order of their pids, and no other.
pub proof fn law_shutdown_signals_workers_in_order(s: ServerView, flags: SignalFlags)
    requires
        s.wf(),
        s.phase is Looking,
        flags.term,
    ensures
        pids_signalled(s.advanced(Event::Signals(flags)).1) == s.retired().old_pids(),
        lists(s.retired().old_pids(), s.retired().old.dom(), pid_less()),
        forall|pid: i32| #[trigger]
            s.retired().old.contains_key(pid) <==> s.current == Some(pid) || s.old.contains_key(
                pid,
            ),
{
    let all = s.retired();
    let head = seq![EffectView::Log(Notice::ShuttingDown)];
    let middle = signals_to(all.old_pids(), s.opts.signal_on_term);
    lemma_old_pids(all);
    lemma_pids_of_signals(all.old_pids(), s.opts.signal_on_term);
    lemma_pids_of_finished(all);
    lemma_pids_of_sum(head, middle);
    lemma_pids_of_sum(head + middle, all.drained().1);
    assert(head.drop_last() =~= Seq::<EffectView>::empty());
    assert(pids_signalled(head.drop_last()) =~= Seq::<i32>::empty());
    assert(pids_signalled(head) =~= Seq::<i32>::empty());
    assert(pids_signalled(s.advanced(Event::Signals(flags)).1) =~= all.old_pids());
}

/// The superdaemon ends only when a terminating signal has arrived, and then it starts no worker
/// any more.
pub proof fn law_only_a_signal_ends_it(s: ServerView, event: Event)
    requires
        s.wf(),
        s.awaits(event),
    ensures
        s.advanced(event).0.phase is Draining || s.advanced(event).0.phase is Stopped
            <==> s.phase is Draining || (event matches Event::Signals(flags) && flags.term),
{
}

/// The superdaemon exits when every worker has exited, or when it can no longer wait for them.
pub proof fn law_exits_without_workers(s: ServerView, event: Event)
    requires
        s.wf(),
        s.awaits(event),
        s.advanced(event).0.phase is Stopped,
    ensures
        s.advanced(event).0.old.is_empty() || event == Event::Waited(WaitOutcome::Failed),
{
}

/// If the worker died, a replacement is started at once, unless the end has come.
pub proof fn law_dead_worker_is_replaced(s: ServerView, flags: SignalFlags)
    requires
        s.wf(),
        s.phase is Looking,
        s.current is None,
        !flags.term,
        s.generation < u64::MAX,
    ensures
        s.advanced(Event::Signals(flags)).0.phase == Phase::Spawning(After::Check(flags.hup)),
        s.advanced(Event::Signals(flags)).0.generation == s.generation + 1,
{
}

/// A worker that does not come up is followed by another try, after which the superdaemon goes on
/// as it would have; the other workers are left as they are.
pub proof fn law_failed_start_is_retried(s: ServerView, event: Event, goal: After)
    requires
        s.wf(),
        s.awaits(event),
        s.has_room(event),
        ({
            ||| s.phase == Phase::Backoff(goal)
            ||| s.phase matches Phase::Probing(_, after) && after == goal && event
                != Event::Waited(WaitOutcome::StillAlive)
        }),
    ensures
        s.advanced(event).0 == (ServerView {
            generation: (s.generation + 1) as u64,
            phase: Phase::Spawning(goal),
            ..s
        }),
{
}

/// A restart that is asked for while a dead worker is being replaced begins when the replacement is
/// up.
pub proof fn law_restart_outlives_a_replacement(s: ServerView, pid: i32)
    requires
        s.wf(),
        s.phase == Phase::Probing(pid, After::Check(true)),
        s.generation < u64::MAX,
    ensures
        s.advanced(Event::Waited(WaitOutcome::StillAlive)).0 == (ServerView {
            generation: (s.generation + 1) as u64,
            old: s.old.insert(pid, s.generation),
            phase: Phase::Spawning(After::Retire),
            ..s
        }),
{
}

/// Whether no pid stands for two workers.
pub open spec fn distinct(s: ServerView) -> bool {
    &&& s.current matches Some(pid) ==> !s.old.contains_key(pid)
    &&& match s.phase {
        Phase::Settling(pid, _) | Phase::Probing(pid, _) => !s.old.contains_key(pid),
        _ => true,
    }
}

/// No pid stands for two workers, as long as the system gives a new worker no pid of one that has
/// not been waited for.
pub proof fn law_pids_stay_distinct(s: ServerView, event: Event)
    requires
        s.wf(),
        s.awaits(event),
        distinct(s),
        event matches Event::Spawned(pid) ==> !s.old.contains_key(pid),
    ensures
        distinct(s.advanced(event).0),
{
}

/// A restart never signals the worker that has just come up.
pub proof fn law_current_worker_is_not_signalled(
    s: ServerView,
    event: Event,
    pid: i32,
    signal: Signal,
)
    requires
        s.wf(),
        s.awaits(event),
        s.has_room(event),
        distinct(s),
        s.advanced(event).0.phase !is Draining,
        s.advanced(event).0.phase !is Stopped,
        s.advanced(event).0.current == Some(pid),
    ensures
        !s.advanced(event).1.contains(EffectView::Signal(pid, signal)),
{
    if s.advanced(event).1.contains(EffectView::Signal(pid, signal)) {
        law_old_worker_is_signalled_when_the_new_one_is_up(s, event, pid, signal);
        assert(!(event is Spawned));
        law_pids_stay_distinct(s, event);
    }
}

/// No worker is forgotten: it stays current or retired, under its generation, until it is found to
/// have exited.
pub proof fn law_no_worker_is_forgotten(s: ServerView, event: Event, worker: (u64, i32))
    requires
        s.wf(),
        s.awaits(event),
        s.has_room(event),
        distinct(s),
        s.workers().contains(worker),
        event != Event::Waited(WaitOutcome::Changed(worker.1)),
    ensures
        s.advanced(event).0.workers().contains(worker),
{
}

pub proof fn lemma_workers_are_finite(s: ServerView)
    requires
        s.old.dom().finite(),
    ensures
        s.workers().finite(),
{
    let f = |pid: i32| (s.old[pid], pid);
    let retired = s.old.dom().map(f);
    s.old.dom().lemma_map_finite(f);
    let bound = match s.current {
        Some(pid) => retired.insert((s.generation, pid)),
        None => retired,
    };
    assert forall|w: (u64, i32)| #[trigger] s.workers().contains(w) implies bound.contains(w) by {
        if s.old.contains_key(w.1) && s.old[w.1] == w.0 {
            assert(f(w.1) == w);
            assert(retired.contains(w));
        }
    }
    vstd::set_lib::lemma_set_subset_finite(bound, s.workers());
}

/// The status file lists exactly the workers, by generation.
pub proof fn law_status_lists_the_workers(s: ServerView)
    requires
        s.wf(),
    ensures
        lists(status_read(Some(s.status_body())), s.workers(), entry_less()),
{
    lemma_orders();
    lemma_workers_are_finite(s);
    lemma_listing_exists(s.workers(), entry_less());
    law_status_is_read_back(listing(s.workers(), entry_less()));
}

/// A control command that looks at the status file sees the restart complete exactly when the
/// current worker is newer than every one before the signal, and every old one has exited.
pub proof fn law_restart_is_seen_complete(s: ServerView, base: u64)
    requires
        s.wf(),
        s.current is Some,
    ensures
        completed(status_read(Some(s.status_body())), base) <==> s.old.is_empty() && s.generation
            > base,
{
    let entries = status_read(Some(s.status_body()));
    law_status_lists_the_workers(s);
    let own = (s.generation, s.current->Some_0);
    assert(s.workers().contains(own));
    assert(entries.contains(own));
    let i = choose|i: int| 0 <= i < entries.len() && entries[i] == own;
    if completed(entries, base) {
        assert(entries[i].0 == entries[0].0);
        if !s.old.is_empty() {
            let pid = s.old.dom().choose();
            assert(s.old.contains_key(pid));
            let other = (s.old[pid], pid);
            assert(s.workers().contains(other));
            assert(entries.contains(other));
            let j = choose|j: int| 0 <= j < entries.len() && entries[j] == other;
            assert(entries[j].0 == entries[0].0);
        }
    }
    if s.old.is_empty() && s.generation > base {
        assert forall|j: int| 0 <= j < entries.len() implies (#[trigger] entries[j]).0
            == s.generation by {
            assert(entries.contains(entries[j]));
            assert(s.workers().contains(entries[j]));
            assert(!s.old.dom().contains(entries[j].1));
        }
        assert(entries[0].0 == s.generation);
    }
}

/// A restart by the clock begins only when the interval is over, and it waits for old workers for
/// at most as long again.
pub proof fn law_auto_restart_keeps_the_interval(s: ServerView, elapsed: u64)
    requires
        s.wf(),
        s.phase is Timing,
    ensures
        s.opts.enable_auto_restart,
        s.advanced(Event::Elapsed(elapsed)).0.phase is Spawning ==> elapsed
            >= s.opts.auto_restart_interval,
        elapsed >= s.opts.auto_restart_interval && s.old.is_empty() ==> s.advanced(
            Event::Elapsed(elapsed),
        ).0.phase is Spawning,
        elapsed >= 2 * s.opts.auto_restart_interval ==> s.advanced(
            Event::Elapsed(elapsed),
        ).0.phase is Spawning,
{
}

proof fn lemma_same_body(a: ServerView, b: ServerView)
    requires
        forall|w: (u64, i32)| #[trigger] a.workers().contains(w) <==> b.workers().contains(w),
    ensures
        a.status_body() == b.status_body(),
{
    assert(a.workers() =~= b.workers());
}

proof fn lemma_resumed_workers(s: ServerView, after: After)
    requires
        distinct(s),
        s.current is Some,
    ensures
        s.resumed(after).0.status_body() == s.status_body(),
{
    let next = s.resumed(after).0;
    lemma_same_body(next, s);
}

/// The status file keeps up with the workers: whenever they change, it is written anew. The
/// exceptions are the death of the current worker, which is written with its replacement, and the
/// deaths at the end, which are written together.
pub proof fn law_status_keeps_up(s: ServerView, event: Event)
    requires
        s.wf(),
        s.awaits(event),
        s.has_room(event),
        distinct(s),
        s.opts.status_file is Some,
        s.phase !is Draining,
        s.phase is Reaping ==> s.current is None || event != Event::Waited(
            WaitOutcome::Changed(s.current->Some_0),
        ),
    ensures
        s.advanced(event).0.workers() != s.workers() ==> s.advanced(event).1.contains(
            EffectView::WriteStatus(s.advanced(event).0.status_body()),
        ),
{
    let next = s.advanced(event).0;
    let effect = EffectView::WriteStatus(next.status_body());
    match (s.phase, event) {
        (Phase::Probing(pid, after), Event::Waited(WaitOutcome::StillAlive)) => {
            let up = ServerView { current: Some(pid), ..s };
            let head = seq![
                EffectView::ResetClock,
                EffectView::Log(Notice::Started(pid, s.generation)),
            ];
            lemma_resumed_workers(up, after);
            assert(up.status_update()[0] == effect);
            lemma_contains_sum(head, up.status_update(), effect);
            lemma_contains_sum(head + up.status_update(), up.resumed(after).1, effect);
        },
        (Phase::Reaping, Event::Waited(WaitOutcome::Changed(gone))) => {
            if s.old.contains_key(gone) {
                assert(next.status_update()[0] == effect);
                lemma_contains_sum(
                    seq![EffectView::Log(Notice::OldExited(gone))],
                    next.status_update(),
                    effect,
                );
            }
        },
        _ => {
            assert(next.workers() =~= s.workers());
        },
    }
}

/// The status file is written for the last time when the superdaemon exits.
pub proof fn law_status_is_written_at_the_end(s: ServerView, event: Event)
    requires
        s.wf(),
        s.awaits(event),
        s.opts.status_file is Some,
        s.advanced(event).0.phase is Stopped,
    ensures
        s.advanced(event).1.contains(
            EffectView::WriteStatus(s.advanced(event).0.status_body()),
        ),
{
    let next = s.advanced(event).0;
    let effect = EffectView::WriteStatus(next.status_body());
    let last = match event {
        Event::Signals(_) => s.retired(),
        Event::Waited(WaitOutcome::Changed(pid)) => ServerView { old: s.old.remove(pid), ..s },
        _ => s,
    };
    let pid_file = if s.opts.pid_file is Some {
        seq![EffectView::RemovePidFile]
    } else {
        Seq::empty()
    };
    lemma_same_body(last, next);
    assert(last.status_update()[0] == effect);
    lemma_contains_sum(last.status_update(), pid_file, effect);
    lemma_contains_sum(
        last.status_update() + pid_file,
        seq![EffectView::Log(Notice::Exiting)],
        effect,
    );
    if event is Signals {
        lemma_contains_sum(
            seq![EffectView::Log(Notice::ShuttingDown)] + signals_to(
                last.old_pids(),
                s.opts.signal_on_term,
            ),
            last.finished().1,
            effect,
        );
    }
}

/// The state that `events`, one after the other, lead to.
pub open spec fn after(s: ServerView, events: Seq<Event>) -> ServerView
    decreases events.len(),
{
    if events.len() == 0 {
        s
    } else {
        after(s.advanced(events[0]).0, events.skip(1))
    }
}

/// Whether `events` can come one after the other.
pub open spec fn allowed(s: ServerView, events: Seq<Event>) -> bool
    decreases events.len(),
{
    events.len() > 0 ==> {
        &&& s.awaits(events[0])
        &&& s.has_room(events[0])
        &&& allowed(s.advanced(events[0]).0, events.skip(1))
    }
}

/// How many workers `events`, one after the other, start.
pub open spec fn starts(s: ServerView, events: Seq<Event>) -> nat
    decreases events.len(),
{
    if events.len() == 0 {
        0
    } else {
        starts(s.advanced(events[0]).0, events.skip(1)) + if s.starts_worker(events[0]) {
            1nat
        } else {
            0nat
        }
    }
}

/// However long the superdaemon runs, it stays in a state that it can be in, with the same command
/// and the same sockets, and its generation rises by the number of workers that are started.
pub proof fn law_every_run(s: ServerView, events: Seq<Event>)
    requires
        s.wf(),
        allowed(s, events),
    ensures
        after(s, events).wf(),
        after(s, events).opts == s.opts,
        after(s, events).port_env == s.port_env,
        after(s, events).generation == s.generation + starts(s, events),
    decreases events.len(),
{
    if events.len() > 0 {
        lemma_wf_is_kept(s, events[0]);
        law_generation_counts_starts(s, events[0]);
        law_sockets_stay(s, events[0]);
        law_every_run(s.advanced(events[0]).0, events.skip(1));
    }
}

proof fn lemma_one_more(s: ServerView, events: Seq<Event>, event: Event)
    ensures
        after(s, events.push(event)) == after(s, events).advanced(event).0,
        allowed(s, events.push(event)) <==> {
            &&& allowed(s, events)
            &&& after(s, events).awaits(event)
            &&& after(s, events).has_room(event)
        },
    decreases events.len(),
{
    let more = events.push(event);
    assert(more.len() > 0);
    if events.len() == 0 {
        let next = s.advanced(event).0;
        assert(more.skip(1) =~= Seq::<Event>::empty());
        assert(after(next, Seq::empty()) == next);
        assert(allowed(next, Seq::empty()));
    } else {
        assert(more.skip(1) =~= events.skip(1).push(event));
        lemma_one_more(s.advanced(events[0]).0, events.skip(1), event);
    }
}

/// What happens from the request for a restart until the last event of that restart: the worker
/// `fresh` is started, the interval passes if there is one, and where old workers are spared for a
/// while it is seen that `fresh` is up.
pub open spec fn deploy(opts: OptionsView, fresh: i32) -> Seq<Event> {
    let asked = seq![
        Event::Signals(SignalFlags { hup: true, term: false }),
        Event::Spawned(fresh),
    ];
    let settled = if opts.interval > 0 {
        asked.push(Event::Slept)
    } else {
        asked
    };
    if opts.kill_delay() > 0 {
        settled.push(Event::Waited(WaitOutcome::StillAlive))
    } else {
        settled
    }
}

/// The last event of a restart.
pub open spec fn deploy_end(opts: OptionsView) -> Event {
    if opts.kill_delay() > 0 {
        Event::Slept
    } else {
        Event::Waited(WaitOutcome::StillAlive)
    }
}

/// A hot deploy: where a restart is asked for and the new worker stays up for the interval, it is
/// current in the end, of the next generation; the one before it is retired, and with it every
/// worker that was retired earlier is signalled.
pub proof fn law_hot_deploy(s: ServerView, worker: i32, fresh: i32)
    requires
        s.wf(),
        s.phase is Looking,
        s.current == Some(worker),
        s.generation < u64::MAX,
    ensures
        ({
            let last = after(s, deploy(s.opts, fresh));
            let end = deploy_end(s.opts);
            let old = s.old.insert(worker, s.generation);
            &&& allowed(s, deploy(s.opts, fresh))
            &&& last.awaits(end)
            &&& last.advanced(end).0 == (ServerView {
                generation: (s.generation + 1) as u64,
                current: Some(fresh),
                old,
                phase: Phase::Idle,
                ..s
            })
            &&& forall|pid: i32| #[trigger]
                old.contains_key(pid) ==> last.advanced(end).1.contains(
                    EffectView::Signal(pid, s.opts.signal_on_hup),
                )
        }),
{
    let hup = Event::Signals(SignalFlags { hup: true, term: false });
    let alive = Event::Waited(WaitOutcome::StillAlive);
    let none = Seq::<Event>::empty();
    let asked = none.push(hup).push(Event::Spawned(fresh));
    assert(asked =~= seq![hup, Event::Spawned(fresh)]);
    assert(after(s, none) == s);
    assert(allowed(s, none));
    lemma_one_more(s, none, hup);
    lemma_one_more(s, none.push(hup), Event::Spawned(fresh));
    lemma_one_more(s, asked, Event::Slept);
    let settled = if s.opts.interval > 0 {
        asked.push(Event::Slept)
    } else {
        asked
    };
    lemma_one_more(s, settled, alive);
    let last = after(s, deploy(s.opts, fresh));
    let end = deploy_end(s.opts);
    law_every_run(s, deploy(s.opts, fresh));
    let old = s.old.insert(worker, s.generation);
    assert(last.old == old);
    assert forall|pid: i32| #[trigger] old.contains_key(pid) implies last.advanced(end).1.contains(
        EffectView::Signal(pid, s.opts.signal_on_hup),
    ) by {
        law_restart_signals_every_old_worker(last, end, pid);
    }
}

} // verus!
