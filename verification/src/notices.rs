//! The diagnostic lines of the superdaemon.
use crate::number::{decimal, int_text, push_i32, push_u64};
use crate::options::{Options, OptionsView};
use crate::outside::{is_name_of, quoted, quoted_text, signal_name};
use crate::server::{effect_views, Effect, EffectView, Notice};
use crate::text::{ends_with, lemma_ends_with};
use vstd::prelude::*;
use vstd::string::StringExecFns;

verus! {

/// The pids that `effects` signal, in that order.
pub open spec fn pids_signalled(effects: Seq<EffectView>) -> Seq<i32>
    decreases effects.len(),
{
    if effects.len() == 0 {
        Seq::empty()
    } else {
        let before = pids_signalled(effects.drop_last());
        match effects.last() {
            EffectView::Signal(pid, _) => before.push(pid),
            _ => before,
        }
    }
}

/// The pids that `effects` signal, in that order.
pub fn signalled_pids(effects: &Vec<Effect>) -> (r: Vec<i32>)
    ensures
        r@ == pids_signalled(effect_views(effects@)),
{
    let mut r: Vec<i32> = Vec::new();
    let ghost views = effect_views(effects@);
    let mut i: usize = 0;
    assert(r@ =~= pids_signalled(views.take(0)));
    while i < effects.len()
        invariant
            i <= effects.len(),
            views == effect_views(effects@),
            r@ == pids_signalled(views.take(i as int)),
        decreases effects.len() - i,
    {
        proof {
            assert(views.take(i + 1).drop_last() =~= views.take(i as int));
            assert(views.take(i + 1).last() == effects@[i as int]@);
        }
        if let Effect::Signal(pid, _) = &effects[i] {
            r.push(*pid);
        }
        i = i + 1;
    }
    assert(views.take(i as int) =~= views);
    r
}

/// Pids with commas between them.
pub open spec fn pid_items(pids: Seq<i32>) -> Seq<char>
    decreases pids.len(),
{
    if pids.len() == 0 {
        Seq::empty()
    } else {
        let item = "Pid("@ + int_text(pids.last() as int) + ")"@;
        if pids.len() == 1 {
            item
        } else {
            pid_items(pids.drop_last()) + ", "@ + item
        }
    }
}

/// A list of pids as it is shown.
pub open spec fn pid_list(pids: Seq<i32>) -> Seq<char> {
    "["@ + pid_items(pids) + "]"@
}

/// Shows a list of pids.
pub fn show_pids(pids: &Vec<i32>) -> (r: String)
    ensures
        r@ == pid_list(pids@),
{
    let mut r = String::from_str("[");
    let mut i: usize = 0;
    assert(r@ =~= "["@ + pid_items(pids@.take(0)));
    while i < pids.len()
        invariant
            i <= pids.len(),
            r@ == "["@ + pid_items(pids@.take(i as int)),
        decreases pids.len() - i,
    {
        let ghost earlier = pid_items(pids@.take(i as int));
        let ghost now = pids@.take(i + 1);
        proof {
            assert(now.drop_last() =~= pids@.take(i as int));
            assert(now.last() == pids@[i as int]);
        }
        if i > 0 {
            r.append(", ");
        }
        r.append("Pid(");
        push_i32(&mut r, pids[i]);
        r.append(")");
        assert(r@ =~= "["@ + pid_items(now));
        i = i + 1;
    }
    assert(pids@.take(i as int) =~= pids@);
    r.append("]");
    assert(r@ =~= pid_list(pids@));
    r
}

/// The line for `notice`, where `ending` says what became of the child that was last waited for,
/// `failure` why the last worker could not be started, `hup_name` is the name of the signal for old
/// workers, and `victims` are those that it is sent to.
pub open spec fn words(
    notice: Notice,
    opts: OptionsView,
    ending: Seq<char>,
    failure: Seq<char>,
    hup_name: Seq<char>,
    victims: Seq<i32>,
) -> Seq<char> {
    match notice {
        Notice::Started(pid, generation) => "started new worker "@ + int_text(pid as int)
            + " (generation "@ + decimal(generation as nat) + ")"@,
        Notice::NotExecuted => "failed to exec "@ + quoted_text(opts.command[0]) + ": "@ + failure
            + "; retrying in "@ + decimal(opts.interval as nat) + "s"@,
        Notice::ExitedAtOnce(pid) => "new worker "@ + int_text(pid as int)
            + " exited immediately with "@ + ending,
        Notice::NotStarted(pid) => "new worker "@ + int_text(pid as int)
            + " seems to have failed to start; restarting"@,
        Notice::Died(pid) => "worker "@ + int_text(pid as int) + " died unexpectedly with "@
            + ending + ", restarting"@,
        Notice::OldExited(pid) => "old worker "@ + int_text(pid as int) + " is now dead ("@
            + ending + ")"@,
        Notice::AutoRestart => "autorestart triggered"@,
        Notice::Restarting => "received HUP, spawning a new worker"@,
        Notice::SignallingOld => "sending "@ + hup_name + " to old workers "@ + pid_list(victims),
        Notice::ShuttingDown => "received TERM, shutting down"@,
        Notice::Exiting => "exiting"@,
    }
}

/// Writes the line for `notice`.
pub fn notice_words(
    notice: Notice,
    opts: &Options,
    ending: &str,
    failure: &str,
    hup_name: &str,
    victims: &Vec<i32>,
) -> (r: String)
    requires
        notice is NotExecuted ==> opts.command@.len() > 0,
    ensures
        r@ == words(notice, opts@, ending@, failure@, hup_name@, victims@),
{
    let mut r = String::new();
    match notice {
        Notice::Started(pid, generation) => {
            r.append("started new worker ");
            push_i32(&mut r, pid);
            r.append(" (generation ");
            push_u64(&mut r, generation);
            r.append(")");
        },
        Notice::NotExecuted => {
            r.append("failed to exec ");
            r.append(quoted(opts.command[0].as_str()).as_str());
            r.append(": ");
            r.append(failure);
            r.append("; retrying in ");
            push_u64(&mut r, opts.interval);
            r.append("s");
        },
        Notice::ExitedAtOnce(pid) => {
            r.append("new worker ");
            push_i32(&mut r, pid);
            r.append(" exited immediately with ");
            r.append(ending);
        },
        Notice::NotStarted(pid) => {
            r.append("new worker ");
            push_i32(&mut r, pid);
            r.append(" seems to have failed to start; restarting");
        },
        Notice::Died(pid) => {
            r.append("worker ");
            push_i32(&mut r, pid);
            r.append(" died unexpectedly with ");
            r.append(ending);
            r.append(", restarting");
        },
        Notice::OldExited(pid) => {
            r.append("old worker ");
            push_i32(&mut r, pid);
            r.append(" is now dead (");
            r.append(ending);
            r.append(")");
        },
        Notice::AutoRestart => r.append("autorestart triggered"),
        Notice::Restarting => r.append("received HUP, spawning a new worker"),
        Notice::SignallingOld => {
            r.append("sending ");
            r.append(hup_name);
            r.append(" to old workers ");
            r.append(show_pids(victims).as_str());
        },
        Notice::ShuttingDown => r.append("received TERM, shutting down"),
        Notice::Exiting => r.append("exiting"),
    }
    assert(r@ =~= words(notice, opts@, ending@, failure@, hup_name@, victims@));
    r
}

/// Writes the line for `notice`, with the name that the signal for old workers has.
pub fn notice_text(
    notice: Notice,
    opts: &Options,
    ending: &str,
    failure: &str,
    victims: &Vec<i32>,
) -> (r: String)
    requires
        notice is NotExecuted ==> opts.command@.len() > 0,
    ensures
        exists|name: Seq<char>| #[trigger]
            is_name_of(name, opts.signal_on_hup) && r@ == words(
                notice,
                opts@,
                ending@,
                failure@,
                name,
                victims@,
            ),
{
    notice_words(notice, opts, ending, failure, signal_name(opts.signal_on_hup), victims)
}

/// Whether two lines are alike but for the one number, `p` in the first and `q` in the second.
pub open spec fn differ_in(a: Seq<char>, b: Seq<char>, p: int, q: int) -> bool {
    exists|head: Seq<char>, tail: Seq<char>|
        a == #[trigger] (head + int_text(p) + tail) && b == head + int_text(q) + tail
}

proof fn lemma_differ_in(head: Seq<char>, tail: Seq<char>, p: int, q: int)
    ensures
        differ_in(head + int_text(p) + tail, head + int_text(q) + tail, p, q),
{
}

/// A line about a worker names its pid, and its generation where it starts; a line about an exit
/// says how it came, a line about a failed start says why, and a line about signals says which
/// signal goes to whom.
pub proof fn law_lines_tell_what_they_are_about(
    p: i32,
    q: i32,
    generation: u64,
    opts: OptionsView,
    ending: Seq<char>,
    failure: Seq<char>,
    name: Seq<char>,
    victims: Seq<i32>,
)
    ensures
        ({
            let line = |n: Notice| words(n, opts, ending, failure, name, victims);
            let (a, b) = (p as int, q as int);
            &&& differ_in(line(Notice::Died(p)), line(Notice::Died(q)), a, b)
            &&& differ_in(line(Notice::OldExited(p)), line(Notice::OldExited(q)), a, b)
            &&& differ_in(line(Notice::NotStarted(p)), line(Notice::NotStarted(q)), a, b)
            &&& differ_in(line(Notice::ExitedAtOnce(p)), line(Notice::ExitedAtOnce(q)), a, b)
            &&& differ_in(
                line(Notice::Started(p, generation)),
                line(Notice::Started(q, generation)),
                a,
                b,
            )
            &&& ends_with(
                line(Notice::Started(p, generation)),
                decimal(generation as nat) + ")"@,
            )
            &&& ends_with(line(Notice::ExitedAtOnce(p)), ending)
            &&& ends_with(line(Notice::Died(p)), ending + ", restarting"@)
            &&& ends_with(line(Notice::OldExited(p)), ending + ")"@)
            &&& ends_with(
                line(Notice::NotExecuted),
                quoted_text(opts.command[0]) + ": "@ + failure + "; retrying in "@ + decimal(
                    opts.interval as nat,
                ) + "s"@,
            )
            &&& ends_with(
                line(Notice::SignallingOld),
                name + " to old workers "@ + pid_list(victims),
            )
        }),
{
    let line = |n: Notice| words(n, opts, ending, failure, name, victims);
    let (a, b) = (p as int, q as int);
    let number = decimal(generation as nat);
    lemma_differ_in("worker "@, " died unexpectedly with "@ + ending + ", restarting"@, a, b);
    lemma_differ_in("old worker "@, " is now dead ("@ + ending + ")"@, a, b);
    lemma_differ_in("new worker "@, " seems to have failed to start; restarting"@, a, b);
    lemma_differ_in("new worker "@, " exited immediately with "@ + ending, a, b);
    lemma_differ_in("started new worker "@, " (generation "@ + number + ")"@, a, b);
    assert forall|pid: i32| #![trigger line(Notice::Died(pid))] true implies {
        let t = int_text(pid as int);
        &&& line(Notice::Died(pid)) == "worker "@ + t + (" died unexpectedly with "@ + ending
            + ", restarting"@)
        &&& line(Notice::OldExited(pid)) == "old worker "@ + t + (" is now dead ("@ + ending
            + ")"@)
        &&& line(Notice::ExitedAtOnce(pid)) == "new worker "@ + t + (" exited immediately with "@
            + ending)
        &&& line(Notice::Started(pid, generation)) == "started new worker "@ + t + (
        " (generation "@ + number + ")"@)
    } by {
        let t = int_text(pid as int);
        assert(line(Notice::Died(pid)) =~= "worker "@ + t + (" died unexpectedly with "@ + ending
            + ", restarting"@));
        assert(line(Notice::OldExited(pid)) =~= "old worker "@ + t + (" is now dead ("@ + ending
            + ")"@));
        assert(line(Notice::ExitedAtOnce(pid)) =~= "new worker "@ + t + (
        " exited immediately with "@ + ending));
        assert(line(Notice::Started(pid, generation)) =~= "started new worker "@ + t + (
        " (generation "@ + number + ")"@));
    }
    assert(line(Notice::Died(p)) == line(Notice::Died(p)));
    assert(line(Notice::Died(q)) == line(Notice::Died(q)));
    let t = int_text(a);
    lemma_ends_with("started new worker "@ + t + " (generation "@, number + ")"@);
    assert(line(Notice::Started(p, generation)) =~= "started new worker "@ + t + " (generation "@
        + (number + ")"@));
    lemma_ends_with("new worker "@ + t + " exited immediately with "@, ending);
    lemma_ends_with("worker "@ + t + " died unexpectedly with "@, ending + ", restarting"@);
    assert(line(Notice::Died(p)) =~= "worker "@ + t + " died unexpectedly with "@ + (ending
        + ", restarting"@));
    lemma_ends_with("old worker "@ + t + " is now dead ("@, ending + ")"@);
    assert(line(Notice::OldExited(p)) =~= "old worker "@ + t + " is now dead ("@ + (ending
        + ")"@));
    let why = quoted_text(opts.command[0]) + ": "@ + failure + "; retrying in "@ + decimal(
        opts.interval as nat,
    ) + "s"@;
    lemma_ends_with("failed to exec "@, why);
    assert(line(Notice::NotExecuted) =~= "failed to exec "@ + why);
    let whom = name + " to old workers "@ + pid_list(victims);
    lemma_ends_with("sending "@, whom);
    assert(line(Notice::SignallingOld) =~= "sending "@ + whom);
}

/// A list of pids is shown in square brackets, each pid as `Pid(..)`, with commas between them.
pub proof fn law_pids_are_shown(pids: Seq<i32>, pid: i32)
    ensures
        pid_list(Seq::empty()) == "["@ + "]"@,
        pid_list(seq![pid]) == "["@ + "Pid("@ + int_text(pid as int) + ")"@ + "]"@,
        pids.len() > 0 ==> pid_list(pids.push(pid)) == pid_list(pids).drop_last() + ", "@ + "Pid("@
            + int_text(pid as int) + ")"@ + "]"@,
{
    reveal_strlit("]");
    let none = Seq::<i32>::empty();
    assert(pid_items(none) =~= Seq::<char>::empty());
    assert(pid_list(none) =~= "["@ + "]"@);
    assert(pid_list(seq![pid]) =~= "["@ + "Pid("@ + int_text(pid as int) + ")"@ + "]"@);
    if pids.len() > 0 {
        let more = pids.push(pid);
        assert(more.drop_last() =~= pids);
        assert(pid_list(pids).drop_last() =~= "["@ + pid_items(pids));
        assert(pid_list(more) =~= pid_list(pids).drop_last() + ", "@ + "Pid("@ + int_text(
            pid as int,
        ) + ")"@ + "]"@);
    }
}

} // verus!
