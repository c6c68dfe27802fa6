//! The daemon: the statuses that the scripts reported, the flag that tells
//! the host to stop listening, and the handlers of the three calls.

use std::sync::atomic::{AtomicBool, Ordering};
use std::sync::Arc;
use vstd::prelude::*;
use crate::aggregate::{aggregate, consolidated, Reports};
use crate::hook::{refused, relayed, HookCall, HookEvent, HookPhase};
use crate::rpc::{HookReply, HookReplyView, Reply, ReplyView};
use crate::status::{ScriptStatus, StatusView};
use crate::store::{as_map, ascending, lemma_reports_determined, recorded, StatusStore};

verus! {

/// What the daemon holds: whether it was asked to stop, and the last status
/// of each script.
pub struct DaemonView {
    pub stopping: bool,
    pub statuses: Map<Seq<char>, StatusView>,
}

impl DaemonView {
    /// A daemon that has just started: it runs, and no script has reported.
    pub open spec fn initial() -> DaemonView {
        DaemonView { stopping: false, statuses: Map::empty() }
    }

    /// The daemon after the script `id` has reported `status`.
    pub open spec fn after_set(self, id: Seq<char>, status: StatusView) -> DaemonView {
        DaemonView { stopping: self.stopping, statuses: self.statuses.insert(id, status) }
    }

    /// The daemon after it was asked to stop.
    pub open spec fn after_stop(self) -> DaemonView {
        DaemonView { stopping: true, statuses: self.statuses }
    }
}

/// To ask a daemon to stop leaves it stopping, whether it ran or was
/// stopping already, and leaves its statuses alone; a second request
/// changes nothing more. A report does not bring a stopping daemon back.
pub proof fn lemma_stop_is_final(daemon: DaemonView, id: Seq<char>, status: StatusView)
    ensures
        daemon.after_stop().stopping,
        daemon.after_stop().statuses == daemon.statuses,
        daemon.after_stop().after_stop() == daemon.after_stop(),
        daemon.after_stop().after_set(id, status).stopping,
{
}

/// The daemon's side of the RPC service.
pub struct LuckyDaemon {
    /// Shared with the host, which stops listening once it reads `true`.
    stop_listening: Arc<AtomicBool>,
    /// Whether this daemon was asked to stop.
    stopping: bool,
    script_statuses: StatusStore,
}

impl View for LuckyDaemon {
    type V = DaemonView;

    closed spec fn view(&self) -> DaemonView {
        DaemonView { stopping: self.stopping, statuses: self.script_statuses@ }
    }
}

impl LuckyDaemon {
    /// The reports that the daemon holds, in ascending order of the script ids.
    pub closed spec fn reports(&self) -> Reports {
        self.script_statuses.reports()
    }

    /// The cell through which the daemon tells its host to stop listening.
    pub closed spec fn stop_flag(&self) -> Arc<AtomicBool> {
        self.stop_listening
    }

    /// The daemon's statuses are its reports as a mapping.
    pub proof fn lemma_statuses(&self)
        ensures
            self@.statuses == as_map(self.reports()),
    {
    }

    /// A daemon that already holds `status` for `id` is the same after the
    /// script reports that status again: the same reports, consolidated to
    /// the same status.
    pub proof fn lemma_set_status_again(
        once: &LuckyDaemon,
        twice: &LuckyDaemon,
        id: Seq<char>,
        status: StatusView,
    )
        requires
            ascending(once.reports()),
            ascending(twice.reports()),
            once@.statuses.contains_pair(id, status),
            twice@ == once@.after_set(id, status),
        ensures
            twice@ == once@,
            twice.reports() == once.reports(),
            consolidated(twice.reports()) == consolidated(once.reports()),
    {
        assert(once@.statuses.insert(id, status) =~= once@.statuses);
        lemma_reports_determined(once.reports(), twice.reports());
    }

    /// A daemon that runs and holds no report. It keeps `stop_listening` as
    /// its stop flag and sets it when it is asked to stop; to stop the
    /// server is then up to the host.
    pub fn new(stop_listening: Arc<AtomicBool>) -> (r: Self)
        ensures
            r@ == DaemonView::initial(),
            r.reports() == Reports::empty(),
            r.stop_flag() == stop_listening,
    {
        LuckyDaemon { stop_listening, stopping: false, script_statuses: StatusStore::new() }
    }

    /// The statuses of all scripts consolidated into one: the most severe
    /// state, and the messages joined in the order of the script ids.
    pub fn get_juju_status(&self) -> (r: ScriptStatus)
        ensures
            r@ == consolidated(self.reports()),
            ascending(self.reports()),
    {
        let snapshot = self.script_statuses.snapshot();
        aggregate(&snapshot)
    }

    /// A copy of the reports as they stand, in ascending order of the script ids.
    pub fn snapshot(&self) -> (r: Vec<(String, ScriptStatus)>)
        ensures
            r.deep_view() == self.reports(),
            ascending(self.reports()),
    {
        self.script_statuses.snapshot()
    }

    /// Whether this daemon was asked to stop.
    pub fn is_stopping(&self) -> (r: bool)
        ensures
            r == self@.stopping,
    {
        self.stopping
    }

    /// Records the status that the script `script_id` reports and returns
    /// the consolidated status, which is to be published. The report stays
    /// whatever becomes of publishing it.
    pub fn set_status(&mut self, script_id: String, status: ScriptStatus) -> (juju: ScriptStatus)
        ensures
            final(self)@ == old(self)@.after_set(script_id@, status@),
            recorded(old(self).reports(), final(self).reports(), script_id@, status@),
            final(self).stop_flag() == old(self).stop_flag(),
            juju@ == consolidated(final(self).reports()),
    {
        self.script_statuses.set(script_id, status);
        self.get_juju_status()
    }

    /// Marks the daemon as stopping and tells the host through the shared
    /// flag. The reports stay; a daemon that is stopping stays so.
    pub fn stop_daemon(&mut self) -> (reply: Reply)
        ensures
            final(self)@ == old(self)@.after_stop(),
            final(self).reports() == old(self).reports(),
            final(self).stop_flag() == old(self).stop_flag(),
            reply@ == ReplyView::Empty,
    {
        self.stop_listening.store(true, Ordering::SeqCst);
        self.stopping = true;
        Reply::Empty
    }

    /// The stream of replies to a hook call, given what became of running
    /// the hook: its pieces of output in order, or the cause for which it
    /// could not be started.
    pub fn trigger_hook(&self, hook_name: String, outcome: Result<Vec<String>, String>) -> (replies:
        Vec<HookReply>)
        ensures
            replies.deep_view() == match outcome {
                Ok(chunks) => relayed(chunks.deep_view()),
                Err(cause) => refused(cause@),
            },
    {
        let mut call = HookCall::new(hook_name);
        let mut replies: Vec<HookReply> = Vec::new();
        match outcome {
            Err(cause) => {
                let reply = call.on_event(HookEvent::ContextFailed(cause));
                match reply {
                    Some(reply) => replies.push(reply),
                    None => {},
                }
            },
            Ok(chunks) => {
                call.on_event(HookEvent::ContextResolved);
                let ghost all = chunks.deep_view();
                let mut i: usize = 0;
                while i < chunks.len()
                    invariant
                        0 <= i <= chunks.len(),
                        all == chunks.deep_view(),
                        call.spec_phase() == HookPhase::Streaming,
                        replies.len() == i,
                        replies.deep_view() =~= relayed(all).take(i as int),
                    decreases chunks.len() - i,
                {
                    let reply = call.on_event(HookEvent::Output(chunks[i].clone()));
                    match reply {
                        Some(reply) => replies.push(reply),
                        None => {},
                    }
                    i += 1;
                }
                let ghost sent = replies.deep_view();
                let reply = call.on_event(HookEvent::Finished);
                match reply {
                    Some(reply) => replies.push(reply),
                    None => {},
                }
                assert(replies.deep_view() =~= sent.push(HookReplyView::End));
            },
        }
        replies
    }
}

} // verus!
