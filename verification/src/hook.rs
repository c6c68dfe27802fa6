//! The call that triggers a hook, as a state machine: it takes what happens
//! while the hook runs, one event at a time, and says what is sent to the
//! caller in answer.

use vstd::prelude::*;
use crate::rpc::{HookReply, HookReplyView};

verus! {

/// How far a hook call has come.
#[derive(Clone, Copy, Debug, PartialEq, Eq, Structural)]
pub enum HookPhase {
    /// The call has arrived; where the hook is to run is not yet known.
    Pending,
    /// The hook runs and its output is relayed.
    Streaming,
    /// The stream has ended; nothing more is sent.
    Closed,
}

/// What happens while a hook call is served.
#[derive(Debug)]
pub enum HookEvent {
    /// The place to run the hook in was found.
    ContextResolved,
    /// The place to run the hook in could not be found, for the given cause.
    ContextFailed(String),
    /// The hook wrote a piece of output.
    Output(String),
    /// The hook has written all its output.
    Finished,
    /// The caller has closed the connection.
    Disconnected,
}

/// A `HookEvent` with its text as a sequence of characters.
pub enum HookEventView {
    ContextResolved,
    ContextFailed(Seq<char>),
    Output(Seq<char>),
    Finished,
    Disconnected,
}

impl View for HookEvent {
    type V = HookEventView;

    open spec fn view(&self) -> HookEventView {
        match self {
            HookEvent::ContextResolved => HookEventView::ContextResolved,
            HookEvent::ContextFailed(cause) => HookEventView::ContextFailed(cause@),
            HookEvent::Output(text) => HookEventView::Output(text@),
            HookEvent::Finished => HookEventView::Finished,
            HookEvent::Disconnected => HookEventView::Disconnected,
        }
    }
}

/// The phase that follows `phase` on `event`. A closed call stays closed,
/// and an event that does not belong to the phase changes nothing.
pub open spec fn next_phase(phase: HookPhase, event: HookEventView) -> HookPhase {
    match (phase, event) {
        (HookPhase::Pending, HookEventView::ContextResolved) => HookPhase::Streaming,
        (HookPhase::Pending, HookEventView::ContextFailed(_)) => HookPhase::Closed,
        (HookPhase::Streaming, HookEventView::Finished) => HookPhase::Closed,
        (HookPhase::Pending, HookEventView::Disconnected) => HookPhase::Closed,
        (HookPhase::Streaming, HookEventView::Disconnected) => HookPhase::Closed,
        _ => phase,
    }
}

/// The reply that is sent on `event` in `phase`, if any.
pub open spec fn reply_on(phase: HookPhase, event: HookEventView) -> Option<HookReplyView> {
    match (phase, event) {
        (HookPhase::Pending, HookEventView::ContextFailed(cause)) => Some(
            HookReplyView::OsError(cause),
        ),
        (HookPhase::Streaming, HookEventView::Output(text)) => Some(HookReplyView::Output(text)),
        (HookPhase::Streaming, HookEventView::Finished) => Some(HookReplyView::End),
        _ => None,
    }
}

/// The replies sent while `events` arrive in order, starting in `phase`.
pub open spec fn replies_from(phase: HookPhase, events: Seq<HookEventView>) -> Seq<HookReplyView>
    decreases events.len(),
{
    if events.len() == 0 {
        Seq::empty()
    } else {
        let rest = replies_from(next_phase(phase, events[0]), events.drop_first());
        match reply_on(phase, events[0]) {
            Some(reply) => seq![reply] + rest,
            None => rest,
        }
    }
}

/// The phase reached from `phase` when `events` have arrived in order.
pub open spec fn phase_after(phase: HookPhase, events: Seq<HookEventView>) -> HookPhase
    decreases events.len(),
{
    if events.len() == 0 {
        phase
    } else {
        phase_after(next_phase(phase, events[0]), events.drop_first())
    }
}

/// The replies to a call whose hook ran and wrote `chunks`: each chunk in a
/// reply that announces more, then the reply that ends the stream.
pub open spec fn relayed(chunks: Seq<Seq<char>>) -> Seq<HookReplyView> {
    chunks.map_values(|text: Seq<char>| HookReplyView::Output(text)).push(HookReplyView::End)
}

/// The replies to a call whose hook could not be started: the error, and
/// nothing else.
pub open spec fn refused(cause: Seq<char>) -> Seq<HookReplyView> {
    seq![HookReplyView::OsError(cause)]
}

/// What happens while a hook runs and writes `chunks`, from the moment its
/// place is known.
pub open spec fn output_events(chunks: Seq<Seq<char>>) -> Seq<HookEventView> {
    chunks.map_values(|text: Seq<char>| HookEventView::Output(text)).push(HookEventView::Finished)
}

/// A closed call sends nothing, whatever happens, and stays closed.
pub proof fn lemma_closed_is_silent(events: Seq<HookEventView>)
    ensures
        replies_from(HookPhase::Closed, events) == Seq::<HookReplyView>::empty(),
        phase_after(HookPhase::Closed, events) == HookPhase::Closed,
    decreases events.len(),
{
    if events.len() > 0 {
        lemma_closed_is_silent(events.drop_first());
    }
}

/// The shape of every stream: each reply but the last announces more; a
/// reply that announces no more is the last and leaves the call closed; and
/// an error is sent only where the hook could not be started, before any
/// output.
pub proof fn lemma_stream_shape(phase: HookPhase, events: Seq<HookEventView>)
    ensures
        forall|i: int|
            0 <= i < replies_from(phase, events).len() - 1 ==> (#[trigger] replies_from(
                phase,
                events,
            )[i]).continues(),
        forall|i: int|
            0 <= i < replies_from(phase, events).len() && !(#[trigger] replies_from(
                phase,
                events,
            )[i]).continues() ==> phase_after(phase, events) == HookPhase::Closed,
        forall|i: int|
            0 <= i < replies_from(phase, events).len() && (#[trigger] replies_from(
                phase,
                events,
            )[i]) is OsError ==> phase == HookPhase::Pending && replies_from(phase, events).len()
                == 1,
    decreases events.len(),
{
    if events.len() > 0 {
        let next = next_phase(phase, events[0]);
        let rest = replies_from(next, events.drop_first());
        lemma_stream_shape(next, events.drop_first());
        lemma_closed_is_silent(events.drop_first());
        match reply_on(phase, events[0]) {
            Some(reply) => {
                let all = replies_from(phase, events);
                assert forall|i: int| 0 < i < all.len() implies all[i] == rest[i - 1] by {}
            },
            None => {},
        }
    }
}

/// A hook that starts, writes its output and finishes is answered by each
/// piece of output in order, then the reply that ends the stream.
pub proof fn lemma_stream_of_output(chunks: Seq<Seq<char>>)
    ensures
        replies_from(
            HookPhase::Pending,
            seq![HookEventView::ContextResolved] + output_events(chunks),
        ) == relayed(chunks),
        replies_from(HookPhase::Streaming, output_events(chunks)) == relayed(chunks),
    decreases chunks.len(),
{
    let events = output_events(chunks);
    let started = seq![HookEventView::ContextResolved] + events;
    assert(started.drop_first() =~= events);
    if chunks.len() == 0 {
        assert(replies_from(HookPhase::Closed, events.drop_first()) =~= Seq::empty());
    } else {
        lemma_stream_of_output(chunks.drop_first());
        assert(events.drop_first() =~= output_events(chunks.drop_first()));
    }
    assert(replies_from(HookPhase::Streaming, events) =~= relayed(chunks));
}

/// A hook that cannot be started is answered by the error alone, whatever
/// happens afterwards.
pub proof fn lemma_stream_of_failure(cause: Seq<char>, later: Seq<HookEventView>)
    ensures
        replies_from(HookPhase::Pending, seq![HookEventView::ContextFailed(cause)] + later)
            == refused(cause),
{
    let events = seq![HookEventView::ContextFailed(cause)] + later;
    assert(events.drop_first() =~= later);
    lemma_closed_is_silent(later);
}

/// Once the caller has closed the connection, nothing more is sent.
pub proof fn lemma_disconnect_ends_stream(phase: HookPhase, later: Seq<HookEventView>)
    ensures
        replies_from(phase, seq![HookEventView::Disconnected] + later) == Seq::<
            HookReplyView,
        >::empty(),
{
    let events = seq![HookEventView::Disconnected] + later;
    assert(events.drop_first() =~= later);
    lemma_closed_is_silent(later);
}

/// A hook call that is being served.
#[derive(Debug)]
pub struct HookCall {
    hook_name: String,
    phase: HookPhase,
}

impl HookCall {
    /// The name of the hook that the call triggers.
    pub closed spec fn name(&self) -> Seq<char> {
        self.hook_name@
    }

    /// How far the call has come.
    pub closed spec fn spec_phase(&self) -> HookPhase {
        self.phase
    }

    /// A call for the hook `hook_name` that has just arrived.
    pub fn new(hook_name: String) -> (r: Self)
        ensures
            r.name() == hook_name@,
            r.spec_phase() == HookPhase::Pending,
    {
        HookCall { hook_name, phase: HookPhase::Pending }
    }

    /// The name of the hook that the call triggers.
    pub fn hook_name(&self) -> (r: &String)
        ensures
            r@ == self.name(),
    {
        &self.hook_name
    }

    /// How far the call has come.
    #[verifier::when_used_as_spec(spec_phase)]
    pub fn phase(&self) -> (r: HookPhase)
        ensures
            r == self.spec_phase(),
    {
        self.phase
    }

    /// Takes one event and says what is sent to the caller in answer.
    pub fn on_event(&mut self, event: HookEvent) -> (reply: Option<HookReply>)
        ensures
            final(self).name() == old(self).name(),
            final(self).spec_phase() == next_phase(old(self).spec_phase(), event@),
            reply.deep_view() == reply_on(old(self).spec_phase(), event@),
    {
        match self.phase {
            HookPhase::Pending => match event {
                HookEvent::ContextResolved => {
                    self.phase = HookPhase::Streaming;
                    None
                },
                HookEvent::ContextFailed(cause) => {
                    self.phase = HookPhase::Closed;
                    Some(HookReply::OsError(cause))
                },
                HookEvent::Disconnected => {
                    self.phase = HookPhase::Closed;
                    None
                },
                _ => None,
            },
            HookPhase::Streaming => match event {
                HookEvent::Output(text) => Some(HookReply::Output(text)),
                HookEvent::Finished => {
                    self.phase = HookPhase::Closed;
                    Some(HookReply::End)
                },
                HookEvent::Disconnected => {
                    self.phase = HookPhase::Closed;
                    None
                },
                _ => None,
            },
            HookPhase::Closed => None,
        }
    }
}

} // verus!
