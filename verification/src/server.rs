//! The ingress side of the broker: who is let in, and what becomes of what a client sends.
//!
//! [`AcceptLoop`] decides when the next client may be accepted and keeps the number of clients
//! served within its bound. A [`Connection`] takes the frames of a client off its buffer and
//! passes them on to the broadcast channel; [`handle_read`] is one turn of its loop.

use bytes::BytesMut;
use tokio::sync::broadcast::Sender;
use tokio_util::sync::CancellationToken;
use vstd::prelude::*;

use crate::buffer::{buffer_content, bytes_content};
use crate::channel::{
    answers_in, asks_after_each_frame, law_log_is_made_of_pairs, lemma_log_grows, sent_in, Entry,
    Link,
};
use crate::frame::{Frame, FrameCodec, FrameError, DEFAULT_MAX_FRAME_SIZE};
use crate::wire::{
    after_frame, encoded, encoded_all, frames_in, law_cutting_makes_no_difference,
    law_frame_reads_back, law_reading_inverts_writing, law_stream_is_accounted_for, leftover,
    read_frame, sendable, Reading,
};

verus! {

/// What the accept loop wakes up for.
#[derive(Debug, Clone, Copy, PartialEq, Eq, Structural)]
pub enum AcceptEvent {
    /// The broker is shutting down.
    Cancelled,
    /// A client was accepted.
    Accepted,
    /// Accepting a client failed.
    AcceptFailed,
    /// A client that was being served is gone.
    ConnectionEnded,
}

/// What the accept loop does about an event.
#[derive(Debug, Clone, Copy, PartialEq, Eq, Structural)]
pub enum AcceptAction {
    /// Leave the loop and let go of the listener.
    Stop,
    /// Serve the client in a task of its own.
    Serve,
    /// Report the failure and go on.
    ReportFailure,
    /// Go on.
    Resume,
}

/// Where the accept loop stands.
pub struct AcceptState {
    /// How many clients may be served at once.
    pub max: nat,
    /// How many clients are being served.
    pub active: nat,
    /// Whether the loop is still running.
    pub open: bool,
}

impl AcceptState {
    /// The state of a loop that starts, with nobody served yet.
    pub open spec fn start(max: nat) -> AcceptState {
        AcceptState { max, active: 0, open: true }
    }

    /// Whether the loop may accept a client now.
    pub open spec fn accepting(self) -> bool {
        self.open && self.active < self.max
    }

    /// Whether an event can happen: a client comes in only where the loop accepts one, and a
    /// client is gone only where one was served.
    pub open spec fn allows(self, event: AcceptEvent) -> bool {
        match event {
            AcceptEvent::Accepted => self.accepting(),
            AcceptEvent::ConnectionEnded => self.active > 0,
            _ => true,
        }
    }

    /// The state that an event leads to.
    pub open spec fn after(self, event: AcceptEvent) -> AcceptState {
        match event {
            AcceptEvent::Cancelled => AcceptState { open: false, ..self },
            AcceptEvent::Accepted => AcceptState { active: self.active + 1, ..self },
            AcceptEvent::AcceptFailed => self,
            AcceptEvent::ConnectionEnded => AcceptState { active: (self.active - 1) as nat, ..self
            },
        }
    }

    /// Whether a series of events can happen, one after the other.
    pub open spec fn allows_all(self, events: Seq<AcceptEvent>) -> bool
        decreases events.len(),
    {
        events.len() == 0 || self.allows(events[0]) && self.after(events[0]).allows_all(
            events.skip(1),
        )
    }

    /// The state that a series of events leads to.
    pub open spec fn after_all(self, events: Seq<AcceptEvent>) -> AcceptState
        decreases events.len(),
    {
        if events.len() == 0 {
            self
        } else {
            self.after(events[0]).after_all(events.skip(1))
        }
    }
}

/// How often an event occurs in a series.
pub open spec fn occurrences(events: Seq<AcceptEvent>, event: AcceptEvent) -> nat
    decreases events.len(),
{
    if events.len() == 0 {
        0
    } else {
        occurrences(events.skip(1), event) + if events[0] == event {
            1nat
        } else {
            0nat
        }
    }
}

/// The decisions of the TCP accept loop. It serves no more than a fixed number of clients at
/// once; while all places are taken it accepts nobody, and further clients wait in the backlog
/// of the operating system.
#[derive(Debug)]
pub struct AcceptLoop {
    max_connections: usize,
    active: usize,
    open: bool,
}

impl View for AcceptLoop {
    type V = AcceptState;

    closed spec fn view(&self) -> AcceptState {
        AcceptState { max: self.max_connections as nat, active: self.active as nat, open: self.open }
    }
}

impl AcceptLoop {
    #[verifier::type_invariant]
    spec fn within_bound(self) -> bool {
        self.active <= self.max_connections
    }

    /// A loop that serves up to `max_connections` clients at once.
    pub fn new(max_connections: usize) -> (accept_loop: Self)
        ensures
            accept_loop@ == AcceptState::start(max_connections as nat),
            accept_loop@ == (AcceptState { max: max_connections as nat, active: 0, open: true }),
    {
        AcceptLoop { max_connections, active: 0, open: true }
    }

    /// Whether a client may be accepted now.
    pub fn accepting(&self) -> (accepting: bool)
        ensures
            accepting == self@.accepting(),
            accepting <==> self@.open && self@.active < self@.max,
    {
        self.open && self.active < self.max_connections
    }

    /// How many clients are being served: never more than the bound.
    pub fn active_connections(&self) -> (active: usize)
        ensures
            active == self@.active,
            active <= self@.max,
    {
        proof {
            use_type_invariant(self);
        }
        self.active
    }

    /// Takes note of an event and decides what the loop does about it.
    pub fn on_event(&mut self, event: AcceptEvent) -> (action: AcceptAction)
        requires
            old(self)@.allows(event),
        ensures
            final(self)@ == old(self)@.after(event),
            final(self)@.active <= final(self)@.max,
            final(self)@.max == old(self)@.max,
            final(self)@.open <==> old(self)@.open && event != AcceptEvent::Cancelled,
            final(self)@.active == old(self)@.active + (match event {
                AcceptEvent::Accepted => 1int,
                AcceptEvent::ConnectionEnded => -1,
                _ => 0,
            }),
            action == (match event {
                AcceptEvent::Cancelled => AcceptAction::Stop,
                AcceptEvent::Accepted => AcceptAction::Serve,
                AcceptEvent::AcceptFailed => AcceptAction::ReportFailure,
                AcceptEvent::ConnectionEnded => AcceptAction::Resume,
            }),
    {
        proof {
            use_type_invariant(&*self);
        }
        match event {
            AcceptEvent::Cancelled => {
                self.open = false;
                AcceptAction::Stop
            },
            AcceptEvent::Accepted => {
                self.active = self.active + 1;
                AcceptAction::Serve
            },
            AcceptEvent::AcceptFailed => AcceptAction::ReportFailure,
            AcceptEvent::ConnectionEnded => {
                self.active = self.active - 1;
                AcceptAction::Resume
            },
        }
    }
}

/// A loop starts open and with nobody served. It may accept a client just where it is open and a
/// place is free; a client can be gone just where one was served; cancellation, and a failure to
/// accept, can come at any time.
pub proof fn law_free_place_lets_a_client_in(max: nat, state: AcceptState)
    ensures
        AcceptState::start(max).open,
        AcceptState::start(max).active == 0,
        AcceptState::start(max).max == max,
        state.accepting() <==> state.open && state.active < state.max,
        state.allows(AcceptEvent::Accepted) <==> state.open && state.active < state.max,
        state.allows(AcceptEvent::ConnectionEnded) <==> state.active > 0,
        state.allows(AcceptEvent::Cancelled),
        state.allows(AcceptEvent::AcceptFailed),
{
}

/// Only cancellation closes the loop, and it always does; no event opens it again. No event moves
/// the bound.
pub proof fn law_only_cancellation_closes_the_loop(state: AcceptState, event: AcceptEvent)
    ensures
        event != AcceptEvent::Cancelled ==> state.after(event).open == state.open,
        !state.after(AcceptEvent::Cancelled).open,
        state.after(event).max == state.max,
{
}

/// A client accepted takes one place and a client gone gives one back, so the two undo each other;
/// no other event changes how many places are taken.
pub proof fn law_places_are_taken_and_given_back(state: AcceptState, event: AcceptEvent)
    requires
        state.allows(event),
    ensures
        event == AcceptEvent::Accepted ==> state.after(event).active == state.active + 1,
        event == AcceptEvent::ConnectionEnded ==> state.after(event).active == state.active - 1,
        event != AcceptEvent::Accepted && event != AcceptEvent::ConnectionEnded ==> state.after(
            event,
        ).active == state.active,
        state.after(AcceptEvent::Accepted).after(AcceptEvent::ConnectionEnded) == state,
{
}

/// As long as the broker is not shutting down the loop stays open, whatever else happens and in
/// whatever order: it accepts a client whenever a place is free.
pub proof fn law_loop_stays_open_until_cancelled(max: nat, events: Seq<AcceptEvent>)
    requires
        AcceptState::start(max).allows_all(events),
        !events.contains(AcceptEvent::Cancelled),
    ensures
        AcceptState::start(max).after_all(events).open,
        AcceptState::start(max).after_all(events).allows(AcceptEvent::Accepted)
            <==> AcceptState::start(max).after_all(events).active < max,
{
    assert forall|i: int| 0 <= i < events.len() implies #[trigger] events[i]
        != AcceptEvent::Cancelled by {
        if events[i] == AcceptEvent::Cancelled {
            assert(events.contains(AcceptEvent::Cancelled));
        }
    }
    lemma_stays_open(AcceptState::start(max), events);
}

proof fn lemma_stays_open(state: AcceptState, events: Seq<AcceptEvent>)
    requires
        forall|i: int|
            0 <= i < events.len() ==> #[trigger] events[i] != AcceptEvent::Cancelled,
    ensures
        state.after_all(events).open == state.open,
        state.after_all(events).max == state.max,
    decreases events.len(),
{
    if events.len() > 0 {
        let rest = events.skip(1);
        assert(events[0] != AcceptEvent::Cancelled);
        assert forall|i: int| 0 <= i < rest.len() implies #[trigger] rest[i]
            != AcceptEvent::Cancelled by {
            assert(rest[i] == events[i + 1]);
        }
        lemma_stays_open(state.after(events[0]), rest);
    }
}

/// A series of events is taken one by one: each must be allowed in the state that those before it
/// have led to, and leads on from there.
pub proof fn law_events_are_taken_one_by_one(
    state: AcceptState,
    event: AcceptEvent,
    rest: Seq<AcceptEvent>,
)
    ensures
        state.allows_all(Seq::empty()),
        state.after_all(Seq::empty()) == state,
        state.allows_all(seq![event] + rest) <==> state.allows(event) && state.after(
            event,
        ).allows_all(rest),
        state.after_all(seq![event] + rest) == state.after(event).after_all(rest),
        occurrences(Seq::empty(), event) == 0,
        occurrences(seq![event] + rest, event) == occurrences(rest, event) + 1,
        forall|other: AcceptEvent|
            other != event ==> #[trigger] occurrences(seq![event] + rest, other) == occurrences(
                rest,
                other,
            ),
{
    assert((seq![event] + rest).skip(1) =~= rest);
}

/// The number of clients that are being served, that is of those accepted and not yet gone,
/// never exceeds the bound, whatever happens and in whatever order.
pub proof fn law_connections_are_bounded(max: nat, events: Seq<AcceptEvent>)
    requires
        AcceptState::start(max).allows_all(events),
    ensures
        AcceptState::start(max).after_all(events).max == max,
        AcceptState::start(max).after_all(events).active <= max,
        AcceptState::start(max).after_all(events).active == occurrences(
            events,
            AcceptEvent::Accepted,
        ) - occurrences(events, AcceptEvent::ConnectionEnded),
{
    lemma_active_counts_events(AcceptState::start(max), events);
}

proof fn lemma_active_counts_events(state: AcceptState, events: Seq<AcceptEvent>)
    requires
        state.active <= state.max,
        state.allows_all(events),
    ensures
        state.after_all(events).max == state.max,
        state.after_all(events).active <= state.max,
        state.after_all(events).active == state.active + occurrences(events, AcceptEvent::Accepted)
            - occurrences(events, AcceptEvent::ConnectionEnded),
    decreases events.len(),
{
    if events.len() > 0 {
        lemma_active_counts_events(state.after(events[0]), events.skip(1));
    }
}

/// A full loop accepts nobody until a client is gone, and then it does again.
pub proof fn law_full_loop_waits_for_a_place(state: AcceptState)
    requires
        state.open,
        state.active == state.max,
        state.max > 0,
    ensures
        !state.allows(AcceptEvent::Accepted),
        state.allows(AcceptEvent::ConnectionEnded),
        state.after(AcceptEvent::ConnectionEnded).allows(AcceptEvent::Accepted),
{
}

/// Once the broker is shutting down nobody is accepted any more.
pub proof fn law_nobody_accepted_after_cancellation(
    state: AcceptState,
    events: Seq<AcceptEvent>,
    cancelled: int,
    later: int,
)
    requires
        state.allows_all(events),
        0 <= cancelled < later < events.len(),
        events[cancelled] == AcceptEvent::Cancelled,
    ensures
        events[later] != AcceptEvent::Accepted,
    decreases events.len(),
{
    let rest = events.skip(1);
    if cancelled == 0 {
        lemma_closed_loop_accepts_nobody(state.after(events[0]), rest, later - 1);
    } else {
        assert(rest[cancelled - 1] == events[cancelled]);
        law_nobody_accepted_after_cancellation(
            state.after(events[0]),
            rest,
            cancelled - 1,
            later - 1,
        );
    }
    assert(rest[later - 1] == events[later]);
}

proof fn lemma_closed_loop_accepts_nobody(state: AcceptState, events: Seq<AcceptEvent>, i: int)
    requires
        !state.open,
        state.allows_all(events),
        0 <= i < events.len(),
    ensures
        events[i] != AcceptEvent::Accepted,
    decreases events.len(),
{
    if i > 0 {
        let rest = events.skip(1);
        lemma_closed_loop_accepts_nobody(state.after(events[0]), rest, i - 1);
        assert(rest[i - 1] == events[i]);
    }
}

/// What waiting for a client's next frame came to.
#[derive(Debug)]
pub enum ReadOutcome {
    /// A whole frame arrived.
    Received(Frame),
    /// The bytes that arrived are not a frame, or the connection broke.
    Failed,
    /// The client closed the connection.
    Disconnected,
    /// Nothing arrived in time.
    TimedOut,
}

/// Why a connection ends.
#[derive(Debug, Clone, Copy, PartialEq, Eq, Structural)]
pub enum CloseReason {
    DecodeError,
    Disconnected,
    IdleTimeout,
    Shutdown,
}

/// What a connection does about the outcome of a read.
#[derive(Debug)]
pub enum ConnectionStep {
    /// Pass the frame on to the broadcast channel.
    Forward(Frame),
    /// End the connection.
    Close(CloseReason),
}

/// What a connection does about the outcome of a read.
pub open spec fn step_on(outcome: ReadOutcome) -> ConnectionStep {
    match outcome {
        ReadOutcome::Received(frame) => ConnectionStep::Forward(frame),
        ReadOutcome::Failed => ConnectionStep::Close(CloseReason::DecodeError),
        ReadOutcome::Disconnected => ConnectionStep::Close(CloseReason::Disconnected),
        ReadOutcome::TimedOut => ConnectionStep::Close(CloseReason::IdleTimeout),
    }
}

/// Why a connection ends once it has passed a frame on: shutdown, or not at all.
pub open spec fn close_after_forward(cancelled: bool) -> Option<CloseReason> {
    if cancelled {
        Some(CloseReason::Shutdown)
    } else {
        None
    }
}

/// One turn of a connection's loop: what the read came to, and whether the broker
/// is shutting down after it.
pub struct Turn {
    pub outcome: ReadOutcome,
    pub cancelled: bool,
}

/// Why a turn ends the connection, if it does.
pub open spec fn close_after(turn: Turn) -> Option<CloseReason> {
    match step_on(turn.outcome) {
        ConnectionStep::Forward(_) => close_after_forward(turn.cancelled),
        ConnectionStep::Close(reason) => Some(reason),
    }
}

/// A frame received ends a connection just where the token says, after it, that the broker is
/// shutting down, and then for that reason; what the frame holds has no say. Where the token says
/// no, the connection goes on.
pub proof fn law_token_decides_after_a_frame(frame: Frame, cancelled: bool)
    ensures
        step_on(ReadOutcome::Received(frame)) == ConnectionStep::Forward(frame),
        cancelled ==> close_after(Turn { outcome: ReadOutcome::Received(frame), cancelled }) == Some(
            CloseReason::Shutdown,
        ),
        !cancelled ==> close_after(Turn { outcome: ReadOutcome::Received(frame), cancelled }) is None,
        cancelled ==> close_after_forward(cancelled) == Some(CloseReason::Shutdown),
        !cancelled ==> close_after_forward(cancelled) is None,
{
}

/// Anything but a frame ends a connection, whatever the token says, and each outcome for a reason
/// of its own: bytes that are no frame, the client gone, and nothing in time.
pub proof fn law_anything_but_a_frame_ends_a_connection(turn: Turn)
    requires
        !(turn.outcome is Received),
    ensures
        close_after(turn) is Some,
        step_on(turn.outcome) is Close,
        close_after(turn) == Some(step_on(turn.outcome)->Close_0),
        close_after(turn) == Some(CloseReason::DecodeError) <==> turn.outcome is Failed,
        close_after(turn) == Some(CloseReason::Disconnected) <==> turn.outcome is Disconnected,
        close_after(turn) == Some(CloseReason::IdleTimeout) <==> turn.outcome is TimedOut,
{
}

/// Decides what a connection does about the outcome of a read: a frame is passed on, and
/// anything else ends the connection.
pub fn on_read(outcome: ReadOutcome) -> (step: ConnectionStep)
    ensures
        step == step_on(outcome),
        step == (match outcome {
            ReadOutcome::Received(frame) => ConnectionStep::Forward(frame),
            ReadOutcome::Failed => ConnectionStep::Close(CloseReason::DecodeError),
            ReadOutcome::Disconnected => ConnectionStep::Close(CloseReason::Disconnected),
            ReadOutcome::TimedOut => ConnectionStep::Close(CloseReason::IdleTimeout),
        }),
{
    match outcome {
        ReadOutcome::Received(frame) => ConnectionStep::Forward(frame),
        ReadOutcome::Failed => ConnectionStep::Close(CloseReason::DecodeError),
        ReadOutcome::Disconnected => ConnectionStep::Close(CloseReason::Disconnected),
        ReadOutcome::TimedOut => ConnectionStep::Close(CloseReason::IdleTimeout),
    }
}

/// Decides, once a frame has been passed on, whether the connection ends because the broker is
/// shutting down.
pub fn after_forward(cancelled: bool) -> (close: Option<CloseReason>)
    ensures
        close == close_after_forward(cancelled),
        cancelled ==> close == Some(CloseReason::Shutdown),
        !cancelled ==> close is None,
{
    if cancelled {
        Some(CloseReason::Shutdown)
    } else {
        None
    }
}

/// One turn of a connection's loop. A frame goes to the broadcast channel, once, whether or not
/// anybody listens there; the token is asked after that, once, never before the frame is sent, and
/// its answer decides whether the connection goes on. Any other outcome ends the connection, with
/// nothing sent and the token not asked. The answer is why the connection ends, or `None` where
/// it goes on.
pub fn handle_read(outcome: ReadOutcome, link: &mut Link) -> (close: Option<CloseReason>)
    ensures
        final(link).channel() == old(link).channel(),
        final(link).token() == old(link).token(),
        match step_on(outcome) {
            ConnectionStep::Forward(frame) => {
                let cancelled = answers_in(final(link).log()).last();
                &&& final(link).log() == old(link).log().push(Entry::Sent(frame@)).push(
                    Entry::Asked(cancelled),
                )
                &&& close == close_after(Turn { outcome, cancelled })
            },
            ConnectionStep::Close(reason) => {
                &&& final(link).log() == old(link).log()
                &&& close == Some(reason)
            },
        },
        match outcome {
            ReadOutcome::Received(frame) => {
                let before = old(link).log();
                let log = final(link).log();
                &&& log.len() == before.len() + 2
                &&& log.take(before.len() as int) == before
                &&& log[before.len() as int] == Entry::Sent(bytes_content(frame.payload))
                &&& log.last() == Entry::Asked(true) && close == Some(CloseReason::Shutdown)
                    || log.last() == Entry::Asked(false) && close is None
            },
            ReadOutcome::Failed => {
                &&& final(link).log() == old(link).log()
                &&& close == Some(CloseReason::DecodeError)
            },
            ReadOutcome::Disconnected => {
                &&& final(link).log() == old(link).log()
                &&& close == Some(CloseReason::Disconnected)
            },
            ReadOutcome::TimedOut => {
                &&& final(link).log() == old(link).log()
                &&& close == Some(CloseReason::IdleTimeout)
            },
        },
{
    match on_read(outcome) {
        ConnectionStep::Forward(frame) => {
            let ghost payload = frame@;
            let _ = link.send(frame);
            let cancelled = link.is_cancelled();
            proof {
                lemma_log_grows(old(link).log(), payload, cancelled);
            }
            after_forward(cancelled)
        },
        ConnectionStep::Close(reason) => Some(reason),
    }
}

/// The payloads that a connection passes on in a series of turns: it leaves off after the turn
/// that ends it.
pub open spec fn forwarded(turns: Seq<Turn>) -> Seq<Seq<u8>>
    decreases turns.len(),
{
    if turns.len() == 0 {
        Seq::empty()
    } else {
        let first = match step_on(turns[0].outcome) {
            ConnectionStep::Forward(frame) => seq![frame@],
            ConnectionStep::Close(_) => Seq::empty(),
        };
        if close_after(turns[0]) is Some {
            first
        } else {
            first + forwarded(turns.skip(1))
        }
    }
}

/// Why a series of turns ended the connection, if it did: only the last one can have.
pub open spec fn closing(turns: Seq<Turn>) -> Option<CloseReason> {
    if turns.len() == 0 {
        None
    } else {
        close_after(turns.last())
    }
}

/// Whether every turn but the last let the connection go on.
pub open spec fn went_on(turns: Seq<Turn>) -> bool {
    forall|i: int| 0 <= i < turns.len() - 1 ==> close_after(#[trigger] turns[i]) is None
}

/// Whether the answers of the token are those that a series of turns went by: one for each frame
/// received, in order, and none for the turn that ended the connection otherwise.
pub open spec fn went_by(turns: Seq<Turn>, answers: Seq<bool>) -> bool {
    &&& answers.len() <= turns.len() <= answers.len() + 1
    &&& turns.len() > answers.len() ==> !(turns.last().outcome is Received)
    &&& forall|i: int|
        #![trigger turns[i]]
        #![trigger answers[i]]
        0 <= i < answers.len() ==> turns[i].outcome is Received && turns[i].cancelled == answers[i]
}

proof fn lemma_forwarded_push(turns: Seq<Turn>, last: Turn)
    requires
        forall|i: int| 0 <= i < turns.len() ==> close_after(#[trigger] turns[i]) is None,
    ensures
        forwarded(turns.push(last)) == match last.outcome {
            ReadOutcome::Received(frame) => forwarded(turns).push(frame@),
            _ => forwarded(turns),
        },
    decreases turns.len(),
{
    let all = turns.push(last);
    if turns.len() > 0 {
        let rest = turns.skip(1);
        assert(close_after(turns[0]) is None);
        assert forall|i: int| 0 <= i < rest.len() implies close_after(
            #[trigger] rest[i],
        ) is None by {
            assert(rest[i] == turns[i + 1]);
        }
        lemma_forwarded_push(rest, last);
        assert(all.skip(1) =~= rest.push(last));
    } else {
        assert(forwarded(all.skip(1)) =~= Seq::empty());
    }
    assert(forwarded(all) =~= match last.outcome {
        ReadOutcome::Received(frame) => forwarded(turns).push(frame@),
        _ => forwarded(turns),
    });
}

/// What came of a frame that was taken off the buffer.
#[derive(Debug, Clone, Copy, PartialEq, Eq, Structural)]
pub struct Handled {
    /// Why the connection ends after it, if it does.
    pub close: Option<CloseReason>,
}

/// A client's connection: the codec that cuts its bytes into frames, the channel that the frames
/// go to and the token that ends it.
pub struct Connection {
    codec: FrameCodec,
    link: Link,
    close: Option<CloseReason>,
    consumed: Ghost<Seq<u8>>,
    turns: Ghost<Seq<Turn>>,
}

impl Connection {
    /// The broadcast channel that the connection feeds.
    pub closed spec fn channel(&self) -> Sender<Frame> {
        self.link.channel()
    }

    /// The cancellation token that the connection obeys.
    pub closed spec fn token(&self) -> CancellationToken {
        self.link.token()
    }

    /// What the connection has done with the channel and the token, in order.
    pub closed spec fn log(&self) -> Seq<Entry> {
        self.link.log()
    }

    /// The payloads that the connection has handed to the broadcast channel, in order.
    pub open spec fn sent(&self) -> Seq<Seq<u8>> {
        sent_in(self.log())
    }

    /// The answers that the token has given to the connection, in order.
    pub open spec fn answers(&self) -> Seq<bool> {
        answers_in(self.log())
    }

    /// The bytes that the connection has taken off its buffer, in order.
    pub closed spec fn consumed(&self) -> Seq<u8> {
        self.consumed@
    }

    /// The turns that the connection has been through.
    pub closed spec fn turns(&self) -> Seq<Turn> {
        self.turns@
    }

    /// Why the connection has ended, if it has.
    pub closed spec fn closed(&self) -> Option<CloseReason> {
        self.close
    }

    /// The longest payload that the connection lets through.
    pub closed spec fn limit(&self) -> nat {
        self.codec.limit()
    }

    /// What holds of a connection at every moment. The payloads sent are those of the whole
    /// frames in the bytes taken, and no byte was taken that is not part of one; they are also
    /// what its turns account for. The token has been asked once after each of them and at no
    /// other time, and its answers are those that the turns went by.
    pub open spec fn wf(&self) -> bool {
        &&& self.limit() == DEFAULT_MAX_FRAME_SIZE
        &&& self.sent() == frames_in(self.limit(), self.consumed())
        &&& leftover(self.limit(), self.consumed()) == Seq::<u8>::empty()
        &&& self.sent() == forwarded(self.turns())
        &&& self.closed() == closing(self.turns())
        &&& went_on(self.turns())
        &&& asks_after_each_frame(self.log())
        &&& went_by(self.turns(), self.answers())
    }

    /// A connection that feeds `tx` and obeys `cancel`, with the codec's default limit.
    pub fn new(tx: Sender<Frame>, cancel: CancellationToken) -> (connection: Self)
        ensures
            connection.wf(),
            connection.channel() == tx,
            connection.token() == cancel,
            connection.log() == Seq::<Entry>::empty(),
            connection.consumed() == Seq::<u8>::empty(),
            connection.turns() == Seq::<Turn>::empty(),
            connection.closed() is None,
    {
        Connection {
            codec: FrameCodec::default(),
            link: Link::new(tx, cancel),
            close: None,
            consumed: Ghost(Seq::empty()),
            turns: Ghost(Seq::empty()),
        }
    }

    /// Whether the connection goes on.
    pub fn is_open(&self) -> (open: bool)
        ensures
            open == (self.closed() is None),
    {
        self.close.is_none()
    }

    /// Takes one frame off the front of `src`, passes it on to the broadcast channel and then
    /// asks the token.
    ///
    /// Where no whole frame has arrived, or the header declares a payload over the limit, nothing
    /// is taken and nothing is sent.
    pub fn receive(&mut self, src: &mut BytesMut) -> (received: Result<
        Option<Handled>,
        FrameError,
    >)
        requires
            old(self).wf(),
            old(self).closed() is None,
        ensures
            final(self).wf(),
            final(self).channel() == old(self).channel(),
            final(self).token() == old(self).token(),
            match read_frame(DEFAULT_MAX_FRAME_SIZE as nat, buffer_content(*old(src))) {
                Reading::Incomplete => {
                    &&& received == Ok::<Option<Handled>, FrameError>(None)
                    &&& buffer_content(*final(src)) == buffer_content(*old(src))
                    &&& *final(self) == *old(self)
                },
                Reading::Oversized { declared } => {
                    &&& received == Err::<Option<Handled>, FrameError>(
                        FrameError::DeclaredLength {
                            payload_len: declared as usize,
                            max_size: DEFAULT_MAX_FRAME_SIZE,
                        },
                    )
                    &&& declared <= usize::MAX
                    &&& buffer_content(*final(src)) == buffer_content(*old(src))
                    &&& *final(self) == *old(self)
                },
                Reading::Complete { payload } => {
                    let turn = final(self).turns().last();
                    &&& received == Ok::<Option<Handled>, FrameError>(
                        Some(Handled { close: close_after(turn) }),
                    )
                    &&& buffer_content(*final(src)) == after_frame(
                        buffer_content(*old(src)),
                        payload,
                    )
                    &&& turn.outcome matches ReadOutcome::Received(frame) && frame@ == payload
                    &&& final(self).turns() == old(self).turns().push(turn)
                    &&& final(self).log() == old(self).log().push(Entry::Sent(payload)).push(
                        Entry::Asked(turn.cancelled),
                    )
                    &&& final(self).sent() == old(self).sent().push(payload)
                    &&& final(self).answers() == old(self).answers().push(turn.cancelled)
                    &&& final(self).consumed() == old(self).consumed() + encoded(payload)
                    &&& final(self).closed() == close_after(turn)
                },
            },
            received matches Ok(Some(handled)) ==> {
                let bytes = buffer_content(*old(src));
                let log = final(self).log();
                &&& log.len() == old(self).log().len() + 2
                &&& log.take(old(self).log().len() as int) == old(self).log()
                &&& log[old(self).log().len() as int] matches Entry::Sent(payload)
                &&& bytes.len() >= 4 + payload.len()
                &&& payload.len() == bytes[0] * 0x100_0000 + bytes[1] * 0x1_0000 + bytes[2] * 0x100
                    + bytes[3]
                &&& payload.len() <= 8_388_608
                &&& bytes == bytes.take(4) + payload + buffer_content(*final(src))
                &&& log.last() == Entry::Asked(true) && handled.close == Some(CloseReason::Shutdown)
                    || log.last() == Entry::Asked(false) && handled.close is None
                &&& final(self).closed() == handled.close
            },
            !(received matches Ok(Some(_))) ==> *final(self) == *old(self) && buffer_content(
                *final(src),
            ) == buffer_content(*old(src)),
    {
        match self.codec.decode(src) {
            Err(err) => Err(err),
            Ok(None) => Ok(None),
            Ok(Some(frame)) => {
                let ghost limit = old(self).limit();
                let ghost outcome = ReadOutcome::Received(frame);
                proof {
                    law_reading_inverts_writing(limit, buffer_content(*old(src)));
                    lemma_consumed_grows(limit, self.consumed@, frame@);
                    self.consumed@ = self.consumed@ + encoded(frame@);
                }
                let close = handle_read(ReadOutcome::Received(frame), &mut self.link);
                self.close = close;
                proof {
                    let turn = Turn { outcome, cancelled: self.answers().last() };
                    let before = self.turns@;
                    lemma_forwarded_push(before, turn);
                    self.turns@ = before.push(turn);
                    lemma_log_grows(old(self).log(), outcome->Received_0@, turn.cancelled);
                }
                Ok(Some(Handled { close }))
            },
        }
    }

    /// Ends the connection, for want of a further frame: nothing is sent and the token is not
    /// asked.
    pub fn end(&mut self, outcome: ReadOutcome) -> (reason: CloseReason)
        requires
            old(self).wf(),
            old(self).closed() is None,
            !(outcome is Received),
        ensures
            final(self).wf(),
            final(self).channel() == old(self).channel(),
            final(self).token() == old(self).token(),
            step_on(outcome) == ConnectionStep::Close(reason),
            reason == CloseReason::DecodeError <==> outcome is Failed,
            reason == CloseReason::Disconnected <==> outcome is Disconnected,
            reason == CloseReason::IdleTimeout <==> outcome is TimedOut,
            final(self).closed() == Some(reason),
            final(self).turns() == old(self).turns().push(Turn { outcome, cancelled: false }),
            final(self).log() == old(self).log(),
            final(self).consumed() == old(self).consumed(),
    {
        let ghost turn = Turn { outcome, cancelled: false };
        let close = handle_read(outcome, &mut self.link);
        self.close = close;
        proof {
            let before = self.turns@;
            lemma_forwarded_push(before, turn);
            self.turns@ = before.push(turn);
        }
        close.unwrap()
    }
}

proof fn lemma_consumed_grows(limit: nat, consumed: Seq<u8>, payload: Seq<u8>)
    requires
        leftover(limit, consumed) == Seq::<u8>::empty(),
        sendable(limit, payload),
    ensures
        frames_in(limit, consumed + encoded(payload)) == frames_in(limit, consumed).push(payload),
        leftover(limit, consumed + encoded(payload)) == Seq::<u8>::empty(),
{
    let empty = Seq::<u8>::empty();
    law_cutting_makes_no_difference(limit, consumed, encoded(payload));
    law_frame_reads_back(limit, payload, empty);
    assert(empty + encoded(payload) =~= encoded(payload));
    assert(encoded(payload) + empty =~= encoded(payload));
    assert(frames_in(limit, empty) =~= Seq::empty());
    assert(frames_in(limit, encoded(payload)) =~= seq![payload]);
    assert(leftover(limit, encoded(payload)) == leftover(limit, empty));
    assert(frames_in(limit, consumed).push(payload) =~= frames_in(limit, consumed)
        + seq![payload]);
}

/// What a connection has sent is, at every moment, the first of the whole frames of the client's
/// stream, in order, none left out, none twice and none cut short: whatever `rest` of the stream
/// is still to be taken, the frames of the whole stream are those sent and then those of the
/// rest. Where the rest holds no whole frame, all of them have been sent.
pub proof fn law_sent_is_a_prefix_of_the_stream(connection: Connection, rest: Seq<u8>)
    requires
        connection.wf(),
    ensures
        frames_in(connection.limit(), connection.consumed() + rest) == connection.sent()
            + frames_in(connection.limit(), rest),
        !(read_frame(connection.limit(), rest) is Complete) ==> connection.sent() == frames_in(
            connection.limit(),
            connection.consumed() + rest,
        ),
        encoded_all(connection.sent()) == connection.consumed(),
{
    let limit = connection.limit();
    law_cutting_makes_no_difference(limit, connection.consumed(), rest);
    law_stream_is_accounted_for(limit, connection.consumed());
    assert(Seq::<u8>::empty() + rest =~= rest);
    assert(connection.sent() + Seq::<Seq<u8>>::empty() =~= connection.sent());
    assert(encoded_all(connection.sent()) + Seq::<u8>::empty() =~= encoded_all(connection.sent()));
}

/// Once the token has said that the broker is shutting down, the connection is closed for that
/// reason: the frame sent just before is its last, and the token is not asked again.
pub proof fn law_shutdown_ends_a_connection(connection: Connection, i: int)
    requires
        connection.wf(),
        0 <= i < connection.answers().len(),
        connection.answers()[i],
    ensures
        connection.closed() == Some(CloseReason::Shutdown),
        connection.answers().len() == i + 1,
        connection.sent().len() == i + 1,
        connection.log().len() == 2 * (i + 1),
        connection.turns().len() == i + 1,
{
    law_log_is_made_of_pairs(connection.log());
    let turn = connection.turns()[i];
    law_token_decides_after_a_frame(turn.outcome->Received_0, turn.cancelled);
    assert(close_after(turn) == Some(CloseReason::Shutdown));
}

/// A connection ends for a reason: for shutdown just where the last thing it did was to hear of
/// it, and otherwise just where its last read came to no frame. In every other case it is open.
pub proof fn law_connection_ends_for_a_reason(connection: Connection)
    requires
        connection.wf(),
    ensures
        connection.closed() == Some(CloseReason::Shutdown) <==> connection.answers().len() > 0
            && connection.answers().last(),
        connection.closed() == Some(CloseReason::DecodeError) <==> connection.turns().len() > 0
            && connection.turns().last().outcome is Failed,
        connection.closed() == Some(CloseReason::Disconnected) <==> connection.turns().len() > 0
            && connection.turns().last().outcome is Disconnected,
        connection.closed() == Some(CloseReason::IdleTimeout) <==> connection.turns().len() > 0
            && connection.turns().last().outcome is TimedOut,
        connection.closed() is None <==> {
            &&& connection.turns().len() == connection.answers().len()
            &&& forall|i: int|
                0 <= i < connection.answers().len() ==> !#[trigger] connection.answers()[i]
        },
{
    let answers = connection.answers();
    let turns = connection.turns();
    if answers.len() > 0 && answers.last() {
        law_shutdown_ends_a_connection(connection, answers.len() - 1);
    }
    if turns.len() > 0 && turns.len() == answers.len() {
        let n = turns.len() - 1;
        assert(turns[n].cancelled == answers[n]);
        law_token_decides_after_a_frame(turns[n].outcome->Received_0, turns[n].cancelled);
    }
    if turns.len() > answers.len() {
        law_anything_but_a_frame_ends_a_connection(turns.last());
    }
    if connection.closed() is None {
        assert forall|i: int| 0 <= i < answers.len() implies !#[trigger] answers[i] by {
            if answers[i] {
                law_shutdown_ends_a_connection(connection, i);
            }
        }
    }
    if answers.len() > 0 && answers.last() && turns.len() > answers.len() {
        assert(close_after(turns[answers.len() - 1]) is None);
    }
}

/// A connection hands each frame to the channel and then asks the token: what it has done is, in
/// pairs, each payload sent and the answer heard after it, and nothing else.
pub proof fn law_token_is_asked_after_each_frame(connection: Connection)
    requires
        connection.wf(),
    ensures
        connection.log().len() == 2 * connection.sent().len(),
        connection.answers().len() == connection.sent().len(),
        forall|i: int|
            #![trigger connection.sent()[i]]
            #![trigger connection.answers()[i]]
            0 <= i < connection.sent().len() ==> connection.log()[2 * i] == Entry::Sent(
                connection.sent()[i],
            ) && connection.log()[2 * i + 1] == Entry::Asked(connection.answers()[i]),
{
    law_log_is_made_of_pairs(connection.log());
}

/// What a connection has sent is what its reads came to, frame by frame, with the bytes of each
/// payload as they were received.
pub proof fn law_sent_is_what_was_received(connection: Connection)
    requires
        connection.wf(),
    ensures
        connection.sent().len() <= connection.turns().len() <= connection.sent().len() + 1,
        forall|i: int|
            #![trigger connection.sent()[i]]
            0 <= i < connection.sent().len() ==> (
            connection.turns()[i].outcome matches ReadOutcome::Received(frame)
                && connection.sent()[i] == bytes_content(frame.payload)),
{
    law_log_is_made_of_pairs(connection.log());
    lemma_forwarded_each(connection.turns());
    let turns = connection.turns();
    assert forall|i: int|
        #![trigger connection.sent()[i]]
        0 <= i < connection.sent().len() implies (
    turns[i].outcome matches ReadOutcome::Received(frame) && connection.sent()[i] == bytes_content(
        frame.payload,
    )) by {
        assert(turns[i].cancelled == connection.answers()[i]);
        assert(forwarded(turns)[i] == turns[i].outcome->Received_0@);
    }
}

proof fn lemma_forwarded_each(turns: Seq<Turn>)
    requires
        went_on(turns),
    ensures
        forwarded(turns).len() <= turns.len(),
        forall|i: int|
            #![trigger turns[i]]
            #![trigger forwarded(turns)[i]]
            0 <= i < forwarded(turns).len() ==> turns[i].outcome is Received && forwarded(turns)[i]
                == turns[i].outcome->Received_0@,
    decreases turns.len(),
{
    if turns.len() > 0 {
        let rest = turns.skip(1);
        assert forall|i: int| 0 <= i < rest.len() - 1 implies close_after(
            #[trigger] rest[i],
        ) is None by {
            assert(rest[i] == turns[i + 1]);
        }
        lemma_forwarded_each(rest);
        assert forall|i: int|
            #![trigger turns[i]]
            #![trigger forwarded(turns)[i]]
            0 <= i < forwarded(turns).len() implies turns[i].outcome is Received && forwarded(
            turns,
        )[i] == turns[i].outcome->Received_0@ by {
            if i > 0 {
                assert(close_after(turns[0]) is None);
                assert(forwarded(turns)[i] == forwarded(rest)[i - 1]);
                assert(rest[i - 1] == turns[i]);
            }
        }
    }
}

/// No payload that a connection sends is longer than the default limit.
pub proof fn law_sent_payloads_are_within_the_limit(connection: Connection)
    requires
        connection.wf(),
    ensures
        forall|i: int|
            0 <= i < connection.sent().len() ==> (#[trigger] connection.sent()[i]).len()
                <= DEFAULT_MAX_FRAME_SIZE,
{
    law_stream_is_accounted_for(connection.limit(), connection.consumed());
    assert forall|i: int| 0 <= i < connection.sent().len() implies (
    #[trigger] connection.sent()[i]).len() <= DEFAULT_MAX_FRAME_SIZE by {
        assert(sendable(connection.limit(), frames_in(connection.limit(), connection.consumed())[i]));
    }
}

/// Whether two turns went the same way: the reads came to the same, and so did the token.
pub open spec fn alike(one: Turn, other: Turn) -> bool {
    &&& one.cancelled == other.cancelled
    &&& match (one.outcome, other.outcome) {
        (ReadOutcome::Received(one_frame), ReadOutcome::Received(other_frame)) => one_frame@
            == other_frame@,
        (ReadOutcome::Failed, ReadOutcome::Failed) => true,
        (ReadOutcome::Disconnected, ReadOutcome::Disconnected) => true,
        (ReadOutcome::TimedOut, ReadOutcome::TimedOut) => true,
        _ => false,
    }
}

/// The receivers of the channel have no say: two connections whose reads came to the same and
/// that got the same answers from the token have sent the same and have ended, if they have, for
/// the same reason, whatever receivers there were and whatever became of the frames.
pub proof fn law_receivers_change_nothing(one: Connection, other: Connection)
    requires
        one.wf(),
        other.wf(),
        one.turns().len() == other.turns().len(),
        forall|i: int|
            0 <= i < one.turns().len() ==> alike(#[trigger] one.turns()[i], other.turns()[i]),
    ensures
        one.sent() == other.sent(),
        one.closed() == other.closed(),
{
    lemma_forwarded_alike(one.turns(), other.turns());
    if one.turns().len() > 0 {
        assert(alike(one.turns()[one.turns().len() - 1], other.turns().last()));
    }
}

proof fn lemma_forwarded_alike(one: Seq<Turn>, other: Seq<Turn>)
    requires
        one.len() == other.len(),
        forall|i: int| 0 <= i < one.len() ==> alike(#[trigger] one[i], other[i]),
    ensures
        forwarded(one) == forwarded(other),
    decreases one.len(),
{
    if one.len() > 0 {
        assert(alike(one[0], other[0]));
        let one_rest = one.skip(1);
        let other_rest = other.skip(1);
        assert forall|i: int| 0 <= i < one_rest.len() implies alike(
            #[trigger] one_rest[i],
            other_rest[i],
        ) by {
            assert(alike(one[i + 1], other[i + 1]));
        }
        lemma_forwarded_alike(one_rest, other_rest);
    }
}

/// A connection passes on every frame that it receives until it ends, and the frame in hand when
/// shutdown comes is passed on before the connection ends for it.
pub proof fn law_received_frames_are_forwarded(turns: Seq<Turn>, last: Turn, after: Seq<Turn>)
    requires
        forall|i: int| 0 <= i < turns.len() ==> close_after(#[trigger] turns[i]) is None,
        close_after(last) is Some,
    ensures
        forwarded(turns).len() == turns.len(),
        forall|i: int|
            0 <= i < turns.len() ==> (turns[i].outcome matches ReadOutcome::Received(frame)
                && #[trigger] forwarded(turns)[i] == frame@),
        forwarded(turns.push(last) + after) == match last.outcome {
            ReadOutcome::Received(frame) => forwarded(turns).push(frame@),
            _ => forwarded(turns),
        },
    decreases turns.len(),
{
    let all = turns.push(last) + after;
    if turns.len() > 0 {
        let rest = turns.skip(1);
        assert(close_after(turns[0]) is None);
        assert forall|i: int| 0 <= i < rest.len() implies close_after(
            #[trigger] rest[i],
        ) is None by {
            assert(rest[i] == turns[i + 1]);
        }
        law_received_frames_are_forwarded(rest, last, after);
        assert(all.skip(1) =~= rest.push(last) + after);
        assert forall|i: int| 0 <= i < turns.len() implies (
        turns[i].outcome matches ReadOutcome::Received(frame) && #[trigger] forwarded(turns)[i]
            == frame@) by {
            if i > 0 {
                assert(forwarded(turns)[i] == forwarded(rest)[i - 1]);
                assert(rest[i - 1] == turns[i]);
            }
        }
    }
    assert(forwarded(all) =~= match last.outcome {
        ReadOutcome::Received(frame) => forwarded(turns).push(frame@),
        _ => forwarded(turns),
    });
}

/// How many bytes the payloads of a queue take up.
pub open spec fn queue_memory(queue: Seq<Seq<u8>>) -> nat
    decreases queue.len(),
{
    if queue.len() == 0 {
        0
    } else {
        queue[0].len() + queue_memory(queue.skip(1))
    }
}

/// The memory of a queue is that of its payloads, added up one by one.
pub proof fn law_queue_memory_adds_up(payload: Seq<u8>, rest: Seq<Seq<u8>>)
    ensures
        queue_memory(Seq::empty()) == 0,
        queue_memory(seq![payload] + rest) == payload.len() + queue_memory(rest),
{
    assert((seq![payload] + rest).skip(1) =~= rest);
}

/// The payloads that wait in the broadcast channel never take up more than the channel's
/// capacity times the longest payload that is let in, since each was sent by some connection.
pub proof fn law_queue_memory_is_bounded(capacity: nat, queue: Seq<Seq<u8>>)
    requires
        queue.len() <= capacity,
        forall|i: int| #![trigger queue[i]]
            0 <= i < queue.len() ==> exists|connection: Connection| #[trigger]
                connection.wf() && connection.sent().contains(queue[i]),
    ensures
        queue_memory(queue) <= capacity * DEFAULT_MAX_FRAME_SIZE,
    decreases queue.len(),
{
    if queue.len() > 0 {
        let rest = queue.skip(1);
        let connection = choose|connection: Connection| #[trigger]
            connection.wf() && connection.sent().contains(queue[0]);
        assert(queue[0].len() <= DEFAULT_MAX_FRAME_SIZE) by {
            let i = choose|i: int|
                0 <= i < connection.sent().len() && connection.sent()[i] == queue[0];
            law_sent_payloads_are_within_the_limit(connection);
        }
        assert forall|i: int| #![trigger rest[i]] 0 <= i < rest.len() implies exists|
            connection: Connection,
        | #[trigger]
            connection.wf() && connection.sent().contains(rest[i]) by {
            assert(rest[i] == queue[i + 1]);
        }
        law_queue_memory_is_bounded((capacity - 1) as nat, rest);
        assert((capacity - 1) * DEFAULT_MAX_FRAME_SIZE + DEFAULT_MAX_FRAME_SIZE == capacity
            * DEFAULT_MAX_FRAME_SIZE) by (nonlinear_arith);
    }
}

} // verus!
