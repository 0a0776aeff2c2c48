//! Downstream workers: what a subscriber of the broadcast channel does with what it receives.
//!
//! A worker waits for the next event, asks [`next_action`] what to do about it, and does that,
//! until it is told to stop.

use vstd::prelude::*;

use crate::config::WorkerConfig;
use crate::frame::Frame;
use crate::time::Duration;

verus! {

/// What a worker wakes up for.
#[derive(Debug)]
pub enum WorkerEvent {
    /// The broker is shutting down.
    Cancelled,
    /// The channel delivered a frame.
    Received(Frame),
    /// The worker fell behind, and the channel dropped this many frames.
    Lagged(u64),
    /// The channel has no senders left.
    Closed,
}

/// Why a worker stops.
#[derive(Debug, Clone, Copy, PartialEq, Eq, Structural)]
pub enum StopReason {
    Cancelled,
    ChannelClosed,
}

/// What a worker does about an event.
#[derive(Debug)]
pub enum WorkerAction {
    /// Waits out the delay, if there is one, and then processes the frame.
    Process { frame: Frame, delay: Option<Duration> },
    /// Reports the frames that were lost, and goes on.
    ReportLag { skipped: u64 },
    /// Leaves the loop.
    Stop(StopReason),
}

/// What a worker with the given configuration does about an event.
pub open spec fn action_on(config: WorkerConfig, event: WorkerEvent) -> WorkerAction {
    match event {
        WorkerEvent::Cancelled => WorkerAction::Stop(StopReason::Cancelled),
        WorkerEvent::Received(frame) => WorkerAction::Process {
            frame,
            delay: if config.processing_delay@ == 0 {
                None
            } else {
                Some(config.processing_delay)
            },
        },
        WorkerEvent::Lagged(skipped) => WorkerAction::ReportLag { skipped },
        WorkerEvent::Closed => WorkerAction::Stop(StopReason::ChannelClosed),
    }
}

/// Decides what the worker does about an event. Only cancellation and the end of the channel
/// stop it; frames that were lost do not.
pub fn next_action(config: &WorkerConfig, event: WorkerEvent) -> (action: WorkerAction)
    ensures
        action == action_on(*config, event),
        match event {
            WorkerEvent::Cancelled => action == WorkerAction::Stop(StopReason::Cancelled),
            WorkerEvent::Received(frame) => {
                &&& action matches WorkerAction::Process { frame: processed, delay }
                &&& processed == frame
                &&& delay matches Some(wait) ==> wait == config.processing_delay && wait@ > 0
                &&& delay is None ==> config.processing_delay@ == 0
            },
            WorkerEvent::Lagged(skipped) => action == (WorkerAction::ReportLag { skipped }),
            WorkerEvent::Closed => action == WorkerAction::Stop(StopReason::ChannelClosed),
        },
{
    match event {
        WorkerEvent::Cancelled => WorkerAction::Stop(StopReason::Cancelled),
        WorkerEvent::Received(frame) => {
            let delay = config.processing_delay;
            WorkerAction::Process {
                frame,
                delay: if !delay.is_zero() {
                    Some(delay)
                } else {
                    None
                },
            }
        },
        WorkerEvent::Lagged(skipped) => WorkerAction::ReportLag { skipped },
        WorkerEvent::Closed => WorkerAction::Stop(StopReason::ChannelClosed),
    }
}

/// A worker takes over each frame just the time that it is configured to take, however long that
/// is, and then processes that very frame; it does not wait at all just where that time is zero.
pub proof fn law_worker_takes_its_time(config: WorkerConfig, frame: Frame)
    ensures
        action_on(config, WorkerEvent::Received(frame)) matches WorkerAction::Process {
            frame: processed,
            delay,
        } && {
            let waited: nat = match delay {
                Some(wait) => wait@,
                None => 0,
            };
            &&& processed == frame
            &&& waited == config.processing_delay@
            &&& delay is None <==> waited == 0
        },
{
}

/// How a worker answers rests with the configured delay and the event alone, and the delay
/// matters only for frames: workers with any two configurations answer everything else alike.
pub proof fn law_delay_matters_for_frames_alone(
    one: WorkerConfig,
    other: WorkerConfig,
    event: WorkerEvent,
)
    requires
        event is Received ==> one.processing_delay == other.processing_delay,
    ensures
        action_on(one, event) == action_on(other, event),
{
}

/// A loss is reported in full and does not stop a worker, and what stops it is named: cancellation
/// as such, and the end of the channel as such. Nothing else stops it.
pub proof fn law_worker_names_what_stops_it(config: WorkerConfig, event: WorkerEvent)
    ensures
        action_on(config, event) == WorkerAction::Stop(StopReason::Cancelled)
            <==> event is Cancelled,
        action_on(config, event) == WorkerAction::Stop(StopReason::ChannelClosed)
            <==> event is Closed,
        action_on(config, event) is ReportLag <==> event is Lagged,
        event matches WorkerEvent::Lagged(lost) ==> action_on(config, event)->skipped == lost,
        action_on(config, event) is Process <==> event is Received,
        ends_loop(event) <==> action_on(config, event) is Stop,
{
}

/// Everything that a worker does about a series of events: it answers one after the other and
/// leaves off when it stops.
pub open spec fn actions_on(config: WorkerConfig, events: Seq<WorkerEvent>) -> Seq<WorkerAction>
    decreases events.len(),
{
    if events.len() == 0 {
        Seq::empty()
    } else {
        let action = action_on(config, events[0]);
        if action is Stop {
            seq![action]
        } else {
            seq![action] + actions_on(config, events.skip(1))
        }
    }
}

/// The events that end a worker's loop.
pub open spec fn ends_loop(event: WorkerEvent) -> bool {
    event is Cancelled || event is Closed
}

/// As long as nothing ends its loop a worker answers every event, in order: each frame received
/// is processed, whatever was lost before it.
pub proof fn law_worker_answers_every_event(config: WorkerConfig, events: Seq<WorkerEvent>)
    requires
        forall|i: int| 0 <= i < events.len() ==> !ends_loop(#[trigger] events[i]),
    ensures
        actions_on(config, events).len() == events.len(),
        forall|i: int|
            0 <= i < events.len() ==> #[trigger] actions_on(config, events)[i] == action_on(
                config,
                events[i],
            ),
    decreases events.len(),
{
    if events.len() > 0 {
        let rest = events.skip(1);
        assert(!ends_loop(events[0]));
        assert forall|i: int| 0 <= i < rest.len() implies !ends_loop(#[trigger] rest[i]) by {
            assert(rest[i] == events[i + 1]);
        }
        law_worker_answers_every_event(config, rest);
        let actions = actions_on(config, events);
        assert forall|i: int| 0 <= i < events.len() implies #[trigger] actions[i] == action_on(
            config,
            events[i],
        ) by {
            if i > 0 {
                assert(actions[i] == actions_on(config, rest)[i - 1]);
                assert(rest[i - 1] == events[i]);
            }
        }
    }
}

/// Cancellation and the end of the channel end a worker's loop at once: the answer to them is
/// its last action, whatever would have come after.
pub proof fn law_worker_stops_for_good(
    config: WorkerConfig,
    before: Seq<WorkerEvent>,
    last: WorkerEvent,
    after: Seq<WorkerEvent>,
)
    requires
        forall|i: int| 0 <= i < before.len() ==> !ends_loop(#[trigger] before[i]),
        ends_loop(last),
    ensures
        action_on(config, last) is Stop,
        actions_on(config, before.push(last) + after) == actions_on(config, before).push(
            action_on(config, last),
        ),
    decreases before.len(),
{
    let events = before.push(last) + after;
    if before.len() == 0 {
        assert(actions_on(config, events) =~= actions_on(config, before).push(
            action_on(config, last),
        ));
    } else {
        let rest = before.skip(1);
        assert(!ends_loop(before[0]));
        assert forall|i: int| 0 <= i < rest.len() implies !ends_loop(#[trigger] rest[i]) by {
            assert(rest[i] == before[i + 1]);
        }
        law_worker_stops_for_good(config, rest, last, after);
        assert(events.skip(1) =~= rest.push(last) + after);
        assert(actions_on(config, events) =~= actions_on(config, before).push(
            action_on(config, last),
        ));
    }
}

/// The payloads of the frames that a series of events delivers, in order.
pub open spec fn received(events: Seq<WorkerEvent>) -> Seq<Seq<u8>>
    decreases events.len(),
{
    if events.len() == 0 {
        Seq::empty()
    } else {
        match events[0] {
            WorkerEvent::Received(frame) => seq![frame@] + received(events.skip(1)),
            _ => received(events.skip(1)),
        }
    }
}

/// How many frames a series of events reports as lost.
pub open spec fn lost(events: Seq<WorkerEvent>) -> nat
    decreases events.len(),
{
    if events.len() == 0 {
        0
    } else {
        match events[0] {
            WorkerEvent::Lagged(skipped) => skipped as nat + lost(events.skip(1)),
            _ => lost(events.skip(1)),
        }
    }
}

/// The payloads of the frames that a series of actions processes, in order.
pub open spec fn processed(actions: Seq<WorkerAction>) -> Seq<Seq<u8>>
    decreases actions.len(),
{
    if actions.len() == 0 {
        Seq::empty()
    } else {
        match actions[0] {
            WorkerAction::Process { frame, .. } => seq![frame@] + processed(actions.skip(1)),
            _ => processed(actions.skip(1)),
        }
    }
}

/// How many frames a series of actions reports as skipped.
pub open spec fn reported(actions: Seq<WorkerAction>) -> nat
    decreases actions.len(),
{
    if actions.len() == 0 {
        0
    } else {
        match actions[0] {
            WorkerAction::ReportLag { skipped } => skipped as nat + reported(actions.skip(1)),
            _ => reported(actions.skip(1)),
        }
    }
}

/// The tallies of what a worker is told go event by event, in order: a frame received adds its
/// payload, a loss adds the number of frames lost, and nothing else adds to either.
pub proof fn law_events_are_tallied_one_by_one(event: WorkerEvent, rest: Seq<WorkerEvent>)
    ensures
        received(Seq::empty()) == Seq::<Seq<u8>>::empty(),
        lost(Seq::empty()) == 0,
        received(seq![event] + rest) == match event {
            WorkerEvent::Received(frame) => seq![frame@] + received(rest),
            _ => received(rest),
        },
        lost(seq![event] + rest) == match event {
            WorkerEvent::Lagged(skipped) => skipped + lost(rest),
            _ => lost(rest) as int,
        },
{
    assert((seq![event] + rest).skip(1) =~= rest);
}

/// The tallies of what a worker does go action by action, in order: a frame processed adds its
/// payload, a report adds the number that it names, and nothing else adds to either.
pub proof fn law_actions_are_tallied_one_by_one(action: WorkerAction, rest: Seq<WorkerAction>)
    ensures
        processed(Seq::empty()) == Seq::<Seq<u8>>::empty(),
        reported(Seq::empty()) == 0,
        processed(seq![action] + rest) == match action {
            WorkerAction::Process { frame, .. } => seq![frame@] + processed(rest),
            _ => processed(rest),
        },
        reported(seq![action] + rest) == match action {
            WorkerAction::ReportLag { skipped } => skipped + reported(rest),
            _ => reported(rest) as int,
        },
{
    assert((seq![action] + rest).skip(1) =~= rest);
}

/// A worker accounts for everything that it is told before its loop ends: it processes the frames
/// received, each once and in order, and reports as many frames skipped as were lost. What would
/// have come after the end changes nothing.
pub proof fn law_worker_accounts_for_its_events(
    config: WorkerConfig,
    before: Seq<WorkerEvent>,
    last: WorkerEvent,
    after: Seq<WorkerEvent>,
)
    requires
        forall|i: int| 0 <= i < before.len() ==> !ends_loop(#[trigger] before[i]),
        ends_loop(last),
    ensures
        processed(actions_on(config, before.push(last) + after)) == received(before),
        reported(actions_on(config, before.push(last) + after)) == lost(before),
    decreases before.len(),
{
    let events = before.push(last) + after;
    let actions = actions_on(config, events);
    if before.len() == 0 {
        assert(events[0] == last);
        assert(actions.skip(1) =~= Seq::empty());
        reveal_with_fuel(processed, 2);
        reveal_with_fuel(reported, 2);
    } else {
        let rest = before.skip(1);
        assert(!ends_loop(before[0]));
        assert forall|i: int| 0 <= i < rest.len() implies !ends_loop(#[trigger] rest[i]) by {
            assert(rest[i] == before[i + 1]);
        }
        law_worker_accounts_for_its_events(config, rest, last, after);
        assert(events.skip(1) =~= rest.push(last) + after);
        assert(events[0] == before[0]);
        assert(actions.skip(1) =~= actions_on(config, events.skip(1)));
    }
}

/// Whether a series of events delivers the frames that were sent on the channel, whose payloads
/// are `sent`: from the first to the last, each is either received or among those lost.
pub open spec fn delivers(events: Seq<WorkerEvent>, sent: Seq<Seq<u8>>) -> bool
    decreases events.len(),
{
    if events.len() == 0 {
        sent.len() == 0
    } else {
        match events[0] {
            WorkerEvent::Received(frame) => {
                &&& sent.len() > 0
                &&& sent[0] == frame@
                &&& delivers(events.skip(1), sent.skip(1))
            },
            WorkerEvent::Lagged(skipped) => {
                &&& skipped <= sent.len()
                &&& delivers(events.skip(1), sent.skip(skipped as int))
            },
            _ => false,
        }
    }
}

/// Whether `part` is `whole` with some of its elements left out.
pub open spec fn is_subsequence(part: Seq<Seq<u8>>, whole: Seq<Seq<u8>>) -> bool
    decreases whole.len(),
{
    if part.len() == 0 {
        true
    } else if whole.len() == 0 {
        false
    } else {
        ||| part[0] == whole[0] && is_subsequence(part.skip(1), whole.skip(1))
        ||| is_subsequence(part, whole.skip(1))
    }
}

/// A series of events delivers what was sent piece by piece: a frame received is the next one
/// sent, a loss passes over as many as it names, and nothing else delivers anything.
pub proof fn law_delivery_goes_piece_by_piece(
    event: WorkerEvent,
    rest: Seq<WorkerEvent>,
    sent: Seq<Seq<u8>>,
)
    ensures
        delivers(Seq::empty(), sent) <==> sent.len() == 0,
        delivers(seq![event] + rest, sent) <==> match event {
            WorkerEvent::Received(frame) => sent.len() > 0 && sent[0] == frame@ && delivers(
                rest,
                sent.skip(1),
            ),
            WorkerEvent::Lagged(skipped) => skipped <= sent.len() && delivers(
                rest,
                sent.skip(skipped as int),
            ),
            _ => false,
        },
{
    assert((seq![event] + rest).skip(1) =~= rest);
}

/// The elements of a part stand in the whole, in the same order and each at a place of its own:
/// `places` are the places, one behind the other.
pub proof fn law_subsequence_keeps_the_order(part: Seq<Seq<u8>>, whole: Seq<Seq<u8>>) -> (places:
    Seq<int>)
    requires
        is_subsequence(part, whole),
    ensures
        places.len() == part.len(),
        forall|i: int|
            0 <= i < part.len() ==> 0 <= #[trigger] places[i] < whole.len() && part[i]
                == whole[places[i]],
        forall|i: int, j: int| 0 <= i < j < places.len() ==> places[i] < places[j],
    decreases whole.len(),
{
    if part.len() == 0 {
        Seq::empty()
    } else if part[0] == whole[0] && is_subsequence(part.skip(1), whole.skip(1)) {
        let later = law_subsequence_keeps_the_order(part.skip(1), whole.skip(1));
        let places = seq![0int] + Seq::new(later.len(), |i: int| later[i] + 1);
        assert forall|i: int| 0 <= i < part.len() implies 0 <= #[trigger] places[i] < whole.len()
            && part[i] == whole[places[i]] by {
            if i > 0 {
                assert(places[i] == later[i - 1] + 1);
                assert(part[i] == part.skip(1)[i - 1]);
            }
        }
        assert forall|i: int, j: int| 0 <= i < j < places.len() implies places[i] < places[j] by {
            assert(places[j] == later[j - 1] + 1);
            if i > 0 {
                assert(places[i] == later[i - 1] + 1);
            }
        }
        places
    } else {
        let later = law_subsequence_keeps_the_order(part, whole.skip(1));
        let places = Seq::new(later.len(), |i: int| later[i] + 1);
        assert forall|i: int| 0 <= i < part.len() implies 0 <= #[trigger] places[i] < whole.len()
            && part[i] == whole[places[i]] by {
            assert(places[i] == later[i] + 1);
        }
        places
    }
}

/// No frame is lost unreported and none is processed twice: of the frames sent on the channel,
/// the worker processes some, in order, and reports all the others as skipped.
pub proof fn law_every_frame_is_accounted_for(
    config: WorkerConfig,
    events: Seq<WorkerEvent>,
    sent: Seq<Seq<u8>>,
)
    requires
        delivers(events, sent),
    ensures
        processed(actions_on(config, events.push(WorkerEvent::Closed))).len() + reported(
            actions_on(config, events.push(WorkerEvent::Closed)),
        ) == sent.len(),
        is_subsequence(processed(actions_on(config, events.push(WorkerEvent::Closed))), sent),
{
    lemma_delivered(events, sent);
    law_worker_accounts_for_its_events(config, events, WorkerEvent::Closed, Seq::empty());
    assert(events.push(WorkerEvent::Closed) + Seq::empty() =~= events.push(WorkerEvent::Closed));
}

proof fn lemma_delivered(events: Seq<WorkerEvent>, sent: Seq<Seq<u8>>)
    requires
        delivers(events, sent),
    ensures
        forall|i: int| 0 <= i < events.len() ==> !ends_loop(#[trigger] events[i]),
        received(events).len() + lost(events) == sent.len(),
        is_subsequence(received(events), sent),
    decreases events.len(),
{
    if events.len() > 0 {
        let rest = events.skip(1);
        match events[0] {
            WorkerEvent::Received(frame) => {
                lemma_delivered(rest, sent.skip(1));
                assert(received(events).skip(1) =~= received(rest));
            },
            WorkerEvent::Lagged(skipped) => {
                lemma_delivered(rest, sent.skip(skipped as int));
                lemma_subsequence_of_longer(received(rest), sent, skipped as nat);
            },
            _ => {},
        }
        assert forall|i: int| 0 <= i < events.len() implies !ends_loop(#[trigger] events[i]) by {
            if i > 0 {
                assert(events[i] == rest[i - 1]);
            }
        }
    }
}

proof fn lemma_subsequence_of_longer(part: Seq<Seq<u8>>, whole: Seq<Seq<u8>>, n: nat)
    requires
        n <= whole.len(),
        is_subsequence(part, whole.skip(n as int)),
    ensures
        is_subsequence(part, whole),
    decreases n,
{
    if n == 0 {
        assert(whole.skip(0) =~= whole);
    } else {
        assert(whole.skip(n as int) =~= whole.skip(1).skip(n - 1));
        lemma_subsequence_of_longer(part, whole.skip(1), (n - 1) as nat);
    }
}

} // verus!
