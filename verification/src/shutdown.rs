//! The order in which the broker is torn down.
//!
//! The accept loop halts, the task tracker is closed, the tasks in flight are given a deadline
//! to drain, and the process exits. [`Teardown`] says at each point what comes next; it never
//! goes back.

use vstd::prelude::*;

use crate::time::Duration;

verus! {

/// How far the broker has been torn down.
#[derive(Debug, Clone, Copy, PartialEq, Eq, Structural)]
pub enum Phase {
    /// The accept loop is running.
    Serving,
    /// The accept loop has halted; the tracker still takes tasks.
    Halted,
    /// The tracker is closed; tasks in flight are draining.
    Draining,
    /// The process is to exit.
    Exited,
}

/// What has happened since the last decision.
#[derive(Debug, Clone, Copy, PartialEq, Eq, Structural)]
pub enum TeardownEvent {
    /// The accept loop returned.
    AcceptLoopHalted,
    /// The task tracker was closed.
    TrackerClosed,
    /// All tasks finished before the deadline.
    Drained,
    /// The deadline came first.
    DeadlineReached,
}

/// What is to be done next.
#[derive(Debug, Clone, Copy, PartialEq, Eq, Structural)]
pub enum TeardownAction {
    /// Close the tracker, so that no new task is registered.
    CloseTracker,
    /// Wait for the tasks in flight, but no longer than `timeout`.
    Drain { timeout: Duration },
    /// Leave the process; where it is not clean, tasks that remain are abandoned.
    Exit { clean: bool },
}

/// The phase that an event leads to, if it can happen in the given one.
pub open spec fn phase_after(phase: Phase, event: TeardownEvent) -> Option<Phase> {
    match (phase, event) {
        (Phase::Serving, TeardownEvent::AcceptLoopHalted) => Some(Phase::Halted),
        (Phase::Halted, TeardownEvent::TrackerClosed) => Some(Phase::Draining),
        (Phase::Draining, TeardownEvent::Drained) => Some(Phase::Exited),
        (Phase::Draining, TeardownEvent::DeadlineReached) => Some(Phase::Exited),
        _ => None,
    }
}

/// How many steps of the teardown lie behind a phase.
pub open spec fn rank(phase: Phase) -> nat {
    match phase {
        Phase::Serving => 0,
        Phase::Halted => 1,
        Phase::Draining => 2,
        Phase::Exited => 3,
    }
}

/// The teardown of a broker.
#[derive(Debug)]
pub struct Teardown {
    phase: Phase,
    timeout: Duration,
}

impl Teardown {
    /// The phase that the teardown has reached.
    pub closed spec fn phase(&self) -> Phase {
        self.phase
    }

    /// The time that tasks in flight are given to drain.
    pub closed spec fn deadline(&self) -> Duration {
        self.timeout
    }

    /// A broker that is serving, and whose tasks will have `shutdown_timeout` to drain.
    pub fn new(shutdown_timeout: Duration) -> (teardown: Self)
        ensures
            teardown.phase() == Phase::Serving,
            teardown.deadline() == shutdown_timeout,
    {
        Teardown { phase: Phase::Serving, timeout: shutdown_timeout }
    }

    /// Takes note of an event and decides what is to be done next.
    pub fn on_event(&mut self, event: TeardownEvent) -> (action: TeardownAction)
        requires
            phase_after(old(self).phase(), event) is Some,
        ensures
            Some(final(self).phase()) == phase_after(old(self).phase(), event),
            final(self).phase() == (match event {
                TeardownEvent::AcceptLoopHalted => Phase::Halted,
                TeardownEvent::TrackerClosed => Phase::Draining,
                TeardownEvent::Drained => Phase::Exited,
                TeardownEvent::DeadlineReached => Phase::Exited,
            }),
            final(self).deadline() == old(self).deadline(),
            action == (match event {
                TeardownEvent::AcceptLoopHalted => TeardownAction::CloseTracker,
                TeardownEvent::TrackerClosed => TeardownAction::Drain {
                    timeout: old(self).deadline(),
                },
                TeardownEvent::Drained => TeardownAction::Exit { clean: true },
                TeardownEvent::DeadlineReached => TeardownAction::Exit { clean: false },
            }),
    {
        match event {
            TeardownEvent::AcceptLoopHalted => {
                self.phase = Phase::Halted;
                TeardownAction::CloseTracker
            },
            TeardownEvent::TrackerClosed => {
                self.phase = Phase::Draining;
                TeardownAction::Drain { timeout: self.timeout }
            },
            TeardownEvent::Drained => {
                self.phase = Phase::Exited;
                TeardownAction::Exit { clean: true }
            },
            TeardownEvent::DeadlineReached => {
                self.phase = Phase::Exited;
                TeardownAction::Exit { clean: false }
            },
        }
    }
}

/// The phase that a series of events leads to, if each can happen when its turn comes.
pub open spec fn phase_after_all(phase: Phase, events: Seq<TeardownEvent>) -> Option<Phase>
    decreases events.len(),
{
    if events.len() == 0 {
        Some(phase)
    } else {
        match phase_after(phase, events[0]) {
            Some(next) => phase_after_all(next, events.skip(1)),
            None => None,
        }
    }
}

/// Each event belongs to one phase: the accept loop halts while the broker serves, the tracker is
/// closed once the loop has halted, and a wait ends only while tasks are draining. In its phase
/// an event can always happen, and in no other.
pub proof fn law_each_event_belongs_to_one_phase(phase: Phase, event: TeardownEvent)
    ensures
        phase_after(phase, event) is Some <==> phase == (match event {
            TeardownEvent::AcceptLoopHalted => Phase::Serving,
            TeardownEvent::TrackerClosed => Phase::Halted,
            TeardownEvent::Drained => Phase::Draining,
            TeardownEvent::DeadlineReached => Phase::Draining,
        }),
        phase_after(phase, event) matches Some(next) ==> next == (match phase {
            Phase::Serving => Phase::Halted,
            Phase::Halted => Phase::Draining,
            _ => Phase::Exited,
        }),
{
}

/// Teardown only moves forward: every event takes it one step further on, so it is over after
/// three of them, and no event can happen once the process is to exit.
pub proof fn law_teardown_moves_forward(phase: Phase, events: Seq<TeardownEvent>)
    ensures
        phase_after_all(phase, events) matches Some(reached) ==> rank(reached) == rank(phase)
            + events.len() && rank(reached) <= 3,
    decreases events.len(),
{
    if events.len() > 0 {
        if let Some(next) = phase_after(phase, events[0]) {
            law_teardown_moves_forward(next, events.skip(1));
        }
    }
}

/// The steps come in one order: the accept loop halts, then the tracker is closed, and only then
/// are tasks waited for; the wait ends either with all of them done or with the deadline.
pub proof fn law_teardown_has_one_order(events: Seq<TeardownEvent>)
    ensures
        phase_after_all(Phase::Serving, events) == Some(Phase::Exited) <==> {
            &&& events.len() == 3
            &&& events[0] == TeardownEvent::AcceptLoopHalted
            &&& events[1] == TeardownEvent::TrackerClosed
            &&& events[2] == TeardownEvent::Drained || events[2] == TeardownEvent::DeadlineReached
        },
{
    reveal_with_fuel(phase_after_all, 4);
    law_teardown_moves_forward(Phase::Serving, events);
}

} // verus!
