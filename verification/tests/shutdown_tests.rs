use async_telemetry_broker::shutdown::{Teardown, TeardownAction, TeardownEvent};
use async_telemetry_broker::time::Duration;

#[test]
fn clean_teardown() {
    let timeout = Duration::from_secs(2);
    let mut teardown = Teardown::new(timeout);
    assert_eq!(teardown.on_event(TeardownEvent::AcceptLoopHalted), TeardownAction::CloseTracker);
    assert_eq!(teardown.on_event(TeardownEvent::TrackerClosed), TeardownAction::Drain { timeout });
    assert_eq!(teardown.on_event(TeardownEvent::Drained), TeardownAction::Exit { clean: true });
}

#[test]
fn teardown_ends_at_the_deadline() {
    let timeout = Duration::from_millis(1);
    let mut teardown = Teardown::new(timeout);
    assert_eq!(teardown.on_event(TeardownEvent::AcceptLoopHalted), TeardownAction::CloseTracker);
    assert_eq!(teardown.on_event(TeardownEvent::TrackerClosed), TeardownAction::Drain { timeout });
    assert_eq!(
        teardown.on_event(TeardownEvent::DeadlineReached),
        TeardownAction::Exit { clean: false }
    );
}
