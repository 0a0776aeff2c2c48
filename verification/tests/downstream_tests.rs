use async_telemetry_broker::config::WorkerConfig;
use async_telemetry_broker::downstream::{next_action, StopReason, WorkerAction, WorkerEvent};
use async_telemetry_broker::frame::Frame;
use async_telemetry_broker::time::Duration;
use tokio::sync::broadcast;
use tokio::sync::broadcast::error::TryRecvError;

fn worker(delay_ms: u64) -> WorkerConfig {
    WorkerConfig { id: 1, processing_delay: Duration::from_millis(delay_ms) }
}

#[test]
fn frame_is_processed_after_the_delay() {
    let action = next_action(&worker(500), WorkerEvent::Received(Frame::new("slow")));
    assert!(matches!(
        action,
        WorkerAction::Process { frame, delay: Some(delay) }
            if frame == Frame::new("slow") && delay == Duration::from_millis(500)
    ));
}

#[test]
fn frame_is_processed_at_once_without_a_delay() {
    let action = next_action(&worker(0), WorkerEvent::Received(Frame::new("fast")));
    assert!(matches!(
        action,
        WorkerAction::Process { frame, delay: None } if frame == Frame::new("fast")
    ));
}

#[test]
fn lag_does_not_stop_a_worker() {
    let action = next_action(&worker(500), WorkerEvent::Lagged(8));
    assert!(matches!(action, WorkerAction::ReportLag { skipped: 8 }));
}

#[test]
fn cancellation_and_the_end_of_the_channel_stop_a_worker() {
    assert!(matches!(
        next_action(&worker(0), WorkerEvent::Cancelled),
        WorkerAction::Stop(StopReason::Cancelled)
    ));
    assert!(matches!(
        next_action(&worker(0), WorkerEvent::Closed),
        WorkerAction::Stop(StopReason::ChannelClosed)
    ));
}

#[test]
fn every_frame_is_processed_or_reported() {
    let (tx, mut rx) = broadcast::channel::<Frame>(2);
    for n in 0..5u8 {
        tx.send(Frame::new(vec![n])).unwrap();
    }
    let config = worker(0);
    let mut processed = Vec::new();
    let mut reported = 0;
    let mut sender = Some(tx);
    loop {
        let event = match rx.try_recv() {
            Ok(frame) => WorkerEvent::Received(frame),
            Err(TryRecvError::Lagged(skipped)) => WorkerEvent::Lagged(skipped),
            Err(TryRecvError::Closed) => WorkerEvent::Closed,
            Err(TryRecvError::Empty) => {
                // Two more for a worker that has caught up, then the channel ends.
                let tx = sender.take().unwrap();
                tx.send(Frame::new(vec![5u8])).unwrap();
                tx.send(Frame::new(vec![6u8])).unwrap();
                continue;
            }
        };
        match next_action(&config, event) {
            WorkerAction::Process { frame, .. } => processed.push(frame.payload[0]),
            WorkerAction::ReportLag { skipped } => reported += skipped,
            WorkerAction::Stop(reason) => {
                assert_eq!(reason, StopReason::ChannelClosed);
                break;
            }
        }
    }
    assert_eq!(processed, [3, 4, 5, 6]);
    assert_eq!(reported, 3);
}
