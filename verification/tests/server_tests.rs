use async_telemetry_broker::channel::Link;
use async_telemetry_broker::config::Config;
use async_telemetry_broker::frame::{Frame, FrameCodec, FrameError, DEFAULT_MAX_FRAME_SIZE};
use async_telemetry_broker::server::{
    after_forward, handle_read, on_read, AcceptAction, AcceptEvent, AcceptLoop, CloseReason,
    Connection, ConnectionStep, Handled, ReadOutcome,
};
use bytes::BytesMut;
use tokio::sync::broadcast;
use tokio::sync::broadcast::error::TryRecvError;
use tokio_util::sync::CancellationToken;

#[test]
fn no_more_clients_than_places() {
    let config = Config::default().with_max_num_connections(48);
    let mut accept_loop = AcceptLoop::new(config.max_num_connections);

    for served in 0..48 {
        assert!(accept_loop.accepting());
        assert_eq!(accept_loop.active_connections(), served);
        assert_eq!(accept_loop.on_event(AcceptEvent::Accepted), AcceptAction::Serve);
    }
    assert_eq!(accept_loop.active_connections(), 48);
    assert!(!accept_loop.accepting());

    // A client that leaves makes room for the one that waits.
    assert_eq!(accept_loop.on_event(AcceptEvent::ConnectionEnded), AcceptAction::Resume);
    assert!(accept_loop.accepting());
    assert_eq!(accept_loop.on_event(AcceptEvent::Accepted), AcceptAction::Serve);
    assert!(!accept_loop.accepting());
}

#[test]
fn failed_accept_takes_no_place() {
    let mut accept_loop = AcceptLoop::new(1);
    assert_eq!(accept_loop.on_event(AcceptEvent::AcceptFailed), AcceptAction::ReportFailure);
    assert_eq!(accept_loop.active_connections(), 0);
    assert!(accept_loop.accepting());
}

#[test]
fn loop_without_places_accepts_nobody() {
    assert!(!AcceptLoop::new(0).accepting());
}

#[test]
fn cancelled_loop_accepts_nobody() {
    let mut accept_loop = AcceptLoop::new(2);
    accept_loop.on_event(AcceptEvent::Accepted);
    assert_eq!(accept_loop.on_event(AcceptEvent::Cancelled), AcceptAction::Stop);
    assert!(!accept_loop.accepting());
    assert_eq!(accept_loop.on_event(AcceptEvent::ConnectionEnded), AcceptAction::Resume);
    assert!(!accept_loop.accepting());
    assert_eq!(accept_loop.active_connections(), 0);
}

#[test]
fn outcome_of_a_read_decides_the_step() {
    let received = on_read(ReadOutcome::Received(Frame::new("data")));
    assert!(matches!(received, ConnectionStep::Forward(frame) if frame == Frame::new("data")));
    assert!(matches!(
        on_read(ReadOutcome::Failed),
        ConnectionStep::Close(CloseReason::DecodeError)
    ));
    assert!(matches!(
        on_read(ReadOutcome::Disconnected),
        ConnectionStep::Close(CloseReason::Disconnected)
    ));
    assert!(matches!(
        on_read(ReadOutcome::TimedOut),
        ConnectionStep::Close(CloseReason::IdleTimeout)
    ));
    assert_eq!(after_forward(false), None);
    assert_eq!(after_forward(true), Some(CloseReason::Shutdown));
}

/// Every frame that has been put on the channel and not been received yet.
fn on_channel(rx: &mut broadcast::Receiver<Frame>) -> Vec<Frame> {
    let mut frames = Vec::new();
    while let Ok(frame) = rx.try_recv() {
        frames.push(frame);
    }
    frames
}

/// Hands what has arrived to the connection, frame by frame, until it asks for more or ends.
fn run(connection: &mut Connection, src: &mut BytesMut) -> Option<CloseReason> {
    loop {
        match connection.receive(src) {
            Ok(None) => return None,
            Ok(Some(handled)) => {
                if handled.close.is_some() {
                    return handled.close;
                }
            }
            Err(_) => return Some(connection.end(ReadOutcome::Failed)),
        }
    }
}

#[test]
fn received_frame_reaches_every_subscriber() {
    let (tx, mut first) = broadcast::channel::<Frame>(4);
    let mut second = tx.subscribe();
    let mut link = Link::new(tx, CancellationToken::new());

    let outcome = ReadOutcome::Received(Frame::new("session_1_frame"));
    assert_eq!(handle_read(outcome, &mut link), None);

    assert_eq!(first.try_recv(), Ok(Frame::new("session_1_frame")));
    assert_eq!(second.try_recv(), Ok(Frame::new("session_1_frame")));
    assert_eq!(first.try_recv(), Err(TryRecvError::Empty));
}

#[test]
fn connection_goes_on_where_nobody_listens() {
    let (tx, rx) = broadcast::channel::<Frame>(4);
    drop(rx);
    let mut link = Link::new(tx, CancellationToken::new());
    let outcome = ReadOutcome::Received(Frame::new("lost"));
    assert_eq!(handle_read(outcome, &mut link), None);
}

#[test]
fn frame_in_hand_is_flushed_before_shutdown() {
    let (tx, mut rx) = broadcast::channel::<Frame>(4);
    let cancel = CancellationToken::new();
    cancel.cancel();
    let mut link = Link::new(tx, cancel);

    let outcome = ReadOutcome::Received(Frame::new("pre_shutdown_frame"));
    assert_eq!(handle_read(outcome, &mut link), Some(CloseReason::Shutdown));
    assert_eq!(rx.try_recv(), Ok(Frame::new("pre_shutdown_frame")));
}

#[test]
fn nothing_is_sent_when_a_connection_ends() {
    let (tx, mut rx) = broadcast::channel::<Frame>(4);
    let cancel = CancellationToken::new();
    let mut link = Link::new(tx, cancel.clone());
    for _ in 0..2 {
        assert_eq!(
            handle_read(ReadOutcome::Failed, &mut link),
            Some(CloseReason::DecodeError)
        );
        assert_eq!(
            handle_read(ReadOutcome::Disconnected, &mut link),
            Some(CloseReason::Disconnected)
        );
        assert_eq!(
            handle_read(ReadOutcome::TimedOut, &mut link),
            Some(CloseReason::IdleTimeout)
        );
        // Shutdown makes no difference to a connection that ends anyway.
        cancel.cancel();
    }
    assert_eq!(rx.try_recv(), Err(TryRecvError::Empty));
}

#[test]
fn slow_subscriber_does_not_hold_up_the_sender() {
    let (tx, mut rx) = broadcast::channel::<Frame>(2);
    let mut link = Link::new(tx, CancellationToken::new());
    for n in 0..10 {
        let outcome = ReadOutcome::Received(Frame::new(format!("burst {n}")));
        assert_eq!(handle_read(outcome, &mut link), None);
    }
    assert_eq!(rx.try_recv(), Err(TryRecvError::Lagged(8)));
    assert_eq!(rx.try_recv(), Ok(Frame::new("burst 8")));
    assert_eq!(rx.try_recv(), Ok(Frame::new("burst 9")));
}

#[test]
fn every_frame_of_a_stream_is_sent_once_however_it_is_cut() {
    let stream = b"\x00\x00\x00\x05alpha\x00\x00\x00\x00\x00\x00\x00\x04beta";
    for cut in 0..=stream.len() {
        let (tx, mut rx) = broadcast::channel::<Frame>(8);
        let mut connection = Connection::new(tx, CancellationToken::new());
        let mut src = BytesMut::from(&stream[..cut]);
        assert_eq!(run(&mut connection, &mut src), None);
        src.extend_from_slice(&stream[cut..]);
        assert_eq!(run(&mut connection, &mut src), None);
        assert!(src.is_empty());
        assert!(connection.is_open());
        assert_eq!(connection.end(ReadOutcome::Disconnected), CloseReason::Disconnected);
        assert!(!connection.is_open());
        assert_eq!(
            on_channel(&mut rx),
            [Frame::new("alpha"), Frame::new(""), Frame::new("beta")]
        );
    }
}

#[test]
fn cut_off_frame_is_not_sent() {
    let (tx, mut rx) = broadcast::channel::<Frame>(8);
    let mut connection = Connection::new(tx, CancellationToken::new());
    let mut src = BytesMut::from(&[0u8, 0, 0, 1, 97, 0, 0, 0, 3, 98, 99][..]);
    assert_eq!(run(&mut connection, &mut src), None);
    assert_eq!(&src[..], &[0, 0, 0, 3, 98, 99]);
    assert_eq!(connection.end(ReadOutcome::Failed), CloseReason::DecodeError);
    assert_eq!(on_channel(&mut rx), [Frame::new("a")]);
}

#[test]
fn connection_ends_at_a_header_over_the_limit() {
    let (tx, mut rx) = broadcast::channel::<Frame>(8);
    let mut connection = Connection::new(tx, CancellationToken::new());
    let mut src =
        BytesMut::from(&[0u8, 0, 0, 1, 97, 0x00, 0x80, 0x00, 0x01, 0, 0, 0, 1, 98][..]);
    assert_eq!(connection.receive(&mut src), Ok(Some(Handled { close: None })));
    assert_eq!(
        connection.receive(&mut src),
        Err(FrameError::DeclaredLength { payload_len: 8_388_609, max_size: 8_388_608 })
    );
    assert_eq!(connection.end(ReadOutcome::Failed), CloseReason::DecodeError);
    assert_eq!(on_channel(&mut rx), [Frame::new("a")]);
}

#[test]
fn shutdown_stops_a_connection_before_the_next_frame() {
    let (tx, mut rx) = broadcast::channel::<Frame>(8);
    let cancel = CancellationToken::new();
    cancel.cancel();
    let mut connection = Connection::new(tx, cancel);
    let mut src = BytesMut::from(&[0u8, 0, 0, 1, 97, 0, 0, 0, 1, 98][..]);
    assert_eq!(run(&mut connection, &mut src), Some(CloseReason::Shutdown));
    assert!(!connection.is_open());
    assert_eq!(&src[..], &[0, 0, 0, 1, 98]);
    assert_eq!(on_channel(&mut rx), [Frame::new("a")]);
}

#[test]
fn empty_frame_is_sent_like_any_other() {
    let (tx, mut rx) = broadcast::channel::<Frame>(8);
    let mut connection = Connection::new(tx, CancellationToken::new());
    let mut src = BytesMut::from(&[0u8, 0, 0, 0, 0, 0, 0, 1, 97][..]);
    assert_eq!(run(&mut connection, &mut src), None);
    assert_eq!(connection.end(ReadOutcome::Disconnected), CloseReason::Disconnected);
    assert_eq!(on_channel(&mut rx), [Frame::new(""), Frame::new("a")]);
}

#[test]
fn idle_connection_is_ended() {
    let (tx, mut rx) = broadcast::channel::<Frame>(8);
    let mut connection = Connection::new(tx, CancellationToken::new());
    assert_eq!(connection.end(ReadOutcome::TimedOut), CloseReason::IdleTimeout);
    assert!(on_channel(&mut rx).is_empty());
}

#[test]
fn receivers_change_nothing_for_a_connection() {
    let stream = b"\x00\x00\x00\x01a\x00\x00\x00\x01b\x00\x00\x00\x01c";
    let (heard_tx, mut rx) = broadcast::channel::<Frame>(8);
    let (unheard_tx, gone) = broadcast::channel::<Frame>(8);
    drop(gone);
    let mut heard = Connection::new(heard_tx, CancellationToken::new());
    let mut unheard = Connection::new(unheard_tx, CancellationToken::new());
    let mut heard_src = BytesMut::from(&stream[..]);
    let mut unheard_src = BytesMut::from(&stream[..]);
    for _ in 0..4 {
        assert_eq!(heard.receive(&mut heard_src), unheard.receive(&mut unheard_src));
        assert_eq!(heard_src, unheard_src);
        assert_eq!(heard.is_open(), unheard.is_open());
    }
    assert_eq!(on_channel(&mut rx).len(), 3);
}

#[test]
fn queue_memory_is_bounded() {
    let capacity = 4;
    let (tx, mut rx) = broadcast::channel::<Frame>(capacity);
    let mut connection = Connection::new(tx, CancellationToken::new());
    let mut codec = FrameCodec::default();
    let mut stream = BytesMut::new();
    for n in 0..20u8 {
        codec.encode(Frame::new(vec![n; 8]), &mut stream).unwrap();
    }
    assert_eq!(run(&mut connection, &mut stream), None);
    assert_eq!(rx.try_recv(), Err(TryRecvError::Lagged(16)));
    let held: usize = on_channel(&mut rx).iter().map(|frame| frame.payload.len()).sum();
    assert_eq!(held, capacity * 8);
    assert!(held <= capacity * DEFAULT_MAX_FRAME_SIZE);
}

#[test]
fn connection_obeys_the_token_that_it_was_given() {
    let (tx, mut rx) = broadcast::channel::<Frame>(8);
    let cancel = CancellationToken::new();
    let other = CancellationToken::new();
    let mut connection = Connection::new(tx, cancel.clone());
    let mut src = BytesMut::from(&b"\x00\x00\x00\x01a\x00\x00\x00\x01b"[..]);

    other.cancel();
    assert_eq!(connection.receive(&mut src), Ok(Some(Handled { close: None })));
    cancel.cancel();
    assert_eq!(
        connection.receive(&mut src),
        Ok(Some(Handled { close: Some(CloseReason::Shutdown) }))
    );
    assert_eq!(on_channel(&mut rx), [Frame::new("a"), Frame::new("b")]);
}
