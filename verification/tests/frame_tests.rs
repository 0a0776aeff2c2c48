use async_telemetry_broker::frame::{ErrorKind, Frame, FrameCodec, FrameError, DEFAULT_MAX_FRAME_SIZE};
use async_telemetry_broker::text::push_decimal;
use async_telemetry_broker::wire::read_be_u32;
use bytes::{BufMut, Bytes, BytesMut};

/// Every frame at the front of `buf`.
fn drain(codec: &mut FrameCodec, buf: &mut BytesMut) -> Vec<Bytes> {
    let mut payloads = Vec::new();
    while let Some(frame) = codec.decode(buf).unwrap() {
        payloads.push(frame.payload);
    }
    payloads
}

#[test]
fn test_encode_decode_roundtrip() {
    let mut codec = FrameCodec::new(1024);
    let mut buf = BytesMut::new();

    let original_frame = Frame::new("hello async broker");
    codec.encode(original_frame.clone(), &mut buf).unwrap();

    let decoded_frame = codec.decode(&mut buf).unwrap().unwrap();
    assert_eq!(original_frame, decoded_frame);
}

#[test]
fn test_partial_read() {
    let mut codec = FrameCodec::new(1024);
    let mut buf = BytesMut::new();

    let original_frame = Frame::new("streaming frame payload");
    codec.encode(original_frame.clone(), &mut buf).unwrap();

    // Split buffer to simulate partial TCP chunk arrival
    let mut partial_buf = buf.split_to(8);

    // Should return Ok(None) because payload is incomplete
    assert!(codec.decode(&mut partial_buf).unwrap().is_none());

    // Append the rest of the bytes back
    partial_buf.unsplit(buf);

    // Now decode should succeed
    let decoded_frame = codec.decode(&mut partial_buf).unwrap().unwrap();
    assert_eq!(original_frame, decoded_frame);
}

#[test]
fn encoded_frame_is_header_then_payload() {
    let mut codec = FrameCodec::default();
    let mut buf = BytesMut::from(&b"before"[..]);
    codec.encode(Frame::new("abc"), &mut buf).unwrap();
    assert_eq!(&buf[..], b"before\x00\x00\x00\x03abc");
}

#[test]
fn header_is_big_endian() {
    assert_eq!(read_be_u32(&[0x08, 0x09, 0xA0, 0xA1, 0xFF]), 0x0809_A0A1);
    let mut codec = FrameCodec::default();
    let mut buf = BytesMut::new();
    codec.encode(Frame::new(vec![7u8; 0x01_02_03]), &mut buf).unwrap();
    assert_eq!(&buf[..5], &[0x00, 0x01, 0x02, 0x03, 7]);
    assert_eq!(buf.len(), 4 + 0x01_02_03);
}

#[test]
fn empty_payload_is_a_frame() {
    let mut codec = FrameCodec::new(16);
    let mut buf = BytesMut::new();
    codec.encode(Frame::new(Bytes::new()), &mut buf).unwrap();
    assert_eq!(&buf[..], &[0, 0, 0, 0]);
    let frame = codec.decode(&mut buf).unwrap().unwrap();
    assert!(frame.payload.is_empty());
    assert!(buf.is_empty());
}

#[test]
fn empty_payload_is_appended_to_an_empty_buffer_without_capacity() {
    let mut codec = FrameCodec::new(16);
    let mut buf = BytesMut::new();
    assert_eq!(buf.capacity(), 0);
    codec.encode(Frame::new(vec![1u8, 2]), &mut buf).unwrap();
    codec.encode(Frame::new(Bytes::new()), &mut buf).unwrap();
    codec.encode(Frame::new(vec![3u8]), &mut buf).unwrap();
    assert_eq!(&buf[..], &[0, 0, 0, 2, 1, 2, 0, 0, 0, 0, 0, 0, 0, 1, 3]);
}

#[test]
fn short_header_leaves_the_buffer_alone() {
    let mut codec = FrameCodec::new(16);
    for len in 0..4 {
        let mut buf = BytesMut::from(&[0u8, 0, 0][..len]);
        assert_eq!(codec.decode(&mut buf), Ok(None));
        assert_eq!(buf.len(), len);
    }
}

#[test]
fn every_proper_prefix_of_a_frame_is_incomplete() {
    let mut codec = FrameCodec::new(64);
    let mut whole = BytesMut::new();
    codec.encode(Frame::new("telemetry"), &mut whole).unwrap();
    for arrived in 0..whole.len() {
        let mut buf = BytesMut::from(&whole[..arrived]);
        assert_eq!(codec.decode(&mut buf), Ok(None));
        assert_eq!(&buf[..], &whole[..arrived]);
    }
}

#[test]
fn incomplete_frame_reserves_room_for_the_rest() {
    let mut codec = FrameCodec::default();
    let mut buf = BytesMut::new();
    buf.put_u32(100_000);
    buf.put_slice(b"first bytes");
    assert_eq!(codec.decode(&mut buf), Ok(None));
    assert_eq!(buf.len(), 15);
    assert!(buf.capacity() >= 100_004);
}

#[test]
fn declared_length_over_the_limit_is_refused_at_the_header() {
    let mut codec = FrameCodec::new(10);
    let mut buf = BytesMut::new();
    buf.put_u32(11);
    let error = codec.decode(&mut buf).unwrap_err();
    assert_eq!(error, FrameError::DeclaredLength { payload_len: 11, max_size: 10 });
    assert_eq!(error.kind(), ErrorKind::InvalidData);
    assert_eq!(error.message(), "Frame length 11 exceeds maximum allowed size 10");
    assert_eq!(&buf[..], &[0, 0, 0, 11]);
    // What follows the header does not change the refusal.
    buf.put_slice(b"eleven byte");
    assert_eq!(codec.decode(&mut buf), Err(error));
}

#[test]
fn payload_over_the_limit_is_not_sent() {
    let mut codec = FrameCodec::new(10);
    let mut buf = BytesMut::from(&b"kept"[..]);
    let error = codec.encode(Frame::new("eleven byte"), &mut buf).unwrap_err();
    assert_eq!(error, FrameError::PayloadSize { payload_len: 11, max_size: 10 });
    assert_eq!(error.kind(), ErrorKind::InvalidInput);
    assert_eq!(error.message(), "Frame payload size 11 exceeds maximum allowed size 10");
    assert_eq!(&buf[..], b"kept");
}

#[test]
fn payload_of_exactly_the_limit_passes() {
    let mut codec = FrameCodec::new(10);
    let mut buf = BytesMut::new();
    codec.encode(Frame::new("ten bytes!"), &mut buf).unwrap();
    assert_eq!(codec.decode(&mut buf), Ok(Some(Frame::new("ten bytes!"))));
}

#[test]
fn default_limit_is_eight_megabytes() {
    assert_eq!(DEFAULT_MAX_FRAME_SIZE, 8_388_608);
    for mut codec in [FrameCodec::default(), FrameCodec::new(0)] {
        let mut buf = BytesMut::new();
        buf.put_u32(8_388_609);
        let error = codec.decode(&mut buf).unwrap_err();
        assert_eq!(
            error.message(),
            "Frame length 8388609 exceeds maximum allowed size 8388608"
        );

        let mut buf = BytesMut::new();
        buf.put_u32(8_388_608);
        assert_eq!(codec.decode(&mut buf), Ok(None));
    }
}

#[test]
fn frames_come_out_in_the_order_in_which_they_went_in() {
    let mut codec = FrameCodec::default();
    let mut buf = BytesMut::new();
    for payload in ["one", "", "three"] {
        codec.encode(Frame::new(payload), &mut buf).unwrap();
    }
    assert_eq!(drain(&mut codec, &mut buf), ["one", "", "three"]);
    assert!(buf.is_empty());
}

#[test]
fn broken_frame_is_discarded() {
    let mut codec = FrameCodec::default();
    let mut stream = BytesMut::new();
    codec.encode(Frame::new("whole"), &mut stream).unwrap();
    codec.encode(Frame::new("broken"), &mut stream).unwrap();
    stream.truncate(stream.len() - 1);
    assert_eq!(drain(&mut codec, &mut stream), ["whole"]);
    assert_eq!(&stream[..], b"\x00\x00\x00\x06broke");
}

#[test]
fn cutting_the_stream_makes_no_difference() {
    let mut codec = FrameCodec::default();
    let mut stream = BytesMut::new();
    for payload in ["alpha", "beta", "gamma"] {
        codec.encode(Frame::new(payload), &mut stream).unwrap();
    }
    for cut in 0..=stream.len() {
        let mut buf = BytesMut::from(&stream[..cut]);
        let mut payloads = drain(&mut codec, &mut buf);
        buf.put_slice(&stream[cut..]);
        payloads.extend(drain(&mut codec, &mut buf));
        assert_eq!(payloads, ["alpha", "beta", "gamma"]);
        assert!(buf.is_empty());
    }
}

#[test]
fn bytes_behind_a_frame_stay_in_the_buffer() {
    let mut codec = FrameCodec::default();
    let mut buf = BytesMut::from(&b"\x00\x00\x00\x02okrest"[..]);
    assert_eq!(codec.decode(&mut buf), Ok(Some(Frame::new("ok"))));
    assert_eq!(&buf[..], b"rest");
}

#[test]
fn written_again_a_frame_gives_the_bytes_that_it_was_read_from() {
    let mut codec = FrameCodec::default();
    let bytes = b"\x00\x00\x00\x05bytes";
    let mut buf = BytesMut::from(&bytes[..]);
    let frame = codec.decode(&mut buf).unwrap().unwrap();
    codec.encode(frame, &mut buf).unwrap();
    assert_eq!(&buf[..], bytes);
}

#[test]
fn frames_are_equal_when_their_payloads_are() {
    assert!(Frame::new("same") == Frame::new(b"same".to_vec()));
    assert!(Frame::new("same") != Frame::new("sama"));
    assert!(Frame::new("same") != Frame::new("sam"));
}

#[test]
fn numbers_are_written_in_decimal() {
    for n in [0, 7, 10, 99, 100, 1_234_567_890, usize::MAX] {
        let mut text = String::from("n = ");
        push_decimal(&mut text, n);
        assert_eq!(text, format!("n = {n}"));
    }
}

#[test]
fn limit_is_the_same_for_both_sides() {
    let mut writer = FrameCodec::new(1024);
    for len in [0, 1, 9, 10, 11, 12] {
        let payload = vec![1u8; len];
        let mut buf = BytesMut::new();
        writer.encode(Frame::new(payload.clone()), &mut buf).unwrap();
        let refused_on_read = FrameCodec::new(10).decode(&mut buf).is_err();
        let mut out = BytesMut::new();
        let refused_on_write = FrameCodec::new(10).encode(Frame::new(payload), &mut out).is_err();
        assert_eq!(refused_on_read, len > 10);
        assert_eq!(refused_on_write, len > 10);
    }
}

#[test]
fn large_limit_is_no_obstacle() {
    let mut codec = FrameCodec::new(usize::MAX);
    let mut buf = BytesMut::new();
    codec.encode(Frame::new("big limit"), &mut buf).unwrap();
    assert_eq!(codec.decode(&mut buf), Ok(Some(Frame::new("big limit"))));
}

#[test]
fn payload_too_long_for_a_header_is_refused() {
    let codec = FrameCodec::new(usize::MAX);
    assert_eq!(codec.header(0), Ok(0));
    assert_eq!(codec.header(u32::MAX as usize), Ok(u32::MAX));
    let error = codec.header(1 << 32).unwrap_err();
    assert_eq!(
        error,
        FrameError::PayloadSize { payload_len: 4_294_967_296, max_size: 4_294_967_295 }
    );
    assert_eq!(
        error.message(),
        "Frame payload size 4294967296 exceeds maximum allowed size 4294967295"
    );
    // Where the limit is lower, it is the limit that is reported.
    assert_eq!(
        FrameCodec::new(10).header(1 << 32),
        Err(FrameError::PayloadSize { payload_len: 4_294_967_296, max_size: 10 })
    );
}

#[test]
fn payload_of_a_frame_is_what_it_was_made_from() {
    assert_eq!(Frame::new("h\u{e9}llo").payload, "h\u{e9}llo".as_bytes());
    assert_eq!(Frame::new(String::from("text")).payload, &b"text"[..]);
    assert_eq!(Frame::new(vec![0u8, 255, 7]).payload, [0u8, 255, 7][..]);
    assert_eq!(Frame::new(Bytes::from_static(b"raw")).payload, &b"raw"[..]);
    assert_eq!(Frame::new(&b"slice"[..]).payload, &b"slice"[..]);
    assert_eq!(Frame::new(vec![1u8, 2].into_boxed_slice()).payload, [1u8, 2][..]);
    assert_eq!(Frame::new(BytesMut::from(&b"buffer"[..])).payload, &b"buffer"[..]);
}
