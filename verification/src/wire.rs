//! The wire format: `[ 4-byte big-endian length ][ payload ]`, frame after frame.
//!
//! The spec functions here say what the bytes on a connection mean, and the laws say what a peer
//! can rely on: what is written reads back, an unfinished frame is never mistaken for a whole
//! one, and how the network cuts the stream into pieces makes no difference.

use vstd::prelude::*;

verus! {

/// The length of a frame's header, in bytes.
pub const U32_SIZE: usize = 4;

/// The four bytes of `n`, most significant first.
pub open spec fn be_bytes(n: u32) -> Seq<u8> {
    seq![
        (n / 0x100_0000) as u8,
        (n / 0x1_0000 % 0x100) as u8,
        (n / 0x100 % 0x100) as u8,
        (n % 0x100) as u8,
    ]
}

/// The number that the first four of `bytes` stand for, most significant first.
pub open spec fn be_value(bytes: Seq<u8>) -> nat
    recommends
        bytes.len() >= U32_SIZE,
{
    (bytes[0] * 0x100_0000 + bytes[1] * 0x1_0000 + bytes[2] * 0x100 + bytes[3]) as nat
}

/// What stands on the wire for a frame: the payload's length, then the payload. A payload longer
/// than a header can announce has no place on the wire.
pub open spec fn encoded(payload: Seq<u8>) -> Seq<u8>
    recommends
        payload.len() <= u32::MAX,
{
    be_bytes(payload.len() as u32) + payload
}

/// What stands on the wire for several frames, one after the other.
pub open spec fn encoded_all(payloads: Seq<Seq<u8>>) -> Seq<u8>
    decreases payloads.len(),
{
    if payloads.len() == 0 {
        Seq::empty()
    } else {
        encoded(payloads[0]) + encoded_all(payloads.skip(1))
    }
}

/// A payload that a header can announce and that the limit allows.
pub open spec fn sendable(limit: nat, payload: Seq<u8>) -> bool {
    payload.len() <= limit && payload.len() <= u32::MAX
}

/// What the bytes received so far say about the frame that they begin.
pub enum Reading {
    /// The header or the payload has not arrived in full.
    Incomplete,
    /// The header declares a payload longer than the limit.
    Oversized { declared: nat },
    /// A whole frame has arrived.
    Complete { payload: Seq<u8> },
}

/// Reads the frame at the start of `bytes`, under a limit on the payload's length.
pub open spec fn read_frame(limit: nat, bytes: Seq<u8>) -> Reading {
    if bytes.len() < U32_SIZE {
        Reading::Incomplete
    } else if be_value(bytes) > limit {
        Reading::Oversized { declared: be_value(bytes) }
    } else if bytes.len() < U32_SIZE + be_value(bytes) {
        Reading::Incomplete
    } else {
        Reading::Complete { payload: bytes.subrange(U32_SIZE as int, U32_SIZE + be_value(bytes)) }
    }
}

/// The bytes that follow the frame at the start of `bytes`.
pub open spec fn after_frame(bytes: Seq<u8>, payload: Seq<u8>) -> Seq<u8> {
    bytes.skip((U32_SIZE + payload.len()) as int)
}

/// The payloads of all the whole frames at the start of `bytes`, in order.
pub open spec fn frames_in(limit: nat, bytes: Seq<u8>) -> Seq<Seq<u8>>
    decreases bytes.len(),
{
    match read_frame(limit, bytes) {
        Reading::Complete { payload } => seq![payload] + frames_in(
            limit,
            after_frame(bytes, payload),
        ),
        _ => Seq::empty(),
    }
}

/// What is left of `bytes` once all the whole frames at its start have been taken off.
pub open spec fn leftover(limit: nat, bytes: Seq<u8>) -> Seq<u8>
    decreases bytes.len(),
{
    match read_frame(limit, bytes) {
        Reading::Complete { payload } => leftover(limit, after_frame(bytes, payload)),
        _ => bytes,
    }
}

/// Reads a header: the first four bytes of `bytes` as a number.
pub fn read_be_u32(bytes: &[u8]) -> (n: u32)
    requires
        bytes@.len() >= U32_SIZE,
    ensures
        n == be_value(bytes@),
        n == bytes@[0] * 0x100_0000 + bytes@[1] * 0x1_0000 + bytes@[2] * 0x100 + bytes@[3],
{
    (bytes[0] as u32) * 0x100_0000 + (bytes[1] as u32) * 0x1_0000 + (bytes[2] as u32) * 0x100 + (
    bytes[3] as u32)
}

/// A header is four bytes long, and the first of them counts most: weighed by the powers of 256,
/// the bytes add up to the number that was written.
pub proof fn law_header_is_big_endian(n: u32)
    ensures
        U32_SIZE == 4,
        be_bytes(n).len() == 4,
        n == be_bytes(n)[0] * 0x100_0000 + be_bytes(n)[1] * 0x1_0000 + be_bytes(n)[2] * 0x100
            + be_bytes(n)[3],
{
}

/// A payload stands on the wire byte for byte, right behind four bytes that add up to its length,
/// and nothing follows it.
pub proof fn law_payload_stands_verbatim_on_the_wire(payload: Seq<u8>)
    requires
        payload.len() <= u32::MAX,
    ensures
        encoded(payload).len() == 4 + payload.len(),
        forall|i: int|
            0 <= i < payload.len() ==> #[trigger] payload[i] == encoded(payload)[4 + i],
        payload.len() == encoded(payload)[0] * 0x100_0000 + encoded(payload)[1] * 0x1_0000
            + encoded(payload)[2] * 0x100 + encoded(payload)[3],
{
    law_header_is_big_endian(payload.len() as u32);
}

/// What is read off the wire is what stands there: the payload is as long as the four bytes of
/// the header say, its bytes are those behind the header, one by one, and the bytes behind it
/// stay, one by one.
pub proof fn law_read_payload_is_what_stands_on_the_wire(limit: nat, bytes: Seq<u8>)
    ensures
        read_frame(limit, bytes) matches Reading::Complete { payload } ==> {
            &&& bytes.len() >= 4 + payload.len()
            &&& payload.len() == bytes[0] * 0x100_0000 + bytes[1] * 0x1_0000 + bytes[2] * 0x100
                + bytes[3]
            &&& forall|i: int| 0 <= i < payload.len() ==> #[trigger] payload[i] == bytes[4 + i]
            &&& after_frame(bytes, payload).len() == bytes.len() - 4 - payload.len()
            &&& forall|i: int|
                0 <= i < bytes.len() - 4 - payload.len() ==> #[trigger] after_frame(
                    bytes,
                    payload,
                )[i] == bytes[4 + payload.len() + i]
        },
{
}

/// Three things can be said of the bytes received, and the length that the header declares tells
/// which. A frame is refused just where the header is there and declares more than the limit; it
/// is whole just where the header is there, declares no more than the limit, and as many bytes
/// follow as it declares; in every other case more bytes are called for.
pub proof fn law_header_decides_the_reading(limit: nat, bytes: Seq<u8>)
    ensures
        bytes.len() < 4 ==> read_frame(limit, bytes) is Incomplete,
        bytes.len() >= 4 ==> {
            let declared = bytes[0] * 0x100_0000 + bytes[1] * 0x1_0000 + bytes[2] * 0x100
                + bytes[3];
            &&& read_frame(limit, bytes) is Oversized <==> declared > limit
            &&& read_frame(limit, bytes) matches Reading::Oversized { declared: told }
                ==> told == declared
            &&& read_frame(limit, bytes) is Complete <==> declared <= limit && bytes.len() >= 4
                + declared
            &&& read_frame(limit, bytes) is Incomplete <==> declared <= limit && bytes.len() < 4
                + declared
        },
{
}

/// A payload may be sent just where it is no longer than the limit and than four bytes can tell.
pub proof fn law_sendable_is_a_matter_of_length(limit: nat, payload: Seq<u8>)
    ensures
        sendable(limit, payload) <==> payload.len() <= limit && payload.len() <= 0xffff_ffff,
{
}

/// Frames stand on the wire one after the other, with nothing between them: what stands there
/// for two series in a row is what stands there for the first and then for the second, and for a
/// series of one it is that frame.
pub proof fn law_frames_stand_one_after_the_other(
    first: Seq<Seq<u8>>,
    second: Seq<Seq<u8>>,
    payload: Seq<u8>,
)
    ensures
        encoded_all(Seq::empty()) == Seq::<u8>::empty(),
        encoded_all(seq![payload]) == encoded(payload),
        encoded_all(first + second) == encoded_all(first) + encoded_all(second),
    decreases first.len(),
{
    reveal_with_fuel(encoded_all, 2);
    assert(seq![payload].skip(1) =~= Seq::empty());
    assert(encoded_all(seq![payload]) =~= encoded(payload));
    if first.len() == 0 {
        assert(first + second =~= second);
        assert(encoded_all(first) + encoded_all(second) =~= encoded_all(second));
    } else {
        law_frames_stand_one_after_the_other(first.skip(1), second, payload);
        assert((first + second).skip(1) =~= first.skip(1) + second);
        assert(encoded_all(first + second) =~= encoded_all(first) + encoded_all(second));
    }
}

/// A header reads back as the number that was written.
pub proof fn law_header_reads_back(n: u32, rest: Seq<u8>)
    ensures
        be_value(be_bytes(n) + rest) == n,
{
}

/// A frame reads back as it was written: the payload comes out whole, and the bytes behind the
/// frame are left as they are.
pub proof fn law_frame_reads_back(limit: nat, payload: Seq<u8>, rest: Seq<u8>)
    requires
        sendable(limit, payload),
    ensures
        read_frame(limit, encoded(payload) + rest) == (Reading::Complete { payload }),
        after_frame(encoded(payload) + rest, payload) == rest,
{
    let bytes = encoded(payload) + rest;
    assert(bytes =~= be_bytes(payload.len() as u32) + (payload + rest));
    law_header_reads_back(payload.len() as u32, payload + rest);
    assert(bytes.subrange(4, 4int + payload.len()) =~= payload);
    assert(after_frame(bytes, payload) =~= rest);
}

/// The four digits, to the base 256, of a number made of four bytes are those bytes.
proof fn lemma_digits(n: u32, a: u8, b: u8, c: u8, d: u8)
    by (bit_vector)
    requires
        n == a * 0x100_0000 + b * 0x1_0000 + c * 0x100 + d,
    ensures
        n / 0x100_0000 == a,
        n / 0x1_0000 % 0x100 == b,
        n / 0x100 % 0x100 == c,
        n % 0x100 == d,
{
}

/// Reading is exact: the bytes that a frame was read from are the bytes that writing its payload
/// gives.
pub proof fn law_reading_inverts_writing(limit: nat, bytes: Seq<u8>)
    ensures
        read_frame(limit, bytes) matches Reading::Complete { payload } ==> {
            &&& payload.len() <= limit
            &&& payload.len() <= u32::MAX
            &&& bytes == encoded(payload) + after_frame(bytes, payload)
        },
{
    if let Reading::Complete { payload } = read_frame(limit, bytes) {
        let n = be_value(bytes) as u32;
        lemma_digits(n, bytes[0], bytes[1], bytes[2], bytes[3]);
        assert(be_bytes(n) =~= bytes.take(4));
        assert(bytes =~= encoded(payload) + after_frame(bytes, payload));
    }
}

/// A frame that has not arrived in full is never taken for a whole one, nor refused: every
/// proper prefix of it calls for more bytes.
pub proof fn law_partial_frame_is_incomplete(limit: nat, payload: Seq<u8>, arrived: nat)
    requires
        sendable(limit, payload),
        arrived < encoded(payload).len(),
    ensures
        read_frame(limit, encoded(payload).take(arrived as int)) == Reading::Incomplete,
{
    let prefix = encoded(payload).take(arrived as int);
    if arrived >= 4 {
        assert(prefix =~= be_bytes(payload.len() as u32) + payload.take(arrived - 4));
        law_header_reads_back(payload.len() as u32, payload.take(arrived - 4));
    }
}

/// What has been decided stays decided: bytes that arrive later change neither the frame read
/// nor the refusal of one.
pub proof fn law_reading_is_stable(limit: nat, bytes: Seq<u8>, more: Seq<u8>)
    requires
        read_frame(limit, bytes) != Reading::Incomplete,
    ensures
        read_frame(limit, bytes + more) == read_frame(limit, bytes),
        read_frame(limit, bytes) matches Reading::Complete { payload } ==> after_frame(
            bytes + more,
            payload,
        ) == after_frame(bytes, payload) + more,
{
    assert(be_value(bytes + more) == be_value(bytes));
    if let Reading::Complete { payload } = read_frame(limit, bytes) {
        assert((bytes + more).subrange(4, 4int + payload.len()) =~= payload);
        assert(after_frame(bytes + more, payload) =~= after_frame(bytes, payload) + more);
    }
}

/// A payload over the limit is refused as soon as the header is there, whatever follows it.
pub proof fn law_oversized_refused_at_header(limit: nat, declared: u32, rest: Seq<u8>)
    requires
        declared > limit,
    ensures
        read_frame(limit, be_bytes(declared) + rest) == (Reading::Oversized {
            declared: declared as nat,
        }),
{
    law_header_reads_back(declared, rest);
}

/// Reader and writer draw the line at the same place: what a header can announce is refused when
/// it is read just where its payload is over the limit.
pub proof fn law_limit_is_the_same_for_both_sides(limit: nat, payload: Seq<u8>, rest: Seq<u8>)
    requires
        payload.len() <= u32::MAX,
    ensures
        read_frame(limit, encoded(payload) + rest) is Oversized <==> payload.len() > limit,
{
    if payload.len() > limit {
        assert(encoded(payload) + rest =~= be_bytes(payload.len() as u32) + (payload + rest));
        law_oversized_refused_at_header(limit, payload.len() as u32, payload + rest);
    } else {
        law_frame_reads_back(limit, payload, rest);
    }
}

/// Frames written one after the other come out one after the other, in the order in which they
/// were written, and what follows them is read as if it stood alone.
pub proof fn law_stream_reads_back(limit: nat, payloads: Seq<Seq<u8>>, rest: Seq<u8>)
    requires
        forall|i: int| 0 <= i < payloads.len() ==> sendable(limit, #[trigger] payloads[i]),
    ensures
        frames_in(limit, encoded_all(payloads) + rest) == payloads + frames_in(limit, rest),
        leftover(limit, encoded_all(payloads) + rest) == leftover(limit, rest),
    decreases payloads.len(),
{
    if payloads.len() == 0 {
        assert(encoded_all(payloads) + rest =~= rest);
        assert(payloads + frames_in(limit, rest) =~= frames_in(limit, rest));
    } else {
        let tail = payloads.skip(1);
        assert(sendable(limit, payloads[0]));
        assert forall|i: int| 0 <= i < tail.len() implies sendable(limit, #[trigger] tail[i]) by {
            assert(tail[i] == payloads[i + 1]);
        }
        law_stream_reads_back(limit, tail, rest);
        law_frame_reads_back(limit, payloads[0], encoded_all(tail) + rest);
        assert(encoded_all(payloads) + rest =~= encoded(payloads[0]) + (encoded_all(tail) + rest));
        assert(payloads + frames_in(limit, rest) =~= seq![payloads[0]] + (tail + frames_in(
            limit,
            rest,
        )));
    }
}

/// A stream that breaks off in the middle of a frame yields the frames before it and nothing of
/// the broken one.
pub proof fn law_broken_frame_is_discarded(
    limit: nat,
    payloads: Seq<Seq<u8>>,
    broken: Seq<u8>,
    arrived: nat,
)
    requires
        forall|i: int| 0 <= i < payloads.len() ==> sendable(limit, #[trigger] payloads[i]),
        sendable(limit, broken),
        arrived < encoded(broken).len(),
    ensures
        frames_in(limit, encoded_all(payloads) + encoded(broken).take(arrived as int)) == payloads,
        leftover(limit, encoded_all(payloads) + encoded(broken).take(arrived as int)) == encoded(
            broken,
        ).take(arrived as int),
{
    law_partial_frame_is_incomplete(limit, broken, arrived);
    law_stream_reads_back(limit, payloads, encoded(broken).take(arrived as int));
    assert(payloads + Seq::<Seq<u8>>::empty() =~= payloads);
}

/// How the stream is cut into pieces makes no difference: reading what has arrived, then reading
/// on from what was left with the next piece behind it, gives the frames of the whole stream.
pub proof fn law_cutting_makes_no_difference(limit: nat, first: Seq<u8>, second: Seq<u8>)
    ensures
        frames_in(limit, first + second) == frames_in(limit, first) + frames_in(
            limit,
            leftover(limit, first) + second,
        ),
        leftover(limit, first + second) == leftover(limit, leftover(limit, first) + second),
    decreases first.len(),
{
    match read_frame(limit, first) {
        Reading::Complete { payload } => {
            let behind = after_frame(first, payload);
            law_reading_is_stable(limit, first, second);
            law_cutting_makes_no_difference(limit, behind, second);
            assert(frames_in(limit, first + second) =~= frames_in(limit, first) + frames_in(
                limit,
                leftover(limit, first) + second,
            ));
        },
        _ => {
            assert(frames_in(limit, first) + frames_in(limit, first + second) =~= frames_in(
                limit,
                first + second,
            ));
        },
    }
}

/// No frame of a stream is longer than the limit, and none is made up: the frames and what is
/// left over, written out again, are the stream.
pub proof fn law_stream_is_accounted_for(limit: nat, bytes: Seq<u8>)
    ensures
        forall|i: int|
            0 <= i < frames_in(limit, bytes).len() ==> sendable(
                limit,
                #[trigger] frames_in(limit, bytes)[i],
            ),
        encoded_all(frames_in(limit, bytes)) + leftover(limit, bytes) == bytes,
        !(read_frame(limit, leftover(limit, bytes)) is Complete),
    decreases bytes.len(),
{
    match read_frame(limit, bytes) {
        Reading::Complete { payload } => {
            let behind = after_frame(bytes, payload);
            let frames = frames_in(limit, bytes);
            law_reading_inverts_writing(limit, bytes);
            law_stream_is_accounted_for(limit, behind);
            assert(frames.skip(1) =~= frames_in(limit, behind));
            assert forall|i: int| 0 <= i < frames.len() implies sendable(
                limit,
                #[trigger] frames[i],
            ) by {
                if i > 0 {
                    assert(frames[i] == frames_in(limit, behind)[i - 1]);
                }
            }
            assert(encoded_all(frames) + leftover(limit, bytes) =~= encoded(payload) + (
            encoded_all(frames_in(limit, behind)) + leftover(limit, behind)));
        },
        _ => {
            assert(encoded_all(frames_in(limit, bytes)) + leftover(limit, bytes) =~= bytes);
        },
    }
}

} // verus!
