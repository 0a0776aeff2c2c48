//! Frames and the codec that puts them on the wire and takes them off it.

use bytes::{Buf, Bytes, BytesMut};
use vstd::prelude::*;
use vstd::std_specs::cmp::PartialEqSpec;
use vstd::string::StringExecFns;

use crate::buffer::{buffer_content, bytes_content, put, put_u32};
use crate::text::{decimal, push_decimal};
use crate::wire::{
    after_frame, be_value, encoded, law_payload_stands_verbatim_on_the_wire, read_be_u32,
    read_frame, sendable, Reading, U32_SIZE,
};

verus! {

/// The limit on a payload's length where the codec was given none: 8 MB.
pub const DEFAULT_MAX_FRAME_SIZE: usize = 8 * 1024 * 1024;

/// A wire-protocol message that carries an arbitrary byte payload. Its view is the payload.
#[derive(Debug)]
pub struct Frame {
    pub payload: Bytes,
}

impl View for Frame {
    type V = Seq<u8>;

    open spec fn view(&self) -> Seq<u8> {
        bytes_content(self.payload)
    }
}

impl Frame {
    /// A frame with the given payload: what the conversion of `payload` into `Bytes` returns.
    pub fn new(payload: impl Into<Bytes>) -> (frame: Self)
        ensures
            call_ensures(Into::<Bytes>::into, (payload,), frame.payload),
    {
        Frame { payload: payload.into() }
    }
}

impl Clone for Frame {
    fn clone(&self) -> (copy: Self)
        ensures
            copy@ == self@,
            bytes_content(copy.payload) == bytes_content(self.payload),
    {
        Frame { payload: self.payload.clone() }
    }
}

impl PartialEq for Frame {
    fn eq(&self, other: &Self) -> (equal: bool) {
        self.payload == other.payload
    }
}

impl vstd::std_specs::cmp::PartialEqSpecImpl for Frame {
    open spec fn obeys_eq_spec() -> bool {
        true
    }

    /// Two frames are equal when their payloads are.
    open spec fn eq_spec(&self, other: &Self) -> bool {
        self@ == other@
    }
}

impl Eq for Frame {

}

/// A frame is its payload and nothing else: what contracts say of a frame they say of the bytes of
/// its payload, and frames compare equal just where those bytes are the same.
pub proof fn law_frame_is_its_payload(one: Frame, other: Frame)
    ensures
        one@ == bytes_content(one.payload),
        Frame::obeys_eq_spec(),
        one.eq_spec(&other) <==> bytes_content(one.payload) == bytes_content(other.payload),
{
}

/// The class of an error, as an I/O layer reports it.
#[derive(Debug, Clone, Copy, PartialEq, Eq, Structural)]
pub enum ErrorKind {
    /// What a peer sent is not acceptable.
    InvalidData,
    /// What the caller asked for is not acceptable.
    InvalidInput,
}

/// Why the codec refused a frame.
#[derive(Debug, Clone, Copy, PartialEq, Eq, Structural)]
pub enum FrameError {
    /// The header that was received declares a payload longer than the limit.
    DeclaredLength { payload_len: usize, max_size: usize },
    /// The payload that was to be sent is longer than the limit, or than a header can announce.
    PayloadSize { payload_len: usize, max_size: usize },
}

impl FrameError {
    /// The text that describes the error.
    pub open spec fn text(self) -> Seq<char> {
        match self {
            FrameError::DeclaredLength { payload_len, max_size } => "Frame length "@ + decimal(
                payload_len as nat,
            ) + " exceeds maximum allowed size "@ + decimal(max_size as nat),
            FrameError::PayloadSize { payload_len, max_size } => "Frame payload size "@ + decimal(
                payload_len as nat,
            ) + " exceeds maximum allowed size "@ + decimal(max_size as nat),
        }
    }

    /// The class of the error: a frame that was received is bad data, one that was to be sent is
    /// bad input.
    pub fn kind(&self) -> (kind: ErrorKind)
        ensures
            kind == (match *self {
                FrameError::DeclaredLength { .. } => ErrorKind::InvalidData,
                FrameError::PayloadSize { .. } => ErrorKind::InvalidInput,
            }),
    {
        match *self {
            FrameError::DeclaredLength { .. } => ErrorKind::InvalidData,
            FrameError::PayloadSize { .. } => ErrorKind::InvalidInput,
        }
    }

    /// Describes the error in words.
    pub fn message(&self) -> (message: String)
        ensures
            message@ == self.text(),
            message@ == (match *self {
                FrameError::DeclaredLength { payload_len, max_size } => "Frame length "@ + decimal(
                    payload_len as nat,
                ) + " exceeds maximum allowed size "@ + decimal(max_size as nat),
                FrameError::PayloadSize { payload_len, max_size } => "Frame payload size "@
                    + decimal(payload_len as nat) + " exceeds maximum allowed size "@ + decimal(
                    max_size as nat,
                ),
            }),
    {
        let (subject, payload_len, max_size) = match *self {
            FrameError::DeclaredLength { payload_len, max_size } => (
                "Frame length ",
                payload_len,
                max_size,
            ),
            FrameError::PayloadSize { payload_len, max_size } => (
                "Frame payload size ",
                payload_len,
                max_size,
            ),
        };
        let mut message = String::from_str(subject);
        push_decimal(&mut message, payload_len);
        message.append(" exceeds maximum allowed size ");
        push_decimal(&mut message, max_size);
        message
    }
}

/// Codec for length-prefixed frames:
/// `[ 4-byte big-endian length (u32) ] [ payload bytes... ]`
#[derive(Debug)]
pub struct FrameCodec {
    /// The longest payload allowed; zero stands for `DEFAULT_MAX_FRAME_SIZE`.
    max_frame_size: usize,
}

impl FrameCodec {
    /// The longest payload that the codec lets through.
    pub closed spec fn limit(&self) -> nat {
        if self.max_frame_size > 0 {
            self.max_frame_size as nat
        } else {
            DEFAULT_MAX_FRAME_SIZE as nat
        }
    }

    /// Whether the frame that `bytes` begin, if its rest is still to come, is one that a buffer
    /// can hold. Every frame is on a machine with 64-bit addresses; on a smaller one, every frame
    /// of a codec with a limit below half the address space.
    pub open spec fn can_hold_rest(&self, bytes: Seq<u8>) -> bool {
        U32_SIZE <= bytes.len() < U32_SIZE + be_value(bytes) && be_value(bytes) <= self.limit()
            ==> U32_SIZE + be_value(bytes) <= isize::MAX
    }

    /// A codec that lets payloads of up to `max_frame_size` bytes through, or of up to
    /// `DEFAULT_MAX_FRAME_SIZE` where that is zero.
    pub fn new(max_frame_size: usize) -> (codec: Self)
        ensures
            codec.limit() == if max_frame_size > 0 {
                max_frame_size
            } else {
                DEFAULT_MAX_FRAME_SIZE
            },
            max_frame_size == 0 ==> codec.limit() == 8_388_608,
    {
        FrameCodec { max_frame_size }
    }

    fn max_size(&self) -> (max_size: usize)
        ensures
            max_size == self.limit(),
    {
        if self.max_frame_size > 0 {
            self.max_frame_size
        } else {
            DEFAULT_MAX_FRAME_SIZE
        }
    }

    /// The header of a frame with a payload of `payload_len` bytes, which is that length; or why
    /// there is none, where the payload is over the limit or too long for a header to announce.
    pub fn header(&self, payload_len: usize) -> (header: Result<u32, FrameError>)
        ensures
            self.limit() <= usize::MAX,
            if payload_len > self.limit() {
                header == Err::<u32, FrameError>(
                    FrameError::PayloadSize { payload_len, max_size: self.limit() as usize },
                )
            } else if payload_len > u32::MAX {
                header == Err::<u32, FrameError>(
                    FrameError::PayloadSize { payload_len, max_size: u32::MAX as usize },
                )
            } else {
                header == Ok::<u32, FrameError>(payload_len as u32)
            },
    {
        let max_size: usize = self.max_size();
        if payload_len > max_size {
            return Err(FrameError::PayloadSize { payload_len, max_size });
        }
        if payload_len > u32::MAX as usize {
            return Err(FrameError::PayloadSize { payload_len, max_size: u32::MAX as usize });
        }
        Ok(payload_len as u32)
    }

    /// Takes one frame off the front of `src`.
    ///
    /// Where no whole frame has arrived the answer is `None`, and where the header declares a
    /// payload over the limit it is an error; either way `src` keeps every byte. A frame that is
    /// handed out has left `src` with its header, and the bytes behind it stay.
    pub fn decode(&mut self, src: &mut BytesMut) -> (decoded: Result<Option<Frame>, FrameError>)
        requires
            old(self).can_hold_rest(buffer_content(*old(src))),
        ensures
            *final(self) == *old(self),
            match read_frame(old(self).limit(), buffer_content(*old(src))) {
                Reading::Incomplete => {
                    &&& decoded == Ok::<Option<Frame>, FrameError>(None)
                    &&& buffer_content(*final(src)) == buffer_content(*old(src))
                },
                Reading::Oversized { declared } => {
                    &&& decoded == Err::<Option<Frame>, FrameError>(
                        FrameError::DeclaredLength {
                            payload_len: declared as usize,
                            max_size: old(self).limit() as usize,
                        },
                    )
                    &&& declared <= usize::MAX
                    &&& old(self).limit() <= usize::MAX
                    &&& buffer_content(*final(src)) == buffer_content(*old(src))
                },
                Reading::Complete { payload } => {
                    &&& decoded matches Ok(Some(frame)) && frame@ == payload
                    &&& buffer_content(*final(src)) == after_frame(
                        buffer_content(*old(src)),
                        payload,
                    )
                },
            },
            decoded matches Ok(Some(frame)) ==> {
                let bytes = buffer_content(*old(src));
                let payload = bytes_content(frame.payload);
                &&& bytes.len() >= 4 + payload.len()
                &&& payload.len() <= old(self).limit()
                &&& payload.len() == bytes[0] * 0x100_0000 + bytes[1] * 0x1_0000 + bytes[2] * 0x100
                    + bytes[3]
                &&& bytes == bytes.take(4) + payload + buffer_content(*final(src))
            },
            !(decoded matches Ok(Some(_))) ==> buffer_content(*final(src)) == buffer_content(
                *old(src),
            ),
    {
        if src.len() < U32_SIZE {
            // Not enough bytes for the length prefix.
            return Ok(None);
        }
        // The read head stays before the prefix until the whole frame is there.
        let payload_len: usize = read_be_u32(&**src) as usize;
        let max_size: usize = self.max_size();
        if payload_len > max_size {
            return Err(FrameError::DeclaredLength { payload_len, max_size });
        }
        let arrived: usize = src.len() - U32_SIZE;
        if arrived < payload_len {
            // Room for the rest at once, rather than piece by piece.
            src.reserve(payload_len - arrived);
            return Ok(None);
        }
        src.advance(U32_SIZE);
        let payload = src.split_to(payload_len).freeze();
        let frame = Frame::new(payload);
        proof {
            let bytes = buffer_content(*old(src));
            assert(frame@ =~= bytes.subrange(U32_SIZE as int, U32_SIZE + payload_len));
            assert(buffer_content(*src) =~= after_frame(bytes, frame@));
            assert(bytes =~= bytes.take(4) + frame@ + buffer_content(*src));
        }
        Ok(Some(frame))
    }

    /// Puts a frame at the end of `dst`, header first. A payload over the limit is refused, and so
    /// is one too long for the header to announce; `dst` then stays as it was.
    pub fn encode(&mut self, item: Frame, dst: &mut BytesMut) -> (encoded_item: Result<
        (),
        FrameError,
    >)
        requires
            sendable(old(self).limit(), item@) ==> buffer_content(*old(dst)).len() + U32_SIZE
                + item@.len() <= isize::MAX,
        ensures
            *final(self) == *old(self),
            if sendable(old(self).limit(), item@) {
                &&& encoded_item == Ok::<(), FrameError>(())
                &&& buffer_content(*final(dst)) == buffer_content(*old(dst)) + encoded(item@)
            } else {
                &&& encoded_item == Err::<(), FrameError>(
                    FrameError::PayloadSize {
                        payload_len: item@.len() as usize,
                        max_size: if item@.len() > old(self).limit() {
                            old(self).limit() as usize
                        } else {
                            u32::MAX as usize
                        },
                    },
                )
                &&& item@.len() <= usize::MAX
                &&& old(self).limit() <= usize::MAX
                &&& buffer_content(*final(dst)) == buffer_content(*old(dst))
            },
            encoded_item is Ok <==> bytes_content(item.payload).len() <= old(self).limit()
                && bytes_content(item.payload).len() <= 0xffff_ffff,
            encoded_item is Ok ==> {
                let before = buffer_content(*old(dst));
                let payload = bytes_content(item.payload);
                let header = buffer_content(*final(dst)).skip(before.len() as int).take(4);
                &&& buffer_content(*final(dst)) == before + header + payload
                &&& payload.len() == header[0] * 0x100_0000 + header[1] * 0x1_0000 + header[2]
                    * 0x100 + header[3]
            },
    {
        let payload_len: usize = item.payload.len();
        let header: u32 = match self.header(payload_len) {
            Ok(header) => header,
            Err(err) => {
                return Err(err);
            },
        };
        dst.reserve(U32_SIZE + payload_len);
        put_u32(dst, header);
        put(dst, item.payload);
        proof {
            let before = buffer_content(*old(dst));
            let all = buffer_content(*dst);
            assert(all =~= before + encoded(item@));
            assert(all.skip(before.len() as int) =~= encoded(item@));
            law_payload_stands_verbatim_on_the_wire(item@);
            assert(all =~= before + encoded(item@).take(4) + item@);
        }
        Ok(())
    }
}

/// The text of an error says what was refused and names the two lengths, the payload's before the
/// limit's.
pub proof fn law_error_text_names_both_lengths(payload_len: usize, max_size: usize)
    ensures
        (FrameError::DeclaredLength { payload_len, max_size }).text() == "Frame length "@ + decimal(
            payload_len as nat,
        ) + " exceeds maximum allowed size "@ + decimal(max_size as nat),
        (FrameError::PayloadSize { payload_len, max_size }).text() == "Frame payload size "@
            + decimal(payload_len as nat) + " exceeds maximum allowed size "@ + decimal(
            max_size as nat,
        ),
{
}

/// Room is called for in one case alone: the header is there, it declares no more than the limit,
/// and bytes of the payload are still to come.
pub proof fn law_room_is_called_for_by_the_header_alone(codec: FrameCodec, bytes: Seq<u8>)
    ensures
        bytes.len() < 4 ==> codec.can_hold_rest(bytes),
        bytes.len() >= 4 ==> {
            let declared = bytes[0] * 0x100_0000 + bytes[1] * 0x1_0000 + bytes[2] * 0x100
                + bytes[3];
            codec.can_hold_rest(bytes) <==> (declared <= codec.limit() && bytes.len() < 4 + declared
                ==> 4 + declared <= isize::MAX)
        },
{
}

/// Whatever has arrived, a buffer can hold the rest of the frame on a machine with 64-bit
/// addresses, and on any machine where the limit and the header fit into an allocation.
pub proof fn law_rest_of_a_frame_can_be_held(codec: FrameCodec, bytes: Seq<u8>)
    requires
        usize::BITS == 64 || codec.limit() + U32_SIZE <= isize::MAX,
    ensures
        codec.can_hold_rest(bytes),
{
}

impl Default for FrameCodec {
    /// A codec with the limit `DEFAULT_MAX_FRAME_SIZE`.
    fn default() -> (codec: Self)
        ensures
            codec.limit() == DEFAULT_MAX_FRAME_SIZE,
            codec.limit() == 8_388_608,
    {
        FrameCodec { max_frame_size: 0 }
    }
}

} // verus!
