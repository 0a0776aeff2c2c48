//! What the library takes on trust about the byte containers of the `bytes` crate.
//!
//! A [`BytesMut`] is a growable buffer and a [`Bytes`] an immutable, cheaply shared string of
//! bytes. Verus sees nothing inside either of them, so [`buffer_content`] and [`bytes_content`]
//! name the bytes that they hold, and every operation below says what it does to those bytes.
//! How much memory a buffer has allocated is left out: no decision of the library rests on it.
//! A buffer may keep room that bytes taken off its front have left, and an allocation may fail;
//! neither is stated of the operations that let a buffer grow.

use bytes::{Buf, BufMut, Bytes, BytesMut};
use vstd::prelude::*;
use vstd::utf8::encode_utf8;

use crate::wire::be_bytes;

verus! {

/// The type `bytes::Bytes`, held as an opaque value.
#[verifier::external_type_specification]
#[verifier::external_body]
pub struct ExBytes(Bytes);

/// The type `bytes::BytesMut`, held as an opaque value.
#[verifier::external_type_specification]
#[verifier::external_body]
pub struct ExBytesMut(BytesMut);

/// The bytes that a `Bytes` holds.
pub uninterp spec fn bytes_content(bytes: Bytes) -> Seq<u8>;

/// The bytes that a `BytesMut` holds: those between its read head and its end.
pub uninterp spec fn buffer_content(buf: BytesMut) -> Seq<u8>;

/// `V::from` on a value that is a `V` already returns it unchanged: a payload given as `Bytes`
/// goes through the conversion as it is.
pub assume_specification<V>[ <V as From<V>>::from ](value: V) -> (same: V)
    ensures
        same == value,
;

/// `Bytes::from` on a string literal yields its UTF-8 bytes. `Frame::new` comes here, through its
/// `Into` bound, for a payload of that type; so it does for the others below.
pub assume_specification[ <Bytes as From<&'static str>>::from ](text: &'static str) -> (bytes:
    Bytes)
    ensures
        bytes_content(bytes) == encode_utf8(text@),
;

/// `Bytes::from` on a `String` yields its UTF-8 bytes.
pub assume_specification[ <Bytes as From<String>>::from ](text: String) -> (bytes: Bytes)
    ensures
        bytes_content(bytes) == encode_utf8(text@),
;

/// `Bytes::from` on a vector of bytes yields those bytes.
pub assume_specification[ <Bytes as From<Vec<u8>>>::from ](vec: Vec<u8>) -> (bytes: Bytes)
    ensures
        bytes_content(bytes) == vec@,
;

/// `Bytes::from` on a static slice yields its bytes.
pub assume_specification[ <Bytes as From<&'static [u8]>>::from ](slice: &'static [u8]) -> (bytes:
    Bytes)
    ensures
        bytes_content(bytes) == slice@,
;

/// `Bytes::from` on a boxed slice yields its bytes.
pub assume_specification[ <Bytes as From<Box<[u8]>>>::from ](slice: Box<[u8]>) -> (bytes: Bytes)
    ensures
        bytes_content(bytes) == (*slice)@,
;

/// `Bytes::from` on a `BytesMut` yields the bytes that it holds.
pub assume_specification[ <Bytes as From<BytesMut>>::from ](buf: BytesMut) -> (bytes: Bytes)
    ensures
        bytes_content(bytes) == buffer_content(buf),
;

/// `Bytes::len` returns the number of bytes held.
pub assume_specification[ Bytes::len ](bytes: &Bytes) -> (len: usize)
    ensures
        len == bytes_content(*bytes).len(),
;

/// `Bytes::clone` hands out a second handle on the same bytes.
pub assume_specification[ <Bytes as Clone>::clone ](bytes: &Bytes) -> (copy: Bytes)
    ensures
        bytes_content(copy) == bytes_content(*bytes),
;

/// `==` on two `Bytes` compares the bytes held.
pub assume_specification[ <Bytes as PartialEq>::eq ](left: &Bytes, right: &Bytes) -> (equal: bool)
    ensures
        equal == (bytes_content(*left) == bytes_content(*right)),
;

/// `BytesMut::len` returns the number of bytes held.
pub assume_specification[ BytesMut::len ](buf: &BytesMut) -> (len: usize)
    ensures
        len == buffer_content(*buf).len(),
;

/// `BytesMut::reserve` makes room for `additional` more bytes and leaves the held ones as they
/// are. An allocation cannot exceed `isize::MAX` bytes; a request beyond that panics.
pub assume_specification[ BytesMut::reserve ](buf: &mut BytesMut, additional: usize)
    requires
        buffer_content(*old(buf)).len() + additional <= isize::MAX,
    ensures
        buffer_content(*final(buf)) == buffer_content(*old(buf)),
;

/// `BytesMut::split_to` removes the first `at` bytes and returns them in a buffer of their own.
/// It panics where fewer than `at` bytes are held.
pub assume_specification[ BytesMut::split_to ](buf: &mut BytesMut, at: usize) -> (head: BytesMut)
    requires
        at <= buffer_content(*old(buf)).len(),
    ensures
        buffer_content(head) == buffer_content(*old(buf)).take(at as int),
        buffer_content(*final(buf)) == buffer_content(*old(buf)).skip(at as int),
;

/// `BytesMut::freeze` turns the buffer into an immutable `Bytes` that holds the same bytes.
pub assume_specification[ BytesMut::freeze ](buf: BytesMut) -> (bytes: Bytes)
    ensures
        bytes_content(bytes) == buffer_content(buf),
;

/// `BytesMut::deref` shows the bytes held as a slice.
pub assume_specification[ <BytesMut as core::ops::Deref>::deref ](buf: &BytesMut) -> (slice: &[u8])
    ensures
        slice@ == buffer_content(*buf),
;

/// `Buf::advance` on a `BytesMut` moves the read head past the first `cnt` bytes. It panics where
/// fewer than `cnt` bytes are held.
pub assume_specification[ <BytesMut as Buf>::advance ](buf: &mut BytesMut, cnt: usize)
    requires
        cnt <= buffer_content(*old(buf)).len(),
    ensures
        buffer_content(*final(buf)) == buffer_content(*old(buf)).skip(cnt as int),
;

/// `BufMut::put_u32` on a `BytesMut` appends the four bytes of `n`, most significant first. It
/// panics where the buffer would outgrow `isize::MAX` bytes.
#[verifier::external_body]
pub(crate) fn put_u32(buf: &mut BytesMut, n: u32)
    requires
        buffer_content(*old(buf)).len() + 4 <= isize::MAX,
    ensures
        buffer_content(*final(buf)) == buffer_content(*old(buf)) + be_bytes(n),
{
    buf.put_u32(n)
}

/// `BufMut::put` on a `BytesMut`, given a `Bytes`, appends all the bytes that it holds. It panics
/// where the buffer would outgrow `isize::MAX` bytes.
#[verifier::external_body]
pub(crate) fn put(buf: &mut BytesMut, bytes: Bytes)
    requires
        buffer_content(*old(buf)).len() + bytes_content(bytes).len() <= isize::MAX,
    ensures
        buffer_content(*final(buf)) == buffer_content(*old(buf)) + bytes_content(bytes),
{
    buf.put(bytes)
}

} // verus!
