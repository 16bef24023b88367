//! The byte buffers of the `bytes` crate, and what is relied on about them.
//!
//! Nothing here is proved: each function makes one call into `bytes`, and its contract says what
//! that call does to the bytes a buffer holds.

use bytes::Buf;
use bytes::Bytes;
use bytes::BytesMut;
use vstd::prelude::*;

verus! {

/// `bytes::BytesMut`, a growable buffer that is consumed from the front.
#[verifier::external_type_specification]
#[verifier::external_body]
pub struct ExBytesMut(BytesMut);

/// `bytes::Bytes`, an immutable run of bytes.
#[verifier::external_type_specification]
#[verifier::external_body]
pub struct ExBytes(Bytes);

/// The bytes that a [`BytesMut`] holds.
pub uninterp spec fn held(buf: BytesMut) -> Seq<u8>;

/// The bytes that a [`Bytes`] holds.
pub uninterp spec fn octets(bytes: Bytes) -> Seq<u8>;

/// `BytesMut::new`: a buffer that holds nothing.
#[verifier::external_body]
pub(crate) fn empty_buffer() -> (buf: BytesMut)
    ensures
        held(buf) == Seq::<u8>::empty(),
{
    BytesMut::new()
}

/// `BytesMut::with_capacity`: a buffer that holds nothing, with room for `capacity` bytes.
/// It panics where `capacity` is beyond what one allocation may span.
#[verifier::external_body]
pub(crate) fn buffer_with_capacity(capacity: usize) -> (buf: BytesMut)
    requires
        capacity <= isize::MAX,
    ensures
        held(buf) == Seq::<u8>::empty(),
{
    BytesMut::with_capacity(capacity)
}

/// `BytesMut::len`: how many bytes the buffer holds.
#[verifier::external_body]
pub(crate) fn buffer_len(buf: &BytesMut) -> (len: usize)
    ensures
        len == held(*buf).len(),
{
    buf.len()
}

/// `BytesMut` as a slice: the bytes it holds, in order.
#[verifier::external_body]
pub(crate) fn buffer_slice(buf: &BytesMut) -> (slice: &[u8])
    ensures
        slice@ == held(*buf),
{
    buf.as_ref()
}

/// `Buf::advance` of `BytesMut`: the first `count` bytes are dropped. It panics where the
/// buffer holds fewer.
#[verifier::external_body]
pub(crate) fn advance(buf: &mut BytesMut, count: usize)
    requires
        count <= held(*old(buf)).len(),
    ensures
        held(*final(buf)) == held(*old(buf)).skip(count as int),
{
    buf.advance(count)
}

/// `BytesMut::extend_from_slice`: the bytes of `slice` are appended.
#[verifier::external_body]
pub(crate) fn extend(buf: &mut BytesMut, slice: &[u8])
    ensures
        held(*final(buf)) == held(*old(buf)) + slice@,
{
    buf.extend_from_slice(slice)
}

/// `BytesMut::split_to`: the first `at` bytes move out, the rest stay. It panics where the
/// buffer holds fewer.
#[verifier::external_body]
pub(crate) fn split_to(buf: &mut BytesMut, at: usize) -> (front: BytesMut)
    requires
        at <= held(*old(buf)).len(),
    ensures
        held(front) == held(*old(buf)).take(at as int),
        held(*final(buf)) == held(*old(buf)).skip(at as int),
{
    buf.split_to(at)
}

/// `BytesMut::split`: everything the buffer holds moves out.
#[verifier::external_body]
pub(crate) fn split(buf: &mut BytesMut) -> (all: BytesMut)
    ensures
        held(all) == held(*old(buf)),
        held(*final(buf)) == Seq::<u8>::empty(),
{
    buf.split()
}

/// `BytesMut::clear`: everything the buffer holds is dropped.
#[verifier::external_body]
pub(crate) fn clear(buf: &mut BytesMut)
    ensures
        held(*final(buf)) == Seq::<u8>::empty(),
{
    buf.clear()
}

/// `BytesMut::freeze`: the same bytes, immutable from here on.
#[verifier::external_body]
pub(crate) fn freeze(buf: BytesMut) -> (bytes: Bytes)
    ensures
        octets(bytes) == held(buf),
{
    buf.freeze()
}

/// `Buf::copy_to_bytes` of `BytesMut`: the first `len` bytes move out, the rest stay. It panics
/// where the buffer holds fewer.
#[verifier::external_body]
pub(crate) fn take_bytes(buf: &mut BytesMut, len: usize) -> (front: Bytes)
    requires
        len <= held(*old(buf)).len(),
    ensures
        octets(front) == held(*old(buf)).take(len as int),
        held(*final(buf)) == held(*old(buf)).skip(len as int),
{
    buf.copy_to_bytes(len)
}

/// `Bytes` as a slice: the bytes it holds, in order.
#[verifier::external_body]
pub(crate) fn bytes_slice(bytes: &Bytes) -> (slice: &[u8])
    ensures
        slice@ == octets(*bytes),
{
    bytes.as_ref()
}

} // verus!
