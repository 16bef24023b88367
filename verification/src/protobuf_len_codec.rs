//! Decoding LEB128 length-prefixed protobuf messages.

use crate::error::{caused, reason, ErrorSource, ErrorView, StreamError, StreamErrorKind};
use crate::octets::{advance, buffer_len, buffer_slice, held, octets, take_bytes};
use bytes::{Bytes, BytesMut};
use vstd::prelude::*;

verus! {

/// The longest a varint may be, in bytes.
pub const MAX_VARINT_LEN: usize = 10;

/// 128 to the power of `n`: what one step of the `n`-th byte of a varint is worth.
pub open spec fn weight(n: nat) -> nat
    decreases n,
{
    if n == 0 {
        1
    } else {
        128 * weight((n - 1) as nat)
    }
}

/// The number that the first `n` bytes of a varint add up to.
pub open spec fn varint_sum(bytes: Seq<u8>, n: nat) -> nat
    decreases n,
{
    if n == 0 {
        0
    } else {
        varint_sum(bytes, (n - 1) as nat) + (bytes[n - 1] % 128) as nat * weight((n - 1) as nat)
    }
}

/// How many bytes at the front have their top bit set, and so say that another follows.
pub open spec fn continued(bytes: Seq<u8>) -> nat
    decreases bytes.len(),
{
    if bytes.len() == 0 || bytes[0] < 0x80 {
        0
    } else {
        1 + continued(bytes.drop_first())
    }
}

/// What stands at the front of a buffer where a varint is expected.
pub enum Varint {
    /// Only part of a varint.
    Partial,
    /// A whole one, in the first `used` bytes.
    Whole { value: u64, used: int },
    /// More than a `u64` can hold.
    Overrun,
}

/// Reads the varint at the front of `bytes`.
pub open spec fn varint_at(bytes: Seq<u8>) -> Varint {
    let n = continued(bytes);
    if n < 9 && n < bytes.len() {
        Varint::Whole { value: varint_sum(bytes, n + 1) as u64, used: n as int + 1 }
    } else if bytes.len() < MAX_VARINT_LEN {
        Varint::Partial
    } else if bytes[9] < 0x02 {
        Varint::Whole { value: varint_sum(bytes, 10) as u64, used: 10 }
    } else {
        Varint::Overrun
    }
}

/// How a look at the buffer ended. `expected` is the length of the message that is under way, if
/// one is, and `left` what stays in the buffer.
pub enum Frame {
    /// More bytes are needed.
    More { expected: Option<usize>, left: Seq<u8> },
    /// A whole message.
    Message { message: Seq<u8>, left: Seq<u8> },
    /// The message that is announced is longer than the limit.
    TooLong { expected: Option<usize>, left: Seq<u8> },
    /// The length is not a number.
    BadLength { left: Seq<u8> },
}

/// Looks for a message of `len` bytes.
pub open spec fn message_at(len: usize, body: Seq<u8>, limit: int) -> Frame {
    if len > limit {
        Frame::TooLong { expected: Some(len), left: body }
    } else if body.len() < len {
        Frame::More { expected: Some(len), left: body }
    } else {
        Frame::Message { message: body.take(len as int), left: body.skip(len as int) }
    }
}

/// Looks for the next message, whose length may have been read before.
pub open spec fn frame_at(expected: Option<usize>, body: Seq<u8>, limit: int) -> Frame {
    match expected {
        Some(len) => message_at(len, body, limit),
        None => match varint_at(body) {
            Varint::Partial => Frame::More { expected: None, left: body },
            Varint::Whole { value, used } => message_at(value as usize, body.skip(used), limit),
            Varint::Overrun => Frame::BadLength { left: body },
        },
    }
}

proof fn continued_bounds(bytes: Seq<u8>)
    ensures
        continued(bytes) <= bytes.len(),
        continued(bytes) < bytes.len() ==> bytes[continued(bytes) as int] < 0x80,
    decreases bytes.len(),
{
    if bytes.len() > 0 && bytes[0] >= 0x80 {
        continued_bounds(bytes.drop_first());
    }
}

/// Bytes in front that are continued, and the one behind them, determine the count.
pub(crate) proof fn continued_is(bytes: Seq<u8>, n: int)
    requires
        0 <= n <= bytes.len(),
        forall|i: int| 0 <= i < n ==> #[trigger] bytes[i] >= 0x80,
    ensures
        continued(bytes) >= n,
        n < bytes.len() && bytes[n] < 0x80 ==> continued(bytes) == n,
        n == bytes.len() ==> continued(bytes) == n,
    decreases n,
{
    continued_bounds(bytes);
    if n > 0 {
        assert forall|i: int| 0 <= i < n - 1 implies #[trigger] bytes.drop_first()[i] >= 0x80 by {
            assert(bytes[i + 1] >= 0x80);
        }
        continued_is(bytes.drop_first(), n - 1);
    }
}

proof fn weight_bound(n: nat)
    requires
        n <= 9,
    ensures
        0 < weight(n) <= 0x8000_0000_0000_0000,
{
    reveal_with_fuel(weight, 10);
}

/// Decodes a LEB128-encoded variable length integer from the slice, returning the value and the
/// number of bytes read.
///
/// The slice has to hold the end of the integer, or as many bytes as an integer may have.
fn decode_varint_slice(bytes: &[u8]) -> (res: Result<(u64, usize), StreamError>)
    requires
        varint_at(bytes@) !is Partial,
    ensures
        match varint_at(bytes@) {
            Varint::Whole { value, used } => res matches Ok(read) && read.0 == value && read.1
                == used && 0 < used <= bytes@.len(),
            Varint::Overrun => res matches Err(error) && error@ == reason(
                StreamErrorKind::CodecError,
                "invalid varint"@,
            ),
            Varint::Partial => false,
        },
{
    let mut value: u64 = 0;
    let mut unit: u64 = 1;
    let mut n: usize = 0;
    while n < 9
        invariant
            n <= 9,
            n <= bytes@.len(),
            varint_at(bytes@) !is Partial,
            forall|i: int| 0 <= i < n ==> #[trigger] bytes@[i] >= 0x80,
            unit == weight(n as nat),
            value == varint_sum(bytes@, n as nat),
            value < unit,
        decreases 9 - n,
    {
        proof {
            continued_is(bytes@, n as int);
            weight_bound((n + 1) as nat);
        }
        let b: u8 = bytes[n];
        let low: u64 = (b % 128) as u64;
        proof {
            assert(low * unit <= 127 * unit) by (nonlinear_arith)
                requires
                    low <= 127,
            ;
            assert((b % 128) as nat * weight(n as nat) == low * unit);
        }
        value = value + low * unit;
        n = n + 1;
        if b < 0x80 {
            return Ok((value, n));
        }
        unit = unit * 128;
    }
    proof {
        continued_is(bytes@, 9);
        weight_bound(9);
    }
    let b: u8 = bytes[9];
    if b < 0x02 {
        let low: u64 = b as u64;
        proof {
            assert(low * unit <= unit) by (nonlinear_arith)
                requires
                    low <= 1,
            ;
            assert((b % 128) as nat * weight(9) == low * unit);
        }
        return Ok((value + low * unit, 10));
    }
    // We have overrun the maximum size of a varint (10 bytes) or the final byte caused an
    // overflow. Assume the data is corrupt.
    Err(StreamError::because(StreamErrorKind::CodecError, "invalid varint"))
}

/// Reads a LEB128 varint from the front of `buf`, consuming it.
///
/// Returns `Ok(None)` when the buffer holds only part of one, leaving `buf` untouched so the
/// next call can retry with more bytes.
fn read_varint(buf: &mut BytesMut) -> (res: Result<Option<u64>, StreamError>)
    ensures
        match varint_at(held(*old(buf))) {
            Varint::Partial => res matches Ok(None) && held(*final(buf)) == held(*old(buf)),
            Varint::Whole { value, used } => {
                &&& res == Ok::<_, StreamError>(Some(value))
                &&& 0 < used <= held(*old(buf)).len()
                &&& held(*final(buf)) == held(*old(buf)).skip(used)
            },
            Varint::Overrun => {
                &&& res matches Err(error)
                &&& error@ == reason(StreamErrorKind::CodecError, "invalid varint"@)
                &&& held(*final(buf)) == held(*old(buf))
            },
        },
{
    let bytes = buffer_slice(buf);
    let mut n: usize = 0;
    while n < bytes.len() && n < MAX_VARINT_LEN && bytes[n] >= 0x80
        invariant
            n <= bytes@.len(),
            forall|i: int| 0 <= i < n ==> #[trigger] bytes@[i] >= 0x80,
        decreases bytes@.len() - n,
    {
        n = n + 1;
    }
    proof {
        continued_is(bytes@, n as int);
    }
    // Without a terminator or a full ten bytes the varint is genuinely incomplete.
    if n == bytes.len() && n < MAX_VARINT_LEN {
        return Ok(None);
    }
    match decode_varint_slice(bytes) {
        Err(error) => Err(error),
        Ok((value, used)) => {
            advance(buf, used);
            Ok(Some(value))
        },
    }
}

/// Yields one message per length-prefixed frame.
#[derive(Clone, Debug)]
pub struct ProtobufLenPrefixCodec {
    max_length: usize,
    /// The length of the message currently being accumulated.
    ///
    /// `Option`, not a bare `usize` with zero meaning "none": a protobuf message all of whose
    /// fields hold their default values encodes to *zero bytes*, so `0` is a perfectly ordinary
    /// frame length.
    expected_len: Option<usize>,
}

/// What a parsed message amounts to: a message that fails to parse is terminal.
pub open spec fn message_outcome<T>(
    parsed: Result<T, prost::DecodeError>,
    outcome: Result<Option<Result<T, StreamError>>, StreamError>,
) -> bool {
    match parsed {
        Ok(item) => outcome == Ok::<_, StreamError>(Some(Ok::<_, StreamError>(item))),
        Err(err) => outcome matches Err(error) && error@ == caused(
            StreamErrorKind::CodecError,
            ErrorSource::Protobuf(err),
        ),
    }
}

impl ProtobufLenPrefixCodec {
    /// The length beyond which a message is refused.
    pub closed spec fn limit(self) -> int {
        self.max_length as int
    }

    /// The length of the message that is under way, if one is.
    pub closed spec fn expected(self) -> Option<usize> {
        self.expected_len
    }

    /// What the next call finds in a buffer that holds `body`.
    pub open spec fn next(self, body: Seq<u8>) -> Frame {
        frame_at(self.expected(), body, self.limit())
    }

    /// How a call that met `frame` leaves the codec and the buffer.
    pub open spec fn moved(self, frame: Frame, after: Self, left: Seq<u8>) -> bool {
        &&& after.limit() == self.limit()
        &&& match frame {
            Frame::More { expected, left: rest } | Frame::TooLong { expected, left: rest } => {
                after.expected() == expected && left == rest
            },
            Frame::Message { left: rest, .. } | Frame::BadLength { left: rest } => {
                after.expected() is None && left == rest
            },
        }
    }

    /// The error that a frame other than a message is reported as.
    pub open spec fn complaint(frame: Frame) -> Option<ErrorView> {
        match frame {
            Frame::More { .. } | Frame::Message { .. } => None,
            Frame::TooLong { .. } => Some(
                reason(StreamErrorKind::MaxLenReachedError, "Max object length reached"@),
            ),
            Frame::BadLength { .. } => Some(
                reason(StreamErrorKind::CodecError, "invalid varint"@),
            ),
        }
    }

    /// A codec that rejects any single message longer than `max_length` bytes.
    pub fn new_with_max_length(max_length: usize) -> (codec: Self)
        ensures
            codec.limit() == max_length,
            codec.expected() is None,
    {
        ProtobufLenPrefixCodec { max_length, expected_len: None }
    }

    /// The bytes of the next message, if the buffer holds all of them.
    ///
    /// Nothing is returned only when the buffer genuinely cannot yield anything further: a length
    /// whose message already follows it is not left for a later call, and a message of no bytes
    /// is complete with an empty buffer.
    pub fn next_message(&mut self, buf: &mut BytesMut) -> (res: Result<Option<Bytes>, StreamError>)
        ensures
            old(self).moved(
                old(self).next(held(*old(buf))),
                *final(self),
                held(*final(buf)),
            ),
            match old(self).next(held(*old(buf))) {
                Frame::More { .. } => res matches Ok(None),
                Frame::Message { message, .. } => res matches Ok(Some(bytes)) && octets(bytes)
                    == message,
                frame => res matches Err(error) && Some(error@) == Self::complaint(frame),
            },
    {
        let expected_len: usize = match self.expected_len {
            Some(len) => len,
            None => match read_varint(buf) {
                Err(error) => {
                    return Err(error);
                },
                Ok(None) => {
                    return Ok(None);
                },
                Ok(Some(value)) => {
                    #[verifier::truncate]
                    let len: usize = value as usize;
                    self.expected_len = Some(len);
                    len
                },
            },
        };
        if expected_len > self.max_length {
            return Err(
                StreamError::because(
                    StreamErrorKind::MaxLenReachedError,
                    "Max object length reached",
                ),
            );
        }
        if buffer_len(buf) < expected_len {
            return Ok(None);
        }
        let message = take_bytes(buf, expected_len);
        self.expected_len = None;
        Ok(Some(message))
    }

    /// The next message, parsed by `parse`, if the buffer holds all of it.
    pub fn decode<T, P: FnOnce(Bytes) -> Result<T, prost::DecodeError>>(
        &mut self,
        buf: &mut BytesMut,
        parse: P,
    ) -> (res: Result<Option<Result<T, StreamError>>, StreamError>)
        requires
            forall|message: Bytes| #[trigger] call_requires(parse, (message,)),
        ensures
            old(self).moved(
                old(self).next(held(*old(buf))),
                *final(self),
                held(*final(buf)),
            ),
            match old(self).next(held(*old(buf))) {
                Frame::More { .. } => res matches Ok(None),
                Frame::Message { message, .. } => exists|bytes: Bytes, parsed: Result<T, prost::DecodeError>|
                    octets(bytes) == message && #[trigger] call_ensures(parse, (bytes,), parsed)
                        && message_outcome(parsed, res),
                frame => res matches Err(error) && Some(error@) == Self::complaint(frame),
            },
    {
        match self.next_message(buf) {
            Err(error) => Err(error),
            Ok(None) => Ok(None),
            Ok(Some(bytes)) => {
                let ghost message = bytes;
                let parsed = parse(bytes);
                let ghost outcome = parsed;
                assert(call_ensures(parse, (message,), outcome));
                match parsed {
                    Ok(item) => Ok(Some(Ok(item))),
                    Err(err) => Err(StreamError::codec(ErrorSource::Protobuf(err))),
                }
            },
        }
    }

    /// As [`decode`](Self::decode): the end of the body completes no message by itself.
    pub fn decode_eof<T, P: FnOnce(Bytes) -> Result<T, prost::DecodeError>>(
        &mut self,
        buf: &mut BytesMut,
        parse: P,
    ) -> (res: Result<Option<Result<T, StreamError>>, StreamError>)
        requires
            forall|message: Bytes| #[trigger] call_requires(parse, (message,)),
        ensures
            old(self).moved(
                old(self).next(held(*old(buf))),
                *final(self),
                held(*final(buf)),
            ),
            match old(self).next(held(*old(buf))) {
                Frame::More { .. } => res matches Ok(None),
                Frame::Message { message, .. } => exists|bytes: Bytes, parsed: Result<T, prost::DecodeError>|
                    octets(bytes) == message && #[trigger] call_ensures(parse, (bytes,), parsed)
                        && message_outcome(parsed, res),
                frame => res matches Err(error) && Some(error@) == Self::complaint(frame),
            },
    {
        self.decode(buf, parse)
    }
}

} // verus!
