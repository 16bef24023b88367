//! What holds of a body of length-prefixed messages as a whole, however it is cut into chunks.

use crate::protobuf_format::{framed, leb128};
use crate::protobuf_len_codec::{
    continued, frame_at, message_at, varint_at, varint_sum, weight, Frame,
    ProtobufLenPrefixCodec, Varint,
};
use vstd::prelude::*;

verus! {

/// What comes of asking a codec for messages until it has no more. After a failure nothing is
/// left.
pub struct Drained {
    /// The messages, in order.
    pub messages: Seq<Seq<u8>>,
    /// The frame that ended it where that was a failure.
    pub failed: Option<FrameFault>,
    /// The length of the message that is under way, if one is.
    pub expected: Option<usize>,
    /// The bytes that are left.
    pub left: Seq<u8>,
}

/// How a body of messages can be refused.
pub enum FrameFault {
    /// A message is longer than the limit.
    TooLong,
    /// A length is not a number.
    BadLength,
}

impl Drained {
    /// `self` with `messages` before its own.
    pub open spec fn after(self, messages: Seq<Seq<u8>>) -> Drained {
        Drained { messages: messages + self.messages, ..self }
    }

    /// Nothing but a failure.
    pub open spec fn refused(fault: FrameFault) -> Drained {
        Drained { messages: seq![], failed: Some(fault), expected: None, left: seq![] }
    }
}

/// Asks for messages, with `body` buffered, until there are no more.
pub open spec fn drain(expected: Option<usize>, body: Seq<u8>, limit: int) -> Drained
    decreases
            body.len(),
            (if expected is Some {
                1int
            } else {
                0
            }),
{
    match frame_at(expected, body, limit) {
        Frame::More { expected, left } => Drained { messages: seq![], failed: None, expected, left },
        Frame::Message { message, left } => if left.len() < body.len() || (expected is Some
            && left.len() == body.len()) {
            drain(None, left, limit).after(seq![message])
        } else {
            Drained { messages: seq![], failed: None, expected, left }
        },
        Frame::TooLong { .. } => Drained::refused(FrameFault::TooLong),
        Frame::BadLength { .. } => Drained::refused(FrameFault::BadLength),
    }
}

/// Appends one chunk after another to the buffer, and asks for messages until there are no more
/// each time; a failure ends it.
pub open spec fn feed(
    expected: Option<usize>,
    left: Seq<u8>,
    chunks: Seq<Seq<u8>>,
    limit: int,
) -> Drained
    decreases chunks.len(),
{
    if chunks.len() == 0 {
        drain(expected, left, limit)
    } else {
        let first = drain(expected, left + chunks[0], limit);
        if first.failed is Some {
            first
        } else {
            feed(first.expected, first.left, chunks.drop_first(), limit).after(first.messages)
        }
    }
}

proof fn continued_prefix(bytes: Seq<u8>, more: Seq<u8>)
    ensures
        continued(bytes) <= bytes.len(),
        continued(bytes) < bytes.len() ==> continued(bytes + more) == continued(bytes),
        continued(bytes) == bytes.len() ==> continued(bytes + more) >= bytes.len(),
    decreases bytes.len(),
{
    if bytes.len() > 0 && bytes[0] >= 0x80 {
        continued_prefix(bytes.drop_first(), more);
        assert((bytes + more).drop_first() == bytes.drop_first() + more);
    }
}

proof fn varint_sum_prefix(bytes: Seq<u8>, more: Seq<u8>, n: nat)
    requires
        n <= bytes.len(),
    ensures
        varint_sum(bytes + more, n) == varint_sum(bytes, n),
    decreases n,
{
    if n > 0 {
        varint_sum_prefix(bytes, more, (n - 1) as nat);
    }
}

/// A varint that is there stays what it is when more bytes follow.
proof fn varint_prefix(bytes: Seq<u8>, more: Seq<u8>)
    ensures
        varint_at(bytes) !is Partial ==> varint_at(bytes + more) == varint_at(bytes),
        varint_at(bytes) matches Varint::Whole { used, .. } ==> 0 < used <= bytes.len(),
{
    let n = continued(bytes);
    continued_prefix(bytes, more);
    if n < 9 && n < bytes.len() {
        varint_sum_prefix(bytes, more, n + 1);
    } else if bytes.len() >= 10 {
        varint_sum_prefix(bytes, more, 10);
    }
}

proof fn message_continues(len: usize, body: Seq<u8>, more: Seq<u8>, limit: int)
    ensures
        match message_at(len, body, limit) {
            Frame::More { left, .. } => left == body,
            Frame::Message { message, left } => message_at(len, body + more, limit) == (
            Frame::Message { message, left: left + more }),
            _ => message_at(len, body + more, limit) is TooLong,
        },
{
    if len <= body.len() {
        assert((body + more).take(len as int) == body.take(len as int));
        assert((body + more).skip(len as int) == body.skip(len as int) + more);
    }
}

/// A frame that is there stays what it is when more bytes follow, and a look that ran out of
/// bytes goes on from where it stopped.
proof fn frame_continues(expected: Option<usize>, body: Seq<u8>, more: Seq<u8>, limit: int)
    ensures
        match frame_at(expected, body, limit) {
            Frame::More { expected: next, left } => {
                &&& frame_at(expected, body + more, limit) == frame_at(next, left + more, limit)
                &&& left.len() <= body.len()
                &&& left.len() == body.len() ==> next == expected
                &&& next is Some || expected is None
            },
            Frame::Message { message, left } => {
                &&& frame_at(expected, body + more, limit) == (Frame::Message {
                    message,
                    left: left + more,
                })
                &&& left.len() < body.len() || (expected is Some && left.len() == body.len())
            },
            Frame::TooLong { .. } => frame_at(expected, body + more, limit) is TooLong,
            Frame::BadLength { .. } => frame_at(expected, body + more, limit) is BadLength,
        },
{
    match expected {
        Some(len) => message_continues(len, body, more, limit),
        None => {
            varint_prefix(body, more);
            if let Varint::Whole { value, used } = varint_at(body) {
                assert((body + more).skip(used) == body.skip(used) + more);
                message_continues(value as usize, body.skip(used), more, limit);
            }
        },
    }
}

proof fn drain_continues(expected: Option<usize>, body: Seq<u8>, more: Seq<u8>, limit: int)
    ensures
        ({
            let first = drain(expected, body, limit);
            let whole = drain(expected, body + more, limit);
            if first.failed is Some {
                whole.messages == first.messages && whole.failed == first.failed
            } else {
                whole == drain(first.expected, first.left + more, limit).after(first.messages)
            }
        }),
    decreases
            body.len(),
            (if expected is Some {
                1int
            } else {
                0
            }),
{
    frame_continues(expected, body, more, limit);
    match frame_at(expected, body, limit) {
        Frame::More { expected: next, left } => {
            frame_continues(expected, body + more, seq![], limit);
            frame_continues(next, left + more, seq![], limit);
            let rest = drain(next, left + more, limit);
            assert(rest.after(seq![]).messages == rest.messages);
        },
        Frame::Message { message, left } => {
            drain_continues(None, left, more, limit);
            let inner = drain(None, left, limit);
            let rest = drain(inner.expected, inner.left + more, limit);
            assert(seq![message] + (inner.messages + rest.messages) == (seq![message]
                + inner.messages) + rest.messages);
        },
        _ => {},
    }
}

proof fn feed_is_drain(expected: Option<usize>, left: Seq<u8>, chunks: Seq<Seq<u8>>, limit: int)
    ensures
        feed(expected, left, chunks, limit).messages == drain(
            expected,
            left + chunks.flatten(),
            limit,
        ).messages,
        feed(expected, left, chunks, limit).failed == drain(
            expected,
            left + chunks.flatten(),
            limit,
        ).failed,
    decreases chunks.len(),
{
    if chunks.len() == 0 {
        assert(left + chunks.flatten() == left);
    } else {
        let rest = chunks.drop_first();
        let first = drain(expected, left + chunks[0], limit);
        assert(left + chunks.flatten() == (left + chunks[0]) + rest.flatten());
        drain_continues(expected, left + chunks[0], rest.flatten(), limit);
        if first.failed is None {
            feed_is_drain(first.expected, first.left, rest, limit);
        }
    }
}

/// How a body of messages is cut into chunks makes no difference: the same messages come out, and
/// it fails in the same way or not at all.
pub proof fn law_chunking_does_not_matter(chunks: Seq<Seq<u8>>, limit: int)
    ensures
        ({
            let piecewise = feed(None, seq![], chunks, limit);
            let at_once = feed(None, seq![], seq![chunks.flatten()], limit);
            piecewise.messages == at_once.messages && piecewise.failed == at_once.failed
        }),
{
    let body = chunks.flatten();
    feed_is_drain(None, seq![], chunks, limit);
    feed_is_drain(None, seq![], seq![body], limit);
    seq![body].lemma_flatten_one_element();
}

proof fn varint_sum_of_rest(bytes: Seq<u8>, n: nat)
    requires
        n < bytes.len(),
    ensures
        varint_sum(bytes, n + 1) == bytes[0] % 128 + 128 * varint_sum(bytes.drop_first(), n),
    decreases n,
{
    let low = (bytes[n as int] % 128) as nat;
    assert(varint_sum(bytes, n + 1) == varint_sum(bytes, n) + low * weight(n));
    if n > 0 {
        let unit = weight((n - 1) as nat);
        let rest = bytes.drop_first();
        varint_sum_of_rest(bytes, (n - 1) as nat);
        assert(rest[n - 1] == bytes[n as int]);
        assert(varint_sum(rest, n) == varint_sum(rest, (n - 1) as nat) + low * unit);
        assert(low * (128 * unit) == 128 * (low * unit)) by (nonlinear_arith);
    } else {
        assert(low * weight(0) == low) by (nonlinear_arith)
            requires
                weight(0) == 1,
        ;
        reveal_with_fuel(varint_sum, 2);
    }
}

proof fn leb128_reads_back(value: nat)
    ensures
        leb128(value).len() > 0,
        continued(leb128(value)) == leb128(value).len() - 1,
        varint_sum(leb128(value), leb128(value).len()) == value,
    decreases value,
{
    let bytes = leb128(value);
    if value < 0x80 {
        let low = (bytes[0] % 128) as nat;
        assert(varint_sum(bytes, 1) == varint_sum(bytes, 0) + low * weight(0));
        assert(low * weight(0) == low) by (nonlinear_arith)
            requires
                weight(0) == 1,
        ;
    } else {
        leb128_reads_back(value / 128);
        assert(bytes.drop_first() == leb128(value / 128));
        varint_sum_of_rest(bytes, leb128(value / 128).len());
        assert(((value % 128 + 128) as u8) % 128 == value % 128);
    }
}

proof fn leb128_len(value: nat, n: nat)
    requires
        0 < n,
        value < weight(n),
    ensures
        leb128(value).len() <= n,
        leb128(value).len() == n ==> leb128(value).last() * weight((n - 1) as nat) <= value,
    decreases n,
{
    reveal_with_fuel(weight, 2);
    if value >= 0x80 {
        let unit = weight((n - 1) as nat);
        assert(n > 1);
        assert(value / 128 < unit) by (nonlinear_arith)
            requires
                value < 128 * unit,
        ;
        leb128_len(value / 128, (n - 1) as nat);
        let last = leb128(value).last();
        let less = weight((n - 2) as nat);
        if leb128(value).len() == n {
            assert(last == leb128(value / 128).last());
            assert(last * (128 * less) <= value) by (nonlinear_arith)
                requires
                    last * less <= value / 128,
            ;
        }
    } else {
        let last = leb128(value).last();
        if n == 1 {
            assert(last * weight(0) == last) by (nonlinear_arith)
                requires
                    weight(0) == 1,
            ;
        }
    }
}

/// A varint that was written reads back as what it was written from, whatever follows it.
pub proof fn law_varint_round_trip(value: u64, more: Seq<u8>)
    ensures
        varint_at(leb128(value as nat) + more) == (Varint::Whole {
            value,
            used: leb128(value as nat).len() as int,
        }),
{
    let bytes = leb128(value as nat);
    let n = bytes.len();
    leb128_reads_back(value as nat);
    reveal_with_fuel(weight, 11);
    leb128_len(value as nat, 10);
    continued_prefix(bytes, more);
    varint_sum_prefix(bytes, more, n);
    if n == 10 {
        let last = bytes.last();
        assert((bytes + more)[9] == last);
        assert(last < 2) by (nonlinear_arith)
            requires
                last * 0x8000_0000_0000_0000 <= value,
                value <= 0xffff_ffff_ffff_ffff,
        ;
    }
}

/// The messages, each with its length in front.
pub open spec fn frames(messages: Seq<Seq<u8>>) -> Seq<u8>
    decreases messages.len(),
{
    if messages.len() == 0 {
        seq![]
    } else {
        framed(messages[0]) + frames(messages.drop_first())
    }
}

proof fn drain_frames(messages: Seq<Seq<u8>>, limit: int)
    requires
        limit <= usize::MAX,
        forall|i: int| 0 <= i < messages.len() ==> (#[trigger] messages[i]).len() <= limit,
    ensures
        drain(None, frames(messages), limit).messages == messages,
        drain(None, frames(messages), limit).failed is None,
    decreases messages.len(),
{
    let body = frames(messages);
    if messages.len() > 0 {
        let message = messages[0];
        let rest = messages.drop_first();
        assert forall|i: int| 0 <= i < rest.len() implies (#[trigger] rest[i]).len() <= limit by {
            assert(rest[i] == messages[i + 1]);
        }
        drain_frames(rest, limit);
        frame_comes_first(message, frames(rest), limit);
        assert(messages == seq![message] + rest);
    } else {
        assert(continued(body) == 0);
    }
}

proof fn frame_comes_first(message: Seq<u8>, more: Seq<u8>, limit: int)
    requires
        message.len() <= limit <= usize::MAX,
    ensures
        frame_at(None, framed(message) + more, limit) == (Frame::Message { message, left: more }),
{
    let prefix = leb128(message.len());
    let body = framed(message) + more;
    assert(body == prefix + (message + more));
    law_varint_round_trip(message.len() as u64, message + more);
    assert(body.skip(prefix.len() as int) == message + more);
    assert((message + more).take(message.len() as int) == message);
    assert((message + more).skip(message.len() as int) == more);
}

/// The messages of a body are those that it was written from, messages of no bytes included,
/// however its bytes are cut into chunks.
pub proof fn law_messages_round_trip(messages: Seq<Seq<u8>>, chunks: Seq<Seq<u8>>, limit: int)
    requires
        chunks.flatten() == frames(messages),
        limit <= usize::MAX,
        forall|i: int| 0 <= i < messages.len() ==> (#[trigger] messages[i]).len() <= limit,
    ensures
        feed(None, seq![], chunks, limit).messages == messages,
        feed(None, seq![], chunks, limit).failed is None,
{
    feed_is_drain(None, seq![], chunks, limit);
    assert(seq![] + chunks.flatten() == frames(messages));
    drain_frames(messages, limit);
}

/// What [`drain`] says is what comes of calling the codec again and again: `after` and `left` are
/// what one call leaves behind.
pub proof fn law_draining_is_calling(
    codec: ProtobufLenPrefixCodec,
    body: Seq<u8>,
    after: ProtobufLenPrefixCodec,
    left: Seq<u8>,
)
    requires
        codec.moved(codec.next(body), after, left),
    ensures
        ({
            let drained = drain(codec.expected(), body, codec.limit());
            match codec.next(body) {
                Frame::More { .. } => drained == (Drained {
                    messages: seq![],
                    failed: None,
                    expected: after.expected(),
                    left,
                }),
                Frame::Message { message, .. } => drained == drain(
                    after.expected(),
                    left,
                    after.limit(),
                ).after(seq![message]),
                Frame::TooLong { .. } => drained == Drained::refused(FrameFault::TooLong),
                Frame::BadLength { .. } => drained == Drained::refused(FrameFault::BadLength),
            }
        }),
{
    frame_continues(codec.expected(), body, seq![], codec.limit());
}

proof fn drained_are_within(expected: Option<usize>, body: Seq<u8>, limit: int)
    ensures
        forall|i: int|
            0 <= i < drain(expected, body, limit).messages.len() ==> (#[trigger] drain(
                expected,
                body,
                limit,
            ).messages[i]).len() <= limit,
    decreases
            body.len(),
            (if expected is Some {
                1int
            } else {
                0
            }),
{
    frame_continues(expected, body, seq![], limit);
    match frame_at(expected, body, limit) {
        Frame::Message { left, .. } => {
            drained_are_within(None, left, limit);
        },
        _ => {},
    }
}

/// No message comes out that is longer than the limit, however the body is cut into chunks.
pub proof fn law_no_message_beyond_the_limit(chunks: Seq<Seq<u8>>, limit: int, i: int)
    requires
        0 <= i < feed(None, seq![], chunks, limit).messages.len(),
    ensures
        feed(None, seq![], chunks, limit).messages[i].len() <= limit,
{
    feed_is_drain(None, seq![], chunks, limit);
    drained_are_within(None, seq![] + chunks.flatten(), limit);
}

/// The number that 7-bit groups make, the lowest first.
pub open spec fn groups(bytes: Seq<u8>) -> nat
    decreases bytes.len(),
{
    if bytes.len() == 0 {
        0
    } else {
        (bytes[0] % 128) as nat + 128 * groups(bytes.drop_first())
    }
}

proof fn groups_are_summed(bytes: Seq<u8>, n: nat)
    requires
        n <= bytes.len(),
    ensures
        varint_sum(bytes, n) == groups(bytes.take(n as int)),
    decreases n,
{
    if n > 0 {
        varint_sum_of_rest(bytes, (n - 1) as nat);
        groups_are_summed(bytes.drop_first(), (n - 1) as nat);
        assert(bytes.take(n as int).drop_first() == bytes.drop_first().take(n - 1));
        assert(bytes.take(n as int)[0] == bytes[0]);
    }
}

proof fn sums_are_bounded(bytes: Seq<u8>, n: nat)
    requires
        n <= bytes.len(),
    ensures
        varint_sum(bytes, n) < weight(n),
    decreases n,
{
    reveal_with_fuel(weight, 2);
    if n > 0 {
        sums_are_bounded(bytes, (n - 1) as nat);
        let low = (bytes[n - 1] % 128) as nat;
        let unit = weight((n - 1) as nat);
        assert(low * unit <= 127 * unit) by (nonlinear_arith)
            requires
                low <= 127,
        ;
    }
}

/// A length is read as the number that its 7-bit groups make, the lowest first. It ends with the
/// first byte whose top bit is clear, or with the tenth, which is 0 or 1; a tenth byte beyond that is
/// refused, and until one of these is there the length is waited for.
pub proof fn law_how_a_length_is_read(bytes: Seq<u8>)
    ensures
        match varint_at(bytes) {
            Varint::Whole { value, used } => {
                &&& 0 < used <= 10
                &&& used <= bytes.len()
                &&& forall|i: int| 0 <= i < used - 1 ==> #[trigger] bytes[i] >= 0x80
                &&& if used < 10 {
                    bytes[used - 1] < 0x80
                } else {
                    bytes[9] < 2
                }
                &&& value == groups(bytes.take(used))
            },
            Varint::Partial => bytes.len() < 10 && forall|i: int|
                0 <= i < bytes.len() ==> #[trigger] bytes[i] >= 0x80,
            Varint::Overrun => bytes.len() >= 10 && bytes[9] >= 2 && forall|i: int|
                0 <= i < 9 ==> #[trigger] bytes[i] >= 0x80,
        },
{
    let n = continued(bytes);
    continued_prefix(bytes, seq![]);
    continued_bytes_are(bytes);
    reveal_with_fuel(weight, 11);
    match varint_at(bytes) {
        Varint::Whole { value, used } => {
            groups_are_summed(bytes, used as nat);
            if used < 10 {
                sums_are_bounded(bytes, used as nat);
                weights_grow(used as nat, 9);
            } else {
                sums_are_bounded(bytes, 9);
                let low = (bytes[9] % 128) as nat;
                assert(low * weight(9) <= weight(9)) by (nonlinear_arith)
                    requires
                        low <= 1,
                ;
            }
        },
        _ => {},
    }
}

proof fn weights_grow(n: nat, m: nat)
    requires
        n <= m,
    ensures
        0 < weight(n) <= weight(m),
    decreases m,
{
    reveal_with_fuel(weight, 2);
    if n < m {
        weights_grow(n, (m - 1) as nat);
    } else if n > 0 {
        weights_grow((n - 1) as nat, (m - 1) as nat);
    }
}

proof fn continued_bytes_are(bytes: Seq<u8>)
    ensures
        forall|i: int| 0 <= i < continued(bytes) ==> #[trigger] bytes[i] >= 0x80,
        continued(bytes) < bytes.len() ==> bytes[continued(bytes) as int] < 0x80,
        continued(bytes) <= bytes.len(),
    decreases bytes.len(),
{
    if bytes.len() > 0 && bytes[0] >= 0x80 {
        let rest = bytes.drop_first();
        continued_bytes_are(rest);
        assert forall|i: int| 0 <= i < continued(bytes) implies #[trigger] bytes[i] >= 0x80 by {
            if i > 0 {
                assert(bytes[i] == rest[i - 1]);
            }
        }
    }
}

/// A message comes out once as many bytes are there as its length says, those bytes and no others,
/// and what follows stays; until then it is waited for. One whose length is beyond the limit is
/// refused before any of it is there.
pub proof fn law_messages_are_measured(length: u64, content: Seq<u8>, limit: int)
    requires
        length <= usize::MAX,
    ensures
        ({
            let body = leb128(length as nat) + content;
            let found = frame_at(None, body, limit);
            &&& length > limit ==> found is TooLong
            &&& length <= limit && content.len() >= length ==> found == (Frame::Message {
                message: content.take(length as int),
                left: content.skip(length as int),
            })
            &&& length <= limit && content.len() < length ==> found == (Frame::More {
                expected: Some(length as usize),
                left: content,
            })
        }),
{
    let prefix = leb128(length as nat);
    law_varint_round_trip(length, content);
    assert((prefix + content).skip(prefix.len() as int) == content);
}

/// A message whose length has been read is measured by that length, whatever its bytes are.
pub proof fn law_messages_under_way_are_measured(length: usize, body: Seq<u8>, limit: int)
    ensures
        ({
            let found = frame_at(Some(length), body, limit);
            &&& length > limit ==> found == (Frame::TooLong { expected: Some(length), left: body })
            &&& length <= limit && body.len() >= length ==> found == (Frame::Message {
                message: body.take(length as int),
                left: body.skip(length as int),
            })
            &&& length <= limit && body.len() < length ==> found == (Frame::More {
                expected: Some(length),
                left: body,
            })
        }),
{
}

} // verus!
