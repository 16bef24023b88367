//! What holds of an Arrow IPC stream as a whole, however it is cut into chunks.

use crate::arrow_format::end_of_stream;
use crate::arrow_ipc_codec::{
    arrow_read, batch_at, input_of, ArrowBatch, ArrowIpcCodec, ArrowRead, ArrowState, Batch,
};
use crate::arrow_message::{
    has_batch, message_is_kept, message_stands_alone, next_message, Found, Known, MessageHead,
};
use crate::error::{ErrorSource, StreamError, StreamErrorKind};
use vstd::prelude::*;

verus! {

/// What comes of asking a codec for batches until it has no more.
pub struct Drained {
    /// The batches, in order.
    pub batches: Seq<ArrowBatch>,
    /// A message was longer than the limit, or could not be read.
    pub failed: bool,
    /// How far the codec is afterwards.
    pub state: ArrowState,
    /// What stays in the buffer.
    pub left: Seq<u8>,
}

impl Drained {
    /// `self` with `batches` before its own.
    pub open spec fn after(self, batches: Seq<ArrowBatch>) -> Drained {
        Drained { batches: batches + self.batches, ..self }
    }

    /// The same batches, and the same end.
    pub open spec fn same(self, other: Drained) -> bool {
        &&& self.batches == other.batches
        &&& self.failed == other.failed
        &&& !self.failed ==> self.state == other.state && self.left == other.left
    }
}

/// Asks for batches, with `body` buffered, until there are no more.
pub open spec fn drain(state: ArrowState, body: Seq<u8>) -> Drained
    decreases body.len(),
{
    match batch_at(state, body) {
        Batch::More { state: after, left } => Drained {
            batches: seq![],
            failed: false,
            state: after,
            left,
        },
        Batch::Whole { batch, state: after, left, .. } => if left.len() < body.len() {
            drain(after, left).after(seq![batch])
        } else {
            Drained { batches: seq![batch], failed: false, state: after, left }
        },
        Batch::TooLong { state: after, left } => Drained {
            batches: seq![],
            failed: true,
            state: after,
            left,
        },
        Batch::Failed { state: after, left, .. } => Drained {
            batches: seq![],
            failed: true,
            state: after,
            left,
        },
    }
}

/// Takes one chunk after another, behind what is buffered, and asks for batches until there are no
/// more each time; a failure ends it.
pub open spec fn feed(state: ArrowState, buffered: Seq<u8>, chunks: Seq<Seq<u8>>) -> Drained
    decreases chunks.len(),
{
    if chunks.len() == 0 {
        Drained { batches: seq![], failed: false, state, left: buffered }
    } else {
        let first = drain(state, buffered + chunks[0]);
        if first.failed {
            first
        } else {
            feed(first.state, first.left, chunks.drop_first()).after(first.batches)
        }
    }
}

/// How a look at a buffer goes on, with `more` behind what was there.
spec fn goes_on(first: Batch, more: Seq<u8>, whole: Batch) -> bool {
    match first {
        Batch::More { state, left } => whole == batch_at(state, left + more),
        Batch::Whole { batch, len, state, left } => whole == (Batch::Whole {
            batch,
            len,
            state,
            left: left + more,
        }),
        Batch::TooLong { .. } => whole is TooLong,
        Batch::Failed { .. } => whole is Failed,
    }
}

proof fn batch_goes_on(state: ArrowState, body: Seq<u8>, more: Seq<u8>)
    ensures
        goes_on(batch_at(state, body), more, batch_at(state, body + more)),
        batch_at(state, body) matches Batch::Whole { left, .. } ==> left.len() < body.len(),
        batch_at(state, body) matches Batch::More { state: after, left } ==> batch_at(after, left)
            == batch_at(state, body),
    decreases body.len(),
{
    let input = body + more;
    if body.len() == 0 {
        assert(input == more);
    } else if !state.ended {
        let found = next_message(state.known, state.limit, body);
        message_stands_alone(state.known, state.limit, body);
        if !(found is Part) {
            message_is_kept(state.known, state.limit, body, more);
        }
        match found {
            Found::End { len } => {
                assert(input.skip(len as int) == body.skip(len as int) + more);
                batch_goes_on(state.closed(), body.skip(len as int), more);
            },
            Found::Whole { len, head, known } => {
                assert(input.take(len as int) == body.take(len as int));
                assert(input.skip(len as int) == body.skip(len as int) + more);
                let read = arrow_read(state.stage, input_of(body.take(len as int), head));
                let after = state.after(read, known);
                batch_goes_on(after, body.skip(len as int), more);
            },
            _ => {},
        }
    }
}

proof fn drain_goes_on(state: ArrowState, body: Seq<u8>, more: Seq<u8>)
    ensures
        ({
            let first = drain(state, body);
            let whole = drain(state, body + more);
            if first.failed {
                whole.failed && whole.batches == first.batches
            } else {
                &&& whole.same(drain(first.state, first.left + more).after(first.batches))
                &&& drain(first.state, first.left).same(
                    Drained { batches: seq![], ..first },
                )
            }
        }),
    decreases body.len(),
{
    batch_goes_on(state, body, more);
    let first = drain(state, body);
    match batch_at(state, body) {
        Batch::More { state: after, left } => {
            let later = drain(after, left + more);
            assert(later.after(seq![]).batches == later.batches);
            batch_goes_on(state, body + more, seq![]);
            batch_goes_on(after, left + more, seq![]);
        },
        Batch::Whole { batch, state: after, left, .. } => {
            drain_goes_on(after, left, more);
            let inner = drain(after, left);
            let later = drain(inner.state, inner.left + more);
            assert(seq![batch] + (inner.batches + later.batches) == (seq![batch] + inner.batches)
                + later.batches);
        },
        _ => {},
    }
}

proof fn feeding_is_draining(state: ArrowState, buffered: Seq<u8>, chunks: Seq<Seq<u8>>)
    requires
        drain(state, buffered).same(
            Drained { batches: seq![], failed: false, state, left: buffered },
        ),
    ensures
        feed(state, buffered, chunks).same(drain(state, buffered + chunks.flatten())),
    decreases chunks.len(),
{
    let body = chunks.flatten();
    if chunks.len() == 0 {
        assert(buffered + body == buffered);
    } else {
        let rest = chunks.drop_first();
        let input = buffered + chunks[0];
        let first = drain(state, input);
        assert(body == chunks[0] + rest.flatten());
        assert(buffered + body == input + rest.flatten());
        drain_goes_on(state, input, rest.flatten());
        if !first.failed {
            feeding_is_draining(first.state, first.left, rest);
        }
    }
}

/// How an Arrow IPC stream is cut into chunks makes no difference: the same batches come out, it is
/// refused or not alike, and the same bytes stay unread.
pub proof fn law_chunking_does_not_matter(state: ArrowState, chunks: Seq<Seq<u8>>)
    ensures
        feed(state, seq![], chunks).same(drain(state, chunks.flatten())),
{
    assert(Seq::<u8>::empty() + chunks.flatten() == chunks.flatten());
    feeding_is_draining(state, seq![], chunks);
}

/// A new body reads alike however it is cut into chunks: two codecs that were made alike, each
/// given the same bytes in chunks of its own, yield the same batches.
pub proof fn law_a_new_body_reads_alike(
    limit: nat,
    chunks: Seq<Seq<u8>>,
    others: Seq<Seq<u8>>,
)
    requires
        chunks.flatten() == others.flatten(),
    ensures
        feed(ArrowState::fresh(limit), seq![], chunks).same(
            feed(ArrowState::fresh(limit), seq![], others),
        ),
{
    law_chunking_does_not_matter(ArrowState::fresh(limit), chunks);
    law_chunking_does_not_matter(ArrowState::fresh(limit), others);
}

/// A schema or a dictionary has no limit: no message is refused for its length but one that
/// carries a batch, and that one for its own length alone.
pub proof fn law_only_batches_are_limited(state: ArrowState, body: Seq<u8>, limit: nat)
    requires
        next_message(state.known, state.limit, body) matches Found::Whole { len, head, .. }
            && (has_batch(head) ==> len <= limit),
    ensures
        next_message(state.known, limit, body) == next_message(state.known, state.limit, body),
{
}

/// No batch comes out of a message that is longer than the limit.
pub proof fn law_no_batch_beyond_the_limit(state: ArrowState, body: Seq<u8>)
    ensures
        batch_at(state, body) matches Batch::Whole { len, left, .. } ==> {
            &&& len <= state.limit
            &&& len + left.len() <= body.len()
            &&& left == body.skip(body.len() - left.len())
        },
    decreases body.len(),
{
    if body.len() > 0 && !state.ended {
        message_stands_alone(state.known, state.limit, body);
        match next_message(state.known, state.limit, body) {
            Found::End { len } => {
                law_no_batch_beyond_the_limit(state.closed(), body.skip(len as int));
            },
            Found::Whole { len, head, known } => {
                let rest = body.skip(len as int);
                let read = arrow_read(state.stage, input_of(body.take(len as int), head));
                let after = state.after(read, known);
                law_no_batch_beyond_the_limit(after, rest);
                match batch_at(after, rest) {
                    Batch::Whole { left, .. } => {
                        assert(rest.skip(rest.len() - left.len()) == body.skip(
                            body.len() - left.len(),
                        ));
                    },
                    _ => {},
                }
            },
            _ => {},
        }
    }
}

/// What is read ahead of a batch does not count towards its length: once a schema or a dictionary
/// has been read, the rest is read as if it had come alone.
pub proof fn law_what_is_ahead_does_not_count(state: ArrowState, body: Seq<u8>)
    requires
        body.len() > 0,
        !state.ended,
    ensures
        next_message(state.known, state.limit, body) matches Found::Whole { len, head, known } ==> {
            let read = arrow_read(state.stage, input_of(body.take(len as int), head));
            &&& read.result is Ok && !has_batch(head) ==> batch_at(state, body) == batch_at(
                state.after(read, known),
                body.skip(len as int),
            )
            &&& state.after(read, known).limit == state.limit
        },
{
    message_stands_alone(state.known, state.limit, body);
}

/// A failure is terminal, and so is the end of the stream: whatever comes then is refused.
pub proof fn law_nothing_follows_a_failure(state: ArrowState, body: Seq<u8>, more: Seq<u8>)
    requires
        more.len() > 0,
    ensures
        match batch_at(state, body) {
            Batch::More { .. } | Batch::Whole { .. } => true,
            Batch::TooLong { state: after, .. } => batch_at(after, more) is Failed,
            Batch::Failed { state: after, .. } => batch_at(after, more) is Failed,
        },
        batch_at(state, end_of_stream() + more) is Failed,
    decreases body.len(),
{
    let marker = end_of_stream();
    assert((marker + more).skip(8) == more);
    assert(next_message(state.known, state.limit, marker + more) == Found::End { len: 8 });
    assert(batch_at(state.closed(), more) is Failed);
    if body.len() > 0 && !state.ended {
        message_stands_alone(state.known, state.limit, body);
        match next_message(state.known, state.limit, body) {
            Found::End { len } => {
                law_nothing_follows_a_failure(state.closed(), body.skip(len as int), more);
            },
            Found::Whole { len, head, known } => {
                let read = arrow_read(state.stage, input_of(body.take(len as int), head));
                law_nothing_follows_a_failure(
                    state.after(read, known),
                    body.skip(len as int),
                    more,
                );
            },
            _ => {},
        }
    }
}

/// What [`drain`] says is what comes of calling the codec again and again: `after`, `left` and
/// `res` are what one call comes to.
pub proof fn law_draining_is_calling(
    codec: ArrowIpcCodec,
    body: Seq<u8>,
    after: ArrowIpcCodec,
    left: Seq<u8>,
    res: Result<Option<Result<ArrowBatch, StreamError>>, StreamError>,
)
    requires
        ArrowIpcCodec::ends(batch_at(codec@, body), after, left, res),
    ensures
        match res {
            Ok(None) => drain(codec@, body) == (Drained {
                batches: seq![],
                failed: false,
                state: after@,
                left,
            }),
            Ok(Some(Ok(batch))) => drain(codec@, body) == drain(after@, left).after(seq![batch]),
            Ok(Some(Err(_))) => false,
            Err(_) => drain(codec@, body).failed && drain(codec@, body).batches.len() == 0,
        },
{
    batch_goes_on(codec@, body, seq![]);
}

/// One message of a stream, and what comes of it.
pub struct Message {
    /// All of its bytes.
    pub bytes: Seq<u8>,
    /// What its metadata say.
    pub head: MessageHead,
    /// What is known once it has been read.
    pub known: Known,
    /// What `arrow` makes of it.
    pub read: ArrowRead,
}

/// Whether `messages` are read from `state` on, one after the other: each is found whole, `arrow`
/// reads it without a failure, and makes a batch of those that carry one.
pub open spec fn is_stream(state: ArrowState, messages: Seq<Message>) -> bool
    decreases messages.len(),
{
    messages.len() == 0 || {
        let first = messages[0];
        &&& next_message(state.known, state.limit, first.bytes) == (Found::Whole {
            len: first.bytes.len(),
            head: Some(first.head),
            known: first.known,
        })
        &&& first.read == arrow_read(
            state.stage,
            if first.head.header == 3 && first.head.body_len == 0 {
                first.bytes + seq![0u8]
            } else {
                first.bytes
            },
        )
        &&& first.read.result matches Ok(batch)
        &&& batch is Some <==> first.head.header == 3
        &&& is_stream(
            ArrowState {
                stage: first.read.stage,
                known: first.known,
                ended: false,
                limit: state.limit,
            },
            messages.drop_first(),
        )
    }
}

/// The batches that `arrow` made of messages, in order.
pub open spec fn batches_of(messages: Seq<Message>) -> Seq<ArrowBatch>
    decreases messages.len(),
{
    if messages.len() == 0 {
        seq![]
    } else {
        let rest = batches_of(messages.drop_first());
        match messages[0].read.result {
            Ok(Some(batch)) => seq![batch] + rest,
            _ => rest,
        }
    }
}

/// The bytes of messages, one after the other.
pub open spec fn stream_of(messages: Seq<Message>) -> Seq<u8>
    decreases messages.len(),
{
    if messages.len() == 0 {
        seq![]
    } else {
        messages[0].bytes + stream_of(messages.drop_first())
    }
}

proof fn drain_stream(state: ArrowState, messages: Seq<Message>, end: Seq<u8>)
    requires
        !state.ended,
        is_stream(state, messages),
        end == seq![0xffu8, 0xffu8, 0xffu8, 0xffu8, 0u8, 0u8, 0u8, 0u8],
    ensures
        drain(state, stream_of(messages) + end).batches == batches_of(messages),
        !drain(state, stream_of(messages) + end).failed,
        drain(state, stream_of(messages) + end).left.len() == 0,
    decreases messages.len(),
{
    let body = stream_of(messages) + end;
    if messages.len() == 0 {
        assert(body == end);
        assert(next_message(state.known, state.limit, body) == Found::End { len: 8 });
        assert(body.skip(8) == Seq::<u8>::empty());
        reveal_with_fuel(batch_at, 2);
        assert(batch_at(state, body) == (Batch::More {
            state: state.closed(),
            left: Seq::<u8>::empty(),
        }));
    } else {
        let first = messages[0];
        let rest = messages.drop_first();
        let more = stream_of(rest) + end;
        let after = ArrowState {
            stage: first.read.stage,
            known: first.known,
            ended: false,
            limit: state.limit,
        };
        assert(body == first.bytes + more);
        message_stands_alone(state.known, state.limit, first.bytes);
        message_is_kept(state.known, state.limit, first.bytes, more);
        assert(body.take(first.bytes.len() as int) == first.bytes);
        assert(body.skip(first.bytes.len() as int) == more);
        assert(first.bytes + seq![0u8] == first.bytes.push(0));
        drain_stream(after, rest, end);
        assert(state.after(first.read, first.known) == after);
        if first.head.header == 3 {
            let batch = first.read.result->Ok_0->Some_0;
            assert(batch_at(state, body) == (Batch::Whole {
                batch,
                len: first.bytes.len(),
                state: after,
                left: more,
            }));
        } else {
            assert(batch_at(state, body) == batch_at(after, more));
            batch_goes_on(after, more, seq![]);
        }
    }
}

/// A stream of messages that `arrow` can read yields the batches that `arrow` makes of them, all of
/// them, in order and nothing else, however it is cut into chunks on the way.
pub proof fn law_a_stream_yields_its_batches(
    limit: nat,
    messages: Seq<Message>,
    chunks: Seq<Seq<u8>>,
)
    requires
        is_stream(ArrowState::fresh(limit), messages),
        chunks.flatten() == stream_of(messages) + seq![
            0xffu8,
            0xffu8,
            0xffu8,
            0xffu8,
            0u8,
            0u8,
            0u8,
            0u8,
        ],
    ensures
        feed(ArrowState::fresh(limit), seq![], chunks).batches == batches_of(messages),
        !feed(ArrowState::fresh(limit), seq![], chunks).failed,
{
    drain_stream(
        ArrowState::fresh(limit),
        messages,
        seq![0xffu8, 0xffu8, 0xffu8, 0xffu8, 0u8, 0u8, 0u8, 0u8],
    );
    law_chunking_does_not_matter(ArrowState::fresh(limit), chunks);
}

/// A new stream begins with no fields known. A message that `arrow` refuses is refused with the
/// error that `arrow` gives, one that is too long or cannot be read with an error of its own, and the
/// start of one is waited for.
pub proof fn law_how_a_message_is_answered(
    codec: ArrowIpcCodec,
    body: Seq<u8>,
    after: ArrowIpcCodec,
    left: Seq<u8>,
    res: Result<Option<Result<ArrowBatch, StreamError>>, StreamError>,
)
    requires
        ArrowIpcCodec::ends(batch_at(codec@, body), after, left, res),
        body.len() > 0,
        !codec@.ended,
    ensures
        ArrowState::fresh(codec@.limit).known.fields.len() == 0,
        match next_message(codec@.known, codec@.limit, body) {
            Found::Whole { len, head, .. } => match arrow_read(
                codec@.stage,
                input_of(body.take(len as int), head),
            ).result {
                Err(error) => {
                    &&& left == body
                    &&& after@.ended
                    &&& res matches Err(failure)
                    &&& failure@.kind == StreamErrorKind::CodecError
                    &&& failure@.source == Some(ErrorSource::Arrow(error))
                    &&& failure@.message == Some("Decode arrow IPC record error"@)
                },
                Ok(_) => true,
            },
            Found::TooLong => {
                &&& after@.ended
                &&& res matches Err(failure)
                &&& failure@.kind == StreamErrorKind::MaxLenReachedError
                &&& failure@.source is None
                &&& failure@.message == Some("Object length exceeds the maximum length"@)
            },
            Found::Unsound => {
                &&& after@.ended
                &&& res matches Err(failure)
                &&& failure@.kind == StreamErrorKind::CodecError
                &&& failure@.source is Some
            },
            Found::Part => left == body && after@ == codec@ && (res matches Ok(None)),
            Found::End { .. } => true,
        },
{
}

/// A failure closes the codec.
pub proof fn failure_closes(state: ArrowState, body: Seq<u8>)
    ensures
        match batch_at(state, body) {
            Batch::More { .. } | Batch::Whole { .. } => true,
            Batch::TooLong { state: after, .. } => after.ended,
            Batch::Failed { state: after, .. } => after.ended,
        },
    decreases body.len(),
{
    if body.len() > 0 && !state.ended {
        message_stands_alone(state.known, state.limit, body);
        match next_message(state.known, state.limit, body) {
            Found::End { len } => {
                failure_closes(state.closed(), body.skip(len as int));
            },
            Found::Whole { len, head, known } => {
                let read = arrow_read(state.stage, input_of(body.take(len as int), head));
                failure_closes(state.after(read, known), body.skip(len as int));
            },
            _ => {},
        }
    }
}

} // verus!
