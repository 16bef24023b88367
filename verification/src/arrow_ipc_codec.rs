//! Decoding an Arrow IPC stream.

use crate::arrow_fields::FieldShape;
use crate::arrow_message::{
    front_message, has_batch, message_stands_alone, next_message, Found, Front, Known,
    MessageHead, MOST_VALUES, RECORD_BATCH,
};
use crate::error::{reason, ErrorSource, ErrorView, StreamError, StreamErrorKind};
use crate::octets::{advance, buffer_len, buffer_slice, held};
use arrow::array::RecordBatch;
use arrow::buffer::Buffer;
use arrow::error::ArrowError;
use arrow::ipc::reader::StreamDecoder;
use bytes::BytesMut;
use vstd::prelude::*;

verus! {

/// `arrow::array::RecordBatch`, carried but never looked into.
#[verifier::external_body]
#[derive(Debug)]
pub struct ArrowBatch {
    /// The batch itself.
    pub batch: RecordBatch,
}

/// `arrow::ipc::reader::StreamDecoder`, which reads the messages of an IPC stream.
#[verifier::external_type_specification]
#[verifier::external_body]
pub struct ExStreamDecoder(StreamDecoder);

/// What a `StreamDecoder` goes by: the schema and the dictionaries it has read, and how far it is
/// in a message. Where it keeps that is no part of it.
pub uninterp spec fn stage_of(decoder: StreamDecoder) -> int;

/// The fields of the last schema that a `StreamDecoder` was given, in the order in which a batch
/// lays them out; none before the first.
pub uninterp spec fn known_fields(decoder: StreamDecoder) -> Seq<FieldShape>;

/// How many elements and bytes the dictionaries hold that a `StreamDecoder` was given, nested
/// elements counted too.
pub uninterp spec fn known_values(decoder: StreamDecoder) -> nat;

/// What one call of `StreamDecoder::decode` comes to.
pub struct ArrowRead {
    /// What it returns.
    pub result: Result<Option<ArrowBatch>, ArrowError>,
    /// What the decoder goes by afterwards.
    pub stage: int,
}

/// What `StreamDecoder::decode` makes of the bytes in a buffer.
pub uninterp spec fn arrow_read(stage: int, bytes: Seq<u8>) -> ArrowRead;

/// Whether a message carries a batch, and ends with its metadata.
pub open spec fn is_bare(head: Option<MessageHead>) -> bool {
    head matches Some(head) && head.header == RECORD_BATCH && head.body_len == 0
}

/// What the decoder is given of a message. It looks at a message once something follows the
/// metadata, so a batch without a body is followed by a byte, which stays unread.
pub open spec fn input_of(message: Seq<u8>, head: Option<MessageHead>) -> Seq<u8> {
    if is_bare(head) {
        message.push(0)
    } else {
        message
    }
}

/// Whether a decoder goes by what is known.
pub open spec fn goes_by(decoder: StreamDecoder, known: Known) -> bool {
    &&& known_fields(decoder) == known.fields
    &&& known.room matches Some(room) ==> known_values(decoder) + room <= MOST_VALUES
}

/// Whether `bytes` are what the decoder is given of a message that can be read.
pub open spec fn is_input(known: Known, bytes: Seq<u8>, len: nat) -> bool {
    &&& len <= bytes.len()
    &&& next_message(known, len, bytes.take(len as int)) matches Found::Whole {
        len: found,
        head,
        ..
    } && found == len && bytes == input_of(bytes.take(len as int), head)
}

/// Whether a decoder that was given a whole message can have returned `result`, and be left as it
/// is.
pub open spec fn answers(
    found: Found,
    result: Result<Option<ArrowBatch>, ArrowError>,
    decoder: StreamDecoder,
) -> bool {
    found matches Found::Whole { head, known, .. } && {
        &&& head is None ==> result is Err
        &&& result matches Ok(batch) ==> {
            &&& batch is Some == has_batch(head)
            &&& goes_by(decoder, known)
        }
    }
}

/// `StreamDecoder::new`: a decoder at the start of a stream, which has been given no schema and no
/// dictionary. Every decoder goes by the same at the start, which is called 0 here.
#[verifier::external_body]
fn new_decoder() -> (decoder: StreamDecoder)
    ensures
        stage_of(decoder) == 0,
        known_fields(decoder) == Seq::<FieldShape>::empty(),
        known_values(decoder) == 0,
{
    StreamDecoder::new()
}

/// `StreamDecoder::decode` of a `Buffer` that holds a copy of `bytes`, whose first `len` bytes are
/// a message that can be read, by one who knows `fields` and has so much room. What the decoder
/// makes of it is named, not spelled out. Besides that, a batch comes of a message that carries
/// one and of no other; a message whose metadata are malformed is refused; the fields of a schema
/// message are those known from then on; and dictionaries grow by no more than a message holds.
///
/// Left unsaid is when memory runs out.
#[verifier::external_body]
fn decode_message(
    decoder: &mut StreamDecoder,
    fields: &[FieldShape],
    room: Option<u64>,
    bytes: &[u8],
    len: usize,
) -> (result: Result<Option<ArrowBatch>, ArrowError>)
    requires
        goes_by(*old(decoder), (Known { fields: fields@, room })),
        is_input((Known { fields: fields@, room }), bytes@, len as nat),
    ensures
        result == arrow_read(stage_of(*old(decoder)), bytes@).result,
        stage_of(*final(decoder)) == arrow_read(stage_of(*old(decoder)), bytes@).stage,
        answers(
            next_message(
                (Known { fields: fields@, room }),
                len as nat,
                bytes@.take(len as int),
            ),
            result,
            *final(decoder),
        ),
{
    let mut buffer = Buffer::from(bytes);
    decoder.decode(&mut buffer).map(|found| found.map(|batch| ArrowBatch { batch }))
}

/// The `ArrowError` that `ArrowError::IpcError` makes of a text.
pub uninterp spec fn ipc_error_of(text: Seq<char>) -> ArrowError;

/// `ArrowError::IpcError`: the error that `arrow` reports a malformed stream with, which is named.
#[verifier::external_body]
fn ipc_error(text: &str) -> (error: ArrowError)
    ensures
        error == ipc_error_of(text@),
{
    ArrowError::IpcError(text.to_string())
}

/// What is known ahead of the first message.
pub open spec fn start_of_stream() -> Known {
    Known { fields: seq![], room: Some(MOST_VALUES) }
}

/// How far a codec is.
pub struct ArrowState {
    /// What the decoder goes by.
    pub stage: int,
    /// What has been learned from the messages.
    pub known: Known,
    /// The stream has ended, or it has failed.
    pub ended: bool,
    /// The length beyond which a message that carries a batch is refused.
    pub limit: nat,
}

impl ArrowState {
    /// Nothing more is read.
    pub open spec fn closed(self) -> ArrowState {
        ArrowState { ended: true, ..self }
    }

    /// A codec at the start of a stream.
    pub open spec fn fresh(limit: nat) -> ArrowState {
        ArrowState { stage: 0, known: start_of_stream(), ended: false, limit }
    }

    /// A message was read.
    pub open spec fn after(self, read: ArrowRead, known: Known) -> ArrowState {
        ArrowState { stage: read.stage, known, ..self }
    }
}

/// How a look at the buffer ended; `left` is what stays in it.
pub enum Batch {
    /// There is no whole batch.
    More { state: ArrowState, left: Seq<u8> },
    /// A whole batch, carried by a message of so many bytes.
    Whole { batch: ArrowBatch, len: nat, state: ArrowState, left: Seq<u8> },
    /// The message that carries it is longer than the limit.
    TooLong { state: ArrowState, left: Seq<u8> },
    /// The decoder failed, a message cannot be read, or something follows the end of the stream.
    Failed { error: ArrowError, state: ArrowState, left: Seq<u8> },
}

/// Looks for the next batch: reads one message after the other up to the first that carries one.
pub open spec fn batch_at(state: ArrowState, body: Seq<u8>) -> Batch
    decreases body.len(),
{
    if body.len() == 0 {
        Batch::More { state, left: body }
    } else if state.ended {
        Batch::Failed { error: ipc_error_of("Unexpected EOS"@), state, left: body }
    } else {
        match next_message(state.known, state.limit, body) {
            Found::Part => Batch::More { state, left: body },
            Found::TooLong => Batch::TooLong { state: state.closed(), left: body },
            Found::Unsound => Batch::Failed {
                error: ipc_error_of("Malformed message"@),
                state: state.closed(),
                left: body,
            },
            Found::End { len } => if 0 < len <= body.len() {
                batch_at(state.closed(), body.skip(len as int))
            } else {
                Batch::More { state, left: body }
            },
            Found::Whole { len, head, known } => {
                let read = arrow_read(state.stage, input_of(body.take(len as int), head));
                let after = state.after(read, known);
                match read.result {
                    Err(error) => Batch::Failed {
                        error,
                        state: (ArrowState { stage: read.stage, ..state }).closed(),
                        left: body,
                    },
                    Ok(Some(batch)) if has_batch(head) => Batch::Whole {
                        batch,
                        len,
                        state: after,
                        left: body.skip(len as int),
                    },
                    Ok(_) => if 0 < len <= body.len() {
                        batch_at(after, body.skip(len as int))
                    } else {
                        Batch::More { state: after, left: body }
                    },
                }
            },
        }
    }
}

/// Yields one [`ArrowBatch`] per IPC message.
///
/// The schema is read from the stream, so nothing needs to be configured to decode one. A message
/// is handed on once it is whole, and only where its buffers lie within its body and hold what the
/// schema says. Values that are appended to a dictionary are refused where unions or dictionaries
/// are among them, or nested values that are too many.
#[derive(Debug)]
pub struct ArrowIpcCodec {
    max_length: usize,
    decoder: StreamDecoder,
    fields: Vec<FieldShape>,
    room: Option<u64>,
    ended: bool,
}

impl View for ArrowIpcCodec {
    type V = ArrowState;

    closed spec fn view(&self) -> ArrowState {
        ArrowState {
            stage: stage_of(self.decoder),
            known: Known { fields: self.fields@, room: self.room },
            ended: self.ended,
            limit: self.max_length as nat,
        }
    }
}

impl ArrowIpcCodec {
    /// The codec knows what its decoder goes by, as long as it reads on.
    pub closed spec fn ready(&self) -> bool {
        self.ended || goes_by(self.decoder, self@.known)
    }

    /// How a call that met `batch` leaves the codec and the buffer, and what it returns.
    pub open spec fn ends(
        batch: Batch,
        after: Self,
        left: Seq<u8>,
        res: Result<Option<Result<ArrowBatch, StreamError>>, StreamError>,
    ) -> bool {
        match batch {
            Batch::More { state, left: rest } => {
                after@ == state && left == rest && res matches Ok(None)
            },
            Batch::Whole { batch, state, left: rest, .. } => {
                &&& after@ == state
                &&& left == rest
                &&& res == Ok::<_, StreamError>(Some(Ok::<_, StreamError>(batch)))
            },
            Batch::TooLong { state, left: rest } => {
                &&& after@ == state
                &&& left == rest
                &&& res matches Err(error)
                &&& error@ == reason(
                    StreamErrorKind::MaxLenReachedError,
                    "Object length exceeds the maximum length"@,
                )
            },
            Batch::Failed { error: source, state, left: rest } => {
                &&& after@ == state
                &&& left == rest
                &&& res matches Err(error)
                &&& error@ == (ErrorView {
                    kind: StreamErrorKind::CodecError,
                    source: Some(ErrorSource::Arrow(source)),
                    message: Some("Decode arrow IPC record error"@),
                })
            },
        }
    }

    /// A codec that rejects any single batch longer than `max_length` bytes.
    ///
    /// What is measured is the message that carries the batch. A schema or a dictionary is a
    /// message of its own, which has no limit.
    pub fn new_with_max_length(max_length: usize) -> (codec: Self)
        ensures
            codec.ready(),
            codec@ == ArrowState::fresh(max_length as nat),
    {
        let decoder = new_decoder();
        ArrowIpcCodec {
            max_length,
            decoder,
            fields: Vec::new(),
            room: Some(MOST_VALUES),
            ended: false,
        }
    }

    /// Says what becomes of what the decoder returned for the message of `len` bytes at the front
    /// of the buffer.
    ///
    /// Every failure is terminal: the decoder carries dictionary state across the whole stream, so
    /// a message it could not read leaves it unable to interpret the ones after it.
    pub fn settle(
        &mut self,
        result: Result<Option<ArrowBatch>, ArrowError>,
        len: usize,
        buf: &mut BytesMut,
    ) -> (res: Result<Option<Result<ArrowBatch, StreamError>>, StreamError>)
        requires
            len <= held(*old(buf)).len(),
        ensures
            match result {
                Ok(batch) => {
                    &&& final(self)@ == old(self)@
                    &&& final(self).ready() == old(self).ready()
                    &&& held(*final(buf)) == held(*old(buf)).skip(len as int)
                    &&& res == Ok::<_, StreamError>(
                        match batch {
                            Some(batch) => Some(Ok::<_, StreamError>(batch)),
                            None => None,
                        },
                    )
                },
                Err(error) => {
                    &&& final(self).ready()
                    &&& Self::ends(
                        Batch::Failed {
                            error,
                            state: old(self)@.closed(),
                            left: held(*old(buf)),
                        },
                        *final(self),
                        held(*final(buf)),
                        res,
                    )
                },
            },
    {
        match result {
            Ok(maybe_record) => {
                advance(buf, len);
                match maybe_record {
                    Some(record) => Ok(Some(Ok(record))),
                    None => Ok(None),
                }
            },
            Err(err) => {
                self.ended = true;
                Err(
                    StreamError::new(
                        StreamErrorKind::CodecError,
                        Some(ErrorSource::Arrow(err)),
                        Some("Decode arrow IPC record error".to_owned()),
                    ),
                )
            },
        }
    }

    /// The message of `len` bytes at the front of the buffer, as the decoder makes it out.
    fn read(&mut self, head: Option<MessageHead>, len: usize, body: &[u8]) -> (result: Result<
        Option<ArrowBatch>,
        ArrowError,
    >)
        requires
            old(self).ready(),
            !old(self)@.ended,
            next_message(old(self)@.known, old(self)@.limit, body@) matches Found::Whole {
                len: found,
                head: found_head,
                ..
            } && found == len && found_head == head,
        ensures
            ({
                let read = arrow_read(
                    old(self)@.stage,
                    input_of(body@.take(len as int), head),
                );
                &&& result == read.result
                &&& final(self)@ == (ArrowState { stage: read.stage, ..old(self)@ })
                &&& result matches Ok(batch) ==> {
                    &&& batch is Some == has_batch(head)
                    &&& final(self).knows(
                        next_message(old(self)@.known, old(self)@.limit, body@),
                    )
                }
            }),
    {
        proof {
            message_stands_alone(self@.known, self@.limit, body@);
        }
        let message = vstd::slice::slice_subrange(body, 0, len);
        assert(message@ == body@.take(len as int));
        let bare = match head {
            Some(head) => head.header == RECORD_BATCH && head.body_len == 0,
            None => false,
        };
        if bare {
            let mut input: Vec<u8> = Vec::new();
            input.extend_from_slice(message);
            assert(input@ == message@);
            input.push(0);
            assert(input@.take(len as int) == message@);
            decode_message(
                &mut self.decoder,
                self.fields.as_slice(),
                self.room,
                input.as_slice(),
                len,
            )
        } else {
            assert(message@.take(len as int) == message@);
            decode_message(
                &mut self.decoder,
                self.fields.as_slice(),
                self.room,
                message,
                len,
            )
        }
    }

    /// Whether the decoder goes by what is known once the message has been read.
    closed spec fn knows(&self, found: Found) -> bool {
        found matches Found::Whole { known, .. } && goes_by(self.decoder, known)
    }

    /// The next batch, if the buffer holds the whole of one. What is ahead of it is read, and the
    /// start of a message stays in the buffer.
    pub fn decode(&mut self, buf: &mut BytesMut) -> (res: Result<
        Option<Result<ArrowBatch, StreamError>>,
        StreamError,
    >)
        requires
            old(self).ready(),
        ensures
            Self::ends(
                batch_at(old(self)@, held(*old(buf))),
                *final(self),
                held(*final(buf)),
                res,
            ),
            final(self).ready(),
    {
        loop
            invariant
                self.ready(),
                batch_at(self@, held(*buf)) == batch_at(old(self)@, held(*old(buf))),
            decreases held(*buf).len(),
        {
            let total: usize = buffer_len(buf);
            if total == 0 {
                return Ok(None);
            }
            if self.ended {
                return self.settle(Err(ipc_error("Unexpected EOS")), 0, buf);
            }
            let ghost before = self@;
            let ghost body = held(*buf);
            proof {
                message_stands_alone(self@.known, self@.limit, body);
            }
            match front_message(
                self.fields.as_slice(),
                self.room,
                self.max_length,
                buffer_slice(buf),
            ) {
                Front::Part => {
                    return Ok(None);
                },
                Front::TooLong => {
                    self.ended = true;
                    return Err(
                        StreamError::because(
                            StreamErrorKind::MaxLenReachedError,
                            "Object length exceeds the maximum length",
                        ),
                    );
                },
                Front::Unsound => {
                    return self.settle(Err(ipc_error("Malformed message")), 0, buf);
                },
                Front::End { len } => {
                    self.ended = true;
                    advance(buf, len);
                },
                Front::Whole { len, head, fields, room } => {
                    let result = self.read(head, len, buffer_slice(buf));
                    if result.is_ok() {
                        self.room = room;
                        match fields {
                            Some(fields) => {
                                self.fields = fields;
                            },
                            None => {},
                        }
                    }
                    match self.settle(result, len, buf) {
                        Ok(None) => {},
                        found => {
                            return found;
                        },
                    }
                },
            }
        }
    }

    /// As [`decode`](Self::decode): the end of the body completes no batch by itself.
    pub fn decode_eof(&mut self, buf: &mut BytesMut) -> (res: Result<
        Option<Result<ArrowBatch, StreamError>>,
        StreamError,
    >)
        requires
            old(self).ready(),
        ensures
            Self::ends(
                batch_at(old(self)@, held(*old(buf))),
                *final(self),
                held(*final(buf)),
                res,
            ),
            final(self).ready(),
    {
        self.decode(buf)
    }
}

} // verus!
