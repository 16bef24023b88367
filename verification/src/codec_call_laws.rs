//! What the framers, the encode run, the coalescing and the accounting return, and what they leave
//! behind, told of their calls.

use crate::arrow_ipc_codec::{ArrowBatch, ArrowIpcCodec};
use crate::buffer::{coalesce_ready, BytesBuffer};
use crate::csv_record_codec::{fields_of, reader_for, CsvFrameConfig, CsvRecordCodec};
use crate::error::{ErrorSource, StreamError, StreamErrorKind};
use crate::format::{Call, FrameParser, ItemEncoder};
use crate::json_array_codec::{start_of_body, JsonArrayCodec, Step};
use crate::json_nl_codec::{JsonNewLineCodec, Line};
use crate::octets::{held, octets};
use crate::progress::{
    micros, Account, ChunkReport, Counting, PollReport, Polled, Progress, ProgressOptions, Report,
    StreamOutcome,
};
use crate::protobuf_laws::FrameFault;
use crate::protobuf_len_codec::{Frame, ProtobufLenPrefixCodec};
use crate::stream::{parse_frame, Action, EncodeState, Phase};
use bytes::{Bytes, BytesMut};
use std::time::Duration;
use vstd::prelude::*;
use vstd::utf8::{decode_utf8, valid_utf8};

verus! {

/// Framers begin with nothing read, and keep the limit that they are given.
pub proof fn law_new_framers(
    limit: usize,
    array: JsonArrayCodec,
    lines: JsonNewLineCodec,
    messages: ProtobufLenPrefixCodec,
    batches: ArrowIpcCodec,
    body: Seq<u8>,
)
    ensures
        call_ensures(JsonArrayCodec::new_with_max_length, (limit,), array) ==> {
            &&& array.limit() == limit
            &&& array.scan() == start_of_body()
            &&& array.offset() == 0
            &&& array.ready(body)
        },
        call_ensures(JsonNewLineCodec::new_with_max_length, (limit,), lines) ==> {
            &&& lines@ == crate::json_nl_laws::start(limit as nat)
            &&& lines@.ready(body)
        },
        call_ensures(ProtobufLenPrefixCodec::new_with_max_length, (limit,), messages) ==> {
            &&& messages.limit() == limit
            &&& messages.expected() is None
        },
        call_ensures(ArrowIpcCodec::new_with_max_length, (limit,), batches) ==> {
            &&& batches@.limit == limit
            &&& batches@.stage == 0
            &&& batches@.known.fields.len() == 0
            &&& !batches@.ended
            &&& batches.ready()
        },
{
}

/// A CSV framer begins with nothing read, keeps its configuration and its limit, and has a header row
/// ahead of it exactly where it is told so.
pub proof fn law_a_new_csv_framer(
    config: CsvFrameConfig,
    has_headers: bool,
    limit: usize,
    codec: CsvRecordCodec,
)
    requires
        call_ensures(CsvRecordCodec::new, (config, has_headers, limit), codec),
    ensures
        codec.ready(),
        codec@.mode == reader_for(config),
        codec@.header_pending == has_headers,
        codec@.limit == limit,
        codec@.fields.len() == 0,
        codec@.ends.len() == 0,
{
}

/// What a failed scan of a JSON array is answered with.
pub open spec fn answers_array(step: Step, error: StreamError) -> bool {
    &&& error@.source is None
    &&& match step {
        Step::TooLong(_) => error@.kind == StreamErrorKind::MaxLenReachedError && error@.message
            == Some("Max object length reached"@),
        Step::StrayBrace(_) => error@.kind == StreamErrorKind::CodecError && error@.message == Some(
            "Unexpected `}` outside any object"@,
        ),
        Step::StrayComma(_) => error@.kind == StreamErrorKind::CodecError && error@.message == Some(
            "Unexpected delimiter found"@,
        ),
        _ => false,
    }
}

/// Asking for the next element of a JSON array gives the first of those that there are, and leaves
/// the others; where there is none it says so, and a failure is reported as what it is.
pub proof fn law_the_next_element(
    codec: &mut JsonArrayCodec,
    buf: &mut BytesMut,
    res: Result<Option<Vec<u8>>, StreamError>,
)
    requires
        old(codec).ready(held(*old(buf))),
        call_ensures(JsonArrayCodec::next_element, (codec, buf), res),
    ensures
        ({
            let all = crate::json_array_laws::drain(
                old(codec).scan(),
                old(codec).offset(),
                held(*old(buf)),
                old(codec).limit(),
            );
            &&& final(codec).limit() == old(codec).limit()
            &&& match res {
                Ok(None) => {
                    &&& all.elements.len() == 0
                    &&& all.failed is None
                    &&& held(*final(buf)) == held(*old(buf))
                    &&& all.scan == final(codec).scan()
                    &&& all.offset == final(codec).offset()
                    &&& final(codec).ready(held(*final(buf)))
                },
                Ok(Some(text)) => {
                    &&& all == crate::json_array_laws::drain(
                        final(codec).scan(),
                        final(codec).offset(),
                        held(*final(buf)),
                        final(codec).limit(),
                    ).after(seq![text@])
                    &&& final(codec).ready(held(*final(buf)))
                },
                Err(error) => {
                    &&& all.elements.len() == 0
                    &&& all.failed matches Some(step)
                    &&& answers_array(step, error)
                    &&& held(*final(buf)) == held(*old(buf))
                },
            }
        }),
{
    crate::json_array_laws::law_draining_is_calling(
        *old(codec),
        held(*old(buf)),
        *final(codec),
        held(*final(buf)),
    );
}

/// The next item of a JSON array is what the first element is parsed as; one that cannot be parsed
/// is reported with the reason.
pub proof fn law_the_next_array_item<T, P: FnOnce(&[u8]) -> Result<T, serde_json::Error>>(
    codec: &mut JsonArrayCodec,
    buf: &mut BytesMut,
    parse: P,
    res: Result<Option<Result<T, StreamError>>, StreamError>,
)
    requires
        old(codec).ready(held(*old(buf))),
        call_ensures(JsonArrayCodec::decode::<T, P>, (codec, buf, parse), res) || call_ensures(
            JsonArrayCodec::decode_eof::<T, P>,
            (codec, buf, parse),
            res,
        ),
    ensures
        ({
            let all = crate::json_array_laws::drain(
                old(codec).scan(),
                old(codec).offset(),
                held(*old(buf)),
                old(codec).limit(),
            );
            if all.elements.len() > 0 {
                &&& all.elements.drop_first() == crate::json_array_laws::drain(
                    final(codec).scan(),
                    final(codec).offset(),
                    held(*final(buf)),
                    final(codec).limit(),
                ).elements
                &&& exists|text: &[u8], parsed: Result<T, serde_json::Error>|
                    text@ == all.elements[0] && #[trigger] call_ensures(parse, (text,), parsed)
                        && match parsed {
                        Ok(item) => res == Ok::<_, StreamError>(Some(Ok::<T, StreamError>(item))),
                        Err(err) => {
                            &&& res matches Err(error)
                            &&& error@.kind == StreamErrorKind::CodecError
                            &&& error@.source == Some(ErrorSource::Json(err))
                            &&& error@.message is None
                        },
                    }
            } else {
                &&& held(*final(buf)) == held(*old(buf))
                &&& match all.failed {
                    None => res matches Ok(None),
                    Some(step) => res matches Err(error) && answers_array(step, error),
                }
            }
        }),
{
    crate::json_array_laws::law_draining_is_calling(
        *old(codec),
        held(*old(buf)),
        *final(codec),
        held(*final(buf)),
    );
    let body = held(*old(buf));
    let all = crate::json_array_laws::drain(
        old(codec).scan(),
        old(codec).offset(),
        body,
        old(codec).limit(),
    );
    match old(codec).next_step(body) {
        Step::Element { element, .. } => {
            let later = crate::json_array_laws::drain(
                final(codec).scan(),
                final(codec).offset(),
                held(*final(buf)),
                final(codec).limit(),
            );
            assert(all.elements == seq![element] + later.elements);
            assert(all.elements[0] == element);
            assert(all.elements.drop_first() == later.elements);
        },
        _ => {},
    }
}

/// Asking for the next line gives the first of those that there are, as text where it is, and leaves
/// the others.
pub proof fn law_the_next_line(
    codec: &mut JsonNewLineCodec,
    buf: &mut BytesMut,
    res: Result<Option<Result<String, StreamError>>, StreamError>,
)
    requires
        old(codec)@.ready(held(*old(buf))),
        !old(codec)@.discarding,
        call_ensures(JsonNewLineCodec::next_line, (codec, buf), res),
    ensures
        final(codec)@.ready(held(*final(buf))),
        ({
            let all = crate::json_nl_laws::drain(old(codec)@, held(*old(buf)));
            let later = crate::json_nl_laws::drain(final(codec)@, held(*final(buf)));
            match res {
                Ok(None) => all.lines.len() == 0 && !all.failed && all.left == held(*final(buf))
                    && all.state == final(codec)@,
                Ok(Some(found)) => {
                    &&& all.lines.len() > 0
                    &&& all.lines.drop_first() == later.lines
                    &&& all.failed == later.failed
                    &&& match found {
                        Ok(text) => valid_utf8(all.lines[0]) && text@ == decode_utf8(all.lines[0]),
                        Err(error) => !valid_utf8(all.lines[0]) && error@.kind
                            == StreamErrorKind::InputOutputError,
                    }
                },
                Err(error) => {
                    &&& all.lines.len() == 0
                    &&& all.failed
                    &&& error@.kind == StreamErrorKind::MaxLenReachedError
                    &&& error@.source is None
                    &&& error@.message == Some("Max line length reached"@)
                },
            }
        }),
{
    let body = held(*old(buf));
    crate::json_nl_laws::law_draining_is_calling(
        *old(codec),
        body,
        *final(codec),
        held(*final(buf)),
    );
    match old(codec)@.next(body) {
        Line::Whole { text, .. } => {
            let all = crate::json_nl_laws::drain(old(codec)@, body);
            let later = crate::json_nl_laws::drain(final(codec)@, held(*final(buf)));
            assert(all.lines == seq![text] + later.lines);
            assert(all.lines[0] == text);
            assert(all.lines.drop_first() == later.lines);
        },
        _ => {},
    }
}

/// At the end of the body what has no line ending is a line too.
pub proof fn law_the_last_line(
    codec: &mut JsonNewLineCodec,
    buf: &mut BytesMut,
    res: Result<Option<Result<String, StreamError>>, StreamError>,
)
    requires
        call_ensures(JsonNewLineCodec::last_line, (codec, buf), res),
        !old(codec)@.discarding,
        held(*old(buf)).len() > 0,
        held(*old(buf)).len() <= old(codec)@.limit,
        forall|i: int| 0 <= i < held(*old(buf)).len() ==> #[trigger] held(*old(buf))[i] != 0x0a,
        held(*old(buf)).last() != 0x0d,
        valid_utf8(held(*old(buf))),
    ensures
        res matches Ok(Some(Ok(text))) && text@ == decode_utf8(held(*old(buf))),
        held(*final(buf)).len() == 0,
{
    let body = held(*old(buf));
    crate::json_nl_codec::newline_bounds(body);
    let n = crate::json_nl_codec::first_newline(body);
    if n < body.len() {
        assert(body[n] != 0x0a);
    }
}

/// The next item of JSON lines is what the next line is parsed as; one that cannot be parsed is an
/// item that says why, and does not end the body.
pub proof fn law_the_next_line_item<T, P: FnOnce(&str) -> Result<T, serde_json::Error>>(
    codec: &mut JsonNewLineCodec,
    buf: &mut BytesMut,
    parse: P,
    res: Result<Option<Result<T, StreamError>>, StreamError>,
)
    requires
        old(codec)@.ready(held(*old(buf))),
        !old(codec)@.discarding,
        call_ensures(JsonNewLineCodec::decode::<T, P>, (codec, buf, parse), res),
    ensures
        ({
            let all = crate::json_nl_laws::drain(old(codec)@, held(*old(buf)));
            if all.lines.len() > 0 {
                if valid_utf8(all.lines[0]) {
                    exists|line: &str, parsed: Result<T, serde_json::Error>|
                        line@ == decode_utf8(all.lines[0]) && #[trigger] call_ensures(
                            parse,
                            (line,),
                            parsed,
                        ) && match parsed {
                            Ok(item) => res == Ok::<_, StreamError>(
                                Some(Ok::<T, StreamError>(item)),
                            ),
                            Err(err) => {
                                &&& res matches Ok(Some(Err(error)))
                                &&& error@.kind == StreamErrorKind::CodecError
                                &&& error@.source == Some(ErrorSource::Json(err))
                                &&& error@.message is None
                            },
                        }
                } else {
                    res matches Ok(Some(Err(error))) && error@.kind
                        == StreamErrorKind::InputOutputError
                }
            } else if all.failed {
                res matches Err(error) && error@.kind == StreamErrorKind::MaxLenReachedError
            } else {
                res matches Ok(None)
            }
        }),
{
    let body = held(*old(buf));
    crate::json_nl_laws::law_draining_is_calling(
        *old(codec),
        body,
        *final(codec),
        held(*final(buf)),
    );
    match old(codec)@.next(body) {
        Line::Whole { text, .. } => {
            let all = crate::json_nl_laws::drain(old(codec)@, body);
            let later = crate::json_nl_laws::drain(final(codec)@, held(*final(buf)));
            assert(all.lines == seq![text] + later.lines);
            assert(all.lines[0] == text);
        },
        _ => {},
    }
}

/// Asking for the next message gives the first of those that there are, and leaves the others.
pub proof fn law_the_next_message(
    codec: &mut ProtobufLenPrefixCodec,
    buf: &mut BytesMut,
    res: Result<Option<Bytes>, StreamError>,
)
    requires
        call_ensures(ProtobufLenPrefixCodec::next_message, (codec, buf), res),
    ensures
        ({
            let all = crate::protobuf_laws::drain(
                old(codec).expected(),
                held(*old(buf)),
                old(codec).limit(),
            );
            let later = crate::protobuf_laws::drain(
                final(codec).expected(),
                held(*final(buf)),
                final(codec).limit(),
            );
            &&& final(codec).limit() == old(codec).limit()
            &&& match res {
                Ok(None) => all.messages.len() == 0 && all.failed is None && all.left == held(
                    *final(buf),
                ) && all.expected == final(codec).expected(),
                Ok(Some(bytes)) => {
                    &&& all.messages.len() > 0
                    &&& all.messages[0] == octets(bytes)
                    &&& all.messages.drop_first() == later.messages
                    &&& all.failed == later.failed
                },
                Err(error) => {
                    &&& all.messages.len() == 0
                    &&& error@.source is None
                    &&& match all.failed {
                        Some(FrameFault::TooLong) => error@.kind
                            == StreamErrorKind::MaxLenReachedError && error@.message == Some(
                            "Max object length reached"@,
                        ),
                        Some(FrameFault::BadLength) => error@.kind == StreamErrorKind::CodecError
                            && error@.message == Some("invalid varint"@),
                        None => false,
                    }
                },
            }
        }),
{
    let body = held(*old(buf));
    crate::protobuf_laws::law_draining_is_calling(
        *old(codec),
        body,
        *final(codec),
        held(*final(buf)),
    );
    match old(codec).next(body) {
        Frame::Message { message, .. } => {
            let all = crate::protobuf_laws::drain(old(codec).expected(), body, old(codec).limit());
            let later = crate::protobuf_laws::drain(
                final(codec).expected(),
                held(*final(buf)),
                final(codec).limit(),
            );
            assert(all.messages == seq![message] + later.messages);
            assert(all.messages[0] == message);
            assert(all.messages.drop_first() == later.messages);
        },
        _ => {},
    }
}

/// The next item of a Protobuf body is what the next message is parsed as; one that cannot be parsed
/// ends the body, with the reason.
pub proof fn law_the_next_message_item<T, P: FnOnce(Bytes) -> Result<T, prost::DecodeError>>(
    codec: &mut ProtobufLenPrefixCodec,
    buf: &mut BytesMut,
    parse: P,
    res: Result<Option<Result<T, StreamError>>, StreamError>,
)
    requires
        call_ensures(ProtobufLenPrefixCodec::decode::<T, P>, (codec, buf, parse), res)
            || call_ensures(ProtobufLenPrefixCodec::decode_eof::<T, P>, (codec, buf, parse), res),
    ensures
        ({
            let all = crate::protobuf_laws::drain(
                old(codec).expected(),
                held(*old(buf)),
                old(codec).limit(),
            );
            if all.messages.len() > 0 {
                exists|bytes: Bytes, parsed: Result<T, prost::DecodeError>|
                    octets(bytes) == all.messages[0] && #[trigger] call_ensures(
                        parse,
                        (bytes,),
                        parsed,
                    ) && match parsed {
                        Ok(item) => res == Ok::<_, StreamError>(Some(Ok::<T, StreamError>(item))),
                        Err(err) => {
                            &&& res matches Err(error)
                            &&& error@.kind == StreamErrorKind::CodecError
                            &&& error@.source == Some(ErrorSource::Protobuf(err))
                            &&& error@.message is None
                        },
                    }
            } else if all.failed is Some {
                res is Err
            } else {
                res matches Ok(None)
            }
        }),
{
    let body = held(*old(buf));
    crate::protobuf_laws::law_draining_is_calling(
        *old(codec),
        body,
        *final(codec),
        held(*final(buf)),
    );
    match old(codec).next(body) {
        Frame::Message { message, .. } => {
            let all = crate::protobuf_laws::drain(old(codec).expected(), body, old(codec).limit());
            let later = crate::protobuf_laws::drain(
                final(codec).expected(),
                held(*final(buf)),
                final(codec).limit(),
            );
            assert(all.messages == seq![message] + later.messages);
            assert(all.messages[0] == message);
        },
        _ => {},
    }
}

/// Asking for the next record gives the first of those that there are, field for field, and leaves the
/// others.
pub proof fn law_the_next_record(
    codec: &mut CsvRecordCodec,
    buf: &mut BytesMut,
    res: Result<Option<csv::ByteRecord>, StreamError>,
)
    requires
        old(codec).ready(),
        call_ensures(CsvRecordCodec::decode, (codec, buf), res),
    ensures
        ({
            let all = crate::csv_laws::drain(old(codec)@, held(*old(buf)));
            let later = crate::csv_laws::drain(final(codec)@, held(*final(buf)));
            match res {
                Ok(None) => all.records.len() == 0 && !all.failed && all.state == final(codec)@,
                Ok(Some(record)) => {
                    &&& all.records.len() > 0
                    &&& fields_of(record) == all.records[0]
                    &&& all.records.drop_first() == later.records
                    &&& all.failed == later.failed
                },
                Err(error) => {
                    &&& all.records.len() == 0
                    &&& all.failed
                    &&& error@.kind == StreamErrorKind::MaxLenReachedError
                    &&& error@.source is None
                    &&& error@.message == Some("Max record length reached"@)
                },
            }
        }),
{
    let body = held(*old(buf));
    crate::csv_laws::law_draining_is_calling(*old(codec), body, *final(codec), held(*final(buf)));
    match crate::csv_record_codec::record_from(old(codec)@, body, false) {
        crate::csv_record_codec::Framed::Record { fields, .. } => {
            let all = crate::csv_laws::drain(old(codec)@, body);
            let later = crate::csv_laws::drain(final(codec)@, held(*final(buf)));
            assert(all.records == seq![fields] + later.records);
            assert(all.records[0] == fields);
            assert(all.records.drop_first() == later.records);
        },
        _ => {},
    }
}

/// Asking for the next batch gives the first of those that there are, and leaves the others; the end
/// of the body completes none.
pub proof fn law_the_next_batch(
    codec: &mut ArrowIpcCodec,
    buf: &mut BytesMut,
    res: Result<Option<Result<ArrowBatch, StreamError>>, StreamError>,
)
    requires
        call_ensures(ArrowIpcCodec::decode, (codec, buf), res) || call_ensures(
            ArrowIpcCodec::decode_eof,
            (codec, buf),
            res,
        ),
    ensures
        final(codec).ready(),
        ({
            let all = crate::arrow_laws::drain(old(codec)@, held(*old(buf)));
            let later = crate::arrow_laws::drain(final(codec)@, held(*final(buf)));
            match res {
                Ok(None) => all.batches.len() == 0 && !all.failed && all.state == final(codec)@
                    && all.left == held(*final(buf)),
                Ok(Some(found)) => {
                    &&& found matches Ok(batch)
                    &&& all.batches.len() > 0
                    &&& all.batches[0] == batch
                    &&& all.batches.drop_first() == later.batches
                    &&& all.failed == later.failed
                },
                Err(_) => all.batches.len() == 0 && all.failed && final(codec)@.ended,
            }
        }),
{
    let body = held(*old(buf));
    crate::arrow_laws::law_draining_is_calling(
        *old(codec),
        body,
        *final(codec),
        held(*final(buf)),
        res,
    );
    let all = crate::arrow_laws::drain(old(codec)@, body);
    let later = crate::arrow_laws::drain(final(codec)@, held(*final(buf)));
    match res {
        Ok(Some(Ok(batch))) => {
            assert(all.batches == seq![batch] + later.batches);
            assert(all.batches[0] == batch);
            assert(all.batches.drop_first() == later.batches);
        },
        Err(_) => {
            crate::arrow_laws::failure_closes(old(codec)@, body);
        },
        _ => {},
    }
}

/// The last item of JSON lines is what the text behind the last line ending is parsed as.
pub proof fn law_the_last_line_item<T, P: FnOnce(&str) -> Result<T, serde_json::Error>>(
    codec: &mut JsonNewLineCodec,
    buf: &mut BytesMut,
    parse: P,
    res: Result<Option<Result<T, StreamError>>, StreamError>,
)
    requires
        old(codec)@.ready(held(*old(buf))),
        call_ensures(JsonNewLineCodec::decode_eof::<T, P>, (codec, buf, parse), res),
        !old(codec)@.discarding,
        held(*old(buf)).len() <= old(codec)@.limit,
        forall|i: int| 0 <= i < held(*old(buf)).len() ==> #[trigger] held(*old(buf))[i] != 0x0a,
    ensures
        held(*old(buf)) != seq![0x0du8] ==> held(*final(buf)).len() == 0,
        held(*old(buf)).len() == 0 || held(*old(buf)) == seq![0x0du8] ==> res matches Ok(None),
        held(*old(buf)).len() > 0 && held(*old(buf)).last() != 0x0d && valid_utf8(
            held(*old(buf)),
        ) ==> exists|line: &str, parsed: Result<T, serde_json::Error>|
            line@ == decode_utf8(held(*old(buf))) && #[trigger] call_ensures(
                parse,
                (line,),
                parsed,
            ) && match parsed {
                Ok(item) => res == Ok::<_, StreamError>(Some(Ok::<T, StreamError>(item))),
                Err(err) => {
                    &&& res matches Ok(Some(Err(error)))
                    &&& error@.kind == StreamErrorKind::CodecError
                    &&& error@.source == Some(ErrorSource::Json(err))
                    &&& error@.message is None
                },
            },
{
    let body = held(*old(buf));
    crate::json_nl_codec::newline_bounds(body);
    let n = crate::json_nl_codec::first_newline(body);
    if n < body.len() {
        assert(body[n] != 0x0a);
    }
    if body.len() == 1 && body != seq![0x0du8] {
        assert(body == seq![body[0]]);
    }
}

/// A message that was read is dropped from the buffer and the batch in it, if there is one, is handed
/// out; one that could not be read ends the stream and is reported, and the buffer stays as it is.
pub proof fn law_settled_messages(
    codec: &mut ArrowIpcCodec,
    result: Result<Option<ArrowBatch>, arrow::error::ArrowError>,
    len: usize,
    buf: &mut BytesMut,
    res: Result<Option<Result<ArrowBatch, StreamError>>, StreamError>,
)
    requires
        len <= held(*old(buf)).len(),
        call_ensures(ArrowIpcCodec::settle, (codec, result, len, buf), res),
    ensures
        match result {
            Ok(Some(batch)) => {
                &&& res == Ok::<_, StreamError>(Some(Ok::<ArrowBatch, StreamError>(batch)))
                &&& held(*final(buf)) == held(*old(buf)).skip(len as int)
                &&& final(codec)@ == old(codec)@
            },
            Ok(None) => {
                &&& res matches Ok(None)
                &&& held(*final(buf)) == held(*old(buf)).skip(len as int)
                &&& final(codec)@ == old(codec)@
            },
            Err(failure) => {
                &&& res matches Err(error)
                &&& error@.kind == StreamErrorKind::CodecError
                &&& error@.source == Some(ErrorSource::Arrow(failure))
                &&& error@.message == Some("Decode arrow IPC record error"@)
                &&& final(codec)@.ended
                &&& held(*final(buf)) == held(*old(buf))
            },
        },
{
}

/// A run begins with nothing written, and with the encoder that it is given.
pub proof fn law_a_new_run<ENC>(encoder: ENC, state: EncodeState<ENC>)
    requires
        call_ensures(EncodeState::<ENC>::new, (encoder,), state),
    ensures
        state.stage().phase == Phase::Prologue,
        state.stage().index == 0,
        state.encoder() == encoder,
{
}

/// Going on writes the prologue at first and the epilogue at last, each once and on an empty buffer:
/// what was written is yielded unless it is nothing, and a failure is yielded and ends the run. In
/// between an item is asked for, and at the end nothing any more.
pub proof fn law_going_on<T, ENC: ItemEncoder<T>>(
    state: &mut EncodeState<ENC>,
    action: Action,
)
    requires
        call_ensures(EncodeState::<ENC>::advance::<T>, (state,), action),
    ensures
        final(state).stage().index == old(state).stage().index,
        match old(state).stage().phase {
            Phase::Prologue => exists|call: Call<ENC>| #[trigger]
                ENC::opens(call) && was_called(*old(state), call, *final(state)) && match call.result {
                    Ok(_) => final(state).stage().phase == Phase::Items && is_yielded(
                        call.buffer_after,
                        action,
                    ) && (call.buffer_after.len() == 0 ==> action is Pull),
                    Err(error) => final(state).stage().phase == Phase::Done && action
                        == Action::Yield(Err::<Bytes, StreamError>(error)),
                },
            Phase::Epilogue => exists|call: Call<ENC>| #[trigger]
                ENC::closes(call) && was_called(*old(state), call, *final(state))
                    && final(state).stage().phase == Phase::Done && match call.result {
                    Ok(_) => is_yielded(call.buffer_after, action) && (call.buffer_after.len() == 0
                        ==> action is Stop),
                    Err(error) => action == Action::Yield(Err::<Bytes, StreamError>(error)),
                },
            Phase::Items => action is Pull && final(state).stage().phase == Phase::Items
                && final(state).encoder() == old(state).encoder(),
            Phase::Done => action is Stop && final(state).stage().phase == Phase::Done
                && final(state).encoder() == old(state).encoder(),
        },
{
    match old(state).stage().phase {
        Phase::Prologue => {
            let call = choose|call: Call<ENC>| #[trigger]
                old(state).calls(call, *final(state)) && ENC::opens(call) && action.is_due(
                    old(state).stage().after(crate::stream::outcome_of(call)).1,
                    Phase::Items,
                );
            assert(ENC::opens(call));
        },
        Phase::Epilogue => {
            let call = choose|call: Call<ENC>| #[trigger]
                old(state).calls(call, *final(state)) && ENC::closes(call) && action.is_due(
                    old(state).stage().after(crate::stream::outcome_of(call)).1,
                    Phase::Done,
                );
            assert(ENC::closes(call));
        },
        _ => {},
    }
}

/// Whether a call was made of the encoder of a run, on an empty buffer, and left it as it is then.
pub open spec fn was_called<ENC>(
    before: EncodeState<ENC>,
    call: Call<ENC>,
    after: EncodeState<ENC>,
) -> bool {
    &&& call.encoder == before.encoder()
    &&& call.buffer.len() == 0
    &&& call.encoder_after == after.encoder()
}

/// Whether bytes are yielded, where there are any.
pub open spec fn is_yielded(bytes: Seq<u8>, action: Action) -> bool {
    bytes.len() > 0 ==> (action matches Action::Yield(Ok(chunk)) && octets(chunk) == bytes)
}

/// An item is encoded with the number of items ahead of it, on an empty buffer, and what was written
/// is yielded unless it is nothing; a failure, of the encoder or of the source, is yielded as it is
/// and ends the run; and the end of the source yields nothing, and leads to the epilogue.
pub proof fn law_supplying<T, ENC: ItemEncoder<T>>(
    state: &mut EncodeState<ENC>,
    next: Option<Result<T, StreamError>>,
    chunk: Option<Result<Bytes, StreamError>>,
)
    requires
        old(state).stage().phase == Phase::Items,
        old(state).stage().index < u64::MAX,
        call_ensures(EncodeState::<ENC>::supply::<T>, (state, next), chunk),
    ensures
        match next {
            Some(Ok(item)) => exists|call: Call<ENC>| #[trigger]
                ENC::encodes(call, item, old(state).stage().index) && was_called(
                    *old(state),
                    call,
                    *final(state),
                ) && match call.result {
                    Ok(_) => {
                        &&& final(state).stage().phase == Phase::Items
                        &&& final(state).stage().index == old(state).stage().index + 1
                        &&& call.buffer_after.len() == 0 ==> chunk is None
                        &&& call.buffer_after.len() > 0 ==> (chunk matches Some(Ok(bytes))
                            && octets(bytes) == call.buffer_after)
                    },
                    Err(error) => {
                        &&& final(state).stage().phase == Phase::Done
                        &&& chunk == Some(Err::<Bytes, StreamError>(error))
                    },
                },
            Some(Err(error)) => {
                &&& final(state).stage().phase == Phase::Done
                &&& final(state).encoder() == old(state).encoder()
                &&& chunk == Some(Err::<Bytes, StreamError>(error))
            },
            None => {
                &&& final(state).stage().phase == Phase::Epilogue
                &&& final(state).stage().index == old(state).stage().index
                &&& final(state).encoder() == old(state).encoder()
                &&& chunk is None
            },
        },
{
    if let Some(Ok(item)) = next {
        let index = old(state).stage().index;
        let call = choose|call: Call<ENC>| #[trigger]
            old(state).calls(call, *final(state)) && ENC::encodes(call, item, index)
                && crate::stream::yields(
                chunk,
                old(state).stage().after(crate::stream::outcome_of(call)).1,
            );
        assert(ENC::encodes(call, item, index));
    }
}

/// A frame is handed to the parser, and a failure of the framer is passed on as it is.
pub proof fn law_parsing_frames<F, T, P: FrameParser<F, T>>(
    parser: P,
    framed: Result<F, StreamError>,
    item: Result<T, StreamError>,
)
    requires
        call_ensures(parse_frame::<F, T, P>, (&parser, framed), item),
    ensures
        match framed {
            Ok(frame) => parser.parses(frame, item),
            Err(error) => item == Err::<T, StreamError>(error),
        },
{
}

/// Chunks that are ready at the same time are put together, up to a failure, which takes their place.
pub proof fn law_coalescing_what_is_ready<E>(
    batch: Vec<Result<Bytes, E>>,
    chunk: Result<Bytes, E>,
    n: int,
)
    requires
        call_ensures(coalesce_ready::<E>, (batch,), chunk),
        0 <= n <= batch@.len(),
        forall|i: int| 0 <= i < n ==> #[trigger] batch@[i] is Ok,
        n < batch@.len() ==> batch@[n] is Err,
    ensures
        n == batch@.len() ==> (chunk matches Ok(chunk) && octets(chunk) == Seq::new(
            batch@.len(),
            |i: int| octets(batch@[i]->Ok_0),
        ).flatten()),
        n < batch@.len() ==> chunk == Err::<Bytes, E>(batch@[n]->Err_0),
{
    crate::buffer::law_a_batch_is_put_together(batch@, n);
}

/// The bytes of chunks that came out.
pub open spec fn bytes_out<E>(chunks: Seq<Result<Bytes, E>>) -> Seq<Seq<u8>> {
    Seq::new(chunks.len(), |i: int| octets(chunks[i]->Ok_0))
}

/// A buffer makes chunks of the size that it is given, at least one byte; bytes that go in come out in
/// chunks of that size, and what is left over is held back, less than a chunk; a failure comes out as
/// it is, and drops what is held back; and then nothing comes out any more.
pub proof fn law_buffering<E>(
    size: usize,
    fresh: BytesBuffer,
    buffer: &mut BytesBuffer,
    next: Result<Bytes, E>,
    chunks: Option<Vec<Result<Bytes, E>>>,
)
    requires
        call_ensures(BytesBuffer::new, (size,), fresh),
        old(buffer)@.size > 0,
        call_ensures(BytesBuffer::push::<E>, (buffer, next), chunks),
    ensures
        fresh@.size == (if size == 0 {
            1
        } else {
            size as nat
        }),
        fresh@.pending.len() == 0,
        !fresh@.errored,
        final(buffer)@.size == old(buffer)@.size,
        if old(buffer)@.errored {
            chunks is None && final(buffer)@ == old(buffer)@
        } else {
            match next {
                Ok(bytes) => {
                    &&& chunks matches Some(chunks)
                    &&& forall|i: int|
                        0 <= i < chunks@.len() ==> (#[trigger] chunks@[i] matches Ok(chunk)
                            && octets(chunk).len() == old(buffer)@.size)
                    &&& bytes_out(chunks@).flatten() + final(buffer)@.pending
                        == old(buffer)@.pending + octets(bytes)
                    &&& final(buffer)@.pending.len() < old(buffer)@.size
                    &&& !final(buffer)@.errored
                },
                Err(error) => {
                    &&& chunks matches Some(chunks)
                    &&& chunks@ == seq![Err::<Bytes, E>(error)]
                    &&& final(buffer)@.pending.len() == 0
                    &&& final(buffer)@.errored
                },
            }
        },
{
    if !old(buffer)@.errored {
        if let Ok(bytes) = next {
            let before = old(buffer)@;
            crate::buffer::law_chunks_come_out_at_once::<E>(before, octets(bytes));
            let pieces = crate::buffer::pieces(before.pending + octets(bytes), before.size);
            let out = chunks->Some_0@;
            assert(crate::buffer::same_chunks(out, pieces));
            assert forall|i: int| 0 <= i < out.len() implies (#[trigger] out[i] matches Ok(chunk)
                && octets(chunk).len() == before.size) by {
                assert(crate::buffer::contents(out[i]) == Ok::<Seq<u8>, E>(pieces[i]));
            }
            assert forall|i: int| 0 <= i < out.len() implies bytes_out(out)[i] == pieces[i] by {
                assert(crate::buffer::contents(out[i]) == Ok::<Seq<u8>, E>(pieces[i]));
            }
            assert(bytes_out(out) == pieces);
        }
    }
}

/// At the end what is held back comes out, and nothing where nothing is.
pub proof fn law_flushing(buffer: &mut BytesBuffer, rest: Option<Bytes>)
    requires
        call_ensures(BytesBuffer::flush, (buffer,), rest),
    ensures
        rest is Some <==> old(buffer)@.pending.len() > 0,
        rest matches Some(chunk) ==> octets(chunk) == old(buffer)@.pending,
        final(buffer)@.pending.len() == 0,
        final(buffer)@.size == old(buffer)@.size,
        final(buffer)@.errored == old(buffer)@.errored,
{
    if old(buffer)@.pending.len() > 0 {
        assert(old(buffer)@.last()[0] == old(buffer)@.pending);
        if let Some(chunk) = rest {
            assert(seq![octets(chunk)][0] == octets(chunk));
        } else {
            assert(old(buffer)@.last().len() == 1);
        }
    } else if let Some(chunk) = rest {
        assert(seq![octets(chunk)].len() == 1);
    }
}

/// Accounting is kept where somebody listens: to progress, to errors or to log events.
pub proof fn law_who_is_listened_to<H, P>(
    options: ProgressOptions<H, P>,
    tracing: bool,
    progress: Progress,
    none: Progress,
    enabled: bool,
)
    requires
        call_ensures(Progress::new::<H, P>, (&options, tracing), progress),
        call_ensures(Progress::disabled, (), none),
        call_ensures(Progress::is_enabled, (&progress,), enabled),
    ensures
        progress.wf(),
        none.wf(),
        enabled <==> options.on_progress is Some || options.on_error is Some || tracing,
        progress.account() is Some <==> enabled,
        none.account() is None,
        progress.account() matches Some(account) ==> {
            &&& account.items == 0 && account.bytes == 0 && account.errors == 0
            &&& !account.polled && !account.finalized
        },
{
}

/// An item, bytes and the poll of a stream are counted where somebody listens, and a report is made
/// exactly where it is due.
pub proof fn law_counting(
    items: &mut Progress,
    bytes: &mut Progress,
    polls: &mut Progress,
    len: u64,
    elapsed: Duration,
    item_report: Option<Report>,
    chunk_report: Option<ChunkReport>,
)
    requires
        call_ensures(Progress::record_item, (items, elapsed), item_report),
        call_ensures(Progress::record_bytes, (bytes, len, elapsed), chunk_report),
        call_ensures(Progress::mark_polled, (polls,), ()),
    ensures
        old(items).account() is None ==> final(items).account() is None && item_report is None,
        old(bytes).account() is None ==> final(bytes).account() is None && chunk_report is None,
        old(polls).account() is None ==> final(polls).account() is None,
        old(items).account() matches Some(account) ==> (account.items < u64::MAX ==> {
            &&& final(items).account() matches Some(after)
            &&& after.items == account.items + 1
            &&& after.bytes == account.bytes && after.errors == account.errors
            &&& item_report is Some <==> !account.finalized && account.step is Some && account.items
                + 1 >= account.next_step
            &&& item_report matches Some(report) ==> report.tells_of(
                after,
                StreamOutcome::InProgress,
                elapsed,
            )
        }),
        old(bytes).account() matches Some(account) ==> (account.bytes + len <= u64::MAX ==> {
            &&& final(bytes).account() matches Some(after)
            &&& after.bytes == account.bytes + len
            &&& after.items == account.items && after.errors == account.errors
            &&& chunk_report matches Some(chunk)
            &&& chunk.chunk_bytes == len
            &&& chunk.items == account.items
            &&& chunk.bytes == account.bytes + len
            &&& micros(elapsed) >= account.last_emit ==> (chunk.due is Some <==> !account.finalized
                && (account.interval matches Some(interval) && micros(elapsed) - account.last_emit
                >= interval))
            &&& chunk.due matches Some(report) ==> report.tells_of(
                after,
                StreamOutcome::InProgress,
                elapsed,
            )
        }),
        old(polls).account() matches Some(account) ==> final(polls).account() == Some(
            Account { polled: true, ..account },
        ),
{
}

/// Polling a stream counts its errors and reports each, counts its items where they are to be
/// counted, and sums up its end; while it is pending nothing happens.
pub proof fn law_observing<T>(
    progress: &mut Progress,
    polled: Polled<'_, Result<T, StreamError>>,
    counting: Counting,
    elapsed: Duration,
    report: PollReport<'_, StreamError>,
)
    requires
        call_ensures(
            Progress::observe::<Result<T, StreamError>>,
            (progress, polled, counting, elapsed),
            report,
        ),
    ensures
        match old(progress).account() {
            None => final(progress).account() is None && report is Nothing,
            Some(account) => match polled {
                Polled::Pending => final(progress).account() == Some(account) && report is Nothing,
                Polled::End => {
                    let ends = account.polled && !account.finalized;
                    &&& !ends ==> report is Nothing && final(progress).account() == Some(account)
                    &&& ends ==> {
                        &&& final(progress).account() == Some(
                            Account { finalized: true, ..account },
                        )
                        &&& report matches PollReport::Progress(summary)
                        &&& summary.progress.items == account.items
                        &&& summary.progress.bytes == account.bytes
                        &&& summary.progress.errors == account.errors
                        &&& summary.progress.elapsed == elapsed
                        &&& summary.progress.outcome == (if account.errors > 0 {
                            StreamOutcome::Failed
                        } else {
                            StreamOutcome::Completed
                        })
                    }
                },
                Polled::Item(item) => match *item {
                    Err(error) => {
                        &&& report matches PollReport::Error(info)
                        &&& info.shown() == error
                        &&& info.typed() == Some(&error)
                        &&& account.errors < u64::MAX ==> final(progress).account() == Some(
                            Account { errors: (account.errors + 1) as u64, ..account },
                        )
                    },
                    Ok(_) => if counting == Counting::Items {
                        account.items < u64::MAX ==> {
                            &&& final(progress).account() matches Some(after)
                            &&& after.items == account.items + 1
                            &&& report is Nothing <==> !(!account.finalized && account.step is Some
                                && account.items + 1 >= account.next_step)
                            &&& !(report is Error)
                            &&& after.bytes == account.bytes && after.errors == account.errors
                            &&& after.polled == account.polled
                            &&& after.finalized == account.finalized
                            &&& report matches PollReport::Progress(interim) ==> {
                                &&& interim.progress.items == after.items
                                &&& interim.progress.bytes == after.bytes
                                &&& interim.progress.errors == after.errors
                                &&& interim.progress.elapsed == elapsed
                                &&& interim.progress.outcome == StreamOutcome::InProgress
                            }
                        }
                    } else {
                        final(progress).account() == Some(account) && report is Nothing
                    },
                },
            },
        },
{
}

/// A stream that is gone before its end is summed up as aborted, or as failed where it reported an
/// error; one that has been summed up, or was never polled, is not.
pub proof fn law_dropping(progress: &mut Progress, elapsed: Duration, report: Option<Report>)
    requires
        call_ensures(Progress::dropped, (progress, elapsed), report),
    ensures
        match old(progress).account() {
            None => final(progress).account() is None && report is None,
            Some(account) => if account.polled && !account.finalized {
                &&& final(progress).account() == Some(Account { finalized: true, ..account })
                &&& report matches Some(summary)
                &&& summary.progress.items == account.items
                &&& summary.progress.bytes == account.bytes
                &&& summary.progress.errors == account.errors
                &&& summary.progress.elapsed == elapsed
                &&& summary.progress.outcome == (if account.errors > 0 {
                    StreamOutcome::Failed
                } else {
                    StreamOutcome::Aborted
                })
            } else {
                final(progress).account() == Some(account) && report is None
            },
        },
{
}

} // verus!
