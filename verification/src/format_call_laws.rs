//! What the formats build, and what their encoders write and report, told of their calls.

use crate::arrow_format::{
    append_message, field_names, new_tracker, settings_of, ArrowIpcEncoder,
    ArrowRecordBatchIpcStreamFormat,
};
use crate::arrow_ipc_codec::{ArrowBatch, ArrowIpcCodec};
use crate::csv_format::{CsvEncoder, CsvParser, CsvStreamFormat, CsvWriter, QuoteStyle};
use crate::csv_record_codec::{reader_for, CsvRecordCodec, Terminator};
use crate::encoder_laws::unescaped;
use crate::error::{ErrorSource, StreamError, StreamErrorKind};
use crate::format::{
    DecodeOptions, DefaultFormat, FrameParser, IdentityParser, ItemEncoder, StreamFormatDecode,
    StreamFormatEncode,
};
use crate::json_array_codec::JsonArrayCodec;
use crate::json_formats::{
    escaped, JsonArrayEncoder, JsonArrayStreamFormat, JsonNewLineEncoder, JsonNewLineStreamFormat,
    JsonText,
};
use crate::json_nl_codec::JsonNewLineCodec;
use crate::octets::held;
use crate::protobuf_format::{leb128, ProtobufEncoder, ProtobufStreamFormat};
use crate::protobuf_len_codec::ProtobufLenPrefixCodec;
use crate::text_format::TextEncoder;
use arrow::datatypes::Schema;
use arrow::error::ArrowError;
use arrow::ipc::writer::IpcWriteOptions;
use bytes::BytesMut;
use std::sync::Arc;
use vstd::prelude::*;
use vstd::utf8::encode_utf8;

verus! {

/// A frame that already holds an item is that item, and a CSV record that could not be deserialised is
/// reported with its cause.
pub proof fn law_parsed_frames<T>(
    frame: Result<T, StreamError>,
    item: Result<T, StreamError>,
    record: Result<T, csv::Error>,
    row: Result<T, StreamError>,
)
    requires
        call_ensures(
            <IdentityParser as FrameParser<Result<T, StreamError>, T>>::parse,
            (&IdentityParser, frame),
            item,
        ),
        call_ensures(
            <CsvParser as FrameParser<Result<T, csv::Error>, T>>::parse,
            (&CsvParser, record),
            row,
        ),
    ensures
        item == frame,
        match record {
            Ok(value) => row == Ok::<T, StreamError>(value),
            Err(err) => {
                &&& row matches Err(error)
                &&& error@.kind == StreamErrorKind::CodecError
                &&& error@.source == Some(ErrorSource::Csv(err))
                &&& error@.message is None
            },
        },
{
}

/// Every encoder takes whatever item it is given; a row is handed over by anything that takes a writer.
pub proof fn law_items_are_taken<R: FnOnce(CsvWriter) -> Result<CsvWriter, csv::Error>>(
    text: String,
    json: JsonText,
    message: Vec<u8>,
    batch: ArrowBatch,
    row: R,
)
    ensures
        TextEncoder::takes(text),
        JsonArrayEncoder::takes(json),
        JsonNewLineEncoder::takes(json),
        ProtobufEncoder::takes(message),
        ArrowIpcEncoder::takes(batch),
        (forall|writer: CsvWriter| #[trigger] call_requires(row, (writer,)))
            ==> <CsvEncoder as ItemEncoder<R>>::takes(row),
{
}

/// A text item is appended as its bytes, and that never fails.
pub proof fn law_encoding_text(
    encoder: &mut TextEncoder,
    item: String,
    index: u64,
    buf: &mut BytesMut,
    result: Result<(), StreamError>,
)
    requires
        call_ensures(
            <TextEncoder as ItemEncoder<String>>::encode,
            (encoder, item, index, buf),
            result,
        ),
    ensures
        result is Ok,
        held(*final(buf)) == held(*old(buf)) + encode_utf8(item@),
{
}

/// Ahead of the first item and behind the last one, text, JSON lines, messages and rows have nothing.
pub proof fn law_encoders_without_ends<R: FnOnce(CsvWriter) -> Result<CsvWriter, csv::Error>>(
    text: &mut TextEncoder,
    lines: &mut JsonNewLineEncoder,
    messages: &mut ProtobufEncoder,
    rows: &mut CsvEncoder,
    batches: &mut ArrowIpcEncoder,
    buf: &mut BytesMut,
    result: Result<(), StreamError>,
)
    requires
        call_ensures(<TextEncoder as ItemEncoder<String>>::prologue, (text, buf), result)
            || call_ensures(<TextEncoder as ItemEncoder<String>>::epilogue, (text, buf), result)
            || call_ensures(
            <JsonNewLineEncoder as ItemEncoder<JsonText>>::prologue,
            (lines, buf),
            result,
        ) || call_ensures(
            <JsonNewLineEncoder as ItemEncoder<JsonText>>::epilogue,
            (lines, buf),
            result,
        ) || call_ensures(
            <ProtobufEncoder as ItemEncoder<Vec<u8>>>::prologue,
            (messages, buf),
            result,
        ) || call_ensures(
            <ProtobufEncoder as ItemEncoder<Vec<u8>>>::epilogue,
            (messages, buf),
            result,
        ) || call_ensures(<CsvEncoder as ItemEncoder<R>>::prologue, (rows, buf), result)
            || call_ensures(<CsvEncoder as ItemEncoder<R>>::epilogue, (rows, buf), result)
            || call_ensures(
            <ArrowIpcEncoder as ItemEncoder<ArrowBatch>>::prologue,
            (batches, buf),
            result,
        ),
    ensures
        result is Ok,
        held(*final(buf)) == held(*old(buf)),
{
    assert(held(*old(buf)) + Seq::<u8>::empty() == held(*old(buf)));
}

/// A JSON line is appended as the text of its item and a line feed, whatever JSON the text is.
pub proof fn law_encoding_lines(
    encoder: &mut JsonNewLineEncoder,
    item: JsonText,
    index: u64,
    buf: &mut BytesMut,
    result: Result<(), StreamError>,
)
    requires
        call_ensures(
            <JsonNewLineEncoder as ItemEncoder<JsonText>>::encode,
            (encoder, item, index, buf),
            result,
        ),
    ensures
        match item.outcome {
            Ok(_) => {
                &&& result is Ok
                &&& held(*final(buf)) == held(*old(buf)) + item.bytes@ + seq![0x0au8]
            },
            Err(err) => {
                &&& result matches Err(error)
                &&& error@.kind == StreamErrorKind::CodecError
                &&& error@.source == Some(ErrorSource::Json(err))
                &&& error@.message is None
                &&& held(*final(buf)) == held(*old(buf)) + item.bytes@
            },
        },
{
    assert(held(*old(buf)) + item.bytes@ + Seq::<u8>::empty() == held(*old(buf)) + item.bytes@);
}

/// An element of a JSON array is appended as the text of its item, behind a comma unless it is the
/// first, and the encoder stays as it is.
pub proof fn law_encoding_elements(
    encoder: &mut JsonArrayEncoder,
    item: JsonText,
    index: u64,
    buf: &mut BytesMut,
    result: Result<(), StreamError>,
)
    requires
        call_ensures(
            <JsonArrayEncoder as ItemEncoder<JsonText>>::encode,
            (encoder, item, index, buf),
            result,
        ),
    ensures
        index == 0 ==> held(*final(buf)) == held(*old(buf)) + item.bytes@,
        index != 0 ==> held(*final(buf)) == held(*old(buf)) + seq![0x2cu8] + item.bytes@,
        *final(encoder) == *old(encoder),
        match item.outcome {
            Ok(_) => result is Ok,
            Err(err) => {
                &&& result matches Err(error)
                &&& error@.kind == StreamErrorKind::CodecError
                &&& error@.source == Some(ErrorSource::Json(err))
                &&& error@.message is None
            },
        },
{
    assert(held(*old(buf)) + Seq::<u8>::empty() + item.bytes@ == held(*old(buf)) + item.bytes@);
}

/// A message is appended behind its length.
pub proof fn law_encoding_messages(
    encoder: &mut ProtobufEncoder,
    item: Vec<u8>,
    index: u64,
    buf: &mut BytesMut,
    result: Result<(), StreamError>,
)
    requires
        call_ensures(
            <ProtobufEncoder as ItemEncoder<Vec<u8>>>::encode,
            (encoder, item, index, buf),
            result,
        ),
    ensures
        result is Ok,
        held(*final(buf)) == held(*old(buf)) + leb128(item@.len()) + item@,
{
    assert(held(*old(buf)) + (leb128(item@.len()) + item@) == held(*old(buf)) + leb128(item@.len())
        + item@);
}

/// A bare array is opened by `[` and closed by `]`.
pub proof fn law_bare_arrays(
    made: JsonArrayEncoder,
    encoder: &mut JsonArrayEncoder,
    buf: &mut BytesMut,
    result: Result<(), StreamError>,
)
    requires
        call_ensures(JsonArrayEncoder::bare, (), made),
        *old(encoder) == made,
    ensures
        call_ensures(
            <JsonArrayEncoder as ItemEncoder<JsonText>>::prologue,
            (encoder, buf),
            result,
        ) ==> {
            &&& result is Ok
            &&& held(*final(buf)) == held(*old(buf)) + seq![0x5bu8]
            &&& *final(encoder) == made
        },
        call_ensures(
            <JsonArrayEncoder as ItemEncoder<JsonText>>::epilogue,
            (encoder, buf),
            result,
        ) ==> result is Ok && held(*final(buf)) == held(*old(buf)) + seq![0x5du8],
{
}

/// An array in an envelope is opened by the object without its closing brace, a comma where the object
/// has fields, the name of the array as a JSON string, a colon and `[`, and closed by `]}`.
pub proof fn law_enveloped_arrays(
    object: Vec<u8>,
    name: &str,
    made: JsonArrayEncoder,
    encoder: &mut JsonArrayEncoder,
    buf: &mut BytesMut,
    result: Result<(), StreamError>,
)
    requires
        object@.len() >= 2,
        object@[0] == 0x7b,
        call_ensures(
            JsonArrayEncoder::enveloped,
            (Ok::<Vec<u8>, serde_json::Error>(object), name),
            made,
        ),
        *old(encoder) == made,
    ensures
        call_ensures(
            <JsonArrayEncoder as ItemEncoder<JsonText>>::prologue,
            (encoder, buf),
            result,
        ) ==> {
            let text = escaped(encode_utf8(name@));
            &&& result is Ok
            &&& unescaped(text) == Some(encode_utf8(name@))
            &&& object@.len() == 2 ==> held(*final(buf)) == held(*old(buf)) + seq![0x7bu8] + seq![
                0x22u8,
            ] + text + seq![0x22u8, 0x3au8, 0x5bu8]
            &&& object@.len() > 2 ==> held(*final(buf)) == held(*old(buf)) + object@.drop_last()
                + seq![0x2cu8, 0x22u8] + text + seq![0x22u8, 0x3au8, 0x5bu8]
        },
        call_ensures(
            <JsonArrayEncoder as ItemEncoder<JsonText>>::epilogue,
            (encoder, buf),
            result,
        ) ==> result is Ok && held(*final(buf)) == held(*old(buf)) + seq![0x5du8, 0x7du8],
{
    crate::encoder_laws::law_escapes_are_undone(encode_utf8(name@));
    let text = escaped(encode_utf8(name@));
    let start = held(*old(buf));
    let opened = crate::json_formats::opened_envelope(object@, name@);
    if object@.len() == 2 {
        assert(start + opened == start + seq![0x7bu8] + seq![0x22u8] + text + seq![
            0x22u8,
            0x3au8,
            0x5bu8,
        ]);
    } else {
        assert(start + opened == start + object@.drop_last() + seq![0x2cu8, 0x22u8] + text + seq![
            0x22u8,
            0x3au8,
            0x5bu8,
        ]);
    }
}

/// What is no object cannot be an envelope: the prologue reports it, or the failure to serialise it,
/// and writes nothing.
pub proof fn law_bad_envelopes(
    object: Result<Vec<u8>, serde_json::Error>,
    name: &str,
    made: JsonArrayEncoder,
    encoder: &mut JsonArrayEncoder,
    buf: &mut BytesMut,
    result: Result<(), StreamError>,
)
    requires
        object matches Ok(bytes) ==> bytes@.len() < 2 || bytes@[0] != 0x7b,
        call_ensures(JsonArrayEncoder::enveloped, (object, name), made),
        *old(encoder) == made,
        call_ensures(
            <JsonArrayEncoder as ItemEncoder<JsonText>>::prologue,
            (encoder, buf),
            result,
        ),
    ensures
        held(*final(buf)) == held(*old(buf)),
        result matches Err(error) && error@.kind == StreamErrorKind::CodecError && match object {
            Ok(bytes) => {
                &&& error@.source is None
                &&& bytes@.len() == 0 ==> error@.message == Some("Too short envelope: []"@)
                &&& bytes@.len() == 1 && bytes@[0] == 0x30 ==> error@.message == Some(
                    "Too short envelope: [48]"@,
                )
                &&& bytes@.len() >= 2 ==> error@.message == Some("Bad envelope"@)
            },
            Err(err) => error@.source == Some(ErrorSource::Json(err)) && error@.message is None,
        },
{
    reveal_strlit("Too short envelope: [");
    reveal_strlit("]");
    reveal_strlit("Too short envelope: []");
    reveal_strlit("Too short envelope: [48]");
    reveal_strlit("0123456789");
    reveal_with_fuel(crate::json_formats::decimal, 2);
    if let Ok(bytes) = object {
        if bytes@.len() == 0 {
            assert(crate::json_formats::too_short(bytes@) == "Too short envelope: []"@);
        } else if bytes@.len() == 1 && bytes@[0] == 0x30 {
            assert(crate::json_formats::too_short(bytes@) == "Too short envelope: [48]"@);
        }
    }
}

/// A format of a JSON array has the envelope that it is given, and none otherwise; its encoder wraps
/// the array in what the envelope was serialised as.
pub proof fn law_array_formats<E, S: FnOnce(&E) -> Result<Vec<u8>, serde_json::Error>>(
    object: E,
    name: &str,
    bare: JsonArrayStreamFormat<()>,
    wrapped: JsonArrayStreamFormat<E>,
    serialize: S,
    encoder: JsonArrayEncoder,
)
    requires
        call_ensures(JsonArrayStreamFormat::new, (), bare) || call_ensures(
            <JsonArrayStreamFormat<()> as DefaultFormat>::default_format,
            (),
            bare,
        ) || call_ensures(<JsonArrayStreamFormat<()> as Default>::default, (), bare),
        call_ensures(JsonArrayStreamFormat::with_envelope::<E>, (object, name), wrapped),
        call_ensures(
            JsonArrayStreamFormat::<E>::encoder_with::<S>,
            (&wrapped, serialize),
            encoder,
        ),
    ensures
        bare.envelope() is None,
        wrapped.envelope() matches Some(envelope) && envelope.object == object
            && envelope.array_field@ == name@,
        exists|made: Result<Vec<u8>, serde_json::Error>| #[trigger]
            call_ensures(serialize, (&object,), made) && encoder.wraps(made, name@),
{
}

/// A format without an envelope makes encoders of bare arrays.
pub proof fn law_bare_formats<E, S: FnOnce(&E) -> Result<Vec<u8>, serde_json::Error>>(
    format: JsonArrayStreamFormat<E>,
    serialize: S,
    encoder: JsonArrayEncoder,
)
    requires
        format.envelope() is None,
        call_ensures(
            JsonArrayStreamFormat::<E>::encoder_with::<S>,
            (&format, serialize),
            encoder,
        ),
    ensures
        encoder.start() == Ok::<Seq<u8>, Option<StreamError>>(seq![0x5bu8]),
        encoder.end() == seq![0x5du8],
{
}

/// Formats build encoders that have written nothing, set up as the format is.
pub proof fn law_built_encoders<R: FnOnce(CsvWriter) -> Result<CsvWriter, csv::Error>>(
    array: JsonArrayStreamFormat<()>,
    elements: JsonArrayEncoder,
    csv: CsvStreamFormat,
    rows: CsvEncoder,
    arrow: ArrowRecordBatchIpcStreamFormat,
    batches: ArrowIpcEncoder,
)
    requires
        call_ensures(
            <JsonArrayStreamFormat<()> as StreamFormatEncode<JsonText>>::encoder,
            (&array,),
            elements,
        ),
        call_ensures(<CsvStreamFormat as StreamFormatEncode<R>>::encoder, (&csv,), rows),
        call_ensures(
            <ArrowRecordBatchIpcStreamFormat as StreamFormatEncode<ArrowBatch>>::encoder,
            (&arrow,),
            batches,
        ),
    ensures
        match array.envelope() {
            None => elements.start() == Ok::<Seq<u8>, Option<StreamError>>(seq![0x5bu8])
                && elements.end() == seq![0x5du8],
            Some(_) => {
                &&& elements.start() matches Err(Some(error))
                &&& error@.kind == StreamErrorKind::CodecError
                &&& error@.source is None
                &&& error@.message == Some("Bad envelope"@)
            },
        },
        rows@ == csv@,
        batches@.schema == arrow.schema(),
        batches@.options == arrow.options(),
        batches@.tracker == new_tracker(false),
{
}

/// Formats build framers that have read nothing, with the limit that they are given and, where there is
/// one, the configuration of the format.
pub proof fn law_built_framers<T, E>(
    options: DecodeOptions,
    array: JsonArrayStreamFormat<E>,
    elements: JsonArrayCodec,
    lines: JsonNewLineCodec,
    messages: ProtobufLenPrefixCodec,
    csv: CsvStreamFormat,
    rows: CsvRecordCodec,
    arrow: ArrowRecordBatchIpcStreamFormat,
    batches: ArrowIpcCodec,
    body: Seq<u8>,
)
    requires
        call_ensures(
            <JsonArrayStreamFormat<E> as StreamFormatDecode<T>>::framer,
            (&array, &options),
            elements,
        ),
        call_ensures(
            <JsonNewLineStreamFormat as StreamFormatDecode<T>>::framer,
            (&JsonNewLineStreamFormat, &options),
            lines,
        ),
        call_ensures(
            <ProtobufStreamFormat as StreamFormatDecode<T>>::framer,
            (&ProtobufStreamFormat, &options),
            messages,
        ),
        call_ensures(
            <CsvStreamFormat as StreamFormatDecode<T>>::framer,
            (&csv, &options),
            rows,
        ),
        call_ensures(
            <ArrowRecordBatchIpcStreamFormat as StreamFormatDecode<ArrowBatch>>::framer,
            (&arrow, &options),
            batches,
        ),
    ensures
        elements.limit() == options.max_obj_len,
        elements.offset() == 0,
        elements.ready(body),
        !elements.scan().opened && !elements.scan().comma_due && !elements.scan().quoted,
        elements.scan().depth == 0 && elements.scan().scalar_at is None,
        lines@.limit == options.max_obj_len,
        lines@.scanned == 0 && !lines@.discarding,
        messages.limit() == options.max_obj_len,
        messages.expected() is None,
        rows.ready(),
        rows@.limit == options.max_obj_len,
        rows@.header_pending == csv@.has_headers,
        rows@.fields.len() == 0 && rows@.ends.len() == 0,
        rows@.mode == reader_for(csv@.framing()),
        csv@.framing().delimiter == csv@.delimiter,
        csv@.framing().quote == csv@.quote,
        csv@.framing().double_quote == csv@.double_quote,
        csv@.framing().terminator == csv@.terminator,
        csv@.double_quote ==> csv@.framing().escape is None,
        !csv@.double_quote ==> csv@.framing().escape == Some(csv@.escape),
        batches.ready(),
        batches@.limit == options.max_obj_len,
        batches@.stage == 0 && !batches@.ended,
        batches@.known.fields.len() == 0,
{
}

/// CSV has a header row, commas and line feeds where nothing else is asked for.
pub proof fn law_default_csv(format: CsvStreamFormat)
    requires
        call_ensures(<CsvStreamFormat as Default>::default, (), format) || call_ensures(
            <CsvStreamFormat as DefaultFormat>::default_format,
            (),
            format,
        ),
    ensures
        format@.has_headers,
        format@.delimiter == 0x2c,
        !format@.flexible,
        format@.quote_style == QuoteStyle::Necessary,
        format@.quote == 0x22,
        format@.double_quote,
        format@.escape == 0x5c,
        format@.terminator == Terminator::Any(0x0a),
{
}

/// Limits are absent where nothing else is asked for.
pub proof fn law_default_options(options: DecodeOptions)
    requires
        call_ensures(<DecodeOptions as Default>::default, (), options),
    ensures
        options.max_obj_len == usize::MAX,
        options.buf_capacity == 8192,
{
}

/// A format of Arrow batches has the schema and the options that it is given; without options, messages
/// are padded to 64 bytes, of version 5, behind a continuation marker and not compressed; and one that
/// only decodes has a schema without fields.
pub proof fn law_arrow_formats(
    schema: Arc<Schema>,
    options: IpcWriteOptions,
    plain: ArrowRecordBatchIpcStreamFormat,
    given: ArrowRecordBatchIpcStreamFormat,
    decoding: ArrowRecordBatchIpcStreamFormat,
)
    requires
        call_ensures(ArrowRecordBatchIpcStreamFormat::new, (schema,), plain),
        call_ensures(
            ArrowRecordBatchIpcStreamFormat::with_options,
            (schema, options),
            given,
        ),
        call_ensures(ArrowRecordBatchIpcStreamFormat::for_decoding, (), decoding) || call_ensures(
            <ArrowRecordBatchIpcStreamFormat as DefaultFormat>::default_format,
            (),
            decoding,
        ),
    ensures
        plain.schema() == *schema,
        settings_of(plain.options()).alignment == 64,
        settings_of(plain.options()).version == 4,
        !settings_of(plain.options()).legacy,
        !settings_of(plain.options()).compressed,
        !settings_of(plain.options()).appends,
        given.schema() == *schema,
        given.options() == options,
        field_names(decoding.schema()).len() == 0,
        settings_of(decoding.options()) == settings_of(plain.options()),
{
}

/// The bytes of a message are appended, and it is reported where they could not all be written.
pub proof fn law_appended_messages(
    buf: &mut BytesMut,
    bytes: &[u8],
    outcome: Result<(), ArrowError>,
    result: Result<(), StreamError>,
)
    requires
        call_ensures(append_message, (buf, bytes, outcome), result),
    ensures
        held(*final(buf)) == held(*old(buf)) + bytes@,
        match outcome {
            Ok(_) => result is Ok,
            Err(err) => {
                &&& result matches Err(error)
                &&& error@.kind == StreamErrorKind::CodecError
                &&& error@.source == Some(ErrorSource::Arrow(err))
                &&& error@.message is None
            },
        },
{
}

} // verus!
