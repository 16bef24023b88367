//! What the functions of this crate return, and what they leave behind, told of their calls: of the
//! options, the errors, the media types, the formats and the accounting.

use crate::arrow_format::ArrowRecordBatchIpcStreamFormat;
use crate::content_type::{matches_one, same_but_case, ContentType};
use crate::csv_format::{CsvStreamFormat, QuoteStyle};
use crate::csv_record_codec::Terminator;
use crate::error::{ErrorSource, StreamError, StreamErrorKind};
use crate::format::{DecodeOptions, StreamFormat};
use crate::format_laws::is_among;
use crate::json_formats::{JsonArrayStreamFormat, JsonNewLineStreamFormat};
use crate::progress::{
    default_progress_interval, nanos, new_span, Direction, ErrorInfo, ProgressOptions, Side,
    SpanFields, StreamContext, StreamOutcome,
};
use crate::protobuf_format::ProtobufStreamFormat;
use crate::text_format::TextStreamFormat;
use std::time::Duration;
use vstd::prelude::*;

verus! {

/// Without any setting there is no limit, and a read buffer of 8 KiB; each setting changes what it is
/// for and nothing else.
pub proof fn law_decode_options(given: DecodeOptions, value: usize, options: DecodeOptions)
    ensures
        call_ensures(DecodeOptions::new, (), options) ==> options.max_obj_len == usize::MAX
            && options.buf_capacity == 8192,
        call_ensures(DecodeOptions::max_obj_len, (given, value), options) ==> options.max_obj_len
            == value && options.buf_capacity == given.buf_capacity,
        call_ensures(DecodeOptions::buf_capacity, (given, value), options) ==> options.max_obj_len
            == given.max_obj_len && options.buf_capacity == value,
{
}

/// Kinds of errors are reported by their names.
pub proof fn law_error_kinds(kind: StreamErrorKind, name: &'static str)
    requires
        call_ensures(StreamErrorKind::as_str, (&kind,), name),
    ensures
        kind == StreamErrorKind::CodecError ==> name@ == "codec"@,
        kind == StreamErrorKind::InputOutputError ==> name@ == "io"@,
        kind == StreamErrorKind::MaxLenReachedError ==> name@ == "max_len"@,
        kind == StreamErrorKind::MaxBodyLenReachedError ==> name@ == "max_body_len"@,
{
}

/// An error carries what it was made of, and gives it back.
pub proof fn law_errors_keep_their_parts(
    kind: StreamErrorKind,
    source: Option<ErrorSource>,
    message: Option<String>,
    error: StreamError,
    found_kind: StreamErrorKind,
    found_source: Option<&ErrorSource>,
    found_message: Option<&str>,
    parts: (StreamErrorKind, Option<ErrorSource>, Option<String>),
)
    requires
        call_ensures(StreamError::new, (kind, source, message), error),
    ensures
        call_ensures(StreamError::kind, (&error,), found_kind) ==> found_kind == kind,
        call_ensures(StreamError::source, (&error,), found_source) ==> match source {
            Some(source) => found_source matches Some(found) && *found == source,
            None => found_source is None,
        },
        call_ensures(StreamError::message, (&error,), found_message) ==> match message {
            Some(message) => found_message matches Some(found) && found@ == message@,
            None => found_message is None,
        },
        call_ensures(StreamError::into_parts, (error,), parts) ==> {
            &&& parts.0 == kind
            &&& parts.1 == source
            &&& match message {
                Some(message) => parts.2 matches Some(found) && found@ == message@,
                None => parts.2 is None,
            }
        },
{
}

/// A codec error and an I/O error carry their cause and no message.
pub proof fn law_errors_with_a_cause(source: ErrorSource, error: StreamError)
    ensures
        call_ensures(StreamError::codec, (source,), error) ==> error@.kind
            == StreamErrorKind::CodecError && error@.source == Some(source)
            && error@.message is None,
        call_ensures(StreamError::io, (source,), error) ==> error@.kind
            == StreamErrorKind::InputOutputError && error@.source == Some(source)
            && error@.message is None,
{
}

/// An error is rendered as the sentence of its kind, its message and its source.
pub proof fn law_rendered_errors(error: StreamError, source: Option<&str>, text: String)
    requires
        call_ensures(StreamError::render, (&error, source), text),
    ensures
        ({
            let kind = match error@.kind {
                StreamErrorKind::CodecError => "Frame/codec error"@,
                StreamErrorKind::InputOutputError => "I/O error"@,
                StreamErrorKind::MaxLenReachedError => "Max object length reached"@,
                StreamErrorKind::MaxBodyLenReachedError => "Max body length reached"@,
            };
            match (error@.message, source) {
                (None, None) => text@ == kind,
                (Some(message), None) => text@ == kind + ": "@ + message,
                (None, Some(source)) => text@ == kind + ": "@ + source@,
                (Some(message), Some(source)) => text@ == kind + ": "@ + message + ": "@ + source@,
            }
        }),
{
}

/// A media type is what stands ahead of the first `;` of a header value, without the blanks around
/// it, as it is.
pub proof fn law_parsed_media_types(
    raw: &str,
    before: Seq<char>,
    essence: Seq<char>,
    behind: Seq<char>,
    parameters: Seq<char>,
    parsed: ContentType<'_>,
    found: &str,
)
    requires
        call_ensures(ContentType::parse, (raw,), parsed),
        call_ensures(ContentType::essence, (&parsed,), found),
        forall|i: int| 0 <= i < before.len() ==> (#[trigger] before[i] == ' ' || before[i] == '\t'),
        forall|i: int| 0 <= i < behind.len() ==> (#[trigger] behind[i] == ' ' || behind[i] == '\t'),
        !essence.contains(';'),
        essence.len() > 0,
        '!' <= essence.first() <= '~',
        '!' <= essence.last() <= '~',
        raw@ == before + essence + behind || raw@ == before + essence + behind + seq![';']
            + parameters,
    ensures
        parsed@ == essence,
        found@ == essence,
{
    crate::content_type::law_the_essence_is_ahead_of_the_parameters(
        before,
        essence,
        behind,
        parameters,
    );
}

/// A media type matches a name where it is that name, whatever the case of the letters; it matches
/// any of some where it matches one of them.
pub proof fn law_matched_media_types(
    parsed: ContentType<'_>,
    other: &str,
    same: bool,
    candidates: &[&str],
    any: bool,
)
    ensures
        call_ensures(ContentType::matches, (&parsed, other), same) ==> same == same_but_case(
            parsed@,
            other@,
        ),
        call_ensures(ContentType::matches_any, (&parsed, candidates), any) ==> {
            let names = candidates@;
            &&& any ==> exists|i: int|
                0 <= i < names.len() && same_but_case(parsed@, (#[trigger] names[i])@)
            &&& !any ==> forall|i: int|
                0 <= i < names.len() ==> !same_but_case(parsed@, (#[trigger] names[i])@)
        },
{
    if call_ensures(ContentType::matches_any, (&parsed, candidates), any) {
        assert(any == matches_one(parsed@, candidates@));
    }
}

/// The subtype is what stands behind the first `/`, and the suffix what stands behind the last `+` of
/// it.
pub proof fn law_subtypes_and_suffixes(
    parsed: ContentType<'_>,
    kind: Seq<char>,
    tree: Seq<char>,
    last: Seq<char>,
    subtype: &str,
    suffix: &str,
    carries: bool,
)
    requires
        !kind.contains('/'),
        !last.contains('+'),
    ensures
        call_ensures(ContentType::subtype, (&parsed,), subtype) && parsed@ == kind + seq!['/'] + tree
            ==> subtype@ == tree,
        call_ensures(ContentType::subtype, (&parsed,), subtype) && parsed@ == kind ==> subtype@
            == Seq::<char>::empty(),
        call_ensures(ContentType::has_suffix, (&parsed, suffix), carries) && parsed@ == kind + seq!['/']
            + (tree + seq!['+'] + last) ==> carries == same_but_case(last, suffix@),
        call_ensures(ContentType::has_suffix, (&parsed, suffix), carries) && (parsed@ == kind
            + seq!['/'] + last || parsed@ == kind) ==> !carries,
{
    crate::content_type::law_what_a_suffix_is(kind, tree, last, suffix@);
}

/// The name of each format.
pub proof fn law_format_names<E>(
    array: JsonArrayStreamFormat<E>,
    lines: JsonNewLineStreamFormat,
    csv: CsvStreamFormat,
    protobuf: ProtobufStreamFormat,
    arrow: ArrowRecordBatchIpcStreamFormat,
    text: TextStreamFormat,
    name: &'static str,
)
    ensures
        call_ensures(JsonArrayStreamFormat::<E>::format_name, (&array,), name) ==> name@
            == "json_array"@,
        call_ensures(JsonNewLineStreamFormat::format_name, (&lines,), name) ==> name@ == "json_nl"@,
        call_ensures(CsvStreamFormat::format_name, (&csv,), name) ==> name@ == "csv"@,
        call_ensures(ProtobufStreamFormat::format_name, (&protobuf,), name) ==> name@
            == "protobuf"@,
        call_ensures(ArrowRecordBatchIpcStreamFormat::format_name, (&arrow,), name) ==> name@
            == "arrow"@,
        call_ensures(TextStreamFormat::format_name, (&text,), name) ==> name@ == "text"@,
{
}

/// The media type that each format emits.
pub proof fn law_emitted_media_types<E>(
    array: JsonArrayStreamFormat<E>,
    lines: JsonNewLineStreamFormat,
    csv: CsvStreamFormat,
    protobuf: ProtobufStreamFormat,
    arrow: ArrowRecordBatchIpcStreamFormat,
    text: TextStreamFormat,
    emitted: &'static str,
)
    ensures
        call_ensures(JsonArrayStreamFormat::<E>::default_content_type, (&array,), emitted)
            ==> emitted@ == "application/json"@,
        call_ensures(JsonNewLineStreamFormat::default_content_type, (&lines,), emitted) ==> emitted@
            == "application/jsonstream"@,
        call_ensures(CsvStreamFormat::default_content_type, (&csv,), emitted) ==> emitted@
            == "text/csv"@,
        call_ensures(ProtobufStreamFormat::default_content_type, (&protobuf,), emitted) ==> emitted@
            == "application/x-protobuf-stream"@,
        call_ensures(ArrowRecordBatchIpcStreamFormat::default_content_type, (&arrow,), emitted)
            ==> emitted@ == "application/vnd.apache.arrow.stream"@,
        call_ensures(TextStreamFormat::default_content_type, (&text,), emitted) ==> emitted@
            == "text/plain; charset=utf-8"@,
{
}

/// The media types that each format accepts.
pub proof fn law_formats_accept<E>(
    array: JsonArrayStreamFormat<E>,
    lines: JsonNewLineStreamFormat,
    csv: CsvStreamFormat,
    protobuf: ProtobufStreamFormat,
    arrow: ArrowRecordBatchIpcStreamFormat,
    text: TextStreamFormat,
    ct: ContentType<'_>,
    accepted: bool,
)
    ensures
        call_ensures(JsonArrayStreamFormat::<E>::accepts_content_type, (&array, &ct), accepted)
            ==> accepted == (is_among(ct@, seq!["application/json"@])
            || crate::content_type::carries_suffix(ct@, "json"@)),
        call_ensures(JsonNewLineStreamFormat::accepts_content_type, (&lines, &ct), accepted)
            ==> accepted == is_among(
            ct@,
            seq![
                "application/jsonstream"@,
                "application/x-ndjson"@,
                "application/ndjson"@,
                "application/jsonl"@,
                "application/x-jsonl"@,
            ],
        ),
        call_ensures(CsvStreamFormat::accepts_content_type, (&csv, &ct), accepted) ==> accepted
            == is_among(ct@, seq!["text/csv"@, "application/csv"@]),
        call_ensures(ProtobufStreamFormat::accepts_content_type, (&protobuf, &ct), accepted)
            ==> accepted == is_among(
            ct@,
            seq![
                "application/x-protobuf-stream"@,
                "application/x-protobuf"@,
                "application/protobuf"@,
            ],
        ),
        call_ensures(ArrowRecordBatchIpcStreamFormat::accepts_content_type, (&arrow, &ct), accepted)
            ==> accepted == is_among(ct@, seq!["application/vnd.apache.arrow.stream"@]),
        call_ensures(TextStreamFormat::accepts_content_type, (&text, &ct), accepted) ==> accepted
            == is_among(ct@, seq!["text/plain"@]),
{
    crate::format_laws::law_accepted_media_types(ct@);
}

/// A CSV format has the settings that it was given, and the default ones besides: each setting
/// changes what it is for and nothing else.
pub proof fn law_csv_settings(
    given: CsvStreamFormat,
    flag: bool,
    byte: u8,
    style: QuoteStyle,
    end: Terminator,
    format: CsvStreamFormat,
)
    ensures
        call_ensures(CsvStreamFormat::new, (flag, byte), format) ==> {
            &&& format@.has_headers == flag
            &&& format@.delimiter == byte
            &&& !format@.flexible
            &&& format@.quote_style == QuoteStyle::Necessary
            &&& format@.quote == 0x22
            &&& format@.double_quote
            &&& format@.escape == 0x5c
            &&& format@.terminator == Terminator::Any(0x0a)
        },
        call_ensures(CsvStreamFormat::with_flexible, (given, flag), format) ==> format@
            == (crate::csv_format::CsvSettings { flexible: flag, ..given@ }),
        call_ensures(CsvStreamFormat::with_quote_style, (given, style), format) ==> format@
            == (crate::csv_format::CsvSettings { quote_style: style, ..given@ }),
        call_ensures(CsvStreamFormat::with_quote, (given, byte), format) ==> format@
            == (crate::csv_format::CsvSettings { quote: byte, ..given@ }),
        call_ensures(CsvStreamFormat::with_double_quote, (given, flag), format) ==> format@
            == (crate::csv_format::CsvSettings { double_quote: flag, ..given@ }),
        call_ensures(CsvStreamFormat::with_escape, (given, byte), format) ==> format@
            == (crate::csv_format::CsvSettings { escape: byte, ..given@ }),
        call_ensures(CsvStreamFormat::with_terminator, (given, end), format) ==> format@
            == (crate::csv_format::CsvSettings { terminator: end, ..given@ }),
        call_ensures(CsvStreamFormat::with_delimiter, (given, byte), format) ==> format@
            == (crate::csv_format::CsvSettings { delimiter: byte, ..given@ }),
        call_ensures(CsvStreamFormat::with_has_headers, (given, flag), format) ==> format@
            == (crate::csv_format::CsvSettings { has_headers: flag, ..given@ }),
{
}

/// Unless something else is asked for, progress is reported once a second, and to nobody.
pub proof fn law_progress_options<H, P>(
    given: ProgressOptions<H, P>,
    handler: H,
    listener: P,
    interval: Duration,
    items: u64,
    options: ProgressOptions<H, P>,
)
    ensures
        call_ensures(default_progress_interval, (), interval) ==> nanos(interval) == 1_000_000_000,
        call_ensures(ProgressOptions::<H, P>::new, (), options) ==> {
            &&& options.on_error is None
            &&& options.on_progress is None
            &&& options.progress_items is None
            &&& options.progress_interval matches Some(interval)
            &&& nanos(interval) == 1_000_000_000
        },
        call_ensures(ProgressOptions::<H, P>::on_error, (given, handler), options) ==> options == (
        ProgressOptions { on_error: Some(handler), ..given }),
        call_ensures(ProgressOptions::<H, P>::on_progress, (given, listener), options) ==> options
            == (ProgressOptions { on_progress: Some(listener), ..given }),
        call_ensures(ProgressOptions::<H, P>::progress_interval, (given, interval), options)
            ==> options == (ProgressOptions { progress_interval: Some(interval), ..given }),
        call_ensures(ProgressOptions::<H, P>::progress_items, (given, items), options) ==> options
            == (ProgressOptions { progress_items: Some(items), ..given }),
{
}

/// Directions, sides and outcomes are reported by their names.
pub proof fn law_names_of_what_is_reported(
    direction: Direction,
    side: Side,
    outcome: StreamOutcome,
    name: &'static str,
)
    ensures
        call_ensures(Direction::as_str, (&direction,), name) ==> name@ == (match direction {
            Direction::Request => "request"@,
            Direction::Response => "response"@,
        }),
        call_ensures(Side::as_str, (&side,), name) ==> name@ == (match side {
            Side::Client => "client"@,
            Side::Server => "server"@,
        }),
        call_ensures(StreamOutcome::as_str, (&outcome,), name) ==> name@ == (match outcome {
            StreamOutcome::InProgress => "in_progress"@,
            StreamOutcome::Completed => "completed"@,
            StreamOutcome::Aborted => "aborted"@,
            StreamOutcome::Failed => "failed"@,
        }),
{
}

/// A context says what it was told, and the span of a stream what its context says; a limit that is
/// none is left out.
pub proof fn law_spans_tell_of_their_context(context: StreamContext, span: SpanFields<'_>)
    requires
        call_ensures(new_span, (&context,), span),
    ensures
        span.format@ == context.format@,
        span.direction@ == (match context.direction {
            Direction::Request => "request"@,
            Direction::Response => "response"@,
        }),
        span.side@ == (match context.side {
            Side::Client => "client"@,
            Side::Server => "server"@,
        }),
        span.status == context.status,
        span.content_length == context.content_length,
        span.content_type is Some <==> context.content_type is Some,
        context.content_type is Some ==> span.content_type->Some_0@
            == context.content_type->Some_0@,
        span.max_obj_len is Some <==> context.max_obj_len is Some && context.max_obj_len->Some_0
            < usize::MAX,
        span.max_obj_len is Some ==> span.max_obj_len->Some_0 == context.max_obj_len->Some_0,
        span.buf_capacity is Some <==> context.buf_capacity is Some,
        span.buf_capacity is Some ==> span.buf_capacity->Some_0 == context.buf_capacity->Some_0,
{
}

/// A context knows the format, the direction and the side at first, and then what it is told.
pub proof fn law_contexts(
    given: StreamContext,
    format: &str,
    direction: Direction,
    side: Side,
    status: u16,
    len: Option<u64>,
    ct: String,
    size: usize,
    context: StreamContext,
)
    ensures
        call_ensures(StreamContext::new, (format, direction, side), context) ==> {
            &&& context.format@ == format@
            &&& context.direction == direction
            &&& context.side == side
            &&& context.status is None
            &&& context.content_length is None
            &&& context.content_type is None
            &&& context.max_obj_len is None
            &&& context.buf_capacity is None
        },
        call_ensures(StreamContext::status, (given, status), context) ==> context == (
        StreamContext { status: Some(status), ..given }),
        call_ensures(StreamContext::content_length, (given, len), context) ==> context == (
        StreamContext { content_length: len, ..given }),
        call_ensures(StreamContext::content_type, (given, ct), context) ==> context == (
        StreamContext { content_type: Some(ct), ..given }),
        call_ensures(StreamContext::max_obj_len, (given, size), context) ==> context == (
        StreamContext { max_obj_len: Some(size), ..given }),
        call_ensures(StreamContext::buf_capacity, (given, size), context) ==> context == (
        StreamContext { buf_capacity: Some(size), ..given }),
{
}

/// What is told of an error is what it was made of; its kind is that of the typed error, and unknown
/// where there is none.
pub proof fn law_error_infos<D>(
    display: &D,
    error: Option<&StreamError>,
    info: ErrorInfo<'_, D>,
    shown: &D,
    typed: Option<&StreamError>,
    name: &'static str,
)
    requires
        call_ensures(ErrorInfo::<D>::new, (display, error), info),
    ensures
        call_ensures(ErrorInfo::<D>::display, (&info,), shown) ==> *shown == *display,
        call_ensures(ErrorInfo::<D>::stream_error, (&info,), typed) ==> typed == error,
        call_ensures(ErrorInfo::<D>::kind_str, (&info,), name) ==> match error {
            None => name@ == "unknown"@,
            Some(error) => name@ == (match error@.kind {
                StreamErrorKind::CodecError => "codec"@,
                StreamErrorKind::InputOutputError => "io"@,
                StreamErrorKind::MaxLenReachedError => "max_len"@,
                StreamErrorKind::MaxBodyLenReachedError => "max_body_len"@,
            }),
        },
{
}

} // verus!
