//! JSON array and JSON Lines, both directions.

use crate::content_type::{carries_suffix, same_but_case, ContentType};
use crate::envelope::StreamFormatEnvelope;
use crate::error::{caused, reason, ErrorSource, ErrorView, StreamError, StreamErrorKind};
use crate::format::{
    Call, DecodeOptions, DefaultFormat, IdentityParser, ItemEncoder, StreamFormat,
    StreamFormatDecode, StreamFormatEncode,
};
use crate::json_array_codec::{
    start_of_body, JsonArrayCodec, BACKSLASH, CLOSE_BRACE, CLOSE_BRACKET, COMMA, OPEN_BRACE,
    OPEN_BRACKET, QUOTE,
};
use crate::json_nl_codec::{JsonNewLineCodec, LineState, NEWLINE};
use crate::octets::{extend, held};
use bytes::BytesMut;
use vstd::prelude::*;
use vstd::utf8::encode_utf8;

verus! {

/// `:`
pub const COLON: u8 = 0x3a;

/// An item as the JSON serialiser left it: what it wrote, and whether it got to the end.
#[derive(Debug)]
pub struct JsonText {
    /// The bytes that were written; all of them, or those before the failure.
    pub bytes: Vec<u8>,
    /// Whether serialising succeeded.
    pub outcome: Result<(), serde_json::Error>,
}

/// A JSON array: `[item, item, …]`, optionally wrapped in an envelope object.
#[derive(Debug, Clone)]
pub struct JsonArrayStreamFormat<E = ()> {
    envelope: Option<StreamFormatEnvelope<E>>,
}

impl JsonArrayStreamFormat {
    /// A bare array.
    pub fn new() -> (format: JsonArrayStreamFormat<()>)
        ensures
            format.envelope() is None,
    {
        JsonArrayStreamFormat { envelope: None }
    }

    /// An array emitted as `array_field` of `envelope`.
    ///
    /// Encode only: the decoder expects a bare array and will not unwrap an envelope.
    pub fn with_envelope<E>(envelope: E, array_field: &str) -> (format: JsonArrayStreamFormat<E>)
        ensures
            format.envelope() matches Some(wrapping) && wrapping.object == envelope
                && wrapping.array_field@ == array_field@,
    {
        JsonArrayStreamFormat {
            envelope: Some(
                StreamFormatEnvelope { object: envelope, array_field: array_field.to_owned() },
            ),
        }
    }
}

impl<E> JsonArrayStreamFormat<E> {
    /// The envelope, if there is one.
    pub closed spec fn envelope(self) -> Option<StreamFormatEnvelope<E>> {
        self.envelope
    }

    /// Build an encoder for one body. `serialize` makes JSON of the envelope object.
    pub fn encoder_with<S: FnOnce(&E) -> Result<Vec<u8>, serde_json::Error>>(
        &self,
        serialize: S,
    ) -> (encoder: JsonArrayEncoder)
        requires
            forall|object: &E| #[trigger] call_requires(serialize, (object,)),
        ensures
            match self.envelope() {
                None => encoder.is_bare(),
                Some(envelope) => exists|object: Result<Vec<u8>, serde_json::Error>| #[trigger]
                    call_ensures(serialize, (&envelope.object,), object)
                        && encoder.wraps(object, envelope.array_field@),
            },
    {
        match &self.envelope {
            Some(envelope) => {
                let object = serialize(&envelope.object);
                let ghost made = object;
                assert(call_ensures(serialize, (&envelope.object,), made));
                JsonArrayEncoder::enveloped(object, envelope.array_field.as_str())
            },
            None => JsonArrayEncoder::bare(),
        }
    }
}

impl Default for JsonArrayStreamFormat<()> {
    fn default() -> (format: Self)
        ensures
            format.envelope() is None,
    {
        JsonArrayStreamFormat { envelope: None }
    }
}

impl DefaultFormat for JsonArrayStreamFormat<()> {
    fn default_format() -> (format: Self)
        ensures
            format.envelope() is None,
    {
        Self::default()
    }
}

/// The media types that name JSON.
pub open spec fn names_json(essence: Seq<char>) -> bool {
    same_but_case(essence, "application/json"@) || carries_suffix(essence, "json"@)
}

impl<E> StreamFormat for JsonArrayStreamFormat<E> {
    open spec fn goes_by(&self, name: Seq<char>) -> bool {
        name == "json_array"@
    }

    open spec fn emits(&self, media_type: Seq<char>) -> bool {
        media_type == "application/json"@
    }

    fn format_name(&self) -> (name: &'static str) {
        "json_array"
    }

    fn default_content_type(&self) -> (media_type: &'static str) {
        "application/json"
    }

    /// `application/json`, plus anything using the `+json` structured suffix.
    fn accepts_content_type(&self, ct: &ContentType<'_>) -> (accepted: bool)
        ensures
            accepted == names_json(ct@),
    {
        ct.matches("application/json") || ct.has_suffix("json")
    }
}

/// Per-stream state for [`JsonArrayStreamFormat`].
///
/// The prologue is computed up front because serialising the envelope can fail and the failure
/// must be reported through the stream rather than panicking.
#[derive(Debug)]
pub struct JsonArrayEncoder {
    prologue: Result<Vec<u8>, Option<StreamError>>,
    epilogue: Vec<u8>,
}

/// A digit of a number to the base of sixteen.
pub open spec fn hex_digit(n: u8) -> u8 {
    if n < 10 {
        (0x30 + n) as u8
    } else {
        (0x57 + n) as u8
    }
}

/// A byte as it stands inside a JSON string: quotes, backslashes and control characters are
/// escaped.
pub open spec fn escape(b: u8) -> Seq<u8> {
    if b == QUOTE || b == BACKSLASH {
        seq![BACKSLASH, b]
    } else if b == 0x08 {
        seq![BACKSLASH, 0x62u8]
    } else if b == 0x09 {
        seq![BACKSLASH, 0x74u8]
    } else if b == 0x0a {
        seq![BACKSLASH, 0x6eu8]
    } else if b == 0x0c {
        seq![BACKSLASH, 0x66u8]
    } else if b == 0x0d {
        seq![BACKSLASH, 0x72u8]
    } else if b < 0x20 {
        seq![BACKSLASH, 0x75u8, 0x30u8, 0x30u8, hex_digit(b / 16), hex_digit((b % 16) as u8)]
    } else {
        seq![b]
    }
}

/// Bytes as they stand inside a JSON string.
pub open spec fn escaped(bytes: Seq<u8>) -> Seq<u8>
    decreases bytes.len(),
{
    if bytes.len() == 0 {
        seq![]
    } else {
        escaped(bytes.drop_last()) + escape(bytes.last())
    }
}

/// The JSON string of a text.
pub open spec fn string_text(text: Seq<char>) -> Seq<u8> {
    seq![QUOTE] + escaped(encode_utf8(text)) + seq![QUOTE]
}

/// Appends a byte as it stands inside a JSON string.
fn append_escaped(buf: &mut Vec<u8>, b: u8)
    ensures
        final(buf)@ == old(buf)@ + escape(b),
{
    let short: Option<u8> = match b {
        QUOTE => Some(QUOTE),
        BACKSLASH => Some(BACKSLASH),
        0x08 => Some(0x62),
        0x09 => Some(0x74),
        0x0a => Some(0x6e),
        0x0c => Some(0x66),
        0x0d => Some(0x72),
        _ => None,
    };
    match short {
        Some(letter) => {
            buf.push(BACKSLASH);
            buf.push(letter);
        },
        None => if b < 0x20 {
            let low: u8 = b % 16;
            buf.push(BACKSLASH);
            buf.push(0x75);
            buf.push(0x30);
            buf.push(0x30);
            buf.push(0x30 + b / 16);
            buf.push(
                if low < 10 {
                    0x30 + low
                } else {
                    0x57 + low
                },
            );
        } else {
            buf.push(b);
        },
    }
    assert(buf@ == old(buf)@ + escape(b));
}

/// Appends the JSON string of a text.
fn append_string(buf: &mut Vec<u8>, text: &str)
    ensures
        final(buf)@ == old(buf)@ + string_text(text@),
{
    let bytes = text.as_bytes();
    let ghost start = buf@ + seq![QUOTE];
    buf.push(QUOTE);
    assert(start + escaped(bytes@.take(0)) == start);
    let mut i: usize = 0;
    while i < bytes.len()
        invariant
            i <= bytes@.len(),
            buf@ == start + escaped(bytes@.take(i as int)),
        decreases bytes@.len() - i,
    {
        append_escaped(buf, bytes[i]);
        assert(bytes@.take(i + 1).drop_last() == bytes@.take(i as int));
        i = i + 1;
    }
    assert(bytes@.take(i as int) == bytes@);
    buf.push(QUOTE);
    assert(buf@ == old(buf)@ + string_text(text@));
}

/// An envelope object, open at its end, with the beginning of the array as its last field.
///
/// `{}` needs no separator; anything longer already has at least one field, so the array must be
/// separated from it.
pub open spec fn opened_envelope(object: Seq<u8>, array_field: Seq<char>) -> Seq<u8> {
    object.drop_last() + (if object.len() > 2 {
        seq![COMMA]
    } else {
        seq![]
    }) + string_text(array_field) + seq![COLON, OPEN_BRACKET]
}

/// What an envelope that is no object is reported as.
pub open spec fn bad_envelope() -> ErrorView {
    reason(StreamErrorKind::CodecError, "Bad envelope"@)
}

/// A number in decimal.
pub open spec fn decimal(n: nat) -> Seq<char>
    decreases n,
{
    let digits = "0123456789"@;
    if n < 10 {
        seq![digits[n as int]]
    } else {
        decimal(n / 10) + seq![digits[n as int % 10]]
    }
}

/// The message about an object that is no object: the bytes it consists of, at most one.
pub open spec fn too_short(object: Seq<u8>) -> Seq<char> {
    "Too short envelope: ["@ + (if object.len() == 0 {
        seq![]
    } else {
        decimal(object[0] as nat)
    }) + "]"@
}

/// The last digit of `n`.
fn digit(n: u8) -> (text: &'static str)
    requires
        n < 10,
    ensures
        text@ == decimal(n as nat),
{
    proof {
        reveal_strlit("0123456789");
        reveal_strlit("0");
        reveal_strlit("1");
        reveal_strlit("2");
        reveal_strlit("3");
        reveal_strlit("4");
        reveal_strlit("5");
        reveal_strlit("6");
        reveal_strlit("7");
        reveal_strlit("8");
        reveal_strlit("9");
    }
    let text = match n {
        0 => "0",
        1 => "1",
        2 => "2",
        3 => "3",
        4 => "4",
        5 => "5",
        6 => "6",
        7 => "7",
        8 => "8",
        _ => "9",
    };
    assert(text@ == seq!["0123456789"@[n as int]]);
    text
}

/// Appends `n` in decimal.
fn append_decimal(text: &mut String, n: u8)
    ensures
        final(text)@ == old(text)@ + decimal(n as nat),
    decreases n,
{
    if n < 10 {
        text.append(digit(n));
    } else {
        append_decimal(text, n / 10);
        let last = digit(n % 10);
        assert(decimal((n % 10) as nat) == seq!["0123456789"@[n as int % 10]]);
        text.append(last);
    }
}

impl JsonArrayEncoder {
    /// What stands before the first item, or the failure to make it. The failure is handed over
    /// once.
    pub closed spec fn start(self) -> Result<Seq<u8>, Option<StreamError>> {
        match self.prologue {
            Ok(bytes) => Ok(bytes@),
            Err(error) => Err(error),
        }
    }

    /// What stands behind the last item.
    pub closed spec fn end(self) -> Seq<u8> {
        self.epilogue@
    }

    /// Whether this encodes a bare array.
    pub open spec fn is_bare(self) -> bool {
        &&& self.start() == Ok::<_, Option<StreamError>>(seq![OPEN_BRACKET])
        &&& self.end() == seq![CLOSE_BRACKET]
    }

    /// Whether this wraps the array in an envelope object, as the field `array_field`.
    pub open spec fn wraps(
        self,
        object: Result<Vec<u8>, serde_json::Error>,
        array_field: Seq<char>,
    ) -> bool {
        &&& self.end() == seq![CLOSE_BRACKET, CLOSE_BRACE]
        &&& match object {
            Ok(bytes) => if bytes@.len() <= 1 {
                self.start() matches Err(Some(error)) && error@ == reason(
                    StreamErrorKind::CodecError,
                    too_short(bytes@),
                )
            } else if bytes@[0] != OPEN_BRACE {
                self.start() matches Err(Some(error)) && error@ == bad_envelope()
            } else {
                self.start() == Ok::<_, Option<StreamError>>(opened_envelope(bytes@, array_field))
            },
            Err(err) => self.start() matches Err(Some(error)) && error@ == caused(
                StreamErrorKind::CodecError,
                ErrorSource::Json(err),
            ),
        }
    }

    /// An encoder of a bare array.
    pub fn bare() -> (encoder: Self)
        ensures
            encoder.is_bare(),
    {
        let encoder = JsonArrayEncoder {
            prologue: Ok(vec![OPEN_BRACKET]),
            epilogue: vec![CLOSE_BRACKET],
        };
        assert(encoder.start()->Ok_0 == seq![OPEN_BRACKET]);
        assert(encoder.end() == seq![CLOSE_BRACKET]);
        encoder
    }

    /// An encoder of an array that is a field of an object, which has been made JSON of.
    ///
    /// The trailing `}` of the object is removed so the array can be appended as one more field.
    /// What does not begin with `{`, or is shorter than `{}`, is not an object and there is nothing
    /// sensible to append to.
    pub fn enveloped(object: Result<Vec<u8>, serde_json::Error>, array_field: &str) -> (encoder:
        Self)
        ensures
            encoder.wraps(object, array_field@),
    {
        let ghost given = object;
        let prologue: Result<Vec<u8>, Option<StreamError>> = match object {
            Ok(bytes) => {
                let ghost whole = bytes@;
                let len: usize = bytes.len();
                if len > 1 && bytes[0] != OPEN_BRACE {
                    Err(Some(StreamError::because(StreamErrorKind::CodecError, "Bad envelope")))
                } else if len > 1 {
                    let mut buf = bytes;
                    let _ = buf.pop();
                    if len > 2 {
                        buf.push(COMMA);
                    }
                    append_string(&mut buf, array_field);
                    buf.push(COLON);
                    buf.push(OPEN_BRACKET);
                    assert(buf@ == opened_envelope(whole, array_field@));
                    Ok(buf)
                } else {
                    let mut message: String = "Too short envelope: [".to_owned();
                    if len == 1 {
                        append_decimal(&mut message, bytes[0]);
                    }
                    message.append("]");
                    assert(message@ == too_short(whole));
                    Err(Some(StreamError::new(StreamErrorKind::CodecError, None, Some(message))))
                }
            },
            Err(err) => Err(Some(StreamError::codec(ErrorSource::Json(err)))),
        };
        let epilogue: Vec<u8> = vec![CLOSE_BRACKET, CLOSE_BRACE];
        assert(epilogue@ == seq![CLOSE_BRACKET, CLOSE_BRACE]);
        JsonArrayEncoder { prologue, epilogue }
    }
}

/// The separator that goes before the item of the given index.
pub open spec fn separator(index: u64) -> Seq<u8> {
    if index == 0 {
        seq![]
    } else {
        seq![COMMA]
    }
}

/// What the serialiser's outcome is reported as.
pub open spec fn serialized(
    outcome: Result<(), serde_json::Error>,
    result: Result<(), StreamError>,
) -> bool {
    match outcome {
        Ok(_) => result is Ok,
        Err(err) => result matches Err(error) && error@ == caused(
            StreamErrorKind::CodecError,
            ErrorSource::Json(err),
        ),
    }
}

impl ItemEncoder<JsonText> for JsonArrayEncoder {
    open spec fn opens(call: Call<Self>) -> bool {
        match call.encoder.start() {
            Ok(bytes) => call.appended(bytes),
            Err(pending) => {
                &&& call.buffer_after == call.buffer
                &&& call.encoder_after.start() == Err::<Seq<u8>, _>(None::<StreamError>)
                &&& call.encoder_after.end() == call.encoder.end()
                &&& match pending {
                    Some(error) => call.result == Err::<(), StreamError>(error),
                    None => call.result matches Err(error) && error@ == reason(
                        StreamErrorKind::CodecError,
                        "Bad envelope"@,
                    ),
                }
            },
        }
    }

    open spec fn takes(item: JsonText) -> bool {
        true
    }

    open spec fn encodes(call: Call<Self>, item: JsonText, index: u64) -> bool {
        &&& call.encoder_after == call.encoder
        &&& call.buffer_after == call.buffer + separator(index) + item.bytes@
        &&& serialized(item.outcome, call.result)
    }

    open spec fn closes(call: Call<Self>) -> bool {
        call.appended(call.encoder.end())
    }

    fn prologue(&mut self, buf: &mut BytesMut) -> (result: Result<(), StreamError>) {
        match &mut self.prologue {
            Ok(bytes) => {
                extend(buf, bytes.as_slice());
                Ok(())
            },
            Err(err) => match err.take() {
                Some(error) => Err(error),
                None => Err(StreamError::because(StreamErrorKind::CodecError, "Bad envelope")),
            },
        }
    }

    fn encode(&mut self, item: JsonText, index: u64, buf: &mut BytesMut) -> (result: Result<
        (),
        StreamError,
    >) {
        if index != 0 {
            let separator: Vec<u8> = vec![COMMA];
            assert(separator@ == seq![COMMA]);
            extend(buf, separator.as_slice());
        } else {
            assert(held(*buf) + seq![] == held(*buf));
        }
        extend(buf, item.bytes.as_slice());
        match item.outcome {
            Ok(()) => Ok(()),
            Err(err) => Err(StreamError::codec(ErrorSource::Json(err))),
        }
    }

    fn epilogue(&mut self, buf: &mut BytesMut) -> (result: Result<(), StreamError>) {
        extend(buf, self.epilogue.as_slice());
        Ok(())
    }
}

/// `null`
pub open spec fn null_text() -> Seq<u8> {
    seq![0x6eu8, 0x75u8, 0x6cu8, 0x6cu8]
}

/// `serde_json::to_vec` of `()`: the text `null`.
#[verifier::external_body]
fn unit_json() -> (json: Result<Vec<u8>, serde_json::Error>)
    ensures
        json is Ok,
        json->Ok_0@ == null_text(),
{
    serde_json::to_vec(&())
}

impl StreamFormatEncode<JsonText> for JsonArrayStreamFormat<()> {
    type Encoder = JsonArrayEncoder;

    open spec fn builds(&self, encoder: JsonArrayEncoder) -> bool {
        match self.envelope() {
            None => encoder.is_bare(),
            // `null` is no object.
            Some(_) => {
                &&& encoder.start() matches Err(Some(error))
                &&& error@ == bad_envelope()
                &&& encoder.end() == seq![CLOSE_BRACKET, CLOSE_BRACE]
            },
        }
    }

    fn encoder(&self) -> (encoder: JsonArrayEncoder) {
        match &self.envelope {
            Some(envelope) => JsonArrayEncoder::enveloped(
                unit_json(),
                envelope.array_field.as_str(),
            ),
            None => JsonArrayEncoder::bare(),
        }
    }
}

impl<T, E> StreamFormatDecode<T> for JsonArrayStreamFormat<E> {
    type Frame = Result<T, StreamError>;

    type Framer = JsonArrayCodec;

    type Parser = IdentityParser;

    open spec fn frames(&self, options: DecodeOptions, framer: JsonArrayCodec) -> bool {
        &&& framer.limit() == options.max_obj_len
        &&& framer.scan() == start_of_body()
        &&& framer.offset() == 0
    }

    fn framer(&self, options: &DecodeOptions) -> (framer: JsonArrayCodec) {
        JsonArrayCodec::new_with_max_length(options.max_obj_len)
    }

    fn parser(&self) -> (parser: IdentityParser) {
        IdentityParser
    }
}

/// JSON Lines: one JSON value per line, newline-terminated.
#[derive(Debug, Clone, Copy, Default)]
pub struct JsonNewLineStreamFormat;

impl JsonNewLineStreamFormat {
    /// A JSON Lines format.
    pub fn new() -> (format: Self)
        ensures
            format == JsonNewLineStreamFormat,
    {
        JsonNewLineStreamFormat
    }
}

impl DefaultFormat for JsonNewLineStreamFormat {
    fn default_format() -> (format: Self)
        ensures
            format == JsonNewLineStreamFormat,
    {
        JsonNewLineStreamFormat
    }
}

/// What this crate emits, plus the de-facto names the ecosystem uses for the same framing.
///
/// Deliberately **not** `application/json-seq`: RFC 7464 separates records with 0x1E rather
/// than a newline, so accepting it here would mis-decode.
pub open spec fn names_json_lines(essence: Seq<char>) -> bool {
    ||| same_but_case(essence, "application/jsonstream"@)
    ||| same_but_case(essence, "application/x-ndjson"@)
    ||| same_but_case(essence, "application/ndjson"@)
    ||| same_but_case(essence, "application/jsonl"@)
    ||| same_but_case(essence, "application/x-jsonl"@)
}

impl StreamFormat for JsonNewLineStreamFormat {
    open spec fn goes_by(&self, name: Seq<char>) -> bool {
        name == "json_nl"@
    }

    open spec fn emits(&self, media_type: Seq<char>) -> bool {
        media_type == "application/jsonstream"@
    }

    fn format_name(&self) -> (name: &'static str) {
        "json_nl"
    }

    fn default_content_type(&self) -> (media_type: &'static str) {
        "application/jsonstream"
    }

    fn accepts_content_type(&self, ct: &ContentType<'_>) -> (accepted: bool)
        ensures
            accepted == names_json_lines(ct@),
    {
        let aliases: Vec<&str> = vec![
            "application/jsonstream",
            "application/x-ndjson",
            "application/ndjson",
            "application/jsonl",
            "application/x-jsonl",
        ];
        proof {
            assert(aliases@[0]@ == "application/jsonstream"@);
            assert(aliases@[1]@ == "application/x-ndjson"@);
            assert(aliases@[2]@ == "application/ndjson"@);
            assert(aliases@[3]@ == "application/jsonl"@);
            assert(aliases@[4]@ == "application/x-jsonl"@);
        }
        ct.matches_any(aliases.as_slice())
    }
}

/// Per-stream state for [`JsonNewLineStreamFormat`]. There is none: the framing is per-item.
#[derive(Debug, Clone, Copy, Default)]
pub struct JsonNewLineEncoder;

impl ItemEncoder<JsonText> for JsonNewLineEncoder {
    open spec fn opens(call: Call<Self>) -> bool {
        call.appended(seq![])
    }

    open spec fn takes(item: JsonText) -> bool {
        true
    }

    open spec fn encodes(call: Call<Self>, item: JsonText, index: u64) -> bool {
        &&& call.encoder_after == call.encoder
        &&& call.buffer_after == call.buffer + item.bytes@ + (if item.outcome is Ok {
            seq![NEWLINE]
        } else {
            seq![]
        })
        &&& serialized(item.outcome, call.result)
    }

    open spec fn closes(call: Call<Self>) -> bool {
        call.appended(seq![])
    }

    fn prologue(&mut self, buf: &mut BytesMut) -> (result: Result<(), StreamError>) {
        assert(held(*buf) + seq![] == held(*buf));
        Ok(())
    }

    fn encode(&mut self, item: JsonText, index: u64, buf: &mut BytesMut) -> (result: Result<
        (),
        StreamError,
    >) {
        extend(buf, item.bytes.as_slice());
        match item.outcome {
            Err(err) => {
                assert(held(*buf) + seq![] == held(*buf));
                Err(StreamError::codec(ErrorSource::Json(err)))
            },
            Ok(()) => {
                let ending: Vec<u8> = vec![NEWLINE];
                assert(ending@ == seq![NEWLINE]);
                extend(buf, ending.as_slice());
                Ok(())
            },
        }
    }

    fn epilogue(&mut self, buf: &mut BytesMut) -> (result: Result<(), StreamError>) {
        assert(held(*buf) + seq![] == held(*buf));
        Ok(())
    }
}

impl StreamFormatEncode<JsonText> for JsonNewLineStreamFormat {
    type Encoder = JsonNewLineEncoder;

    open spec fn builds(&self, encoder: JsonNewLineEncoder) -> bool {
        encoder == JsonNewLineEncoder
    }

    fn encoder(&self) -> (encoder: JsonNewLineEncoder) {
        JsonNewLineEncoder
    }
}

impl<T> StreamFormatDecode<T> for JsonNewLineStreamFormat {
    type Frame = Result<T, StreamError>;

    type Framer = JsonNewLineCodec;

    type Parser = IdentityParser;

    open spec fn frames(&self, options: DecodeOptions, framer: JsonNewLineCodec) -> bool {
        framer@ == (LineState {
            limit: options.max_obj_len as nat,
            scanned: 0,
            discarding: false,
        })
    }

    fn framer(&self, options: &DecodeOptions) -> (framer: JsonNewLineCodec) {
        JsonNewLineCodec::new_with_max_length(options.max_obj_len)
    }

    fn parser(&self) -> (parser: IdentityParser) {
        IdentityParser
    }
}

} // verus!
