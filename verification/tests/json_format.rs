//! Byte-level framing and round-trip tests for the JSON formats.

use bytes::{Bytes, BytesMut};
use http_streams_core::{
    Action, ContentType, DecodeOptions, DefaultFormat, EncodeState, ErrorSource, ItemEncoder,
    JsonArrayCodec, JsonArrayEncoder, JsonArrayStreamFormat, JsonNewLineCodec, JsonNewLineEncoder,
    JsonNewLineStreamFormat, JsonText, StreamError, StreamErrorKind, StreamFormat,
    StreamFormatDecode, StreamFormatEncode,
};
use serde::ser::{Error, Serialize, SerializeStruct, Serializer};

#[derive(Debug, Clone, PartialEq)]
struct Item {
    id: u32,
    name: String,
}

impl Serialize for Item {
    fn serialize<S: Serializer>(&self, serializer: S) -> Result<S::Ok, S::Error> {
        let mut fields = serializer.serialize_struct("Item", 2)?;
        fields.serialize_field("id", &self.id)?;
        fields.serialize_field("name", &self.name)?;
        fields.end()
    }
}

fn item(id: u32, name: &str) -> Item {
    Item {
        id,
        name: name.into(),
    }
}

fn items() -> Vec<Item> {
    vec![item(1, "one"), item(2, "two")]
}

fn parse_item(value: serde_json::Value) -> Result<Item, serde_json::Error> {
    Ok(Item {
        id: serde_json::from_value(value["id"].clone())?,
        name: serde_json::from_value(value["name"].clone())?,
    })
}

struct Meta {
    total: u32,
}

impl Serialize for Meta {
    fn serialize<S: Serializer>(&self, serializer: S) -> Result<S::Ok, S::Error> {
        let mut fields = serializer.serialize_struct("Meta", 1)?;
        fields.serialize_field("total", &self.total)?;
        fields.end()
    }
}

struct Empty {}

impl Serialize for Empty {
    fn serialize<S: Serializer>(&self, serializer: S) -> Result<S::Ok, S::Error> {
        serializer.serialize_struct("Empty", 0)?.end()
    }
}

/// Serialises halfway, then fails.
struct Broken;

impl Serialize for Broken {
    fn serialize<S: Serializer>(&self, serializer: S) -> Result<S::Ok, S::Error> {
        let mut fields = serializer.serialize_struct("Broken", 2)?;
        fields.serialize_field("id", &1u8)?;
        Err(S::Error::custom("broken"))
    }
}

fn text<T: Serialize>(item: &T) -> JsonText {
    let mut bytes = Vec::new();
    let outcome = serde_json::to_writer(&mut bytes, item);
    JsonText { bytes, outcome }
}

fn run<E: ItemEncoder<JsonText>>(encoder: E, items: Vec<JsonText>) -> Vec<u8> {
    let mut source = items.into_iter().map(Ok::<_, StreamError>);
    let mut state = EncodeState::new(encoder);
    let mut out = Vec::new();
    loop {
        let chunk = match state.advance::<JsonText>() {
            Action::Yield(chunk) => Some(chunk),
            Action::Pull => state.supply(source.next()),
            Action::Stop => return out,
        };
        if let Some(chunk) = chunk {
            out.extend_from_slice(&chunk.expect("encoding must not fail"));
        }
    }
}

fn encode_array<T: Serialize>(items: &[T]) -> Vec<u8> {
    let format = JsonArrayStreamFormat::new();
    run(format.encoder(), items.iter().map(text).collect())
}

fn encode_lines<T: Serialize>(items: &[T]) -> Vec<u8> {
    let format = JsonNewLineStreamFormat::new();
    run(format.encoder(), items.iter().map(text).collect())
}

/// Decode `bytes` fed in chunks of exactly `chunk_size`, so that framing is exercised across
/// buffer boundaries rather than only on whole-message reads.
fn decode_array<T, P>(bytes: &[u8], chunk_size: usize, parse: P) -> Vec<Result<T, StreamError>>
where
    P: Fn(&[u8]) -> Result<T, serde_json::Error>,
{
    let format = JsonArrayStreamFormat::new();
    let options = DecodeOptions::new();
    let mut framer = StreamFormatDecode::<T>::framer(&format, &options);
    let mut buf = BytesMut::new();
    let mut out = Vec::new();
    for chunk in bytes.chunks(chunk_size).map(Some).chain([None]) {
        buf.extend_from_slice(chunk.unwrap_or(&[]));
        loop {
            let found = match chunk {
                Some(_) => framer.decode(&mut buf, &parse),
                None => framer.decode_eof(&mut buf, &parse),
            };
            match found {
                Ok(Some(item)) => out.push(item),
                Ok(None) => break,
                Err(error) => {
                    out.push(Err(error));
                    return out;
                }
            }
        }
    }
    out
}

fn decode_lines<T, P>(bytes: &[u8], chunk_size: usize, parse: P) -> Vec<Result<T, StreamError>>
where
    P: Fn(&str) -> Result<T, serde_json::Error>,
{
    let format = JsonNewLineStreamFormat::new();
    let options = DecodeOptions::new();
    let mut framer = StreamFormatDecode::<T>::framer(&format, &options);
    let mut buf = BytesMut::new();
    let mut out = Vec::new();
    for chunk in bytes.chunks(chunk_size).map(Some).chain([None]) {
        buf.extend_from_slice(chunk.unwrap_or(&[]));
        loop {
            let found = match chunk {
                Some(_) => framer.decode(&mut buf, &parse),
                None => framer.decode_eof(&mut buf, &parse),
            };
            match found {
                Ok(Some(item)) => out.push(item),
                Ok(None) => break,
                Err(error) => {
                    out.push(Err(error));
                    return out;
                }
            }
        }
    }
    out
}

fn array_items(bytes: &[u8], chunk_size: usize) -> Vec<Result<Item, StreamError>> {
    decode_array(bytes, chunk_size, |element| {
        parse_item(serde_json::from_slice(element)?)
    })
}

fn line_items(bytes: &[u8], chunk_size: usize) -> Vec<Result<Item, StreamError>> {
    decode_lines(bytes, chunk_size, |line| parse_item(serde_json::from_str(line)?))
}

fn unwrap_all<T>(results: Vec<Result<T, StreamError>>) -> Vec<T> {
    results
        .into_iter()
        .map(|r| r.expect("decoding must not fail"))
        .collect()
}

#[test]
fn json_array_framing_is_exact() {
    let bytes = encode_array(&items());
    assert_eq!(
        String::from_utf8(bytes).unwrap(),
        r#"[{"id":1,"name":"one"},{"id":2,"name":"two"}]"#
    );
}

#[test]
fn json_array_of_nothing_is_still_an_array() {
    let bytes = encode_array(&Vec::<Item>::new());
    assert_eq!(String::from_utf8(bytes).unwrap(), "[]");
}

#[test]
fn json_array_envelope_framing_is_exact() {
    let format = JsonArrayStreamFormat::with_envelope(Meta { total: 2 }, "items");
    let encoder = format.encoder_with(|meta| serde_json::to_vec(meta));
    let bytes = run(encoder, items().iter().map(text).collect());
    assert_eq!(
        String::from_utf8(bytes).unwrap(),
        r#"{"total":2,"items":[{"id":1,"name":"one"},{"id":2,"name":"two"}]}"#
    );
}

/// An envelope with no fields of its own must not gain a leading comma.
#[test]
fn json_array_empty_envelope_omits_the_separator() {
    let format = JsonArrayStreamFormat::with_envelope(Empty {}, "items");
    let encoder = format.encoder_with(|empty| serde_json::to_vec(empty));
    let bytes = run(encoder, items().iter().map(text).collect());
    assert!(
        String::from_utf8(bytes)
            .unwrap()
            .starts_with(r#"{"items":["#),
        "an empty envelope must not emit a separator before the array field"
    );
}

#[test]
fn json_nl_framing_is_exact() {
    let bytes = encode_lines(&items());
    assert_eq!(
        String::from_utf8(bytes).unwrap(),
        "{\"id\":1,\"name\":\"one\"}\n{\"id\":2,\"name\":\"two\"}\n"
    );
}

/// The test that actually catches decoder bugs: every possible split point.
#[test]
fn json_array_round_trips_at_every_chunk_boundary() {
    let bytes = encode_array(&items());

    for chunk_size in 1..=bytes.len() {
        let decoded = unwrap_all(array_items(&bytes, chunk_size));
        assert_eq!(decoded, items(), "failed at chunk size {chunk_size}");
    }
}

#[test]
fn json_nl_round_trips_at_every_chunk_boundary() {
    let bytes = encode_lines(&items());

    for chunk_size in 1..=bytes.len() {
        let decoded = unwrap_all(line_items(&bytes, chunk_size));
        assert_eq!(decoded, items(), "failed at chunk size {chunk_size}");
    }
}

/// Multi-byte UTF-8 and escapes are where a byte-level scanner goes wrong.
#[test]
fn json_array_handles_escapes_and_multibyte_at_every_boundary() {
    let tricky = vec![
        item(1, "quote\" and \\ backslash"),
        item(2, "日本語とemoji🎉"),
        item(3, "newline\nand\ttab"),
    ];
    let bytes = encode_array(&tricky);

    for chunk_size in 1..=bytes.len() {
        let decoded = unwrap_all(array_items(&bytes, chunk_size));
        assert_eq!(decoded, tricky, "failed at chunk size {chunk_size}");
    }
}

#[test]
fn json_array_decodes_primitives_and_nested_arrays() {
    let numbers = vec![1u32, 2, 3];
    let bytes = encode_array(&numbers);
    assert_eq!(String::from_utf8(bytes.clone()).unwrap(), "[1,2,3]");
    for chunk_size in 1..=bytes.len() {
        let decoded: Vec<u32> = unwrap_all(decode_array(&bytes, chunk_size, |element| {
            serde_json::from_slice(element)
        }));
        assert_eq!(decoded, numbers, "failed at chunk size {chunk_size}");
    }

    let nested = vec![vec![1u32, 2], vec![3]];
    let bytes = encode_array(&nested);
    for chunk_size in 1..=bytes.len() {
        let decoded: Vec<Vec<u32>> = unwrap_all(decode_array(&bytes, chunk_size, |element| {
            serde_json::from_slice(element)
        }));
        assert_eq!(decoded, nested, "failed at chunk size {chunk_size}");
    }
}

/// JSON-NL keeps going after a bad line; the array format cannot. Both behaviours are
/// load-bearing and documented.
#[test]
fn json_nl_survives_a_malformed_line() {
    let body = b"{\"id\":1,\"name\":\"one\"}\nnot json\n{\"id\":2,\"name\":\"two\"}\n";
    let results = line_items(body, body.len());

    assert_eq!(results.len(), 3);
    assert!(results[0].is_ok());
    assert!(results[1].is_err());
    assert!(results[2].is_ok(), "a bad line must not end the stream");
}

#[test]
fn json_format_content_type_negotiation() {
    let array = JsonArrayStreamFormat::new();
    assert_eq!(array.format_name(), "json_array");
    assert_eq!(array.default_content_type(), "application/json");
    assert!(array.accepts_content_type(&ContentType::parse("application/json")));
    assert!(array.accepts_content_type(&ContentType::parse("application/json; charset=utf-8")));
    assert!(array.accepts_content_type(&ContentType::parse("APPLICATION/JSON")));
    assert!(array.accepts_content_type(&ContentType::parse("application/cloudevents+json")));
    assert!(!array.accepts_content_type(&ContentType::parse("text/json")));

    let nl = JsonNewLineStreamFormat::new();
    assert_eq!(nl.format_name(), "json_nl");
    assert_eq!(nl.default_content_type(), "application/jsonstream");
    assert!(nl.accepts_content_type(&ContentType::parse("application/jsonstream")));
    assert!(nl.accepts_content_type(&ContentType::parse("application/x-ndjson")));
    assert!(nl.accepts_content_type(&ContentType::parse("application/ndjson")));
    assert!(nl.accepts_content_type(&ContentType::parse("application/jsonl")));
    assert!(nl.accepts_content_type(&ContentType::parse("application/x-jsonl")));
    // RFC 7464 uses 0x1E separators, not newlines: accepting it would mis-decode.
    assert!(!nl.accepts_content_type(&ContentType::parse("application/json-seq")));
}

/// The mirror of `json_nl_survives_a_malformed_line`: for a JSON array a bad element IS
/// terminal, because the cursor tracks nesting across elements and cannot resynchronise.
#[test]
fn json_array_stops_at_a_malformed_element() {
    let body = br#"[{"id":1,"name":"one"},{"id":"not a number"},{"id":3,"name":"three"}]"#;
    let results = array_items(body, body.len());

    assert!(results[0].is_ok());
    assert!(results[1].is_err());
    assert_eq!(
        results.len(),
        2,
        "a JSON array cannot resynchronise, so the stream must end at the first bad element"
    );
}

/// Malformed input is untrusted input, so a stray `}` at the top level has to be an error.
#[test]
fn a_stray_closing_brace_is_an_error_not_a_panic() {
    let results: Vec<Result<u32, StreamError>> =
        decode_array(b"[1, }, 2]", 9, |element| serde_json::from_slice(element));

    assert!(
        results.iter().any(|r| r.is_err()),
        "a stray closing brace must be reported: {results:?}"
    );
}

/// The same byte arriving on its own, so the guard is exercised at a chunk boundary too.
#[test]
fn a_stray_closing_brace_is_an_error_at_every_boundary() {
    let body = b"[1, }, 2]";

    for chunk_size in 1..=body.len() {
        let results: Vec<Result<u32, StreamError>> =
            decode_array(body, chunk_size, |element| serde_json::from_slice(element));
        assert!(
            results.iter().any(|r| r.is_err()),
            "failed at chunk size {chunk_size}"
        );
        let error = results.into_iter().find_map(|r| r.err()).unwrap();
        assert_eq!(error.kind(), StreamErrorKind::CodecError);
        assert_eq!(error.message(), Some("Unexpected `}` outside any object"));
    }
}

fn elements(body: &[u8], limit: usize) -> (Vec<String>, Option<StreamError>) {
    let mut codec = JsonArrayCodec::new_with_max_length(limit);
    let mut buf = BytesMut::from(body);
    let mut out = Vec::new();
    loop {
        match codec.next_element(&mut buf) {
            Ok(Some(element)) => out.push(String::from_utf8(element).unwrap()),
            Ok(None) => return (out, None),
            Err(error) => return (out, Some(error)),
        }
    }
}

#[test]
fn elements_of_every_kind_are_found() {
    let body = br#" [ 1 , "a,]}\"" , {"b":[1,"}"]} , [[],{}] , null,true ,-1.5e3 ] "#;
    let (found, error) = elements(body, usize::MAX);
    assert!(error.is_none());
    assert_eq!(
        found,
        [
            "1",
            r#""a,]}\"""#,
            r#"{"b":[1,"}"]}"#,
            "[[],{}]",
            "null",
            "true",
            "-1.5e3"
        ]
    );
}

#[test]
fn a_delimiter_where_none_may_stand_is_an_error() {
    for body in ["[,1]", "[{},,{}]", "[1,,2]"] {
        let (_, error) = elements(body.as_bytes(), usize::MAX);
        let error = error.expect(body);
        assert_eq!(error.kind(), StreamErrorKind::CodecError);
        assert_eq!(error.message(), Some("Unexpected delimiter found"));
    }
}

#[test]
fn an_element_beyond_the_limit_is_refused() {
    for (body, limit, count) in [
        (r#"["abc","defgh"]"#, 6, 1),
        (r#"[ 1 , {"a":12} ]"#, 7, 1),
        ("[1,123456]", 5, 1),
        ("[[1,2],[3]]", 4, 0),
        ("[1]", 0, 0),
        (r#"["abc"#, 3, 0),
    ] {
        let (found, error) = elements(body.as_bytes(), limit);
        assert_eq!(found.len(), count, "{body}");
        let error = error.expect(body);
        assert_eq!(error.kind(), StreamErrorKind::MaxLenReachedError);
        assert_eq!(error.message(), Some("Max object length reached"));
    }
}

/// Neither what stands around an element nor its neighbours count.
#[test]
fn an_element_of_exactly_the_limit_is_not_refused() {
    for (body, limit, count) in [
        ("[123]", 3, 1),
        (r#"["abc","defgh"]"#, 7, 2),
        (r#"   [   1   ,   {"a":12}   ]   "#, 8, 2),
        ("[[1,2],[3]]", 5, 2),
        ("[]", 0, 0),
        ("[1      ]", 1, 1),
    ] {
        for chunk_size in 1..=body.len() {
            let mut codec = JsonArrayCodec::new_with_max_length(limit);
            let mut buf = BytesMut::new();
            let mut found = 0;
            for chunk in body.as_bytes().chunks(chunk_size) {
                buf.extend_from_slice(chunk);
                while codec.next_element(&mut buf).expect(body).is_some() {
                    found += 1;
                }
            }
            assert_eq!(found, count, "{body}");
        }
    }
}

#[test]
fn a_bad_element_carries_the_parser_error() {
    let results: Vec<Result<u32, StreamError>> =
        decode_array(b"[x]", 3, |element| serde_json::from_slice(element));
    let error = results.into_iter().next().unwrap().unwrap_err();
    assert_eq!(error.kind(), StreamErrorKind::CodecError);
    assert!(matches!(error.source(), Some(ErrorSource::Json(_))));
}

#[test]
fn the_last_line_needs_no_ending() {
    let decoded = line_items(b"{\"id\":1,\"name\":\"one\"}\r\n{\"id\":2,\"name\":\"two\"}", 5);
    assert_eq!(unwrap_all(decoded), items());
}

fn line(found: Result<Option<Result<String, StreamError>>, StreamError>) -> Option<String> {
    found.unwrap().map(|line| line.unwrap())
}

#[test]
fn a_line_beyond_the_limit_is_refused() {
    let mut codec = JsonNewLineCodec::new_with_max_length(3);
    let mut buf = BytesMut::from(&b"123\n1234\n5\n"[..]);
    assert_eq!(line(codec.next_line(&mut buf)), Some("123".to_string()));
    let error = codec.next_line(&mut buf).unwrap_err();
    assert_eq!(error.kind(), StreamErrorKind::MaxLenReachedError);
    assert_eq!(error.message(), Some("Max line length reached"));
    // The rest of the line is dropped.
    assert_eq!(line(codec.next_line(&mut buf)), Some("5".to_string()));
    assert_eq!(line(codec.next_line(&mut buf)), None);
}

#[test]
fn a_line_that_is_no_text_is_reported_and_the_next_one_read() {
    let mut codec = JsonNewLineCodec::new_with_max_length(usize::MAX);
    let mut buf = BytesMut::from(&b"\xff\n2\n\xfe"[..]);
    let error = codec
        .decode(&mut buf, |line| serde_json::from_str::<u32>(line))
        .unwrap()
        .unwrap()
        .unwrap_err();
    assert_eq!(error.kind(), StreamErrorKind::InputOutputError);
    assert!(matches!(error.source(), Some(ErrorSource::Io(_))));
    let item = codec.decode(&mut buf, |line| serde_json::from_str::<u32>(line));
    assert!(matches!(item, Ok(Some(Ok(2)))));
    let item = codec.decode_eof(&mut buf, |line| serde_json::from_str::<u32>(line));
    assert!(matches!(item, Ok(Some(Err(_)))));
    assert_eq!(line(codec.last_line(&mut buf)), None);

    let mut buf = BytesMut::from(&b"\r"[..]);
    assert_eq!(line(codec.last_line(&mut buf)), None);
    let mut buf = BytesMut::from(&b"2\r"[..]);
    assert_eq!(line(codec.last_line(&mut buf)), Some("2".to_string()));
    assert!(buf.is_empty());
}

#[test]
fn an_envelope_that_is_no_object_is_reported_once() {
    let mut encoder = JsonArrayEncoder::enveloped(Ok(b"7".to_vec()), "items");
    let mut buf = BytesMut::new();
    let error = encoder.prologue(&mut buf).unwrap_err();
    assert_eq!(error.kind(), StreamErrorKind::CodecError);
    assert_eq!(error.message(), Some("Too short envelope: [55]"));
    let error = encoder.prologue(&mut buf).unwrap_err();
    assert_eq!(error.message(), Some("Bad envelope"));
    assert!(buf.is_empty());

    let mut encoder = JsonArrayEncoder::enveloped(Ok(Vec::new()), "items");
    let error = encoder.prologue(&mut buf).unwrap_err();
    assert_eq!(error.message(), Some("Too short envelope: []"));

    let mut encoder = JsonArrayEncoder::enveloped(Ok(vec![255]), "items");
    let error = encoder.prologue(&mut buf).unwrap_err();
    assert_eq!(error.message(), Some("Too short envelope: [255]"));
    let mut encoder = JsonArrayEncoder::enveloped(Ok(vec![100]), "items");
    let error = encoder.prologue(&mut buf).unwrap_err();
    assert_eq!(error.message(), Some("Too short envelope: [100]"));
}

#[test]
fn an_envelope_that_cannot_be_serialised_is_reported() {
    let format = JsonArrayStreamFormat::with_envelope(Broken, "items");
    let mut encoder = format.encoder_with(|object| serde_json::to_vec(object));
    let error = encoder.prologue(&mut BytesMut::new()).unwrap_err();
    assert_eq!(error.kind(), StreamErrorKind::CodecError);
    assert!(matches!(error.source(), Some(ErrorSource::Json(_))));
}

#[test]
fn an_envelope_of_nothing_is_refused() {
    let format = JsonArrayStreamFormat::with_envelope((), "items");
    let mut encoder: JsonArrayEncoder = format.encoder();
    let error = encoder.prologue(&mut BytesMut::new()).unwrap_err();
    assert_eq!(error.kind(), StreamErrorKind::CodecError);
    assert_eq!(error.message(), Some("Bad envelope"));

    let mut encoder = JsonArrayEncoder::enveloped(Ok(b"[1]".to_vec()), "items");
    let error = encoder.prologue(&mut BytesMut::new()).unwrap_err();
    assert_eq!(error.message(), Some("Bad envelope"));
}

#[test]
fn the_name_of_the_array_field_is_escaped() {
    let name = "a\"b\\c\n\t\r\u{8}\u{c}\u{1}\u{1f}\u{7f}\u{e9}";
    let mut encoder = JsonArrayEncoder::enveloped(Ok(b"{}".to_vec()), name);
    let mut buf = BytesMut::new();
    encoder.prologue(&mut buf).unwrap();
    assert!(buf.starts_with(br#"{"a\"b\\c\n\t\r\b\f\u0001\u001f"#));
    encoder.epilogue(&mut buf).unwrap();
    let value: serde_json::Value = serde_json::from_slice(&buf).unwrap();
    assert_eq!(value[name], serde_json::Value::Array(Vec::new()));

    let mut encoder = JsonArrayEncoder::enveloped(Ok(b"{}".to_vec()), "a\"b");
    let mut buf = BytesMut::new();
    encoder.prologue(&mut buf).unwrap();
    assert_eq!(&buf[..], br#"{"a\"b":["#);
}

#[test]
fn an_item_that_cannot_be_serialised_is_reported() {
    let mut buf = BytesMut::new();
    let mut encoder = JsonArrayStreamFormat::default_format().encoder();
    let error = encoder.encode(text(&Broken), 3, &mut buf).unwrap_err();
    assert_eq!(error.kind(), StreamErrorKind::CodecError);
    assert!(matches!(error.source(), Some(ErrorSource::Json(_))));
    assert_eq!(buf, Bytes::from(r#",{"id":1"#));

    let mut buf = BytesMut::new();
    let error = JsonNewLineEncoder.encode(text(&Broken), 0, &mut buf).unwrap_err();
    assert_eq!(error.kind(), StreamErrorKind::CodecError);
    assert_eq!(buf, Bytes::from(r#"{"id":1"#));
}
