//! Framing and round-trip tests for CSV.

use bytes::BytesMut;
use http_streams_core::{
    parse_frame, Action, ContentType, CsvEncoder, CsvFrameConfig, CsvParser, CsvRecordCodec,
    CsvStreamFormat, CsvWriter, DecodeOptions, DefaultFormat, EncodeState, ErrorSource,
    ItemEncoder, QuoteStyle, StreamError, StreamErrorKind, StreamFormat, StreamFormatDecode,
    StreamFormatEncode, Terminator,
};
use http_streams_core::csv_record_codec::{ReadStatus, Settled};
use serde::ser::{Serialize, SerializeStruct, Serializer};

#[derive(Debug, Clone, PartialEq)]
struct Row {
    id: u32,
    name: String,
}

impl Serialize for Row {
    fn serialize<S: Serializer>(&self, serializer: S) -> Result<S::Ok, S::Error> {
        let mut fields = serializer.serialize_struct("Row", 2)?;
        fields.serialize_field("id", &self.id)?;
        fields.serialize_field("name", &self.name)?;
        fields.end()
    }
}

fn row(id: u32, name: &str) -> Row {
    Row {
        id,
        name: name.into(),
    }
}

fn rows() -> Vec<Row> {
    vec![row(1, "one"), row(2, "two")]
}

type Hand = Box<dyn FnOnce(CsvWriter) -> Result<CsvWriter, csv::Error>>;

fn hand<T: Serialize + 'static>(item: T) -> Hand {
    Box::new(move |mut writer: CsvWriter| {
        writer.writer.serialize(item)?;
        Ok(writer)
    })
}

fn encoder_of(format: &CsvStreamFormat) -> CsvEncoder {
    StreamFormatEncode::<Hand>::encoder(format)
}

fn encode<T: Serialize + 'static>(format: &CsvStreamFormat, rows: Vec<T>) -> Vec<u8> {
    let mut source = rows.into_iter().map(|row| Ok::<_, StreamError>(hand(row)));
    let mut state = EncodeState::new(encoder_of(format));
    let mut out = Vec::new();
    loop {
        let chunk = match state.advance::<Hand>() {
            Action::Yield(chunk) => Some(chunk),
            Action::Pull => state.supply(source.next()),
            Action::Stop => return out,
        };
        if let Some(chunk) = chunk {
            out.extend_from_slice(&chunk.expect("encoding must not fail"));
        }
    }
}

fn decode_with(
    format: &CsvStreamFormat,
    bytes: &[u8],
    chunk_size: usize,
    options: &DecodeOptions,
) -> Vec<Result<Row, StreamError>> {
    let mut framer = StreamFormatDecode::<Row>::framer(format, options);
    let parser: CsvParser = StreamFormatDecode::<Row>::parser(format);
    let mut buf = BytesMut::new();
    let mut out = Vec::new();
    for chunk in bytes.chunks(chunk_size).map(Some).chain([None]) {
        buf.extend_from_slice(chunk.unwrap_or(&[]));
        loop {
            let found = match chunk {
                Some(_) => framer.decode(&mut buf),
                None => framer.decode_eof(&mut buf),
            };
            match found {
                Ok(Some(record)) => {
                    let parsed = record
                        .deserialize::<(u32, String)>(None)
                        .map(|(id, name)| Row { id, name });
                    out.push(parse_frame(&parser, Ok(parsed)));
                }
                Ok(None) => break,
                Err(error) => {
                    let lost: Result<Result<Row, csv::Error>, StreamError> = Err(error);
                    out.push(parse_frame(&parser, lost));
                    return out;
                }
            }
        }
    }
    out
}

fn decode_chunked(
    format: &CsvStreamFormat,
    bytes: &[u8],
    chunk_size: usize,
) -> Vec<Result<Row, StreamError>> {
    decode_with(format, bytes, chunk_size, &DecodeOptions::new())
}

fn unwrap_all(results: Vec<Result<Row, StreamError>>) -> Vec<Row> {
    results
        .into_iter()
        .map(|r| r.expect("decoding must not fail"))
        .collect()
}

#[test]
fn header_is_written_once_then_rows() {
    let bytes = encode(&CsvStreamFormat::new(true, b','), rows());
    assert_eq!(
        String::from_utf8(bytes).unwrap(),
        "id,name\n1,one\n2,two\n",
        "the header must appear exactly once, before the first row"
    );
}

#[test]
fn headerless_writes_only_rows() {
    let bytes = encode(&CsvStreamFormat::new(false, b','), rows());
    assert_eq!(String::from_utf8(bytes).unwrap(), "1,one\n2,two\n");
}

#[test]
fn custom_delimiter_is_honoured() {
    let bytes = encode(&CsvStreamFormat::new(true, b';'), rows());
    assert_eq!(String::from_utf8(bytes).unwrap(), "id;name\n1;one\n2;two\n");
}

#[test]
fn round_trips_with_header_at_every_chunk_boundary() {
    let format = CsvStreamFormat::new(true, b',');
    let bytes = encode(&format, rows());

    for chunk_size in 1..=bytes.len() {
        let decoded = unwrap_all(decode_chunked(&format, &bytes, chunk_size));
        assert_eq!(decoded, rows(), "failed at chunk size {chunk_size}");
    }
}

#[test]
fn round_trips_without_header_at_every_chunk_boundary() {
    let format = CsvStreamFormat::new(false, b',');
    let bytes = encode(&format, rows());

    for chunk_size in 1..=bytes.len() {
        let decoded = unwrap_all(decode_chunked(&format, &bytes, chunk_size));
        assert_eq!(decoded, rows(), "failed at chunk size {chunk_size}");
    }
}

#[test]
fn round_trips_with_a_custom_delimiter() {
    let format = CsvStreamFormat::new(true, b';');
    let bytes = encode(&format, rows());
    let decoded = unwrap_all(decode_chunked(&format, &bytes, bytes.len()));
    assert_eq!(decoded, rows());
}

/// A bad row is not terminal: the decoder knows exactly where the next one starts.
#[test]
fn a_malformed_row_does_not_end_the_stream() {
    let format = CsvStreamFormat::new(true, b',');
    let body = b"id,name\n1,one\nnot-a-number,two\n3,three\n";
    let results = decode_chunked(&format, body, body.len());

    assert_eq!(results.len(), 3);
    assert!(results[0].is_ok());
    assert!(results[1].is_err());
    assert!(results[2].is_ok(), "a bad row must not end the stream");

    let error = results.into_iter().nth(1).unwrap().unwrap_err();
    assert_eq!(error.kind(), StreamErrorKind::CodecError);
    assert!(matches!(error.source(), Some(ErrorSource::Csv(_))));
}

/// Skipping the first frame unconditionally would swallow a header line that failed to frame,
/// and the stream would report itself as having completed cleanly while having produced nothing.
#[test]
fn a_header_that_fails_to_frame_is_reported() {
    let format = CsvStreamFormat::new(true, b',');
    let long_header = "a".repeat(64);
    let body = format!("{long_header}\n1,one\n");

    let options = DecodeOptions::new().max_obj_len(8);
    let results = decode_with(&format, body.as_bytes(), body.len(), &options);

    assert!(
        results.iter().any(|r| r.is_err()),
        "the header's framing error must be reported, not skipped"
    );
    let error = results.into_iter().next().unwrap().unwrap_err();
    assert_eq!(error.kind(), StreamErrorKind::MaxLenReachedError);
    assert_eq!(error.message(), Some("Max record length reached"));
}

#[test]
fn csv_format_content_type_negotiation() {
    let format = CsvStreamFormat::default();
    assert_eq!(format.format_name(), "csv");
    assert_eq!(format.default_content_type(), "text/csv");
    assert!(format.accepts_content_type(&ContentType::parse("text/csv")));
    assert!(format.accepts_content_type(&ContentType::parse("text/csv; charset=utf-8")));
    assert!(format.accepts_content_type(&ContentType::parse("application/csv")));
    assert!(!format.accepts_content_type(&ContentType::parse("application/json")));
}

/// A CSV field may contain a newline when quoted, and this crate's own encoder emits exactly
/// that.
#[test]
fn a_quoted_newline_survives_the_round_trip() {
    let notes = vec![row(1, "line one\nline two"), row(2, "plain")];
    let format = CsvStreamFormat::new(true, b',');
    let encoded = encode(&format, notes.clone());
    assert_eq!(unwrap_all(decode_chunked(&format, &encoded, encoded.len())), notes);
}

/// The same hazard one level down: the embedded newline falls on a chunk boundary.
#[test]
fn a_quoted_newline_survives_every_chunk_boundary() {
    let notes = vec![row(1, "a\nb"), row(2, "c")];
    let format = CsvStreamFormat::new(true, b',');
    let encoded = encode(&format, notes.clone());

    for chunk_size in 1..=encoded.len() {
        let decoded = unwrap_all(decode_chunked(&format, &encoded, chunk_size));
        assert_eq!(decoded, notes, "failed at chunk size {chunk_size}");
    }
}

/// The encoder escapes a quote by doubling it, not with a backslash, so the framer must only
/// honour the escape character when doubling is off.
#[test]
fn a_backslash_inside_a_quoted_field_survives() {
    let paths = vec![
        row(1, r"C:\Users\abdulla"),
        // Quoted, because it contains a quote, which is what exposes the escape handling.
        row(2, r#"quote" and \ both"#),
    ];
    let format = CsvStreamFormat::new(true, b',');
    let encoded = encode(&format, paths.clone());
    assert_eq!(unwrap_all(decode_chunked(&format, &encoded, encoded.len())), paths);
}

/// `csv-core` records one end offset per field whether or not that field wrote any bytes, so a
/// limit that only counted bytes would never trip.
#[test]
fn many_empty_fields_still_hit_the_length_limit() {
    let body = format!("{}\n", ",".repeat(50_000));
    let format = CsvStreamFormat::new(false, b',');
    let options = DecodeOptions::new().max_obj_len(4096);
    let results = decode_with(&format, body.as_bytes(), body.len(), &options);

    assert!(
        results.iter().any(|r| r.is_err()),
        "a record of many empty fields must still hit the limit"
    );
}

fn fields(codec: &mut CsvRecordCodec, body: &str) -> Vec<Vec<String>> {
    let mut buf = BytesMut::from(body);
    let mut out = Vec::new();
    while let Some(record) = codec.decode_eof(&mut buf).unwrap() {
        out.push(
            record
                .iter()
                .map(|field| String::from_utf8(field.to_vec()).unwrap())
                .collect(),
        );
    }
    out
}

#[test]
fn records_larger_than_the_initial_buffers_are_framed() {
    let config = CsvFrameConfig {
        delimiter: b',',
        quote: b'"',
        double_quote: true,
        escape: None,
        terminator: Terminator::Any(b'\n'),
    };
    let long = "x".repeat(5000);
    let many: Vec<String> = (0..300).map(|i| i.to_string()).collect();
    let body = format!("{long},\"a,b\"\n{}", many.join(","));
    let mut codec = CsvRecordCodec::new(config, false, usize::MAX);
    let found = fields(&mut codec, &body);
    assert_eq!(found, vec![vec![long, "a,b".to_string()], many]);
}

#[test]
fn a_header_is_passed_over_once() {
    let config = CsvFrameConfig {
        delimiter: b';',
        quote: b'\'',
        double_quote: false,
        escape: Some(b'\\'),
        terminator: Terminator::CRLF,
    };
    let mut codec = CsvRecordCodec::new(config, true, usize::MAX);
    let found = fields(&mut codec, "id;name\r\n1;'o\\'ne'\r\n\n2;two");
    assert_eq!(found, vec![vec!["1", "o'ne"], vec!["2", "two"]]);

    // A lone header is no record.
    let mut codec = CsvRecordCodec::new(config, true, usize::MAX);
    assert!(fields(&mut codec, "id;name").is_empty());
}

#[test]
fn every_setting_is_honoured() {
    let note = || vec![row(1, "it's \"so\"; ok")];

    let format = CsvStreamFormat::default_format()
        .with_has_headers(false)
        .with_delimiter(b';')
        .with_quote(b'\'')
        .with_terminator(Terminator::CRLF);
    let bytes = encode(&format, note());
    assert_eq!(String::from_utf8(bytes.clone()).unwrap(), "1;'it''s \"so\"; ok'\r\n");
    assert_eq!(unwrap_all(decode_chunked(&format, &bytes, 3)), note());

    let format = CsvStreamFormat::new(false, b',')
        .with_double_quote(false)
        .with_escape(b'!');
    let bytes = encode(&format, note());
    assert_eq!(String::from_utf8(bytes.clone()).unwrap(), "1,\"it's !\"so!\"; ok\"\n");
    assert_eq!(unwrap_all(decode_chunked(&format, &bytes, 2)), note());

    let styles = [
        (QuoteStyle::Always, "\"1\",\"a\"\n"),
        (QuoteStyle::Necessary, "1,a\n"),
        (QuoteStyle::NonNumeric, "1,\"a\"\n"),
        (QuoteStyle::Never, "1,a\n"),
    ];
    for (style, expected) in styles {
        let format = CsvStreamFormat::new(false, b',').with_quote_style(style);
        let bytes = encode(&format, vec![row(1, "a")]);
        assert_eq!(String::from_utf8(bytes).unwrap(), expected);
    }
}

#[test]
fn rows_of_different_lengths_need_a_flexible_writer() {
    fn two_rows(mut writer: CsvWriter) -> Result<CsvWriter, csv::Error> {
        writer.writer.write_record(["a", "b"])?;
        writer.writer.write_record(["c"])?;
        Ok(writer)
    }

    let mut buf = BytesMut::new();
    let mut strict = encoder_of(&CsvStreamFormat::new(false, b','));
    let error = strict.encode(two_rows, 0, &mut buf).unwrap_err();
    assert_eq!(error.kind(), StreamErrorKind::CodecError);
    assert!(matches!(error.source(), Some(ErrorSource::Csv(_))));
    assert!(buf.is_empty());

    let mut flexible = encoder_of(&CsvStreamFormat::new(false, b',').with_flexible(true));
    flexible.encode(two_rows, 0, &mut buf).unwrap();
    assert_eq!(buf, "a,b\nc\n");
}

fn plain() -> CsvFrameConfig {
    CsvFrameConfig {
        delimiter: b',',
        quote: b'"',
        double_quote: true,
        escape: None,
        terminator: Terminator::Any(b'\n'),
    }
}

fn first_fields(body: &[u8], chunk_size: usize) -> Vec<Vec<u8>> {
    let mut codec = CsvRecordCodec::new(plain(), false, usize::MAX);
    let mut buf = BytesMut::new();
    let mut out = Vec::new();
    for chunk in body.chunks(chunk_size) {
        buf.extend_from_slice(chunk);
        while let Some(record) = codec.decode(&mut buf).unwrap() {
            out.push(record.get(0).unwrap().to_vec());
        }
        assert!(buf.is_empty());
    }
    out
}

/// The mark is passed over wherever all of it comes in the first chunk, and is part of the first
/// field where it does not.
#[test]
fn a_byte_order_mark_is_passed_over() {
    let body = b"\xef\xbb\xbfone,1\n\"t\nwo\",2\n";
    for chunk_size in 3..=body.len() {
        assert_eq!(first_fields(body, chunk_size), vec![b"one".to_vec(), b"t\nwo".to_vec()]);
    }
    for chunk_size in 1..3 {
        assert_eq!(
            first_fields(body, chunk_size),
            vec![b"\xef\xbb\xbfone".to_vec(), b"t\nwo".to_vec()]
        );
    }
}

#[test]
fn the_reader_is_called_again_until_there_is_a_record() {
    let mut codec = CsvRecordCodec::new(plain(), false, usize::MAX);
    assert!(matches!(codec.settle(ReadStatus::InputEmpty, 0, 0), Ok(Settled::Again)));
    assert!(matches!(codec.settle(ReadStatus::OutputFull, 0, 0), Ok(Settled::Again)));
    assert!(matches!(codec.settle(ReadStatus::OutputEndsFull, 0, 0), Ok(Settled::Again)));
    assert!(matches!(codec.settle(ReadStatus::End, 0, 0), Ok(Settled::Ended)));
    match codec.settle(ReadStatus::Record, 2, 2) {
        Ok(Settled::Record(record)) => assert_eq!(record, csv::ByteRecord::from(vec!["", ""])),
        other => panic!("unexpected {other:?}"),
    }
}

#[test]
fn a_header_record_is_not_handed_out() {
    let mut codec = CsvRecordCodec::new(plain(), true, usize::MAX);
    assert!(matches!(codec.settle(ReadStatus::Record, 0, 1), Ok(Settled::Again)));
    assert!(matches!(codec.settle(ReadStatus::Record, 0, 1), Ok(Settled::Record(_))));
}

#[test]
fn end_positions_count_towards_the_limit() {
    let size = core::mem::size_of::<usize>();
    let mut codec = CsvRecordCodec::new(plain(), false, size);
    assert!(codec.settle(ReadStatus::Record, 0, 1).is_ok());
    let error = codec.settle(ReadStatus::Record, 1, 1).unwrap_err();
    assert_eq!(error.kind(), StreamErrorKind::MaxLenReachedError);
    assert_eq!(error.message(), Some("Max record length reached"));
}

/// A body is read up to the first record beyond the limit, the header counted like any other.
#[test]
fn a_body_is_read_up_to_the_first_long_record() {
    let limit = 2 * core::mem::size_of::<usize>() + 4;
    for (header, body, before) in [
        (false, "a,b\naa,bb\naa,bbb\na,b\n", 2),
        (true, "a,b\naa,bb\naa,bbb\na,b\n", 1),
        (true, "aaa,bb\na,b\n", 0),
    ] {
        for chunk_size in [1, 3, body.len()] {
            let mut codec = CsvRecordCodec::new(plain(), header, limit);
            let mut buf = BytesMut::new();
            let mut count = 0;
            let mut failed = None;
            for chunk in body.as_bytes().chunks(chunk_size) {
                buf.extend_from_slice(chunk);
                loop {
                    match codec.decode(&mut buf) {
                        Ok(Some(_)) => count += 1,
                        Ok(None) => break,
                        Err(error) => {
                            failed = Some(error);
                            break;
                        }
                    }
                }
                if failed.is_some() {
                    break;
                }
            }
            assert_eq!(count, before);
            assert_eq!(failed.unwrap().kind(), StreamErrorKind::MaxLenReachedError);
        }
    }
}
