//! Framing and round-trip tests for the binary formats, plus the text encoder.

use arrow::array::{ArrayRef, Int32Array, RecordBatch, StringArray};
use arrow::datatypes::{DataType, Field, Schema};
use bytes::{Buf, BufMut, BytesMut};
use http_streams_core::{
    Action, ArrowBatch, ArrowIpcCodec, ArrowRecordBatchIpcStreamFormat, ContentType,
    DecodeOptions, DefaultFormat, EncodeState, ErrorSource, ItemEncoder, ProtobufEncoder,
    ProtobufLenPrefixCodec, ProtobufStreamFormat, StreamError, StreamErrorKind, StreamFormat,
    StreamFormatDecode, StreamFormatEncode, TextEncoder, TextStreamFormat,
};
use http_streams_core::arrow_format::append_message;
use prost::encoding::{string, uint32, DecodeContext, WireType};
use prost::Message;
use std::sync::Arc;

fn run<T, E: ItemEncoder<T>>(encoder: E, items: Vec<T>) -> Vec<u8> {
    let mut source = items.into_iter().map(Ok::<_, StreamError>);
    let mut state = EncodeState::new(encoder);
    let mut out = Vec::new();
    loop {
        let chunk = match state.advance::<T>() {
            Action::Yield(chunk) => Some(chunk),
            Action::Pull => state.supply(source.next()),
            Action::Stop => return out,
        };
        if let Some(chunk) = chunk {
            out.extend_from_slice(&chunk.expect("encoding must not fail"));
        }
    }
}

#[derive(Debug, Clone, Default, PartialEq)]
struct Record {
    name: String,
    id: u32,
}

impl Message for Record {
    fn encode_raw(&self, buf: &mut impl BufMut) {
        if !self.name.is_empty() {
            string::encode(1, &self.name, buf);
        }
        if self.id != 0 {
            uint32::encode(2, &self.id, buf);
        }
    }

    fn merge_field(
        &mut self,
        tag: u32,
        wire_type: WireType,
        buf: &mut impl Buf,
        ctx: DecodeContext,
    ) -> Result<(), prost::DecodeError> {
        match tag {
            1 => string::merge(wire_type, &mut self.name, buf, ctx),
            2 => uint32::merge(wire_type, &mut self.id, buf, ctx),
            _ => prost::encoding::skip_field(wire_type, tag, buf, ctx),
        }
    }

    fn encoded_len(&self) -> usize {
        let mut len = 0;
        if !self.name.is_empty() {
            len += string::encoded_len(1, &self.name);
        }
        if self.id != 0 {
            len += uint32::encoded_len(2, &self.id);
        }
        len
    }

    fn clear(&mut self) {
        *self = Record::default();
    }
}

fn record(name: &str, id: u32) -> Record {
    Record {
        name: name.into(),
        id,
    }
}

fn records() -> Vec<Record> {
    vec![record("one", 1), record("two", 2)]
}

fn encode_records(records: &[Record]) -> Vec<u8> {
    let format = ProtobufStreamFormat::new();
    run(
        format.encoder(),
        records.iter().map(|record| record.encode_to_vec()).collect(),
    )
}

fn decode_records(bytes: &[u8], chunk_size: usize) -> Vec<Record> {
    let format = ProtobufStreamFormat::new();
    let mut framer = StreamFormatDecode::<Record>::framer(&format, &DecodeOptions::new());
    let mut buf = BytesMut::new();
    let mut out = Vec::new();
    for chunk in bytes.chunks(chunk_size).map(Some).chain([None]) {
        buf.extend_from_slice(chunk.unwrap_or(&[]));
        loop {
            let found = match chunk {
                Some(_) => framer.decode(&mut buf, |message| Record::decode(message)),
                None => framer.decode_eof(&mut buf, |message| Record::decode(message)),
            };
            match found.expect("decoding must not fail") {
                Some(item) => out.push(item.expect("decoding must not fail")),
                None => break,
            }
        }
    }
    out
}

/// Each frame is a LEB128 length followed by exactly that many bytes.
#[test]
fn framing_is_length_prefixed() {
    let bytes = encode_records(&records());

    let mut cursor = 0usize;
    let mut frames = 0;
    while cursor < bytes.len() {
        let len = bytes[cursor] as usize;
        assert!(
            len < 0x80,
            "test records are small enough for a 1-byte varint"
        );
        cursor += 1 + len;
        frames += 1;
    }
    assert_eq!(cursor, bytes.len(), "frames must tile the body exactly");
    assert_eq!(frames, 2);
}

/// The interesting failure is a varint or message split across two reads.
#[test]
fn round_trips_at_every_chunk_boundary() {
    let bytes = encode_records(&records());

    for chunk_size in 1..=bytes.len() {
        let decoded = decode_records(&bytes, chunk_size);
        assert_eq!(decoded, records(), "failed at chunk size {chunk_size}");
    }
}

/// A message long enough to need a multi-byte varint length, so the varint itself gets
/// split across chunk boundaries.
#[test]
fn round_trips_a_multibyte_varint_length() {
    let big = vec![record(&"x".repeat(500), 7)];
    let bytes = encode_records(&big);
    assert!(
        bytes[0] >= 0x80,
        "length must need more than one varint byte"
    );

    for chunk_size in 1..=8 {
        let decoded = decode_records(&bytes, chunk_size);
        assert_eq!(decoded, big, "failed at chunk size {chunk_size}");
    }
}

/// A message whose fields all hold their default values encodes to *zero bytes*, so its
/// frame is a lone `0x00`.
#[test]
fn round_trips_zero_length_messages() {
    let empty = record("", 0);
    let items = vec![empty.clone(), record("after", 9), empty.clone()];

    let bytes = encode_records(&items);
    assert_eq!(
        bytes[0], 0,
        "an all-default message must encode to an empty frame"
    );

    for chunk_size in 1..=bytes.len() {
        let decoded = decode_records(&bytes, chunk_size);
        assert_eq!(decoded, items, "failed at chunk size {chunk_size}");
    }
}

/// Two or more whole frames buffered when the body ends.
#[test]
fn does_not_drop_frames_buffered_at_eof() {
    let items: Vec<Record> = (0..10).map(|i| record(&format!("item-{i}"), i)).collect();

    let bytes = encode_records(&items);
    // One chunk, so every frame is buffered before EOF is seen.
    let decoded = decode_records(&bytes, bytes.len());

    assert_eq!(
        decoded, items,
        "no frame may be lost when the body arrives at once"
    );
}

#[test]
fn binary_formats_content_type_negotiation() {
    let format = ProtobufStreamFormat::new();
    assert_eq!(format.format_name(), "protobuf");
    assert_eq!(
        format.default_content_type(),
        "application/x-protobuf-stream"
    );
    assert!(format.accepts_content_type(&ContentType::parse("application/x-protobuf-stream")));
    assert!(format.accepts_content_type(&ContentType::parse("application/x-protobuf")));
    assert!(format.accepts_content_type(&ContentType::parse("application/protobuf")));
    // Accepting this would mean decoding any unlabelled binary body as protobuf frames.
    assert!(!format.accepts_content_type(&ContentType::parse("application/octet-stream")));

    let format = ArrowRecordBatchIpcStreamFormat::new(schema());
    assert_eq!(format.format_name(), "arrow");
    assert_eq!(
        format.default_content_type(),
        "application/vnd.apache.arrow.stream"
    );
    assert!(
        format.accepts_content_type(&ContentType::parse("application/vnd.apache.arrow.stream"))
    );
    assert!(!format.accepts_content_type(&ContentType::parse("application/json")));

    let format = TextStreamFormat::default_format();
    assert_eq!(format.format_name(), "text");
    assert_eq!(format.default_content_type(), "text/plain; charset=utf-8");
    assert!(format.accepts_content_type(&ContentType::parse("text/plain")));
    assert!(format.accepts_content_type(&ContentType::parse("Text/Plain; charset=latin1")));
    assert!(!format.accepts_content_type(&ContentType::parse("text/csv")));
}

fn messages(body: &[u8], limit: usize) -> (Vec<Vec<u8>>, Option<StreamError>, usize) {
    let mut codec = ProtobufLenPrefixCodec::new_with_max_length(limit);
    let mut buf = BytesMut::from(body);
    let mut out = Vec::new();
    loop {
        match codec.next_message(&mut buf) {
            Ok(Some(message)) => out.push(message.to_vec()),
            Ok(None) => return (out, None, buf.len()),
            Err(error) => return (out, Some(error), buf.len()),
        }
    }
}

/// A length may be written with more bytes than it needs; the message behind it is there all the
/// same, whatever its last byte is.
#[test]
fn a_padded_length_is_read() {
    let (found, error, left) = messages(&[0x85, 0x00, 1, 2, 3, 4, 0x85], usize::MAX);
    assert!(error.is_none());
    assert_eq!(found, vec![vec![1, 2, 3, 4, 0x85]]);
    assert_eq!(left, 0);
}

#[test]
fn a_length_that_is_cut_short_is_waited_for() {
    let (found, error, left) = messages(&[0x80; 9], usize::MAX);
    assert!(found.is_empty() && error.is_none());
    assert_eq!(left, 9);
}

#[test]
fn a_length_beyond_64_bits_is_refused() {
    let mut body = vec![0xff; 9];
    body.push(0x02);
    for body in [body, vec![0x80; 10], vec![0x80; 11]] {
        let (found, error, _) = messages(&body, usize::MAX);
        assert!(found.is_empty());
        let error = error.unwrap();
        assert_eq!(error.kind(), StreamErrorKind::CodecError);
        assert_eq!(error.message(), Some("invalid varint"));
    }
}

#[test]
fn the_longest_lengths_are_read() {
    // One byte short of overflowing: the largest number there is.
    let mut body = vec![0xff; 9];
    body.push(0x01);
    let (found, error, left) = messages(&body, usize::MAX);
    assert!(found.is_empty() && error.is_none());
    assert_eq!(left, 0);

    let (_, error, _) = messages(&body, usize::MAX - 1);
    assert_eq!(error.unwrap().kind(), StreamErrorKind::MaxLenReachedError);
}

#[test]
fn a_message_beyond_the_limit_is_refused() {
    let (found, error, _) = messages(&[3, 1, 2, 3, 4, 1, 2, 3, 4], 3);
    assert_eq!(found, vec![vec![1, 2, 3]]);
    let error = error.unwrap();
    assert_eq!(error.kind(), StreamErrorKind::MaxLenReachedError);
    assert_eq!(error.message(), Some("Max object length reached"));
}

#[test]
fn a_message_that_cannot_be_read_is_terminal() {
    let mut codec = ProtobufLenPrefixCodec::new_with_max_length(usize::MAX);
    let mut buf = BytesMut::from(&[1, 0xff][..]);
    let error = codec
        .decode(&mut buf, |message| Record::decode(message))
        .unwrap_err();
    assert_eq!(error.kind(), StreamErrorKind::CodecError);
    assert!(matches!(error.source(), Some(ErrorSource::Protobuf(_))));
}

#[test]
fn lengths_are_written_in_seven_bit_groups() {
    for (len, prefix) in [
        (0usize, vec![0x00]),
        (127, vec![0x7f]),
        (128, vec![0x80, 0x01]),
        (300, vec![0xac, 0x02]),
        (16384, vec![0x80, 0x80, 0x01]),
    ] {
        let mut buf = BytesMut::new();
        ProtobufEncoder.encode(vec![7; len], 0, &mut buf).unwrap();
        assert_eq!(&buf[..prefix.len()], &prefix[..]);
        assert_eq!(buf.len(), prefix.len() + len);
    }
}

fn schema() -> Arc<Schema> {
    Arc::new(Schema::new(vec![
        Field::new("id", DataType::Int32, false),
        Field::new("name", DataType::Utf8, false),
    ]))
}

fn batch(ids: Vec<i32>, names: Vec<&str>) -> RecordBatch {
    let id: ArrayRef = Arc::new(Int32Array::from(ids));
    let name: ArrayRef = Arc::new(StringArray::from(names));
    RecordBatch::try_new(schema(), vec![id, name]).unwrap()
}

fn batches() -> Vec<RecordBatch> {
    vec![
        batch(vec![1, 2], vec!["one", "two"]),
        batch(vec![3], vec!["three"]),
    ]
}

fn encode_batches(format: &ArrowRecordBatchIpcStreamFormat, batches: Vec<RecordBatch>) -> Vec<u8> {
    run(
        format.encoder(),
        batches.into_iter().map(|batch| ArrowBatch { batch }).collect(),
    )
}

fn decode_batches(
    bytes: &[u8],
    chunk_size: usize,
    options: &DecodeOptions,
) -> Vec<Result<RecordBatch, StreamError>> {
    let format = ArrowRecordBatchIpcStreamFormat::default_format();
    let mut framer: ArrowIpcCodec = format.framer(options);
    let mut buf = BytesMut::new();
    let mut out = Vec::new();
    for chunk in bytes.chunks(chunk_size).map(Some).chain([None]) {
        buf.extend_from_slice(chunk.unwrap_or(&[]));
        loop {
            let found = match chunk {
                Some(_) => framer.decode(&mut buf),
                None => framer.decode_eof(&mut buf),
            };
            match found {
                Ok(Some(item)) => out.push(item.map(|found| found.batch)),
                Ok(None) => break,
                Err(error) => {
                    out.push(Err(error));
                    return out;
                }
            }
        }
    }
    out
}

fn unwrap_batches(results: Vec<Result<RecordBatch, StreamError>>) -> Vec<RecordBatch> {
    results
        .into_iter()
        .map(|r| r.expect("decoding must not fail"))
        .collect()
}

/// The stream must end with the continuation marker and a zero length.
#[test]
fn ends_with_the_continuation_marker() {
    let format = ArrowRecordBatchIpcStreamFormat::new(schema());
    let bytes = encode_batches(&format, batches());

    assert_eq!(
        &bytes[bytes.len() - 8..],
        &[0xff, 0xff, 0xff, 0xff, 0, 0, 0, 0],
        "an Arrow IPC stream must be terminated"
    );
}

#[test]
fn round_trips_whole() {
    let format = ArrowRecordBatchIpcStreamFormat::new(schema());
    let bytes = encode_batches(&format, batches());
    let decoded = unwrap_batches(decode_batches(&bytes, bytes.len(), &DecodeOptions::new()));
    assert_eq!(decoded, batches());
}

/// Small chunk sizes only: Arrow bodies are large, and splitting at every one of several
/// thousand offsets would dominate the suite's runtime without testing anything new.
#[test]
fn round_trips_across_chunk_boundaries() {
    let format = ArrowRecordBatchIpcStreamFormat::new(schema());
    let bytes = encode_batches(&format, batches());

    for chunk_size in [1, 2, 3, 5, 7, 8, 13, 64, 127, 256] {
        if chunk_size > bytes.len() {
            continue;
        }
        let decoded = unwrap_batches(decode_batches(&bytes, chunk_size, &DecodeOptions::new()));
        assert_eq!(decoded, batches(), "failed at chunk size {chunk_size}");
    }
}

/// The per-object limit counts a record's own bytes, not the buffer it arrived in.
///
/// This body is 63 chunks, so a total that grew quadratically would be roughly 15 MB against a
/// 600 KB limit.
#[test]
fn a_large_batch_does_not_trip_a_far_larger_limit() {
    let schema = Arc::new(Schema::new(vec![Field::new("v", DataType::Int32, false)]));
    let values: Vec<i32> = (0..125_000).collect();
    let col: ArrayRef = Arc::new(Int32Array::from(values));
    let batch = RecordBatch::try_new(schema.clone(), vec![col]).unwrap();

    let format = ArrowRecordBatchIpcStreamFormat::new(schema);
    let enc = encode_batches(&format, vec![batch.clone()]);

    // 8 KiB chunks, exactly what a real HTTP body delivers.
    let o = DecodeOptions::new().max_obj_len(600 * 1024);
    let got = decode_batches(&enc, 8 * 1024, &o);

    for r in &got {
        if let Err(e) = r {
            println!("ERROR: {e:?}");
        }
    }
    let ok: Vec<_> = got.into_iter().filter_map(|r| r.ok()).collect();
    assert_eq!(
        ok.len(),
        1,
        "the batch must decode: linear accounting stays under the limit, quadratic would not"
    );
    assert_eq!(ok, vec![batch]);
}

/// However it arrives.
#[test]
fn a_batch_beyond_the_limit_is_refused() {
    let format = ArrowRecordBatchIpcStreamFormat::new(schema());
    let bytes = encode_batches(&format, batches());
    for chunk_size in [1, 64, bytes.len()] {
        let got = decode_batches(&bytes, chunk_size, &DecodeOptions::new().max_obj_len(100));
        assert_eq!(got.len(), 1);
        let error = got.into_iter().next().unwrap().unwrap_err();
        assert_eq!(error.kind(), StreamErrorKind::MaxLenReachedError);
        assert_eq!(
            error.message(),
            Some("Object length exceeds the maximum length")
        );
    }
}

#[test]
fn what_is_no_arrow_stream_is_refused() {
    let mut codec = ArrowIpcCodec::new_with_max_length(usize::MAX);
    let mut buf = BytesMut::from(&[8, 0, 0, 0, 1, 2, 3, 4, 5, 6, 7, 8, 9][..]);
    let error = codec.decode(&mut buf).unwrap_err();
    assert_eq!(error.kind(), StreamErrorKind::CodecError);
    assert_eq!(error.message(), Some("Decode arrow IPC record error"));
    assert!(matches!(error.source(), Some(ErrorSource::Arrow(_))));
}

/// The schema goes ahead of the first batch and nowhere else, whatever options are in force.
#[test]
fn the_schema_is_written_once() {
    let options = arrow::ipc::writer::IpcWriteOptions::default();
    let format = ArrowRecordBatchIpcStreamFormat::with_options(schema(), options);
    let mut encoder = format.encoder();
    let item = || ArrowBatch {
        batch: batch(vec![1, 2], vec!["one", "two"]),
    };
    let mut first = BytesMut::new();
    encoder.encode(item(), 0, &mut first).unwrap();
    let mut second = BytesMut::new();
    encoder.encode(item(), 1, &mut second).unwrap();
    assert!(first.len() > second.len());
    assert!(first.ends_with(&second));
}

/// No delimiter, so these two inputs are indistinguishable on the wire.
#[test]
fn writes_raw_bytes_with_no_delimiter() {
    let a = run(
        TextStreamFormat::new().encoder(),
        vec!["ab".to_string(), "c".to_string()],
    );
    let b = run(
        TextStreamFormat::new().encoder(),
        vec!["a".to_string(), "bc".to_string()],
    );

    assert_eq!(String::from_utf8(a.clone()).unwrap(), "abc");
    assert_eq!(
        a, b,
        "different item boundaries produce identical bytes, which is why there is no decoder"
    );

    let c = run(TextEncoder, vec!["é".to_string(), "🎉".to_string()]);
    assert_eq!(String::from_utf8(c).unwrap(), "é🎉");
}

/// A batch without rows is a message without a body: nothing of the next chunk has to be read for
/// it.
#[test]
fn batches_without_rows_survive_every_chunk_boundary() {
    let format = ArrowRecordBatchIpcStreamFormat::new(schema());
    let sent = vec![batch(vec![], vec![]), batch(vec![7], vec!["x"]), batch(vec![], vec![])];
    let bytes = encode_batches(&format, sent.clone());
    for chunk_size in 1..=bytes.len() {
        let found: Vec<RecordBatch> = decode_batches(&bytes, chunk_size, &DecodeOptions::new())
            .into_iter()
            .map(|found| found.unwrap())
            .collect();
        assert_eq!(found, sent, "failed at chunk size {chunk_size}");
    }
}

#[test]
fn a_message_is_appended_even_where_it_failed() {
    let mut buf = BytesMut::from(&b"ab"[..]);
    assert!(append_message(&mut buf, b"cd", Ok(())).is_ok());
    let failed = Err(arrow::error::ArrowError::MemoryError("full".to_string()));
    let error = append_message(&mut buf, b"e", failed).unwrap_err();
    assert_eq!(error.kind(), StreamErrorKind::CodecError);
    assert!(matches!(error.source(), Some(ErrorSource::Arrow(_))));
    assert_eq!(&buf[..], b"abcde");
}
