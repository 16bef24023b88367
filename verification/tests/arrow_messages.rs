//! Which Arrow IPC messages are read, and which are refused.

use arrow::array::{
    Array, ArrayRef, BinaryViewArray, BooleanArray, DictionaryArray, FixedSizeBinaryArray,
    FixedSizeListArray, Int32Array, Int64Array, LargeStringArray, ListArray, ListViewArray,
    MapArray, NullArray, RecordBatch, RunArray, StringArray, StringViewArray, StructArray,
    UnionArray,
};
use arrow::buffer::{OffsetBuffer, ScalarBuffer};
use arrow::datatypes::{DataType, Field, Fields, Int32Type, Int8Type, Schema, UnionFields, UnionMode};
use arrow::ipc::root_as_message;
use arrow::ipc::writer::{
    write_message, DictionaryHandling, DictionaryTracker, IpcDataGenerator,
    IpcWriteOptions,
};
use bytes::BytesMut;
use http_streams_core::arrow_fields::{
    FieldHead, FieldShape, Form, FIXED_SIZE_BINARY, INT, LIST, LIST_VIEW, MAP, NULL,
    RUN_END_ENCODED, STRUCT, UNION, UTF8, UTF8_VIEW,
};
use http_streams_core::arrow_metadata::{fits_batch, fits_schema, weigh_pairs};
use http_streams_core::arrow_message::{
    front_message, front_prefix, BatchLayout, Extent, Front, MessageHead, VERSION_FIVE,
};
use http_streams_core::{
    ArrowBatch, ArrowIpcCodec, ArrowRecordBatchIpcStreamFormat, ErrorSource, ItemEncoder,
    StreamError, StreamErrorKind, StreamFormatEncode,
};
use std::sync::Arc;

const END: [u8; 8] = [0xff, 0xff, 0xff, 0xff, 0, 0, 0, 0];

fn encode(options: IpcWriteOptions, batches: &[RecordBatch]) -> Vec<u8> {
    let schema = batches[0].schema();
    let format = ArrowRecordBatchIpcStreamFormat::with_options(schema, options);
    let mut encoder = format.encoder();
    let mut buf = BytesMut::new();
    for (index, batch) in batches.iter().enumerate() {
        let item = ArrowBatch {
            batch: batch.clone(),
        };
        encoder.encode(item, index as u64, &mut buf).unwrap();
    }
    encoder.epilogue(&mut buf).unwrap();
    buf.to_vec()
}

fn decode(bytes: &[u8], chunk_size: usize, limit: usize) -> (Vec<RecordBatch>, Option<StreamError>) {
    let mut codec = ArrowIpcCodec::new_with_max_length(limit);
    let mut buf = BytesMut::new();
    let mut found = Vec::new();
    for chunk in bytes.chunks(chunk_size) {
        buf.extend_from_slice(chunk);
        loop {
            match codec.decode(&mut buf) {
                Ok(Some(batch)) => found.push(batch.unwrap().batch),
                Ok(None) => break,
                Err(error) => return (found, Some(error)),
            }
        }
    }
    assert!(codec.decode_eof(&mut buf).unwrap().is_none());
    (found, None)
}

/// The messages of a stream, each with its prefix and its body.
fn messages(mut bytes: &[u8]) -> Vec<Vec<u8>> {
    let mut found = Vec::new();
    while bytes != &END[..] {
        let size = u32::from_le_bytes(bytes[4..8].try_into().unwrap()) as usize;
        let message = root_as_message(&bytes[8..8 + size]).unwrap();
        let len = 8 + size + message.bodyLength() as usize;
        found.push(bytes[..len].to_vec());
        bytes = &bytes[len..];
    }
    found
}

/// Where each buffer of a batch message is, and how long it is.
fn buffers(message: &[u8]) -> Vec<(i64, i64)> {
    let size = u32::from_le_bytes(message[4..8].try_into().unwrap()) as usize;
    let message = root_as_message(&message[8..8 + size]).unwrap();
    let batch = message.header_as_record_batch().unwrap();
    let found = batch.buffers().unwrap();
    found.iter().map(|buffer| (buffer.offset(), buffer.length())).collect()
}

/// Two numbers side by side in the metadata, replaced wherever they stand.
fn patch(message: &[u8], from: (i64, i64), to: (i64, i64)) -> Vec<u8> {
    let pair = |(a, b): (i64, i64)| [a.to_le_bytes(), b.to_le_bytes()].concat();
    let size = u32::from_le_bytes(message[4..8].try_into().unwrap()) as usize;
    let mut patched = message.to_vec();
    let mut count = 0;
    for at in 8..8 + size - 15 {
        if patched[at..at + 16] == pair(from)[..] {
            patched[at..at + 16].copy_from_slice(&pair(to));
            count += 1;
        }
    }
    assert!(count > 0, "{from:?} is not there");
    patched
}

fn one_column(name: &str, column: ArrayRef) -> RecordBatch {
    let field = Field::new(name, column.data_type().clone(), true);
    RecordBatch::try_new(Arc::new(Schema::new(vec![field])), vec![column]).unwrap()
}

fn refused(parts: &[&[u8]]) {
    let body = parts.concat();
    for chunk_size in [1, 64, body.len()] {
        let (found, error) = decode(&body, chunk_size, usize::MAX);
        assert!(found.is_empty());
        let error = error.expect("it must be refused");
        assert_eq!(error.kind(), StreamErrorKind::CodecError);
        assert_eq!(error.message(), Some("Decode arrow IPC record error"));
        assert_eq!(ipc_text(&error), "Malformed message");
    }
}

fn ipc_text(error: &StreamError) -> &str {
    match error.source() {
        Some(ErrorSource::Arrow(arrow::error::ArrowError::IpcError(text))) => text,
        other => panic!("unexpected source {other:?}"),
    }
}

fn union(dense: bool) -> UnionArray {
    let fields = UnionFields::try_new(
        vec![0, 1],
        vec![
            Field::new("number", DataType::Int32, true),
            Field::new("text", DataType::Utf8, true),
        ],
    )
    .unwrap();
    let (offsets, numbers, texts): (_, Vec<i32>, Vec<&str>) = if dense {
        (Some(ScalarBuffer::from(vec![0, 0, 1])), vec![7, 8], vec!["x"])
    } else {
        (None, vec![7, 0, 8], vec!["", "x", ""])
    };
    UnionArray::try_new(
        fields,
        ScalarBuffer::from(vec![0i8, 1, 0]),
        offsets,
        vec![
            Arc::new(Int32Array::from(numbers)),
            Arc::new(StringArray::from(texts)),
        ],
    )
    .unwrap()
}

fn columns() -> Vec<ArrayRef> {
    let numbers = || -> ArrayRef { Arc::new(Int32Array::from(vec![Some(1), None, Some(3)])) };
    let item = || Arc::new(Field::new_list_field(DataType::Int32, true));
    let entry = Fields::from(vec![
        Field::new("keys", DataType::Utf8, false),
        Field::new("values", DataType::Int32, true),
    ]);
    let entries = StructArray::new(
        entry.clone(),
        vec![Arc::new(StringArray::from(vec!["a", "b", "c"])), numbers()],
        None,
    );
    let words: DictionaryArray<Int8Type> = vec!["one", "two", "one"].into_iter().collect();
    let runs = Int32Array::from(vec![2, 3]);
    let run_array =
        RunArray::<Int32Type>::try_new(&runs, &StringArray::from(vec!["p", "q"])).unwrap();
    vec![
        numbers(),
        Arc::new(Int64Array::from(vec![1, 2, 3])),
        Arc::new(BooleanArray::from(vec![Some(true), None, Some(false)])),
        Arc::new(NullArray::new(3)),
        Arc::new(StringArray::from(vec![Some("a"), None, Some("ccc")])),
        Arc::new(LargeStringArray::from(vec!["a", "bb", ""])),
        Arc::new(StringViewArray::from(vec![
            "short",
            "a text that is too long to stand in its view",
            "",
        ])),
        Arc::new(BinaryViewArray::from(vec![&b"x"[..], b"", b"yz"])),
        Arc::new(
            FixedSizeBinaryArray::try_from_iter(vec![vec![1, 2], vec![3, 4], vec![5, 6]].into_iter())
                .unwrap(),
        ),
        Arc::new(ListArray::new(
            item(),
            OffsetBuffer::new(vec![0, 2, 2, 3].into()),
            numbers(),
            None,
        )),
        Arc::new(ListViewArray::new(
            item(),
            vec![0, 1, 0].into(),
            vec![2, 2, 0].into(),
            numbers(),
            None,
        )),
        Arc::new(FixedSizeListArray::new(item(), 1, numbers(), None)),
        Arc::new(MapArray::new(
            Arc::new(Field::new("entries", DataType::Struct(entry.clone()), false)),
            OffsetBuffer::new(vec![0, 1, 2, 3].into()),
            entries.clone(),
            None,
            false,
        )),
        Arc::new(entries),
        Arc::new(words),
        Arc::new(
            DictionaryArray::<Int8Type>::try_new(vec![1, 0, 2].into(), Arc::new(union(true))).unwrap(),
        ),
        Arc::new(
            DictionaryArray::<Int8Type>::try_new(vec![1, 0, 2].into(), Arc::new(union(false))).unwrap(),
        ),
        Arc::new(run_array),
        Arc::new(union(false)),
        Arc::new(union(true)),
    ]
}

/// Every type of column reads back, alone and beside the others, however the body is cut.
#[test]
fn every_type_of_column_reads_back() {
    let mut batches: Vec<RecordBatch> =
        columns().into_iter().map(|column| one_column("c", column)).collect();
    let fields: Vec<Field> = columns()
        .iter()
        .enumerate()
        .map(|(i, column)| Field::new(format!("c{i}"), column.data_type().clone(), true))
        .collect();
    batches.push(RecordBatch::try_new(Arc::new(Schema::new(fields)), columns()).unwrap());
    for batch in batches {
        let sent = vec![batch.clone(), batch];
        let bytes = encode(IpcWriteOptions::default(), &sent);
        for chunk_size in [1, 7, 64, 1000, bytes.len()] {
            let (found, error) = decode(&bytes, chunk_size, usize::MAX);
            assert!(error.is_none(), "{:?}: {error:?}", sent[0].schema());
            assert_eq!(found, sent);
        }
    }
}

#[test]
fn a_buffer_outside_of_the_body_is_refused() {
    let batch = one_column("c", Arc::new(Int32Array::from(vec![1, 2, 3])));
    let parts = messages(&encode(IpcWriteOptions::default(), &[batch]));
    let (schema, message) = (&parts[0], &parts[1]);
    let (offset, len) = buffers(message)[1];
    for place in [
        (offset + 1_000_000, len),
        (offset, len + 1_000_000),
        (-64, len),
        (offset, -1),
        (i64::MAX, i64::MAX),
    ] {
        refused(&[schema, &patch(message, (offset, len), place)]);
    }
    let (found, error) = decode(&[&schema[..], message].concat(), 64, usize::MAX);
    assert!(error.is_none());
    assert_eq!(found.len(), 1);
}

#[test]
fn a_buffer_of_broken_elements_is_refused() {
    let batch = one_column("c", Arc::new(StringArray::from(vec!["a", "bc"])));
    let parts = messages(&encode(IpcWriteOptions::default(), &[batch]));
    let (offset, len) = buffers(&parts[1])[1];
    refused(&[&parts[0], &patch(&parts[1], (offset, len), (offset, len - 1))]);
}

/// The numbers and the places of a union are as many as its elements, and stand where integers can.
#[test]
fn a_union_that_is_too_short_is_refused() {
    for dense in [false, true] {
        let parts = messages(&encode(
            IpcWriteOptions::default(),
            &[one_column("c", Arc::new(union(dense)))],
        ));
        refused(&[&parts[0], &patch(&parts[1], (3, 0), (3_000, 0))]);
        if dense {
            let (offset, len) = buffers(&parts[1])[1];
            refused(&[&parts[0], &patch(&parts[1], (offset, len), (offset, len - 1))]);
            refused(&[&parts[0], &patch(&parts[1], (offset, len), (offset + 1, len))]);
        }
    }
}

#[test]
fn a_list_of_too_many_items_is_refused() {
    let nulls: ArrayRef = Arc::new(NullArray::new(21));
    let item = Arc::new(Field::new_list_field(DataType::Null, true));
    let lists = FixedSizeListArray::new(item, 3, nulls, None);
    let parts = messages(&encode(
        IpcWriteOptions::default(),
        &[one_column("c", Arc::new(lists))],
    ));
    refused(&[&parts[0], &patch(&parts[1], (7, 0), (i64::MAX, 0))]);
    refused(&[&parts[0], &patch(&parts[1], (7, 0), (-7, 0))]);
}

fn schema_message(field: Field) -> Vec<u8> {
    let options = IpcWriteOptions::default();
    let mut tracker = DictionaryTracker::new(false);
    let message = IpcDataGenerator::default().schema_to_bytes_with_dictionary_tracker(
        &Schema::new(vec![field]),
        &mut tracker,
        &options,
    );
    let mut bytes = Vec::new();
    write_message(&mut bytes, message, &options).unwrap();
    bytes
}

#[test]
fn a_schema_that_cannot_be_read_is_refused() {
    let item = || Arc::new(Field::new_list_field(DataType::Int32, true));
    let variants = UnionFields::try_new(vec![0], vec![Field::new("a", DataType::Int32, true)]).unwrap();
    let union = || DataType::Union(variants.clone(), UnionMode::Sparse);
    for kind in [
        DataType::FixedSizeBinary(-1),
        DataType::FixedSizeList(item(), -1),
        DataType::Struct(Fields::from(vec![Field::new(
            "inner",
            DataType::FixedSizeBinary(-1),
            true,
        )])),
        DataType::RunEndEncoded(
            Arc::new(Field::new("run_ends", DataType::Utf8, false)),
            Arc::new(Field::new("values", DataType::Utf8, true)),
        ),
        DataType::Map(Arc::new(Field::new("entries", DataType::Int32, false)), false),
    ] {
        refused(&[&schema_message(Field::new("c", kind, true))]);
    }
    let sound = schema_message(Field::new("c", union(), true));
    let (found, error) = decode(&sound, 5, usize::MAX);
    assert!(found.is_empty() && error.is_none());
}

/// Values of a dictionary are held to the type that the schema gives them, and may be appended to.
#[test]
fn a_dictionary_grows() {
    let kind = DataType::Dictionary(Box::new(DataType::Int8), Box::new(DataType::Utf8));
    let schema = Arc::new(Schema::new(vec![Field::new("c", kind, true)]));
    let batch = |keys: Vec<i8>, words: Vec<&str>| {
        let words = Arc::new(StringArray::from(words));
        let column = DictionaryArray::<Int8Type>::try_new(keys.into(), words).unwrap();
        RecordBatch::try_new(schema.clone(), vec![Arc::new(column)]).unwrap()
    };
    let sent = vec![
        batch(vec![0, 1, 0], vec!["one", "two"]),
        batch(vec![2, 1], vec!["one", "two", "three"]),
    ];
    let options = IpcWriteOptions::default().with_dictionary_handling(DictionaryHandling::Delta);
    let bytes = encode(options, &sent);
    let parts = messages(&bytes);
    assert_eq!(parts.len(), 5);
    for chunk_size in [1, 100, bytes.len()] {
        let (found, error) = decode(&bytes, chunk_size, usize::MAX);
        assert!(error.is_none(), "{error:?}");
        assert_eq!(found, sent);
    }
    let size = u32::from_le_bytes(parts[1][4..8].try_into().unwrap()) as usize;
    let message = root_as_message(&parts[1][8..8 + size]).unwrap();
    let values = message.header_as_dictionary_batch().unwrap().data().unwrap();
    let offsets = values.buffers().unwrap().get(1);
    let place = (offsets.offset(), offsets.length());
    refused(&[&parts[0], &patch(&parts[1], place, (place.0, place.1 - 1))]);
}

/// Encodes `values`, of which the second have the first at their front.
fn growing(values: [ArrayRef; 2]) -> Vec<RecordBatch> {
    let kind = DataType::Dictionary(
        Box::new(DataType::Int8),
        Box::new(values[0].data_type().clone()),
    );
    let schema = Arc::new(Schema::new(vec![Field::new("c", kind, true)]));
    values
        .into_iter()
        .map(|values| {
            let keys: Vec<i8> = (0..values.len() as i8).collect();
            let column = DictionaryArray::<Int8Type>::try_new(keys.into(), values).unwrap();
            RecordBatch::try_new(schema.clone(), vec![Arc::new(column)]).unwrap()
        })
        .collect()
}

/// Dictionaries of nested values grow too.
#[test]
fn a_dictionary_of_nested_values_grows() {
    let item = Arc::new(Field::new_list_field(DataType::Int32, true));
    let numbers = |count: i32| Arc::new(Int32Array::from((0..count).collect::<Vec<i32>>()));
    let lists = |ends: Vec<i32>| -> ArrayRef {
        let values = numbers(ends[ends.len() - 1]);
        Arc::new(ListArray::new(item.clone(), OffsetBuffer::new(ends.into()), values, None))
    };
    let fields = Fields::from(vec![Field::new("n", DataType::Int32, true)]);
    let structs = |count| -> ArrayRef {
        Arc::new(StructArray::new(fields.clone(), vec![numbers(count)], None))
    };
    let fixed = |count| -> ArrayRef {
        Arc::new(FixedSizeListArray::new(item.clone(), 2, numbers(2 * count), None))
    };
    for values in [
        [lists(vec![0, 1, 3]), lists(vec![0, 1, 3, 4])],
        [structs(2), structs(3)],
        [fixed(2), fixed(4)],
    ] {
        let sent = growing(values);
        let options =
            IpcWriteOptions::default().with_dictionary_handling(DictionaryHandling::Delta);
        let bytes = encode(options, &sent);
        assert_eq!(messages(&bytes).len(), 5);
        for chunk_size in [1, 100, bytes.len()] {
            let (found, error) = decode(&bytes, chunk_size, usize::MAX);
            assert!(error.is_none(), "{error:?}");
            assert_eq!(found, sent);
        }
    }
}

/// Nested values are appended while there is room for all of them, and neither unions nor
/// dictionaries are among them.
#[test]
fn nested_values_are_appended_while_there_is_room() {
    let list = FieldShape {
        form: Form::Plain {
            count: 2,
            second: 4,
            third: 1,
        },
        dictionary: Some((5, 1)),
        extends: false,
        size: 2,
    };
    let numbers = shape(Form::Plain {
        count: 2,
        second: 4,
        third: 1,
    });
    let layout = |compressed| BatchLayout {
        nodes: vec![1, 3],
        buffers: vec![(0, 0), (0, 8), (8, 0), (8, 12)],
        variadic: vec![],
        compressed,
    };
    let message = [0u8; 20];
    let check = |inner, room, appends| {
        let shapes = [list, inner];
        layout(false).check(VERSION_FIVE, &message, 0, &shapes, room, Some((5, appends)))
    };
    assert!(check(numbers, None, false));
    assert!(!check(numbers, None, true));
    assert!(!check(numbers, Some(23), true));
    assert!(check(numbers, Some(24), true));
    let encoded = FieldShape {
        dictionary: Some((6, 4)),
        ..numbers
    };
    assert!(check(encoded, Some(24), false));
    assert!(!check(encoded, Some(24), true));
    assert_eq!(layout(false).room_left(&message, 0, Some(30)), Some(6));
    assert_eq!(layout(false).room_left(&message, 8, Some(30)), Some(14));
    assert_eq!(layout(false).room_left(&message, 0, Some(23)), None);
    assert_eq!(layout(false).room_left(&message, 0, None), None);
    let huge = BatchLayout {
        nodes: vec![i64::MAX, i64::MAX, i64::MAX, -1],
        ..layout(false)
    };
    assert_eq!(huge.room_left(&message, 0, Some(u64::MAX)), None);
}

/// A schema has no limit, though batches have.
#[test]
fn a_schema_may_be_longer_than_the_limit() {
    let name = "a column ".repeat(500);
    let batch = one_column(&name, Arc::new(Int32Array::from(vec![1, 2])));
    let bytes = encode(IpcWriteOptions::default(), &[batch.clone()]);
    let parts = messages(&bytes);
    assert!(parts[0].len() > parts[1].len());
    for chunk_size in [1, 64, bytes.len()] {
        let (found, error) = decode(&bytes, chunk_size, parts[1].len());
        assert!(error.is_none());
        assert_eq!(found, vec![batch.clone()]);
        let (found, error) = decode(&bytes, chunk_size, parts[1].len() - 1);
        assert!(found.is_empty());
        assert_eq!(error.unwrap().kind(), StreamErrorKind::MaxLenReachedError);
    }
}

/// Integers need not fill their buffer to the last byte, unless runs end at them.
#[test]
fn a_buffer_of_integers_may_be_longer() {
    let batch = one_column("c", Arc::new(Int32Array::from(vec![1, 2])));
    let parts = messages(&encode(IpcWriteOptions::default(), &[batch.clone()]));
    let (offset, len) = buffers(&parts[1])[1];
    let longer = patch(&parts[1], (offset, len), (offset, len + 1));
    let (found, error) = decode(&[&parts[0][..], &longer].concat(), 64, usize::MAX);
    assert!(error.is_none(), "{error:?}");
    assert_eq!(found, vec![batch]);
    let runs = RunArray::<Int32Type>::try_new(
        &Int32Array::from(vec![2, 3]),
        &Int32Array::from(vec![7, 8]),
    )
    .unwrap();
    let parts = messages(&encode(IpcWriteOptions::default(), &[one_column("c", Arc::new(runs))]));
    let (offset, len) = buffers(&parts[1])[1];
    refused(&[&parts[0], &patch(&parts[1], (offset, len), (offset, len + 1))]);
}

/// The schema ahead of the first batch does not count towards it, however the body is cut.
#[test]
fn the_limit_counts_the_message_of_a_batch() {
    let batch = one_column("c", Arc::new(Int32Array::from((0..500).collect::<Vec<i32>>())));
    let bytes = encode(IpcWriteOptions::default(), &[batch.clone(), batch.clone()]);
    let parts = messages(&bytes);
    let len = parts[1].len();
    assert!(parts[0].len() <= len);
    for chunk_size in [1, 64, len, bytes.len()] {
        let (found, error) = decode(&bytes, chunk_size, len);
        assert!(error.is_none());
        assert_eq!(found, vec![batch.clone(), batch.clone()]);
        let (found, error) = decode(&bytes, chunk_size, len - 1);
        assert!(found.is_empty());
        let error = error.unwrap();
        assert_eq!(error.kind(), StreamErrorKind::MaxLenReachedError);
        assert_eq!(error.message(), Some("Object length exceeds the maximum length"));
    }
}

#[test]
fn nothing_follows_the_end_of_an_arrow_stream() {
    let batch = one_column("c", Arc::new(Int32Array::from(vec![1])));
    let bytes = encode(IpcWriteOptions::default(), &[batch.clone()]);
    for chunk_size in [1, 64, 4096] {
        assert!(decode(&bytes, chunk_size, usize::MAX).1.is_none());
        let (found, error) = decode(&[&bytes[..], b"x"].concat(), chunk_size, usize::MAX);
        assert_eq!(found, vec![batch.clone()]);
        let error = error.unwrap();
        assert_eq!(error.kind(), StreamErrorKind::CodecError);
        assert_eq!(ipc_text(&error), "Unexpected EOS");
    }
}

#[test]
fn a_failed_arrow_codec_reads_no_more() {
    let batch = one_column("c", Arc::new(Int32Array::from(vec![1])));
    let bytes = encode(IpcWriteOptions::default(), &[batch]);
    let parts = messages(&bytes);
    let mut codec = ArrowIpcCodec::new_with_max_length(usize::MAX);
    let mut buf = BytesMut::from(&parts[1][..]);
    let error = codec.decode(&mut buf).unwrap_err();
    assert_eq!(error.kind(), StreamErrorKind::CodecError);
    assert!(matches!(error.source(), Some(ErrorSource::Arrow(_))));
    let mut buf = BytesMut::from(&bytes[..]);
    let error = codec.decode(&mut buf).unwrap_err();
    assert_eq!(error.kind(), StreamErrorKind::CodecError);
    assert_eq!(ipc_text(&error), "Unexpected EOS");
}

/// A batch that is read leaves the codec as it was; a failure closes it.
#[test]
fn what_the_decoder_returned_is_settled() {
    let batch = one_column("c", Arc::new(Int32Array::from(vec![1])));
    let mut codec = ArrowIpcCodec::new_with_max_length(10);
    let mut buf = BytesMut::from(&b"abcdef"[..]);
    let item = ArrowBatch {
        batch: batch.clone(),
    };
    let found = codec.settle(Ok(Some(item)), 2, &mut buf).unwrap().unwrap().unwrap();
    assert_eq!(found.batch, batch);
    assert_eq!(&buf[..], b"cdef");
    assert!(codec.settle(Ok(None), 1, &mut buf).unwrap().is_none());
    assert_eq!(&buf[..], b"def");
    let failure = arrow::error::ArrowError::MemoryError("full".to_string());
    let error = codec.settle(Err(failure), 1, &mut buf).unwrap_err();
    assert_eq!(error.message(), Some("Decode arrow IPC record error"));
    assert_eq!(&buf[..], b"def");
    assert_eq!(
        codec.decode(&mut buf).unwrap_err().kind(),
        StreamErrorKind::CodecError
    );
}

#[test]
fn a_message_can_be_older_than_its_marker() {
    let batch = one_column("c", Arc::new(Int32Array::from(vec![1, 2])));
    let bytes = encode(IpcWriteOptions::default(), &[batch.clone()]);
    let mut old = Vec::new();
    for message in messages(&bytes) {
        old.extend_from_slice(&message[4..]);
    }
    old.extend_from_slice(&[0, 0, 0, 0]);
    for chunk_size in [1, 3, old.len()] {
        let (found, error) = decode(&old, chunk_size, usize::MAX);
        assert!(error.is_none());
        assert_eq!(found, vec![batch.clone()]);
    }
}

fn head(tag: u8) -> FieldHead {
    FieldHead {
        tag,
        integer: None,
        width: None,
        items: None,
        variants: None,
        dictionary: None,
    }
}

fn shape(form: Form) -> FieldShape {
    FieldShape {
        form,
        dictionary: None,
        extends: true,
        size: 1,
    }
}

#[test]
fn a_type_says_which_buffers_it_has() {
    assert!(matches!(head(NULL).buffers(), Form::Plain { count: 0, .. }));
    assert!(matches!(head(STRUCT).buffers(), Form::Plain { count: 1, .. }));
    let long = FieldHead {
        integer: Some((64, true)),
        ..head(INT)
    };
    assert!(matches!(long.buffers(), Form::Plain { count: 2, second: 1, .. }));
    assert!(matches!(long.run_end_buffers(), Form::Plain { count: 2, second: 8, .. }));
    assert!(long.can_end_runs());
    assert!(!head(INT).can_end_runs());
    assert!(matches!(head(UTF8).buffers(), Form::Plain { count: 3, second: 4, third: 1 }));
    assert!(matches!(head(LIST_VIEW).buffers(), Form::Plain { count: 3, second: 4, third: 4 }));
    assert!(matches!(head(UTF8_VIEW).buffers(), Form::Views));
    let sparse = FieldHead {
        variants: Some((0, true)),
        ..head(UNION)
    };
    assert!(matches!(sparse.buffers(), Form::Variants { dense: false }));
    assert!(sparse.nests() && !sparse.can_extend());
    assert!(head(UTF8).can_extend() && !head(NULL).can_extend());
}

#[test]
fn a_type_says_whether_it_can_be_read() {
    let short = |width| FieldHead {
        width: Some(width),
        ..head(FIXED_SIZE_BINARY)
    };
    assert!(short(0).can_be_read(0, None));
    assert!(!short(-1).can_be_read(0, None));
    let numbered = |numbered| FieldHead {
        variants: Some((1, numbered)),
        ..head(UNION)
    };
    assert!(numbered(false).can_be_read(128, None));
    assert!(!numbered(false).can_be_read(129, None));
    assert!(numbered(true).can_be_read(129, None));
    assert!(head(MAP).can_be_read(1, Some((head(STRUCT), 2))));
    assert!(!head(MAP).can_be_read(1, Some((head(STRUCT), 3))));
    assert!(!head(MAP).can_be_read(1, Some((head(LIST), 2))));
    assert!(!head(MAP).can_be_read(0, None));
    assert!(!head(RUN_END_ENCODED).can_be_read(2, Some((head(INT), 0))));
}

#[test]
fn the_start_of_a_message_is_waited_for() {
    assert_eq!(front_prefix(&[1, 2, 0]), None);
    assert_eq!(front_prefix(&[1, 2, 0, 0]), Some((4, 513)));
    assert_eq!(front_prefix(&END[..7]), None);
    assert_eq!(front_prefix(&END), Some((8, 0)));
    assert!(matches!(front_message(&[], None, 100, &END), Front::End { len: 8 }));
    assert!(matches!(front_message(&[], None, 0, &[0; 4]), Front::End { len: 4 }));
    assert!(matches!(front_message(&[], None, 100, &[97, 0, 0, 0]), Front::Part));
    let schema = MessageHead {
        header: 1,
        version: VERSION_FIVE,
        body_len: 93,
    };
    assert!(matches!(schema.extent(8, 100, 8), Extent::Part));
    assert!(matches!(schema.extent(8, 100, 101), Extent::Whole { len: 101 }));
    let head = |body_len| MessageHead {
        header: 3,
        version: VERSION_FIVE,
        body_len,
    };
    assert!(matches!(head(-1).extent(8, 100, 8), Extent::Unsound));
    assert!(matches!(head(0).extent(101, 100, 101), Extent::TooLong));
    assert!(matches!(head(93).extent(8, 100, 8), Extent::TooLong));
    assert!(matches!(head(i64::MAX).extent(8, 100, 8), Extent::TooLong));
    assert!(matches!(head(92).extent(8, 100, 99), Extent::Part));
    assert!(matches!(head(92).extent(8, 100, 100), Extent::Whole { len: 100 }));
}

/// A compressed buffer says how long it is once it is decompressed.
#[test]
fn a_body_is_held_to_its_layout() {
    let layout = |buffers: Vec<(i64, i64)>, compressed| BatchLayout {
        nodes: vec![2],
        buffers,
        variadic: vec![1],
        compressed,
    };
    let check = |layout: BatchLayout, form, message: &[u8]| {
        layout.check(VERSION_FIVE, message, 4, &[shape(form)], None, None)
    };
    let pairs = Form::Plain {
        count: 2,
        second: 4,
        third: 1,
    };
    let message = [0u8; 20];
    assert!(check(layout(vec![(0, 0), (0, 16)], false), pairs, &message));
    assert!(!check(layout(vec![(0, 0), (0, 17)], false), pairs, &message));
    assert!(!check(layout(vec![(0, 0), (0, 14)], false), pairs, &message));
    assert!(!check(layout(vec![(0, 0)], false), pairs, &message));
    let mut compressed = [0u8; 20];
    for (first, sound) in [(8i64, true), (7, false), (-1, true), (-2, false), (0, true)] {
        compressed[4..12].copy_from_slice(&first.to_le_bytes());
        assert_eq!(check(layout(vec![(0, 0), (0, 16)], true), pairs, &compressed), sound);
    }
    assert!(!check(layout(vec![(0, 0), (0, 4)], true), pairs, &compressed));
    assert!(check(layout(vec![(0, 0), (0, 16), (0, 3)], false), Form::Views, &message));
    assert!(!check(layout(vec![(0, 0), (0, 16)], false), Form::Views, &message));
    let dense = Form::Variants { dense: true };
    assert!(check(layout(vec![(0, 2), (8, 8)], false), dense, &message));
    assert!(!check(layout(vec![(0, 2), (9, 7)], false), dense, &message));
    assert!(!check(layout(vec![(0, 2), (6, 8)], false), dense, &message));
    assert!(!check(layout(vec![(0, 1), (8, 8)], false), dense, &message));
    assert!(!check(layout(vec![(0, 2), (8, 8)], true), dense, &message));
    let mut raw = [0xffu8; 44];
    raw[12..20].fill(0);
    assert!(check(layout(vec![(0, 10), (20, 16)], true), dense, &raw));
    assert!(!check(layout(vec![(0, 9), (20, 16)], true), dense, &raw));
    assert!(!check(layout(vec![(0, 10), (20, 15)], true), dense, &raw));
    assert!(!check(layout(vec![(0, 10), (22, 16)], true), dense, &raw));
    let sparse = Form::Variants { dense: false };
    assert!(check(layout(vec![(0, 10)], true), sparse, &raw));
    let old = layout(vec![(0, 0), (0, 2), (8, 8)], false);
    assert!(old.check(VERSION_FIVE - 1, &message, 4, &[shape(dense)], None, None));
    assert!(check(layout(vec![(0, 0)], false), Form::Repeated { items: 3 }, &message));
    let huge = BatchLayout {
        nodes: vec![i64::MAX],
        ..layout(vec![(0, 0)], false)
    };
    assert!(!check(huge, Form::Repeated { items: 3 }, &message));
}

/// Values are appended only to a dictionary that they extend.
#[test]
fn values_are_held_to_every_field_of_their_dictionary() {
    let words = FieldShape {
        dictionary: Some((5, 1)),
        ..shape(Form::Plain {
            count: 2,
            second: 4,
            third: 1,
        })
    };
    let values = || BatchLayout {
        nodes: vec![2],
        buffers: vec![(0, 0), (0, 8)],
        variadic: vec![],
        compressed: false,
    };
    let check = |layout: BatchLayout, shapes: &[FieldShape], dictionary| {
        layout.check(VERSION_FIVE, &[0; 8], 0, shapes, None, dictionary)
    };
    assert!(check(values(), &[words], Some((5, false))));
    assert!(check(values(), &[words], Some((5, true))));
    let fixed = FieldShape {
        extends: false,
        ..words
    };
    assert!(check(values(), &[fixed], Some((5, false))));
    assert!(!check(values(), &[fixed], Some((5, true))));
    assert!(check(values(), &[fixed], Some((6, true))));
    assert!(!check(values(), &[words, fixed], Some((5, true))));
    let broken = BatchLayout {
        buffers: vec![(0, 0), (0, 7)],
        ..values()
    };
    assert!(check(broken, &[words], None));
    let broken = BatchLayout {
        buffers: vec![(0, 0), (0, 7)],
        ..values()
    };
    assert!(!check(broken, &[words], Some((5, false))));
}

/// What does not fit into the metadata of a message is refused, and nothing is written.
#[test]
fn metadata_that_are_too_long_are_refused() {
    assert_eq!(weigh_pairs(&vec![]), 0);
    assert_eq!(weigh_pairs(&vec![(3, 4), (0, 5)]), 140);
    assert_eq!(weigh_pairs(&vec![(usize::MAX, 1)]), u64::MAX);
    let batch = one_column("c", Arc::new(Int32Array::from(vec![1])));
    assert!(fits_schema(&batch.schema()));
    assert!(fits_batch(&ArrowBatch {
        batch: batch.clone()
    }));
    let text = "x".repeat(1 << 26);
    let zone: Arc<str> = text.as_str().into();
    let zoned = DataType::Timestamp(arrow::datatypes::TimeUnit::Second, Some(zone));
    let named = Arc::new(Field::new(text, DataType::Utf8, true));
    let encoded = DataType::Dictionary(Box::new(DataType::Int8), Box::new(zoned.clone()));
    let runs = DataType::RunEndEncoded(named.clone(), named.clone());
    let list = DataType::List(Arc::new(Field::new_list_field(zoned, true)));
    for (kind, count) in [(DataType::Int8, 16), (runs, 8), (list, 16), (encoded, 16)] {
        let field = match kind {
            DataType::Int8 => named.clone(),
            kind => Arc::new(Field::new("f", kind, true)),
        };
        let fields = Fields::from_iter((0..count).map(|_| field.clone()));
        let fewer = Fields::from_iter((0..count / 2).map(|_| field.clone()));
        assert!(fits_schema(&Schema::new(fewer)));
        let kind = DataType::Struct(fields);
        let schema = Schema::new(vec![Field::new("c", kind, true)]);
        assert!(!fits_schema(&schema));
        let format = ArrowRecordBatchIpcStreamFormat::new(Arc::new(schema));
        let mut buf = BytesMut::new();
        let item = ArrowBatch {
            batch: batch.clone(),
        };
        let error = format.encoder().encode(item, 0, &mut buf).unwrap_err();
        assert_eq!(error.kind(), StreamErrorKind::CodecError);
        assert_eq!(error.message(), Some("Arrow IPC metadata too long"));
        assert!(buf.is_empty());
    }
}

/// Version 5, behind a continuation marker, and padded to 64 bytes.
#[test]
fn messages_are_written_by_default_options() {
    let batch = one_column("c", Arc::new(StringArray::from(vec!["a", "bc"])));
    let format = ArrowRecordBatchIpcStreamFormat::new(batch.schema());
    let mut buf = BytesMut::new();
    format.encoder().encode(ArrowBatch { batch }, 0, &mut buf).unwrap();
    buf.extend_from_slice(&END);
    for message in messages(&buf) {
        assert_eq!(&message[..4], &END[..4]);
        assert_eq!(message.len() % 64, 0);
        let size = u32::from_le_bytes(message[4..8].try_into().unwrap()) as usize;
        let head = root_as_message(&message[8..8 + size]).unwrap();
        assert_eq!(head.version().0, VERSION_FIVE);
        if let Some(batch) = head.header_as_record_batch() {
            assert!(batch.compression().is_none());
            assert!(buffers(&message).iter().all(|(offset, _)| offset % 64 == 0));
        }
    }
}

/// Two codecs that were made alike read alike.
#[test]
fn a_new_codec_reads_a_new_body() {
    let batch = one_column("c", Arc::new(Int32Array::from(vec![1, 2])));
    let bytes = encode(IpcWriteOptions::default(), &[batch.clone()]);
    for chunk_size in [1, 5, bytes.len()] {
        assert_eq!(decode(&bytes, chunk_size, usize::MAX).0, vec![batch.clone()]);
    }
}
