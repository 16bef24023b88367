//! Coalescing chunks.

use bytes::Bytes;
use http_streams_core::{coalesce_ready, BytesBuffer, StreamError, StreamErrorKind};

fn buffered(parts: Vec<Result<Bytes, StreamError>>, size: usize) -> Vec<Result<Bytes, StreamError>> {
    let mut buffer = BytesBuffer::new(size);
    let mut out = Vec::new();
    for part in parts {
        match buffer.push(part) {
            Some(chunks) => out.extend(chunks),
            None => return out,
        }
    }
    out.extend(buffer.flush().map(Ok));
    out
}

fn collect(items: Vec<Result<Bytes, StreamError>>) -> (Vec<Vec<u8>>, usize) {
    let errors = items.iter().filter(|i| i.is_err()).count();
    let chunks = items.into_iter().flatten().map(|b| b.to_vec()).collect();
    (chunks, errors)
}

fn source(parts: Vec<&'static str>) -> Vec<Result<Bytes, StreamError>> {
    parts
        .into_iter()
        .map(|p| Ok(Bytes::from_static(p.as_bytes())))
        .collect()
}

#[test]
fn buffers_to_the_requested_size() {
    let (chunks, errors) = collect(buffered(source(vec!["ab", "cd", "ef", "g"]), 3));
    assert_eq!(errors, 0);
    assert_eq!(
        chunks,
        vec![b"abc".to_vec(), b"def".to_vec(), b"g".to_vec()]
    );
}

#[test]
fn flushes_a_short_tail() {
    let (chunks, _) = collect(buffered(source(vec!["ab"]), 100));
    assert_eq!(chunks, vec![b"ab".to_vec()]);
}

/// An error must not look like a clean end of body.
#[test]
fn an_error_stops_the_stream_and_is_visible() {
    let parts = vec![
        Ok(Bytes::from_static(b"ab")),
        Err(StreamError::new(StreamErrorKind::CodecError, None, None)),
        Ok(Bytes::from_static(b"cd")),
    ];
    let (chunks, errors) = collect(buffered(parts, 100));

    assert_eq!(errors, 1, "the error must be yielded, not swallowed");
    assert!(
        chunks.is_empty(),
        "buffered bytes are dropped, so no data can follow the error"
    );
}

#[test]
fn ready_items_coalesce() {
    let mut parts = source(vec!["a", "b", "c", "d", "e"]);
    let mut batches = Vec::new();
    while !parts.is_empty() {
        let rest = parts.split_off(parts.len().min(2));
        batches.push(coalesce_ready(parts));
        parts = rest;
    }
    let (chunks, errors) = collect(batches);
    assert_eq!(errors, 0);
    assert_eq!(
        chunks.concat(),
        b"abcde".to_vec(),
        "coalescing must not change the bytes"
    );
    assert!(chunks.len() < 5, "chunks must actually be coalesced");
}

/// The flush marker must not append a zero-length chunk whenever the input happens to divide
/// evenly into `size`.
#[test]
fn an_exact_multiple_emits_no_empty_tail() {
    let (chunks, errors) = collect(buffered(source(vec!["abc", "def"]), 3));
    assert_eq!(errors, 0);
    assert_eq!(chunks, vec![b"abc".to_vec(), b"def".to_vec()]);
    assert!(
        chunks.iter().all(|c| !c.is_empty()),
        "no zero-length chunk may be emitted"
    );
}

#[test]
fn an_empty_source_emits_nothing() {
    let (chunks, errors) = collect(buffered(Vec::new(), 8));
    assert_eq!(errors, 0);
    assert!(chunks.is_empty(), "an empty body must produce no chunks");
}

/// A zero size would spin forever if the buffer never shrank.
#[test]
fn a_zero_size_does_not_hang() {
    let (chunks, errors) = collect(buffered(source(vec!["ab", "cd"]), 0));
    assert_eq!(errors, 0);
    assert_eq!(chunks.concat(), b"abcd".to_vec());
    assert_eq!(chunks.len(), 4);
}

#[test]
fn every_chunk_but_the_last_is_of_the_size_asked_for() {
    let parts = ["a", "bcdefghijklmnop", "qr", "stuvw", "xyz"];
    for size in 1..30 {
        let (chunks, _) = collect(buffered(source(parts.to_vec()), size));
        assert_eq!(chunks.concat(), parts.concat().into_bytes());
        let (last, full) = chunks.split_last().unwrap();
        assert!(full.iter().all(|c| c.len() == size));
        assert!(!last.is_empty() && last.len() <= size);
    }
}

#[test]
fn an_empty_chunk_changes_nothing() {
    let (chunks, _) = collect(buffered(source(vec!["a", "", "bc"]), 2));
    assert_eq!(chunks, vec![b"ab".to_vec(), b"c".to_vec()]);
    let (chunks, _) = collect(buffered(source(vec!["", "ab", "", "cd", ""]), 3));
    assert_eq!(chunks, vec![b"abc".to_vec(), b"d".to_vec()]);
}

#[test]
fn nothing_follows_a_failure() {
    let mut buffer = BytesBuffer::new(2);
    assert_eq!(buffer.push(Ok::<Bytes, &str>(Bytes::from_static(b"a"))), Some(vec![]));
    assert!(buffer.push(Err::<Bytes, &str>("gone")).is_some());
    assert!(buffer.push(Ok::<Bytes, &str>(Bytes::from_static(b"abcd"))).is_none());
    assert_eq!(buffer.flush(), None);
}

#[test]
fn what_is_left_over_is_flushed_once() {
    let mut buffer = BytesBuffer::new(2);
    assert!(buffer.push(Ok::<Bytes, &str>(Bytes::from_static(b"abc"))).is_some());
    assert_eq!(buffer.flush(), Some(Bytes::from_static(b"c")));
    assert_eq!(buffer.flush(), None);
}

#[test]
fn the_first_failure_takes_the_place_of_a_batch() {
    let batch = vec![
        Ok(Bytes::from_static(b"a")),
        Err("first"),
        Ok(Bytes::from_static(b"b")),
        Err("second"),
    ];
    assert_eq!(coalesce_ready(batch), Err("first"));
    assert_eq!(coalesce_ready(Vec::<Result<Bytes, &str>>::new()), Ok(Bytes::new()));
}
