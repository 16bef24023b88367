//! Encode runs: what is yielded, in which order, and what stops them.

use bytes::{Bytes, BytesMut};
use http_streams_core::{
    parse_frame, Action, EncodeState, ErrorSource, IdentityParser, ItemEncoder, StreamError,
    StreamErrorKind, TextEncoder,
};

/// A format that brackets its items, so prologue/epilogue/index are all exercised.
struct Bracketed {
    fail_at: Option<u64>,
}

impl ItemEncoder<u32> for Bracketed {
    fn prologue(&mut self, buf: &mut BytesMut) -> Result<(), StreamError> {
        buf.extend_from_slice(b"[");
        Ok(())
    }

    fn encode(&mut self, item: u32, index: u64, buf: &mut BytesMut) -> Result<(), StreamError> {
        if self.fail_at == Some(index) {
            return Err(StreamError::new(
                StreamErrorKind::CodecError,
                None,
                Some("boom".into()),
            ));
        }
        if index != 0 {
            buf.extend_from_slice(b",");
        }
        buf.extend_from_slice(item.to_string().as_bytes());
        Ok(())
    }

    fn epilogue(&mut self, buf: &mut BytesMut) -> Result<(), StreamError> {
        buf.extend_from_slice(b"]");
        Ok(())
    }
}

fn chunks<T, E: ItemEncoder<T>>(
    source: Vec<Result<T, StreamError>>,
    encoder: E,
) -> Vec<Result<Bytes, StreamError>> {
    let mut source = source.into_iter();
    let mut state = EncodeState::new(encoder);
    let mut out = Vec::new();
    loop {
        match state.advance::<T>() {
            Action::Yield(chunk) => out.push(chunk),
            Action::Pull => out.extend(state.supply(source.next())),
            Action::Stop => return out,
        }
    }
}

fn collect<T, E: ItemEncoder<T>>(
    source: Vec<Result<T, StreamError>>,
    encoder: E,
) -> (Vec<u8>, usize) {
    let items = chunks(source, encoder);
    let errors = items.iter().filter(|i| i.is_err()).count();
    let mut out = Vec::new();
    for i in items.into_iter().flatten() {
        out.extend_from_slice(&i);
    }
    (out, errors)
}

#[test]
fn encodes_prologue_items_and_epilogue() {
    let source = vec![Ok(1u32), Ok(2), Ok(3)];
    let (bytes, errors) = collect(source, Bracketed { fail_at: None });
    assert_eq!(String::from_utf8(bytes).unwrap(), "[1,2,3]");
    assert_eq!(errors, 0);
}

#[test]
fn empty_source_still_brackets() {
    let source = Vec::<Result<u32, StreamError>>::new();
    let (bytes, _) = collect(source, Bracketed { fail_at: None });
    assert_eq!(String::from_utf8(bytes).unwrap(), "[]");
}

/// The closing bracket must NOT appear: a truncated body that looks complete is worse than
/// one that is visibly truncated.
#[test]
fn encoder_error_suppresses_the_epilogue() {
    let source = vec![Ok(1u32), Ok(2), Ok(3)];
    let (bytes, errors) = collect(source, Bracketed { fail_at: Some(1) });
    assert_eq!(String::from_utf8(bytes).unwrap(), "[1");
    assert_eq!(errors, 1);
}

#[test]
fn source_error_is_forwarded_and_suppresses_the_epilogue() {
    let source = vec![
        Ok(1u32),
        Err(StreamError::new(
            StreamErrorKind::InputOutputError,
            None,
            None,
        )),
    ];
    let (bytes, errors) = collect(source, Bracketed { fail_at: None });
    assert_eq!(String::from_utf8(bytes).unwrap(), "[1");
    assert_eq!(errors, 1);
}

#[test]
fn empty_chunks_are_swallowed() {
    let source = vec![
        Ok(String::new()),
        Ok("a".to_string()),
        Ok(String::new()),
        Ok("b".to_string()),
    ];
    let yielded: Vec<Bytes> = chunks(source, TextEncoder)
        .into_iter()
        .map(|chunk| chunk.unwrap())
        .collect();
    assert_eq!(yielded, vec![Bytes::from("a"), Bytes::from("b")]);
}

#[test]
fn nothing_is_yielded_after_the_end() {
    let mut state = EncodeState::new(Bracketed { fail_at: Some(0) });
    assert!(matches!(state.advance::<u32>(), Action::Yield(Ok(_))));
    assert!(matches!(state.advance::<u32>(), Action::Pull));
    let failure = state.supply(Some(Ok(7u32)));
    assert!(matches!(failure, Some(Err(ref e)) if e.message() == Some("boom")));
    assert!(matches!(state.advance::<u32>(), Action::Stop));
    assert!(matches!(state.advance::<u32>(), Action::Stop));
}

#[test]
fn the_index_counts_the_items_that_were_encoded() {
    let mut state = EncodeState::new(Bracketed { fail_at: None });
    assert!(matches!(state.advance::<u32>(), Action::Yield(_)));
    for expected in ["10", ",11", ",12"] {
        let item: u32 = expected.trim_start_matches(',').parse().unwrap();
        let chunk = state.supply(Some(Ok(item))).unwrap().unwrap();
        assert_eq!(chunk, Bytes::from(expected));
    }
    assert!(state.supply(None::<Result<u32, StreamError>>).is_none());
    assert!(matches!(state.advance::<u32>(), Action::Yield(Ok(ref c)) if c == &Bytes::from("]")));
}

#[test]
fn frames_and_framing_failures_come_out_of_one_stream() {
    let parser = IdentityParser;
    let item: Result<u8, StreamError> = parse_frame(&parser, Ok(Ok(3u8)));
    assert!(matches!(item, Ok(3)));

    let bad: Result<u8, StreamError> = parse_frame(
        &parser,
        Ok(Err(StreamError::codec(ErrorSource::Io(std::io::Error::other("record"))))),
    );
    assert_eq!(bad.unwrap_err().kind(), StreamErrorKind::CodecError);

    let lost: Result<u8, StreamError> = parse_frame(
        &parser,
        Err(StreamError::io(ErrorSource::Io(std::io::Error::other("gone")))),
    );
    assert_eq!(lost.unwrap_err().kind(), StreamErrorKind::InputOutputError);
}
