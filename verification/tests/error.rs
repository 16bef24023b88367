//! The error type.

use http_streams_core::{ErrorSource, StreamError, StreamErrorKind};

#[test]
fn kinds_have_stable_names() {
    assert_eq!(StreamErrorKind::CodecError.as_str(), "codec");
    assert_eq!(StreamErrorKind::InputOutputError.as_str(), "io");
    assert_eq!(StreamErrorKind::MaxLenReachedError.as_str(), "max_len");
    assert_eq!(StreamErrorKind::MaxBodyLenReachedError.as_str(), "max_body_len");
}

#[test]
fn an_error_is_rendered_as_one_line() {
    let bare = StreamError::new(StreamErrorKind::CodecError, None, None);
    assert_eq!(bare.render(None), "Frame/codec error");

    let explained = StreamError::new(
        StreamErrorKind::MaxLenReachedError,
        None,
        Some("too much".into()),
    );
    assert_eq!(explained.render(None), "Max object length reached: too much");

    let caused = StreamError::io(ErrorSource::Io(std::io::Error::other("gone")));
    assert_eq!(caused.render(Some("gone")), "I/O error: gone");

    let both = StreamError::new(
        StreamErrorKind::MaxBodyLenReachedError,
        Some(ErrorSource::Io(std::io::Error::other("gone"))),
        Some("too much".into()),
    );
    assert_eq!(
        both.render(Some("gone")),
        "Max body length reached: too much: gone"
    );
}

#[test]
fn an_io_error_is_carried_along() {
    let error = StreamError::from(std::io::Error::other("gone"));
    assert_eq!(error.kind(), StreamErrorKind::InputOutputError);
    assert_eq!(error.message(), None);
    match error.source() {
        Some(ErrorSource::Io(source)) => assert_eq!(source.to_string(), "gone"),
        other => panic!("unexpected source: {other:?}"),
    }
}

#[test]
fn the_original_cause_can_be_recovered() {
    let mine = std::fmt::Error;
    let error = StreamError::codec(ErrorSource::Io(std::io::Error::other(mine)));
    let (kind, source, message) = error.into_parts();
    assert_eq!(kind, StreamErrorKind::CodecError);
    assert_eq!(message, None);
    match source {
        Some(ErrorSource::Io(carrier)) => {
            let inner = carrier.into_inner().unwrap();
            assert!(inner.downcast::<std::fmt::Error>().is_ok());
        }
        other => panic!("unexpected source: {other:?}"),
    }
}
