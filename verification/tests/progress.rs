//! Accounting: what is counted, when it is reported, and how a stream's end is summed up.

use http_streams_core::progress::{default_progress_interval, new_span};
use http_streams_core::{
    Counting, DecodeOptions, Direction, ErrorInfo, ErrorSource, Level, PollReport, Polled,
    Progress, ProgressItem, ProgressOptions, ProgressState, Report, Side, StreamContext,
    StreamError, StreamErrorKind, StreamOutcome, DEFAULT_BUF_CAPACITY,
};
use std::time::Duration;

fn at(micros: u64) -> Duration {
    Duration::from_micros(micros)
}

fn options() -> ProgressOptions<fn(&StreamError), fn(&Report)> {
    ProgressOptions::new()
}

fn enabled(options: &ProgressOptions<fn(&StreamError), fn(&Report)>) -> Progress {
    Progress::new(options, true)
}

fn failure() -> StreamError {
    StreamError::new(StreamErrorKind::CodecError, None, None)
}

#[test]
fn names_are_stable() {
    assert_eq!(Direction::Request.as_str(), "request");
    assert_eq!(Direction::Response.as_str(), "response");
    assert_eq!(Direction::default(), Direction::Response);
    assert_eq!(Side::Client.as_str(), "client");
    assert_eq!(Side::Server.as_str(), "server");
    assert_eq!(Side::default(), Side::Client);
    assert_eq!(StreamOutcome::InProgress.as_str(), "in_progress");
    assert_eq!(StreamOutcome::Completed.as_str(), "completed");
    assert_eq!(StreamOutcome::Aborted.as_str(), "aborted");
    assert_eq!(StreamOutcome::Failed.as_str(), "failed");
}

#[test]
fn defaults_report_about_once_a_second() {
    assert_eq!(default_progress_interval(), Duration::from_secs(1));
    let defaults = ProgressOptions::<(), ()>::default();
    assert_eq!(defaults.progress_interval, Some(Duration::from_secs(1)));
    assert_eq!(defaults.progress_items, None);
    assert!(defaults.on_error.is_none() && defaults.on_progress.is_none());

    let options = DecodeOptions::default();
    assert_eq!(options.max_obj_len, usize::MAX);
    assert_eq!(options.buf_capacity, DEFAULT_BUF_CAPACITY);
    assert_eq!(DEFAULT_BUF_CAPACITY, 8192);
    let options = options.max_obj_len(7).buf_capacity(9);
    assert_eq!((options.max_obj_len, options.buf_capacity), (7, 9));
}

#[test]
fn nobody_listening_means_nothing_is_counted() {
    let mut silent = Progress::new(&options(), false);
    assert!(!silent.is_enabled());
    silent.mark_polled();
    assert!(silent.record_item(at(1)).is_none());
    assert!(silent.record_bytes(1, at(2_000_000)).is_none());
    let item: Result<u8, StreamError> = Err(failure());
    let report = silent.observe(Polled::Item(&item), Counting::Items, at(3));
    assert!(matches!(report, PollReport::Nothing));
    assert!(silent.dropped(at(4)).is_none());
    assert!(!Progress::disabled().is_enabled());

    fn on_error(_: &StreamError) {}
    fn on_progress(_: &Report) {}
    assert!(enabled(&options()).is_enabled());
    assert!(Progress::new(&options().on_error(on_error), false).is_enabled());
    assert!(Progress::new(&options().on_progress(on_progress), false).is_enabled());
}

#[test]
fn bytes_report_when_the_interval_has_passed() {
    let mut progress = enabled(&options().progress_interval(at(100)));
    let chunk = progress.record_bytes(10, at(99)).unwrap();
    assert_eq!((chunk.chunk_bytes, chunk.items, chunk.bytes), (10, 0, 10));
    assert!(chunk.due.is_none());

    let chunk = progress.record_bytes(5, at(100)).unwrap();
    assert_eq!(chunk.bytes, 15);
    let report = chunk.due.unwrap();
    assert_eq!(report.level, Level::Debug);
    assert_eq!(report.message, "Streaming an HTTP body");
    assert_eq!(report.progress.bytes, 15);
    assert_eq!(report.progress.outcome, StreamOutcome::InProgress);
    assert_eq!(report.progress.elapsed, at(100));

    // The report resets the interval, and a clock that goes back is no reason for another.
    assert!(progress.record_bytes(1, at(150)).unwrap().due.is_none());
    assert!(progress.record_bytes(1, at(20)).unwrap().due.is_none());
    assert!(progress.record_bytes(1, at(200)).unwrap().due.is_some());
}

#[test]
fn elapsed_time_is_reported_in_milliseconds() {
    let mut progress = enabled(&options());
    let report = progress.record_bytes(1, at(2_345_678)).unwrap().due.unwrap();
    assert_eq!(report.elapsed_ms, 2_345);
}

#[test]
fn items_report_at_every_multiple_of_the_step() {
    let mut progress = enabled(&options().progress_items(3));
    let mut reported = Vec::new();
    for _ in 0..10 {
        if let Some(report) = progress.record_item(at(1)) {
            reported.push(report.progress.items);
        }
    }
    assert_eq!(reported, [3, 6, 9]);
}

#[test]
fn a_step_of_zero_is_disabled() {
    let mut progress = enabled(&options().progress_items(0));
    assert!((0..100).all(|_| progress.record_item(at(1)).is_none()));
}

#[test]
fn an_item_report_resets_the_interval_too() {
    let mut progress = enabled(&options().progress_items(1).progress_interval(at(100)));
    assert!(progress.record_item(at(90)).is_some());
    assert!(progress.record_bytes(1, at(189)).unwrap().due.is_none());
    assert!(progress.record_bytes(1, at(190)).unwrap().due.is_some());
}

fn finish(errors: usize, reaches_end: bool) -> Option<Report> {
    let mut progress = enabled(&options());
    for i in 0..errors + 2 {
        progress.mark_polled();
        let item: Result<u8, StreamError> = if i < errors { Err(failure()) } else { Ok(1) };
        let report = progress.observe(Polled::Item(&item), Counting::Items, at(5));
        assert_eq!(matches!(report, PollReport::Error(_)), i < errors);
    }
    let pending = progress.observe::<Result<u8, StreamError>>(Polled::Pending, Counting::Items, at(6));
    assert!(matches!(pending, PollReport::Nothing));
    progress.record_bytes(40, at(6));
    let mut summary = None;
    if reaches_end {
        let end = progress.observe::<Result<u8, StreamError>>(Polled::End, Counting::Items, at(7));
        if let PollReport::Progress(report) = end {
            summary = Some(report);
        }
        // A consumer is free to keep polling a stream past its end.
        let again = progress.observe::<Result<u8, StreamError>>(Polled::End, Counting::Items, at(8));
        assert!(matches!(again, PollReport::Nothing));
        assert!(progress.record_bytes(1, at(9_000_000)).unwrap().due.is_none());
        assert!(progress.dropped(at(9)).is_none());
        return summary;
    }
    let dropped = progress.dropped(at(7));
    assert!(progress.dropped(at(8)).is_none());
    dropped
}

#[test]
fn the_end_is_summed_up_once() {
    let report = finish(0, true).unwrap();
    assert_eq!(report.progress.outcome, StreamOutcome::Completed);
    assert_eq!(report.level, Level::Info);
    assert_eq!(report.message, "Finished streaming an HTTP body");
    assert_eq!(report.progress.items, 2);
    assert_eq!(report.progress.bytes, 40);
    assert_eq!(report.progress.errors, 0);

    let report = finish(0, false).unwrap();
    assert_eq!(report.progress.outcome, StreamOutcome::Aborted);
    assert_eq!(report.level, Level::Info);

    for reaches_end in [true, false] {
        let report = finish(3, reaches_end).unwrap();
        assert_eq!(report.progress.outcome, StreamOutcome::Failed);
        assert_eq!(report.level, Level::Error);
        assert_eq!(report.message, "Failed streaming an HTTP body");
        assert_eq!(report.progress.errors, 3);
        assert_eq!(report.progress.items, 2);
    }
}

#[test]
fn a_stream_that_was_never_polled_reports_nothing() {
    let mut progress = enabled(&options());
    progress.record_item(at(1));
    assert!(progress.dropped(at(2)).is_none());
}

#[test]
fn chunks_are_no_items() {
    let mut progress = enabled(&options().progress_items(1));
    let chunk: Result<u8, StreamError> = Ok(1);
    let report = progress.observe(Polled::Item(&chunk), Counting::Bytes, at(1));
    assert!(matches!(report, PollReport::Nothing));
    let report = progress.observe(Polled::Item(&chunk), Counting::Items, at(1));
    assert!(matches!(report, PollReport::Progress(report) if report.progress.items == 1));
}

#[test]
fn errors_are_told_of() {
    let item: Result<u8, StreamError> = Err(StreamError::io(ErrorSource::Io(
        std::io::Error::other("gone"),
    )));
    let info = item.progress_error().unwrap();
    assert_eq!(info.kind_str(), "io");
    assert_eq!(info.display().kind(), StreamErrorKind::InputOutputError);
    assert!(info.stream_error().is_some());
    assert!(Ok::<u8, StreamError>(1).progress_error().is_none());

    let foreign = ErrorInfo::new(&"someone else's", None);
    assert_eq!(foreign.kind_str(), "unknown");
    assert_eq!(*foreign.display(), "someone else's");
    assert!(foreign.stream_error().is_none());
}

#[test]
fn a_span_leaves_out_what_is_not_known() {
    let context = StreamContext::new("csv", Direction::Request, Side::Server);
    let span = new_span(&context);
    assert_eq!((span.format, span.direction, span.side), ("csv", "request", "server"));
    assert_eq!((span.status, span.content_length, span.content_type), (None, None, None));
    assert_eq!((span.max_obj_len, span.buf_capacity), (None, None));

    let context = context
        .status(200)
        .content_length(Some(12))
        .content_type("text/csv".into())
        .max_obj_len(usize::MAX)
        .buf_capacity(8192);
    let span = new_span(&context);
    assert_eq!(span.status, Some(200));
    assert_eq!(span.content_length, Some(12));
    assert_eq!(span.content_type, Some("text/csv"));
    assert_eq!(span.max_obj_len, None);
    assert_eq!(span.buf_capacity, Some(8192));

    let context = context.max_obj_len(64);
    assert_eq!(new_span(&context).max_obj_len, Some(64));
}

/// The end is summed up once, and only where the stream was polled.
#[test]
fn a_state_is_finalized_once() {
    let mut state = ProgressState::maybe_new(&options(), true).unwrap();
    state.record_item(at(1));
    assert!(state.finalize(true, at(2)).is_none());
    state.mark_polled();
    state.record_item(at(3));
    state.record_error();
    let report = state.finalize(true, at(4)).unwrap();
    assert_eq!(report.progress.outcome, StreamOutcome::Failed);
    assert_eq!(report.progress.items, 2);
    assert_eq!(report.progress.errors, 1);
    assert!(state.finalize(false, at(5)).is_none());
}
