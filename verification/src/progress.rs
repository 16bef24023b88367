//! Accounting and observability for one streamed body, in either direction.
//!
//! What is counted, when a report is due and what it says is decided here. Reading the clock,
//! calling handlers and writing log events is the caller's part: every function that may have
//! something to report takes the time that has passed since the stream was created, and returns
//! the report.

use crate::error::StreamError;
use std::time::Duration;
use vstd::arithmetic::div_mod::{
    lemma_fundamental_div_mod, lemma_fundamental_div_mod_converse, lemma_mod_bound,
};
use vstd::prelude::*;

verus! {

/// How many nanoseconds a duration lasts.
pub uninterp spec fn nanos(duration: Duration) -> nat;

/// `Duration::from_secs`: a duration of whole seconds.
#[verifier::external_body]
fn seconds(secs: u64) -> (duration: Duration)
    ensures
        nanos(duration) == secs * 1_000_000_000,
{
    Duration::from_secs(secs)
}

/// `Duration::as_micros`: the whole microseconds of a duration.
#[verifier::external_body]
fn as_micros(duration: Duration) -> (micros: u128)
    ensures
        micros == nanos(duration) / 1_000,
{
    duration.as_micros()
}

/// `Duration::as_millis`: the whole milliseconds of a duration.
#[verifier::external_body]
fn as_millis(duration: Duration) -> (millis: u128)
    ensures
        millis == nanos(duration) / 1_000_000,
{
    duration.as_millis()
}

/// The microseconds of a duration, in 64 bits.
pub open spec fn micros(duration: Duration) -> u64 {
    (nanos(duration) / 1_000) as u64
}

/// The milliseconds of a duration, in 64 bits.
pub open spec fn millis(duration: Duration) -> u64 {
    (nanos(duration) / 1_000_000) as u64
}

fn micros_of(duration: Duration) -> (count: u64)
    ensures
        count == micros(duration),
{
    #[verifier::truncate]
    let count: u64 = as_micros(duration) as u64;
    count
}

fn millis_of(duration: Duration) -> (count: u64)
    ensures
        count == millis(duration),
{
    #[verifier::truncate]
    let count: u64 = as_millis(duration) as u64;
    count
}

/// Reported about once a second unless overridden.
pub fn default_progress_interval() -> (interval: Duration)
    ensures
        nanos(interval) == 1_000_000_000,
{
    seconds(1)
}

/// Which HTTP message the body belongs to.
#[derive(Debug, Clone, Copy, PartialEq, Eq, Structural, Default)]
#[non_exhaustive]
pub enum Direction {
    /// A request body: uploaded by a client, received by a server.
    Request,
    /// A response body: produced by a server, read by a client.
    #[default]
    Response,
}

impl Direction {
    /// The name that [`as_str`](Self::as_str) reports.
    pub open spec fn name(self) -> Seq<char> {
        match self {
            Direction::Request => "request"@,
            Direction::Response => "response"@,
        }
    }

    /// A short, stable name, reported as the `direction` tracing field.
    pub fn as_str(&self) -> (name: &'static str)
        ensures
            name@ == self.name(),
    {
        match self {
            Direction::Request => "request",
            Direction::Response => "response",
        }
    }
}

/// Which end of the connection this code is running on.
#[derive(Debug, Clone, Copy, PartialEq, Eq, Structural, Default)]
#[non_exhaustive]
pub enum Side {
    /// Running in an HTTP client.
    #[default]
    Client,
    /// Running in an HTTP server.
    Server,
}

impl Side {
    /// The name that [`as_str`](Self::as_str) reports.
    pub open spec fn name(self) -> Seq<char> {
        match self {
            Side::Client => "client"@,
            Side::Server => "server"@,
        }
    }

    /// A short, stable name, reported as the `side` tracing field.
    pub fn as_str(&self) -> (name: &'static str)
        ensures
            name@ == self.name(),
    {
        match self {
            Side::Client => "client",
            Side::Server => "server",
        }
    }
}

/// How a stream ended.
#[derive(Debug, Clone, Copy, PartialEq, Eq, Structural)]
#[non_exhaustive]
pub enum StreamOutcome {
    /// Still running; reported by interim progress only.
    InProgress,
    /// Reached the end of the body with no errors.
    Completed,
    /// Ended early because the other side of the stream went away.
    Aborted,
    /// Reached its end, but at least one error was reported along the way.
    Failed,
}

impl StreamOutcome {
    /// The name that [`as_str`](Self::as_str) reports.
    pub open spec fn name(self) -> Seq<char> {
        match self {
            StreamOutcome::InProgress => "in_progress"@,
            StreamOutcome::Completed => "completed"@,
            StreamOutcome::Aborted => "aborted"@,
            StreamOutcome::Failed => "failed"@,
        }
    }

    /// A short, stable name, reported as the `outcome` tracing field.
    pub fn as_str(&self) -> (name: &'static str)
        ensures
            name@ == self.name(),
    {
        match self {
            StreamOutcome::InProgress => "in_progress",
            StreamOutcome::Completed => "completed",
            StreamOutcome::Aborted => "aborted",
            StreamOutcome::Failed => "failed",
        }
    }
}

/// A snapshot of one stream's accounting.
#[derive(Debug, Clone, Copy)]
#[non_exhaustive]
pub struct StreamProgress {
    /// Items encoded or decoded so far.
    pub items: u64,
    /// Body bytes transferred so far.
    pub bytes: u64,
    /// Errors reported so far. Not every error is terminal.
    pub errors: u64,
    /// Time since the stream was created.
    pub elapsed: Duration,
    /// How the stream ended, or [`InProgress`] if it has not.
    ///
    /// [`InProgress`]: StreamOutcome::InProgress
    pub outcome: StreamOutcome,
}

/// The direction-neutral subset of the dependents' options structs.
///
/// `H` is what is invoked for every error, and `P` what is invoked for every progress report.
#[derive(Debug, Clone)]
#[non_exhaustive]
pub struct ProgressOptions<H = (), P = ()> {
    /// Invoked for every error reported by the stream.
    pub on_error: Option<H>,
    /// Invoked for every progress report.
    pub on_progress: Option<P>,
    /// How often to report interim progress. `None` disables the time trigger.
    pub progress_interval: Option<Duration>,
    /// Report interim progress every N items. `None` disables the item trigger.
    pub progress_items: Option<u64>,
}

impl<H, P> ProgressOptions<H, P> {
    /// Report about once a second, no item trigger, no callbacks.
    pub open spec fn is_default(self) -> bool {
        &&& self.on_error is None
        &&& self.on_progress is None
        &&& self.progress_interval matches Some(interval)
        &&& nanos(interval) == 1_000_000_000
        &&& self.progress_items is None
    }

    /// Default options: report about once a second, no item trigger, no callbacks.
    pub fn new() -> (options: Self)
        ensures
            options.is_default(),
    {
        ProgressOptions {
            on_error: None,
            on_progress: None,
            progress_interval: Some(default_progress_interval()),
            progress_items: None,
        }
    }

    /// Set the error callback.
    pub fn on_error(self, handler: H) -> (options: Self)
        ensures
            options == (ProgressOptions { on_error: Some(handler), ..self }),
    {
        ProgressOptions { on_error: Some(handler), ..self }
    }

    /// Set the progress callback.
    pub fn on_progress(self, handler: P) -> (options: Self)
        ensures
            options == (ProgressOptions { on_progress: Some(handler), ..self }),
    {
        ProgressOptions { on_progress: Some(handler), ..self }
    }

    /// Set the interim reporting interval.
    pub fn progress_interval(self, interval: Duration) -> (options: Self)
        ensures
            options == (ProgressOptions { progress_interval: Some(interval), ..self }),
    {
        ProgressOptions { progress_interval: Some(interval), ..self }
    }

    /// Report interim progress every `items` items.
    pub fn progress_items(self, items: u64) -> (options: Self)
        ensures
            options == (ProgressOptions { progress_items: Some(items), ..self }),
    {
        ProgressOptions { progress_items: Some(items), ..self }
    }
}

impl<H, P> Default for ProgressOptions<H, P> {
    fn default() -> (options: Self)
        ensures
            options.is_default(),
    {
        Self::new()
    }
}

/// What a stream is about, for the span covering it.
///
/// Fields the caller cannot know are simply left `None` and are omitted from the span rather
/// than reported as a placeholder.
#[derive(Debug, Clone, Default)]
#[non_exhaustive]
pub struct StreamContext {
    /// The format's [`format_name`](crate::StreamFormat::format_name).
    pub format: String,
    /// Request or response body.
    pub direction: Direction,
    /// Client or server.
    pub side: Side,
    /// Response status, where one is known.
    pub status: Option<u16>,
    /// Declared body length, where one is known.
    pub content_length: Option<u64>,
    /// The negotiated content type, where one is known.
    pub content_type: Option<String>,
    /// The per-object limit in force, where one applies.
    pub max_obj_len: Option<usize>,
    /// The read-buffer size in force, where one applies.
    pub buf_capacity: Option<usize>,
}

impl StreamContext {
    /// A context for `format`, in the given direction and on the given side.
    pub fn new(format: &str, direction: Direction, side: Side) -> (context: Self)
        ensures
            context.format@ == format@,
            context.direction == direction,
            context.side == side,
            context.status is None,
            context.content_length is None,
            context.content_type is None,
            context.max_obj_len is None,
            context.buf_capacity is None,
    {
        StreamContext {
            format: format.to_owned(),
            direction,
            side,
            status: None,
            content_length: None,
            content_type: None,
            max_obj_len: None,
            buf_capacity: None,
        }
    }

    /// Record the response status.
    pub fn status(self, status: u16) -> (context: Self)
        ensures
            context == (StreamContext { status: Some(status), ..self }),
    {
        StreamContext { status: Some(status), ..self }
    }

    /// Record the declared body length.
    pub fn content_length(self, len: Option<u64>) -> (context: Self)
        ensures
            context == (StreamContext { content_length: len, ..self }),
    {
        StreamContext { content_length: len, ..self }
    }

    /// Record the content type.
    pub fn content_type(self, ct: String) -> (context: Self)
        ensures
            context == (StreamContext { content_type: Some(ct), ..self }),
    {
        StreamContext { content_type: Some(ct), ..self }
    }

    /// Record the per-object limit.
    pub fn max_obj_len(self, len: usize) -> (context: Self)
        ensures
            context == (StreamContext { max_obj_len: Some(len), ..self }),
    {
        StreamContext { max_obj_len: Some(len), ..self }
    }

    /// Record the read-buffer size.
    pub fn buf_capacity(self, cap: usize) -> (context: Self)
        ensures
            context == (StreamContext { buf_capacity: Some(cap), ..self }),
    {
        StreamContext { buf_capacity: Some(cap), ..self }
    }
}

/// The fields that the span covering a stream is created with. A field without a value is left
/// out.
///
/// No URL is among them, deliberately: it carries query strings and userinfo, which routinely
/// means presigned-URL signatures and API keys.
#[derive(Debug)]
pub struct SpanFields<'a> {
    pub format: &'a str,
    pub direction: &'static str,
    pub side: &'static str,
    pub status: Option<u16>,
    pub content_length: Option<u64>,
    pub content_type: Option<&'a str>,
    pub max_obj_len: Option<u64>,
    pub buf_capacity: Option<u64>,
}

/// The span of a stream with the given context.
pub fn new_span<'a>(context: &'a StreamContext) -> (span: SpanFields<'a>)
    ensures
        span.format@ == context.format@,
        span.direction@ == context.direction.name(),
        span.side@ == context.side.name(),
        span.status == context.status,
        span.content_length == context.content_length,
        match context.content_type {
            Some(ct) => span.content_type matches Some(field) && field@ == ct@,
            None => span.content_type is None,
        },
        span.max_obj_len == (match context.max_obj_len {
            Some(len) if len != usize::MAX => Some(len as u64),
            _ => None,
        }),
        span.buf_capacity == (match context.buf_capacity {
            Some(cap) => Some(cap as u64),
            None => None,
        }),
{
    SpanFields {
        format: context.format.as_str(),
        direction: context.direction.as_str(),
        side: context.side.as_str(),
        status: context.status,
        content_length: context.content_length,
        content_type: match &context.content_type {
            Some(ct) => Some(ct.as_str()),
            None => None,
        },
        // `usize::MAX` means "no limit", which is noise rather than information.
        max_obj_len: match context.max_obj_len {
            Some(max) => if max != usize::MAX {
                Some(max as u64)
            } else {
                None
            },
            None => None,
        },
        buf_capacity: match context.buf_capacity {
            Some(cap) => Some(cap as u64),
            None => None,
        },
    }
}

/// What the accounting needs to know about an error passing through a stream.
///
/// Deliberately not just `&StreamError`: a binding crate's pipeline carries that crate's own error
/// type. Everything the accounting actually needs is something to display and, when available, the
/// typed error.
#[derive(Debug)]
pub struct ErrorInfo<'a, D> {
    display: &'a D,
    stream_error: Option<&'a StreamError>,
}

impl<'a, D> ErrorInfo<'a, D> {
    /// What is displayed.
    pub closed spec fn shown(self) -> D {
        *self.display
    }

    /// The typed error, if there is one.
    pub closed spec fn typed(self) -> Option<&'a StreamError> {
        self.stream_error
    }

    /// The name that [`kind_str`](Self::kind_str) reports.
    pub open spec fn kind_name(self) -> Seq<char> {
        match self.typed() {
            Some(error) => error@.kind.name(),
            None => "unknown"@,
        }
    }

    /// An error that is displayed as `display`, with the typed error where there is one.
    pub fn new(display: &'a D, stream_error: Option<&'a StreamError>) -> (info: Self)
        ensures
            info.shown() == *display,
            info.typed() == stream_error,
    {
        ErrorInfo { display, stream_error }
    }

    /// What to display, for the `error` tracing field.
    pub fn display(&self) -> (display: &'a D)
        ensures
            *display == self.shown(),
    {
        self.display
    }

    /// The typed error, when this stream carries [`StreamError`]s.
    pub fn stream_error(&self) -> (error: Option<&'a StreamError>)
        ensures
            error == self.typed(),
    {
        self.stream_error
    }

    /// A short, stable kind name for the `error_kind` tracing field.
    pub fn kind_str(&self) -> (name: &'static str)
        ensures
            name@ == self.kind_name(),
    {
        match self.stream_error {
            Some(error) => error.kind().as_str(),
            None => "unknown",
        }
    }
}

/// Lets the accounting classify items without being generic over the item type.
pub trait ProgressItem {
    /// What the item's error is displayed as.
    type Display;

    /// Whether the item is an error that `info` tells of.
    open spec fn tells(&self, info: Option<ErrorInfo<'_, Self::Display>>) -> bool {
        true
    }

    /// The error this item carries, if it is one.
    fn progress_error(&self) -> (info: Option<ErrorInfo<'_, Self::Display>>)
        ensures
            self.tells(info),
    ;
}

impl<T> ProgressItem for Result<T, StreamError> {
    type Display = StreamError;

    open spec fn tells(&self, info: Option<ErrorInfo<'_, StreamError>>) -> bool {
        match *self {
            Ok(_) => info is None,
            Err(error) => info matches Some(info) && info.shown() == error && info.typed() == Some(
                &error,
            ),
        }
    }

    fn progress_error(&self) -> (info: Option<ErrorInfo<'_, StreamError>>) {
        match self {
            Ok(_) => None,
            Err(error) => Some(ErrorInfo::new(error, Some(error))),
        }
    }
}

/// How loud a report is.
#[derive(Debug, Clone, Copy, PartialEq, Eq, Structural)]
pub enum Level {
    /// Worth a line only to those who look for it.
    Debug,
    /// Worth a line.
    Info,
    /// Worth an operator's attention.
    Error,
}

/// A progress report: what the progress handler is called with, and the log event that goes with
/// it.
#[derive(Debug, Clone, Copy)]
pub struct Report {
    /// The snapshot.
    pub progress: StreamProgress,
    /// The level of the log event.
    pub level: Level,
    /// The message of the log event.
    pub message: &'static str,
    /// The time that has passed, in milliseconds.
    pub elapsed_ms: u64,
}

/// Interim progress is chatter; the summary is the line worth keeping, and a truncated stream is
/// worth an operator's attention. An end that stops early is ordinary.
pub open spec fn level_of(outcome: StreamOutcome) -> Level {
    match outcome {
        StreamOutcome::InProgress => Level::Debug,
        StreamOutcome::Failed => Level::Error,
        StreamOutcome::Completed | StreamOutcome::Aborted => Level::Info,
    }
}

/// What the log event of a report says.
pub open spec fn message_of(outcome: StreamOutcome) -> Seq<char> {
    match outcome {
        StreamOutcome::InProgress => "Streaming an HTTP body"@,
        StreamOutcome::Failed => "Failed streaming an HTTP body"@,
        StreamOutcome::Completed | StreamOutcome::Aborted => "Finished streaming an HTTP body"@,
    }
}

impl Report {
    /// Whether this reports `account`, with `outcome`, at the given time.
    pub open spec fn tells_of(
        self,
        account: Account,
        outcome: StreamOutcome,
        elapsed: Duration,
    ) -> bool {
        &&& self.progress.items == account.items
        &&& self.progress.bytes == account.bytes
        &&& self.progress.errors == account.errors
        &&& self.progress.elapsed == elapsed
        &&& self.progress.outcome == outcome
        &&& self.level == level_of(outcome)
        &&& self.message@ == message_of(outcome)
        &&& self.elapsed_ms == millis(elapsed)
    }
}

/// The log event for bytes that were transferred, and the report that they may have made due.
#[derive(Debug, Clone, Copy)]
pub struct ChunkReport {
    /// How many bytes these were.
    pub chunk_bytes: u64,
    /// The items so far.
    pub items: u64,
    /// The bytes so far.
    pub bytes: u64,
    /// The progress report, if one is due.
    pub due: Option<Report>,
}

/// One stream's accounting.
pub struct Account {
    pub items: u64,
    pub bytes: u64,
    pub errors: u64,
    /// When the last report was made, in microseconds.
    pub last_emit: u64,
    /// The number of items that makes the next report due.
    pub next_step: u64,
    /// The stream has been polled.
    pub polled: bool,
    /// The summary has been reported.
    pub finalized: bool,
    /// The time trigger, in microseconds.
    pub interval: Option<u64>,
    /// The item trigger.
    pub step: Option<u64>,
}

/// `count` and `more`, starting over from zero beyond what fits.
pub open spec fn count_up(count: u64, more: int) -> u64 {
    if count + more > u64::MAX {
        (count + more - u64::MAX - 1) as u64
    } else {
        (count + more) as u64
    }
}

impl Account {
    /// The accounting of a stream that has just been created.
    pub open spec fn start(interval: Option<Duration>, items: Option<u64>) -> Account {
        // A step of zero would never advance, so it is treated as "disabled".
        let step = match items {
            Some(step) if step > 0 => Some(step),
            _ => None,
        };
        Account {
            items: 0,
            bytes: 0,
            errors: 0,
            last_emit: 0,
            next_step: match step {
                Some(step) => step,
                None => u64::MAX,
            },
            polled: false,
            finalized: false,
            interval: match interval {
                Some(interval) => Some(micros(interval)),
                None => None,
            },
            step,
        }
    }

    /// The time trigger, checked when bytes move: enough time has passed since the last report.
    pub open spec fn due_by_time(self, now: u64) -> bool {
        match self.interval {
            None => false,
            Some(interval) => (if now < self.last_emit {
                0
            } else {
                now - self.last_emit
            }) >= interval,
        }
    }

    /// The item trigger, checked when items are counted: the next step has been reached.
    pub open spec fn due_by_items(self) -> bool {
        self.step is Some && self.items >= self.next_step
    }

    /// The accounting after `len` bytes, and whether a report is due.
    ///
    /// Nothing may be reported after the summary, or the final snapshot would no longer be final.
    pub open spec fn with_bytes(self, len: u64, now: u64) -> (Account, bool) {
        let counted = Account { bytes: count_up(self.bytes, len as int), ..self };
        if !self.finalized && self.due_by_time(now) {
            (Account { last_emit: now, ..counted }, true)
        } else {
            (counted, false)
        }
    }

    /// The accounting after one more item, and whether a report is due.
    ///
    /// A report skips past every step the count has already crossed, so that many items at once
    /// cannot queue up a burst of reports. It resets the time trigger as well, so that a step and
    /// a tick that fall together make one report rather than two.
    pub open spec fn with_item(self, now: u64) -> (Account, bool) {
        let counted = Account { items: count_up(self.items, 1), ..self };
        if !self.finalized && counted.due_by_items() {
            (
                Account {
                    next_step: next_step_after(counted.items, self.step->0),
                    last_emit: now,
                    ..counted
                },
                true,
            )
        } else {
            (counted, false)
        }
    }

    /// The accounting after an error. Errors are not terminal: the outcome is decided at the end.
    pub open spec fn with_error(self) -> Account {
        Account { errors: count_up(self.errors, 1), ..self }
    }

    /// The accounting once the stream has ended, and the outcome where a summary is due.
    ///
    /// A stream that was never polled reports nothing at all: building one and dropping it
    /// unconsumed is routine.
    pub open spec fn ended(self, aborted: bool) -> (Account, Option<StreamOutcome>) {
        if !self.polled || self.finalized {
            (self, None)
        } else {
            (
                Account { finalized: true, ..self },
                Some(
                    if self.errors > 0 {
                        StreamOutcome::Failed
                    } else if aborted {
                        StreamOutcome::Aborted
                    } else {
                        StreamOutcome::Completed
                    },
                ),
            )
        }
    }
}

/// The first multiple of `step` beyond `items`.
pub open spec fn next_step_after(items: u64, step: u64) -> u64 {
    count_up((items - items % step) as u64, step as int)
}

/// Accounting for one streamed body.
#[derive(Debug)]
pub struct ProgressState {
    items: u64,
    bytes: u64,
    errors: u64,
    last_emit_micros: u64,
    next_item_step: u64,
    polled: bool,
    finalized: bool,
    interval_micros: Option<u64>,
    item_step: Option<u64>,
}

impl ProgressState {
    /// The counts, and what makes reports due.
    pub closed spec fn account(self) -> Account {
        Account {
            items: self.items,
            bytes: self.bytes,
            errors: self.errors,
            last_emit: self.last_emit_micros,
            next_step: self.next_item_step,
            polled: self.polled,
            finalized: self.finalized,
            interval: self.interval_micros,
            step: self.item_step,
        }
    }

    /// A step of zero never gets in.
    pub closed spec fn wf(self) -> bool {
        self.item_step matches Some(step) ==> step > 0
    }

    /// Returns `None` when nobody is listening, in which case every accounting call below
    /// short-circuits on a single `Option` check.
    pub fn maybe_new<H, P>(options: &ProgressOptions<H, P>, tracing_enabled: bool) -> (state: Option<
        Self,
    >)
        ensures
            state is None <==> options.on_progress is None && options.on_error is None
                && !tracing_enabled,
            state matches Some(state) ==> state.wf() && state.account() == Account::start(
                options.progress_interval,
                options.progress_items,
            ),
    {
        if options.on_progress.is_none() && options.on_error.is_none() && !tracing_enabled {
            return None;
        }
        let item_step: Option<u64> = match options.progress_items {
            Some(step) => if step > 0 {
                Some(step)
            } else {
                None
            },
            None => None,
        };
        Some(
            ProgressState {
                items: 0,
                bytes: 0,
                errors: 0,
                last_emit_micros: 0,
                next_item_step: match item_step {
                    Some(step) => step,
                    None => u64::MAX,
                },
                polled: false,
                finalized: false,
                interval_micros: match options.progress_interval {
                    Some(interval) => Some(micros_of(interval)),
                    None => None,
                },
                item_step,
            },
        )
    }

    /// Counts transferred bytes, and reports where the interval has passed.
    pub fn record_bytes(&mut self, len: u64, elapsed: Duration) -> (report: ChunkReport)
        requires
            old(self).wf(),
        ensures
            final(self).wf(),
            final(self).account() == old(self).account().with_bytes(len, micros(elapsed)).0,
            report.chunk_bytes == len,
            report.items == final(self).account().items,
            report.bytes == final(self).account().bytes,
            report.due is Some <==> old(self).account().with_bytes(len, micros(elapsed)).1,
            report.due matches Some(due) ==> due.tells_of(
                final(self).account(),
                StreamOutcome::InProgress,
                elapsed,
            ),
    {
        self.bytes = self.bytes.wrapping_add(len);
        // Progress is driven from transferred bytes as well as from items, because a single
        // item can take a long time: one large Arrow batch, or a JSON array streamed slowly,
        // would otherwise report nothing at all until it completed. Emitting resets the
        // interval, so a chunk and an item cannot both report for the same tick.
        let due = if !self.finalized && self.should_emit_elapsed(elapsed) {
            Some(self.emit(StreamOutcome::InProgress, elapsed))
        } else {
            None
        };
        ChunkReport { chunk_bytes: len, items: self.items, bytes: self.bytes, due }
    }

    /// Counts an item, and reports at every multiple of the step.
    pub fn record_item(&mut self, elapsed: Duration) -> (report: Option<Report>)
        requires
            old(self).wf(),
        ensures
            final(self).wf(),
            final(self).account() == old(self).account().with_item(micros(elapsed)).0,
            report is Some <==> old(self).account().with_item(micros(elapsed)).1,
            report matches Some(report) ==> report.tells_of(
                final(self).account(),
                StreamOutcome::InProgress,
                elapsed,
            ),
    {
        self.items = self.items.wrapping_add(1);
        if !self.finalized && self.should_emit_items(elapsed) {
            Some(self.emit(StreamOutcome::InProgress, elapsed))
        } else {
            None
        }
    }

    /// Counts an error.
    pub fn record_error(&mut self)
        requires
            old(self).wf(),
        ensures
            final(self).wf(),
            final(self).account() == old(self).account().with_error(),
    {
        self.errors = self.errors.wrapping_add(1);
    }

    /// The time trigger, checked when bytes move.
    ///
    /// The two triggers are deliberately driven from *different* signals: checking both from both
    /// places double-reports, since every pipeline counts the same payload twice, once as items
    /// and once as bytes.
    fn should_emit_elapsed(&mut self, elapsed: Duration) -> (due: bool)
        requires
            old(self).wf(),
        ensures
            final(self).wf(),
            due == old(self).account().due_by_time(micros(elapsed)),
            final(self).account() == (if due {
                Account { last_emit: micros(elapsed), ..old(self).account() }
            } else {
                old(self).account()
            }),
    {
        let interval: u64 = match self.interval_micros {
            Some(interval) => interval,
            None => {
                return false;
            },
        };
        let now: u64 = micros_of(elapsed);
        let since_last: u64 = now.saturating_sub(self.last_emit_micros);
        if since_last >= interval {
            self.last_emit_micros = now;
            return true;
        }
        false
    }

    /// The item-step trigger, checked when items are counted.
    fn should_emit_items(&mut self, elapsed: Duration) -> (due: bool)
        requires
            old(self).wf(),
        ensures
            final(self).wf(),
            due == old(self).account().due_by_items(),
            final(self).account() == (if due {
                Account {
                    next_step: next_step_after(
                        old(self).account().items,
                        old(self).account().step->0,
                    ),
                    last_emit: micros(elapsed),
                    ..old(self).account()
                }
            } else {
                old(self).account()
            }),
    {
        let step: u64 = match self.item_step {
            Some(step) => step,
            None => {
                return false;
            },
        };
        if self.items < self.next_item_step {
            return false;
        }
        let items: u64 = self.items;
        assert(items % step <= items) by (nonlinear_arith)
            requires
                step > 0,
        ;
        self.next_item_step = (self.items - self.items % step).wrapping_add(step);
        self.last_emit_micros = micros_of(elapsed);
        true
    }

    /// Takes note that the stream is polled.
    pub fn mark_polled(&mut self)
        requires
            old(self).wf(),
        ensures
            final(self).wf(),
            final(self).account() == (Account { polled: true, ..old(self).account() }),
    {
        self.polled = true;
    }

    /// Emits the terminal snapshot, exactly once per stream. A stream that was never polled
    /// reports nothing at all.
    pub fn finalize(&mut self, aborted: bool, elapsed: Duration) -> (report: Option<Report>)
        requires
            old(self).wf(),
        ensures
            final(self).wf(),
            final(self).account() == old(self).account().ended(aborted).0,
            match old(self).account().ended(aborted).1 {
                None => report is None,
                Some(outcome) => report matches Some(report) && report.tells_of(
                    final(self).account(),
                    outcome,
                    elapsed,
                ),
            },
    {
        if !self.polled || self.finalized {
            return None;
        }
        self.finalized = true;
        let outcome = if self.errors > 0 {
            StreamOutcome::Failed
        } else if aborted {
            StreamOutcome::Aborted
        } else {
            StreamOutcome::Completed
        };
        Some(self.emit(outcome, elapsed))
    }

    /// A report of the counts at this moment.
    pub fn emit(&self, outcome: StreamOutcome, elapsed: Duration) -> (report: Report)
        ensures
            report.tells_of(self.account(), outcome, elapsed),
    {
        let progress = StreamProgress {
            items: self.items,
            bytes: self.bytes,
            errors: self.errors,
            elapsed,
            outcome,
        };
        let (level, message) = match outcome {
            StreamOutcome::InProgress => (Level::Debug, "Streaming an HTTP body"),
            StreamOutcome::Failed => (Level::Error, "Failed streaming an HTTP body"),
            StreamOutcome::Completed => (Level::Info, "Finished streaming an HTTP body"),
            StreamOutcome::Aborted => (Level::Info, "Finished streaming an HTTP body"),
        };
        Report { progress, level, message, elapsed_ms: millis_of(elapsed) }
    }
}

/// The accounting handle of one stream.
///
/// `None` inside means nobody is listening and every method is a no-op.
#[derive(Debug)]
pub struct Progress(Option<ProgressState>);

/// Whether the items that pass are to be counted.
///
/// The outermost stream of an encode pipeline yields byte chunks, not items, so counting its `Ok`s
/// would report a JSON array's `[` and `]` as items. In that case items are counted upstream and
/// this is set to [`Bytes`].
///
/// [`Bytes`]: Counting::Bytes
#[derive(Debug, Clone, Copy, PartialEq, Eq, Structural)]
pub enum Counting {
    /// Each `Ok` is one item.
    Items,
    /// Each `Ok` is a byte chunk; items are counted elsewhere.
    Bytes,
}

/// What polling the stream came to.
#[derive(Debug)]
pub enum Polled<'a, I> {
    /// An item, which may be an error.
    Item(&'a I),
    /// The end of the stream.
    End,
    /// Nothing yet.
    Pending,
}

/// What is to be reported after a poll.
#[derive(Debug)]
pub enum PollReport<'a, D> {
    /// Nothing.
    Nothing,
    /// An error: a log event, and a call of the error handler where the error is typed.
    Error(ErrorInfo<'a, D>),
    /// Progress.
    Progress(Report),
}

impl Progress {
    /// The accounting, unless nobody is listening.
    pub closed spec fn account(self) -> Option<Account> {
        match self.0 {
            Some(state) => Some(state.account()),
            None => None,
        }
    }

    /// What every handle keeps to.
    pub closed spec fn wf(self) -> bool {
        self.0 matches Some(state) ==> state.wf()
    }

    /// Build a handle for one stream. It is disabled where nobody is listening: no handler is
    /// set, and `tracing_enabled` says that no log event would be seen.
    ///
    /// Ask for the least verbose level the accounting can produce: a failed stream reports at
    /// `ERROR`, so asking for any higher one would silently lose the totals of the very streams
    /// that an `ERROR` filter asks about.
    pub fn new<H, P>(options: &ProgressOptions<H, P>, tracing_enabled: bool) -> (progress: Self)
        ensures
            progress.wf(),
            progress.account() == (if options.on_progress is None && options.on_error is None
                && !tracing_enabled {
                None
            } else {
                Some(Account::start(options.progress_interval, options.progress_items))
            }),
    {
        Progress(ProgressState::maybe_new(options, tracing_enabled))
    }

    /// A handle that reports nothing.
    pub fn disabled() -> (progress: Self)
        ensures
            progress.wf(),
            progress.account() is None,
    {
        Progress(None)
    }

    /// Whether anything is listening. Useful to skip work that only feeds reporting.
    pub fn is_enabled(&self) -> (enabled: bool)
        ensures
            enabled == self.account() is Some,
    {
        self.0.is_some()
    }

    /// Count one item.
    ///
    /// A no-op when nobody is listening.
    pub fn record_item(&mut self, elapsed: Duration) -> (report: Option<Report>)
        requires
            old(self).wf(),
        ensures
            final(self).wf(),
            match old(self).account() {
                None => final(self).account() is None && report is None,
                Some(account) => {
                    let (after, due) = account.with_item(micros(elapsed));
                    &&& final(self).account() == Some(after)
                    &&& report is Some <==> due
                    &&& report matches Some(report) ==> report.tells_of(
                        after,
                        StreamOutcome::InProgress,
                        elapsed,
                    )
                },
            },
    {
        match &mut self.0 {
            Some(state) => state.record_item(elapsed),
            None => None,
        }
    }

    /// Count `len` transferred bytes.
    ///
    /// A no-op when nobody is listening.
    pub fn record_bytes(&mut self, len: u64, elapsed: Duration) -> (report: Option<ChunkReport>)
        requires
            old(self).wf(),
        ensures
            final(self).wf(),
            match old(self).account() {
                None => final(self).account() is None && report is None,
                Some(account) => {
                    let (after, due) = account.with_bytes(len, micros(elapsed));
                    &&& final(self).account() == Some(after)
                    &&& report matches Some(chunk)
                    &&& chunk.chunk_bytes == len
                    &&& chunk.items == after.items
                    &&& chunk.bytes == after.bytes
                    &&& chunk.due is Some <==> due
                    &&& chunk.due matches Some(report) ==> report.tells_of(
                        after,
                        StreamOutcome::InProgress,
                        elapsed,
                    )
                },
            },
    {
        match &mut self.0 {
            Some(state) => Some(state.record_bytes(len, elapsed)),
            None => None,
        }
    }

    /// Notes that the stream is about to be polled.
    pub fn mark_polled(&mut self)
        requires
            old(self).wf(),
        ensures
            final(self).wf(),
            final(self).account() == (match old(self).account() {
                Some(account) => Some(Account { polled: true, ..account }),
                None => None,
            }),
    {
        if let Some(state) = &mut self.0 {
            state.mark_polled();
        }
    }

    /// Takes note of what polling the outermost stream came to: every error passes through there.
    ///
    /// Errors are reported as they happen but are deliberately **not** terminal. Only some of
    /// them are: the JSON Lines and CSV formats produce their decoding errors from a successfully
    /// framed line, and the stream carries on to the next one.
    pub fn observe<'a, I: ProgressItem>(
        &mut self,
        polled: Polled<'a, I>,
        counting: Counting,
        elapsed: Duration,
    ) -> (report: PollReport<'a, I::Display>)
        requires
            old(self).wf(),
        ensures
            final(self).wf(),
            match old(self).account() {
                None => final(self).account() is None && report is Nothing,
                Some(account) => match polled {
                    Polled::Pending => final(self).account() == Some(account) && report is Nothing,
                    Polled::End => {
                        let (after, outcome) = account.ended(false);
                        &&& final(self).account() == Some(after)
                        &&& match outcome {
                            None => report is Nothing,
                            Some(outcome) => report matches PollReport::Progress(summary)
                                && summary.tells_of(after, outcome, elapsed),
                        }
                    },
                    Polled::Item(item) => exists|info: Option<ErrorInfo<'a, I::Display>>|
                        #[trigger] item.tells(info) && match info {
                            Some(info) => final(self).account() == Some(account.with_error())
                                && report == PollReport::Error(info),
                            None if counting == Counting::Items => {
                                let (after, due) = account.with_item(micros(elapsed));
                                &&& final(self).account() == Some(after)
                                &&& report is Nothing <==> !due
                                &&& due ==> (report matches PollReport::Progress(interim)
                                    && interim.tells_of(after, StreamOutcome::InProgress, elapsed))
                            },
                            None => final(self).account() == Some(account) && report is Nothing,
                        },
                },
            },
    {
        match &mut self.0 {
            None => PollReport::Nothing,
            Some(state) => match polled {
                Polled::Pending => PollReport::Nothing,
                Polled::End => match state.finalize(false, elapsed) {
                    Some(summary) => PollReport::Progress(summary),
                    None => PollReport::Nothing,
                },
                Polled::Item(item) => {
                    let info = item.progress_error();
                    assert(item.tells(info));
                    match info {
                        Some(info) => {
                            state.record_error();
                            PollReport::Error(info)
                        },
                        None => if counting == Counting::Items {
                            match state.record_item(elapsed) {
                                Some(interim) => PollReport::Progress(interim),
                                None => PollReport::Nothing,
                            }
                        } else {
                            PollReport::Nothing
                        },
                    }
                },
            },
        }
    }

    /// Takes note that the stream is gone, which is the only way to notice an end that stopped
    /// early. Nothing is reported when the stream already ran to completion, or was never polled.
    pub fn dropped(&mut self, elapsed: Duration) -> (report: Option<Report>)
        requires
            old(self).wf(),
        ensures
            final(self).wf(),
            match old(self).account() {
                None => final(self).account() is None && report is None,
                Some(account) => {
                    let (after, outcome) = account.ended(true);
                    &&& final(self).account() == Some(after)
                    &&& match outcome {
                        None => report is None,
                        Some(outcome) => report matches Some(summary) && summary.tells_of(
                            after,
                            outcome,
                            elapsed,
                        ),
                    }
                },
            },
    {
        match &mut self.0 {
            Some(state) => state.finalize(true, elapsed),
            None => None,
        }
    }
}

/// Once the summary has been reported nothing is reported any more, whatever happens.
pub proof fn law_nothing_follows_the_summary(
    account: Account,
    len: u64,
    now: u64,
    aborted: bool,
)
    requires
        account.finalized,
    ensures
        !account.with_bytes(len, now).1 && account.with_bytes(len, now).0.finalized,
        !account.with_item(now).1 && account.with_item(now).0.finalized,
        account.with_error().finalized,
        account.ended(aborted) == (account, None::<StreamOutcome>),
{
}

/// The end of a stream is summed up once, however often it is noticed.
pub proof fn law_one_summary(account: Account, first: bool, second: bool)
    ensures
        account.ended(first).0.ended(second).1 is None || account.ended(first).1 is None,
        account.polled && !account.finalized ==> account.ended(first).1 is Some && account.ended(
            first,
        ).0.ended(second).1 is None,
        !account.polled ==> account.ended(first).1 is None && account.ended(first).0.ended(
            second,
        ).1 is None,
{
}

/// A stream that has reported an error ends as failed, whether it reached its end or not.
pub proof fn law_an_error_makes_it_failed(account: Account, aborted: bool)
    requires
        account.polled,
        !account.finalized,
        account.errors < u64::MAX,
    ensures
        account.with_error().ended(aborted).1 == Some(StreamOutcome::Failed),
{
}

/// Something that happens to a stream.
pub enum Event {
    /// The stream is polled.
    Poll,
    /// So many bytes are transferred.
    Bytes(u64),
    /// An item passes.
    Item,
    /// An error passes.
    Error,
    /// The stream ends, or is gone before its end.
    End { aborted: bool },
}

/// A report, as far as the account goes.
pub struct Told {
    pub outcome: StreamOutcome,
    pub items: u64,
    pub bytes: u64,
    pub errors: u64,
}

impl Account {
    /// A report of this account.
    pub open spec fn told(self, outcome: StreamOutcome) -> Told {
        Told { outcome, items: self.items, bytes: self.bytes, errors: self.errors }
    }

    /// The account after an event, and what is reported.
    pub open spec fn after(self, event: Event, now: u64) -> (Account, Option<Told>) {
        match event {
            Event::Poll => (Account { polled: true, ..self }, None),
            Event::Bytes(len) => {
                let (next, due) = self.with_bytes(len, now);
                (
                    next,
                    if due {
                        Some(next.told(StreamOutcome::InProgress))
                    } else {
                        None
                    },
                )
            },
            Event::Item => {
                let (next, due) = self.with_item(now);
                (
                    next,
                    if due {
                        Some(next.told(StreamOutcome::InProgress))
                    } else {
                        None
                    },
                )
            },
            Event::Error => (self.with_error(), None),
            Event::End { aborted } => {
                let (next, outcome) = self.ended(aborted);
                (
                    next,
                    match outcome {
                        Some(outcome) => Some(next.told(outcome)),
                        None => None,
                    },
                )
            },
        }
    }

    /// The account after a sequence of events, each with its time.
    pub open spec fn over(self, events: Seq<(Event, u64)>) -> Account
        decreases events.len(),
    {
        if events.len() == 0 {
            self
        } else {
            self.over(events.drop_last()).after(events.last().0, events.last().1).0
        }
    }

    /// All that is reported over a sequence of events.
    pub open spec fn reports(self, events: Seq<(Event, u64)>) -> Seq<Told>
        decreases events.len(),
    {
        if events.len() == 0 {
            seq![]
        } else {
            let before = self.reports(events.drop_last());
            match self.over(events.drop_last()).after(events.last().0, events.last().1).1 {
                Some(told) => before.push(told),
                None => before,
            }
        }
    }
}

proof fn only_interim_before_the_end(account: Account, events: Seq<(Event, u64)>)
    requires
        !account.finalized,
        forall|i: int| 0 <= i < events.len() ==> (#[trigger] events[i]).0 !is End,
    ensures
        !account.over(events).finalized,
        forall|i: int|
            0 <= i < account.reports(events).len() ==> (#[trigger] account.reports(
                events,
            )[i]).outcome == StreamOutcome::InProgress,
    decreases events.len(),
{
    if events.len() > 0 {
        let fewer = events.drop_last();
        assert forall|i: int| 0 <= i < fewer.len() implies (#[trigger] fewer[i]).0 !is End by {
            assert(fewer[i] == events[i]);
        }
        only_interim_before_the_end(account, fewer);
        assert(events[events.len() - 1].0 !is End);
    }
}

proof fn silent_after_the_end(account: Account, events: Seq<(Event, u64)>, n: int)
    requires
        0 <= n <= events.len(),
        account.over(events.take(n)).finalized,
    ensures
        account.over(events).finalized,
        account.reports(events) == account.reports(events.take(n)),
    decreases events.len(),
{
    if n < events.len() {
        assert(events.drop_last().take(n) == events.take(n));
        silent_after_the_end(account, events.drop_last(), n);
    } else {
        assert(events.take(n) == events);
    }
}

/// Whatever happens to a stream that is polled ahead of its end, and whenever: before the end there
/// are interim reports only, the end is summed up once, with the totals of that moment, and nothing
/// is reported from then on, however often the end is noticed.
///
/// `n` is how many events there are before the first end.
pub proof fn law_progress_run(account: Account, events: Seq<(Event, u64)>, n: int)
    requires
        !account.finalized,
        0 <= n < events.len(),
        account.over(events.take(n)).polled,
        events[n].0 is End,
        forall|i: int| 0 <= i < n ==> (#[trigger] events[i]).0 !is End,
    ensures
        ({
            let before = account.reports(events.take(n));
            let then = account.over(events.take(n));
            &&& forall|i: int|
                0 <= i < before.len() ==> (#[trigger] before[i]).outcome
                    == StreamOutcome::InProgress
            &&& account.reports(events) == before.push(
                then.told(
                    if then.errors > 0 {
                        StreamOutcome::Failed
                    } else if events[n].0->aborted {
                        StreamOutcome::Aborted
                    } else {
                        StreamOutcome::Completed
                    },
                ),
            )
        }),
{
    let first = events.take(n);
    let ended = events.take(n + 1);
    assert forall|i: int| 0 <= i < first.len() implies (#[trigger] first[i]).0 !is End by {
        assert(first[i] == events[i]);
    }
    only_interim_before_the_end(account, first);
    assert(ended.drop_last() == first);
    assert(ended.last() == events[n]);
    silent_after_the_end(account, events, n + 1);
}

/// Whatever happens to a stream that is never polled, its end is not summed up.
pub proof fn law_a_stream_never_polled_is_not_summed_up(
    account: Account,
    events: Seq<(Event, u64)>,
)
    requires
        !account.polled,
        !account.finalized,
        forall|i: int| 0 <= i < events.len() ==> (#[trigger] events[i]).0 !is Poll,
    ensures
        !account.over(events).polled,
        !account.over(events).finalized,
        forall|i: int|
            0 <= i < account.reports(events).len() ==> (#[trigger] account.reports(
                events,
            )[i]).outcome == StreamOutcome::InProgress,
    decreases events.len(),
{
    if events.len() > 0 {
        let fewer = events.drop_last();
        assert forall|i: int| 0 <= i < fewer.len() implies (#[trigger] fewer[i]).0 !is Poll by {
            assert(fewer[i] == events[i]);
        }
        law_a_stream_never_polled_is_not_summed_up(account, fewer);
        assert(events[events.len() - 1].0 !is Poll);
    }
}

/// How many of the events are items.
pub open spec fn items_among(events: Seq<(Event, u64)>) -> nat
    decreases events.len(),
{
    if events.len() == 0 {
        0
    } else {
        items_among(events.drop_last()) + (if events.last().0 is Item {
            1nat
        } else {
            0
        })
    }
}

/// How many bytes the events transfer.
pub open spec fn bytes_among(events: Seq<(Event, u64)>) -> nat
    decreases events.len(),
{
    if events.len() == 0 {
        0
    } else {
        bytes_among(events.drop_last()) + (match events.last().0 {
            Event::Bytes(len) => len as nat,
            _ => 0,
        })
    }
}

/// How many of the events are errors.
pub open spec fn errors_among(events: Seq<(Event, u64)>) -> nat
    decreases events.len(),
{
    if events.len() == 0 {
        0
    } else {
        errors_among(events.drop_last()) + (if events.last().0 is Error {
            1nat
        } else {
            0
        })
    }
}

/// The totals are what has happened, as long as they can be counted.
pub proof fn law_totals_add_up(account: Account, events: Seq<(Event, u64)>)
    requires
        account.items + items_among(events) <= u64::MAX,
        account.bytes + bytes_among(events) <= u64::MAX,
        account.errors + errors_among(events) <= u64::MAX,
    ensures
        account.over(events).items == account.items + items_among(events),
        account.over(events).bytes == account.bytes + bytes_among(events),
        account.over(events).errors == account.errors + errors_among(events),
    decreases events.len(),
{
    if events.len() > 0 {
        law_totals_add_up(account, events.drop_last());
    }
}

/// With an item trigger in force, the next report is due at the next multiple of the step.
pub open spec fn in_step(account: Account) -> bool {
    account.step matches Some(step) && step > 0 && account.next_step == next_step_after(
        account.items,
        step,
    ) && account.items + step < u64::MAX
}

/// A report is made every time the number of items reaches a multiple of the step, and at no other
/// time.
pub proof fn law_a_report_every_step(account: Account, now: u64)
    requires
        in_step(account),
        !account.finalized,
    ensures
        account.with_item(now).1 <==> (account.items + 1) % (account.step->0 as int) == 0,
        account.items + 1 + account.step->0 < u64::MAX ==> in_step(account.with_item(now).0),
{
    let step = account.step->0 as int;
    let items = account.items as int;
    let q = items / step;
    let r = items % step;
    lemma_fundamental_div_mod(items, step);
    lemma_mod_bound(items, step);
    assert(items - r + step == step * q + step);
    if r + 1 < step {
        lemma_fundamental_div_mod_converse(items + 1, step, q, r + 1);
    } else {
        assert(items + 1 == (q + 1) * step + 0) by (nonlinear_arith)
            requires
                items == step * q + r,
                r + 1 == step,
        ;
        lemma_fundamental_div_mod_converse(items + 1, step, q + 1, 0);
    }
}

/// A fresh account is in step.
pub proof fn law_a_stream_starts_in_step(interval: Option<Duration>, step: u64)
    requires
        0 < step < u64::MAX,
    ensures
        in_step(Account::start(interval, Some(step))),
{
    lemma_fundamental_div_mod_converse(0, step as int, 0, 0);
}

/// Bytes are counted, all of them, and a report is made where the interval has passed since the last
/// one, before the summary; then the interval begins anew.
pub proof fn law_bytes_are_reported_by_the_clock(account: Account, len: u64, now: u64)
    requires
        account.bytes + len <= u64::MAX,
    ensures
        ({
            let (after, due) = account.with_bytes(len, now);
            &&& after.bytes == account.bytes + len
            &&& after.items == account.items
            &&& after.errors == account.errors
            &&& after.polled == account.polled
            &&& after.finalized == account.finalized
            &&& after.next_step == account.next_step
            &&& after.interval == account.interval
            &&& after.step == account.step
            &&& now >= account.last_emit ==> (due <==> !account.finalized && (
            account.interval matches Some(interval) && now - account.last_emit >= interval))
            &&& after.last_emit == (if due {
                now
            } else {
                account.last_emit
            })
        }),
{
}

/// An item is counted as one, and a report is made where the count has reached the next step, before
/// the summary; then both triggers begin anew.
pub proof fn law_items_are_reported_by_the_step(account: Account, now: u64)
    requires
        account.items < u64::MAX,
    ensures
        ({
            let (after, due) = account.with_item(now);
            &&& after.items == account.items + 1
            &&& after.bytes == account.bytes
            &&& after.errors == account.errors
            &&& after.polled == account.polled
            &&& after.finalized == account.finalized
            &&& after.interval == account.interval
            &&& after.step == account.step
            &&& due <==> !account.finalized && account.step is Some && account.items + 1
                >= account.next_step
            &&& after.last_emit == (if due {
                now
            } else {
                account.last_emit
            })
            &&& !due ==> after.next_step == account.next_step
        }),
{
}

/// An error is counted as one, and changes nothing else.
pub proof fn law_errors_are_counted(account: Account)
    requires
        account.errors < u64::MAX,
    ensures
        account.with_error() == (Account { errors: (account.errors + 1) as u64, ..account }),
{
}

/// The summary of a stream says how it ended: failed where it reported an error, else aborted or
/// completed; and it is made only where the stream was polled, and once.
pub proof fn law_how_a_stream_ends(account: Account, aborted: bool)
    ensures
        ({
            let (after, outcome) = account.ended(aborted);
            &&& outcome is Some <==> account.polled && !account.finalized
            &&& outcome is Some ==> after == (Account { finalized: true, ..account })
            &&& outcome is None ==> after == account
            &&& outcome is Some && account.errors > 0 ==> outcome == Some(StreamOutcome::Failed)
            &&& outcome is Some && account.errors == 0 && aborted ==> outcome == Some(
                StreamOutcome::Aborted,
            )
            &&& outcome is Some && account.errors == 0 && !aborted ==> outcome == Some(
                StreamOutcome::Completed,
            )
        }),
{
}

/// A stream begins with nothing counted, the step first reached at the step itself, and a step of
/// zero is none.
pub proof fn law_how_a_stream_starts(interval: Option<Duration>, items: Option<u64>)
    ensures
        ({
            let account = Account::start(interval, items);
            &&& account.items == 0 && account.bytes == 0 && account.errors == 0
            &&& account.last_emit == 0 && !account.polled && !account.finalized
            &&& account.interval is Some <==> interval is Some
            &&& interval matches Some(interval) ==> account.interval == Some(micros(interval))
            &&& account.step is Some <==> (items matches Some(step) && step > 0)
            &&& account.step matches Some(step) ==> items == Some(step) && account.next_step == step
        }),
{
}

/// A report says what the account says, and its log event goes by how the stream ended.
pub proof fn law_what_a_report_tells(
    report: Report,
    account: Account,
    outcome: StreamOutcome,
    elapsed: Duration,
)
    requires
        report.tells_of(account, outcome, elapsed),
    ensures
        report.progress.items == account.items,
        report.progress.bytes == account.bytes,
        report.progress.errors == account.errors,
        report.progress.elapsed == elapsed,
        report.progress.outcome == outcome,
        report.elapsed_ms == millis(elapsed),
        outcome == StreamOutcome::InProgress ==> report.level == Level::Debug && report.message@
            == "Streaming an HTTP body"@,
        outcome == StreamOutcome::Failed ==> report.level == Level::Error && report.message@
            == "Failed streaming an HTTP body"@,
        outcome == StreamOutcome::Completed || outcome == StreamOutcome::Aborted ==> report.level
            == Level::Info && report.message@ == "Finished streaming an HTTP body"@,
{
}

/// The names that are reported.
pub proof fn law_reported_names()
    ensures
        Direction::Request.name() == "request"@,
        Direction::Response.name() == "response"@,
        Side::Client.name() == "client"@,
        Side::Server.name() == "server"@,
        StreamOutcome::InProgress.name() == "in_progress"@,
        StreamOutcome::Completed.name() == "completed"@,
        StreamOutcome::Aborted.name() == "aborted"@,
        StreamOutcome::Failed.name() == "failed"@,
{
}

/// Times are counted in whole microseconds and milliseconds, as long as they fit.
pub proof fn law_times_are_counted(duration: Duration)
    ensures
        nanos(duration) / 1000 <= u64::MAX ==> micros(duration) == nanos(duration) / 1000,
        nanos(duration) / 1000000 <= u64::MAX ==> millis(duration) == nanos(duration) / 1000000,
{
}

} // verus!
