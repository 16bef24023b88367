//! Decoding JSON Lines.
//!
//! The easy direction: a JSON serialiser escapes newlines inside strings, so a raw `\n` can only
//! ever be a record separator and a line split is safe.

use crate::error::{caused, reason, ErrorSource, ErrorView, StreamError, StreamErrorKind};
use crate::octets::held;
use bytes::BytesMut;
use tokio_util::codec::{Decoder, LinesCodec, LinesCodecError};
use vstd::prelude::*;
use vstd::utf8::{decode_utf8, valid_utf8};

verus! {

/// `\n`
pub const NEWLINE: u8 = 0x0a;

/// `\r`
pub const CARRIAGE_RETURN: u8 = 0x0d;

/// `tokio_util::codec::LinesCodec`, which splits data into lines.
#[verifier::external_type_specification]
#[verifier::external_body]
pub struct ExLinesCodec(LinesCodec);

/// How far a `LinesCodec` is.
pub struct LineState {
    /// The length beyond which a line is refused.
    pub limit: nat,
    /// How many bytes at the front of the buffer are known to hold no line ending.
    pub scanned: nat,
    /// The rest of a line that was refused is being dropped.
    pub discarding: bool,
}

/// How far a `LinesCodec` is.
pub uninterp spec fn line_state(codec: LinesCodec) -> LineState;

/// How a look at the buffer ended; `left` is what stays in it.
pub enum Line {
    /// There is no whole line.
    More { state: LineState, left: Seq<u8> },
    /// A whole line.
    Whole { text: Seq<u8>, state: LineState, left: Seq<u8> },
    /// The line is longer than the limit.
    TooLong { state: LineState, left: Seq<u8> },
}

/// `text` without a carriage return at its end.
pub open spec fn without_carriage_return(text: Seq<u8>) -> Seq<u8> {
    if text.len() > 0 && text.last() == CARRIAGE_RETURN {
        text.drop_last()
    } else {
        text
    }
}

/// Where the first line ending is, or the end of `body` where there is none.
pub open spec fn first_newline(body: Seq<u8>) -> int
    decreases body.len(),
{
    if body.len() == 0 || body[0] == NEWLINE {
        0
    } else {
        1 + first_newline(body.drop_first())
    }
}

/// There is no line ending ahead of the first.
pub proof fn newline_bounds(body: Seq<u8>)
    ensures
        0 <= first_newline(body) <= body.len(),
        first_newline(body) < body.len() ==> body[first_newline(body)] == NEWLINE,
        forall|i: int| 0 <= i < first_newline(body) ==> #[trigger] body[i] != NEWLINE,
    decreases body.len(),
{
    if body.len() > 0 && body[0] != NEWLINE {
        let rest = body.drop_first();
        newline_bounds(rest);
        assert forall|i: int| 0 <= i < first_newline(body) implies #[trigger] body[i] != NEWLINE by {
            if i > 0 {
                assert(rest[i - 1] == body[i]);
            }
        }
    }
}

impl LineState {
    /// Whether the codec can go on with a buffer that holds `body`: what it has looked at is
    /// there, and holds no line ending.
    pub open spec fn ready(self, body: Seq<u8>) -> bool {
        &&& self.scanned <= body.len()
        &&& self.scanned <= self.limit + 1
        &&& self.scanned > 0 ==> self.scanned <= first_newline(body)
    }

    /// The first line of `body`.
    pub open spec fn line(self, body: Seq<u8>) -> Line {
        let n = first_newline(body);
        let fresh = LineState { scanned: 0, ..self };
        if n < body.len() && n <= self.limit {
            Line::Whole {
                text: without_carriage_return(body.take(n)),
                state: fresh,
                left: body.skip(n + 1),
            }
        } else if body.len() > self.limit {
            Line::TooLong { state: LineState { discarding: true, ..self }, left: body }
        } else {
            Line::More { state: LineState { scanned: body.len(), ..self }, left: body }
        }
    }

    /// The next line of `body`: what is left of a line that was refused is dropped first.
    pub open spec fn next(self, body: Seq<u8>) -> Line {
        let n = first_newline(body);
        let fresh = LineState { scanned: 0, ..self };
        if !self.discarding {
            self.line(body)
        } else if n < body.len() {
            (LineState { discarding: false, ..fresh }).line(body.skip(n + 1))
        } else {
            Line::More { state: fresh, left: seq![] }
        }
    }

    /// The next line where `body` is all that is left: what has no line ending is a line too.
    pub open spec fn last(self, body: Seq<u8>) -> Line {
        match self.next(body) {
            Line::More { state, left } => {
                let fresh = LineState { scanned: 0, ..state };
                if left.len() == 0 || left == seq![CARRIAGE_RETURN] {
                    Line::More { state: fresh, left }
                } else {
                    Line::Whole { text: without_carriage_return(left), state: fresh, left: seq![] }
                }
            },
            line => line,
        }
    }
}

/// Why there is no line.
#[derive(Debug)]
pub enum LineError {
    /// It is longer than the limit.
    TooLong,
    /// It is no text.
    Io(std::io::Error),
}

/// Whether a call that met `line` returns `res`.
pub open spec fn line_result(line: Line, res: Result<Option<String>, LineError>) -> bool {
    match line {
        Line::More { .. } => res matches Ok(None),
        Line::Whole { text, .. } => if valid_utf8(text) {
            res matches Ok(Some(found)) && found@ == decode_utf8(text)
        } else {
            res matches Err(LineError::Io(_))
        },
        Line::TooLong { .. } => res matches Err(LineError::TooLong),
    }
}

/// Whether a call that met `line` leaves the codec and the buffer like this.
pub open spec fn line_leaves(line: Line, state: LineState, left: Seq<u8>) -> bool {
    match line {
        Line::More { state: after, left: rest } => state == after && left == rest,
        Line::Whole { state: after, left: rest, .. } => state == after && left == rest,
        Line::TooLong { state: after, left: rest } => state == after && left == rest,
    }
}

/// A codec that could go on with a buffer can go on with what it leaves in it.
pub proof fn ready_is_kept(state: LineState, body: Seq<u8>)
    requires
        state.ready(body),
    ensures
        match state.next(body) {
            Line::More { state: after, left } => after.ready(left),
            Line::Whole { state: after, left, .. } => after.ready(left),
            Line::TooLong { state: after, left } => after.ready(left),
        },
        match state.last(body) {
            Line::More { state: after, left } => after.ready(left),
            Line::Whole { state: after, left, .. } => after.ready(left),
            Line::TooLong { state: after, left } => after.ready(left),
        },
{
    newline_bounds(body);
    let n = first_newline(body);
    if n < body.len() {
        newline_bounds(body.skip(n + 1));
    }
}

/// `LinesCodec::new_with_max_length`: a codec that has seen nothing yet.
#[verifier::external_body]
fn lines_codec(max_length: usize) -> (codec: LinesCodec)
    ensures
        line_state(codec) == (LineState {
            limit: max_length as nat,
            scanned: 0,
            discarding: false,
        }),
{
    LinesCodec::new_with_max_length(max_length)
}

/// `LinesCodec::decode`: takes the next line off the front of the buffer, without its ending.
/// A line longer than the limit is an error, and the next call drops the rest of it; a line that
/// is not UTF-8 is an error, and is gone.
///
/// It panics where the buffer holds less than what it has looked at before.
#[verifier::external_body]
fn decode_line(codec: &mut LinesCodec, buf: &mut BytesMut) -> (res: Result<
    Option<String>,
    LineError,
>)
    requires
        line_state(*old(codec)).ready(held(*old(buf))),
    ensures
        line_result(line_state(*old(codec)).next(held(*old(buf))), res),
        line_leaves(
            line_state(*old(codec)).next(held(*old(buf))),
            line_state(*final(codec)),
            held(*final(buf)),
        ),
{
    codec.decode(buf).map_err(|err| match err {
        LinesCodecError::MaxLineLengthExceeded => LineError::TooLong,
        LinesCodecError::Io(err) => LineError::Io(err),
    })
}

/// `LinesCodec::decode_eof`: as `LinesCodec::decode`, but what has no line ending is a line too,
/// unless it is nothing or a lone carriage return.
#[verifier::external_body]
fn decode_last_line(codec: &mut LinesCodec, buf: &mut BytesMut) -> (res: Result<
    Option<String>,
    LineError,
>)
    requires
        line_state(*old(codec)).ready(held(*old(buf))),
    ensures
        line_result(line_state(*old(codec)).last(held(*old(buf))), res),
        line_leaves(
            line_state(*old(codec)).last(held(*old(buf))),
            line_state(*final(codec)),
            held(*final(buf)),
        ),
{
    codec.decode_eof(buf).map_err(|err| match err {
        LinesCodecError::MaxLineLengthExceeded => LineError::TooLong,
        LinesCodecError::Io(err) => LineError::Io(err),
    })
}

/// What a line that is no text is reported as.
pub open spec fn is_no_text(error: ErrorView) -> bool {
    &&& error.kind == StreamErrorKind::InputOutputError
    &&& error.source is Some
    &&& error.source->0 is Io
    &&& error.message is None
}

/// What a line that is longer than the limit is reported as.
pub open spec fn line_too_long() -> ErrorView {
    reason(StreamErrorKind::MaxLenReachedError, "Max line length reached"@)
}

/// Framing failures are told apart from failures of a single line: a line which blew the length
/// limit ends the body and reports as [`MaxLenReachedError`], while a line that is no text was
/// framed correctly, and is an error **item**.
///
/// [`MaxLenReachedError`]: StreamErrorKind::MaxLenReachedError
fn frame_error(err: LineError) -> (res: Result<Option<Result<String, StreamError>>, StreamError>)
    ensures
        match err {
            LineError::TooLong => res matches Err(error) && error@ == line_too_long(),
            LineError::Io(err) => res matches Ok(Some(Err(error))) && error@ == caused(
                StreamErrorKind::InputOutputError,
                ErrorSource::Io(err),
            ),
        },
{
    match err {
        LineError::TooLong => Err(
            StreamError::because(StreamErrorKind::MaxLenReachedError, "Max line length reached"),
        ),
        LineError::Io(err) => Ok(Some(Err(StreamError::from(err)))),
    }
}

/// What a parsed line amounts to. A line that fails to parse is an error **item**, not the
/// decoder's error: the line framed correctly, so the decoder knows exactly where the next one
/// starts and the stream carries on.
pub open spec fn line_outcome<T>(
    parsed: Result<T, serde_json::Error>,
    outcome: Result<Option<Result<T, StreamError>>, StreamError>,
) -> bool {
    match parsed {
        Ok(item) => outcome == Ok::<_, StreamError>(Some(Ok::<_, StreamError>(item))),
        Err(err) => outcome matches Ok(Some(Err(error))) && error@ == caused(
            StreamErrorKind::CodecError,
            ErrorSource::Json(err),
        ),
    }
}

/// Yields one deserialised item per line.
#[derive(Debug)]
pub struct JsonNewLineCodec {
    inner: LinesCodec,
}

impl View for JsonNewLineCodec {
    type V = LineState;

    closed spec fn view(&self) -> LineState {
        line_state(self.inner)
    }
}

impl JsonNewLineCodec {
    /// Whether a call that met `line` returns `res`: the text of the line, or why there is none.
    pub open spec fn found(
        line: Line,
        res: Result<Option<Result<String, StreamError>>, StreamError>,
    ) -> bool {
        match line {
            Line::More { .. } => res matches Ok(None),
            Line::Whole { text, .. } => if valid_utf8(text) {
                res matches Ok(Some(Ok(found))) && found@ == decode_utf8(text)
            } else {
                res matches Ok(Some(Err(error))) && is_no_text(error@)
            },
            Line::TooLong { .. } => res matches Err(error) && error@ == line_too_long(),
        }
    }

    /// A codec that rejects any single line longer than `max_length` bytes.
    pub fn new_with_max_length(max_length: usize) -> (codec: Self)
        ensures
            codec@ == (LineState { limit: max_length as nat, scanned: 0, discarding: false }),
            forall|body: Seq<u8>| codec@.ready(body),
    {
        JsonNewLineCodec { inner: lines_codec(max_length) }
    }

    /// The text of the next line, if the buffer holds the end of one.
    pub fn next_line(&mut self, buf: &mut BytesMut) -> (res: Result<
        Option<Result<String, StreamError>>,
        StreamError,
    >)
        requires
            old(self)@.ready(held(*old(buf))),
        ensures
            Self::found(old(self)@.next(held(*old(buf))), res),
            line_leaves(old(self)@.next(held(*old(buf))), final(self)@, held(*final(buf))),
            final(self)@.ready(held(*final(buf))),
    {
        proof {
            ready_is_kept(self@, held(*buf));
        }
        match decode_line(&mut self.inner, buf) {
            Ok(Some(line)) => Ok(Some(Ok(line))),
            Ok(None) => Ok(None),
            Err(err) => frame_error(err),
        }
    }

    /// The text of the next line, where the buffer holds all that is left of the body.
    pub fn last_line(&mut self, buf: &mut BytesMut) -> (res: Result<
        Option<Result<String, StreamError>>,
        StreamError,
    >)
        requires
            old(self)@.ready(held(*old(buf))),
        ensures
            Self::found(old(self)@.last(held(*old(buf))), res),
            line_leaves(old(self)@.last(held(*old(buf))), final(self)@, held(*final(buf))),
            final(self)@.ready(held(*final(buf))),
    {
        proof {
            ready_is_kept(self@, held(*buf));
        }
        match decode_last_line(&mut self.inner, buf) {
            Ok(Some(line)) => Ok(Some(Ok(line))),
            Ok(None) => Ok(None),
            Err(err) => frame_error(err),
        }
    }

    /// What a call that met `line` returns, once the line is parsed by `parse`.
    pub open spec fn parsed<T, P: FnOnce(&str) -> Result<T, serde_json::Error>>(
        line: Line,
        parse: P,
        res: Result<Option<Result<T, StreamError>>, StreamError>,
    ) -> bool {
        exists|found: Result<Option<Result<String, StreamError>>, StreamError>| #[trigger]
            Self::found(line, found) && match found {
                Err(error) => res == Err::<Option<Result<T, StreamError>>, StreamError>(error),
                Ok(None) => res matches Ok(None),
                Ok(Some(Err(error))) => res == Ok::<_, StreamError>(
                    Some(Err::<T, StreamError>(error)),
                ),
                Ok(Some(Ok(text))) => exists|line: &str, parsed: Result<T, serde_json::Error>|
                    line@ == text@ && #[trigger] call_ensures(parse, (line,), parsed)
                        && line_outcome(parsed, res),
            }
    }

    /// The next item, parsed by `parse`, if the buffer holds the end of a line.
    pub fn decode<T, P: FnOnce(&str) -> Result<T, serde_json::Error>>(
        &mut self,
        buf: &mut BytesMut,
        parse: P,
    ) -> (res: Result<Option<Result<T, StreamError>>, StreamError>)
        requires
            old(self)@.ready(held(*old(buf))),
            forall|line: &str| #[trigger] call_requires(parse, (line,)),
        ensures
            Self::parsed(old(self)@.next(held(*old(buf))), parse, res),
            line_leaves(old(self)@.next(held(*old(buf))), final(self)@, held(*final(buf))),
            final(self)@.ready(held(*final(buf))),
    {
        let found = self.next_line(buf);
        parse_line(found, parse)
    }

    /// The next item, parsed by `parse`, where the buffer holds all that is left of the body.
    pub fn decode_eof<T, P: FnOnce(&str) -> Result<T, serde_json::Error>>(
        &mut self,
        buf: &mut BytesMut,
        parse: P,
    ) -> (res: Result<Option<Result<T, StreamError>>, StreamError>)
        requires
            old(self)@.ready(held(*old(buf))),
            forall|line: &str| #[trigger] call_requires(parse, (line,)),
        ensures
            Self::parsed(old(self)@.last(held(*old(buf))), parse, res),
            line_leaves(old(self)@.last(held(*old(buf))), final(self)@, held(*final(buf))),
            final(self)@.ready(held(*final(buf))),
    {
        let found = self.last_line(buf);
        parse_line(found, parse)
    }
}

/// What becomes of a line once it is parsed by `parse`.
fn parse_line<T, P: FnOnce(&str) -> Result<T, serde_json::Error>>(
    found: Result<Option<Result<String, StreamError>>, StreamError>,
    parse: P,
) -> (res: Result<Option<Result<T, StreamError>>, StreamError>)
    requires
        forall|line: &str| #[trigger] call_requires(parse, (line,)),
    ensures
        match found {
            Err(error) => res == Err::<Option<Result<T, StreamError>>, StreamError>(error),
            Ok(None) => res matches Ok(None),
            Ok(Some(Err(error))) => res == Ok::<_, StreamError>(Some(Err::<T, StreamError>(error))),
            Ok(Some(Ok(text))) => exists|line: &str, parsed: Result<T, serde_json::Error>|
                line@ == text@ && #[trigger] call_ensures(parse, (line,), parsed) && line_outcome(
                    parsed,
                    res,
                ),
        },
{
    match found {
        Err(error) => Err(error),
        Ok(None) => Ok(None),
        Ok(Some(Err(error))) => Ok(Some(Err(error))),
        Ok(Some(Ok(text))) => {
            let line = text.as_str();
            let parsed = parse(line);
            let ghost outcome = parsed;
            assert(call_ensures(parse, (line,), outcome));
            match parsed {
                Ok(item) => Ok(Some(Ok(item))),
                Err(err) => Ok(Some(Err(StreamError::codec(ErrorSource::Json(err))))),
            }
        },
    }
}

} // verus!
