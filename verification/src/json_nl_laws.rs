//! What holds of a body of JSON lines as a whole, however it is cut into chunks.

use crate::error::{ErrorSource, StreamError, StreamErrorKind};
use crate::json_nl_codec::{
    first_newline, line_leaves, line_outcome, newline_bounds, JsonNewLineCodec, Line, LineState,
    CARRIAGE_RETURN, NEWLINE,
};
use vstd::prelude::*;
use vstd::utf8::{decode_utf8, valid_utf8};

verus! {

/// What comes of asking a codec for lines until it has no more. After a failure nothing is left.
pub struct Drained {
    /// The lines, in order.
    pub lines: Seq<Seq<u8>>,
    /// A line was longer than the limit.
    pub failed: bool,
    /// How far the codec is afterwards.
    pub state: LineState,
    /// The bytes that are left.
    pub left: Seq<u8>,
}

impl Drained {
    /// `self` with `lines` before its own.
    pub open spec fn after(self, lines: Seq<Seq<u8>>) -> Drained {
        Drained { lines: lines + self.lines, ..self }
    }
}

/// A codec that has seen nothing yet.
pub open spec fn start(limit: nat) -> LineState {
    LineState { limit, scanned: 0, discarding: false }
}

/// Asks for lines, with `body` buffered, until there are no more.
pub open spec fn drain(state: LineState, body: Seq<u8>) -> Drained
    decreases body.len(),
{
    match state.next(body) {
        Line::More { state, left } => Drained { lines: seq![], failed: false, state, left },
        Line::Whole { text, state, left } => if left.len() < body.len() {
            drain(state, left).after(seq![text])
        } else {
            Drained { lines: seq![], failed: false, state, left }
        },
        Line::TooLong { .. } => Drained {
            lines: seq![],
            failed: true,
            state: start(state.limit),
            left: seq![],
        },
    }
}

/// Appends one chunk after another to the buffer, and asks for lines until there are no more each
/// time; a failure ends it.
pub open spec fn feed(state: LineState, left: Seq<u8>, chunks: Seq<Seq<u8>>) -> Drained
    decreases chunks.len(),
{
    if chunks.len() == 0 {
        drain(state, left)
    } else {
        let first = drain(state, left + chunks[0]);
        if first.failed {
            first
        } else {
            feed(first.state, first.left, chunks.drop_first()).after(first.lines)
        }
    }
}

/// The line that the end of the body completes, if there is one.
pub open spec fn tail(drained: Drained) -> Seq<Seq<u8>> {
    match drained.state.last(drained.left) {
        Line::Whole { text, .. } if !drained.failed => seq![text],
        _ => seq![],
    }
}

/// The lines of a body that arrives in `chunks`, and whether it was refused.
pub open spec fn lines_of(limit: nat, chunks: Seq<Seq<u8>>) -> (Seq<Seq<u8>>, bool) {
    let drained = feed(start(limit), seq![], chunks);
    (drained.lines + tail(drained), drained.failed)
}

proof fn newline_is(body: Seq<u8>, n: int)
    requires
        0 <= n < body.len(),
        body[n] == NEWLINE,
        forall|i: int| 0 <= i < n ==> #[trigger] body[i] != NEWLINE,
    ensures
        first_newline(body) == n,
{
    newline_bounds(body);
    let m = first_newline(body);
    if m < n {
        assert(body[m] != NEWLINE);
    }
}

proof fn newline_continues(body: Seq<u8>, more: Seq<u8>)
    ensures
        first_newline(body) < body.len() ==> first_newline(body + more) == first_newline(body),
        first_newline(body) == body.len() ==> first_newline(body + more) >= body.len(),
{
    newline_bounds(body);
    newline_bounds(body + more);
    let n = first_newline(body);
    if n < body.len() {
        assert((body + more)[n] == body[n]);
        assert forall|i: int| 0 <= i < n implies #[trigger] (body + more)[i] != NEWLINE by {
            assert(body[i] != NEWLINE);
        }
        newline_is(body + more, n);
    } else {
        let m = first_newline(body + more);
        if m < body.len() {
            assert((body + more)[m] == body[m]);
        }
    }
}

/// A line that is there stays what it is when more bytes follow.
proof fn line_continues(state: LineState, body: Seq<u8>, more: Seq<u8>)
    requires
        !state.discarding,
    ensures
        match state.next(body) {
            Line::More { state: after, left } => {
                &&& left == body
                &&& after == (LineState { scanned: body.len(), ..state })
            },
            Line::Whole { text, state: after, left } => {
                &&& after == (LineState { scanned: 0, ..state })
                &&& left.len() < body.len()
                &&& state.next(body + more) == (Line::Whole { text, state: after, left: left + more })
            },
            Line::TooLong { .. } => state.next(body + more) is TooLong,
        },
{
    let n = first_newline(body);
    newline_bounds(body);
    newline_bounds(body + more);
    newline_continues(body, more);
    if n < body.len() {
        assert((body + more).take(n) == body.take(n));
        assert((body + more).skip(n + 1) == body.skip(n + 1) + more);
    }
}

/// How much of the buffer a codec has looked at makes no difference to what it finds.
proof fn scanned_does_not_matter(state: LineState, scanned: nat, body: Seq<u8>)
    requires
        !state.discarding,
    ensures
        drain(state, body) == drain(LineState { scanned, ..state }, body),
    decreases body.len(),
{
    line_continues(state, body, seq![]);
    line_continues(LineState { scanned, ..state }, body, seq![]);
}

proof fn drain_continues(state: LineState, body: Seq<u8>, more: Seq<u8>)
    requires
        !state.discarding,
    ensures
        ({
            let first = drain(state, body);
            let whole = drain(state, body + more);
            &&& !first.state.discarding
            &&& if first.failed {
                whole.lines == first.lines && whole.failed
            } else {
                whole == drain(first.state, first.left + more).after(first.lines)
            }
        }),
    decreases body.len(),
{
    line_continues(state, body, more);
    match state.next(body) {
        Line::More { state: after, left } => {
            scanned_does_not_matter(state, body.len(), body + more);
            let rest = drain(after, left + more);
            assert(rest.after(seq![]).lines == rest.lines);
        },
        Line::Whole { text, state: after, left } => {
            drain_continues(after, left, more);
            let inner = drain(after, left);
            let rest = drain(inner.state, inner.left + more);
            assert(seq![text] + (inner.lines + rest.lines) == (seq![text] + inner.lines)
                + rest.lines);
        },
        Line::TooLong { .. } => {},
    }
}

proof fn feed_is_drain(state: LineState, left: Seq<u8>, chunks: Seq<Seq<u8>>)
    requires
        !state.discarding,
    ensures
        ({
            let piecewise = feed(state, left, chunks);
            let at_once = drain(state, left + chunks.flatten());
            &&& piecewise.lines == at_once.lines
            &&& piecewise.failed == at_once.failed
            &&& !piecewise.failed ==> piecewise == at_once
        }),
    decreases chunks.len(),
{
    if chunks.len() == 0 {
        assert(left + chunks.flatten() == left);
    } else {
        let rest = chunks.drop_first();
        let first = drain(state, left + chunks[0]);
        assert(left + chunks.flatten() == (left + chunks[0]) + rest.flatten());
        drain_continues(state, left + chunks[0], rest.flatten());
        if !first.failed {
            feed_is_drain(first.state, first.left, rest);
        }
    }
}

/// How a body of lines is cut into chunks makes no difference: the same lines come out, and it is
/// refused in the same place or not at all.
pub proof fn law_chunking_does_not_matter(limit: nat, chunks: Seq<Seq<u8>>)
    ensures
        lines_of(limit, chunks) == lines_of(limit, seq![chunks.flatten()]),
{
    let body = chunks.flatten();
    feed_is_drain(start(limit), seq![], chunks);
    feed_is_drain(start(limit), seq![], seq![body]);
    seq![body].lemma_flatten_one_element();
}

/// The texts, each with a line ending behind it.
pub open spec fn terminated(texts: Seq<Seq<u8>>) -> Seq<u8>
    decreases texts.len(),
{
    if texts.len() == 0 {
        seq![]
    } else {
        texts[0] + seq![NEWLINE] + terminated(texts.drop_first())
    }
}

/// A text that is one line: no line ending in it, and no carriage return at its end.
pub open spec fn is_line(text: Seq<u8>) -> bool {
    &&& forall|i: int| 0 <= i < text.len() ==> #[trigger] text[i] != NEWLINE
    &&& text.len() > 0 ==> text.last() != CARRIAGE_RETURN
}

proof fn drain_terminated(limit: nat, texts: Seq<Seq<u8>>)
    requires
        forall|i: int|
            0 <= i < texts.len() ==> is_line(#[trigger] texts[i]) && texts[i].len() <= limit,
    ensures
        ({
            let drained = drain(start(limit), terminated(texts));
            &&& drained.lines == texts
            &&& !drained.failed
            &&& drained.left == Seq::<u8>::empty()
            &&& !drained.state.discarding
        }),
    decreases texts.len(),
{
    let body = terminated(texts);
    newline_bounds(body);
    if texts.len() > 0 {
        let text = texts[0];
        let rest = texts.drop_first();
        let n = text.len() as int;
        assert(is_line(text));
        assert(body[n] == NEWLINE);
        assert forall|i: int| 0 <= i < n implies #[trigger] body[i] != NEWLINE by {
            assert(body[i] == text[i]);
        }
        newline_is(body, n);
        assert(body.take(n) == text);
        assert(body.skip(n + 1) == terminated(rest));
        assert forall|i: int| 0 <= i < rest.len() implies is_line(#[trigger] rest[i])
            && rest[i].len() <= limit by {
            assert(rest[i] == texts[i + 1]);
        }
        drain_terminated(limit, rest);
        assert(texts == seq![text] + rest);
    }
}

/// The lines of a body are the texts that it was written from, however its bytes are cut into
/// chunks.
pub proof fn law_lines_round_trip(limit: nat, texts: Seq<Seq<u8>>, chunks: Seq<Seq<u8>>)
    requires
        chunks.flatten() == terminated(texts),
        forall|i: int|
            0 <= i < texts.len() ==> is_line(#[trigger] texts[i]) && texts[i].len() <= limit,
    ensures
        lines_of(limit, chunks) == (texts, false),
{
    feed_is_drain(start(limit), seq![], chunks);
    assert(seq![] + chunks.flatten() == terminated(texts));
    drain_terminated(limit, texts);
    newline_bounds(Seq::<u8>::empty());
    let drained = feed(start(limit), seq![], chunks);
    assert(drained.lines + tail(drained) == texts);
}

/// What [`drain`] says is what comes of calling the codec again and again: `after` and `left` are
/// what one call leaves behind.
pub proof fn law_draining_is_calling(
    codec: JsonNewLineCodec,
    body: Seq<u8>,
    after: JsonNewLineCodec,
    left: Seq<u8>,
)
    requires
        !codec@.discarding,
        line_leaves(codec@.next(body), after@, left),
    ensures
        match codec@.next(body) {
            Line::More { .. } => drain(codec@, body) == (Drained {
                lines: seq![],
                failed: false,
                state: after@,
                left,
            }),
            Line::Whole { text, .. } => drain(codec@, body) == drain(after@, left).after(seq![text]),
            Line::TooLong { .. } => drain(codec@, body).failed && drain(codec@, body).lines.len()
                == 0,
        },
{
    line_continues(codec@, body, seq![]);
}

proof fn drained_are_within(state: LineState, body: Seq<u8>)
    requires
        !state.discarding,
    ensures
        forall|i: int|
            0 <= i < drain(state, body).lines.len() ==> (#[trigger] drain(
                state,
                body,
            ).lines[i]).len() <= state.limit,
        drain(state, body).state.limit == state.limit,
    decreases body.len(),
{
    newline_bounds(body);
    line_continues(state, body, seq![]);
    match state.next(body) {
        Line::Whole { text, state: after, left } => {
            drained_are_within(after, left);
            let later = drain(after, left);
            assert forall|i: int| 0 <= i < drain(state, body).lines.len() implies (
            #[trigger] drain(state, body).lines[i]).len() <= state.limit by {
                assert(drain(state, body).lines[i] == if i == 0 {
                    text
                } else {
                    later.lines[i - 1]
                });
            }
        },
        _ => {},
    }
}

/// No line comes out that is longer than the limit, however the body is cut into chunks.
pub proof fn law_no_line_beyond_the_limit(limit: nat, chunks: Seq<Seq<u8>>, i: int)
    requires
        0 <= i < lines_of(limit, chunks).0.len(),
    ensures
        lines_of(limit, chunks).0[i].len() <= limit,
{
    let body = seq![] + chunks.flatten();
    let drained = drain(start(limit), body);
    feed_is_drain(start(limit), seq![], chunks);
    drained_are_within(start(limit), body);
    drain_continues(start(limit), body, seq![]);
    newline_bounds(drained.left);
    if i < drained.lines.len() {
        assert(lines_of(limit, chunks).0[i] == drained.lines[i]);
    } else {
        assert(lines_of(limit, chunks).0[i] == tail(drained)[i - drained.lines.len()]);
    }
}

/// A codec that can go on with what is buffered can go on once more bytes follow.
pub proof fn law_a_codec_stays_ready(state: LineState, body: Seq<u8>, more: Seq<u8>)
    requires
        state.ready(body),
    ensures
        state.ready(body + more),
{
    newline_bounds(body);
    newline_continues(body, more);
}

/// What a line is answered with: its text where it is one, an item that says so where it is no text,
/// which does not end the body, and a failure where it is longer than the limit, which does.
pub proof fn law_how_lines_are_answered(
    line: Line,
    res: Result<Option<Result<String, StreamError>>, StreamError>,
)
    requires
        JsonNewLineCodec::found(line, res),
    ensures
        match line {
            Line::More { .. } => res matches Ok(None),
            Line::Whole { text, .. } => if valid_utf8(text) {
                res matches Ok(Some(Ok(found))) && found@ == decode_utf8(text)
            } else {
                &&& res matches Ok(Some(Err(error)))
                &&& error@.kind == StreamErrorKind::InputOutputError
                &&& error@.message is None
                &&& error@.source matches Some(ErrorSource::Io(_))
            },
            Line::TooLong { .. } => {
                &&& res matches Err(error)
                &&& error@.kind == StreamErrorKind::MaxLenReachedError
                &&& error@.source is None
                &&& error@.message == Some("Max line length reached"@)
            },
        },
{
}

/// A line that was parsed is yielded as it is; one that could not be is an item that says so, which
/// does not end the body.
pub proof fn law_how_parsed_lines_are_yielded<T>(
    parsed: Result<T, serde_json::Error>,
    outcome: Result<Option<Result<T, StreamError>>, StreamError>,
)
    requires
        line_outcome(parsed, outcome),
    ensures
        match parsed {
            Ok(item) => outcome == Ok::<_, StreamError>(Some(Ok::<T, StreamError>(item))),
            Err(err) => {
                &&& outcome matches Ok(Some(Err(error)))
                &&& error@.kind == StreamErrorKind::CodecError
                &&& error@.source == Some(ErrorSource::Json(err))
                &&& error@.message is None
            },
        },
{
}

/// Lines end with a line feed, and a carriage return ahead of it is no part of the line: texts that
/// are written either way read back alike.
pub proof fn law_line_endings(limit: nat, text: Seq<u8>, more: Seq<u8>)
    requires
        forall|i: int| 0 <= i < text.len() ==> #[trigger] text[i] != 0x0a,
        text.len() > 0 ==> text.last() != 0x0d,
        text.len() < limit,
    ensures
        start(limit).next(text + seq![0x0au8] + more) == (Line::Whole {
            text,
            state: start(limit),
            left: more,
        }),
        start(limit).next(text + seq![0x0du8, 0x0au8] + more) == (Line::Whole {
            text,
            state: start(limit),
            left: more,
        }),
{
    let plain = text + seq![0x0au8] + more;
    let n = text.len() as int;
    assert forall|i: int| 0 <= i < n implies #[trigger] plain[i] != NEWLINE by {
        assert(plain[i] == text[i]);
    }
    assert(plain[n] == 0x0a);
    newline_is(plain, n);
    assert(plain.take(n) == text);
    assert(plain.skip(n + 1) == more);
    let crlf = text + seq![0x0du8, 0x0au8] + more;
    assert forall|i: int| 0 <= i < n + 1 implies #[trigger] crlf[i] != NEWLINE by {
        if i < n {
            assert(crlf[i] == text[i]);
        }
    }
    assert(crlf[n + 1] == 0x0a);
    newline_is(crlf, n + 1);
    assert(crlf.take(n + 1) == text.push(0x0d));
    assert(text.push(0x0d).drop_last() == text);
    assert(crlf.skip(n + 2) == more);
}

/// A line that is longer than the limit is refused, with its ending or without, and the rest of it is
/// dropped before the next; one without an ending that may still come is waited for.
pub proof fn law_long_lines_are_dropped(state: LineState, text: Seq<u8>, more: Seq<u8>)
    requires
        forall|i: int| 0 <= i < text.len() ==> #[trigger] text[i] != 0x0a,
    ensures
        !state.discarding && text.len() > state.limit ==> {
            &&& state.next(text) matches Line::TooLong { state: after, left }
            &&& after.discarding && after.limit == state.limit
            &&& left == text
        },
        !state.discarding && text.len() > state.limit ==> {
            &&& state.next(text + seq![0x0au8] + more) matches Line::TooLong { state: after, left }
            &&& after.discarding && after.limit == state.limit
            &&& left == text + seq![0x0au8] + more
        },
        !state.discarding && text.len() <= state.limit ==> {
            &&& state.next(text) matches Line::More { state: after, left }
            &&& !after.discarding && after.limit == state.limit && after.scanned == text.len()
            &&& left == text
        },
        state.discarding ==> {
            &&& state.next(text) matches Line::More { state: after, left }
            &&& after.discarding && after.limit == state.limit && after.scanned == 0
            &&& left.len() == 0
        },
        state.discarding ==> state.next(text + seq![0x0au8] + more) == (LineState {
            limit: state.limit,
            scanned: 0,
            discarding: false,
        }).next(more),
{
    let n = text.len() as int;
    newline_bounds(text);
    if first_newline(text) < text.len() {
        assert(text[first_newline(text)] != 0x0a);
    }
    let whole = text + seq![0x0au8] + more;
    assert forall|i: int| 0 <= i < n implies #[trigger] whole[i] != NEWLINE by {
        assert(whole[i] == text[i]);
    }
    assert(whole[n] == 0x0a);
    newline_is(whole, n);
    assert(whole.skip(n + 1) == more);
}

/// At the end of the body what is left is a line, without a carriage return at its end; nothing, or a
/// lone carriage return, is none.
pub proof fn law_what_is_left_is_a_line(state: LineState, text: Seq<u8>)
    requires
        !state.discarding,
        text.len() <= state.limit,
        forall|i: int| 0 <= i < text.len() ==> #[trigger] text[i] != 0x0a,
    ensures
        text.len() == 0 || text == seq![0x0du8] ==> state.last(text) is More,
        text.len() > 0 && text.last() != 0x0d ==> (state.last(text) matches Line::Whole {
            text: found,
            left,
            ..
        } && found == text && left.len() == 0),
        text.len() > 1 && text.last() == 0x0d ==> (state.last(text) matches Line::Whole {
            text: found,
            left,
            ..
        } && found == text.drop_last() && left.len() == 0),
{
    law_long_lines_are_dropped(state, text, seq![]);
}

} // verus!
