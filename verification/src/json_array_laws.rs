//! What holds of a JSON array body as a whole, however it is cut into chunks.

use crate::error::{ErrorSource, ErrorView, StreamError, StreamErrorKind};
use crate::json_array_codec::{
    element_outcome, fits, is_over, is_space, scan_byte, scan_from, start_of_body, trimmed,
    JsonArrayCodec, Mark, Scan, Step, CLOSE_BRACKET, COMMA, OPEN_BRACKET,
};
use vstd::prelude::*;

verus! {

/// What comes of asking a codec for elements until it has no more. After a failure nothing is
/// left.
pub struct Drained {
    /// The elements, in order.
    pub elements: Seq<Seq<u8>>,
    /// The step that ended it where that was a failure.
    pub failed: Option<Step>,
    /// Where the scan stands afterwards.
    pub scan: Scan,
    /// How much of what is left has been scanned.
    pub offset: int,
    /// The bytes that are left.
    pub left: Seq<u8>,
}

impl Drained {
    /// `self` with `elements` before its own.
    pub open spec fn after(self, elements: Seq<Seq<u8>>) -> Drained {
        Drained { elements: elements + self.elements, ..self }
    }
}

/// Asks for elements, with `body` buffered, until there are no more.
pub open spec fn drain(scan: Scan, offset: int, body: Seq<u8>, limit: int) -> Drained
    decreases body.len(),
{
    let nothing = Drained { elements: seq![], failed: None, scan, offset, left: body };
    if body.len() == 0 {
        nothing
    } else {
        match scan_from(scan, body, offset, limit) {
            Step::More(scan) => Drained { scan, offset: body.len() as int, ..nothing },
            Step::Element { scan, element, used } => if 0 < used <= body.len() {
                drain(scan, 0, body.skip(used), limit).after(seq![element])
            } else {
                nothing
            },
            step => Drained {
                elements: seq![],
                failed: Some(step),
                scan: start_of_body(),
                offset: 0,
                left: seq![],
            },
        }
    }
}

/// Appends one chunk after another to the buffer, and asks for elements until there are no more
/// each time; a failure ends it.
pub open spec fn feed(
    scan: Scan,
    offset: int,
    left: Seq<u8>,
    chunks: Seq<Seq<u8>>,
    limit: int,
) -> Drained
    decreases chunks.len(),
{
    if chunks.len() == 0 {
        drain(scan, offset, left, limit)
    } else {
        let first = drain(scan, offset, left + chunks[0], limit);
        if first.failed is Some {
            first
        } else {
            feed(first.scan, first.offset, first.left, chunks.drop_first(), limit).after(
                first.elements,
            )
        }
    }
}

proof fn scan_byte_fits(s: Scan, b: u8, at: int)
    requires
        0 <= at,
        fits(s, at),
    ensures
        fits(scan_byte(s, b, at).0, at + 1),
        scan_byte(s, b, at).1 matches Mark::Whole(from) ==> 0 <= from <= at && fits(
            scan_byte(s, b, at).0,
            0,
        ),
        scan_byte(s, b, at).1 matches Mark::Bare(from) ==> 0 <= from < at && fits(
            scan_byte(s, b, at).0,
            0,
        ),
{
}

/// A step over the bytes at hand stays what it was when more bytes follow, and a scan that ran
/// out of bytes goes on from where it stopped.
proof fn scan_continues(s: Scan, body: Seq<u8>, more: Seq<u8>, at: int, limit: int)
    requires
        0 <= at <= body.len(),
        fits(s, at),
    ensures
        match scan_from(s, body, at, limit) {
            Step::More(scan) => {
                &&& fits(scan, body.len() as int)
                &&& scan_from(s, body + more, at, limit) == scan_from(
                    scan,
                    body + more,
                    body.len() as int,
                    limit,
                )
            },
            Step::Element { scan, element, used } => {
                &&& at < used <= body.len()
                &&& fits(scan, 0)
                &&& scan_from(s, body + more, at, limit) == scan_from(s, body, at, limit)
            },
            step => scan_from(s, body + more, at, limit) == step,
        },
    decreases body.len() - at,
{
    let whole = body + more;
    if at < body.len() {
        let (next, mark) = scan_byte(s, body[at], at);
        scan_byte_fits(s, body[at], at);
        assert(whole[at] == body[at]);
        match mark {
            Mark::Quiet => {
                if !is_over(next, body[at], at, limit) {
                    scan_continues(next, body, more, at + 1, limit);
                }
            },
            Mark::Whole(from) => {
                assert(whole.subrange(from, at + 1) == body.subrange(from, at + 1));
            },
            Mark::Bare(from) => {
                assert(whole.subrange(from, at) == body.subrange(from, at));
                if trimmed(body.subrange(from, at)).len() == 0 {
                    scan_continues(next, body, more, at + 1, limit);
                }
            },
            _ => {},
        }
    }
}

proof fn drain_continues(scan: Scan, offset: int, body: Seq<u8>, more: Seq<u8>, limit: int)
    requires
        0 <= offset <= body.len(),
        fits(scan, offset),
    ensures
        ({
            let first = drain(scan, offset, body, limit);
            let whole = drain(scan, offset, body + more, limit);
            if first.failed is Some {
                whole.elements == first.elements && whole.failed == first.failed
            } else {
                &&& 0 <= first.offset <= first.left.len()
                &&& fits(first.scan, first.offset)
                &&& whole == drain(first.scan, first.offset, first.left + more, limit).after(
                    first.elements,
                )
            }
        }),
    decreases body.len(),
{
    if body.len() == 0 {
        assert(body + more == more);
        let rest = drain(scan, offset, more, limit);
        assert(rest.after(seq![]).elements == rest.elements);
    } else {
        scan_continues(scan, body, more, offset, limit);
        match scan_from(scan, body, offset, limit) {
            Step::More(next) => {
                scan_continues(next, body + more, seq![], body.len() as int, limit);
                let rest = drain(next, body.len() as int, body + more, limit);
                assert(rest.after(seq![]).elements == rest.elements);
            },
            Step::Element { scan: next, element, used } => {
                drain_continues(next, 0, body.skip(used), more, limit);
                assert((body + more).skip(used) == body.skip(used) + more);
                let inner = drain(next, 0, body.skip(used), limit);
                let rest = drain(inner.scan, inner.offset, inner.left + more, limit);
                assert(seq![element] + (inner.elements + rest.elements) == (seq![element]
                    + inner.elements) + rest.elements);
            },
            _ => {},
        }
    }
}

proof fn feed_is_drain(
    scan: Scan,
    offset: int,
    left: Seq<u8>,
    chunks: Seq<Seq<u8>>,
    limit: int,
)
    requires
        0 <= offset <= left.len(),
        fits(scan, offset),
    ensures
        feed(scan, offset, left, chunks, limit).elements == drain(
            scan,
            offset,
            left + chunks.flatten(),
            limit,
        ).elements,
        feed(scan, offset, left, chunks, limit).failed == drain(
            scan,
            offset,
            left + chunks.flatten(),
            limit,
        ).failed,
    decreases chunks.len(),
{
    if chunks.len() == 0 {
        assert(left + chunks.flatten() == left);
    } else {
        let rest = chunks.drop_first();
        let first = drain(scan, offset, left + chunks[0], limit);
        assert(left + chunks.flatten() == (left + chunks[0]) + rest.flatten());
        assert(fits(scan, offset));
        drain_continues(scan, offset, left + chunks[0], rest.flatten(), limit);
        if first.failed is None {
            feed_is_drain(first.scan, first.offset, first.left, rest, limit);
        }
    }
}

/// How a JSON array body is cut into chunks makes no difference: the same elements come out, and
/// it fails in the same way or not at all.
pub proof fn law_chunking_does_not_matter(chunks: Seq<Seq<u8>>, limit: int)
    ensures
        ({
            let piecewise = feed(start_of_body(), 0, seq![], chunks, limit);
            let at_once = feed(start_of_body(), 0, seq![], seq![chunks.flatten()], limit);
            piecewise.elements == at_once.elements && piecewise.failed == at_once.failed
        }),
{
    let body = chunks.flatten();
    feed_is_drain(start_of_body(), 0, seq![], chunks, limit);
    feed_is_drain(start_of_body(), 0, seq![], seq![body], limit);
    assert(seq![body].drop_first() == Seq::<Seq<u8>>::empty());
    assert(seq![body].flatten() == body + seq![body].drop_first().flatten());
    assert(seq![body].flatten() == body);
}

/// How deep in brackets and strings a JSON text is after some of its bytes.
pub struct Tangle {
    /// How many brackets and braces are open.
    pub depth: int,
    /// Inside a string.
    pub quoted: bool,
    /// Inside a string, right behind a backslash that escapes.
    pub escaped: bool,
}

/// The tangle after the first `n` bytes of `text`.
pub open spec fn tangle(text: Seq<u8>, n: int) -> Tangle
    decreases n,
{
    if n <= 0 {
        Tangle { depth: 0, quoted: false, escaped: false }
    } else {
        let before = tangle(text, n - 1);
        let b = text[n - 1];
        if before.quoted {
            if b == 0x22 && !before.escaped {
                Tangle { quoted: false, ..before }
            } else {
                Tangle { escaped: b == 0x5c && !before.escaped, ..before }
            }
        } else if b == 0x22 {
            Tangle { quoted: true, ..before }
        } else if b == 0x5b || b == 0x7b {
            Tangle { depth: before.depth + 1, ..before }
        } else if b == 0x5d || b == 0x7d {
            Tangle { depth: before.depth - 1, ..before }
        } else {
            before
        }
    }
}

/// An object or an array: a bracket is open all through it, and none behind it.
pub open spec fn is_bracketed(text: Seq<u8>) -> bool {
    &&& text.len() > 0
    &&& text[0] == 0x5b || text[0] == 0x7b
    &&& forall|n: int| 0 < n < text.len() ==> (#[trigger] tangle(text, n)).depth > 0
    &&& tangle(text, text.len() as int).depth == 0
}

/// A string: open all through it, and closed by its last byte.
pub open spec fn is_string(text: Seq<u8>) -> bool {
    &&& text.len() > 0
    &&& text[0] == 0x22
    &&& forall|n: int| 0 < n < text.len() ==> (#[trigger] tangle(text, n)).quoted
    &&& !tangle(text, text.len() as int).quoted
}

/// A number, `true`, `false` or `null`: no brackets, quotes or commas, and no whitespace at its
/// ends.
pub open spec fn is_bare(text: Seq<u8>) -> bool {
    &&& text.len() > 0
    &&& text.first() != 0x20 && text.first() != 0x09 && text.first() != 0x0a && text.first() != 0x0c
        && text.first() != 0x0d
    &&& text.last() != 0x20 && text.last() != 0x09 && text.last() != 0x0a && text.last() != 0x0c
        && text.last() != 0x0d
    &&& forall|i: int|
        0 <= i < text.len() ==> {
            &&& #[trigger] text[i] != 0x22
            &&& text[i] != 0x2c
            &&& text[i] != 0x5b
            &&& text[i] != 0x5d
            &&& text[i] != 0x7b
            &&& text[i] != 0x7d
        }
}

/// A JSON value, as far as its brackets, quotes and commas go.
pub open spec fn is_value(text: Seq<u8>) -> bool {
    is_bracketed(text) || is_string(text) || is_bare(text)
}

/// The values with commas between them.
pub open spec fn comma_separated(values: Seq<Seq<u8>>) -> Seq<u8>
    decreases values.len(),
{
    if values.len() == 0 {
        seq![]
    } else if values.len() == 1 {
        values[0]
    } else {
        values[0] + seq![0x2cu8] + comma_separated(values.drop_first())
    }
}

/// The array of the values.
pub open spec fn array_text(values: Seq<Seq<u8>>) -> Seq<u8> {
    seq![0x5bu8] + comma_separated(values) + seq![0x5du8]
}

/// The scan inside the array and between elements.
spec fn between(comma_due: bool) -> Scan {
    Scan { opened: true, comma_due, ..start_of_body() }
}

/// The scan inside the element that began at `from`.
spec fn inside(t: Tangle, from: int) -> Scan {
    Scan {
        quoted: t.quoted,
        escaped: t.escaped,
        depth: t.depth,
        nested_at: if t.depth > 0 {
            from
        } else {
            0
        },
        scalar_at: if t.depth > 0 {
            None
        } else {
            Some(from)
        },
        ..between(false)
    }
}

/// `body` holds `text` at `from`.
spec fn holds_at(body: Seq<u8>, from: int, text: Seq<u8>) -> bool {
    &&& 0 <= from
    &&& from + text.len() <= body.len()
    &&& body.subrange(from, from + text.len()) == text
}

proof fn escapes_stay_in_strings(text: Seq<u8>, n: int)
    ensures
        tangle(text, n).escaped ==> tangle(text, n).quoted,
    decreases n,
{
    if n > 0 {
        escapes_stay_in_strings(text, n - 1);
    }
}

/// What a scan finds of a value that ends where the scan is with `used` bytes passed.
spec fn finds(step: Step, comma_due: bool, value: Seq<u8>, used: int, limit: int) -> bool {
    if value.len() <= limit {
        step == (Step::Element { scan: between(comma_due), element: value, used })
    } else {
        step is TooLong
    }
}

proof fn scan_bracketed(body: Seq<u8>, from: int, text: Seq<u8>, n: int, limit: int)
    requires
        holds_at(body, from, text),
        is_bracketed(text),
        0 <= n < text.len(),
        0 <= limit,
    ensures
        finds(
            scan_from(
                if n == 0 {
                    between(false)
                } else {
                    inside(tangle(text, n), from)
                },
                body,
                from + n,
                limit,
            ),
            true,
            text,
            from + text.len(),
            limit,
        ),
    decreases text.len() - n,
{
    reveal_with_fuel(tangle, 2);
    assert(body.subrange(from, from + text.len())[n] == text[n]);
    if n + 1 < text.len() {
        assert(tangle(text, n + 1).depth > 0);
        scan_bracketed(body, from, text, n + 1, limit);
    } else {
        escapes_stay_in_strings(text, n);
        assert(body.subrange(from, from + n + 1) == text);
    }
}

proof fn scan_string(body: Seq<u8>, from: int, text: Seq<u8>, n: int, limit: int)
    requires
        holds_at(body, from, text),
        is_string(text),
        0 <= n < text.len(),
        0 <= limit,
    ensures
        n > 0 ==> tangle(text, n).depth == 0,
        finds(
            scan_from(
                if n == 0 {
                    between(false)
                } else {
                    inside(tangle(text, n), from)
                },
                body,
                from + n,
                limit,
            ),
            true,
            text,
            from + text.len(),
            limit,
        ),
    decreases text.len() - n,
{
    reveal_with_fuel(tangle, 2);
    assert(body.subrange(from, from + text.len())[n] == text[n]);
    string_is_flat(text, n);
    if n + 1 < text.len() {
        assert(tangle(text, n + 1).quoted);
        string_is_flat(text, n + 1);
        scan_string(body, from, text, n + 1, limit);
    } else {
        assert(body.subrange(from, from + n + 1) == text);
    }
}

proof fn string_is_flat(text: Seq<u8>, n: int)
    requires
        is_string(text),
        0 <= n < text.len(),
    ensures
        tangle(text, n).depth == 0,
    decreases n,
{
    if n > 0 {
        string_is_flat(text, n - 1);
        if n > 1 {
            assert(tangle(text, n - 1).quoted);
        }
    }
}

proof fn scan_bare(body: Seq<u8>, from: int, text: Seq<u8>, n: int, limit: int)
    requires
        holds_at(body, from, text),
        is_bare(text),
        0 <= n <= text.len(),
        0 <= limit,
        from + text.len() < body.len(),
        body[from + text.len()] == COMMA || body[from + text.len()] == CLOSE_BRACKET,
    ensures
        finds(
            scan_from(
                if n == 0 {
                    between(false)
                } else {
                    Scan { scalar_at: Some(from), ..between(false) }
                },
                body,
                from + n,
                limit,
            ),
            false,
            text,
            from + text.len() + 1,
            limit,
        ),
    decreases text.len() - n,
{
    if n < text.len() {
        assert(body.subrange(from, from + text.len())[n] == text[n]);
        scan_bare(body, from, text, n + 1, limit);
    }
}

/// What may stand before the next value, and the scan ahead of it.
spec fn leads(s: Scan, lead: Seq<u8>) -> bool {
    ||| s == start_of_body() && lead == seq![OPEN_BRACKET]
    ||| s == between(true) && lead == seq![COMMA]
    ||| s == between(false) && lead == Seq::<u8>::empty()
}

/// How many of the values there are before the first that is longer than `limit`.
pub open spec fn within(values: Seq<Seq<u8>>, limit: int) -> nat
    decreases values.len(),
{
    if values.len() == 0 || values[0].len() > limit {
        0
    } else {
        1 + within(values.drop_first(), limit)
    }
}

proof fn within_is_first(values: Seq<Seq<u8>>, limit: int)
    ensures
        within(values, limit) <= values.len(),
        forall|i: int| 0 <= i < within(values, limit) ==> (#[trigger] values[i]).len() <= limit,
        within(values, limit) < values.len() ==> values[within(values, limit) as int].len() > limit,
    decreases values.len(),
{
    if values.len() > 0 && values[0].len() <= limit {
        let rest = values.drop_first();
        within_is_first(rest, limit);
        assert forall|i: int| 0 <= i < within(values, limit) implies (#[trigger] values[i]).len()
            <= limit by {
            if i > 0 {
                assert(rest[i - 1] == values[i]);
            }
        }
    }
}

/// What comes of an array of `values`: all of them, or those before the first that is longer than
/// `limit`.
pub open spec fn reads_back(drained: Drained, values: Seq<Seq<u8>>, limit: int) -> bool {
    let n = within(values, limit);
    &&& drained.elements == values.take(n as int)
    &&& if n == values.len() {
        drained.failed is None
    } else {
        drained.failed matches Some(Step::TooLong(_))
    }
}

proof fn drain_values(values: Seq<Seq<u8>>, s: Scan, lead: Seq<u8>, limit: int)
    requires
        values.len() > 0,
        leads(s, lead),
        0 <= limit,
        forall|i: int| 0 <= i < values.len() ==> is_value(#[trigger] values[i]),
    ensures
        reads_back(
            drain(s, 0, lead + comma_separated(values) + seq![CLOSE_BRACKET], limit),
            values,
            limit,
        ),
    decreases values.len(),
{
    let value = values[0];
    let rest = values.drop_first();
    let body = lead + comma_separated(values) + seq![CLOSE_BRACKET];
    let from = lead.len() as int;
    let end = from + value.len();
    assert(is_value(value));
    let behind = if rest.len() == 0 {
        seq![CLOSE_BRACKET]
    } else {
        seq![COMMA] + comma_separated(rest) + seq![CLOSE_BRACKET]
    };
    assert(body == lead + value + behind);
    assert(body.subrange(from, end) == value);
    assert(scan_from(s, body, 0, limit) == scan_from(between(false), body, from, limit)) by {
        if lead.len() > 0 {
            assert(body[0] == lead[0]);
        }
    }
    assert forall|i: int| 0 <= i < rest.len() implies is_value(#[trigger] rest[i]) by {
        assert(rest[i] == values[i + 1]);
    }
    within_is_first(values, limit);
    if is_bare(value) {
        assert(body[end] == behind[0]);
        scan_bare(body, from, value, 0, limit);
        if value.len() <= limit {
            if rest.len() == 0 {
                assert(body.skip(end + 1) == Seq::<u8>::empty());
                reveal_with_fuel(drain, 2);
            } else {
                assert(body.skip(end + 1) == Seq::<u8>::empty() + comma_separated(rest)
                    + seq![CLOSE_BRACKET]);
                drain_values(rest, between(false), seq![], limit);
            }
        }
    } else {
        if is_bracketed(value) {
            scan_bracketed(body, from, value, 0, limit);
        } else {
            scan_string(body, from, value, 0, limit);
        }
        if value.len() <= limit {
            assert(body.skip(end) == behind);
            if rest.len() == 0 {
                reveal_with_fuel(drain, 2);
                reveal_with_fuel(scan_from, 2);
            } else {
                drain_values(rest, between(true), seq![COMMA], limit);
            }
        }
    }
    if value.len() <= limit {
        let n = within(rest, limit);
        within_is_first(rest, limit);
        assert(values.take(n as int + 1) == seq![value] + rest.take(n as int));
        if rest.len() == 0 {
            assert(drain(s, 0, body, limit).elements == seq![value]);
        }
    } else {
        assert(values.take(0) == Seq::<Seq<u8>>::empty());
    }
}

proof fn array_reads_back(values: Seq<Seq<u8>>, chunks: Seq<Seq<u8>>, limit: int)
    requires
        chunks.flatten() == array_text(values),
        forall|i: int| 0 <= i < values.len() ==> is_value(#[trigger] values[i]),
        0 <= limit,
    ensures
        reads_back(feed(start_of_body(), 0, seq![], chunks, limit), values, limit),
{
    let body = array_text(values);
    feed_is_drain(start_of_body(), 0, seq![], chunks, limit);
    assert(seq![] + chunks.flatten() == body);
    if values.len() == 0 {
        reveal_with_fuel(scan_from, 3);
        assert(body == seq![OPEN_BRACKET, CLOSE_BRACKET]);
        assert(values.take(0) == Seq::<Seq<u8>>::empty());
    } else {
        drain_values(values, start_of_body(), seq![OPEN_BRACKET], limit);
    }
}

/// The elements of an array are the values that it was written from, however its bytes are cut
/// into chunks, as long as none of them is longer than the limit.
pub proof fn law_array_round_trip(values: Seq<Seq<u8>>, chunks: Seq<Seq<u8>>, limit: int)
    requires
        chunks.flatten() == array_text(values),
        forall|i: int|
            0 <= i < values.len() ==> is_value(#[trigger] values[i]) && values[i].len() <= limit,
        0 <= limit,
    ensures
        feed(start_of_body(), 0, seq![], chunks, limit).elements == values,
        feed(start_of_body(), 0, seq![], chunks, limit).failed is None,
{
    array_reads_back(values, chunks, limit);
    within_is_first(values, limit);
    assert(values.take(values.len() as int) == values);
}

/// Where a value of an array is longer than the limit, the values before the first such come out
/// and the array is refused there, however its bytes are cut into chunks.
pub proof fn law_array_is_refused_at_the_limit(
    values: Seq<Seq<u8>>,
    chunks: Seq<Seq<u8>>,
    first: int,
    limit: int,
)
    requires
        chunks.flatten() == array_text(values),
        forall|i: int| 0 <= i < values.len() ==> is_value(#[trigger] values[i]),
        0 <= first < values.len(),
        values[first].len() > limit,
        forall|i: int| 0 <= i < first ==> (#[trigger] values[i]).len() <= limit,
        0 <= limit,
    ensures
        feed(start_of_body(), 0, seq![], chunks, limit).elements == values.take(first),
        feed(start_of_body(), 0, seq![], chunks, limit).failed matches Some(Step::TooLong(_)),
{
    array_reads_back(values, chunks, limit);
    within_is_first(values, limit);
    let n = within(values, limit) as int;
    if n < first {
        assert(values[n].len() <= limit);
    } else if n > first {
        assert(values[first].len() <= limit);
    }
}

proof fn element_is_within(s: Scan, body: Seq<u8>, at: int, limit: int)
    requires
        0 <= at,
        fits(s, at),
    ensures
        scan_from(s, body, at, limit) matches Step::Element { element, .. } ==> element.len()
            <= limit,
    decreases body.len() - at,
{
    if at < body.len() {
        let (next, mark) = scan_byte(s, body[at], at);
        scan_byte_fits(s, body[at], at);
        match mark {
            Mark::Quiet => {
                if !is_over(next, body[at], at, limit) {
                    element_is_within(next, body, at + 1, limit);
                }
            },
            Mark::Bare(from) => {
                if trimmed(body.subrange(from, at)).len() == 0 {
                    element_is_within(next, body, at + 1, limit);
                }
            },
            _ => {},
        }
    }
}

proof fn drained_are_within(scan: Scan, offset: int, body: Seq<u8>, limit: int)
    requires
        0 <= offset <= body.len(),
        fits(scan, offset),
    ensures
        forall|i: int|
            0 <= i < drain(scan, offset, body, limit).elements.len() ==> (#[trigger] drain(
                scan,
                offset,
                body,
                limit,
            ).elements[i]).len() <= limit,
    decreases body.len(),
{
    if body.len() > 0 {
        element_is_within(scan, body, offset, limit);
        scan_continues(scan, body, seq![], offset, limit);
        match scan_from(scan, body, offset, limit) {
            Step::Element { scan: next, element, used } => {
                drained_are_within(next, 0, body.skip(used), limit);
                let rest = drain(next, 0, body.skip(used), limit).elements;
                let all = drain(scan, offset, body, limit).elements;
                assert forall|i: int| 0 <= i < all.len() implies (#[trigger] all[i]).len()
                    <= limit by {
                    if i > 0 {
                        assert(all[i] == rest[i - 1]);
                    }
                }
            },
            _ => {},
        }
    }
}

/// Of any body, however it is cut into chunks, no element comes out that is longer than the limit.
pub proof fn law_no_element_beyond_the_limit(chunks: Seq<Seq<u8>>, limit: int, i: int)
    requires
        0 <= i < feed(start_of_body(), 0, seq![], chunks, limit).elements.len(),
    ensures
        feed(start_of_body(), 0, seq![], chunks, limit).elements[i].len() <= limit,
{
    feed_is_drain(start_of_body(), 0, seq![], chunks, limit);
    drained_are_within(start_of_body(), 0, seq![] + chunks.flatten(), limit);
}

/// What [`drain`] says is what comes of calling the codec again and again: `after` and `left` are
/// what one call leaves behind.
pub proof fn law_draining_is_calling(
    codec: JsonArrayCodec,
    body: Seq<u8>,
    after: JsonArrayCodec,
    left: Seq<u8>,
)
    requires
        codec.ready(body),
        codec.moved(body, codec.next_step(body), after, left),
    ensures
        ({
            let drained = drain(codec.scan(), codec.offset(), body, codec.limit());
            match codec.next_step(body) {
                Step::More(_) => drained == (Drained {
                    elements: seq![],
                    failed: None,
                    scan: after.scan(),
                    offset: after.offset(),
                    left,
                }),
                Step::Element { element, .. } => drained == drain(
                    after.scan(),
                    after.offset(),
                    left,
                    after.limit(),
                ).after(seq![element]),
                step => drained.elements.len() == 0 && drained.failed == Some(step),
            }
        }),
{
    if body.len() > 0 && 0 <= codec.offset() {
        scan_continues(codec.scan(), body, seq![], codec.offset(), codec.limit());
    }
}

/// Whether a text is made of spaces, tabs, line feeds and carriage returns, which JSON allows between
/// any two of its parts.
pub open spec fn is_blank(text: Seq<u8>) -> bool {
    forall|i: int|
        0 <= i < text.len() ==> (#[trigger] text[i] == 0x20 || text[i] == 0x09 || text[i] == 0x0a
            || text[i] == 0x0d)
}

/// A value, and what stands between it and the brackets or commas around it.
pub struct Spaced {
    pub before: Seq<u8>,
    pub value: Seq<u8>,
    pub behind: Seq<u8>,
}

/// The values with what stands around them, and commas between them.
pub open spec fn spaced_text(items: Seq<Spaced>) -> Seq<u8>
    decreases items.len(),
{
    if items.len() == 0 {
        seq![]
    } else {
        let first = items[0].before + items[0].value + items[0].behind;
        if items.len() == 1 {
            first
        } else {
            first + seq![0x2cu8] + spaced_text(items.drop_first())
        }
    }
}

/// The values alone.
pub open spec fn values_among(items: Seq<Spaced>) -> Seq<Seq<u8>> {
    Seq::new(items.len(), |i: int| items[i].value)
}

/// Whether every one of them is a value of at most `limit` bytes with blanks around it.
pub open spec fn are_spaced(items: Seq<Spaced>, limit: int) -> bool {
    forall|i: int|
        0 <= i < items.len() ==> {
            &&& is_blank((#[trigger] items[i]).before)
            &&& is_value(items[i].value)
            &&& is_blank(items[i].behind)
            &&& items[i].value.len() <= limit
        }
}

/// A scan that is between elements, or inside a bare primitive, passes over blanks.
proof fn blanks_are_passed(s: Scan, body: Seq<u8>, at: int, blank: Seq<u8>, limit: int)
    requires
        holds_at(body, at, blank),
        is_blank(blank),
        !s.quoted,
        s.depth == 0,
        s.scalar_at matches Some(from) ==> 0 <= from,
    ensures
        scan_from(s, body, at, limit) == scan_from(s, body, at + blank.len(), limit),
    decreases blank.len(),
{
    if blank.len() > 0 {
        let rest = blank.drop_first();
        assert(body.subrange(at, at + blank.len())[0] == blank[0]);
        assert(body[at] == blank[0]);
        assert(body.subrange(at + 1, at + 1 + rest.len()) == rest) by {
            assert(body.subrange(at, at + blank.len()).drop_first() == body.subrange(
                at + 1,
                at + blank.len(),
            ));
        }
        assert forall|i: int| 0 <= i < rest.len() implies (#[trigger] rest[i] == 0x20 || rest[i]
            == 0x09 || rest[i] == 0x0a || rest[i] == 0x0d) by {
            assert(rest[i] == blank[i + 1]);
        }
        blanks_are_passed(s, body, at + 1, rest, limit);
    }
}

proof fn blanks_are_trimmed(value: Seq<u8>, blank: Seq<u8>)
    requires
        is_bare(value),
        is_blank(blank),
    ensures
        trimmed(value + blank) == value,
    decreases blank.len(),
{
    let text = value + blank;
    if blank.len() > 0 {
        assert(text.drop_last() == value + blank.drop_last());
        assert(text.last() == blank.last());
        assert(blank[blank.len() - 1] == blank.last());
        assert(text.first() == value.first());
        assert forall|i: int| 0 <= i < blank.drop_last().len() implies (
        #[trigger] blank.drop_last()[i] == 0x20 || blank.drop_last()[i] == 0x09
            || blank.drop_last()[i] == 0x0a || blank.drop_last()[i] == 0x0d) by {
            assert(blank.drop_last()[i] == blank[i]);
        }
        blanks_are_trimmed(value, blank.drop_last());
    } else {
        assert(text == value);
    }
}

proof fn scan_bare_spaced(
    body: Seq<u8>,
    from: int,
    text: Seq<u8>,
    behind: Seq<u8>,
    n: int,
    limit: int,
)
    requires
        holds_at(body, from, text),
        holds_at(body, from + text.len(), behind),
        is_bare(text),
        is_blank(behind),
        text.len() <= limit,
        0 <= n <= text.len(),
        from + text.len() + behind.len() < body.len(),
        body[from + text.len() + behind.len()] == 0x2c || body[from + text.len() + behind.len()]
            == 0x5d,
    ensures
        scan_from(
            if n == 0 {
                between(false)
            } else {
                Scan { scalar_at: Some(from), ..between(false) }
            },
            body,
            from + n,
            limit,
        ) == (Step::Element {
            scan: between(false),
            element: text,
            used: from + text.len() + behind.len() + 1,
        }),
    decreases text.len() - n,
{
    if n < text.len() {
        assert(body.subrange(from, from + text.len())[n] == text[n]);
        scan_bare_spaced(body, from, text, behind, n + 1, limit);
    } else {
        let s = Scan { scalar_at: Some(from), ..between(false) };
        let end = from + text.len() + behind.len();
        blanks_are_passed(s, body, from + text.len(), behind, limit);
        assert(body.subrange(from, end) == text + behind) by {
            assert(body.subrange(from, end) == body.subrange(from, from + text.len())
                + body.subrange(from + text.len(), end));
        }
        blanks_are_trimmed(text, behind);
    }
}

/// What may stand before the next value, blanks included, and the scan ahead of it.
spec fn leads_spaced(s: Scan, lead: Seq<u8>) -> bool {
    ||| s == start_of_body() && lead.len() > 0 && is_blank(lead.drop_last()) && lead.last() == 0x5b
    ||| s == between(true) && lead.len() > 0 && is_blank(lead.drop_last()) && lead.last() == 0x2c
    ||| s == between(false) && lead.len() == 0
}

proof fn lead_is_passed(s: Scan, lead: Seq<u8>, body: Seq<u8>, limit: int)
    requires
        leads_spaced(s, lead),
        holds_at(body, 0, lead),
    ensures
        scan_from(s, body, 0, limit) == scan_from(between(false), body, lead.len() as int, limit),
{
    if lead.len() > 0 {
        let n = lead.len() - 1;
        assert(body.subrange(0, lead.len() as int).drop_last() == body.subrange(0, n));
        blanks_are_passed(s, body, 0, lead.drop_last(), limit);
        assert(body.subrange(0, lead.len() as int)[n] == lead[n]);
        assert(body[n] == lead.last());
    }
}

proof fn end_is_passed(s: Scan, blank: Seq<u8>, trail: Seq<u8>, limit: int)
    requires
        s == between(true) || s == between(false) || s == start_of_body(),
        is_blank(blank),
        is_blank(trail),
        limit >= 0,
    ensures
        drain(s, 0, blank, limit).elements.len() == 0,
        drain(s, 0, blank, limit).failed is None,
        s.opened ==> drain(s, 0, blank + seq![0x5du8] + trail, limit).elements.len() == 0,
        s.opened ==> drain(s, 0, blank + seq![0x5du8] + trail, limit).failed is None,
{
    assert(blank.subrange(0, blank.len() as int) == blank);
    blanks_are_passed(s, blank, 0, blank, limit);
    let body = blank + seq![0x5du8] + trail;
    assert(body.subrange(0, blank.len() as int) == blank);
    blanks_are_passed(s, body, 0, blank, limit);
    assert(body[blank.len() as int] == 0x5d);
    assert(body.subrange(blank.len() as int + 1, body.len() as int) == trail);
    blanks_are_passed(s, body, blank.len() as int + 1, trail, limit);
}

/// The first value comes out, whatever follows the comma or the bracket behind it.
proof fn value_comes_first(s: Scan, lead: Seq<u8>, item: Spaced, tail: Seq<u8>, limit: int)
    requires
        leads_spaced(s, lead),
        is_blank(item.before) && is_value(item.value) && is_blank(item.behind),
        item.value.len() <= limit,
        tail.len() > 0,
        tail[0] == 0x2c || tail[0] == 0x5d,
        0 <= limit,
    ensures
        ({
            let body = lead + item.before + item.value + item.behind + tail;
            let end = (lead.len() + item.before.len() + item.value.len()) as int;
            let used = if is_bare(item.value) {
                end + item.behind.len() + 1
            } else {
                end
            };
            &&& scan_from(s, body, 0, limit) == (Step::Element {
                scan: between(!is_bare(item.value)),
                element: item.value,
                used,
            })
            &&& 0 < used <= body.len()
            &&& body.skip(used) == (if is_bare(item.value) {
                tail.drop_first()
            } else {
                item.behind + tail
            })
        }),
{
    let Spaced { before, value, behind } = item;
    let body = lead + before + value + behind + tail;
    let from = (lead.len() + before.len()) as int;
    let end = from + value.len();
    assert(body.subrange(0, lead.len() as int) == lead);
    assert(body.subrange(lead.len() as int, from) == before);
    assert(body.subrange(from, end) == value);
    assert(body.subrange(end, end + behind.len()) == behind);
    assert(body[end + behind.len()] == tail[0]);
    lead_is_passed(s, lead, body, limit);
    blanks_are_passed(between(false), body, lead.len() as int, before, limit);
    if is_bare(value) {
        scan_bare_spaced(body, from, value, behind, 0, limit);
        assert(body.skip(end + behind.len() + 1) == tail.drop_first());
    } else {
        if is_bracketed(value) {
            scan_bracketed(body, from, value, 0, limit);
        } else {
            scan_string(body, from, value, 0, limit);
        }
        assert(body.skip(end) == behind + tail);
    }
}

proof fn drain_spaced(items: Seq<Spaced>, s: Scan, lead: Seq<u8>, trail: Seq<u8>, limit: int)
    requires
        items.len() > 0,
        leads_spaced(s, lead),
        are_spaced(items, limit),
        is_blank(trail),
        0 <= limit,
    ensures
        drain(s, 0, lead + spaced_text(items) + seq![0x5du8] + trail, limit).elements
            == values_among(items),
        drain(s, 0, lead + spaced_text(items) + seq![0x5du8] + trail, limit).failed is None,
    decreases items.len(),
{
    let item = items[0];
    let rest = items.drop_first();
    let body = lead + spaced_text(items) + seq![0x5du8] + trail;
    assert(is_value(item.value) && is_blank(item.before) && is_blank(item.behind));
    let tail = if rest.len() == 0 {
        seq![0x5du8] + trail
    } else {
        seq![0x2cu8] + spaced_text(rest) + seq![0x5du8] + trail
    };
    assert(body == lead + item.before + item.value + item.behind + tail);
    value_comes_first(s, lead, item, tail, limit);
    assert forall|i: int| 0 <= i < rest.len() implies {
        &&& is_blank((#[trigger] rest[i]).before)
        &&& is_value(rest[i].value)
        &&& is_blank(rest[i].behind)
        &&& rest[i].value.len() <= limit
    } by {
        assert(rest[i] == items[i + 1]);
    }
    assert(values_among(items) == seq![item.value] + values_among(rest));
    let due = !is_bare(item.value);
    if rest.len() == 0 {
        assert(values_among(rest) == Seq::<Seq<u8>>::empty());
        if due {
            assert(item.behind + tail == item.behind + seq![0x5du8] + trail);
            end_is_passed(between(due), item.behind, trail, limit);
        } else {
            assert(tail.drop_first() == trail);
            end_is_passed(between(due), trail, seq![], limit);
        }
    } else {
        let next = if due {
            item.behind + seq![0x2cu8]
        } else {
            seq![]
        };
        if due {
            assert(next.drop_last() == item.behind);
            assert(item.behind + tail == next + spaced_text(rest) + seq![0x5du8] + trail);
        } else {
            assert(tail.drop_first() == next + spaced_text(rest) + seq![0x5du8] + trail);
        }
        drain_spaced(rest, between(due), next, trail, limit);
    }
}

/// The elements of an array are its values, however many blanks (spaces, tabs, line feeds and
/// carriage returns) stand ahead of the array, behind it and around each value, and however its
/// bytes are cut into chunks; an array of nothing but blanks has none.
pub proof fn law_blanks_make_no_difference(
    lead: Seq<u8>,
    items: Seq<Spaced>,
    gap: Seq<u8>,
    trail: Seq<u8>,
    chunks: Seq<Seq<u8>>,
    limit: int,
)
    requires
        is_blank(lead) && is_blank(gap) && is_blank(trail),
        are_spaced(items, limit),
        chunks.flatten() == lead + seq![0x5bu8] + (if items.len() == 0 {
            gap
        } else {
            spaced_text(items)
        }) + seq![0x5du8] + trail,
        0 <= limit,
    ensures
        feed(start_of_body(), 0, seq![], chunks, limit).elements == values_among(items),
        feed(start_of_body(), 0, seq![], chunks, limit).failed is None,
{
    let body = chunks.flatten();
    feed_is_drain(start_of_body(), 0, seq![], chunks, limit);
    assert(seq![] + chunks.flatten() == body);
    let opening = lead + seq![0x5bu8];
    assert(opening.drop_last() == lead);
    if items.len() == 0 {
        assert(body == opening + gap + seq![0x5du8] + trail);
        assert(body.subrange(0, opening.len() as int) == opening);
        lead_is_passed(start_of_body(), opening, body, limit);
        assert(body.subrange(opening.len() as int, (opening.len() + gap.len()) as int) == gap);
        blanks_are_passed(between(false), body, opening.len() as int, gap, limit);
        let end = (opening.len() + gap.len()) as int;
        assert(body[end] == 0x5d);
        assert(body.subrange(end + 1, body.len() as int) == trail);
        blanks_are_passed(between(false), body, end + 1, trail, limit);
        assert(values_among(items) == Seq::<Seq<u8>>::empty());
    } else {
        assert(body == opening + spaced_text(items) + seq![0x5du8] + trail);
        drain_spaced(items, start_of_body(), opening, trail, limit);
    }
}

/// What of a text that is no array of values: a comma ahead of the first value, or two commas with
/// nothing but blanks between them, and a closing brace where a value could begin, are refused, each
/// as what it is, and the values ahead of them come out.
pub proof fn law_stray_marks_are_refused(
    lead: Seq<u8>,
    items: Seq<Spaced>,
    gap: Seq<u8>,
    mark: u8,
    more: Seq<u8>,
    limit: int,
)
    requires
        is_blank(lead) && is_blank(gap),
        are_spaced(items, limit),
        mark == 0x2c || mark == 0x7d,
        0 <= limit,
    ensures
        ({
            let text = lead + seq![0x5bu8] + spaced_text(items) + (if items.len() == 0 {
                seq![]
            } else {
                seq![0x2cu8]
            }) + gap + seq![mark] + more;
            let drained = drain(start_of_body(), 0, text, limit);
            &&& drained.elements == values_among(items)
            &&& mark == 0x2c ==> (drained.failed matches Some(Step::StrayComma(_)))
            &&& mark == 0x7d ==> (drained.failed matches Some(Step::StrayBrace(_)))
        }),
{
    let opening = lead + seq![0x5bu8];
    assert(opening.drop_last() == lead);
    let tail = gap + seq![mark] + more;
    if items.len() == 0 {
        let text = opening + tail;
        assert(text == lead + seq![0x5bu8] + spaced_text(items) + Seq::<u8>::empty() + gap + seq![
            mark,
        ] + more);
        assert(text.subrange(0, opening.len() as int) == opening);
        lead_is_passed(start_of_body(), opening, text, limit);
        assert(text.subrange(opening.len() as int, (opening.len() + gap.len()) as int) == gap);
        stray_is_refused(text, opening.len() as int, gap, mark, limit);
        assert(values_among(items) == Seq::<Seq<u8>>::empty());
    } else {
        let text = opening + spaced_text(items) + seq![0x2cu8] + tail;
        assert(text == lead + seq![0x5bu8] + spaced_text(items) + seq![0x2cu8] + gap + seq![mark]
            + more);
        drain_to_stray(items, start_of_body(), opening, gap, mark, more, limit);
    }
}

proof fn stray_is_refused(text: Seq<u8>, at: int, gap: Seq<u8>, mark: u8, limit: int)
    requires
        holds_at(text, at, gap),
        is_blank(gap),
        at + gap.len() < text.len(),
        text[at + gap.len()] == mark,
        mark == 0x2c || mark == 0x7d,
    ensures
        mark == 0x2c ==> scan_from(between(false), text, at, limit) is StrayComma,
        mark == 0x7d ==> scan_from(between(false), text, at, limit) is StrayBrace,
{
    blanks_are_passed(between(false), text, at, gap, limit);
}

proof fn drain_stray(s: Scan, lead: Seq<u8>, gap: Seq<u8>, mark: u8, more: Seq<u8>, limit: int)
    requires
        leads_spaced(s, lead),
        is_blank(gap),
        mark == 0x2c || mark == 0x7d,
    ensures
        ({
            let drained = drain(s, 0, lead + (gap + seq![mark] + more), limit);
            &&& drained.elements == Seq::<Seq<u8>>::empty()
            &&& mark == 0x2c ==> (drained.failed matches Some(Step::StrayComma(_)))
            &&& mark == 0x7d ==> (drained.failed matches Some(Step::StrayBrace(_)))
        }),
{
    let text = lead + (gap + seq![mark] + more);
    assert(text.subrange(0, lead.len() as int) == lead);
    lead_is_passed(s, lead, text, limit);
    assert(text.subrange(lead.len() as int, (lead.len() + gap.len()) as int) == gap);
    assert(text[(lead.len() + gap.len()) as int] == mark);
    stray_is_refused(text, lead.len() as int, gap, mark, limit);
}

proof fn drain_to_stray(
    items: Seq<Spaced>,
    s: Scan,
    lead: Seq<u8>,
    gap: Seq<u8>,
    mark: u8,
    more: Seq<u8>,
    limit: int,
)
    requires
        items.len() > 0,
        leads_spaced(s, lead),
        are_spaced(items, limit),
        is_blank(gap),
        mark == 0x2c || mark == 0x7d,
        0 <= limit,
    ensures
        ({
            let text = lead + spaced_text(items) + seq![0x2cu8] + (gap + seq![mark] + more);
            let drained = drain(s, 0, text, limit);
            &&& drained.elements == values_among(items)
            &&& mark == 0x2c ==> (drained.failed matches Some(Step::StrayComma(_)))
            &&& mark == 0x7d ==> (drained.failed matches Some(Step::StrayBrace(_)))
        }),
    decreases items.len(),
{
    let item = items[0];
    let rest = items.drop_first();
    let last = gap + seq![mark] + more;
    let body = lead + spaced_text(items) + seq![0x2cu8] + last;
    assert(is_value(item.value) && is_blank(item.before) && is_blank(item.behind));
    let tail = if rest.len() == 0 {
        seq![0x2cu8] + last
    } else {
        seq![0x2cu8] + spaced_text(rest) + seq![0x2cu8] + last
    };
    assert(body == lead + item.before + item.value + item.behind + tail);
    value_comes_first(s, lead, item, tail, limit);
    assert forall|i: int| 0 <= i < rest.len() implies {
        &&& is_blank((#[trigger] rest[i]).before)
        &&& is_value(rest[i].value)
        &&& is_blank(rest[i].behind)
        &&& rest[i].value.len() <= limit
    } by {
        assert(rest[i] == items[i + 1]);
    }
    assert(values_among(items) == seq![item.value] + values_among(rest));
    let due = !is_bare(item.value);
    let next = if due {
        item.behind + seq![0x2cu8]
    } else {
        seq![]
    };
    if due {
        assert(next.drop_last() == item.behind);
    }
    if rest.len() == 0 {
        let left = next + last;
        if due {
            assert(item.behind + tail == left);
        } else {
            assert(tail.drop_first() == left);
        }
        drain_stray(between(due), next, gap, mark, more, limit);
        assert(values_among(rest) == Seq::<Seq<u8>>::empty());
    } else {
        if due {
            assert(item.behind + tail == next + spaced_text(rest) + seq![0x2cu8] + last);
        } else {
            assert(tail.drop_first() == next + spaced_text(rest) + seq![0x2cu8] + last);
        }
        drain_to_stray(rest, between(due), next, gap, mark, more, limit);
    }
}

/// The bytes that stand for nothing between elements: space, tab, line feed, form feed and carriage
/// return, and no others.
pub proof fn law_which_bytes_are_space(b: u8)
    ensures
        is_space(b) <==> b == 0x20 || b == 0x09 || b == 0x0a || b == 0x0c || b == 0x0d,
{
}

/// A body that is cut short anywhere is not refused for it: the elements that came out are the first
/// of those of the whole body.
pub proof fn law_a_body_cut_short_is_waited_for(body: Seq<u8>, n: int, limit: int)
    requires
        0 <= n <= body.len(),
        drain(start_of_body(), 0, body, limit).failed is None,
    ensures
        ({
            let whole = drain(start_of_body(), 0, body, limit);
            let part = drain(start_of_body(), 0, body.take(n), limit);
            &&& part.failed is None
            &&& part.elements.len() <= whole.elements.len()
            &&& part.elements == whole.elements.take(part.elements.len() as int)
        }),
{
    let part = body.take(n);
    assert(body == part + body.skip(n));
    drain_continues(start_of_body(), 0, part, body.skip(n), limit);
    let first = drain(start_of_body(), 0, part, limit);
    let whole = drain(start_of_body(), 0, body, limit);
    assert(first.elements == whole.elements.take(first.elements.len() as int));
}

/// What each kind of failure is reported as.
pub proof fn law_how_arrays_are_refused(step: Step)
    ensures
        match step {
            Step::More(_) | Step::Element { .. } => JsonArrayCodec::complaint(step) is None,
            Step::TooLong(_) => JsonArrayCodec::complaint(step) == Some(
                ErrorView {
                    kind: StreamErrorKind::MaxLenReachedError,
                    source: None,
                    message: Some("Max object length reached"@),
                },
            ),
            Step::StrayBrace(_) => JsonArrayCodec::complaint(step) == Some(
                ErrorView {
                    kind: StreamErrorKind::CodecError,
                    source: None,
                    message: Some("Unexpected `}` outside any object"@),
                },
            ),
            Step::StrayComma(_) => JsonArrayCodec::complaint(step) == Some(
                ErrorView {
                    kind: StreamErrorKind::CodecError,
                    source: None,
                    message: Some("Unexpected delimiter found"@),
                },
            ),
        },
{
}

/// An element that was parsed is yielded as it is; one that could not be is reported as a failure of
/// the codec, which ends the body.
pub proof fn law_how_elements_are_yielded<T>(
    parsed: Result<T, serde_json::Error>,
    outcome: Result<Option<Result<T, StreamError>>, StreamError>,
)
    requires
        element_outcome(parsed, outcome),
    ensures
        match parsed {
            Ok(item) => outcome == Ok::<_, StreamError>(Some(Ok::<T, StreamError>(item))),
            Err(err) => {
                &&& outcome matches Err(error)
                &&& error@.kind == StreamErrorKind::CodecError
                &&& error@.source == Some(ErrorSource::Json(err))
                &&& error@.message is None
            },
        },
{
}

} // verus!
