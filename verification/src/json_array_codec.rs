//! Decoding a JSON array into its elements, incrementally.
//!
//! Elements of a JSON array are not self-delimiting: there is no marker that says "an element
//! ends here" without tracking nesting, quoting and escaping. So this is a byte-level state
//! machine rather than a delimiter search, and it handles objects, arrays, strings and bare
//! primitives as elements.

use crate::error::{caused, reason, ErrorSource, StreamError, StreamErrorKind};
use crate::octets::{advance, buffer_len, buffer_slice, held};
use bytes::BytesMut;
use vstd::prelude::*;
use vstd::slice::{slice_subrange, slice_to_vec};

verus! {

/// `"`
pub const QUOTE: u8 = 0x22;

/// `,`
pub const COMMA: u8 = 0x2c;

/// `[`
pub const OPEN_BRACKET: u8 = 0x5b;

/// `\`
pub const BACKSLASH: u8 = 0x5c;

/// `]`
pub const CLOSE_BRACKET: u8 = 0x5d;

/// `{`
pub const OPEN_BRACE: u8 = 0x7b;

/// `}`
pub const CLOSE_BRACE: u8 = 0x7d;

/// Where a scan of the body stands between two bytes.
pub struct Scan {
    /// The bracket that opens the array has been passed.
    pub opened: bool,
    /// An element has just ended, so a comma may follow.
    pub comma_due: bool,
    /// Inside a string.
    pub quoted: bool,
    /// Inside a string, right behind a backslash that escapes.
    pub escaped: bool,
    /// How many brackets and braces of the current element are open.
    pub depth: int,
    /// Where the current bracketed element began.
    pub nested_at: int,
    /// Where the current string or bare primitive began, if one has.
    pub scalar_at: Option<int>,
}

/// What one byte, at some position, says about the elements.
pub enum Mark {
    /// Nothing ends here.
    Quiet,
    /// An element that began at the given position ends with this byte.
    Whole(int),
    /// A bare primitive that began at the given position ended before this byte.
    Bare(int),
    /// A closing brace outside any object.
    StrayBrace,
    /// A comma where none may stand.
    StrayComma,
}

/// How a scan over the bytes at hand ended.
pub enum Step {
    /// All bytes were passed and no element ended.
    More(Scan),
    /// An element ended; it and everything before it takes up the first `used` bytes.
    Element { scan: Scan, element: Seq<u8>, used: int },
    /// The element is longer than the limit.
    TooLong(Scan),
    /// A closing brace stood outside any object.
    StrayBrace(Scan),
    /// A comma stood where none may.
    StrayComma(Scan),
}

/// The scan before the first byte of a body.
pub open spec fn start_of_body() -> Scan {
    Scan {
        opened: false,
        comma_due: false,
        quoted: false,
        escaped: false,
        depth: 0,
        nested_at: 0,
        scalar_at: None,
    }
}

/// Space, tab, line feed, form feed and carriage return.
pub open spec fn is_space(b: u8) -> bool {
    b == 0x20 || b == 0x09 || b == 0x0a || b == 0x0c || b == 0x0d
}

/// `text` without the whitespace at its ends.
pub open spec fn trimmed(text: Seq<u8>) -> Seq<u8>
    decreases text.len(),
{
    if text.len() == 0 {
        text
    } else if is_space(text.first()) {
        trimmed(text.drop_first())
    } else if is_space(text.last()) {
        trimmed(text.drop_last())
    } else {
        text
    }
}

/// The scan inside a string.
pub open spec fn scan_quoted(s: Scan, b: u8) -> (Scan, Mark) {
    if b == QUOTE && !s.escaped {
        let closed = Scan { quoted: false, ..s };
        match s.scalar_at {
            Some(from) => (
                Scan { comma_due: true, scalar_at: None, ..closed },
                Mark::Whole(from),
            ),
            None => (closed, Mark::Quiet),
        }
    } else {
        (Scan { escaped: b == BACKSLASH && !s.escaped, ..s }, Mark::Quiet)
    }
}

/// The scan inside a bracketed element, outside any string.
pub open spec fn scan_nested(s: Scan, b: u8) -> (Scan, Mark) {
    if b == QUOTE {
        (Scan { quoted: true, ..s }, Mark::Quiet)
    } else if b == OPEN_BRACKET || b == OPEN_BRACE {
        (Scan { depth: s.depth + 1, ..s }, Mark::Quiet)
    } else if b == CLOSE_BRACKET || b == CLOSE_BRACE {
        if s.depth == 1 {
            (Scan { depth: 0, nested_at: 0, comma_due: true, ..s }, Mark::Whole(s.nested_at))
        } else {
            (Scan { depth: s.depth - 1, ..s }, Mark::Quiet)
        }
    } else {
        (s, Mark::Quiet)
    }
}

/// The scan between elements, or inside a bare primitive.
pub open spec fn scan_flat(s: Scan, b: u8, at: int) -> (Scan, Mark) {
    let begun = Scan { scalar_at: Some(s.scalar_at.unwrap_or(at)), ..s };
    if b == QUOTE {
        (Scan { quoted: true, ..begun }, Mark::Quiet)
    } else if b == OPEN_BRACKET && !s.opened {
        (Scan { opened: true, ..s }, Mark::Quiet)
    } else if b == OPEN_BRACKET || b == OPEN_BRACE {
        (Scan { depth: 1, nested_at: at, scalar_at: None, ..s }, Mark::Quiet)
    } else if b == CLOSE_BRACE {
        (s, Mark::StrayBrace)
    } else if b == CLOSE_BRACKET || b == COMMA {
        match s.scalar_at {
            Some(from) => (
                Scan { scalar_at: None, comma_due: s.comma_due && b == CLOSE_BRACKET, ..s },
                Mark::Bare(from),
            ),
            None if b == CLOSE_BRACKET => (s, Mark::Quiet),
            None if s.comma_due => (Scan { comma_due: false, ..s }, Mark::Quiet),
            None => (s, Mark::StrayComma),
        }
    } else if s.opened && !is_space(b) {
        (begun, Mark::Quiet)
    } else {
        (s, Mark::Quiet)
    }
}

/// The scan moved past the byte `b` at position `at`.
pub open spec fn scan_byte(s: Scan, b: u8, at: int) -> (Scan, Mark) {
    if s.quoted {
        scan_quoted(s, b)
    } else if s.depth > 0 {
        scan_nested(s, b)
    } else {
        scan_flat(s, b, at)
    }
}

/// Whether the element that is under way is longer than `limit` once the byte `b` at position `at`
/// has been passed. Whitespace behind a bare primitive is no part of it.
pub open spec fn is_over(s: Scan, b: u8, at: int, limit: int) -> bool {
    if s.depth > 0 {
        at + 1 - s.nested_at > limit
    } else {
        s.scalar_at matches Some(from) && (s.quoted || !is_space(b)) && at + 1 - from > limit
    }
}

/// The scan of `body` from position `at` on, up to the end of the next element, or to where it is
/// longer than `limit`.
pub open spec fn scan_from(s: Scan, body: Seq<u8>, at: int, limit: int) -> Step
    decreases body.len() - at,
{
    if at >= body.len() {
        Step::More(s)
    } else {
        let (next, mark) = scan_byte(s, body[at], at);
        match mark {
            Mark::Quiet => if is_over(next, body[at], at, limit) {
                Step::TooLong(next)
            } else {
                scan_from(next, body, at + 1, limit)
            },
            Mark::Whole(from) => if at + 1 - from > limit {
                Step::TooLong(next)
            } else {
                Step::Element {
                    scan: next,
                    element: body.subrange(from, at + 1),
                    used: at + 1,
                }
            },
            Mark::Bare(from) => {
                let element = trimmed(body.subrange(from, at));
                if element.len() == 0 {
                    scan_from(next, body, at + 1, limit)
                } else if element.len() > limit {
                    Step::TooLong(next)
                } else {
                    Step::Element {
                        scan: Scan { comma_due: false, ..next },
                        element,
                        used: at + 1,
                    }
                }
            },
            Mark::StrayBrace => Step::StrayBrace(next),
            Mark::StrayComma => Step::StrayComma(next),
        }
    }
}

/// Whether `s` is a scan that has passed `at` bytes: the positions it remembers lie among them.
pub open spec fn fits(s: Scan, at: int) -> bool {
    &&& 0 <= s.depth <= at
    &&& s.depth > 0 ==> 0 <= s.nested_at < at && s.scalar_at is None
    &&& s.scalar_at matches Some(from) ==> 0 <= from < at
    &&& s.escaped ==> s.quoted
    &&& s.quoted && s.depth == 0 ==> s.scalar_at is Some
}

#[derive(Clone, Debug)]
struct JsonCursor {
    current_offset: usize,
    array_is_opened: bool,
    delimiter_expected: bool,
    quote_opened: bool,
    escaped: bool,
    opened_brackets: usize,
    current_obj_pos: usize,
    /// When `Some(pos)`, a primitive value (number/bool/null/string) is being accumulated from
    /// `pos` in the buffer. A quoted string also uses this.
    current_primitive_start: Option<usize>,
}

/// What the cursor saw at one byte; positions are where the element began.
enum Seen {
    Nothing,
    ElementEnd(usize),
    PrimitiveEnd(usize),
    StrayBrace,
    StrayComma,
}

impl Seen {
    spec fn mark(self) -> Mark {
        match self {
            Seen::Nothing => Mark::Quiet,
            Seen::ElementEnd(from) => Mark::Whole(from as int),
            Seen::PrimitiveEnd(from) => Mark::Bare(from as int),
            Seen::StrayBrace => Mark::StrayBrace,
            Seen::StrayComma => Mark::StrayComma,
        }
    }
}

impl JsonCursor {
    spec fn scan(self) -> Scan {
        Scan {
            opened: self.array_is_opened,
            comma_due: self.delimiter_expected,
            quoted: self.quote_opened,
            escaped: self.escaped,
            depth: self.opened_brackets as int,
            nested_at: self.current_obj_pos as int,
            scalar_at: match self.current_primitive_start {
                Some(from) => Some(from as int),
                None => None,
            },
        }
    }

    /// Moves past the byte `ch` at position `abs_pos`.
    fn pass(&mut self, ch: u8, abs_pos: usize) -> (seen: Seen)
        requires
            fits(old(self).scan(), abs_pos as int),
            abs_pos < usize::MAX,
        ensures
            scan_byte(old(self).scan(), ch, abs_pos as int) == (final(self).scan(), seen.mark()),
            final(self).current_offset == old(self).current_offset,
            fits(final(self).scan(), abs_pos + 1),
            seen matches Seen::ElementEnd(from) ==> from <= abs_pos && fits(
                final(self).scan(),
                0,
            ),
            seen matches Seen::PrimitiveEnd(from) ==> from < abs_pos && fits(
                final(self).scan(),
                0,
            ),
    {
        let top_level = self.opened_brackets == 0;
        if self.quote_opened {
            if ch == QUOTE && !self.escaped {
                self.quote_opened = false;
                if top_level {
                    // Closing quote of a top-level string element.
                    if let Some(prim_start) = self.current_primitive_start {
                        self.current_primitive_start = None;
                        self.delimiter_expected = true;
                        return Seen::ElementEnd(prim_start);
                    }
                }
            } else {
                self.escaped = ch == BACKSLASH && !self.escaped;
            }
        } else if ch == QUOTE {
            self.quote_opened = true;
            // Opening quote of a top-level string element.
            if top_level && self.current_primitive_start.is_none() {
                self.current_primitive_start = Some(abs_pos);
            }
        } else if ch == OPEN_BRACKET && top_level && !self.array_is_opened {
            self.array_is_opened = true;
        } else if ch == OPEN_BRACKET || ch == OPEN_BRACE {
            if top_level {
                // A bracketed element begins.
                self.current_obj_pos = abs_pos;
                self.current_primitive_start = None;
            }
            self.opened_brackets = self.opened_brackets + 1;
        } else if ch == CLOSE_BRACE && top_level {
            // Without this guard a stray `}` would underflow the counter.
            return Seen::StrayBrace;
        } else if ch == CLOSE_BRACKET && top_level {
            // End of the top-level array. Any pending primitive ends with it.
            if let Some(prim_start) = self.current_primitive_start {
                self.current_primitive_start = None;
                return Seen::PrimitiveEnd(prim_start);
            }
        } else if ch == CLOSE_BRACKET || ch == CLOSE_BRACE {
            self.opened_brackets = self.opened_brackets - 1;
            if self.opened_brackets == 0 {
                // Closed a nested array/object element.
                let obj_pos: usize = self.current_obj_pos;
                self.delimiter_expected = true;
                self.current_obj_pos = 0;
                return Seen::ElementEnd(obj_pos);
            }
        } else if ch == COMMA && top_level {
            let delimiter_expected = self.delimiter_expected;
            if let Some(prim_start) = self.current_primitive_start {
                self.current_primitive_start = None;
                self.delimiter_expected = false;
                return Seen::PrimitiveEnd(prim_start);
            }
            if !delimiter_expected {
                return Seen::StrayComma;
            }
            self.delimiter_expected = false;
        } else if top_level && self.array_is_opened && !is_ascii_whitespace(ch)
            && self.current_primitive_start.is_none() {
            // Non-whitespace at top level inside the array: the start of a primitive.
            self.current_primitive_start = Some(abs_pos);
        }
        Seen::Nothing
    }
}

impl JsonCursor {
    /// Whether the element that is under way is longer than `max_length`, with the byte `ch` at
    /// position `abs_pos` just passed.
    fn is_over(&self, ch: u8, abs_pos: usize, max_length: usize) -> (over: bool)
        requires
            fits(self.scan(), abs_pos + 1),
        ensures
            over == is_over(self.scan(), ch, abs_pos as int, max_length as int),
    {
        if self.opened_brackets > 0 {
            abs_pos - self.current_obj_pos >= max_length
        } else {
            match self.current_primitive_start {
                Some(prim_start) => (self.quote_opened || !is_ascii_whitespace(ch)) && abs_pos
                    - prim_start >= max_length,
                None => false,
            }
        }
    }
}

fn is_ascii_whitespace(b: u8) -> (space: bool)
    ensures
        space == is_space(b),
{
    b == 0x20 || b == 0x09 || b == 0x0a || b == 0x0c || b == 0x0d
}

fn trim_ascii(bytes: &[u8]) -> (text: &[u8])
    ensures
        text@ == trimmed(bytes@),
{
    let mut start: usize = 0;
    let mut end: usize = bytes.len();
    assert(bytes@.subrange(0, end as int) == bytes@);
    while start < end && is_ascii_whitespace(bytes[start])
        invariant
            start <= end == bytes@.len(),
            trimmed(bytes@) == trimmed(bytes@.subrange(start as int, end as int)),
        decreases end - start,
    {
        assert(bytes@.subrange(start as int, end as int).drop_first() == bytes@.subrange(
            start + 1,
            end as int,
        ));
        start = start + 1;
    }
    while start < end && is_ascii_whitespace(bytes[end - 1])
        invariant
            start <= end <= bytes@.len(),
            start < end ==> !is_space(bytes@[start as int]),
            trimmed(bytes@) == trimmed(bytes@.subrange(start as int, end as int)),
        decreases end - start,
    {
        assert(bytes@.subrange(start as int, end as int).drop_last() == bytes@.subrange(
            start as int,
            end - 1,
        ));
        end = end - 1;
    }
    slice_subrange(bytes, start, end)
}

/// Yields the elements of a JSON array out of a buffer that fills up bit by bit.
#[derive(Clone, Debug)]
pub struct JsonArrayCodec {
    max_length: usize,
    json_cursor: JsonCursor,
}

/// What a parsed element amounts to. Every failure is terminal, because the cursor tracks
/// nesting across elements and cannot resynchronise after a bad one.
pub open spec fn element_outcome<T>(
    parsed: Result<T, serde_json::Error>,
    outcome: Result<Option<Result<T, StreamError>>, StreamError>,
) -> bool {
    match parsed {
        Ok(item) => outcome == Ok::<_, StreamError>(Some(Ok::<_, StreamError>(item))),
        Err(err) => outcome matches Err(error) && error@ == caused(
            StreamErrorKind::CodecError,
            ErrorSource::Json(err),
        ),
    }
}

/// The error for an element that is longer than the limit.
fn too_long() -> (error: StreamError)
    ensures
        error@ == reason(StreamErrorKind::MaxLenReachedError, "Max object length reached"@),
{
    StreamError::because(StreamErrorKind::MaxLenReachedError, "Max object length reached")
}

impl JsonArrayCodec {
    /// The length beyond which an element is refused.
    pub closed spec fn limit(self) -> int {
        self.max_length as int
    }

    /// Where the scan of the current buffer stands.
    pub closed spec fn scan(self) -> Scan {
        self.json_cursor.scan()
    }

    /// How many bytes at the front of the buffer have been scanned.
    pub closed spec fn offset(self) -> int {
        self.json_cursor.current_offset as int
    }

    /// Whether the codec can go on with a buffer that holds `body`: what it has scanned of it so
    /// far is there. A failed codec need not be.
    pub open spec fn ready(self, body: Seq<u8>) -> bool {
        body.len() == 0 || (self.offset() <= body.len() && fits(self.scan(), self.offset()))
    }

    /// What the next call finds in a buffer that holds `body`.
    pub open spec fn next_step(self, body: Seq<u8>) -> Step {
        if body.len() == 0 {
            Step::More(self.scan())
        } else {
            scan_from(self.scan(), body, self.offset(), self.limit())
        }
    }

    /// How a call that met `step` leaves the codec, and the buffer that held `body`.
    pub open spec fn moved(self, body: Seq<u8>, step: Step, after: Self, left: Seq<u8>) -> bool {
        &&& after.limit() == self.limit()
        &&& match step {
            Step::More(scan) => {
                &&& after.scan() == scan
                &&& after.offset() == (if body.len() == 0 {
                    self.offset()
                } else {
                    body.len() as int
                })
                &&& left == body
                &&& after.ready(left)
            },
            Step::Element { scan, element, used } => {
                &&& after.scan() == scan
                &&& after.offset() == 0
                &&& left == body.skip(used)
                &&& after.ready(left)
            },
            Step::TooLong(scan) | Step::StrayBrace(scan) | Step::StrayComma(scan) => {
                &&& after.scan() == scan
                &&& after.offset() == self.offset()
                &&& left == body
            },
        }
    }

    /// The error that a step other than the end of an element is reported as.
    pub open spec fn complaint(step: Step) -> Option<crate::error::ErrorView> {
        match step {
            Step::More(_) | Step::Element { .. } => None,
            Step::TooLong(_) => Some(
                reason(StreamErrorKind::MaxLenReachedError, "Max object length reached"@),
            ),
            Step::StrayBrace(_) => Some(
                reason(StreamErrorKind::CodecError, "Unexpected `}` outside any object"@),
            ),
            Step::StrayComma(_) => Some(
                reason(StreamErrorKind::CodecError, "Unexpected delimiter found"@),
            ),
        }
    }

    /// A codec that rejects any single element longer than `max_length` bytes.
    pub fn new_with_max_length(max_length: usize) -> (codec: Self)
        ensures
            codec.limit() == max_length,
            codec.scan() == start_of_body(),
            codec.offset() == 0,
    {
        let initial_cursor = JsonCursor {
            current_offset: 0,
            array_is_opened: false,
            delimiter_expected: false,
            quote_opened: false,
            escaped: false,
            opened_brackets: 0,
            current_obj_pos: 0,
            current_primitive_start: None,
        };
        JsonArrayCodec { max_length, json_cursor: initial_cursor }
    }

    /// The text of the next element, if the buffer holds the end of one.
    pub fn next_element(&mut self, buf: &mut BytesMut) -> (res: Result<
        Option<Vec<u8>>,
        StreamError,
    >)
        requires
            old(self).ready(held(*old(buf))),
        ensures
            old(self).moved(
                held(*old(buf)),
                old(self).next_step(held(*old(buf))),
                *final(self),
                held(*final(buf)),
            ),
            match old(self).next_step(held(*old(buf))) {
                Step::More(_) => res matches Ok(None),
                Step::Element { element, .. } => res matches Ok(Some(text)) && text@ == element,
                step => res matches Err(error) && Some(error@) == Self::complaint(step),
            },
    {
        let len: usize = buffer_len(buf);
        if len == 0 {
            return Ok(None);
        }
        let ghost body = held(*buf);
        let ghost step = self.next_step(body);
        let mut abs_pos: usize = self.json_cursor.current_offset;
        while abs_pos < len
            invariant
                body == held(*buf),
                body == held(*old(buf)),
                len == body.len() > 0,
                abs_pos <= len,
                self.max_length == old(self).max_length,
                self.json_cursor.current_offset == old(self).json_cursor.current_offset,
                fits(self.scan(), abs_pos as int),
                step == old(self).next_step(body),
                step == scan_from(self.scan(), body, abs_pos as int, self.limit()),
            decreases len - abs_pos,
        {
            let slice = buffer_slice(buf);
            let ch: u8 = slice[abs_pos];
            match self.json_cursor.pass(ch, abs_pos) {
                Seen::Nothing => {
                    if self.json_cursor.is_over(ch, abs_pos, self.max_length) {
                        return Err(too_long());
                    }
                },
                Seen::ElementEnd(obj_pos) => {
                    if abs_pos - obj_pos >= self.max_length {
                        return Err(too_long());
                    }
                    let element = slice_to_vec(slice_subrange(slice, obj_pos, abs_pos + 1));
                    advance(buf, abs_pos + 1);
                    self.json_cursor.current_offset = 0;
                    return Ok(Some(element));
                },
                Seen::PrimitiveEnd(prim_start) => {
                    let text = trim_ascii(slice_subrange(slice, prim_start, abs_pos));
                    if text.len() > self.max_length {
                        return Err(too_long());
                    }
                    if text.len() > 0 {
                        let element = slice_to_vec(text);
                        advance(buf, abs_pos + 1);
                        self.json_cursor.current_offset = 0;
                        self.json_cursor.delimiter_expected = false;
                        return Ok(Some(element));
                    }
                },
                Seen::StrayBrace => {
                    return Err(
                        StreamError::because(
                            StreamErrorKind::CodecError,
                            "Unexpected `}` outside any object",
                        ),
                    );
                },
                Seen::StrayComma => {
                    return Err(
                        StreamError::because(
                            StreamErrorKind::CodecError,
                            "Unexpected delimiter found",
                        ),
                    );
                },
            }
            abs_pos = abs_pos + 1;
        }
        self.json_cursor.current_offset = len;
        Ok(None)
    }

    /// The next element, parsed by `parse`, if the buffer holds the end of one.
    pub fn decode<T, P: FnOnce(&[u8]) -> Result<T, serde_json::Error>>(
        &mut self,
        buf: &mut BytesMut,
        parse: P,
    ) -> (res: Result<Option<Result<T, StreamError>>, StreamError>)
        requires
            old(self).ready(held(*old(buf))),
            forall|text: &[u8]| #[trigger] call_requires(parse, (text,)),
        ensures
            old(self).moved(
                held(*old(buf)),
                old(self).next_step(held(*old(buf))),
                *final(self),
                held(*final(buf)),
            ),
            match old(self).next_step(held(*old(buf))) {
                Step::More(_) => res matches Ok(None),
                Step::Element { element, .. } => exists|text: &[u8], parsed: Result<T, serde_json::Error>|
                    text@ == element && #[trigger] call_ensures(parse, (text,), parsed)
                        && element_outcome(parsed, res),
                step => res matches Err(error) && Some(error@) == Self::complaint(step),
            },
    {
        match self.next_element(buf) {
            Err(error) => Err(error),
            Ok(None) => Ok(None),
            Ok(Some(element)) => {
                let text = element.as_slice();
                let parsed = parse(text);
                let ghost outcome = parsed;
                assert(call_ensures(parse, (text,), outcome));
                match parsed {
                    Ok(item) => Ok(Some(Ok(item))),
                    Err(err) => Err(StreamError::codec(ErrorSource::Json(err))),
                }
            },
        }
    }

    /// As [`decode`](Self::decode): the end of the body ends no element by itself.
    pub fn decode_eof<T, P: FnOnce(&[u8]) -> Result<T, serde_json::Error>>(
        &mut self,
        buf: &mut BytesMut,
        parse: P,
    ) -> (res: Result<Option<Result<T, StreamError>>, StreamError>)
        requires
            old(self).ready(held(*old(buf))),
            forall|text: &[u8]| #[trigger] call_requires(parse, (text,)),
        ensures
            old(self).moved(
                held(*old(buf)),
                old(self).next_step(held(*old(buf))),
                *final(self),
                held(*final(buf)),
            ),
            match old(self).next_step(held(*old(buf))) {
                Step::More(_) => res matches Ok(None),
                Step::Element { element, .. } => exists|text: &[u8], parsed: Result<T, serde_json::Error>|
                    text@ == element && #[trigger] call_ensures(parse, (text,), parsed)
                        && element_outcome(parsed, res),
                step => res matches Err(error) && Some(error@) == Self::complaint(step),
            },
    {
        self.decode(buf, parse)
    }
}

} // verus!
