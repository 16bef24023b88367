//! What every single byte of a JSON array does to the scan of it, also where the array is no JSON.

use crate::json_array_codec::{is_over, scan_byte, scan_from, trimmed, Mark, Scan, Step};
use vstd::prelude::*;

verus! {

/// Whether a byte is a space, a tab, a line feed, a form feed or a carriage return.
pub open spec fn is_blank_byte(b: u8) -> bool {
    b == 0x20 || b == 0x09 || b == 0x0a || b == 0x0c || b == 0x0d
}

/// Whether two scans are at the same place of the same element.
pub open spec fn same_element(a: Scan, b: Scan) -> bool {
    &&& a.opened == b.opened
    &&& a.depth == b.depth
    &&& a.nested_at == b.nested_at
    &&& a.scalar_at == b.scalar_at
}

/// In a string every byte belongs to it but a quote that no backslash escapes; a backslash escapes the
/// next byte unless it is escaped itself. The string is an element where it is in no other.
pub proof fn law_bytes_in_a_string(s: Scan, b: u8, at: int)
    requires
        s.quoted,
    ensures
        ({
            let (next, mark) = scan_byte(s, b, at);
            &&& s.escaped || b != 0x22 ==> {
                &&& mark is Quiet
                &&& next.quoted
                &&& same_element(next, s)
                &&& next.comma_due == s.comma_due
                &&& next.escaped <==> !s.escaped && b == 0x5c
            }
            &&& !s.escaped && b == 0x22 ==> {
                &&& !next.quoted
                &&& !next.escaped
                &&& next.opened == s.opened && next.depth == s.depth && next.nested_at
                    == s.nested_at
                &&& next.scalar_at is None
                &&& match s.scalar_at {
                    Some(from) => mark == Mark::Whole(from) && next.comma_due,
                    None => mark is Quiet && next.comma_due == s.comma_due,
                }
            }
        }),
{
}

/// In an object or an array that is an element, brackets and braces open and close, quotes begin
/// strings, and nothing else matters; the element ends where all that was opened is closed.
pub proof fn law_bytes_in_a_bracketed_element(s: Scan, b: u8, at: int)
    requires
        !s.quoted,
        s.depth > 0,
    ensures
        ({
            let (next, mark) = scan_byte(s, b, at);
            &&& next.opened == s.opened && next.scalar_at == s.scalar_at && next.escaped
                == s.escaped
            &&& next.quoted <==> b == 0x22
            &&& b == 0x5b || b == 0x7b ==> mark is Quiet && next.depth == s.depth + 1
                && next.nested_at == s.nested_at && next.comma_due == s.comma_due
            &&& (b == 0x5d || b == 0x7d) && s.depth > 1 ==> mark is Quiet && next.depth == s.depth
                - 1 && next.nested_at == s.nested_at && next.comma_due == s.comma_due
            &&& (b == 0x5d || b == 0x7d) && s.depth == 1 ==> mark == Mark::Whole(s.nested_at)
                && next.depth == 0 && next.comma_due
            &&& b != 0x5b && b != 0x7b && b != 0x5d && b != 0x7d ==> mark is Quiet && next.depth
                == s.depth && next.nested_at == s.nested_at && next.comma_due == s.comma_due
        }),
{
}

/// Between elements a bracket or a brace begins one, unless it is the bracket that opens the array; a
/// brace cannot close; quotes and, once the array is open, all else but blanks begin a value.
pub proof fn law_bytes_that_begin_elements(s: Scan, b: u8, at: int)
    requires
        !s.quoted,
        s.depth == 0,
        b != 0x5d,
        b != 0x2c,
    ensures
        ({
            let (next, mark) = scan_byte(s, b, at);
            let from = match s.scalar_at {
                Some(from) => Some(from),
                None => Some(at),
            };
            &&& mark is StrayBrace <==> b == 0x7d
            &&& b != 0x7d ==> mark is Quiet
            &&& next.comma_due == s.comma_due
            &&& next.escaped == s.escaped
            &&& next.quoted <==> b == 0x22
            &&& next.opened <==> s.opened || b == 0x5b
            &&& b == 0x22 ==> next.scalar_at == from && next.depth == 0
            &&& b == 0x5b && !s.opened ==> next.scalar_at == s.scalar_at && next.depth == 0
            &&& b == 0x7b || (b == 0x5b && s.opened) ==> next.depth == 1 && next.nested_at == at
                && next.scalar_at is None
            &&& b != 0x22 && b != 0x5b && b != 0x7b && b != 0x7d ==> next.depth == 0
                && next.scalar_at == (if s.opened && !is_blank_byte(b) {
                from
            } else {
                s.scalar_at
            })
        }),
{
}

/// Between elements a comma or a closing bracket ends a value that was begun. A comma may otherwise
/// stand only behind an element, and a closing bracket anywhere.
pub proof fn law_bytes_that_end_elements(s: Scan, b: u8, at: int)
    requires
        !s.quoted,
        s.depth == 0,
        b == 0x5d || b == 0x2c,
    ensures
        ({
            let (next, mark) = scan_byte(s, b, at);
            &&& !next.quoted && next.depth == 0 && next.opened == s.opened && next.nested_at
                == s.nested_at && next.escaped == s.escaped
            &&& next.scalar_at is None
            &&& match s.scalar_at {
                Some(from) => mark == Mark::Bare(from),
                None => if b == 0x5d {
                    mark is Quiet && next.comma_due == s.comma_due
                } else if s.comma_due {
                    mark is Quiet && !next.comma_due
                } else {
                    mark is StrayComma
                },
            }
            &&& b == 0x2c ==> !next.comma_due
        }),
{
}

/// Trimming takes blanks off both ends, all of them and nothing else.
pub proof fn law_what_is_trimmed(text: Seq<u8>) -> (ends: (int, int))
    ensures
        0 <= ends.0 <= ends.1 <= text.len(),
        trimmed(text) == text.subrange(ends.0, ends.1),
        forall|i: int| 0 <= i < ends.0 ==> is_blank_byte(#[trigger] text[i]),
        forall|i: int| ends.1 <= i < text.len() ==> is_blank_byte(#[trigger] text[i]),
        ends.0 < ends.1 ==> !is_blank_byte(text[ends.0]) && !is_blank_byte(text[ends.1 - 1]),
    decreases text.len(),
{
    if text.len() == 0 {
        assert(text.subrange(0, 0) == text);
        (0, 0)
    } else if is_blank_byte(text[0]) {
        let rest = text.drop_first();
        let (from, to) = law_what_is_trimmed(rest);
        assert(rest.subrange(from, to) == text.subrange(from + 1, to + 1));
        assert forall|i: int| 0 <= i < from + 1 implies is_blank_byte(#[trigger] text[i]) by {
            if i > 0 {
                assert(rest[i - 1] == text[i]);
            }
        }
        assert forall|i: int| to + 1 <= i < text.len() implies is_blank_byte(#[trigger] text[i]) by {
            assert(rest[i - 1] == text[i]);
        }
        (from + 1, to + 1)
    } else if is_blank_byte(text[text.len() - 1]) {
        let most = text.drop_last();
        let (from, to) = law_what_is_trimmed(most);
        assert(most.subrange(from, to) == text.subrange(from, to));
        assert forall|i: int| 0 <= i < from implies is_blank_byte(#[trigger] text[i]) by {
            assert(most[i] == text[i]);
        }
        assert forall|i: int| to <= i < text.len() implies is_blank_byte(#[trigger] text[i]) by {
            if i < most.len() {
                assert(most[i] == text[i]);
            }
        }
        (from, to)
    } else {
        assert(text.subrange(0, text.len() as int) == text);
        (0, text.len() as int)
    }
}

/// An element that is under way is too long as soon as more of its bytes have passed than the limit;
/// blanks behind a value that is no string do not count.
pub proof fn law_when_an_element_is_too_long(s: Scan, b: u8, at: int, limit: int)
    ensures
        s.depth > 0 ==> (is_over(s, b, at, limit) <==> at - s.nested_at >= limit),
        s.depth == 0 && s.scalar_at is None ==> !is_over(s, b, at, limit),
        s.depth == 0 && s.scalar_at is Some && !s.quoted && is_blank_byte(b) ==> !is_over(
            s,
            b,
            at,
            limit,
        ),
        s.depth == 0 && s.scalar_at is Some && (s.quoted || !is_blank_byte(b)) ==> (is_over(
            s,
            b,
            at,
            limit,
        ) <==> at - s.scalar_at->Some_0 >= limit),
{
}

/// The scan goes from byte to byte up to the first that ends an element or is refused; what the element
/// is are the bytes from its beginning to its end, without blanks around a value that is no string.
pub proof fn law_how_a_scan_goes(s: Scan, body: Seq<u8>, at: int, limit: int)
    requires
        0 <= at <= body.len(),
    ensures
        at == body.len() ==> scan_from(s, body, at, limit) == Step::More(s),
        at < body.len() ==> {
            let (next, mark) = scan_byte(s, body[at], at);
            let rest = scan_from(next, body, at + 1, limit);
            match mark {
                Mark::StrayBrace => scan_from(s, body, at, limit) is StrayBrace,
                Mark::StrayComma => scan_from(s, body, at, limit) is StrayComma,
                Mark::Quiet => if is_over(next, body[at], at, limit) {
                    scan_from(s, body, at, limit) is TooLong
                } else {
                    scan_from(s, body, at, limit) == rest
                },
                Mark::Whole(from) => if at + 1 - from > limit {
                    scan_from(s, body, at, limit) is TooLong
                } else {
                    scan_from(s, body, at, limit) == (Step::Element {
                        scan: next,
                        element: body.subrange(from, at + 1),
                        used: at + 1,
                    })
                },
                Mark::Bare(from) => {
                    let element = trimmed(body.subrange(from, at));
                    if element.len() == 0 {
                        scan_from(s, body, at, limit) == rest
                    } else if element.len() > limit {
                        scan_from(s, body, at, limit) is TooLong
                    } else {
                        scan_from(s, body, at, limit) == (Step::Element {
                            scan: Scan { comma_due: false, ..next },
                            element,
                            used: at + 1,
                        })
                    }
                },
            }
        },
{
}

/// Whether a byte is no quote, bracket, brace or comma.
pub open spec fn is_plain(b: u8) -> bool {
    b != 0x22 && b != 0x5b && b != 0x5d && b != 0x7b && b != 0x7d && b != 0x2c
}

/// Ahead of the bracket that opens the array, whatever is no quote, bracket, brace or comma is passed
/// over.
pub proof fn law_what_is_ahead_of_the_array(front: Seq<u8>, body: Seq<u8>, s: Scan, limit: int)
    requires
        !s.quoted,
        !s.opened,
        s.depth == 0,
        s.scalar_at is None,
        front.len() <= body.len(),
        body.take(front.len() as int) == front,
        forall|i: int| 0 <= i < front.len() ==> is_plain(#[trigger] front[i]),
    ensures
        scan_from(s, body, 0, limit) == scan_from(s, body, front.len() as int, limit),
{
    passed_over(front, body, s, limit, 0);
}

proof fn passed_over(front: Seq<u8>, body: Seq<u8>, s: Scan, limit: int, at: int)
    requires
        !s.quoted,
        !s.opened,
        s.depth == 0,
        s.scalar_at is None,
        front.len() <= body.len(),
        body.take(front.len() as int) == front,
        0 <= at <= front.len(),
        forall|i: int| 0 <= i < front.len() ==> is_plain(#[trigger] front[i]),
    ensures
        scan_from(s, body, at, limit) == scan_from(s, body, front.len() as int, limit),
    decreases front.len() - at,
{
    if at < front.len() {
        assert(body.take(front.len() as int)[at] == body[at]);
        assert(is_plain(front[at]));
        passed_over(front, body, s, limit, at + 1);
    }
}

} // verus!
