//! What holds of a CSV body as a whole, however it is cut into chunks.

use crate::csv_record_codec::{
    call_is_sound, fields_of, in_two, incremental_now, is_marked, joined, less_to_do, record_from,
    split_fields, unread, verdict, CsvRecordCodec, CsvState, Framed, ReadStatus, Settled, Verdict,
};
use crate::error::{StreamError, StreamErrorKind};
use crate::octets::held;
use bytes::BytesMut;
use vstd::prelude::*;

verus! {

/// What comes of asking a framer for records until it has no more. It leaves nothing in the
/// buffer.
pub struct Drained {
    /// The records, in order.
    pub records: Seq<Seq<Seq<u8>>>,
    /// A record was larger than the limit.
    pub failed: bool,
    /// Where the framer stands afterwards, where nothing failed.
    pub state: CsvState,
}

impl Drained {
    /// `self` with `records` before its own.
    pub open spec fn after(self, records: Seq<Seq<Seq<u8>>>) -> Drained {
        Drained { records: records + self.records, ..self }
    }

    /// The same records, and the same end.
    pub open spec fn same(self, other: Drained) -> bool {
        &&& self.records == other.records
        &&& self.failed == other.failed
        &&& !self.failed ==> self.state == other.state
    }
}

/// Asks for records, with `body` buffered, until there are no more.
pub open spec fn drain(state: CsvState, body: Seq<u8>) -> Drained
    decreases body.len(),
{
    match record_from(state, body, false) {
        Framed::More { state: after, .. } => Drained {
            records: seq![],
            failed: false,
            state: after,
        },
        Framed::Record { fields, state: after, left } => if left.len() < body.len() {
            drain(after, left).after(seq![fields])
        } else {
            Drained { records: seq![fields], failed: false, state: after }
        },
        Framed::TooLong { state: after, .. } => Drained {
            records: seq![],
            failed: true,
            state: after,
        },
    }
}

/// Takes one chunk after another, and asks for records until there are no more each time; a
/// failure ends it.
pub open spec fn feed(state: CsvState, chunks: Seq<Seq<u8>>) -> Drained
    decreases chunks.len(),
{
    if chunks.len() == 0 {
        Drained { records: seq![], failed: false, state }
    } else {
        let first = drain(state, chunks[0]);
        if first.failed {
            first
        } else {
            feed(first.state, chunks.drop_first()).after(first.records)
        }
    }
}

/// Whether the first three bytes come in one chunk.
pub open spec fn begins_whole(chunks: Seq<Seq<u8>>) -> bool
    decreases chunks.len(),
{
    chunks.len() == 0 || chunks[0].len() >= 3 || chunks[0].len() == 0 && begins_whole(
        chunks.drop_first(),
    )
}

/// What a call of the reader that came to `found` leaves to be drained.
spec fn drain_from(found: Verdict, left: Seq<u8>) -> Drained {
    match found {
        Verdict::Again { state } => drain(state, left),
        Verdict::Record { fields, state } => drain(state, left).after(seq![fields]),
        Verdict::Ended { state } => Drained { records: seq![], failed: false, state },
        Verdict::TooLong { state } => Drained { records: seq![], failed: true, state },
    }
}

/// A framer that can go on can do so after any record, and a record takes something off the
/// buffer.
proof fn framing_is_sound(state: CsvState, body: Seq<u8>)
    requires
        state.ready(),
    ensures
        match record_from(state, body, false) {
            Framed::More { state: after, .. } => {
                &&& after.ready()
                &&& body.len() == 0 ==> after == state
                &&& body.len() > 0 ==> after.mode.started
            },
            Framed::Record { state: after, left, .. } => {
                &&& after.ready()
                &&& left.len() < body.len()
                &&& after.mode.started
            },
            Framed::TooLong { .. } => true,
        },
    decreases
            body.len(),
            (if state.header_pending {
                1nat
            } else {
                0
            }),
            state.full(),
{
    if body.len() > 0 {
        call_is_sound(state, body);
        let step = state.read(body);
        match verdict(state.with(step), step.status) {
            Verdict::Again { state: next } => {
                framing_is_sound(next, unread(body, step.read));
            },
            _ => {},
        }
    }
}

/// Draining takes one call of the reader after another.
proof fn drain_by_calls(state: CsvState, body: Seq<u8>)
    requires
        state.ready(),
        body.len() > 0,
    ensures
        ({
            let step = state.read(body);
            drain(state, body) == drain_from(
                verdict(state.with(step), step.status),
                unread(body, step.read),
            )
        }),
{
    let step = state.read(body);
    let left = unread(body, step.read);
    call_is_sound(state, body);
    framing_is_sound(state, body);
    match verdict(state.with(step), step.status) {
        Verdict::Again { state: next } => {
            framing_is_sound(next, left);
        },
        _ => {},
    }
}

proof fn drain_is_sound(state: CsvState, body: Seq<u8>)
    requires
        state.ready(),
    ensures
        !drain(state, body).failed ==> drain(state, body).state.ready(),
        !drain(state, body).failed && body.len() > 0 ==> drain(state, body).state.mode.started,
        body.len() == 0 ==> drain(state, body) == (Drained {
            records: seq![],
            failed: false,
            state,
        }),
    decreases body.len(),
{
    framing_is_sound(state, body);
    match record_from(state, body, false) {
        Framed::Record { state: after, left, .. } => {
            drain_is_sound(after, left);
        },
        _ => {},
    }
}

/// A record that is too long stays so when more is read of it.
proof fn longer_is_too_long(state: CsvState, fields: Seq<u8>, ends: Seq<usize>)
    requires
        state.too_long(),
    ensures
        state.grown(fields, ends).too_long(),
{
    let size = vstd::layout::size_of::<usize>();
    assert((state.ends.len() + ends.len()) * size >= state.ends.len() * size) by (nonlinear_arith);
}

proof fn drain_continues(state: CsvState, body: Seq<u8>, more: Seq<u8>)
    requires
        state.ready(),
        state.mode.started || body.len() == 0 || body.len() >= 3 || !is_marked(body + more),
    ensures
        ({
            let first = drain(state, body);
            let whole = drain(state, body + more);
            if first.failed {
                whole.failed && whole.records == first.records
            } else {
                whole.same(drain(first.state, more).after(first.records))
            }
        }),
    decreases
            body.len(),
            (if state.header_pending {
                1nat
            } else {
                0
            }),
            state.full(),
{
    let first = drain(state, body);
    drain_is_sound(state, body);
    if body.len() == 0 {
        assert(body + more == more);
        assert(drain(state, more).after(seq![]).records == drain(state, more).records);
    } else if more.len() == 0 {
        assert(body + more == body);
        if !first.failed {
            drain_is_sound(first.state, more);
            assert(first.records + seq![] == first.records);
        }
    } else {
        let input = body + more;
        let n = body.len() as int;
        let room = (state.room - state.fields.len()) as nat;
        let ends_room = (state.ends_room - state.ends.len()) as nat;
        let step = state.read(body);
        let whole = state.read(input);
        let next = state.with(step);
        let left = unread(body, step.read);
        assert(input.take(n) == body);
        assert(input.skip(n) == more);
        incremental_now(state.mode);
        assert(in_two(state.mode, input, n, room, ends_room) == whole);
        call_is_sound(state, body);
        drain_by_calls(state, body);
        drain_by_calls(state, input);
        if step.status == ReadStatus::InputEmpty || step.status == ReadStatus::End {
            let rest = next.read(more);
            assert(whole == joined(step, rest));
            assert(state.with(whole) == next.with(rest)) by {
                assert(state.fields + (step.fields + rest.fields) == (state.fields + step.fields)
                    + rest.fields);
                assert(state.ends + (step.ends + rest.ends) == (state.ends + step.ends)
                    + rest.ends);
            }
            if next.too_long() {
                longer_is_too_long(next, rest.fields, rest.ends);
                assert(next.with(rest).too_long());
            } else {
                assert(next.ready());
                drain_is_sound(next, seq![]);
                assert(left == Seq::<u8>::empty());
                call_is_sound(next, more);
                drain_by_calls(next, more);
                assert(unread(input, whole.read) == unread(more, rest.read));
                let later = drain(next, more);
                assert(later.after(seq![]).records == later.records);
            }
        } else {
            assert(whole == step);
            assert(unread(input, step.read) == left + more);
            match verdict(next, step.status) {
                Verdict::Again { state: after } => {
                    drain_continues(after, left, more);
                },
                Verdict::Record { fields, state: after } => {
                    drain_continues(after, left, more);
                    let inner = drain(after, left);
                    let later = drain(inner.state, more);
                    assert(seq![fields] + (inner.records + later.records) == (seq![fields]
                        + inner.records) + later.records);
                },
                _ => {},
            }
        }
    }
}

/// How a CSV body is cut into chunks makes no difference: the same records come out, and it is
/// refused or not alike; where it is not, the framer ends up in the same place, so that the end
/// of the body completes the same record.
///
/// The one thing that must not be cut is a byte order mark at the very beginning: the reader
/// passes over it only where it is given all of it at once.
pub proof fn law_chunking_does_not_matter(state: CsvState, chunks: Seq<Seq<u8>>)
    requires
        state.ready(),
        state.mode.started || begins_whole(chunks) || !is_marked(chunks.flatten()),
    ensures
        feed(state, chunks).same(drain(state, chunks.flatten())),
    decreases chunks.len(),
{
    let body = chunks.flatten();
    if chunks.len() == 0 {
        drain_is_sound(state, body);
    } else {
        let rest = chunks.drop_first();
        let first = drain(state, chunks[0]);
        assert(body == chunks[0] + rest.flatten());
        drain_is_sound(state, chunks[0]);
        drain_continues(state, chunks[0], rest.flatten());
        if !first.failed {
            if chunks[0].len() == 0 {
                assert(body == rest.flatten());
            }
            law_chunking_does_not_matter(first.state, rest);
        }
    }
}

/// A header row makes one difference: the first record is passed over.
pub proof fn law_header_is_passed_over(state: CsvState, input: Seq<u8>, at_eof: bool)
    requires
        state.header_pending,
    ensures
        match record_from(CsvState { header_pending: false, ..state }, input, at_eof) {
            Framed::Record { state: after, left, .. } => record_from(state, input, at_eof)
                == record_from(after, left, at_eof),
            Framed::More { state: after, left } => record_from(state, input, at_eof) == (
            Framed::More { state: CsvState { header_pending: true, ..after }, left }),
            Framed::TooLong { state: after, left } => record_from(state, input, at_eof) == (
            Framed::TooLong { state: CsvState { header_pending: true, ..after }, left }),
        },
    decreases input.len(), state.full(),
{
    let plain = CsvState { header_pending: false, ..state };
    let step = state.read(input);
    let next = state.with(step);
    let left = unread(input, step.read);
    assert(plain.with(step) == (CsvState { header_pending: false, ..next }));
    if !(input.len() == 0 && !at_eof) {
        match verdict(next, step.status) {
            Verdict::Again { state: after } => {
                if after.header_pending && less_to_do(state, input, after, left) {
                    law_header_is_passed_over(after, left, at_eof);
                }
            },
            _ => {},
        }
    }
}

/// `state` without a limit.
pub open spec fn unlimited(state: CsvState) -> CsvState {
    CsvState { limit: usize::MAX as nat, ..state }
}

/// The size of the largest record, as far as it is read, that a look for the next record of
/// `input` meets: the header counts like any other.
pub open spec fn largest_met(state: CsvState, input: Seq<u8>, at_eof: bool) -> nat
    decreases
            input.len(),
            (if state.header_pending {
                1nat
            } else {
                0
            }),
            state.full(),
{
    let step = state.read(input);
    let left = unread(input, step.read);
    let size = state.with(step).size();
    if input.len() == 0 && !at_eof {
        0
    } else {
        match verdict(unlimited(state.with(step)), step.status) {
            Verdict::Again { state: next } => if less_to_do(state, input, next, left) {
                larger(size, largest_met(next, left, at_eof))
            } else {
                size
            },
            _ => size,
        }
    }
}

/// The larger of two numbers.
pub open spec fn larger(a: nat, b: nat) -> nat {
    if a < b {
        b
    } else {
        a
    }
}

/// How `framed` would look with another limit.
pub open spec fn relimited(framed: Framed, limit: nat) -> Framed {
    match framed {
        Framed::More { state, left } => Framed::More { state: CsvState { limit, ..state }, left },
        Framed::Record { fields, state, left } => Framed::Record {
            fields,
            state: CsvState { limit, ..state },
            left,
        },
        Framed::TooLong { state, left } => Framed::TooLong {
            state: CsvState { limit, ..state },
            left,
        },
    }
}

/// A look for the next record is refused where the record that it meets is larger than the limit,
/// its field bytes and its end positions counted together, and where no buffer could hold it; the
/// header counts like any other record. Otherwise the limit makes no difference.
pub proof fn law_a_record_is_refused_at_the_limit(state: CsvState, input: Seq<u8>, at_eof: bool)
    requires
        state.limit < usize::MAX,
    ensures
        record_from(state, input, at_eof) is TooLong <==> largest_met(
            unlimited(state),
            input,
            at_eof,
        ) > state.limit || record_from(unlimited(state), input, at_eof) is TooLong,
        record_from(state, input, at_eof) !is TooLong ==> record_from(state, input, at_eof)
            == relimited(record_from(unlimited(state), input, at_eof), state.limit),
    decreases
            input.len(),
            (if state.header_pending {
                1nat
            } else {
                0
            }),
            state.full(),
{
    let free = unlimited(state);
    let step = state.read(input);
    let next = state.with(step);
    let left = unread(input, step.read);
    assert(free.with(step) == unlimited(next));
    if !(input.len() == 0 && !at_eof) && !next.too_long() {
        match verdict(next, step.status) {
            Verdict::Again { state: after } => {
                assert(verdict(unlimited(next), step.status) == (Verdict::Again {
                    state: unlimited(after),
                }));
                if less_to_do(state, input, after, left) {
                    law_a_record_is_refused_at_the_limit(after, left, at_eof);
                }
            },
            _ => {},
        }
    }
}

/// The size of the largest record of a body, the header and what is begun at its end included.
pub open spec fn largest_of(state: CsvState, body: Seq<u8>) -> nat
    decreases body.len(),
{
    let met = largest_met(state, body, false);
    match record_from(state, body, false) {
        Framed::Record { state: after, left, .. } => if left.len() < body.len() {
            larger(met, largest_of(after, left))
        } else {
            met
        },
        _ => met,
    }
}

/// A body is refused where one of its records, the header included, is larger than the limit, its
/// field bytes and its end positions counted together, and where no buffer could hold it.
/// Otherwise the limit makes no difference.
pub proof fn law_a_body_is_refused_at_the_limit(state: CsvState, body: Seq<u8>)
    requires
        state.limit < usize::MAX,
    ensures
        drain(state, body).failed <==> largest_of(unlimited(state), body) > state.limit || drain(
            unlimited(state),
            body,
        ).failed,
        !drain(state, body).failed ==> drain(state, body).records == drain(
            unlimited(state),
            body,
        ).records,
    decreases body.len(),
{
    law_a_record_is_refused_at_the_limit(state, body, false);
    match record_from(state, body, false) {
        Framed::Record { state: after, left, .. } => {
            if left.len() < body.len() {
                keeps_limit(state, body);
                keeps_limit(unlimited(state), body);
                assert(record_from(unlimited(state), body, false) matches Framed::Record {
                    state: free,
                    ..
                } && free == unlimited(after));
                law_a_body_is_refused_at_the_limit(after, left);
            }
        },
        _ => {},
    }
}

proof fn keeps_limit(state: CsvState, input: Seq<u8>)
    ensures
        record_from(state, input, false) matches Framed::Record { state: after, .. }
            ==> after.limit == state.limit,
    decreases
            input.len(),
            (if state.header_pending {
                1nat
            } else {
                0
            }),
            state.full(),
{
    let step = state.read(input);
    let left = unread(input, step.read);
    if input.len() > 0 {
        match verdict(state.with(step), step.status) {
            Verdict::Again { state: after } => {
                if less_to_do(state, input, after, left) {
                    keeps_limit(after, left);
                }
            },
            _ => {},
        }
    }
}

/// What [`drain`] says is what comes of calling the framer again and again: `after` and `left` are
/// what one call leaves behind.
pub proof fn law_draining_is_calling(
    codec: CsvRecordCodec,
    body: Seq<u8>,
    after: CsvRecordCodec,
    left: Seq<u8>,
)
    requires
        codec@.ready(),
        CsvRecordCodec::moved(record_from(codec@, body, false), after, left),
    ensures
        match record_from(codec@, body, false) {
            Framed::More { .. } => drain(codec@, body) == (Drained {
                records: seq![],
                failed: false,
                state: after@,
            }),
            Framed::Record { fields, .. } => drain(codec@, body) == drain(after@, left).after(
                seq![fields],
            ),
            Framed::TooLong { .. } => drain(codec@, body).failed && drain(
                codec@,
                body,
            ).records.len() == 0,
        },
{
    framing_is_sound(codec@, body);
}

/// Whether end positions lie within the bytes and never go down.
pub open spec fn are_ends(bytes: Seq<u8>, ends: Seq<usize>) -> bool {
    &&& forall|i: int| 0 <= i < ends.len() ==> #[trigger] ends[i] <= bytes.len()
    &&& forall|i: int, j: int|
        0 <= i <= j < ends.len() ==> #[trigger] ends[i] <= #[trigger] ends[j]
}

/// The fields of a record, put one after the other, are its field bytes; each begins where the one
/// before it ends, and two that end at the same place make the second empty.
pub proof fn law_fields_add_up(bytes: Seq<u8>, ends: Seq<usize>)
    requires
        are_ends(bytes, ends),
    ensures
        split_fields(bytes, ends).len() == ends.len(),
        ends.len() > 0 ==> split_fields(bytes, ends)[0].len() == ends[0],
        forall|i: int|
            0 < i < ends.len() ==> (#[trigger] split_fields(bytes, ends)[i]).len() == ends[i]
                - ends[i - 1],
        split_fields(bytes, ends).flatten() == (if ends.len() == 0 {
            seq![]
        } else {
            bytes.take(ends.last() as int)
        }),
    decreases ends.len(),
{
    let fields = split_fields(bytes, ends);
    if ends.len() > 0 {
        let fewer = ends.drop_last();
        assert forall|i: int, j: int| 0 <= i <= j < fewer.len() implies #[trigger] fewer[i]
            <= #[trigger] fewer[j] by {
            assert(ends[i] <= ends[j]);
        }
        assert forall|i: int| 0 <= i < fewer.len() implies #[trigger] fewer[i] <= bytes.len() by {
            assert(ends[i] <= bytes.len());
        }
        law_fields_add_up(bytes, fewer);
        let last = fields.last();
        assert(fields.drop_last() == split_fields(bytes, fewer));
        assert(fields == split_fields(bytes, fewer).push(last));
        split_fields(bytes, fewer).lemma_flatten_push(last);
        assert(ends[ends.len() - 1] <= bytes.len());
        if fewer.len() > 0 {
            assert(ends[ends.len() - 2] <= ends[ends.len() - 1]);
            assert(fewer.last() == ends[ends.len() - 2]);
            assert(bytes.take(fewer.last() as int) + last == bytes.take(ends.last() as int));
        } else {
            assert(Seq::<u8>::empty() + last == bytes.take(ends.last() as int));
        }
        assert forall|i: int| 0 < i < ends.len() implies (#[trigger] fields[i]).len() == ends[i]
            - ends[i - 1] by {
            assert(ends[i - 1] <= ends[i]);
            assert(ends[i] <= bytes.len());
        }
    } else {
        assert(fields == Seq::<Seq<u8>>::empty());
    }
}

/// What is handed out where the reader has found the end of a record, and the limit allows it, is
/// what the reader has written since the record before: as many fields as there are end positions,
/// and no other bytes than the field bytes. What comes then begins with nothing.
pub proof fn law_a_record_is_what_the_reader_wrote(state: CsvState)
    requires
        state.in_order(),
        state.ends.len() > 0,
        state.ends.last() == state.fields.len(),
        state.fields.len() + 8 * state.ends.len() <= state.limit,
        vstd::layout::size_of::<usize>() <= 8,
        !state.header_pending,
    ensures
        verdict(state, ReadStatus::Record) matches Verdict::Record { fields, state: after } && {
            &&& fields.len() == state.ends.len()
            &&& fields.flatten() == state.fields
            &&& after.fields.len() == 0
            &&& after.ends.len() == 0
            &&& after.mode == state.mode
            &&& after.limit == state.limit
            &&& after.room == state.room
            &&& after.ends_room == state.ends_room
            &&& !after.header_pending
        },
{
    law_fields_add_up(state.fields, state.ends);
    let size = vstd::layout::size_of::<usize>();
    assert(state.ends.len() * size <= 8 * state.ends.len()) by (nonlinear_arith)
        requires
            size <= 8,
    ;
    assert(state.fields.take(state.fields.len() as int) == state.fields);
}

/// The first record is passed over where it is the header row, and only that one.
pub proof fn law_only_the_header_is_passed_over(state: CsvState)
    requires
        state.header_pending,
        !state.too_long(),
    ensures
        verdict(state, ReadStatus::Record) matches Verdict::Again { state: after } && {
            &&& !after.header_pending
            &&& after.fields.len() == 0
            &&& after.ends.len() == 0
            &&& after.mode == state.mode
            &&& after.limit == state.limit
            &&& after.room == state.room
            &&& after.ends_room == state.ends_room
        },
{
}

/// Where the reader has not found the end of a record nothing is lost: what it has written stays,
/// and there is more room where there was none. It ends only where the reader says so.
pub proof fn law_an_unfinished_record_is_kept(state: CsvState, status: ReadStatus)
    requires
        !state.too_long(),
        status != ReadStatus::Record,
        state.room < usize::MAX / 4,
        state.ends_room < usize::MAX / 32,
    ensures
        match verdict(state, status) {
            Verdict::Again { state: after } => {
                &&& status != ReadStatus::End
                &&& after.fields == state.fields
                &&& after.ends == state.ends
                &&& after.mode == state.mode
                &&& after.limit == state.limit
                &&& after.header_pending == state.header_pending
                &&& status == ReadStatus::OutputFull ==> after.room > state.room
                    && after.ends_room == state.ends_room
                &&& status == ReadStatus::OutputEndsFull ==> after.ends_room > state.ends_room
                    && after.room == state.room
                &&& status == ReadStatus::InputEmpty ==> after == state
            },
            Verdict::Ended { state: after } => status == ReadStatus::End && after == state,
            Verdict::TooLong { .. } | Verdict::Record { .. } => false,
        },
{
}

/// The size of a record is its field bytes and, for each field, what an end position takes; where
/// there is a limit a record of that size is let through and a larger one refused, whatever the
/// reader found.
pub proof fn law_the_size_of_a_record(state: CsvState, status: ReadStatus)
    requires
        state.limit < usize::MAX,
    ensures
        state.fields.len() + state.ends.len() * vstd::layout::size_of::<usize>() > state.limit
            ==> verdict(state, status) is TooLong,
        state.fields.len() + state.ends.len() * vstd::layout::size_of::<usize>() <= state.limit
            && status != ReadStatus::OutputFull && status != ReadStatus::OutputEndsFull
            ==> !(verdict(state, status) is TooLong),
{
}

/// A call of the reader that finds the end of a record makes that record come out, its fields being
/// the field bytes so far and those that the call wrote, and what the call did not read stays in the
/// buffer.
pub proof fn law_what_the_reader_finds_comes_out(state: CsvState, input: Seq<u8>, at_eof: bool)
    requires
        state.ready(),
        input.len() > 0 || at_eof,
        !state.header_pending,
        state.read(input).status == ReadStatus::Record,
        !state.with(state.read(input)).too_long(),
    ensures
        record_from(state, input, at_eof) matches Framed::Record { fields, state: after, left } && {
            let step = state.read(input);
            let ends = state.ends + step.ends;
            &&& fields.len() == ends.len()
            &&& ends.len() > 0 ==> fields.flatten() == (state.fields + step.fields).take(
                ends.last() as int,
            )
            &&& step.read <= input.len()
            &&& left == input.skip(step.read as int)
            &&& after.mode == step.mode
            &&& after.fields.len() == 0
            &&& after.ends.len() == 0
            &&& after.limit == state.limit
        },
{
    let step = state.read(input);
    call_is_sound(state, input);
    law_fields_add_up(state.fields + step.fields, state.ends + step.ends);
}

/// A call of the reader that runs out of input in the middle of a record makes nothing come out,
/// and what it wrote is kept for the next.
pub proof fn law_a_record_is_waited_for(state: CsvState, input: Seq<u8>)
    requires
        state.ready(),
        input.len() > 0,
        state.read(input).status == ReadStatus::InputEmpty,
        !state.with(state.read(input)).too_long(),
    ensures
        record_from(state, input, false) matches Framed::More { state: after, left } && {
            let step = state.read(input);
            &&& left.len() == 0
            &&& after.mode == step.mode
            &&& after.fields == state.fields + step.fields
            &&& after.ends == state.ends + step.ends
            &&& after.header_pending == state.header_pending
            &&& after.limit == state.limit
        },
{
    call_is_sound(state, input);
    reveal_with_fuel(record_from, 2);
}

/// Where the reader runs out of room, or out of input at the end of the body, it is called again on what
/// it has not read, with all that it has written so far and, if it lacked room, with more of that; and
/// where it has found the header row, with nothing written.
pub proof fn law_reading_goes_on(state: CsvState, input: Seq<u8>, at_eof: bool)
    requires
        state.ready(),
        input.len() > 0 || at_eof,
        !state.with(state.read(input)).too_long(),
        state.room < usize::MAX / 4,
        state.ends_room < usize::MAX / 32,
    ensures
        ({
            let step = state.read(input);
            let left = input.skip(step.read as int);
            let next = CsvState {
                mode: step.mode,
                fields: state.fields + step.fields,
                ends: state.ends + step.ends,
                ..state
            };
            let found = record_from(state, input, at_eof);
            &&& step.status == ReadStatus::InputEmpty ==> found == record_from(next, left, at_eof)
            &&& step.status == ReadStatus::OutputFull ==> exists|room: nat|
                room > state.room && found == #[trigger] record_from(
                    CsvState { room, ..next },
                    left,
                    at_eof,
                )
            &&& step.status == ReadStatus::OutputEndsFull ==> exists|ends_room: nat|
                ends_room > state.ends_room && found == #[trigger] record_from(
                    CsvState { ends_room, ..next },
                    left,
                    at_eof,
                )
            &&& step.status == ReadStatus::Record && state.header_pending ==> found == record_from(
                CsvState { fields: seq![], ends: seq![], header_pending: false, ..next },
                left,
                at_eof,
            )
            &&& step.status == ReadStatus::End ==> found == (Framed::More { state: next, left })
        }),
{
    let step = state.read(input);
    let left = input.skip(step.read as int);
    call_is_sound(state, input);
    let next = state.with(step);
    if step.status == ReadStatus::OutputFull {
        let room = crate::csv_record_codec::doubled(next.room);
        assert(record_from(state, input, at_eof) == record_from(
            CsvState { room, ..next },
            left,
            at_eof,
        ));
    }
    if step.status == ReadStatus::OutputEndsFull {
        let ends_room = crate::csv_record_codec::doubled(next.ends_room);
        assert(record_from(state, input, at_eof) == record_from(
            CsvState { ends_room, ..next },
            left,
            at_eof,
        ));
    }
}

/// Asking for a record hands out what the reader found, field for field: each field begins where the one
/// before it ends.
pub proof fn law_records_are_handed_out(
    codec: &mut CsvRecordCodec,
    buf: &mut BytesMut,
    at_eof: bool,
    res: Result<Option<csv::ByteRecord>, StreamError>,
)
    requires
        old(codec).ready(),
        at_eof ==> call_ensures(CsvRecordCodec::decode_eof, (codec, buf), res),
        !at_eof ==> call_ensures(CsvRecordCodec::decode, (codec, buf), res),
        held(*old(buf)).len() > 0 || at_eof,
        !old(codec)@.header_pending,
        !old(codec)@.with(old(codec)@.read(held(*old(buf)))).too_long(),
        old(codec)@.read(held(*old(buf))).status == ReadStatus::Record,
    ensures
        ({
            let step = old(codec)@.read(held(*old(buf)));
            let bytes = old(codec)@.fields + step.fields;
            let ends = old(codec)@.ends + step.ends;
            &&& res matches Ok(Some(record))
            &&& fields_of(record).len() == ends.len()
            &&& ends.len() > 0 ==> fields_of(record)[0] == bytes.take(ends[0] as int)
            &&& forall|i: int|
                0 < i < ends.len() ==> #[trigger] fields_of(record)[i] == bytes.subrange(
                    ends[i - 1] as int,
                    ends[i] as int,
                )
            &&& held(*final(buf)) == held(*old(buf)).skip(step.read as int)
            &&& final(codec)@.fields.len() == 0
            &&& final(codec)@.ends.len() == 0
            &&& final(codec).ready()
        }),
{
    let state = old(codec)@;
    let input = held(*old(buf));
    call_is_sound(state, input);
}

/// Where the reader finds the end of the body there is no record; nor is there one where nothing is
/// buffered and more may follow.
pub proof fn law_there_may_be_no_record(
    codec: &mut CsvRecordCodec,
    buf: &mut BytesMut,
    res: Result<Option<csv::ByteRecord>, StreamError>,
)
    requires
        old(codec).ready(),
        call_ensures(CsvRecordCodec::decode, (codec, buf), res) && held(*old(buf)).len() == 0
            || call_ensures(CsvRecordCodec::decode_eof, (codec, buf), res) && old(codec)@.read(
            held(*old(buf)),
        ).status == ReadStatus::End && !old(codec)@.with(
            old(codec)@.read(held(*old(buf))),
        ).too_long(),
    ensures
        res matches Ok(None),
{
    call_is_sound(old(codec)@, held(*old(buf)));
}

/// A record that is too long is refused, whatever the reader found.
pub proof fn law_long_records_are_refused(
    codec: &mut CsvRecordCodec,
    buf: &mut BytesMut,
    at_eof: bool,
    res: Result<Option<csv::ByteRecord>, StreamError>,
)
    requires
        old(codec).ready(),
        at_eof ==> call_ensures(CsvRecordCodec::decode_eof, (codec, buf), res),
        !at_eof ==> call_ensures(CsvRecordCodec::decode, (codec, buf), res),
        held(*old(buf)).len() > 0 || at_eof,
        old(codec)@.limit < usize::MAX,
        ({
            let step = old(codec)@.read(held(*old(buf)));
            old(codec)@.fields.len() + step.fields.len() + (old(codec)@.ends.len()
                + step.ends.len()) * vstd::layout::size_of::<usize>() > old(codec)@.limit
        }),
    ensures
        res matches Err(error) && error@.kind == StreamErrorKind::MaxLenReachedError
            && error@.source is None && error@.message == Some("Max record length reached"@),
{
    let step = old(codec)@.read(held(*old(buf)));
    let next = old(codec)@.with(step);
    assert(next.fields.len() == old(codec)@.fields.len() + step.fields.len());
    assert(next.ends.len() == old(codec)@.ends.len() + step.ends.len());
    assert(next.size() > next.limit);
}

/// What a call of the reader came to is answered: a record that is whole is handed out unless it is the
/// header row, the end is the end, and otherwise the reader is to be called again.
pub proof fn law_what_settling_answers(
    codec: &mut CsvRecordCodec,
    status: ReadStatus,
    nout: usize,
    nend: usize,
    res: Result<Settled, StreamError>,
)
    requires
        call_ensures(CsvRecordCodec::settle, (codec, status, nout, nend), res),
        ({
            let next = old(codec)@.grown(
                old(codec).spare_fields().take(nout as int),
                old(codec).spare_ends().take(nend as int),
            );
            !next.too_long() && next.room < usize::MAX / 4 && next.ends_room < usize::MAX / 32
        }),
    ensures
        ({
            let bytes = old(codec)@.fields + old(codec).spare_fields().take(nout as int);
            let ends = old(codec)@.ends + old(codec).spare_ends().take(nend as int);
            match status {
                ReadStatus::Record => if old(codec)@.header_pending {
                    &&& res matches Ok(Settled::Again)
                    &&& !final(codec)@.header_pending
                    &&& final(codec)@.fields.len() == 0 && final(codec)@.ends.len() == 0
                } else {
                    &&& res matches Ok(Settled::Record(record))
                    &&& fields_of(record).len() == ends.len()
                    &&& ends.len() > 0 ==> fields_of(record)[0] == bytes.subrange(
                        0,
                        ends[0] as int,
                    )
                    &&& forall|i: int|
                        0 < i < ends.len() ==> #[trigger] fields_of(record)[i] == bytes.subrange(
                            ends[i - 1] as int,
                            ends[i] as int,
                        )
                    &&& final(codec)@.fields.len() == 0 && final(codec)@.ends.len() == 0
                },
                ReadStatus::End => {
                    &&& res matches Ok(Settled::Ended)
                    &&& final(codec)@.fields == bytes && final(codec)@.ends == ends
                },
                _ => {
                    &&& res matches Ok(Settled::Again)
                    &&& final(codec)@.fields == bytes && final(codec)@.ends == ends
                    &&& final(codec)@.header_pending == old(codec)@.header_pending
                    &&& status == ReadStatus::OutputFull ==> final(codec)@.room > old(codec)@.room
                    &&& status == ReadStatus::OutputEndsFull ==> final(codec)@.ends_room > old(
                        codec,
                    )@.ends_room
                },
            }
        }),
{
}

} // verus!
