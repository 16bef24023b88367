//! Which Arrow IPC messages are refused, and what the functions that look at them say, told of their
//! calls.

use crate::arrow_fields::{
    children_of, first_of, head_of, shapes_below, shapes_of, FieldHead, FieldShape, Form, DEPTH,
};
use crate::arrow_ipc_codec::{
    batch_at, input_of, ipc_error_of, start_of_stream, ArrowBatch, ArrowIpcCodec,
};
use crate::arrow_message::{
    dictionary_of, first_place, front_message, front_prefix, has_batch, known_after, layout_of,
    message_head_of, next_message, number_at, sum_of, values_of, word_at, BatchLayout, Body,
    Extent, Found, Front, Known, Layout, MessageHead, Place,
};
use crate::arrow_message_laws::{
    buffers_before, column_form, holds_columns, index_of, word_bytes,
};
use crate::error::{ErrorSource, StreamError, StreamErrorKind};
use crate::octets::held;
use bytes::BytesMut;
use vstd::prelude::*;

verus! {

/// Whether a type is one of those that hold others: lists, structs, unions, maps and runs.
pub open spec fn holds_others(tag: u8) -> bool {
    12 <= tag <= 14 || tag == 16 || tag == 17 || tag == 21 || tag == 22 || tag == 25 || tag == 26
}

/// Whether something is a signed integer of 16, 32 or 64 bits.
pub open spec fn is_run_end(head: FieldHead) -> bool {
    &&& head.tag == 2
    &&& head.dictionary is None
    &&& head.integer == Some((16i32, true)) || head.integer == Some((32i32, true)) || head.integer
        == Some((64i32, true))
}

/// What is said of a type: whether it holds others, whether it can say where runs end, whether values of
/// it can be appended to a dictionary without counting them, and whether a field of it is read.
pub proof fn law_what_is_said_of_a_type(
    head: FieldHead,
    count: usize,
    first: Option<(FieldHead, usize)>,
    said: bool,
)
    ensures
        call_ensures(FieldHead::nests, (&head,), said) ==> said == holds_others(head.tag),
        call_ensures(FieldHead::can_end_runs, (&head,), said) ==> said == is_run_end(head),
        call_ensures(FieldHead::can_extend, (&head,), said) ==> (said <==> !holds_others(head.tag)
            && head.tag != 1 && (head.tag == 15 ==> (head.width matches Some(width) && width > 0))),
        call_ensures(FieldHead::can_be_read, (&head, count, first), said) ==> match head.tag {
            14 => said <==> count <= 128 || (head.variants matches Some((_, true))),
            15 => said <==> !(head.width matches Some(width) && width < 0),
            16 => said <==> !(head.items matches Some(items) && items < 0),
            17 => said <==> (first matches Some((entries, 2usize)) && entries.tag == 13
                && entries.dictionary is None),
            22 => said <==> (first matches Some((ends, _)) && is_run_end(ends)),
            _ => said,
        },
{
}

/// Which buffers a field of each type has.
pub proof fn law_what_buffers_are_said(head: FieldHead, form: Form)
    ensures
        call_ensures(FieldHead::buffers, (&head,), form) ==> match head.tag {
            1 | 22 => form == (Form::Plain { count: 0, second: 1, third: 1 }),
            4 | 5 => form == (Form::Plain { count: 3, second: 4, third: 1 }),
            12 | 17 => form == (Form::Plain { count: 2, second: 4, third: 1 }),
            13 => form == (Form::Plain { count: 1, second: 1, third: 1 }),
            14 => form == (Form::Variants { dense: !(head.variants matches Some((0i16, _))) }),
            16 => form == (Form::Repeated {
                items: match head.items {
                    Some(items) => items,
                    None => 0,
                },
            }),
            19 | 20 => form == (Form::Plain { count: 3, second: 8, third: 1 }),
            21 => form == (Form::Plain { count: 2, second: 8, third: 1 }),
            23 | 24 => form == Form::Views,
            25 => form == (Form::Plain { count: 3, second: 4, third: 4 }),
            26 => form == (Form::Plain { count: 3, second: 8, third: 8 }),
            _ => form == (Form::Plain { count: 2, second: 1, third: 1 }),
        },
        call_ensures(FieldHead::run_end_buffers, (&head,), form) ==> match head.integer {
            Some((16, _)) => form == (Form::Plain { count: 2, second: 2, third: 1 }),
            Some((32, _)) => form == (Form::Plain { count: 2, second: 4, third: 1 }),
            Some((64, _)) => form == (Form::Plain { count: 2, second: 8, third: 1 }),
            _ => form == (Form::Plain { count: 2, second: 1, third: 1 }),
        },
{
}

/// The entries of fields that follow each other follow each other; and where one of the fields cannot
/// be read, none of them are.
pub proof fn law_entries_follow_each_other(
    first: Seq<arrow::ipc::Field>,
    second: Seq<arrow::ipc::Field>,
    depth: nat,
)
    ensures
        match (shapes_of(first, depth), shapes_of(second, depth)) {
            (Some(before), Some(after)) => shapes_of(first + second, depth) == Some(before + after),
            _ => shapes_of(first + second, depth) is None,
        },
    decreases second.len(),
{
    if second.len() == 0 {
        assert(first + second == first);
        if let Some(before) = shapes_of(first, depth) {
            assert(before + Seq::<FieldShape>::empty() == before);
        }
    } else {
        let whole = first + second;
        assert(whole.drop_last() == first + second.drop_last());
        assert(whole.last() == second.last());
        law_entries_follow_each_other(first, second.drop_last(), depth);
        match (
            shapes_of(first, depth),
            shapes_of(second.drop_last(), depth),
            shapes_below(second.last(), depth),
        ) {
            (Some(before), Some(middle), Some(last)) => {
                assert(before + middle + last == before + (middle + last));
            },
            _ => {},
        }
    }
}

/// The entry of a field stands ahead of those of its children, with the buffers of its type, the
/// dictionary that encodes it and the number of entries that it takes; where the children are the ends
/// and the values of runs, the ends are whole integers.
pub proof fn law_children_follow_their_field(field: arrow::ipc::Field, depth: nat)
    requires
        depth > 0,
        head_of(field).is_readable(children_of(field).len() as int, first_of(children_of(field))),
    ensures
        ({
            let head = head_of(field);
            let below = if holds_others(head.tag) {
                shapes_of(children_of(field), (depth - 1) as nat)
            } else {
                Some(seq![])
            };
            match below {
                None => shapes_below(field, depth) is None,
                Some(below) => {
                    &&& shapes_below(field, depth) matches Some(shapes)
                    &&& shapes.len() == below.len() + 1
                    &&& shapes[0].form == head.form()
                    &&& shapes[0].dictionary == index_of(head)
                    &&& shapes[0].extends == head.extends()
                    &&& below.len() < usize::MAX ==> shapes[0].size == below.len() + 1
                    &&& head.tag != 22 ==> shapes.drop_first() == below
                    &&& head.tag == 22 && below.len() > 0 ==> {
                        &&& shapes.skip(2) == below.drop_first()
                        &&& shapes[1].form == head_of(children_of(field)[0]).run_ends()
                        &&& shapes[1].dictionary == below[0].dictionary
                        &&& shapes[1].size == below[0].size
                    }
                },
            }
        }),
{
    let head = head_of(field);
    let below = if holds_others(head.tag) {
        shapes_of(children_of(field), (depth - 1) as nat)
    } else {
        Some(seq![])
    };
    if let Some(below) = below {
        let shapes = shapes_below(field, depth)->Some_0;
        if head.tag != 22 {
            assert(shapes.drop_first() == below);
        } else if below.len() > 0 {
            assert(shapes.skip(2) == below.drop_first());
        }
    }
}

/// Fields that are nested deeper than 64 levels are not read, and neither is a field of a type that is
/// not.
pub proof fn law_what_is_not_read(field: arrow::ipc::Field, depth: nat)
    ensures
        shapes_below(field, 0) is None,
        !head_of(field).is_readable(children_of(field).len() as int, first_of(children_of(field)))
            ==> shapes_below(field, depth) is None,
        DEPTH == 64,
{
}

proof fn fitting_columns_are_held(body: Body, shapes: Seq<FieldShape>, n: int)
    requires
        0 <= n <= shapes.len(),
        !body.layout.compressed,
        body.is_within(),
        buffers_before(shapes, n) >= 0,
        buffers_before(shapes, n) <= body.layout.buffers.len(),
        n <= body.layout.nodes.len(),
        forall|i: int|
            0 <= i < shapes.len() ==> {
                &&& (#[trigger] shapes[i]).dictionary is None || shapes[i].size == 1
                &&& column_form(shapes[i]) matches Form::Plain { second, third, .. }
                &&& second <= 8
                &&& third <= 8
            },
        body.fits(
            shapes.skip(n),
            Place { node: n as nat, buffer: buffers_before(shapes, n) as nat, variadic: 0 },
        ),
    ensures
        shapes.len() <= body.layout.nodes.len(),
        buffers_before(shapes, shapes.len() as int) <= body.layout.buffers.len(),
        forall|i: int| n <= i < shapes.len() ==> #[trigger] body.layout.nodes[i] >= 0,
        forall|i: int|
            n <= i < shapes.len() ==> match column_form(#[trigger] shapes[i]) {
                Form::Plain { count, second, third } => {
                    let at = buffers_before(shapes, i);
                    &&& count > 1 && second > 1 ==> body.layout.buffers[at + 1].1 % (second as i64)
                        == 0
                    &&& count > 2 && third > 1 ==> body.layout.buffers[at + 2].1 % (third as i64)
                        == 0
                },
                _ => false,
            },
    decreases shapes.len() - n,
{
    if n < shapes.len() {
        let rest = shapes.skip(n);
        let at = Place { node: n as nat, buffer: buffers_before(shapes, n) as nat, variadic: 0 };
        assert(rest[0] == shapes[n]);
        let form = column_form(shapes[n]);
        assert(shapes[n].dictionary is None || shapes[n].size == 1);
        assert(form is Plain);
        assert(body.holds(form, at));
        let i = buffers_before(shapes, n);
        match form {
            Form::Plain { count, second, third } => {
                if count > 1 && second > 1 {
                    let len = body.layout.buffers[i + 1].1;
                    assert(len >= 0);
                    assert(len as int % second as int == 0);
                    assert(len % (second as i64) == 0);
                }
                if count > 2 && third > 1 {
                    let len = body.layout.buffers[i + 2].1;
                    assert(len >= 0);
                    assert(len as int % third as int == 0);
                    assert(len % (third as i64) == 0);
                }
            },
            _ => {},
        }
        assert(rest.skip(1) == shapes.skip(n + 1));
        assert(body.after(form, at) == (Place {
            node: (n + 1) as nat,
            buffer: buffers_before(shapes, n + 1) as nat,
            variadic: 0,
        }));
        if n + 1 == shapes.len() {
            assert(body.fits(shapes.skip(n + 1), body.after(form, at)));
        }
        fitting_columns_are_held(body, shapes, n + 1);
    }
}

/// A batch of columns with fixed buffers, not compressed, is sound only where its body holds them: a
/// length for each column, as many buffers as their types say, all of them within the body, and whole
/// elements in each.
pub proof fn law_unsound_columns_are_refused(body: Body, known: Known)
    requires
        !body.layout.compressed,
        forall|i: int|
            0 <= i < known.fields.len() ==> {
                &&& (#[trigger] known.fields[i]).dictionary is None || known.fields[i].size == 1
                &&& column_form(known.fields[i]) matches Form::Plain { second, third, .. }
                &&& second <= 8
                &&& third <= 8
            },
    ensures
        body.is_sound(known, None) <==> holds_columns(body, known.fields),
{
    let shapes = known.fields;
    if body.is_sound(known, None) {
        assert(shapes.skip(0) == shapes);
        fitting_columns_are_held(body, shapes, 0);
        assert forall|i: int| 0 <= i < body.layout.buffers.len() implies {
            let (offset, len) = #[trigger] body.layout.buffers[i];
            0 <= offset && 0 <= len && body.start + offset + len <= body.message.len()
        } by {
            let buffer = body.layout.buffers[i];
            assert(0 <= buffer.0 && 0 <= buffer.1);
        }
        assert forall|i: int| 0 <= i < shapes.len() implies match column_form(
            #[trigger] shapes[i],
        ) {
            Form::Plain { count, second, third } => {
                let at = buffers_before(shapes, i);
                &&& count > 1 && second > 1 ==> body.layout.buffers[at + 1].1 % (second as i64) == 0
                &&& count > 2 && third > 1 ==> body.layout.buffers[at + 2].1 % (third as i64) == 0
                &&& second <= 8 && third <= 8
            },
            _ => false,
        } by {
            assert(column_form(shapes[i]) is Plain);
        }
    }
    if holds_columns(body, known.fields) {
        crate::arrow_message_laws::law_columns_are_sound(body, known);
    }
}

/// A body with a buffer that does not lie within it is refused, whatever it carries.
pub proof fn law_buffers_lie_within(body: Body, known: Known, dictionary: Option<(i64, bool)>)
    requires
        body.is_sound(known, dictionary),
    ensures
        forall|i: int|
            0 <= i < body.layout.buffers.len() ==> {
                let (offset, len) = #[trigger] body.layout.buffers[i];
                0 <= offset && 0 <= len && body.start + offset + len <= body.message.len()
            },
{
    assert forall|i: int| 0 <= i < body.layout.buffers.len() implies {
        let (offset, len) = #[trigger] body.layout.buffers[i];
        0 <= offset && 0 <= len && body.start + offset + len <= body.message.len()
    } by {
        let buffer = body.layout.buffers[i];
        assert(0 <= buffer.0 && 0 <= buffer.1);
    }
}

/// A number in 8 bytes is told by the words that it is made of, the lower one first.
pub proof fn law_how_numbers_are_read(bytes: Seq<u8>, at: int)
    ensures
        number_at(bytes, at) == word_at(bytes, at) + 0x1_0000_0000 * word_at(bytes, at + 4),
        word_at(bytes, at) == bytes[at] + 256 * (bytes[at + 1] + 256 * (bytes[at + 2] + 256
            * bytes[at + 3])),
{
}

/// A buffer that is not compressed is as long as it is said to be. A compressed one begins with its
/// length in 8 bytes, or with eight bytes of all ones where the rest of it is stored as it is; one that
/// is empty has no such beginning, one that is shorter is refused, and so is a negative length.
pub proof fn law_how_long_buffers_are(body: Body, i: int)
    requires
        0 <= i < body.layout.buffers.len(),
        body.is_within(),
    ensures
        ({
            let (offset, len) = body.layout.buffers[i];
            let number = number_at(body.message, body.start + offset);
            &&& !body.layout.compressed || len == 0 ==> body.stored_len(i) == Some(len as int)
                && body.stored_at(i) == Some(offset as int)
            &&& body.layout.compressed && 0 < len < 8 ==> body.stored_len(i) is None
                && body.stored_at(i) is None
            &&& body.layout.compressed && len >= 8 ==> {
                &&& number <= 0x7fff_ffff_ffff_ffff ==> body.stored_len(i) == Some(number)
                    && body.stored_at(i) is None
                &&& number == 0xffff_ffff_ffff_ffff ==> body.stored_len(i) == Some(len - 8)
                    && body.stored_at(i) == Some(offset + 8)
                &&& 0x7fff_ffff_ffff_ffff < number < 0xffff_ffff_ffff_ffff ==> body.stored_len(
                    i,
                ) is None
            }
        }),
{
    let buffer = body.layout.buffers[i];
    assert(0 <= buffer.1);
}

/// What a buffer has to hold, once it is decompressed: whole elements of so many bytes, or at least so
/// many of them.
pub proof fn law_what_buffers_hold(body: Body, i: int, count: int, width: usize)
    ensures
        width <= 1 ==> body.is_whole(i, width),
        width > 1 ==> (body.is_whole(i, width) <==> (body.stored_len(i) matches Some(len) && len
            % width as int == 0)),
        body.has_room(i, count, width as int) <==> (body.stored_len(i) matches Some(len) && count
            * width <= len),
{
}

/// Dictionaries that are not counted value by value may hold 2 GiB less one in all; a body takes up as
/// much as it has bytes and elements, and what does not fit leaves no room.
pub proof fn law_room_is_taken_up(body: Body, room: u64, lengths: Seq<i64>, length: i64)
    ensures
        start_of_stream().room == Some(0x7fff_ffffu64),
        sum_of(seq![]) == 0,
        length >= 0 ==> sum_of(lengths.push(length)) == sum_of(lengths) + length,
        length < 0 ==> sum_of(lengths.push(length)) == sum_of(lengths),
        body.room_after(None) is None,
        ({
            let taken = body.message.len() - body.start + sum_of(body.layout.nodes);
            &&& taken > room ==> body.room_after(Some(room)) is None
            &&& 0 <= taken <= room ==> body.room_after(Some(room)) == Some((room - taken) as u64)
        }),
{
    assert(lengths.push(length).drop_last() == lengths);
}

/// Values are appended to a dictionary without being counted where their type allows it; otherwise only
/// values that are neither unions nor encoded by a dictionary, that are not compressed, and that there
/// is room for.
pub proof fn law_which_values_are_appended(body: Body, known: Known, i: int)
    requires
        0 <= i < known.fields.len(),
        0 < known.fields[i].size <= known.fields.len() - i,
    ensures
        ({
            let values = values_of(known.fields, i);
            &&& values.len() == known.fields[i].size
            &&& values[0].form == known.fields[i].form
            &&& values[0].dictionary is None
            &&& values.drop_first() == known.fields.subrange(i + 1, i + known.fields[i].size)
            &&& body.fits_values(known, i, false) <==> body.fits(values, first_place())
            &&& known.fields[i].extends ==> (body.fits_values(known, i, true) <==> body.fits(
                values,
                first_place(),
            ))
            &&& !known.fields[i].extends ==> (body.fits_values(known, i, true) <==> {
                &&& body.fits(values, first_place())
                &&& !body.layout.compressed
                &&& body.room_after(known.room) is Some
                &&& forall|j: int|
                    0 <= j < values.len() ==> (#[trigger] values[j]).dictionary is None && !(
                    values[j].form is Variants)
            })
        }),
        first_place() == (Place { node: 0, buffer: 0, variadic: 0 }),
{
    let values = values_of(known.fields, i);
    assert(values.drop_first() == known.fields.subrange(i + 1, i + known.fields[i].size));
}

/// A field of which a dictionary holds the values takes one entry of a batch, and what is below it
/// belongs to the dictionary; any other field takes its own entry, and those below it follow.
pub proof fn law_fields_are_taken_in_turn(body: Body, shapes: Seq<FieldShape>, at: Place)
    requires
        shapes.len() > 0,
    ensures
        ({
            let form = column_form(shapes[0]);
            let taken = if shapes[0].dictionary is Some && shapes[0].size > 1 {
                shapes[0].size as int
            } else {
                1
            };
            &&& taken >= shapes.len() ==> (body.fits(shapes, at) <==> body.holds(form, at))
            &&& taken < shapes.len() ==> (body.fits(shapes, at) <==> body.holds(form, at)
                && body.fits(
                shapes.skip(taken),
                Place {
                    node: at.node + 1,
                    buffer: (at.buffer + body.buffers_of(form, at)) as nat,
                    variadic: if form is Views {
                        at.variadic + 1
                    } else {
                        at.variadic
                    },
                },
            ))
        }),
        body.fits(seq![], at),
{
}

/// How many buffers a field has: as many as its type says, one for a list of one length, two and those
/// that the batch says for views, and for a union the numbers of the children, their places if it is
/// dense, and ahead of version 5 a validity buffer.
pub proof fn law_how_many_buffers_a_field_has(body: Body, at: Place, items: i32, form: Form)
    ensures
        form matches Form::Plain { count, .. } ==> body.buffers_of(form, at) == count,
        body.buffers_of(Form::Repeated { items }, at) == 1,
        body.buffers_of(Form::Views, at) == 2 + body.layout.variadic[at.variadic as int],
        body.version >= 4 ==> body.buffers_of(Form::Variants { dense: false }, at) == 1
            && body.buffers_of(Form::Variants { dense: true }, at) == 2,
        body.version < 4 ==> body.buffers_of(Form::Variants { dense: false }, at) == 2
            && body.buffers_of(Form::Variants { dense: true }, at) == 3,
        body.holds(form, at) ==> at.node < body.layout.nodes.len() && body.layout.nodes[
            at.node as int
        ] >= 0 && at.buffer + body.buffers_of(form, at) <= body.layout.buffers.len(),
{
}

/// What a union of an older version holds, whose numbers stand behind a validity buffer.
pub proof fn law_what_older_unions_hold(body: Body, at: Place)
    requires
        !body.layout.compressed,
        body.version < 4,
        at.node < body.layout.nodes.len(),
        body.layout.nodes[at.node as int] >= 0,
        at.buffer + 3 <= body.layout.buffers.len(),
    ensures
        ({
            let elements = body.layout.nodes[at.node as int] as int;
            let (_, second_len) = body.layout.buffers[at.buffer as int + 1];
            let (third, third_len) = body.layout.buffers[at.buffer as int + 2];
            &&& body.holds(Form::Variants { dense: false }, at) <==> elements <= second_len
            &&& body.holds(Form::Variants { dense: true }, at) <==> elements <= second_len && 4
                * elements <= third_len && (body.start + third) % 4 == 0
        }),
{
}

/// What stands at the front of a buffer that holds the metadata of a message: a batch that is longer
/// than the limit is refused before its body is there, and nothing else is held to the limit; a negative
/// length is refused; malformed metadata are a message by themselves; and a message that cannot be read
/// is refused once it is there.
pub proof fn law_how_messages_are_refused(
    known: Known,
    limit: nat,
    marked: bool,
    metadata: Seq<u8>,
    more: Seq<u8>,
)
    requires
        0 < metadata.len() < 0xffff_ffff,
    ensures
        ({
            let prefix = if marked {
                seq![0xffu8, 0xffu8, 0xffu8, 0xffu8] + word_bytes(metadata.len())
            } else {
                word_bytes(metadata.len())
            };
            let start = prefix.len() + metadata.len();
            let body = prefix + metadata + more;
            let found = next_message(known, limit, body);
            match message_head_of(metadata) {
                None => found == (Found::Whole { len: start, head: None, known }),
                Some(head) => {
                    let len = start + head.body_len;
                    &&& head.body_len < 0 ==> found is Unsound
                    &&& head.body_len >= 0 && head.header == 3 && len > limit ==> found is TooLong
                    &&& head.body_len >= 0 && (head.header != 3 || len <= limit) ==> {
                        &&& len > body.len() ==> found is Part
                        &&& len <= body.len() ==> match known_after(
                            known,
                            head,
                            metadata,
                            body.take(len),
                        ) {
                            None => found is Unsound,
                            Some(after) => found == (Found::Whole {
                                len: len as nat,
                                head: Some(head),
                                known: after,
                            }),
                        }
                    }
                },
            }
        }),
{
    let prefix = if marked {
        seq![0xffu8, 0xffu8, 0xffu8, 0xffu8] + word_bytes(metadata.len())
    } else {
        word_bytes(metadata.len())
    };
    let start = prefix.len() + metadata.len();
    let body = prefix + metadata + more;
    assert(body.take(prefix.len() as int) == prefix);
    crate::arrow_message_laws::prefix_is_read(marked, metadata.len(), body, prefix);
    assert(body.subrange(prefix.len() as int, start as int) == metadata);
}

/// A message starts with the size of its metadata, or with a continuation marker and that.
pub proof fn law_how_messages_start(
    body: &[u8],
    marked: bool,
    size: nat,
    more: Seq<u8>,
    prefix: Option<(usize, u32)>,
)
    requires
        call_ensures(front_prefix, (body,), prefix),
    ensures
        body@.len() < 4 ==> prefix is None,
        size < 0xffff_ffff && body@ == word_bytes(size) + more ==> prefix == Some(
            (4usize, size as u32),
        ),
        size < 0x1_0000_0000 && body@ == seq![0xffu8, 0xffu8, 0xffu8, 0xffu8] + word_bytes(size)
            + more ==> prefix == Some((8usize, size as u32)),
        body@.len() < 8 && body@.len() >= 4 && body@.take(4) == seq![
            0xffu8,
            0xffu8,
            0xffu8,
            0xffu8,
        ] ==> prefix is None,
{
    if size < 0xffff_ffff && body@ == word_bytes(size) + more {
        assert(body@.subrange(0, 4) == word_bytes(size));
        crate::arrow_message_laws::words_read_back(size, body@, 0);
    }
    if size < 0x1_0000_0000 && body@ == seq![0xffu8, 0xffu8, 0xffu8, 0xffu8] + word_bytes(size)
        + more {
        assert(body@.subrange(4, 8) == word_bytes(size));
        assert(body@[0] == 0xff && body@[1] == 0xff && body@[2] == 0xff && body@[3] == 0xff);
        crate::arrow_message_laws::words_read_back(size, body@, 4);
    }
    if 4 <= body@.len() < 8 && body@.take(4) == seq![0xffu8, 0xffu8, 0xffu8, 0xffu8] {
        let front = body@.take(4);
        assert(front[0] == body@[0] && front[1] == body@[1] && front[2] == body@[2] && front[3]
            == body@[3]);
    }
}

/// How far a message reaches: a negative length to nowhere, a batch beyond the limit too far, and any
/// other message as far as its length says.
pub proof fn law_how_far_messages_reach(
    head: MessageHead,
    start: usize,
    limit: usize,
    total: usize,
    extent: Extent,
)
    requires
        start <= total,
        call_ensures(MessageHead::extent, (&head, start, limit, total), extent),
    ensures
        extent is Unsound <==> head.body_len < 0,
        extent is TooLong <==> head.body_len >= 0 && head.header == 3 && start + head.body_len
            > limit,
        extent is Part <==> head.body_len >= 0 && start + head.body_len > total && (head.header != 3
            || start + head.body_len <= limit),
        extent matches Extent::Whole { len } ==> len == start + head.body_len,
{
}

/// What is looked at is what stands at the front.
pub proof fn law_what_is_at_the_front(
    shapes: &[FieldShape],
    room: Option<u64>,
    limit: usize,
    body: &[u8],
    front: Front,
)
    requires
        call_ensures(front_message, (shapes, room, limit, body), front),
    ensures
        ({
            let known = Known { fields: shapes@, room };
            match next_message(known, limit as nat, body@) {
                Found::Part => front is Part,
                Found::End { len } => front matches Front::End { len: found } && found == len,
                Found::TooLong => front is TooLong,
                Found::Unsound => front is Unsound,
                Found::Whole { len, head, known: after } => {
                    &&& front matches Front::Whole { len: found, head: said, fields, room: left }
                    &&& found == len
                    &&& said == head
                    &&& left == after.room
                    &&& match fields {
                        Some(fields) => fields@ == after.fields,
                        None => shapes@ == after.fields,
                    }
                },
            }
        }),
{
}

/// A body is looked at with the layout, the version and the schema that it is given.
pub proof fn law_what_a_check_says(
    layout: BatchLayout,
    version: i16,
    message: &[u8],
    start: usize,
    shapes: &[FieldShape],
    room: Option<u64>,
    dictionary: Option<(i64, bool)>,
    sound: bool,
    left: Option<u64>,
)
    requires
        start <= message@.len(),
        call_ensures(
            BatchLayout::check,
            (&layout, version, message, start, shapes, room, dictionary),
            sound,
        ),
        call_ensures(BatchLayout::room_left, (&layout, message, start, room), left),
    ensures
        ({
            let body = Body {
                layout: layout@,
                version,
                message: message@,
                start: start as int,
            };
            &&& sound == body.is_sound(Known { fields: shapes@, room }, dictionary)
            &&& left == body.room_after(room)
        }),
{
    assert(layout.body(version, message, start).weight() == layout.body(4, message, start).weight());
}

/// What is looked at of the fields below a map or runs: the first of them, and how many it has below.
pub proof fn law_what_is_first(fields: Seq<arrow::ipc::Field>, depth: nat)
    ensures
        fields.len() == 0 ==> first_of(fields) is None,
        fields.len() > 0 ==> first_of(fields) == Some(
            (head_of(fields[0]), children_of(fields[0]).len() as usize),
        ),
        shapes_of(seq![], depth) == Some(Seq::<FieldShape>::empty()),
        fields.len() == 1 ==> shapes_of(fields, depth) == shapes_below(fields[0], depth),
{
    if fields.len() == 1 {
        assert(fields.drop_last() == Seq::<arrow::ipc::Field>::empty());
        if let Some(shapes) = shapes_below(fields[0], depth) {
            assert(Seq::<FieldShape>::empty() + shapes == shapes);
        }
    }
}

/// What a field needs of a body, compressed or not: a length, its buffers, and in those whole elements
/// or a number for each element.
pub proof fn law_what_a_field_needs(body: Body, form: Form, at: Place)
    requires
        at.node < body.layout.nodes.len(),
        body.layout.nodes[at.node as int] >= 0,
    ensures
        ({
            let elements = body.layout.nodes[at.node as int] as int;
            let first = at.buffer as int;
            let many = body.layout.buffers.len();
            match form {
                Form::Plain { count, second, third } => body.holds(form, at) <==> {
                    &&& first + count <= many
                    &&& count > 1 ==> body.is_whole(first + 1, second)
                    &&& count > 2 ==> body.is_whole(first + 2, third)
                },
                Form::Repeated { items } => body.holds(form, at) <==> {
                    &&& first + 1 <= many
                    &&& elements * items <= usize::MAX
                },
                Form::Views => body.holds(form, at) <==> {
                    &&& at.variadic < body.layout.variadic.len()
                    &&& 0 <= body.layout.variadic[at.variadic as int]
                    &&& first + 2 + body.layout.variadic[at.variadic as int] <= many
                    &&& body.is_whole(first + 1, 16)
                },
                Form::Variants { dense } => {
                    let numbers = if body.version < 4 {
                        first + 1
                    } else {
                        first
                    };
                    if dense {
                        body.holds(form, at) <==> {
                            &&& numbers + 2 <= many
                            &&& body.has_room(numbers, elements, 1)
                            &&& body.has_room(numbers + 1, elements, 4)
                            &&& body.stored_at(numbers + 1) matches Some(place)
                            &&& (body.start + place) % 4 == 0
                        }
                    } else {
                        body.holds(form, at) <==> {
                            &&& numbers + 1 <= many
                            &&& body.has_room(numbers, elements, 1)
                        }
                    }
                },
            }
        }),
{
}

/// A body is sound where its buffers lie within it and it holds the fields of the schema; where it
/// carries a dictionary, the values of every field that this dictionary encodes, and of no other.
pub proof fn law_what_makes_a_body_sound(body: Body, known: Known, id: i64, appends: bool)
    requires
        forall|i: int|
            0 <= i < body.layout.buffers.len() ==> {
                let (offset, len) = #[trigger] body.layout.buffers[i];
                0 <= offset && 0 <= len && body.start + offset + len <= body.message.len()
            },
    ensures
        body.is_sound(known, None) <==> body.fits(
            known.fields,
            Place { node: 0, buffer: 0, variadic: 0 },
        ),
        body.is_sound(known, Some((id, appends))) <==> (forall|i: int|
            0 <= i < known.fields.len() && ((#[trigger] known.fields[i]).dictionary matches Some((
                found,
                _,
            )) && found == id) ==> body.fits_values(known, i, appends)),
{
    assert(body.is_within()) by {
        assert forall|i: int| 0 <= i < body.layout.buffers.len() implies {
            let buffer = #[trigger] body.layout.buffers[i];
            0 <= buffer.0 && 0 <= buffer.1 && body.start + buffer.0 + buffer.1
                <= body.message.len()
        } by {
            let (offset, len) = body.layout.buffers[i];
            assert(0 <= offset && 0 <= len);
        }
    }
    if forall|i: int|
        0 <= i < known.fields.len() && ((#[trigger] known.fields[i]).dictionary matches Some((
            found,
            _,
        )) && found == id) ==> body.fits_values(known, i, appends) {
        assert forall|i: int|
            0 <= i < known.fields.len() && (#[trigger] known.fields[i]).is_in(
                id,
            ) implies body.fits_values(known, i, appends) by {}
    }
    if body.is_sound(known, Some((id, appends))) {
        assert forall|i: int|
            0 <= i < known.fields.len() && ((#[trigger] known.fields[i]).dictionary matches Some((
                found,
                _,
            )) && found == id) implies body.fits_values(known, i, appends) by {
            assert(known.fields[i].is_in(id));
        }
    }
}

/// A dictionary that was read takes up room: as much as its body weighs.
pub proof fn law_dictionaries_take_up_room(
    known: Known,
    head: MessageHead,
    metadata: Seq<u8>,
    message: Seq<u8>,
    layout: Layout,
)
    requires
        head.header == 2 || head.header == 3,
        layout_of(metadata) == Some(layout),
        dictionary_of(metadata) is Some,
    ensures
        known_after(known, head, metadata, message) matches Some(after) ==> after.fields
            == known.fields && after.room == (Body {
            layout,
            version: head.version,
            message,
            start: message.len() - head.body_len,
        }).room_after(known.room),
{
}

/// A message is handed to the decoder as it is; only behind a batch without a body a byte follows.
pub proof fn law_what_the_decoder_is_given(message: Seq<u8>, head: Option<MessageHead>)
    ensures
        has_batch(head) <==> (head matches Some(found) && found.header == 3),
        input_of(message, head) == (if head matches Some(found) && found.header == 3
            && found.body_len == 0 {
            message.push(0)
        } else {
            message
        }),
{
}

/// The end of the stream is clean where nothing follows it, and otherwise refused.
pub proof fn law_how_a_stream_is_ended(
    codec: &mut ArrowIpcCodec,
    buf: &mut BytesMut,
    res: Result<Option<Result<ArrowBatch, StreamError>>, StreamError>,
)
    requires
        old(codec).ready(),
        call_ensures(ArrowIpcCodec::decode, (codec, buf), res),
    ensures
        held(*old(buf)).len() == 0 ==> (res matches Ok(None)) && final(codec)@ == old(codec)@,
        held(*old(buf)) == seq![0xffu8, 0xffu8, 0xffu8, 0xffu8, 0u8, 0u8, 0u8, 0u8] && !old(
            codec,
        )@.ended ==> (res matches Ok(None)) && final(codec)@.ended && held(*final(buf)).len() == 0,
        old(codec)@.ended && held(*old(buf)).len() > 0 ==> {
            &&& res matches Err(error)
            &&& error@.kind == StreamErrorKind::CodecError
            &&& error@.source == Some(ErrorSource::Arrow(ipc_error_of("Unexpected EOS"@)))
            &&& error@.message == Some("Decode arrow IPC record error"@)
            &&& held(*final(buf)) == held(*old(buf))
        },
        !old(codec)@.ended && held(*old(buf)).len() > 0 && next_message(
            old(codec)@.known,
            old(codec)@.limit,
            held(*old(buf)),
        ) is Unsound ==> {
            &&& res matches Err(error)
            &&& error@.kind == StreamErrorKind::CodecError
            &&& error@.source == Some(ErrorSource::Arrow(ipc_error_of("Malformed message"@)))
            &&& error@.message == Some("Decode arrow IPC record error"@)
            &&& final(codec)@.ended
        },
{
    let body = held(*old(buf));
    let marker = seq![0xffu8, 0xffu8, 0xffu8, 0xffu8, 0u8, 0u8, 0u8, 0u8];
    if body == marker && !old(codec)@.ended {
        crate::arrow_message_laws::law_the_end_is_found(
            old(codec)@.known,
            old(codec)@.limit,
            seq![],
        );
        assert(marker + Seq::<u8>::empty() == marker);
        assert(body.skip(8).len() == 0);
        reveal_with_fuel(batch_at, 2);
    }
}

/// The start of a message is waited for: fewer bytes than say how long its metadata are, or fewer than
/// those.
pub proof fn law_the_start_of_a_message_is_waited_for(
    known: Known,
    limit: nat,
    size: nat,
    part: Seq<u8>,
)
    requires
        0 < size < 0xffff_ffff,
        part.len() < size,
    ensures
        part.len() < 4 ==> next_message(known, limit, part) is Part,
        next_message(known, limit, word_bytes(size) + part) is Part,
        next_message(
            known,
            limit,
            seq![0xffu8, 0xffu8, 0xffu8, 0xffu8] + word_bytes(size) + part,
        ) is Part,
{
    let plain = word_bytes(size) + part;
    assert(plain.take(4) == word_bytes(size));
    crate::arrow_message_laws::prefix_is_read(false, size, plain, word_bytes(size));
    let prefix = seq![0xffu8, 0xffu8, 0xffu8, 0xffu8] + word_bytes(size);
    let whole = prefix + part;
    assert(whole.take(8) == prefix);
    crate::arrow_message_laws::prefix_is_read(true, size, whole, prefix);
}

} // verus!
