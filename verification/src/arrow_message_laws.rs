//! Which Arrow IPC messages are read: what a schema may hold, what a body must hold, and where a
//! message begins and ends.

use crate::arrow_fields::{
    children_of, first_of, head_of, shapes_below, shapes_of, FieldHead, FieldShape, Form, DEPTH,
};
use crate::arrow_message::{
    dictionary_of, fields_of, known_after, layout_of, message_head_of, next_message, prefix_at,
    values_of, word_at, Body, Found, Known, MessageHead, Place,
};
use vstd::prelude::*;

verus! {

/// A field is read whatever its type, with five exceptions: a run of bytes or a list of a negative
/// length, a union of more than 128 children that are not numbered, runs whose ends are no signed
/// integers of 16, 32 or 64 bits, and a map that does not hold pairs.
pub proof fn law_which_types_are_read(
    head: FieldHead,
    count: int,
    first: Option<(FieldHead, usize)>,
)
    ensures
        head.is_readable(count, first) <==> {
            &&& head.tag == 15 ==> !(head.width matches Some(width) && width < 0)
            &&& head.tag == 16 ==> !(head.items matches Some(items) && items < 0)
            &&& head.tag == 14 && count > 128 ==> (head.variants matches Some((_, numbered))
                && numbered)
            &&& head.tag == 22 ==> (first matches Some((ends, _)) && ends.tag == 2
                && ends.dictionary is None && (ends.integer == Some((16i32, true)) || ends.integer
                == Some((32i32, true)) || ends.integer == Some((64i32, true))))
            &&& head.tag == 17 ==> (first matches Some((entries, pairs)) && entries.tag == 13
                && entries.dictionary is None && pairs == 2)
        },
        // Integers, floating-point numbers, booleans, decimals, dates, times, timestamps, intervals
        // and durations, texts and bytes of any kind, and nulls.
        head.tag <= 13 || head.tag == 18 || head.tag == 19 || head.tag == 20 || head.tag == 21
            || head.tag >= 23 ==> head.is_readable(count, first),
{
}

/// Which buffers of a body belong to a field, by its type: a field of fixed width has a validity
/// buffer and one of values, a text has offsets between them, and so on.
pub proof fn law_which_buffers_a_type_has(head: FieldHead)
    ensures
        head.tag == 1 || head.tag == 22 ==> head.form() == (Form::Plain {
            count: 0,
            second: 1,
            third: 1,
        }),
        head.tag == 2 || head.tag == 3 || (6 <= head.tag <= 11) || head.tag == 15 || head.tag == 18
            ==> head.form() == (Form::Plain { count: 2, second: 1, third: 1 }),
        head.tag == 4 || head.tag == 5 ==> head.form() == (Form::Plain {
            count: 3,
            second: 4,
            third: 1,
        }),
        head.tag == 19 || head.tag == 20 ==> head.form() == (Form::Plain {
            count: 3,
            second: 8,
            third: 1,
        }),
        head.tag == 12 || head.tag == 17 ==> head.form() == (Form::Plain {
            count: 2,
            second: 4,
            third: 1,
        }),
        head.tag == 21 ==> head.form() == (Form::Plain { count: 2, second: 8, third: 1 }),
        head.tag == 13 ==> head.form() == (Form::Plain { count: 1, second: 1, third: 1 }),
        head.tag == 25 ==> head.form() == (Form::Plain { count: 3, second: 4, third: 4 }),
        head.tag == 26 ==> head.form() == (Form::Plain { count: 3, second: 8, third: 8 }),
        head.tag == 23 || head.tag == 24 ==> head.form() is Views,
        head.tag == 16 && head.items is Some ==> head.form() == (Form::Repeated {
            items: head.items->Some_0,
        }),
        head.tag == 14 && head.variants is Some ==> head.form() == (Form::Variants {
            dense: head.variants->Some_0.0 != 0,
        }),
        head.integer == Some((16i32, true)) ==> head.run_ends() == (Form::Plain {
            count: 2,
            second: 2,
            third: 1,
        }),
        head.integer == Some((32i32, true)) ==> head.run_ends() == (Form::Plain {
            count: 2,
            second: 4,
            third: 1,
        }),
        head.integer == Some((64i32, true)) ==> head.run_ends() == (Form::Plain {
            count: 2,
            second: 8,
            third: 1,
        }),
{
}

/// Whether a field and all below it are of types that are read, nested no deeper than `depth`.
pub open spec fn is_read(field: arrow::ipc::Field, depth: nat) -> bool
    decreases depth,
{
    let head = head_of(field);
    &&& depth > 0
    &&& head.is_readable(children_of(field).len() as int, first_of(children_of(field)))
    &&& (12 <= head.tag <= 14 || head.tag == 16 || head.tag == 17 || head.tag == 21 || head.tag
        == 22 || head.tag == 25 || head.tag == 26) ==> forall|i: int|
        0 <= i < children_of(field).len() ==> is_read(
            #[trigger] children_of(field)[i],
            (depth - 1) as nat,
        )
}

/// How many entries a field and all below it take: one for each.
pub open spec fn entries(field: arrow::ipc::Field, depth: nat) -> nat
    decreases depth, 0nat, 0nat,
{
    let head = head_of(field);
    if depth > 0 && (12 <= head.tag <= 14 || head.tag == 16 || head.tag == 17 || head.tag == 21
        || head.tag == 22 || head.tag == 25 || head.tag == 26) {
        1 + entries_of(children_of(field), (depth - 1) as nat)
    } else {
        1
    }
}

/// How many entries fields and all below them take.
pub open spec fn entries_of(fields: Seq<arrow::ipc::Field>, depth: nat) -> nat
    decreases depth, 1nat, fields.len(),
{
    if fields.len() == 0 {
        0
    } else {
        entries_of(fields.drop_last(), depth) + entries(fields.last(), depth)
    }
}

proof fn fields_are_read(fields: Seq<arrow::ipc::Field>, depth: nat)
    ensures
        shapes_of(fields, depth) is Some <==> (forall|i: int|
            0 <= i < fields.len() ==> is_read(#[trigger] fields[i], depth)),
        shapes_of(fields, depth) matches Some(shapes) ==> shapes.len() == entries_of(fields, depth),
    decreases depth, 1nat, fields.len(),
{
    if fields.len() > 0 {
        let fewer = fields.drop_last();
        fields_are_read(fewer, depth);
        last_is_read(fields, depth);
        assert(forall|i: int| 0 <= i < fewer.len() ==> fewer[i] == fields[i]);
        if shapes_of(fields, depth) is Some {
            assert forall|i: int| 0 <= i < fields.len() implies is_read(
                #[trigger] fields[i],
                depth,
            ) by {
                if i < fewer.len() {
                    assert(is_read(fewer[i], depth));
                }
            }
        } else {
            if forall|i: int| 0 <= i < fields.len() ==> is_read(#[trigger] fields[i], depth) {
                assert forall|i: int| 0 <= i < fewer.len() implies is_read(
                    #[trigger] fewer[i],
                    depth,
                ) by {
                    assert(is_read(fields[i], depth));
                }
                assert(is_read(fields[fields.len() - 1], depth));
            }
        }
    }
}

proof fn last_is_read(fields: Seq<arrow::ipc::Field>, depth: nat)
    requires
        fields.len() > 0,
    ensures
        shapes_below(fields.last(), depth) is Some <==> is_read(fields.last(), depth),
        shapes_below(fields.last(), depth) matches Some(shapes) ==> shapes.len() == entries(
            fields.last(),
            depth,
        ),
    decreases depth, 0nat, 0nat,
{
    if depth > 0 {
        let n = fields.len() - 1;
        fields_are_read(children_of(fields[n]), (depth - 1) as nat);
    }
}

/// A schema is read exactly where all of its fields are of types that are read, and nested no
/// deeper than 64 levels; every field counts then, each once.
pub proof fn law_which_schemas_are_read(fields: Seq<arrow::ipc::Field>)
    ensures
        shapes_of(fields, DEPTH as nat) is Some <==> (forall|i: int|
            0 <= i < fields.len() ==> is_read(#[trigger] fields[i], 64)),
        shapes_of(fields, DEPTH as nat) matches Some(shapes) ==> shapes.len() == entries_of(
            fields,
            64,
        ),
{
    fields_are_read(fields, DEPTH as nat);
}

/// The dictionary that encodes a field, and the bytes of an index into it: those of its bits, and
/// one where nothing else is said.
pub open spec fn index_of(head: FieldHead) -> Option<(i64, usize)> {
    match head.dictionary {
        None => None,
        Some((id, bits)) => Some(
            (
                id,
                if bits == Some(16i32) {
                    2
                } else if bits == Some(32i32) {
                    4
                } else if bits == Some(64i32) {
                    8
                } else {
                    1
                },
            ),
        ),
    }
}

proof fn flat_fields_have_entries(fields: Seq<arrow::ipc::Field>, depth: nat)
    requires
        depth > 0,
        forall|i: int|
            0 <= i < fields.len() ==> head_of(#[trigger] fields[i]).tag < 12,
    ensures
        shapes_of(fields, depth) matches Some(shapes) && {
            &&& shapes.len() == fields.len()
            &&& forall|i: int|
                0 <= i < fields.len() ==> {
                    let shape = #[trigger] shapes[i];
                    &&& shape.form == head_of(fields[i]).form()
                    &&& shape.dictionary == index_of(head_of(fields[i]))
                    &&& shape.size == 1
                }
        },
    decreases fields.len(),
{
    if fields.len() > 0 {
        let fewer = fields.drop_last();
        assert forall|i: int| 0 <= i < fewer.len() implies head_of(#[trigger] fewer[i]).tag < 12 by {
            assert(fewer[i] == fields[i]);
        }
        flat_fields_have_entries(fewer, depth);
        let n = fields.len() - 1;
        assert(head_of(fields[n]).tag < 12);
        let shape = FieldShape {
            form: head_of(fields[n]).form(),
            dictionary: index_of(head_of(fields[n])),
            extends: head_of(fields[n]).extends(),
            size: 1,
        };
        assert(seq![shape] + Seq::<FieldShape>::empty() == seq![shape]);
        assert(shapes_below(fields.last(), depth) == Some(seq![shape]));
        let before = shapes_of(fewer, depth)->Some_0;
        let shapes = shapes_of(fields, depth)->Some_0;
        assert forall|i: int| 0 <= i < fields.len() implies {
            let shape = #[trigger] shapes[i];
            &&& shape.form == head_of(fields[i]).form()
            &&& shape.dictionary == index_of(head_of(fields[i]))
            &&& shape.size == 1
        } by {
            if i < n {
                assert(shapes[i] == before[i]);
                assert(fewer[i] == fields[i]);
            }
        }
    }
}

/// A schema of plain columns (integers, floating-point numbers, booleans, texts, bytes, decimals,
/// dates, times, timestamps, intervals, nulls), encoded by a dictionary or not, is read, and there is
/// one entry for each, in order, with the buffers of its type.
pub proof fn law_plain_schemas_are_read(fields: Seq<arrow::ipc::Field>)
    requires
        forall|i: int|
            0 <= i < fields.len() ==> head_of(#[trigger] fields[i]).tag < 12,
    ensures
        shapes_of(fields, DEPTH as nat) matches Some(shapes) && {
            &&& shapes.len() == fields.len()
            &&& forall|i: int|
                0 <= i < fields.len() ==> {
                    let shape = #[trigger] shapes[i];
                    &&& shape.form == head_of(fields[i]).form()
                    &&& shape.dictionary == index_of(head_of(fields[i]))
                    &&& shape.size == 1
                }
        },
{
    flat_fields_have_entries(fields, DEPTH as nat);
}

/// The buffers of a column: those of its type, or a validity buffer and one of indexes where a
/// dictionary encodes it.
pub open spec fn column_form(shape: FieldShape) -> Form {
    match shape.dictionary {
        Some((_, width)) => Form::Plain { count: 2, second: width, third: 1 },
        None => shape.form,
    }
}

/// How many buffers the first `n` of some entries have, where each has as many as its type says.
pub open spec fn buffers_before(shapes: Seq<FieldShape>, n: int) -> int
    decreases n,
{
    if n <= 0 {
        0
    } else {
        buffers_before(shapes, n - 1) + (match column_form(shapes[n - 1]) {
            Form::Plain { count, .. } => count as int,
            _ => 0,
        })
    }
}

proof fn counts_are_not_negative(shapes: Seq<FieldShape>, n: int, m: int)
    requires
        0 <= n <= m,
    ensures
        0 <= buffers_before(shapes, n) <= buffers_before(shapes, m),
    decreases m,
{
    if n < m {
        counts_are_not_negative(shapes, n, m - 1);
    } else if n > 0 {
        counts_are_not_negative(shapes, n - 1, m - 1);
    }
}

/// Whether a body that is not compressed holds columns: an entry among the nodes for each, which is
/// not negative, and buffers that lie within the body and hold whole elements.
pub open spec fn holds_columns(body: Body, shapes: Seq<FieldShape>) -> bool {
    &&& !body.layout.compressed
    &&& shapes.len() <= body.layout.nodes.len()
    &&& forall|i: int| 0 <= i < shapes.len() ==> #[trigger] body.layout.nodes[i] >= 0
    &&& buffers_before(shapes, shapes.len() as int) <= body.layout.buffers.len()
    &&& forall|i: int|
        0 <= i < body.layout.buffers.len() ==> {
            let (offset, len) = #[trigger] body.layout.buffers[i];
            0 <= offset && 0 <= len && body.start + offset + len <= body.message.len()
        }
    &&& forall|i: int|
        0 <= i < shapes.len() ==> match column_form(#[trigger] shapes[i]) {
            Form::Plain { count, second, third } => {
                let at = buffers_before(shapes, i);
                &&& count > 1 && second > 1 ==> body.layout.buffers[at + 1].1 % (second as i64) == 0
                &&& count > 2 && third > 1 ==> body.layout.buffers[at + 2].1 % (third as i64) == 0
                &&& second <= 8 && third <= 8
            },
            _ => false,
        }
}

proof fn columns_fit_from(body: Body, shapes: Seq<FieldShape>, n: int)
    requires
        0 <= n <= shapes.len(),
        holds_columns(body, shapes),
        forall|i: int|
            0 <= i < shapes.len() ==> (#[trigger] shapes[i]).dictionary is None || shapes[i].size
                == 1,
    ensures
        body.fits(
            shapes.skip(n),
            Place { node: n as nat, buffer: buffers_before(shapes, n) as nat, variadic: 0 },
        ),
    decreases shapes.len() - n,
{
    if n < shapes.len() {
        let rest = shapes.skip(n);
        let at = Place { node: n as nat, buffer: buffers_before(shapes, n) as nat, variadic: 0 };
        counts_are_not_negative(shapes, n, n);
        counts_are_not_negative(shapes, n + 1, shapes.len() as int);
        columns_fit_from(body, shapes, n + 1);
        assert(rest[0] == shapes[n]);
        assert(body.layout.nodes[n] >= 0);
        assert(rest.skip(1) == shapes.skip(n + 1));
        let form = column_form(shapes[n]);
        assert(shapes[n].dictionary is None || shapes[n].size == 1);
        match form {
            Form::Plain { count, second, third } => {
                let i = buffers_before(shapes, n);
                if count > 1 && second > 1 {
                    let len = body.layout.buffers[i + 1].1;
                    assert(len >= 0);
                    assert(len as int % second as int == 0);
                }
                if count > 2 && third > 1 {
                    let len = body.layout.buffers[i + 2].1;
                    assert(len >= 0);
                    assert(len as int % third as int == 0);
                }
            },
            _ => {},
        }
        assert(body.holds(form, at));
    }
}

/// A batch is sound whose body holds the columns of the schema, whatever their number and their
/// types, as long as each has the buffers that its type says: a body is refused for nothing else.
pub proof fn law_columns_are_sound(body: Body, known: Known)
    requires
        holds_columns(body, known.fields),
        forall|i: int|
            0 <= i < known.fields.len() ==> (#[trigger] known.fields[i]).dictionary is None
                || known.fields[i].size == 1,
    ensures
        body.is_sound(known, None),
{
    columns_fit_from(body, known.fields, 0);
    assert(known.fields.skip(0) == known.fields);
}

/// What a column of a type that has no fixed buffers must hold: as many elements as its child has,
/// views of 16 bytes, or a number for each element and, if dense, a place in 4 bytes that stand at a
/// multiple of 4.
pub proof fn law_what_other_columns_hold(body: Body, at: Place)
    requires
        !body.layout.compressed,
        at.node < body.layout.nodes.len(),
        body.layout.nodes[at.node as int] >= 0,
        at.buffer + 2 <= body.layout.buffers.len(),
    ensures
        ({
            let elements = body.layout.nodes[at.node as int] as int;
            let (first, first_len) = body.layout.buffers[at.buffer as int];
            let (second, second_len) = body.layout.buffers[at.buffer as int + 1];
            &&& forall|items: i32|
                (#[trigger] body.holds(Form::Repeated { items }, at)) <==> elements * items
                    <= usize::MAX
            &&& at.variadic < body.layout.variadic.len() ==> (body.holds(Form::Views, at) <==> 0
                <= body.layout.variadic[at.variadic as int] && at.buffer + 2
                + body.layout.variadic[at.variadic as int] <= body.layout.buffers.len()
                && second_len as int % 16 == 0)
            &&& body.version >= 4 ==> (body.holds(Form::Variants { dense: false }, at) <==> elements
                <= first_len)
            &&& body.version >= 4 ==> (body.holds(Form::Variants { dense: true }, at) <==> elements
                <= first_len && 4 * elements <= second_len && (body.start + second) % 4 == 0)
        }),
{
}

/// A number as 4 bytes, the lowest first.
pub open spec fn word_bytes(n: nat) -> Seq<u8> {
    seq![
        (n % 256) as u8,
        (n / 256 % 256) as u8,
        (n / 65536 % 256) as u8,
        (n / 16777216 % 256) as u8,
    ]
}

pub(crate) proof fn words_read_back(n: nat, bytes: Seq<u8>, at: int)
    requires
        n < 0x1_0000_0000,
        0 <= at,
        at + 4 <= bytes.len(),
        bytes.subrange(at, at + 4) == word_bytes(n),
    ensures
        word_at(bytes, at) == n,
{
    let word = bytes.subrange(at, at + 4);
    assert(word[0] == bytes[at] && word[1] == bytes[at + 1] && word[2] == bytes[at + 2] && word[3]
        == bytes[at + 3]);
    assert(n == n % 256 + 256 * (n / 256 % 256) + 65536 * (n / 65536 % 256) + 16777216 * (n
        / 16777216 % 256)) by (nonlinear_arith)
        requires
            n < 0x1_0000_0000,
    ;
}

/// A message is found whole whose metadata follow a continuation marker and their size, or their
/// size alone, and whose body follows them, however much is buffered behind it; it is not found
/// before its last byte is there.
pub proof fn law_a_message_is_found(
    known: Known,
    limit: nat,
    marked: bool,
    metadata: Seq<u8>,
    content: Seq<u8>,
    more: Seq<u8>,
    after: Known,
)
    requires
        0 < metadata.len() < 0xffff_ffff,
        ({
            let prefix = if marked {
                seq![0xffu8, 0xffu8, 0xffu8, 0xffu8] + word_bytes(metadata.len())
            } else {
                word_bytes(metadata.len())
            };
            let message = prefix + metadata + content;
            &&& message_head_of(metadata) matches Some(head)
            &&& head.body_len == content.len()
            &&& head.header == 3 ==> message.len() <= limit
            &&& known_after(known, head, metadata, message) == Some(after)
        }),
    ensures
        ({
            let prefix = if marked {
                seq![0xffu8, 0xffu8, 0xffu8, 0xffu8] + word_bytes(metadata.len())
            } else {
                word_bytes(metadata.len())
            };
            let message = prefix + metadata + content;
            &&& next_message(known, limit, message + more) == (Found::Whole {
                len: message.len(),
                head: message_head_of(metadata),
                known: after,
            })
            &&& forall|n: int|
                0 <= n < message.len() ==> next_message(known, limit, #[trigger] message.take(n))
                    is Part
        }),
{
    let prefix = if marked {
        seq![0xffu8, 0xffu8, 0xffu8, 0xffu8] + word_bytes(metadata.len())
    } else {
        word_bytes(metadata.len())
    };
    let message = prefix + metadata + content;
    let whole = message + more;
    let start = prefix.len() + metadata.len();
    let head = message_head_of(metadata)->Some_0;
    assert(whole.take(prefix.len() as int) == prefix);
    prefix_is_read(marked, metadata.len(), whole, prefix);
    assert(whole.subrange(prefix.len() as int, start as int) == metadata);
    assert(whole.take(message.len() as int) == message);
    assert forall|n: int| 0 <= n < message.len() implies next_message(
        known,
        limit,
        #[trigger] message.take(n),
    ) is Part by {
        let part = message.take(n);
        if n >= prefix.len() {
            assert(part.take(prefix.len() as int) == prefix);
            prefix_is_read(marked, metadata.len(), part, prefix);
            if n >= start {
                assert(part.subrange(prefix.len() as int, start as int) == metadata);
            }
        } else if n >= 4 {
            assert(marked);
            assert(part[0] == 0xff && part[1] == 0xff && part[2] == 0xff && part[3] == 0xff);
        }
    }
}

pub(crate) proof fn prefix_is_read(marked: bool, size: nat, body: Seq<u8>, prefix: Seq<u8>)
    requires
        0 < size < 0xffff_ffff,
        prefix == (if marked {
            seq![0xffu8, 0xffu8, 0xffu8, 0xffu8] + word_bytes(size)
        } else {
            word_bytes(size)
        }),
        prefix.len() <= body.len(),
        body.take(prefix.len() as int) == prefix,
    ensures
        prefix_at(body) matches Some(found) && found.len == prefix.len() && found.size == size,
{
    let front = body.take(prefix.len() as int);
    assert(front[0] == body[0] && front[1] == body[1] && front[2] == body[2] && front[3]
        == body[3]);
    if marked {
        assert(body.subrange(4, 8) == word_bytes(size)) by {
            assert(front.subrange(4, 8) == word_bytes(size));
        }
        words_read_back(size, body, 4);
    } else {
        assert(body.subrange(0, 4) == word_bytes(size)) by {
            assert(front.subrange(0, 4) == word_bytes(size));
        }
        words_read_back(size, body, 0);
    }
}

/// The stream ends with a size of zero, with a continuation marker ahead of it or without.
pub proof fn law_the_end_is_found(known: Known, limit: nat, more: Seq<u8>)
    ensures
        next_message(
            known,
            limit,
            seq![0xffu8, 0xffu8, 0xffu8, 0xffu8, 0u8, 0u8, 0u8, 0u8] + more,
        ) == (Found::End { len: 8 }),
        next_message(known, limit, seq![0u8, 0u8, 0u8, 0u8] + more) == (Found::End { len: 4 }),
{
}

/// What a message of each kind comes to: a schema that is read replaces the fields; a sound batch
/// changes nothing; a sound dictionary takes up room; and every other kind is let through.
pub proof fn law_what_a_message_teaches(
    known: Known,
    head: MessageHead,
    metadata: Seq<u8>,
    message: Seq<u8>,
)
    ensures
        ({
            let after = known_after(known, head, metadata, message);
            &&& head.header == 1 ==> match shapes_of(fields_of(metadata), 64) {
                Some(fields) => after == Some(Known { fields, room: known.room }),
                None => after is None,
            }
            &&& head.header == 2 || head.header == 3 ==> match layout_of(metadata) {
                Some(layout) => {
                    let body = Body {
                        layout,
                        version: head.version,
                        message,
                        start: message.len() - head.body_len,
                    };
                    &&& after is Some <==> body.is_sound(known, dictionary_of(metadata))
                    &&& after matches Some(after) ==> after.fields == known.fields && (
                    dictionary_of(metadata) is None ==> after.room == known.room)
                },
                None => after is None,
            }
            &&& head.header == 0 || head.header > 3 ==> after == Some(known)
        }),
{
}

/// The values of a dictionary are sound where they hold a column of the type that the dictionary
/// encodes, for every field that it encodes; and values can be appended to a dictionary of plain
/// values without a limit.
pub proof fn law_values_are_sound(body: Body, known: Known, id: i64, appends: bool)
    requires
        forall|i: int|
            0 <= i < body.layout.buffers.len() ==> {
                let (offset, len) = #[trigger] body.layout.buffers[i];
                0 <= offset && 0 <= len && body.start + offset + len <= body.message.len()
            },
        forall|i: int|
            0 <= i < known.fields.len() && ((#[trigger] known.fields[i]).dictionary matches Some((
                found,
                _,
            )) && found == id) ==> {
                let shape = known.fields[i];
                &&& shape.size == 1
                &&& appends ==> shape.extends
                &&& holds_columns(body, seq![FieldShape { dictionary: None, ..shape }])
            },
    ensures
        body.is_sound(known, Some((id, appends))),
{
    assert forall|i: int|
        0 <= i < known.fields.len() && (#[trigger] known.fields[i]).is_in(
            id,
        ) implies body.fits_values(known, i, appends) by {
        let shape = known.fields[i];
        let values = seq![FieldShape { dictionary: None, ..shape }];
        assert(values_of(known.fields, i) == values);
        columns_fit_from(body, values, 0);
        assert(values.skip(0) == values);
    }
}

/// Values of every plain type can be appended to a dictionary: the types that hold others, nulls
/// and runs of no bytes are the only ones that are counted first.
pub proof fn law_plain_values_extend_a_dictionary(head: FieldHead)
    ensures
        head.extends() <==> !(head.tag == 1 || 12 <= head.tag <= 14 || head.tag == 16 || head.tag
            == 17 || head.tag == 21 || head.tag == 22 || head.tag == 25 || head.tag == 26)
            && (head.tag == 15 ==> (head.width matches Some(width) && width > 0)),
{
}

} // verus!
