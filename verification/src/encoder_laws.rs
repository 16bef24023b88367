//! What the encoders write, and that it is what the framers read: every call of an encoder taken
//! with the items it was given.

use crate::arrow_format::{
    batch_messages, message_bytes, messages_bytes, schema_message, ArrowIpcEncoder,
};
use crate::arrow_ipc_codec::ArrowBatch;
use crate::arrow_metadata::{batch_fits, schema_fits};
use crate::csv_format::{row_handed, row_written, rows, writer_for, CsvEncoder, CsvWriter};
use crate::error::{caused, ErrorSource, StreamError, StreamErrorKind};
use crate::format::{Call, ItemEncoder};
use crate::json_array_codec::start_of_body;
use crate::json_array_laws::{array_text, comma_separated, is_value, law_array_round_trip};
use crate::json_formats::{
    decimal, escape, escaped, string_text, JsonArrayEncoder, JsonNewLineEncoder, JsonText,
};
use crate::json_nl_laws::{is_line, law_lines_round_trip, lines_of, terminated};
use crate::protobuf_format::ProtobufEncoder;
use crate::protobuf_laws::{frames, law_messages_round_trip};
use crate::text_format::TextEncoder;
use arrow::error::ArrowError;
use arrow::ipc::writer::{EncodedData, IpcWriteOptions};
use vstd::prelude::*;
use vstd::utf8::encode_utf8;

verus! {

/// What calls of an encoder wrote, each into a buffer of its own.
pub open spec fn pieces_of<E>(calls: Seq<Call<E>>) -> Seq<Seq<u8>> {
    Seq::new(calls.len(), |i: int| calls[i].buffer_after)
}

/// The texts of items.
pub open spec fn texts_of(items: Seq<JsonText>) -> Seq<Seq<u8>> {
    Seq::new(items.len(), |i: int| items[i].bytes@)
}

/// A text item is written as its own bytes, every one of them and nothing else, whatever it is and
/// wherever it comes; ahead of the first item and behind the last nothing is written.
pub proof fn law_text_is_written_as_it_is(call: Call<TextEncoder>, item: String, index: u64)
    ensures
        TextEncoder::encodes(call, item, index) ==> call.buffer_after == call.buffer
            + encode_utf8(item@) && call.result is Ok,
        <TextEncoder as ItemEncoder<String>>::opens(call) ==> call.buffer_after == call.buffer
            && call.result is Ok,
        <TextEncoder as ItemEncoder<String>>::closes(call) ==> call.buffer_after == call.buffer
            && call.result is Ok,
{
    assert(call.buffer + Seq::<u8>::empty() == call.buffer);
}

/// Whatever strings a body of text is made of, it is the bytes of all of them put together.
pub proof fn law_a_text_body_is_its_items(calls: Seq<Call<TextEncoder>>, items: Seq<String>)
    requires
        calls.len() == items.len() <= u64::MAX,
        forall|i: int|
            0 <= i < items.len() ==> (#[trigger] calls[i]).buffer.len() == 0
                && TextEncoder::encodes(calls[i], items[i], i as u64),
    ensures
        pieces_of(calls).flatten() == encode_utf8(
            Seq::new(items.len(), |i: int| items[i]@).flatten(),
        ),
    decreases items.len(),
{
    let texts = Seq::new(items.len(), |i: int| items[i]@);
    if items.len() > 0 {
        let fewer = calls.drop_last();
        let fewer_items = items.drop_last();
        assert forall|i: int| 0 <= i < fewer_items.len() implies (#[trigger] fewer[i]).buffer.len()
            == 0 && TextEncoder::encodes(fewer[i], fewer_items[i], i as u64) by {
            assert(fewer[i] == calls[i] && fewer_items[i] == items[i]);
        }
        law_a_text_body_is_its_items(fewer, fewer_items);
        let last = calls.last();
        assert(calls[calls.len() - 1].buffer.len() == 0);
        assert(last.buffer_after == encode_utf8(items.last()@));
        assert(pieces_of(calls) == pieces_of(fewer).push(last.buffer_after));
        pieces_of(fewer).lemma_flatten_push(last.buffer_after);
        let fewer_texts = Seq::new(fewer_items.len(), |i: int| fewer_items[i]@);
        assert(texts == fewer_texts.push(items.last()@));
        fewer_texts.lemma_flatten_push(items.last()@);
        crate::text_format::law_text_adds_up(fewer_texts.flatten(), items.last()@);
    } else {
        assert(pieces_of(calls) == Seq::<Seq<u8>>::empty());
        assert(texts == Seq::<Seq<char>>::empty());
    }
}

/// Every JSON item is written as its own text and a line feed behind it, be it an object or not;
/// where serialising failed, what was serialised is written without one, and the failure
/// reported. Ahead of the first item and behind the last nothing is written.
pub proof fn law_json_lines_are_terminated(
    call: Call<JsonNewLineEncoder>,
    item: JsonText,
    index: u64,
)
    ensures
        JsonNewLineEncoder::encodes(call, item, index) ==> match item.outcome {
            Ok(_) => call.buffer_after == call.buffer + item.bytes@ + seq![0x0au8]
                && call.result is Ok,
            Err(err) => {
                &&& call.buffer_after == call.buffer + item.bytes@
                &&& call.result matches Err(error)
                &&& error@.kind == StreamErrorKind::CodecError
                &&& error@.source == Some(ErrorSource::Json(err))
                &&& error@.message is None
            },
        },
        <JsonNewLineEncoder as ItemEncoder<JsonText>>::opens(call) ==> call.buffer_after
            == call.buffer && call.result is Ok,
        <JsonNewLineEncoder as ItemEncoder<JsonText>>::closes(call) ==> call.buffer_after
            == call.buffer && call.result is Ok,
{
    assert(call.buffer + Seq::<u8>::empty() == call.buffer);
    assert(call.buffer + item.bytes@ + Seq::<u8>::empty() == call.buffer + item.bytes@);
}

/// Whatever JSON texts are encoded as lines, those lines are read back, however the body is cut
/// into chunks on the way.
pub proof fn law_encoded_lines_read_back(
    calls: Seq<Call<JsonNewLineEncoder>>,
    items: Seq<JsonText>,
    chunks: Seq<Seq<u8>>,
    limit: nat,
)
    requires
        calls.len() == items.len() <= u64::MAX,
        forall|i: int|
            0 <= i < items.len() ==> {
                &&& (#[trigger] calls[i]).buffer.len() == 0
                &&& JsonNewLineEncoder::encodes(calls[i], items[i], i as u64)
                &&& items[i].outcome is Ok
                &&& is_line(items[i].bytes@)
                &&& items[i].bytes@.len() <= limit
            },
        chunks.flatten() == pieces_of(calls).flatten(),
    ensures
        lines_of(limit, chunks) == (texts_of(items), false),
{
    lines_are_written(calls, items);
    let texts = texts_of(items);
    assert forall|i: int| 0 <= i < texts.len() implies is_line(#[trigger] texts[i])
        && texts[i].len() <= limit by {
        assert(calls[i].buffer.len() == 0);
    }
    law_lines_round_trip(limit, texts, chunks);
}

proof fn lines_are_written(calls: Seq<Call<JsonNewLineEncoder>>, items: Seq<JsonText>)
    requires
        calls.len() == items.len() <= u64::MAX,
        forall|i: int|
            0 <= i < items.len() ==> {
                &&& (#[trigger] calls[i]).buffer.len() == 0
                &&& calls[i].buffer_after == calls[i].buffer + items[i].bytes@ + seq![0x0au8]
            },
    ensures
        pieces_of(calls).flatten() == terminated(texts_of(items)),
    decreases items.len(),
{
    let pieces = pieces_of(calls);
    let texts = texts_of(items);
    if items.len() > 0 {
        let later = calls.drop_first();
        let rest = items.drop_first();
        assert forall|i: int| 0 <= i < rest.len() implies {
            &&& (#[trigger] later[i]).buffer.len() == 0
            &&& later[i].buffer_after == later[i].buffer + rest[i].bytes@ + seq![0x0au8]
        } by {
            assert(later[i] == calls[i + 1] && rest[i] == items[i + 1]);
        }
        lines_are_written(later, rest);
        assert(calls[0].buffer.len() == 0);
        assert(pieces[0] == texts[0] + seq![0x0au8]);
        assert(pieces.drop_first() == pieces_of(later));
        assert(texts.drop_first() == texts_of(rest));
        assert(pieces.flatten() == pieces[0] + pieces.drop_first().flatten());
    }
}

/// An item of a JSON array is written as its own text, with a comma ahead of it unless it is the
/// first; where serialising failed, what was serialised is written, and the failure reported.
pub proof fn law_array_items_are_separated(
    call: Call<JsonArrayEncoder>,
    item: JsonText,
    index: u64,
)
    requires
        JsonArrayEncoder::encodes(call, item, index),
    ensures
        index == 0 ==> call.buffer_after == call.buffer + item.bytes@,
        index > 0 ==> call.buffer_after == call.buffer + seq![0x2cu8] + item.bytes@,
        match item.outcome {
            Ok(_) => call.result is Ok,
            Err(err) => {
                &&& call.result matches Err(error)
                &&& error@.kind == StreamErrorKind::CodecError
                &&& error@.source == Some(ErrorSource::Json(err))
                &&& error@.message is None
            },
        },
        call.encoder_after == call.encoder,
{
    assert(call.buffer + Seq::<u8>::empty() + item.bytes@ == call.buffer + item.bytes@);
}

/// A bare array begins with `[` and ends with `]`.
pub proof fn law_a_bare_array_is_bracketed(call: Call<JsonArrayEncoder>)
    requires
        call.encoder.is_bare(),
    ensures
        <JsonArrayEncoder as ItemEncoder<JsonText>>::opens(call) ==> call.buffer_after
            == call.buffer + seq![0x5bu8] && call.result is Ok && call.encoder_after.is_bare(),
        <JsonArrayEncoder as ItemEncoder<JsonText>>::closes(call) ==> call.buffer_after
            == call.buffer + seq![0x5du8] && call.result is Ok,
{
}

proof fn values_are_written(calls: Seq<Call<JsonArrayEncoder>>, items: Seq<JsonText>, first: nat)
    requires
        calls.len() == items.len(),
        first + items.len() <= u64::MAX,
        forall|i: int|
            0 <= i < items.len() ==> {
                &&& (#[trigger] calls[i]).buffer.len() == 0
                &&& calls[i].buffer_after == (if first + i == 0 {
                    items[i].bytes@
                } else {
                    seq![0x2cu8] + items[i].bytes@
                })
            },
    ensures
        pieces_of(calls).flatten() == (if first == 0 || items.len() == 0 {
            comma_separated(texts_of(items))
        } else {
            seq![0x2cu8] + comma_separated(texts_of(items))
        }),
    decreases items.len(),
{
    let pieces = pieces_of(calls);
    let texts = texts_of(items);
    if items.len() > 0 {
        let later = calls.drop_first();
        let rest = items.drop_first();
        assert forall|i: int| 0 <= i < rest.len() implies {
            &&& (#[trigger] later[i]).buffer.len() == 0
            &&& later[i].buffer_after == (if first + 1 + i == 0 {
                rest[i].bytes@
            } else {
                seq![0x2cu8] + rest[i].bytes@
            })
        } by {
            assert(later[i] == calls[i + 1] && rest[i] == items[i + 1]);
        }
        values_are_written(later, rest, first + 1);
        assert(calls[0].buffer.len() == 0);
        assert(pieces.drop_first() == pieces_of(later));
        assert(texts.drop_first() == texts_of(rest));
        assert(pieces.flatten() == pieces[0] + pieces.drop_first().flatten());
        if rest.len() == 0 {
            assert(comma_separated(texts) == texts[0]);
        }
        if first == 0 {
            assert(pieces.flatten() == comma_separated(texts));
        } else {
            assert(pieces.flatten() == seq![0x2cu8] + comma_separated(texts));
        }
    }
}

/// Whatever JSON texts are encoded as a bare array, those values are read back, however the body
/// is cut into chunks on the way.
pub proof fn law_encoded_arrays_read_back(
    opening: Call<JsonArrayEncoder>,
    calls: Seq<Call<JsonArrayEncoder>>,
    closing: Call<JsonArrayEncoder>,
    items: Seq<JsonText>,
    chunks: Seq<Seq<u8>>,
    limit: int,
)
    requires
        opening.encoder.is_bare() && opening.buffer.len() == 0,
        <JsonArrayEncoder as ItemEncoder<JsonText>>::opens(opening),
        calls.len() == items.len() <= u64::MAX,
        forall|i: int|
            0 <= i < items.len() ==> {
                &&& (#[trigger] calls[i]).buffer.len() == 0
                &&& JsonArrayEncoder::encodes(calls[i], items[i], i as u64)
                &&& items[i].outcome is Ok
                &&& is_value(items[i].bytes@)
                &&& items[i].bytes@.len() <= limit
            },
        closing.encoder.is_bare() && closing.buffer.len() == 0,
        <JsonArrayEncoder as ItemEncoder<JsonText>>::closes(closing),
        chunks.flatten() == opening.buffer_after + pieces_of(calls).flatten()
            + closing.buffer_after,
        0 <= limit,
    ensures
        crate::json_array_laws::feed(start_of_body(), 0, seq![], chunks, limit).elements
            == texts_of(items),
        crate::json_array_laws::feed(start_of_body(), 0, seq![], chunks, limit).failed is None,
{
    law_a_bare_array_is_bracketed(opening);
    law_a_bare_array_is_bracketed(closing);
    assert(opening.buffer_after == seq![0x5bu8]);
    assert(closing.buffer_after == seq![0x5du8]);
    assert forall|i: int| 0 <= i < items.len() implies {
        &&& (#[trigger] calls[i]).buffer.len() == 0
        &&& calls[i].buffer_after == (if 0 + i == 0 {
            items[i].bytes@
        } else {
            seq![0x2cu8] + items[i].bytes@
        })
    } by {
        law_array_items_are_separated(calls[i], items[i], i as u64);
        assert(calls[i].buffer + seq![0x2cu8] + items[i].bytes@ == seq![0x2cu8]
            + items[i].bytes@);
        assert(calls[i].buffer + items[i].bytes@ == items[i].bytes@);
    }
    values_are_written(calls, items, 0);
    let texts = texts_of(items);
    assert(chunks.flatten() == array_text(texts));
    assert forall|i: int| 0 <= i < texts.len() implies is_value(#[trigger] texts[i])
        && texts[i].len() <= limit by {
        assert(calls[i].buffer.len() == 0);
    }
    law_array_round_trip(texts, chunks, limit);
}

/// Whatever messages are encoded, those messages are read back, however the body is cut into
/// chunks on the way. Ahead of the first and behind the last nothing is written.
pub proof fn law_encoded_messages_read_back(
    calls: Seq<Call<ProtobufEncoder>>,
    items: Seq<Vec<u8>>,
    chunks: Seq<Seq<u8>>,
    limit: int,
)
    requires
        calls.len() == items.len() <= u64::MAX,
        limit <= usize::MAX,
        forall|i: int|
            0 <= i < items.len() ==> {
                &&& (#[trigger] calls[i]).buffer.len() == 0
                &&& ProtobufEncoder::encodes(calls[i], items[i], i as u64)
                &&& items[i]@.len() <= limit
            },
        chunks.flatten() == pieces_of(calls).flatten(),
    ensures
        crate::protobuf_laws::feed(None, seq![], chunks, limit).messages == Seq::new(
            items.len(),
            |i: int| items[i]@,
        ),
        crate::protobuf_laws::feed(None, seq![], chunks, limit).failed is None,
        forall|call: Call<ProtobufEncoder>|
            (#[trigger] <ProtobufEncoder as ItemEncoder<Vec<u8>>>::opens(call)
                || <ProtobufEncoder as ItemEncoder<Vec<u8>>>::closes(call)) ==> call.buffer_after
                == call.buffer && call.result is Ok,
{
    messages_are_written(calls, items);
    let messages = Seq::new(items.len(), |i: int| items[i]@);
    assert forall|i: int| 0 <= i < messages.len() implies (#[trigger] messages[i]).len()
        <= limit by {
        assert(calls[i].buffer.len() == 0);
    }
    law_messages_round_trip(messages, chunks, limit);
    assert forall|call: Call<ProtobufEncoder>|
        (#[trigger] <ProtobufEncoder as ItemEncoder<Vec<u8>>>::opens(call)
            || <ProtobufEncoder as ItemEncoder<Vec<u8>>>::closes(call)) implies call.buffer_after
        == call.buffer && call.result is Ok by {
        assert(call.buffer + Seq::<u8>::empty() == call.buffer);
    }
}

proof fn messages_are_written(calls: Seq<Call<ProtobufEncoder>>, items: Seq<Vec<u8>>)
    requires
        calls.len() == items.len() <= u64::MAX,
        forall|i: int|
            0 <= i < items.len() ==> {
                &&& (#[trigger] calls[i]).buffer.len() == 0
                &&& exists|index: u64| ProtobufEncoder::encodes(calls[i], items[i], index)
            },
    ensures
        pieces_of(calls).flatten() == frames(Seq::new(items.len(), |i: int| items[i]@)),
    decreases items.len(),
{
    let pieces = pieces_of(calls);
    let messages = Seq::new(items.len(), |i: int| items[i]@);
    if items.len() > 0 {
        let later = calls.drop_first();
        let rest = items.drop_first();
        assert forall|i: int| 0 <= i < rest.len() implies {
            &&& (#[trigger] later[i]).buffer.len() == 0
            &&& exists|index: u64| ProtobufEncoder::encodes(later[i], rest[i], index)
        } by {
            assert(later[i] == calls[i + 1] && rest[i] == items[i + 1]);
        }
        messages_are_written(later, rest);
        assert(calls[0].buffer.len() == 0);
        assert(pieces[0] == crate::protobuf_format::framed(messages[0]));
        assert(pieces.drop_first() == pieces_of(later));
        assert(messages.drop_first() == Seq::new(rest.len(), |i: int| rest[i]@));
        assert(pieces.flatten() == pieces[0] + pieces.drop_first().flatten());
    }
}

/// A row is written as what the writer that it was handed to holds then, and nothing else; that
/// writer writes a header for the first row alone, and only where headers are asked for. A row
/// that cannot be written leaves the body as it was, and the failure is reported.
pub proof fn law_rows_are_handed_to_a_writer<R: FnOnce(CsvWriter) -> Result<CsvWriter, csv::Error>>(
    call: Call<CsvEncoder>,
    item: R,
    index: u64,
    writer: CsvWriter,
)
    requires
        <CsvEncoder as ItemEncoder<R>>::encodes(call, item, index),
        writer == writer_for(call.encoder@, index == 0 && call.encoder@.has_headers),
    ensures
        exists|outcome: Result<CsvWriter, csv::Error>| #[trigger]
            call_ensures(item, (writer,), outcome) && match outcome {
                Ok(written) => call.buffer_after == call.buffer + rows(written)
                    && call.result is Ok,
                Err(err) => {
                    &&& call.buffer_after == call.buffer
                    &&& call.result matches Err(error)
                    &&& error@ == caused(StreamErrorKind::CodecError, ErrorSource::Csv(err))
                },
            },
        call.encoder_after == call.encoder,
        forall|other: Call<CsvEncoder>|
            (#[trigger] <CsvEncoder as ItemEncoder<R>>::opens(other) || <CsvEncoder as ItemEncoder<
                R,
            >>::closes(other)) ==> other.buffer_after == other.buffer && other.result is Ok,
{
    assert(row_handed(item, writer, call));
    let outcome = choose|outcome: Result<CsvWriter, csv::Error>| #[trigger]
        call_ensures(item, (writer,), outcome) && row_written(call, outcome);
    assert(call_ensures(item, (writer,), outcome) && row_written(call, outcome));
    assert forall|other: Call<CsvEncoder>|
        (#[trigger] <CsvEncoder as ItemEncoder<R>>::opens(other) || <CsvEncoder as ItemEncoder<
            R,
        >>::closes(other)) implies other.buffer_after == other.buffer && other.result is Ok by {
        assert(other.buffer + Seq::<u8>::empty() == other.buffer);
    }
}

/// The byte that a JSON string begins with, once its escapes are undone, and how many bytes it takes
/// there; nothing where no JSON string can begin like that.
pub open spec fn unescaped_first(text: Seq<u8>) -> Option<(u8, int)> {
    if text.len() == 0 || text[0] == 0x22 || text[0] < 0x20 {
        None
    } else if text[0] != 0x5c {
        Some((text[0], 1))
    } else if text.len() < 2 {
        None
    } else if text[1] == 0x22 {
        Some((0x22, 2))
    } else if text[1] == 0x5c {
        Some((0x5c, 2))
    } else if text[1] == 0x2f {
        Some((0x2f, 2))
    } else if text[1] == 0x62 {
        Some((0x08, 2))
    } else if text[1] == 0x66 {
        Some((0x0c, 2))
    } else if text[1] == 0x6e {
        Some((0x0a, 2))
    } else if text[1] == 0x72 {
        Some((0x0d, 2))
    } else if text[1] == 0x74 {
        Some((0x09, 2))
    } else if text[1] == 0x75 && text.len() >= 6 && text[2] == 0x30 && text[3] == 0x30 && (text[4]
        == 0x30 || text[4] == 0x31) {
        if 0x30 <= text[5] <= 0x39 {
            Some(((16 * (text[4] - 0x30) + text[5] - 0x30) as u8, 6))
        } else if 0x61 <= text[5] <= 0x66 {
            Some(((16 * (text[4] - 0x30) + text[5] - 0x57) as u8, 6))
        } else {
            None
        }
    } else {
        None
    }
}

/// What stands in a JSON string, once its escapes are undone; nothing where it is no JSON string.
pub open spec fn unescaped(text: Seq<u8>) -> Option<Seq<u8>>
    decreases text.len(),
{
    if text.len() == 0 {
        Some(seq![])
    } else {
        match unescaped_first(text) {
            Some((b, used)) => if 0 < used <= text.len() {
                match unescaped(text.skip(used)) {
                    Some(rest) => Some(seq![b] + rest),
                    None => None,
                }
            } else {
                None
            },
            None => None,
        }
    }
}

proof fn escaped_in_parts(first: Seq<u8>, second: Seq<u8>)
    ensures
        escaped(first + second) == escaped(first) + escaped(second),
    decreases second.len(),
{
    if second.len() == 0 {
        assert(first + second == first);
        assert(escaped(first) + escaped(second) == escaped(first));
    } else {
        assert((first + second).drop_last() == first + second.drop_last());
        escaped_in_parts(first, second.drop_last());
        assert(escaped(first) + (escaped(second.drop_last()) + escape(second.last())) == (escaped(
            first,
        ) + escaped(second.drop_last())) + escape(second.last()));
    }
}

/// Whatever bytes a JSON string is made of, undoing its escapes gives those bytes back; and none of
/// the bytes that it is written with are control characters.
pub proof fn law_escapes_are_undone(bytes: Seq<u8>)
    ensures
        unescaped(escaped(bytes)) == Some(bytes),
    decreases bytes.len(),
{
    if bytes.len() > 0 {
        let b = bytes[0];
        let rest = bytes.drop_first();
        let first = escape(b);
        assert(bytes == seq![b] + rest);
        escaped_in_parts(seq![b], rest);
        reveal_with_fuel(escaped, 2);
        assert(seq![b].drop_last() == Seq::<u8>::empty());
        assert(escaped(seq![b]) == first);
        let text = escaped(bytes);
        assert(text == first + escaped(rest));
        assert(text[0] == first[0]);
        if first.len() > 1 {
            assert(text[1] == first[1]);
        }
        if first.len() > 2 {
            assert(text[2] == first[2] && text[3] == first[3] && text[4] == first[4] && text[5]
                == first[5]);
        }
        assert(unescaped_first(text) == Some((b, first.len() as int)));
        assert(text.skip(first.len() as int) == escaped(rest));
        law_escapes_are_undone(rest);
    }
}

/// The name of a field is written between quotes, as a JSON string that reads back as that name.
pub proof fn law_field_names_read_back(name: Seq<char>)
    ensures
        ({
            let text = string_text(name);
            &&& text.len() >= 2
            &&& text[0] == 0x22
            &&& text.last() == 0x22
            &&& unescaped(text.subrange(1, text.len() - 1)) == Some(encode_utf8(name))
        }),
{
    let text = string_text(name);
    law_escapes_are_undone(encode_utf8(name));
    assert(text.subrange(1, text.len() - 1) == escaped(encode_utf8(name)));
}

/// An array in an envelope begins with the object, open at its end, a comma where the object has
/// fields, the name of the array, a colon and `[`; it ends with `]}`.
pub proof fn law_an_envelope_is_opened_and_closed(
    call: Call<JsonArrayEncoder>,
    object: Vec<u8>,
    name: Seq<char>,
)
    requires
        call.encoder.wraps(Ok::<Vec<u8>, serde_json::Error>(object), name),
        object@.len() >= 2,
        object@[0] == 0x7b,
    ensures
        <JsonArrayEncoder as ItemEncoder<JsonText>>::opens(call) ==> {
            &&& call.result is Ok
            &&& call.encoder_after == call.encoder
            &&& object@.len() == 2 ==> call.buffer_after == call.buffer + seq![0x7bu8]
                + string_text(name) + seq![0x3au8, 0x5bu8]
            &&& object@.len() > 2 ==> call.buffer_after == call.buffer + object@.drop_last()
                + seq![0x2cu8] + string_text(name) + seq![0x3au8, 0x5bu8]
        },
        <JsonArrayEncoder as ItemEncoder<JsonText>>::closes(call) ==> call.result is Ok
            && call.buffer_after == call.buffer + seq![0x5du8, 0x7du8],
{
    if object@.len() == 2 {
        assert(object@.drop_last() == seq![0x7bu8]);
        assert(call.buffer + (seq![0x7bu8] + Seq::<u8>::empty() + string_text(name) + seq![
            0x3au8,
            0x5bu8,
        ]) == call.buffer + seq![0x7bu8] + string_text(name) + seq![0x3au8, 0x5bu8]);
    } else {
        assert(call.buffer + (object@.drop_last() + seq![0x2cu8] + string_text(name) + seq![
            0x3au8,
            0x5bu8,
        ]) == call.buffer + object@.drop_last() + seq![0x2cu8] + string_text(name) + seq![
            0x3au8,
            0x5bu8,
        ]);
    }
}

/// An envelope that could not be serialised, or is no object, is reported by the prologue as a
/// codec error, and nothing is written.
pub proof fn law_a_bad_envelope_is_reported(
    call: Call<JsonArrayEncoder>,
    object: Result<Vec<u8>, serde_json::Error>,
    name: Seq<char>,
)
    requires
        call.encoder.wraps(object, name),
        <JsonArrayEncoder as ItemEncoder<JsonText>>::opens(call),
        object matches Ok(bytes) ==> bytes@.len() < 2 || bytes@[0] != 0x7b,
    ensures
        call.buffer_after == call.buffer,
        call.result matches Err(error) && error@.kind == StreamErrorKind::CodecError && match object {
            Ok(_) => error@.source is None && error@.message is Some,
            Err(err) => error@.source == Some(ErrorSource::Json(err)),
        },
{
}

/// The bytes of messages.
pub open spec fn bytes_of_messages(
    messages: Seq<EncodedData>,
    options: IpcWriteOptions,
) -> Seq<Seq<u8>> {
    Seq::new(messages.len(), |i: int| message_bytes(messages[i], options).bytes)
}

proof fn messages_are_put_together(messages: Seq<EncodedData>, options: IpcWriteOptions)
    requires
        messages_bytes(messages, options).error is None,
    ensures
        messages_bytes(messages, options).bytes == bytes_of_messages(messages, options).flatten(),
        forall|i: int|
            0 <= i < messages.len() ==> message_bytes(#[trigger] messages[i], options).error is None,
    decreases messages.len(),
{
    if messages.len() > 0 {
        let fewer = messages.drop_last();
        messages_are_put_together(fewer, options);
        let last = message_bytes(messages.last(), options).bytes;
        assert(bytes_of_messages(messages, options) == bytes_of_messages(fewer, options).push(
            last,
        ));
        bytes_of_messages(fewer, options).lemma_flatten_push(last);
        assert forall|i: int| 0 <= i < messages.len() implies message_bytes(
            #[trigger] messages[i],
            options,
        ).error is None by {
            if i < fewer.len() {
                assert(messages[i] == fewer[i]);
            }
        }
    } else {
        assert(bytes_of_messages(messages, options) == Seq::<Seq<u8>>::empty());
    }
}

/// A batch that is written is written as the messages that `arrow` makes of it, every dictionary
/// ahead of the batch, and ahead of the first batch alone the message of the schema.
pub proof fn law_batches_are_written_behind_the_schema(
    call: Call<ArrowIpcEncoder>,
    item: ArrowBatch,
    index: u64,
)
    requires
        ArrowIpcEncoder::encodes(call, item, index),
        call.result is Ok,
    ensures
        ({
            let options = call.encoder@.options;
            let schema = schema_message(call.encoder@.schema, call.encoder@.tracker, options);
            let tracker = if index == 0 {
                schema.tracker
            } else {
                call.encoder@.tracker
            };
            let made = batch_messages(item, tracker, options);
            &&& call.encoder_after@.schema == call.encoder@.schema
            &&& call.encoder_after@.options == options
            &&& call.encoder_after@.tracker == made.tracker
            &&& made.messages matches Ok((dictionaries, batch))
            &&& call.buffer_after == call.buffer + (if index == 0 {
                message_bytes(schema.message, options).bytes
            } else {
                seq![]
            }) + bytes_of_messages(dictionaries, options).flatten() + message_bytes(
                batch,
                options,
            ).bytes
        }),
{
    let options = call.encoder@.options;
    let opening = call.encoder@.opening(index);
    let made = batch_messages(item, opening.tracker, options);
    if let Ok((dictionaries, batch)) = made.messages {
        let all = dictionaries.push(batch);
        messages_are_put_together(all, options);
        assert(bytes_of_messages(all, options) == bytes_of_messages(dictionaries, options).push(
            message_bytes(batch, options).bytes,
        ));
        bytes_of_messages(dictionaries, options).lemma_flatten_push(
            message_bytes(batch, options).bytes,
        );
        assert(call.buffer_after == call.buffer + opening.bytes + bytes_of_messages(
            dictionaries,
            options,
        ).flatten() + message_bytes(batch, options).bytes);
    }
}

/// A batch whose metadata fit, and which `arrow` makes messages of that it can write, is written.
pub proof fn law_a_batch_that_can_be_written_is(
    call: Call<ArrowIpcEncoder>,
    item: ArrowBatch,
    index: u64,
    dictionaries: Seq<EncodedData>,
    batch: EncodedData,
)
    requires
        ArrowIpcEncoder::encodes(call, item, index),
        batch_fits(item),
        ({
            let options = call.encoder@.options;
            let schema = schema_message(call.encoder@.schema, call.encoder@.tracker, options);
            let tracker = if index == 0 {
                schema.tracker
            } else {
                call.encoder@.tracker
            };
            &&& index == 0 ==> schema_fits(call.encoder@.schema) && message_bytes(
                schema.message,
                options,
            ).error is None
            &&& batch_messages(item, tracker, options).messages == Ok::<_, ArrowError>(
                (dictionaries, batch),
            )
        }),
        message_bytes(batch, call.encoder@.options).error is None,
        forall|i: int|
            0 <= i < dictionaries.len() ==> message_bytes(
                #[trigger] dictionaries[i],
                call.encoder@.options,
            ).error is None,
    ensures
        call.result is Ok,
{
    let options = call.encoder@.options;
    let all = dictionaries.push(batch);
    assert forall|i: int| 0 <= i < all.len() implies message_bytes(
        #[trigger] all[i],
        options,
    ).error is None by {
        if i < dictionaries.len() {
            assert(all[i] == dictionaries[i]);
        }
    }
    all_can_be_written(all, options);
}

proof fn all_can_be_written(messages: Seq<EncodedData>, options: IpcWriteOptions)
    requires
        forall|i: int|
            0 <= i < messages.len() ==> message_bytes(#[trigger] messages[i], options).error is None,
    ensures
        messages_bytes(messages, options).error is None,
    decreases messages.len(),
{
    if messages.len() > 0 {
        let fewer = messages.drop_last();
        assert forall|i: int| 0 <= i < fewer.len() implies message_bytes(
            #[trigger] fewer[i],
            options,
        ).error is None by {
            assert(fewer[i] == messages[i]);
        }
        all_can_be_written(fewer, options);
        assert(messages[messages.len() - 1] == messages.last());
    }
}

/// An Arrow IPC stream ends with a continuation marker and a length of zero; ahead of the first
/// batch nothing is written that does not belong to it.
pub proof fn law_an_arrow_stream_is_terminated(call: Call<ArrowIpcEncoder>)
    ensures
        <ArrowIpcEncoder as ItemEncoder<ArrowBatch>>::closes(call) ==> call.result is Ok
            && call.buffer_after == call.buffer + seq![
            0xffu8,
            0xffu8,
            0xffu8,
            0xffu8,
            0u8,
            0u8,
            0u8,
            0u8,
        ],
        <ArrowIpcEncoder as ItemEncoder<ArrowBatch>>::opens(call) ==> call.result is Ok
            && call.buffer_after == call.buffer,
{
    assert(call.buffer + Seq::<u8>::empty() == call.buffer);
}

/// Quotes and backslashes are escaped by a backslash, the control characters that have a short form by
/// that, the others by their number in four hexadecimal digits of lower case, and nothing else is.
pub proof fn law_which_bytes_are_escaped(b: u8)
    ensures
        b == 0x22 || b == 0x5c ==> escape(b) == seq![0x5cu8, b],
        b == 0x08 ==> escape(b) == seq![0x5cu8, 0x62u8],
        b == 0x09 ==> escape(b) == seq![0x5cu8, 0x74u8],
        b == 0x0a ==> escape(b) == seq![0x5cu8, 0x6eu8],
        b == 0x0c ==> escape(b) == seq![0x5cu8, 0x66u8],
        b == 0x0d ==> escape(b) == seq![0x5cu8, 0x72u8],
        b < 0x20 && b != 0x08 && b != 0x09 && b != 0x0a && b != 0x0c && b != 0x0d ==> escape(b).take(
            4,
        ) == seq![0x5cu8, 0x75u8, 0x30u8, 0x30u8] && escape(b).len() == 6,
        b >= 0x20 && b != 0x22 && b != 0x5c ==> escape(b) == seq![b],
{
    if b < 0x20 && b != 0x08 && b != 0x09 && b != 0x0a && b != 0x0c && b != 0x0d {
        assert(escape(b).take(4) == seq![0x5cu8, 0x75u8, 0x30u8, 0x30u8]);
    }
}

/// The digit that a character is.
pub open spec fn digit_of(c: char) -> int {
    c as u32 - 0x30
}

/// A byte is told in decimal: its digits add up to it, and the first of several is not zero.
pub proof fn law_bytes_are_told_in_decimal(b: u8)
    ensures
        ({
            let text = decimal(b as nat);
            &&& forall|i: int| 0 <= i < text.len() ==> 0 <= digit_of(#[trigger] text[i]) <= 9
            &&& b < 10 ==> text.len() == 1 && digit_of(text[0]) == b
            &&& 10 <= b < 100 ==> text.len() == 2 && 10 * digit_of(text[0]) + digit_of(text[1]) == b
            &&& 100 <= b ==> text.len() == 3 && 100 * digit_of(text[0]) + 10 * digit_of(text[1])
                + digit_of(text[2]) == b
        }),
{
    reveal_strlit("0123456789");
    reveal_with_fuel(decimal, 3);
    let text = decimal(b as nat);
    let digits = "0123456789"@;
    assert(forall|d: int| 0 <= d < 10 ==> digit_of(#[trigger] digits[d]) == d);
    if b >= 100 {
        assert(text == seq![
            digits[b as int / 10 / 10],
            digits[(b as int / 10) % 10],
            digits[b as int % 10],
        ]);
    } else if b >= 10 {
        assert(text == seq![digits[b as int / 10], digits[b as int % 10]]);
    }
}

/// An envelope that is one byte long is told of by that byte in decimal between brackets.
pub proof fn law_a_short_envelope_is_told(
    call: Call<JsonArrayEncoder>,
    object: Vec<u8>,
    name: Seq<char>,
)
    requires
        call.encoder.wraps(Ok::<Vec<u8>, serde_json::Error>(object), name),
        <JsonArrayEncoder as ItemEncoder<JsonText>>::opens(call),
        object@.len() == 1,
    ensures
        call.result matches Err(error) && error@.message == Some(
            "Too short envelope: ["@ + decimal(object@[0] as nat) + "]"@,
        ),
{
}

/// A failed prologue hands its error over once; after that it still fails.
pub proof fn law_a_failed_prologue_stays_failed(
    first: Call<JsonArrayEncoder>,
    second: Call<JsonArrayEncoder>,
)
    requires
        <JsonArrayEncoder as ItemEncoder<JsonText>>::opens(first),
        <JsonArrayEncoder as ItemEncoder<JsonText>>::opens(second),
        first.result is Err,
        second.encoder == first.encoder_after,
    ensures
        second.buffer_after == second.buffer,
        second.result matches Err(error) && error@.kind == StreamErrorKind::CodecError
            && error@.source is None && error@.message == Some("Bad envelope"@),
{
}

/// A schema or a batch that does not fit into a message is refused before anything of it is written,
/// and so is a batch that `arrow` makes no messages of.
pub proof fn law_a_batch_that_cannot_be_made(
    call: Call<ArrowIpcEncoder>,
    item: ArrowBatch,
    index: u64,
)
    requires
        ArrowIpcEncoder::encodes(call, item, index),
    ensures
        ({
            let options = call.encoder@.options;
            let schema = schema_message(call.encoder@.schema, call.encoder@.tracker, options);
            let opening = message_bytes(schema.message, options);
            let tracker = if index == 0 {
                schema.tracker
            } else {
                call.encoder@.tracker
            };
            let front = call.buffer + if index == 0 {
                opening.bytes
            } else {
                seq![]
            };
            let fits = index == 0 ==> schema_fits(call.encoder@.schema);
            let begun = index == 0 ==> opening.error is None;
            &&& !fits ==> {
                &&& call.buffer_after == call.buffer
                &&& is_too_long(call.result)
            }
            &&& fits && !begun ==> {
                &&& call.buffer_after == front
                &&& is_arrows(call.result, opening.error->Some_0)
            }
            &&& fits && begun && !batch_fits(item) ==> {
                &&& call.buffer_after == front
                &&& is_too_long(call.result)
            }
            &&& fits && begun && batch_fits(item) ==> (batch_messages(
                item,
                tracker,
                options,
            ).messages matches Err(error) ==> {
                &&& call.buffer_after == front
                &&& is_arrows(call.result, error)
            })
        }),
{
    assert(call.buffer + Seq::<u8>::empty() == call.buffer);
}

/// Whether it is reported that metadata are too long for a message.
pub open spec fn is_too_long(result: Result<(), StreamError>) -> bool {
    &&& result matches Err(error)
    &&& error@.kind == StreamErrorKind::CodecError
    &&& error@.source is None
    &&& error@.message == Some("Arrow IPC metadata too long"@)
}

/// Whether a failure of `arrow` is reported, as a codec error.
pub open spec fn is_arrows(result: Result<(), StreamError>, failure: ArrowError) -> bool {
    &&& result matches Err(error)
    &&& error@.kind == StreamErrorKind::CodecError
    &&& error@.source == Some(ErrorSource::Arrow(failure))
    &&& error@.message is None
}

/// Of messages that cannot all be written, those ahead of the first that fails are, and what was written
/// of that; the failure is reported, and the messages behind it are not written.
pub proof fn law_writing_stops_at_a_failure(
    messages: Seq<EncodedData>,
    n: int,
    options: IpcWriteOptions,
)
    requires
        0 <= n < messages.len(),
        forall|i: int|
            0 <= i < n ==> message_bytes(#[trigger] messages[i], options).error is None,
        message_bytes(messages[n], options).error is Some,
    ensures
        messages_bytes(messages, options).error == message_bytes(messages[n], options).error,
        messages_bytes(messages, options).bytes == bytes_of_messages(
            messages.take(n),
            options,
        ).flatten() + message_bytes(messages[n], options).bytes,
    decreases messages.len(),
{
    let fewer = messages.drop_last();
    if n + 1 < messages.len() {
        assert forall|i: int| 0 <= i < n implies message_bytes(
            #[trigger] fewer[i],
            options,
        ).error is None by {
            assert(fewer[i] == messages[i]);
        }
        assert(fewer[n] == messages[n]);
        assert(fewer.take(n) == messages.take(n));
        law_writing_stops_at_a_failure(fewer, n, options);
    } else {
        assert(fewer == messages.take(n));
        assert forall|i: int| 0 <= i < fewer.len() implies message_bytes(
            #[trigger] fewer[i],
            options,
        ).error is None by {
            assert(fewer[i] == messages[i]);
        }
        all_can_be_written(fewer, options);
        messages_are_put_together(fewer, options);
        assert(messages[messages.len() - 1] == messages.last());
    }
}

/// A batch one of whose messages cannot be written leaves those ahead of it in the body, and what was
/// written of that one.
pub proof fn law_a_batch_written_in_part(
    call: Call<ArrowIpcEncoder>,
    item: ArrowBatch,
    index: u64,
    dictionaries: Seq<EncodedData>,
    batch: EncodedData,
    n: int,
)
    requires
        ArrowIpcEncoder::encodes(call, item, index),
        index > 0,
        batch_fits(item),
        batch_messages(item, call.encoder@.tracker, call.encoder@.options).messages == Ok::<
            _,
            ArrowError,
        >((dictionaries, batch)),
        0 <= n <= dictionaries.len(),
        forall|i: int|
            0 <= i < n ==> message_bytes(
                #[trigger] dictionaries[i],
                call.encoder@.options,
            ).error is None,
        message_bytes(dictionaries.push(batch)[n], call.encoder@.options).error is Some,
    ensures
        ({
            let failed = message_bytes(dictionaries.push(batch)[n], call.encoder@.options);
            &&& is_arrows(call.result, failed.error->Some_0)
            &&& call.buffer_after == call.buffer + bytes_of_messages(
                dictionaries.take(n),
                call.encoder@.options,
            ).flatten() + failed.bytes
        }),
{
    let options = call.encoder@.options;
    let all = dictionaries.push(batch);
    assert forall|i: int| 0 <= i < n implies message_bytes(
        #[trigger] all[i],
        options,
    ).error is None by {
        assert(all[i] == dictionaries[i]);
    }
    law_writing_stops_at_a_failure(all, n, options);
    assert(all.take(n) == dictionaries.take(n));
    let written = messages_bytes(all, options).bytes;
    assert(call.buffer_after == call.buffer + (Seq::<u8>::empty() + written));
    assert(call.buffer + (Seq::<u8>::empty() + written) == call.buffer + bytes_of_messages(
        dictionaries.take(n),
        options,
    ).flatten() + message_bytes(all[n], options).bytes);
}

} // verus!
