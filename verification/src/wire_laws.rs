//! What one side encodes is what the other side decodes, format by format: the encode run, the
//! encoder and the framer taken together.

use crate::arrow_format::end_of_stream;
use crate::arrow_ipc_codec::ArrowState;
use crate::csv_laws::begins_whole;
use crate::csv_record_codec::{is_marked, CsvState};
use crate::json_array_codec::{
    start_of_body, CLOSE_BRACE, CLOSE_BRACKET, OPEN_BRACE, OPEN_BRACKET, QUOTE,
};
use crate::json_array_laws::{array_text, comma_separated, is_string, is_value, tangle};
use crate::json_formats::{escape, escaped, opened_envelope, separator, string_text, COLON};
use crate::json_nl_codec::NEWLINE;
use crate::json_nl_laws::{is_line, lines_of, terminated};
use crate::protobuf_format::framed;
use crate::protobuf_laws::frames;
use crate::stream::{body_of, law_clean_run, written, yielded, Outcome, Stage};
use vstd::prelude::*;
use vstd::utf8::encode_utf8;

verus! {

/// The body that a run yields in which the encoder writes `prologue`, one piece for each item and
/// `epilogue`.
pub open spec fn body_written(
    prologue: Seq<u8>,
    items: Seq<Seq<u8>>,
    epilogue: Seq<u8>,
) -> Seq<u8> {
    body_of(
        yielded(
            Stage::start(),
            seq![Outcome::Wrote(prologue)] + written(items) + seq![
                Outcome::Ended,
                Outcome::Wrote(epilogue),
            ],
        ),
    )
}

/// What the encoder of a JSON array writes for the items: a separator before all but the first.
pub open spec fn array_pieces(values: Seq<Seq<u8>>, first: nat) -> Seq<Seq<u8>> {
    Seq::new(values.len(), |i: int| separator((first + i) as u64) + values[i])
}

proof fn pieces_are_separated(values: Seq<Seq<u8>>, first: nat)
    requires
        first + values.len() <= u64::MAX,
    ensures
        array_pieces(values, first).flatten() == (if first == 0 || values.len() == 0 {
            comma_separated(values)
        } else {
            separator(1) + comma_separated(values)
        }),
    decreases values.len(),
{
    let pieces = array_pieces(values, first);
    if values.len() > 0 {
        let rest = values.drop_first();
        assert(pieces.drop_first() == array_pieces(rest, first + 1));
        pieces_are_separated(rest, first + 1);
        assert(pieces.flatten() == pieces[0] + pieces.drop_first().flatten());
        if rest.len() == 0 {
            assert(comma_separated(values) == values[0]);
        }
        if first == 0 {
            assert(pieces.flatten() == comma_separated(values));
        } else {
            assert(pieces.flatten() == separator(1) + comma_separated(values));
        }
    }
}

/// A JSON array reads back as the values it was written from, however the body is cut into chunks
/// on the way.
pub proof fn law_json_array(values: Seq<Seq<u8>>, chunks: Seq<Seq<u8>>, limit: int)
    requires
        values.len() <= u64::MAX,
        chunks.flatten() == body_written(
            seq![OPEN_BRACKET],
            array_pieces(values, 0),
            seq![CLOSE_BRACKET],
        ),
        forall|i: int|
            0 <= i < values.len() ==> is_value(#[trigger] values[i]) && values[i].len() <= limit,
        0 <= limit,
    ensures
        crate::json_array_laws::feed(start_of_body(), 0, seq![], chunks, limit).elements == values,
        crate::json_array_laws::feed(start_of_body(), 0, seq![], chunks, limit).failed is None,
{
    law_clean_run(seq![OPEN_BRACKET], array_pieces(values, 0), seq![CLOSE_BRACKET]);
    pieces_are_separated(values, 0);
    assert(chunks.flatten() == array_text(values));
    crate::json_array_laws::law_array_round_trip(values, chunks, limit);
}

/// The tangle goes by the bytes before it alone.
proof fn tangle_of_prefix(text: Seq<u8>, more: Seq<u8>, n: int)
    requires
        n <= text.len(),
    ensures
        tangle(text + more, n) == tangle(text, n),
    decreases n,
{
    if n > 0 {
        tangle_of_prefix(text, more, n - 1);
    }
}

/// A string stays open while escaped bytes follow.
proof fn stays_open(bytes: Seq<u8>)
    ensures
        ({
            let text = seq![QUOTE] + escaped(bytes);
            &&& forall|n: int| 0 < n <= text.len() ==> (#[trigger] tangle(text, n)).quoted
            &&& !tangle(text, text.len() as int).escaped
        }),
    decreases bytes.len(),
{
    reveal_with_fuel(tangle, 2);
    if bytes.len() > 0 {
        let before = seq![QUOTE] + escaped(bytes.drop_last());
        let last = escape(bytes.last());
        let text = seq![QUOTE] + escaped(bytes);
        let m = before.len() as int;
        stays_open(bytes.drop_last());
        assert(text == before + last);
        assert forall|n: int| 0 < n <= m implies (#[trigger] tangle(text, n)).quoted by {
            tangle_of_prefix(before, last, n);
        }
        tangle_of_prefix(before, last, m);
        assert(text[m] == last[0]);
        assert(tangle(text, m + 1).quoted);
        if last.len() > 1 {
            assert(text[m + 1] == last[1]);
            assert(tangle(text, m + 2).quoted && !tangle(text, m + 2).escaped);
        }
        if last.len() > 2 {
            assert(text[m + 2] == last[2] && text[m + 3] == last[3]);
            assert(text[m + 4] == last[4] && text[m + 5] == last[5]);
            assert(tangle(text, m + 3).quoted && !tangle(text, m + 3).escaped);
            assert(tangle(text, m + 4).quoted && !tangle(text, m + 4).escaped);
            assert(tangle(text, m + 5).quoted && !tangle(text, m + 5).escaped);
            assert(tangle(text, m + 6).quoted && !tangle(text, m + 6).escaped);
        }
    }
}

proof fn string_is_one(bytes: Seq<u8>)
    ensures
        is_string(seq![QUOTE] + escaped(bytes) + seq![QUOTE]),
{
    let open = seq![QUOTE] + escaped(bytes);
    let text = open + seq![QUOTE];
    stays_open(bytes);
    assert forall|n: int| 0 < n < text.len() implies (#[trigger] tangle(text, n)).quoted by {
        tangle_of_prefix(open, seq![QUOTE], n);
    }
    tangle_of_prefix(open, seq![QUOTE], open.len() as int);
    assert(text[text.len() - 1] == QUOTE);
}

/// An enveloped array is the envelope object with the array as one more field at its end:
/// the name of the field is one JSON string, whatever it holds.
pub proof fn law_enveloped_array(object: Seq<u8>, array_field: Seq<char>, values: Seq<Seq<u8>>)
    requires
        values.len() <= u64::MAX,
        object.len() > 1,
        object[0] == OPEN_BRACE,
    ensures
        body_written(
            opened_envelope(object, array_field),
            array_pieces(values, 0),
            seq![CLOSE_BRACKET, CLOSE_BRACE],
        ) == object.drop_last() + separator(
            if object.len() > 2 {
                1
            } else {
                0
            },
        ) + string_text(array_field) + seq![COLON] + array_text(values) + seq![CLOSE_BRACE],
        is_string(string_text(array_field)),
{
    let opening = opened_envelope(object, array_field);
    law_clean_run(opening, array_pieces(values, 0), seq![CLOSE_BRACKET, CLOSE_BRACE]);
    pieces_are_separated(values, 0);
    assert(array_text(values) == seq![OPEN_BRACKET] + comma_separated(values) + seq![
        CLOSE_BRACKET,
    ]);
    string_is_one(encode_utf8(array_field));
}

proof fn lines_are_terminated(texts: Seq<Seq<u8>>)
    ensures
        texts.map_values(|text: Seq<u8>| text + seq![NEWLINE]).flatten() == terminated(texts),
    decreases texts.len(),
{
    let pieces = texts.map_values(|text: Seq<u8>| text + seq![NEWLINE]);
    if texts.len() > 0 {
        let rest = texts.drop_first();
        assert(pieces.drop_first() == rest.map_values(|text: Seq<u8>| text + seq![NEWLINE]));
        lines_are_terminated(rest);
        assert(pieces.flatten() == pieces[0] + pieces.drop_first().flatten());
    }
}

/// JSON lines read back as the texts they were written from, however the body is cut into chunks
/// on the way.
pub proof fn law_json_lines(limit: nat, texts: Seq<Seq<u8>>, chunks: Seq<Seq<u8>>)
    requires
        texts.len() <= u64::MAX,
        chunks.flatten() == body_written(
            seq![],
            texts.map_values(|text: Seq<u8>| text + seq![NEWLINE]),
            seq![],
        ),
        forall|i: int|
            0 <= i < texts.len() ==> is_line(#[trigger] texts[i]) && texts[i].len() <= limit,
    ensures
        lines_of(limit, chunks) == (texts, false),
{
    law_clean_run(seq![], texts.map_values(|text: Seq<u8>| text + seq![NEWLINE]), seq![]);
    lines_are_terminated(texts);
    assert(chunks.flatten() == terminated(texts));
    crate::json_nl_laws::law_lines_round_trip(limit, texts, chunks);
}

proof fn messages_are_framed(messages: Seq<Seq<u8>>)
    ensures
        messages.map_values(|message: Seq<u8>| framed(message)).flatten() == frames(messages),
    decreases messages.len(),
{
    let pieces = messages.map_values(|message: Seq<u8>| framed(message));
    if messages.len() > 0 {
        let rest = messages.drop_first();
        assert(pieces.drop_first() == rest.map_values(|message: Seq<u8>| framed(message)));
        messages_are_framed(rest);
        assert(pieces.flatten() == pieces[0] + pieces.drop_first().flatten());
    }
}

/// Protobuf messages read back as what was written, messages of no bytes included, however the
/// body is cut into chunks on the way.
pub proof fn law_protobuf(messages: Seq<Seq<u8>>, chunks: Seq<Seq<u8>>, limit: int)
    requires
        messages.len() <= u64::MAX,
        chunks.flatten() == body_written(
            seq![],
            messages.map_values(|message: Seq<u8>| framed(message)),
            seq![],
        ),
        limit <= usize::MAX,
        forall|i: int| 0 <= i < messages.len() ==> (#[trigger] messages[i]).len() <= limit,
    ensures
        crate::protobuf_laws::feed(None, seq![], chunks, limit).messages == messages,
        crate::protobuf_laws::feed(None, seq![], chunks, limit).failed is None,
{
    law_clean_run(seq![], messages.map_values(|message: Seq<u8>| framed(message)), seq![]);
    messages_are_framed(messages);
    assert(chunks.flatten() == frames(messages));
    crate::protobuf_laws::law_messages_round_trip(messages, chunks, limit);
}

/// A CSV body reads back as its rows do one at a time, however it is cut into chunks on the way.
///
/// Neither the chunks nor the rows may cut a byte order mark at the beginning in two.
pub proof fn law_csv(state: CsvState, rows: Seq<Seq<u8>>, chunks: Seq<Seq<u8>>)
    requires
        state.ready(),
        rows.len() <= u64::MAX,
        chunks.flatten() == body_written(seq![], rows, seq![]),
        state.mode.started || !is_marked(chunks.flatten()) || begins_whole(chunks)
            && begins_whole(rows),
    ensures
        crate::csv_laws::feed(state, chunks).same(crate::csv_laws::feed(state, rows)),
{
    law_clean_run(seq![], rows, seq![]);
    assert(chunks.flatten() == rows.flatten());
    crate::csv_laws::law_chunking_does_not_matter(state, chunks);
    crate::csv_laws::law_chunking_does_not_matter(state, rows);
}

/// An Arrow IPC stream reads back as what was written for its batches does, one after the other
/// and the end-of-stream marker last, however it is cut into chunks on the way.
pub proof fn law_arrow(state: ArrowState, written: Seq<Seq<u8>>, chunks: Seq<Seq<u8>>)
    requires
        written.len() <= u64::MAX,
        chunks.flatten() == body_written(seq![], written, end_of_stream()),
    ensures
        crate::arrow_laws::feed(state, seq![], chunks).same(
            crate::arrow_laws::feed(state, seq![], written.push(end_of_stream())),
        ),
{
    let pieces = written.push(end_of_stream());
    law_clean_run(seq![], written, end_of_stream());
    written.lemma_flatten_push(end_of_stream());
    assert(chunks.flatten() == pieces.flatten());
    crate::arrow_laws::law_chunking_does_not_matter(state, chunks);
    crate::arrow_laws::law_chunking_does_not_matter(state, pieces);
}

} // verus!
