//! What holds of the formats alike.

use crate::arrow_format::{names_arrow, ArrowRecordBatchIpcStreamFormat};
use crate::content_type::{
    before_first, carries_suffix, essence_of, same_but_case, trimmed, ContentType,
};
use crate::csv_format::{names_csv, CsvStreamFormat};
use crate::format::StreamFormat;
use crate::json_formats::{
    names_json, names_json_lines, JsonArrayStreamFormat, JsonNewLineStreamFormat,
};
use crate::protobuf_format::{names_protobuf, ProtobufStreamFormat};
use crate::text_format::{names_text, TextStreamFormat};
use vstd::prelude::*;

verus! {

/// Whether none of the first `n` characters is a semicolon.
spec fn is_bare(text: Seq<char>, n: nat) -> bool
    decreases n,
{
    n == 0 || text[n - 1] != ';' && is_bare(text, (n - 1) as nat)
}

proof fn bare_is_all(text: Seq<char>, n: nat)
    requires
        n <= text.len(),
        is_bare(text, n),
    ensures
        forall|i: int| 0 <= i < n ==> #[trigger] text[i] != ';',
    decreases n,
{
    if n > 0 {
        bare_is_all(text, (n - 1) as nat);
    }
}

proof fn before_is_all(text: Seq<char>, n: nat)
    requires
        n <= text.len(),
        is_bare(text, n),
        n == text.len() || text[n as int] == ';',
    ensures
        before_first(text, ';') == text.take(n as int),
    decreases n,
{
    if n > 0 {
        let rest = text.drop_first();
        bare_is_all(text, n);
        assert forall|i: int| 0 <= i < n - 1 implies #[trigger] rest[i] != ';' by {
            assert(text[i + 1] != ';');
        }
        all_is_bare(rest, (n - 1) as nat);
        before_is_all(rest, (n - 1) as nat);
        assert(seq![text[0]] + rest.take(n - 1) == text.take(n as int));
    } else {
        assert(text.take(0) == Seq::<char>::empty());
    }
}

proof fn all_is_bare(text: Seq<char>, n: nat)
    requires
        forall|i: int| 0 <= i < n ==> #[trigger] text[i] != ';',
    ensures
        is_bare(text, n),
    decreases n,
{
    if n > 0 {
        all_is_bare(text, (n - 1) as nat);
    }
}

/// A format accepts the media type that it emits, parameters and all.
pub proof fn law_a_format_accepts_what_it_emits<E>(
    array: JsonArrayStreamFormat<E>,
    lines: JsonNewLineStreamFormat,
    csv: CsvStreamFormat,
    protobuf: ProtobufStreamFormat,
    arrow: ArrowRecordBatchIpcStreamFormat,
    text: TextStreamFormat,
    media_type: Seq<char>,
)
    ensures
        array.emits(media_type) ==> same_but_case(essence_of(media_type), "application/json"@),
        lines.emits(media_type) ==> names_json_lines(essence_of(media_type)),
        csv.emits(media_type) ==> names_csv(essence_of(media_type)),
        protobuf.emits(media_type) ==> names_protobuf(essence_of(media_type)),
        arrow.emits(media_type) ==> same_but_case(
            essence_of(media_type),
            "application/vnd.apache.arrow.stream"@,
        ),
        text.emits(media_type) ==> same_but_case(essence_of(media_type), "text/plain"@),
{
    reveal_with_fuel(is_bare, 36);
    reveal_strlit("application/json");
    reveal_strlit("application/jsonstream");
    reveal_strlit("text/csv");
    reveal_strlit("application/x-protobuf-stream");
    reveal_strlit("application/vnd.apache.arrow.stream");
    reveal_strlit("text/plain; charset=utf-8");
    reveal_strlit("text/plain");
    let n = if media_type == "text/plain; charset=utf-8"@ {
        10nat
    } else {
        media_type.len()
    };
    if array.emits(media_type) || lines.emits(media_type) || csv.emits(media_type)
        || protobuf.emits(media_type) || arrow.emits(media_type) || text.emits(media_type) {
        before_is_all(media_type, n);
        let essence = media_type.take(n as int);
        assert(trimmed(essence) == essence);
        if text.emits(media_type) {
            assert(essence == "text/plain"@);
        } else {
            assert(essence == media_type);
        }
    }
}

/// The name that each format goes by, and the media type that it emits.
pub proof fn law_names_and_media_types<E>(
    array: JsonArrayStreamFormat<E>,
    lines: JsonNewLineStreamFormat,
    csv: CsvStreamFormat,
    protobuf: ProtobufStreamFormat,
    arrow: ArrowRecordBatchIpcStreamFormat,
    text: TextStreamFormat,
    given: Seq<char>,
)
    ensures
        array.goes_by(given) ==> given == "json_array"@,
        array.emits(given) ==> given == "application/json"@,
        lines.goes_by(given) ==> given == "json_nl"@,
        lines.emits(given) ==> given == "application/jsonstream"@,
        csv.goes_by(given) ==> given == "csv"@,
        csv.emits(given) ==> given == "text/csv"@,
        protobuf.goes_by(given) ==> given == "protobuf"@,
        protobuf.emits(given) ==> given == "application/x-protobuf-stream"@,
        arrow.goes_by(given) ==> given == "arrow"@,
        arrow.emits(given) ==> given == "application/vnd.apache.arrow.stream"@,
        text.goes_by(given) ==> given == "text"@,
        text.emits(given) ==> given == "text/plain; charset=utf-8"@,
{
}

/// Whether a text is one of some names, whatever the case of its letters.
pub open spec fn is_among(given: Seq<char>, names: Seq<Seq<char>>) -> bool {
    exists|i: int| 0 <= i < names.len() && same_but_case(given, #[trigger] names[i])
}

/// The media types that each format accepts, whatever the case of their letters, and no others.
pub proof fn law_accepted_media_types(essence: Seq<char>)
    ensures
        names_json(essence) <==> is_among(essence, seq!["application/json"@]) || carries_suffix(
            essence,
            "json"@,
        ),
        names_json_lines(essence) <==> is_among(
            essence,
            seq![
                "application/jsonstream"@,
                "application/x-ndjson"@,
                "application/ndjson"@,
                "application/jsonl"@,
                "application/x-jsonl"@,
            ],
        ),
        names_csv(essence) <==> is_among(essence, seq!["text/csv"@, "application/csv"@]),
        names_protobuf(essence) <==> is_among(
            essence,
            seq![
                "application/x-protobuf-stream"@,
                "application/x-protobuf"@,
                "application/protobuf"@,
            ],
        ),
        names_arrow(essence) <==> is_among(
            essence,
            seq!["application/vnd.apache.arrow.stream"@],
        ),
        names_text(essence) <==> is_among(essence, seq!["text/plain"@]),
{
    let json = seq!["application/json"@];
    let lines = seq![
        "application/jsonstream"@,
        "application/x-ndjson"@,
        "application/ndjson"@,
        "application/jsonl"@,
        "application/x-jsonl"@,
    ];
    let csv = seq!["text/csv"@, "application/csv"@];
    let protobuf = seq![
        "application/x-protobuf-stream"@,
        "application/x-protobuf"@,
        "application/protobuf"@,
    ];
    let arrow = seq!["application/vnd.apache.arrow.stream"@];
    let text = seq!["text/plain"@];
    if names_json(essence) && !carries_suffix(essence, "json"@) {
        assert(same_but_case(essence, json[0]));
    }
    if same_but_case(essence, "application/jsonstream"@) {
        assert(same_but_case(essence, lines[0]));
    }
    if same_but_case(essence, "application/x-ndjson"@) {
        assert(same_but_case(essence, lines[1]));
    }
    if same_but_case(essence, "application/ndjson"@) {
        assert(same_but_case(essence, lines[2]));
    }
    if same_but_case(essence, "application/jsonl"@) {
        assert(same_but_case(essence, lines[3]));
    }
    if same_but_case(essence, "application/x-jsonl"@) {
        assert(same_but_case(essence, lines[4]));
    }
    if same_but_case(essence, "text/csv"@) {
        assert(same_but_case(essence, csv[0]));
    }
    if same_but_case(essence, "application/csv"@) {
        assert(same_but_case(essence, csv[1]));
    }
    if same_but_case(essence, "application/x-protobuf-stream"@) {
        assert(same_but_case(essence, protobuf[0]));
    }
    if same_but_case(essence, "application/x-protobuf"@) {
        assert(same_but_case(essence, protobuf[1]));
    }
    if same_but_case(essence, "application/protobuf"@) {
        assert(same_but_case(essence, protobuf[2]));
    }
    if names_arrow(essence) {
        assert(same_but_case(essence, arrow[0]));
    }
    if names_text(essence) {
        assert(same_but_case(essence, text[0]));
    }
}

/// A format that is no more than its name and its media type: it goes by what every format does unless it
/// says otherwise.
pub struct Named {
    pub name: &'static str,
    pub media_type: &'static str,
}

impl StreamFormat for Named {
    open spec fn goes_by(&self, name: Seq<char>) -> bool {
        name == self.name@
    }

    open spec fn emits(&self, media_type: Seq<char>) -> bool {
        media_type == self.media_type@
    }

    fn format_name(&self) -> (name: &'static str) {
        self.name
    }

    fn default_content_type(&self) -> (media_type: &'static str) {
        self.media_type
    }
}

/// A format that does not say otherwise accepts the media type that it emits, whatever the case of its
/// letters, and no other.
pub proof fn law_a_plain_format_accepts_what_it_emits(
    format: Named,
    ct: ContentType<'_>,
    accepted: bool,
)
    requires
        call_ensures(<Named as StreamFormat>::accepts_content_type, (&format, &ct), accepted),
    ensures
        accepted <==> same_but_case(ct@, format.media_type@),
{
}

} // verus!
