//! Raw UTF-8 text. Encode only.
//!
//! There is no decoder and there cannot be one. The framing writes each string's bytes with no
//! delimiter at all, so `["ab", "c"]` and `["a", "bc"]` produce identical bytes and splitting
//! them back into the original items is not merely unimplemented but impossible. Offering a
//! decoder that handed back HTTP chunk boundaries as though they were items would make `text`
//! the one format whose round trip silently lies.
//!
//! If a raw byte stream is what is wanted, take the body as bytes directly rather than through
//! this format.

use crate::content_type::{same_but_case, ContentType};
use crate::error::StreamError;
use crate::format::{Call, DefaultFormat, ItemEncoder, StreamFormat, StreamFormatEncode};
use crate::octets::{extend, held};
use bytes::BytesMut;
use vstd::prelude::*;
use vstd::utf8::encode_utf8;

verus! {

/// Raw UTF-8 text, undelimited.
#[derive(Debug, Clone, Copy, Default)]
pub struct TextStreamFormat;

impl TextStreamFormat {
    /// A raw text format.
    pub fn new() -> (format: Self)
        ensures
            format == TextStreamFormat,
    {
        TextStreamFormat
    }
}

impl DefaultFormat for TextStreamFormat {
    fn default_format() -> (format: Self)
        ensures
            format == TextStreamFormat,
    {
        TextStreamFormat
    }
}

/// The media type that names text.
pub open spec fn names_text(essence: Seq<char>) -> bool {
    same_but_case(essence, "text/plain"@)
}

impl StreamFormat for TextStreamFormat {
    open spec fn goes_by(&self, name: Seq<char>) -> bool {
        name == "text"@
    }

    open spec fn emits(&self, media_type: Seq<char>) -> bool {
        media_type == "text/plain; charset=utf-8"@
    }

    fn format_name(&self) -> (name: &'static str) {
        "text"
    }

    fn default_content_type(&self) -> (media_type: &'static str) {
        "text/plain; charset=utf-8"
    }

    fn accepts_content_type(&self, ct: &ContentType<'_>) -> (accepted: bool)
        ensures
            accepted == names_text(ct@),
    {
        ct.matches("text/plain")
    }
}

/// Per-stream state for [`TextStreamFormat`]. There is none.
#[derive(Debug, Clone, Copy, Default)]
pub struct TextEncoder;

impl ItemEncoder<String> for TextEncoder {
    open spec fn opens(call: Call<Self>) -> bool {
        call.appended(seq![])
    }

    open spec fn takes(item: String) -> bool {
        true
    }

    open spec fn encodes(call: Call<Self>, item: String, index: u64) -> bool {
        call.appended(encode_utf8(item@))
    }

    open spec fn closes(call: Call<Self>) -> bool {
        call.appended(seq![])
    }

    fn prologue(&mut self, buf: &mut BytesMut) -> (result: Result<(), StreamError>) {
        assert(held(*buf) + seq![] == held(*buf));
        Ok(())
    }

    fn encode(&mut self, item: String, index: u64, buf: &mut BytesMut) -> (result: Result<
        (),
        StreamError,
    >) {
        extend(buf, item.as_str().as_bytes());
        Ok(())
    }

    fn epilogue(&mut self, buf: &mut BytesMut) -> (result: Result<(), StreamError>) {
        assert(held(*buf) + seq![] == held(*buf));
        Ok(())
    }
}

impl StreamFormatEncode<String> for TextStreamFormat {
    type Encoder = TextEncoder;

    open spec fn builds(&self, encoder: TextEncoder) -> bool {
        encoder == TextEncoder
    }

    fn encoder(&self) -> (encoder: TextEncoder) {
        TextEncoder
    }
}

/// The body that a sequence of items is written as.
pub open spec fn text_body(items: Seq<Seq<char>>) -> Seq<u8>
    decreases items.len(),
{
    if items.len() == 0 {
        seq![]
    } else {
        encode_utf8(items[0]) + text_body(items.drop_first())
    }
}

/// Where one item ends and the next begins is lost: the body is that of the whole text, however
/// it was cut into items.
pub proof fn law_boundaries_are_lost(items: Seq<Seq<char>>)
    ensures
        text_body(items) == encode_utf8(items.flatten()),
    decreases items.len(),
{
    if items.len() > 0 {
        law_boundaries_are_lost(items.drop_first());
        encode_in_parts(items[0], items.drop_first().flatten());
    }
}

/// The bytes of two texts put together are those of the one and then those of the other.
pub proof fn law_text_adds_up(first: Seq<char>, second: Seq<char>)
    ensures
        encode_utf8(first + second) == encode_utf8(first) + encode_utf8(second),
{
    encode_in_parts(first, second);
}

proof fn encode_in_parts(first: Seq<char>, second: Seq<char>)
    ensures
        encode_utf8(first + second) == encode_utf8(first) + encode_utf8(second),
    decreases first.len(),
{
    if first.len() == 0 {
        assert(first + second == second);
        assert(encode_utf8(first) + encode_utf8(second) == encode_utf8(second));
    } else {
        assert((first + second).drop_first() == first.drop_first() + second);
        encode_in_parts(first.drop_first(), second);
        assert((first + second)[0] == first[0]);
        assert(encode_utf8(first + second) == encode_utf8(first) + encode_utf8(second));
    }
}

} // verus!
