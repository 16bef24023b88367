//! Length-prefixed protobuf, both directions.

use crate::content_type::{same_but_case, ContentType};
use crate::error::StreamError;
use crate::format::{
    Call, DecodeOptions, DefaultFormat, IdentityParser, ItemEncoder, StreamFormat,
    StreamFormatDecode, StreamFormatEncode,
};
use crate::octets::{extend, held};
use crate::protobuf_len_codec::ProtobufLenPrefixCodec;
use bytes::BytesMut;
use vstd::prelude::*;

verus! {

/// `value` as a varint: seven bits to the byte, the least of them first, and the top bit set on
/// every byte but the last.
pub open spec fn leb128(value: nat) -> Seq<u8>
    decreases value,
{
    if value < 0x80 {
        seq![value as u8]
    } else {
        seq![(value % 128 + 128) as u8] + leb128(value / 128)
    }
}

/// `message` with its length in front.
pub open spec fn framed(message: Seq<u8>) -> Seq<u8> {
    leb128(message.len()) + message
}

/// `prost::encoding::encode_varint` into a `Vec`: the value as a LEB128 varint is appended.
#[verifier::external_body]
fn encode_varint(value: u64, buf: &mut Vec<u8>)
    ensures
        final(buf)@ == old(buf)@ + leb128(value as nat),
{
    prost::encoding::encode_varint(value, buf)
}

/// Protobuf messages, each preceded by its length as a LEB128 varint.
#[derive(Debug, Clone, Copy, Default)]
pub struct ProtobufStreamFormat;

impl ProtobufStreamFormat {
    /// A length-prefixed protobuf format.
    pub fn new() -> (format: Self)
        ensures
            format == ProtobufStreamFormat,
    {
        ProtobufStreamFormat
    }
}

impl DefaultFormat for ProtobufStreamFormat {
    fn default_format() -> (format: Self)
        ensures
            format == ProtobufStreamFormat,
    {
        ProtobufStreamFormat
    }
}

/// The stream type this crate emits, plus the two names used for a bare protobuf payload.
///
/// Deliberately **not** `application/octet-stream`: accepting it would mean decoding any
/// unlabelled binary body as protobuf frames.
pub open spec fn names_protobuf(essence: Seq<char>) -> bool {
    ||| same_but_case(essence, "application/x-protobuf-stream"@)
    ||| same_but_case(essence, "application/x-protobuf"@)
    ||| same_but_case(essence, "application/protobuf"@)
}

impl StreamFormat for ProtobufStreamFormat {
    open spec fn goes_by(&self, name: Seq<char>) -> bool {
        name == "protobuf"@
    }

    open spec fn emits(&self, media_type: Seq<char>) -> bool {
        media_type == "application/x-protobuf-stream"@
    }

    fn format_name(&self) -> (name: &'static str) {
        "protobuf"
    }

    fn default_content_type(&self) -> (media_type: &'static str) {
        "application/x-protobuf-stream"
    }

    fn accepts_content_type(&self, ct: &ContentType<'_>) -> (accepted: bool)
        ensures
            accepted == names_protobuf(ct@),
    {
        let aliases: Vec<&str> = vec![
            "application/x-protobuf-stream",
            "application/x-protobuf",
            "application/protobuf",
        ];
        proof {
            assert(aliases@[0]@ == "application/x-protobuf-stream"@);
            assert(aliases@[1]@ == "application/x-protobuf"@);
            assert(aliases@[2]@ == "application/protobuf"@);
        }
        ct.matches_any(aliases.as_slice())
    }
}

/// Per-stream state for [`ProtobufStreamFormat`]. There is none: every frame is self-describing.
///
/// An item is an encoded message.
#[derive(Debug, Clone, Copy, Default)]
pub struct ProtobufEncoder;

impl ItemEncoder<Vec<u8>> for ProtobufEncoder {
    open spec fn opens(call: Call<Self>) -> bool {
        call.appended(seq![])
    }

    open spec fn takes(item: Vec<u8>) -> bool {
        true
    }

    open spec fn encodes(call: Call<Self>, item: Vec<u8>, index: u64) -> bool {
        call.appended(framed(item@))
    }

    open spec fn closes(call: Call<Self>) -> bool {
        call.appended(seq![])
    }

    fn prologue(&mut self, buf: &mut BytesMut) -> (result: Result<(), StreamError>) {
        assert(held(*buf) + seq![] == held(*buf));
        Ok(())
    }

    fn encode(&mut self, item: Vec<u8>, index: u64, buf: &mut BytesMut) -> (result: Result<
        (),
        StreamError,
    >) {
        let mut frame: Vec<u8> = Vec::new();
        encode_varint(item.len() as u64, &mut frame);
        frame.extend_from_slice(item.as_slice());
        assert(frame@ == framed(item@));
        extend(buf, frame.as_slice());
        Ok(())
    }

    fn epilogue(&mut self, buf: &mut BytesMut) -> (result: Result<(), StreamError>) {
        assert(held(*buf) + seq![] == held(*buf));
        Ok(())
    }
}

impl StreamFormatEncode<Vec<u8>> for ProtobufStreamFormat {
    type Encoder = ProtobufEncoder;

    open spec fn builds(&self, encoder: ProtobufEncoder) -> bool {
        encoder == ProtobufEncoder
    }

    fn encoder(&self) -> (encoder: ProtobufEncoder) {
        ProtobufEncoder
    }
}

impl<T> StreamFormatDecode<T> for ProtobufStreamFormat {
    type Frame = Result<T, StreamError>;

    type Framer = ProtobufLenPrefixCodec;

    type Parser = IdentityParser;

    open spec fn frames(&self, options: DecodeOptions, framer: ProtobufLenPrefixCodec) -> bool {
        &&& framer.limit() == options.max_obj_len
        &&& framer.expected() is None
    }

    fn framer(&self, options: &DecodeOptions) -> (framer: ProtobufLenPrefixCodec) {
        ProtobufLenPrefixCodec::new_with_max_length(options.max_obj_len)
    }

    fn parser(&self) -> (parser: IdentityParser) {
        IdentityParser
    }
}

} // verus!
