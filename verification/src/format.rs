//! The symmetric format abstraction: one trait for identity, one per direction.
//!
//! Deliberately **item-level** rather than stream-level: encoding an item into a buffer names
//! nothing but [`StreamError`].
//!
//! [`ItemEncoder::prologue`] and [`ItemEncoder::epilogue`] exist because framing is not purely
//! per-item: a JSON array opens with `[` and closes with `]`, and Arrow IPC ends with an
//! eight-byte end-of-stream marker.
//!
//! Each trait has ghost functions that say what an implementation does. They say nothing unless
//! an implementation fills them in.
//!
//! What an item is to an encoder is up to the encoder. Where serialising a value takes a
//! serialiser's own traits, the item is what that serialiser made of the value.

use crate::content_type::{same_but_case, ContentType};
use crate::error::StreamError;
use crate::octets::held;
use bytes::BytesMut;
use vstd::prelude::*;

verus! {

/// Identity and content-type negotiation, shared by both directions.
pub trait StreamFormat {
    /// What [`format_name`](Self::format_name) may return.
    open spec fn goes_by(&self, name: Seq<char>) -> bool {
        true
    }

    /// What [`default_content_type`](Self::default_content_type) may return.
    open spec fn emits(&self, media_type: Seq<char>) -> bool {
        true
    }

    /// A short, stable name, reported as the `format` tracing field.
    fn format_name(&self) -> (name: &'static str)
        ensures
            self.goes_by(name@),
    ;

    /// The `Content-Type` this format emits when encoding.
    fn default_content_type(&self) -> (media_type: &'static str)
        ensures
            self.emits(media_type@),
    ;

    /// Whether an incoming `Content-Type` should be accepted as this format.
    ///
    /// Implementations should be lenient about parameters, which [`ContentType`] has already
    /// stripped, and should accept the well-known aliases for their wire format.
    fn accepts_content_type(&self, ct: &ContentType<'_>) -> (accepted: bool)
        default_ensures
            exists|media_type: Seq<char>| #[trigger]
                self.emits(media_type) && accepted == same_but_case(ct@, media_type),
    {
        let media_type = self.default_content_type();
        assert(self.emits(media_type@));
        ct.matches(media_type)
    }
}

/// Encodes items of type `T` into bytes.
pub trait StreamFormatEncode<T>: StreamFormat {
    /// The per-stream encoder. A fresh one is built for every body, because framing state
    /// (item index, Arrow's dictionary tracker, CSV's header flag) is per-stream.
    type Encoder: ItemEncoder<T>;

    /// Which encoders [`encoder`](Self::encoder) may build.
    open spec fn builds(&self, encoder: Self::Encoder) -> bool {
        true
    }

    /// Build an encoder for one body.
    fn encoder(&self) -> (encoder: Self::Encoder)
        ensures
            self.builds(encoder),
    ;
}

/// One call of an encoder: the encoder and what its buffer held before it, and both after it.
pub struct Call<E> {
    pub encoder: E,
    pub buffer: Seq<u8>,
    pub encoder_after: E,
    pub buffer_after: Seq<u8>,
    pub result: Result<(), StreamError>,
}

impl<E> Call<E> {
    /// A call that succeeded, appended `bytes` and left the encoder as it was.
    pub open spec fn appended(self, bytes: Seq<u8>) -> bool {
        &&& self.encoder_after == self.encoder
        &&& self.buffer_after == self.buffer + bytes
        &&& self.result is Ok
    }
}

/// Per-stream encoding state.
///
/// `index` is passed to [`encode`] rather than tracked internally because several formats key
/// their framing off it: the JSON array writes a separator before every item but the first,
/// CSV writes its header row only at index 0, and Arrow emits the schema message only at
/// index 0. Implementations that do not care simply ignore it.
///
/// [`encode`]: ItemEncoder::encode
pub trait ItemEncoder<T>: Sized {
    /// What a call of [`prologue`](Self::prologue) may come to.
    open spec fn opens(call: Call<Self>) -> bool {
        true
    }

    /// The items that [`encode`](Self::encode) takes.
    open spec fn takes(item: T) -> bool {
        true
    }

    /// What a call of [`encode`](Self::encode) may come to.
    open spec fn encodes(call: Call<Self>, item: T, index: u64) -> bool {
        true
    }

    /// What a call of [`epilogue`](Self::epilogue) may come to.
    open spec fn closes(call: Call<Self>) -> bool {
        true
    }

    /// Bytes emitted before the first item, if any.
    fn prologue(&mut self, buf: &mut BytesMut) -> (result: Result<(), StreamError>)
        ensures
            Self::opens(
                (Call {
                    encoder: *old(self),
                    buffer: held(*old(buf)),
                    encoder_after: *final(self),
                    buffer_after: held(*final(buf)),
                    result,
                }),
            ),
    ;

    /// Encode one item.
    fn encode(&mut self, item: T, index: u64, buf: &mut BytesMut) -> (result: Result<
        (),
        StreamError,
    >)
        requires
            Self::takes(item),
        ensures
            Self::encodes(
                (Call {
                    encoder: *old(self),
                    buffer: held(*old(buf)),
                    encoder_after: *final(self),
                    buffer_after: held(*final(buf)),
                    result,
                }),
                item,
                index,
            ),
    ;

    /// Bytes emitted after the last item, if any.
    ///
    /// Called on normal end of stream only, never after an error, and never if the stream is
    /// dropped, since in both cases the body is already truncated and a well-formed terminator
    /// would misrepresent it as complete.
    fn epilogue(&mut self, buf: &mut BytesMut) -> (result: Result<(), StreamError>)
        ensures
            Self::closes(
                (Call {
                    encoder: *old(self),
                    buffer: held(*old(buf)),
                    encoder_after: *final(self),
                    buffer_after: held(*final(buf)),
                    result,
                }),
            ),
    ;
}

/// Turns one framed record into an item.
///
/// Separate from the framer so that the framer need not be generic over `T`.
pub trait FrameParser<F, T> {
    /// What [`parse`](Self::parse) may make of a frame.
    open spec fn parses(&self, frame: F, item: Result<T, StreamError>) -> bool {
        true
    }

    /// Deserialise one framed record.
    ///
    /// An error here is **not** terminal: the record framed correctly, so the decoder knows
    /// exactly where the next one starts and the stream continues.
    fn parse(&self, frame: F) -> (item: Result<T, StreamError>)
        ensures
            self.parses(frame, item),
    ;
}

/// Yields frames unchanged, for formats whose framer already produces items.
///
/// Used by every format whose framing cannot be separated from deserialisation. A JSON array
/// element is not self-delimiting, so finding its end and parsing it are one operation.
#[derive(Debug, Clone, Copy, Default)]
pub struct IdentityParser;

impl<T> FrameParser<Result<T, StreamError>, T> for IdentityParser {
    open spec fn parses(&self, frame: Result<T, StreamError>, item: Result<T, StreamError>) -> bool {
        item == frame
    }

    fn parse(&self, frame: Result<T, StreamError>) -> (item: Result<T, StreamError>) {
        frame
    }
}

/// Decodes bytes into items of type `T`.
pub trait StreamFormatDecode<T>: StreamFormat {
    /// One framed record, as it reaches the parser.
    ///
    /// Formats that separate framing from deserialisation hand over what the deserialiser
    /// returned for the record. Formats that do not use `Result<T, StreamError>` and an
    /// [`IdentityParser`].
    type Frame;

    /// Splits the body into records.
    ///
    /// A failure of it is terminal: a framer that has lost track of where records begin cannot
    /// resynchronise. Per-record deserialisation failures are not terminal and are reported by
    /// [`Self::Parser`] instead.
    type Framer;

    /// Reports deserialised records.
    type Parser: FrameParser<Self::Frame, T>;

    /// Which framers [`framer`](Self::framer) may build.
    open spec fn frames(&self, options: DecodeOptions, framer: Self::Framer) -> bool {
        true
    }

    /// Build a framer for one body.
    fn framer(&self, options: &DecodeOptions) -> (framer: Self::Framer)
        ensures
            self.frames(*options, framer),
    ;

    /// Build a parser for one body.
    fn parser(&self) -> Self::Parser;
}

/// A format that can be constructed without configuration.
///
/// Needed by server-side extractors, which are built by the framework rather than by the user
/// and so have nowhere to receive constructor arguments. A method rather than a `Default`
/// supertrait on [`StreamFormat`], so that a format which genuinely cannot be defaulted is not
/// locked out of the rest of the abstraction.
pub trait DefaultFormat: Sized {
    /// The configuration to use when the caller supplied none.
    fn default_format() -> Self;
}

/// Limits applied while decoding.
#[derive(Debug, Clone, Copy, PartialEq, Eq, Structural)]
#[non_exhaustive]
pub struct DecodeOptions {
    /// Maximum length of a single decoded object.
    pub max_obj_len: usize,
    /// Initial capacity of the read buffer.
    pub buf_capacity: usize,
}

/// 8 KiB.
pub const DEFAULT_BUF_CAPACITY: usize = 8 * 1024;

impl DecodeOptions {
    /// Options with no per-object limit.
    ///
    /// Appropriate for a client reading a server it chose. A server reading untrusted input
    /// should set [`max_obj_len`] instead.
    ///
    /// [`max_obj_len`]: DecodeOptions::max_obj_len
    pub fn new() -> (options: Self)
        ensures
            options.max_obj_len == usize::MAX,
            options.buf_capacity == DEFAULT_BUF_CAPACITY,
    {
        DecodeOptions { max_obj_len: usize::MAX, buf_capacity: DEFAULT_BUF_CAPACITY }
    }

    /// Set the maximum length of a single decoded object.
    pub fn max_obj_len(self, value: usize) -> (options: Self)
        ensures
            options == (DecodeOptions { max_obj_len: value, ..self }),
    {
        DecodeOptions { max_obj_len: value, ..self }
    }

    /// Set the initial capacity of the read buffer.
    pub fn buf_capacity(self, value: usize) -> (options: Self)
        ensures
            options == (DecodeOptions { buf_capacity: value, ..self }),
    {
        DecodeOptions { buf_capacity: value, ..self }
    }
}

impl Default for DecodeOptions {
    fn default() -> (options: Self)
        ensures
            options.max_obj_len == usize::MAX,
            options.buf_capacity == DEFAULT_BUF_CAPACITY,
    {
        Self::new()
    }
}

} // verus!
