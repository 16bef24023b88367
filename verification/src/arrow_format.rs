//! Apache Arrow IPC, both directions.

use crate::arrow_ipc_codec::{ArrowBatch, ArrowIpcCodec, ArrowState};
use crate::arrow_message::VERSION_FIVE;
use crate::arrow_metadata::{batch_fits, fits_batch, fits_schema, schema_fits};
use crate::content_type::{same_but_case, ContentType};
use crate::error::{caused, reason, ErrorSource, ErrorView, StreamError, StreamErrorKind};
use crate::format::{
    Call, DecodeOptions, DefaultFormat, IdentityParser, ItemEncoder, StreamFormat,
    StreamFormatDecode, StreamFormatEncode,
};
use crate::octets::{extend, held};
use arrow::datatypes::Schema;
use arrow::error::ArrowError;
use arrow::ipc::writer::{
    write_message, DictionaryTracker, EncodedData, IpcDataGenerator, IpcWriteContext,
    IpcWriteOptions,
};
use bytes::BytesMut;
use std::sync::Arc;
use vstd::prelude::*;

verus! {

/// `arrow::datatypes::Schema`, carried but never looked into.
#[verifier::external_type_specification]
#[verifier::external_body]
pub struct ExSchema(Schema);

/// `arrow::ipc::writer::IpcWriteOptions`, carried but never looked into.
#[verifier::external_type_specification]
#[verifier::external_body]
pub struct ExIpcWriteOptions(IpcWriteOptions);

/// `arrow::ipc::writer::IpcDataGenerator`, which makes messages of schemas and batches.
#[verifier::external_type_specification]
#[verifier::external_body]
pub struct ExIpcDataGenerator(IpcDataGenerator);

/// `arrow::ipc::writer::DictionaryTracker`, which remembers the dictionaries that were sent.
#[verifier::external_type_specification]
#[verifier::external_body]
pub struct ExDictionaryTracker(DictionaryTracker);

/// `arrow::ipc::writer::IpcWriteContext`, scratch space.
#[verifier::external_type_specification]
#[verifier::external_body]
pub struct ExIpcWriteContext(IpcWriteContext);

/// `arrow::ipc::writer::EncodedData`, a message that is ready to be written.
#[verifier::external_type_specification]
#[verifier::external_body]
pub struct ExEncodedData(EncodedData);

/// What `IpcDataGenerator::schema_to_bytes_with_dictionary_tracker` comes to.
pub struct SchemaMessage {
    pub message: EncodedData,
    /// The tracker afterwards.
    pub tracker: DictionaryTracker,
}

/// What `IpcDataGenerator::encode` comes to.
pub struct BatchMessages {
    /// The dictionaries the batch needs, and the batch.
    pub messages: Result<(Seq<EncodedData>, EncodedData), ArrowError>,
    /// The tracker afterwards.
    pub tracker: DictionaryTracker,
}

/// What `write_message` comes to.
pub struct MessageBytes {
    pub bytes: Seq<u8>,
    pub error: Option<ArrowError>,
}

/// The names of the fields of a schema.
pub uninterp spec fn field_names(schema: Schema) -> Seq<Seq<char>>;

/// The tracker that `DictionaryTracker::new` makes.
pub uninterp spec fn new_tracker(error_on_replacement: bool) -> DictionaryTracker;

/// What `IpcDataGenerator::schema_to_bytes_with_dictionary_tracker` makes of a schema.
pub uninterp spec fn schema_message(
    schema: Schema,
    tracker: DictionaryTracker,
    options: IpcWriteOptions,
) -> SchemaMessage;

/// What `IpcDataGenerator::encode` makes of a batch.
pub uninterp spec fn batch_messages(
    batch: ArrowBatch,
    tracker: DictionaryTracker,
    options: IpcWriteOptions,
) -> BatchMessages;

/// What `write_message` makes of a message.
pub uninterp spec fn message_bytes(message: EncodedData, options: IpcWriteOptions) -> MessageBytes;

/// How messages are written.
pub struct WriteSettings {
    /// Buffers are padded to a multiple of so many bytes.
    pub alignment: u8,
    /// Messages are framed without a continuation marker.
    pub legacy: bool,
    /// The number of the version that they are written in.
    pub version: i16,
    /// Bodies are compressed.
    pub compressed: bool,
    /// New values are appended to a dictionary, which is not sent again.
    pub appends: bool,
}

/// What `IpcWriteOptions` are set to.
pub uninterp spec fn settings_of(options: IpcWriteOptions) -> WriteSettings;

/// What they are set to where nothing else is asked for.
pub open spec fn default_settings() -> WriteSettings {
    WriteSettings {
        alignment: 64,
        legacy: false,
        version: VERSION_FIVE,
        compressed: false,
        appends: false,
    }
}

/// `IpcWriteOptions::default`: buffers are padded to 64 bytes, messages are written in version 5
/// behind a continuation marker, nothing is compressed, and dictionaries are sent again.
#[verifier::external_body]
fn default_options() -> (options: IpcWriteOptions)
    ensures
        settings_of(options) == default_settings(),
{
    IpcWriteOptions::default()
}

/// `IpcWriteOptions::clone`: the same options.
pub assume_specification[ <IpcWriteOptions as Clone>::clone ](options: &IpcWriteOptions) -> (clone:
    IpcWriteOptions)
    ensures
        clone == *options,
;

/// `Schema::empty`: a schema without fields.
#[verifier::external_body]
fn empty_schema() -> (schema: Schema)
    ensures
        field_names(schema) == Seq::<Seq<char>>::empty(),
{
    Schema::empty()
}

/// `IpcDataGenerator::default`: a generator, which holds nothing.
#[verifier::external_body]
fn data_generator() -> (data_gen: IpcDataGenerator) {
    IpcDataGenerator::default()
}

/// `DictionaryTracker::new`: a tracker that has seen no dictionary.
#[verifier::external_body]
fn dictionary_tracker(error_on_replacement: bool) -> (tracker: DictionaryTracker)
    ensures
        tracker == new_tracker(error_on_replacement),
{
    DictionaryTracker::new(error_on_replacement)
}

/// `IpcWriteContext::default`: scratch space that has not been used.
#[verifier::external_body]
fn write_context() -> (context: IpcWriteContext) {
    IpcWriteContext::default()
}

/// `IpcDataGenerator::schema_to_bytes_with_dictionary_tracker`: the message that carries the
/// schema, which is named, and the tracker once it knows the schema's dictionaries. It panics
/// where the metadata of the message are too long for a flatbuffer.
///
/// Left unsaid is when memory or the stack runs out.
#[verifier::external_body]
fn encode_schema(
    data_gen: &IpcDataGenerator,
    schema: &Schema,
    tracker: &mut DictionaryTracker,
    options: &IpcWriteOptions,
) -> (message: EncodedData)
    requires
        schema_fits(*schema),
    ensures
        message == schema_message(*schema, *old(tracker), *options).message,
        *final(tracker) == schema_message(*schema, *old(tracker), *options).tracker,
{
    data_gen.schema_to_bytes_with_dictionary_tracker(schema, tracker, options)
}

/// `IpcDataGenerator::encode`: the messages that carry a batch and the dictionaries it needs,
/// which are named, and the tracker once it knows those. They do not depend on the context, which
/// is scratch space. It panics where the metadata of a message are too long for a flatbuffer.
///
/// Left unsaid is when memory or the stack runs out.
#[verifier::external_body]
fn encode_batch(
    data_gen: &IpcDataGenerator,
    item: &ArrowBatch,
    tracker: &mut DictionaryTracker,
    options: &IpcWriteOptions,
    context: &mut IpcWriteContext,
) -> (messages: Result<(Vec<EncodedData>, EncodedData), ArrowError>)
    requires
        batch_fits(*item),
    ensures
        match batch_messages(*item, *old(tracker), *options).messages {
            Ok((dictionaries, batch)) => messages matches Ok(found) && found.0@ == dictionaries
                && found.1 == batch,
            Err(error) => messages == Err::<(Vec<EncodedData>, EncodedData), ArrowError>(error),
        },
        *final(tracker) == batch_messages(*item, *old(tracker), *options).tracker,
{
    data_gen.encode(&item.batch, tracker, options, context)
}

/// `write_message` into a `Vec`: the bytes of the message, and whether it could be written; both
/// are named.
#[verifier::external_body]
fn write_out(message: EncodedData, options: &IpcWriteOptions) -> (written: (
    Vec<u8>,
    Result<(), ArrowError>,
))
    ensures
        written.0@ == message_bytes(message, *options).bytes,
        match message_bytes(message, *options).error {
            Some(error) => written.1 == Err::<(), ArrowError>(error),
            None => written.1 is Ok,
        },
{
    let mut bytes = Vec::new();
    let outcome = write_message(&mut bytes, message, options).map(|_| ());
    (bytes, outcome)
}

/// Appends the bytes of a message to the body, and reports it where they could not all be written.
pub fn append_message(buf: &mut BytesMut, bytes: &[u8], outcome: Result<(), ArrowError>) -> (res:
    Result<(), StreamError>)
    ensures
        held(*final(buf)) == held(*old(buf)) + bytes@,
        match outcome {
            Ok(()) => res is Ok,
            Err(error) => res matches Err(failure) && failure@ == caused(
                StreamErrorKind::CodecError,
                ErrorSource::Arrow(error),
            ),
        },
{
    extend(buf, bytes);
    match outcome {
        Ok(()) => Ok(()),
        Err(error) => Err(StreamError::codec(ErrorSource::Arrow(error))),
    }
}

/// Arrow record batches in IPC stream framing.
///
/// Encoding needs the schema up front, because it is written once ahead of the first batch.
/// Decoding does not: the schema arrives in the stream.
#[derive(Debug, Clone)]
pub struct ArrowRecordBatchIpcStreamFormat {
    schema: Arc<Schema>,
    options: IpcWriteOptions,
}

impl ArrowRecordBatchIpcStreamFormat {
    /// The schema of the batches.
    pub closed spec fn schema(self) -> Schema {
        *self.schema
    }

    /// How they are written.
    pub closed spec fn options(self) -> IpcWriteOptions {
        self.options
    }

    /// A format writing batches of `schema` with default IPC options.
    pub fn new(schema: Arc<Schema>) -> (format: Self)
        ensures
            format.schema() == *schema,
            settings_of(format.options()) == default_settings(),
    {
        Self::with_options(schema, default_options())
    }

    /// A format writing batches of `schema` with the given IPC options.
    pub fn with_options(schema: Arc<Schema>, options: IpcWriteOptions) -> (format: Self)
        ensures
            format.schema() == *schema,
            format.options() == options,
    {
        ArrowRecordBatchIpcStreamFormat { schema, options }
    }

    /// A format for **decoding** only.
    ///
    /// An Arrow IPC stream carries its own schema, so a decoder needs none. Named for what it
    /// is rather than offered as a `Default`, because encoding with it would write an empty
    /// schema and produce a useless stream.
    pub fn for_decoding() -> (format: Self)
        ensures
            field_names(format.schema()) == Seq::<Seq<char>>::empty(),
            settings_of(format.options()) == default_settings(),
    {
        Self::new(Arc::new(empty_schema()))
    }
}

impl DefaultFormat for ArrowRecordBatchIpcStreamFormat {
    /// Decoding needs no configuration; see [`for_decoding`](Self::for_decoding).
    fn default_format() -> (format: Self)
        ensures
            field_names(format.schema()) == Seq::<Seq<char>>::empty(),
            settings_of(format.options()) == default_settings(),
    {
        Self::for_decoding()
    }
}

/// The media type that names an Arrow IPC stream.
pub open spec fn names_arrow(essence: Seq<char>) -> bool {
    same_but_case(essence, "application/vnd.apache.arrow.stream"@)
}

impl StreamFormat for ArrowRecordBatchIpcStreamFormat {
    open spec fn goes_by(&self, name: Seq<char>) -> bool {
        name == "arrow"@
    }

    open spec fn emits(&self, media_type: Seq<char>) -> bool {
        media_type == "application/vnd.apache.arrow.stream"@
    }

    fn format_name(&self) -> (name: &'static str) {
        "arrow"
    }

    fn default_content_type(&self) -> (media_type: &'static str) {
        "application/vnd.apache.arrow.stream"
    }

    fn accepts_content_type(&self, ct: &ContentType<'_>) -> (accepted: bool)
        ensures
            accepted == names_arrow(ct@),
    {
        ct.matches("application/vnd.apache.arrow.stream")
    }
}

/// Per-stream state for [`ArrowRecordBatchIpcStreamFormat`].
///
/// Genuinely stateful, unlike every other format here: the dictionary tracker spans the whole
/// stream, so batches cannot be encoded independently of one another.
pub struct ArrowIpcEncoder {
    schema: Arc<Schema>,
    options: IpcWriteOptions,
    data_gen: IpcDataGenerator,
    dictionary_tracker: DictionaryTracker,
    write_context: IpcWriteContext,
}

/// What an [`ArrowIpcEncoder`] goes by.
pub struct ArrowEncoding {
    pub schema: Schema,
    pub options: IpcWriteOptions,
    pub tracker: DictionaryTracker,
}

impl View for ArrowIpcEncoder {
    type V = ArrowEncoding;

    closed spec fn view(&self) -> ArrowEncoding {
        ArrowEncoding {
            schema: *self.schema,
            options: self.options,
            tracker: self.dictionary_tracker,
        }
    }
}

/// What encoding one batch comes to.
pub struct ArrowWritten {
    pub bytes: Seq<u8>,
    pub error: Option<ErrorView>,
    /// The tracker afterwards.
    pub tracker: DictionaryTracker,
}

/// Messages written one after the other, up to the first failure.
pub open spec fn messages_bytes(
    messages: Seq<EncodedData>,
    options: IpcWriteOptions,
) -> MessageBytes
    decreases messages.len(),
{
    if messages.len() == 0 {
        MessageBytes { bytes: seq![], error: None }
    } else {
        let before = messages_bytes(messages.drop_last(), options);
        if before.error is Some {
            before
        } else {
            let last = message_bytes(messages.last(), options);
            MessageBytes { bytes: before.bytes + last.bytes, error: last.error }
        }
    }
}

proof fn failure_is_kept(messages: Seq<EncodedData>, n: int, options: IpcWriteOptions)
    requires
        0 <= n <= messages.len(),
        messages_bytes(messages.take(n), options).error is Some,
    ensures
        messages_bytes(messages, options) == messages_bytes(messages.take(n), options),
    decreases messages.len(),
{
    if n < messages.len() {
        assert(messages.drop_last().take(n) == messages.take(n));
        failure_is_kept(messages.drop_last(), n, options);
    } else {
        assert(messages.take(n) == messages);
    }
}

/// What a schema or a batch is answered with whose metadata do not fit into a message.
pub open spec fn metadata_too_long() -> ErrorView {
    reason(StreamErrorKind::CodecError, "Arrow IPC metadata too long"@)
}

/// What a failure of `arrow` is reported as.
pub open spec fn reported(error: Option<ArrowError>) -> Option<ErrorView> {
    match error {
        Some(error) => Some(caused(StreamErrorKind::CodecError, ErrorSource::Arrow(error))),
        None => None,
    }
}

impl ArrowEncoding {
    /// The schema message goes ahead of the first batch and nowhere else.
    pub open spec fn opening(self, index: u64) -> ArrowWritten {
        if index == 0 && !schema_fits(self.schema) {
            ArrowWritten { bytes: seq![], error: Some(metadata_too_long()), tracker: self.tracker }
        } else if index == 0 {
            let schema = schema_message(self.schema, self.tracker, self.options);
            let written = message_bytes(schema.message, self.options);
            ArrowWritten {
                bytes: written.bytes,
                error: reported(written.error),
                tracker: schema.tracker,
            }
        } else {
            ArrowWritten { bytes: seq![], error: None, tracker: self.tracker }
        }
    }

    /// The opening, then the dictionaries that the batch needs, then the batch.
    pub open spec fn write(self, item: ArrowBatch, index: u64) -> ArrowWritten {
        let opening = self.opening(index);
        if opening.error is Some {
            opening
        } else if !batch_fits(item) {
            ArrowWritten { error: Some(metadata_too_long()), ..opening }
        } else {
            let made = batch_messages(item, opening.tracker, self.options);
            match made.messages {
                Err(error) => ArrowWritten {
                    error: reported(Some(error)),
                    tracker: made.tracker,
                    ..opening
                },
                Ok((dictionaries, batch)) => {
                    let written = messages_bytes(dictionaries.push(batch), self.options);
                    ArrowWritten {
                        bytes: opening.bytes + written.bytes,
                        error: reported(written.error),
                        tracker: made.tracker,
                    }
                },
            }
        }
    }
}

/// The four-byte continuation marker plus a zero length, which ends an Arrow IPC stream.
pub open spec fn end_of_stream() -> Seq<u8> {
    seq![0xffu8, 0xffu8, 0xffu8, 0xffu8, 0u8, 0u8, 0u8, 0u8]
}

impl ItemEncoder<ArrowBatch> for ArrowIpcEncoder {
    open spec fn opens(call: Call<Self>) -> bool {
        call.appended(seq![])
    }

    open spec fn takes(item: ArrowBatch) -> bool {
        true
    }

    open spec fn encodes(call: Call<Self>, item: ArrowBatch, index: u64) -> bool {
        let written = call.encoder@.write(item, index);
        &&& call.encoder_after@ == (ArrowEncoding { tracker: written.tracker, ..call.encoder@ })
        &&& call.buffer_after == call.buffer + written.bytes
        &&& match written.error {
            None => call.result is Ok,
            Some(error) => call.result matches Err(failure) && failure@ == error,
        }
    }

    open spec fn closes(call: Call<Self>) -> bool {
        call.appended(end_of_stream())
    }

    fn prologue(&mut self, buf: &mut BytesMut) -> (result: Result<(), StreamError>) {
        assert(held(*buf) + seq![] == held(*buf));
        Ok(())
    }

    fn encode(&mut self, item: ArrowBatch, index: u64, buf: &mut BytesMut) -> (result: Result<
        (),
        StreamError,
    >) {
        let ghost start = held(*buf);
        let ghost encoding = self@;
        let ghost opening = encoding.opening(index);
        if index == 0 {
            if !fits_schema(&self.schema) {
                assert(start + seq![] == start);
                return Err(
                    StreamError::because(
                        StreamErrorKind::CodecError,
                        "Arrow IPC metadata too long",
                    ),
                );
            }
            let message = encode_schema(
                &self.data_gen,
                &self.schema,
                &mut self.dictionary_tracker,
                &self.options,
            );
            let (bytes, outcome) = write_out(message, &self.options);
            match append_message(buf, bytes.as_slice(), outcome) {
                Ok(()) => {},
                Err(failure) => {
                    return Err(failure);
                },
            }
        }
        assert(held(*buf) == start + opening.bytes);
        assert(opening.error is None);
        if !fits_batch(&item) {
            return Err(
                StreamError::because(StreamErrorKind::CodecError, "Arrow IPC metadata too long"),
            );
        }
        let (dictionaries, message) = match encode_batch(
            &self.data_gen,
            &item,
            &mut self.dictionary_tracker,
            &self.options,
            &mut self.write_context,
        ) {
            Ok(messages) => messages,
            Err(error) => {
                return Err(StreamError::codec(ErrorSource::Arrow(error)));
            },
        };
        let ghost middle = held(*buf);
        let ghost first = dictionaries@;
        let ghost all = first.push(message);
        let ghost made = self@;
        assert(all.take(0) == Seq::<EncodedData>::empty());
        assert(middle + seq![] == middle);
        let count: usize = dictionaries.len();
        for dictionary in ready: dictionaries
            invariant
                ready.seq() == first,
                all == first.push(message),
                self@ == made,
                made == (ArrowEncoding { tracker: made.tracker, ..encoding }),
                encoding == old(self)@,
                start == held(*old(buf)),
                messages_bytes(all.take(ready.index()), encoding.options).error is None,
                held(*buf) == middle + messages_bytes(
                    all.take(ready.index()),
                    encoding.options,
                ).bytes,
                encoding.write(item, index).bytes == opening.bytes + messages_bytes(
                    all,
                    encoding.options,
                ).bytes,
                encoding.write(item, index).error == reported(
                    messages_bytes(all, encoding.options).error,
                ),
                encoding.write(item, index).tracker == made.tracker,
                middle == start + opening.bytes,
        {
            let ghost i = ready.index();
            let ghost before = messages_bytes(all.take(i), encoding.options).bytes;
            assert(dictionary == first[i]);
            assert(all.take(i + 1).drop_last() == all.take(i));
            assert(all.take(i + 1).last() == dictionary);
            let (bytes, outcome) = write_out(dictionary, &self.options);
            let written = append_message(buf, bytes.as_slice(), outcome);
            assert(held(*buf) == middle + messages_bytes(
                all.take(i + 1),
                encoding.options,
            ).bytes);
            match written {
                Ok(()) => {},
                Err(failure) => {
                    proof {
                        failure_is_kept(all, i + 1, encoding.options);
                        assert(held(*buf) == start + encoding.write(item, index).bytes);
                    }
                    return Err(failure);
                },
            }
        }
        assert(all.take(count as int) == all.drop_last());
        let (bytes, outcome) = write_out(message, &self.options);
        let written = append_message(buf, bytes.as_slice(), outcome);
        assert(held(*buf) == start + encoding.write(item, index).bytes);
        written
    }

    /// The end-of-stream marker. Emitted only on a clean end, so a truncated body stays
    /// visibly truncated rather than reading as a complete, empty-tailed stream.
    fn epilogue(&mut self, buf: &mut BytesMut) -> (result: Result<(), StreamError>) {
        let marker: Vec<u8> = vec![0xff, 0xff, 0xff, 0xff, 0, 0, 0, 0];
        assert(marker@ == end_of_stream());
        extend(buf, marker.as_slice());
        Ok(())
    }
}

impl StreamFormatEncode<ArrowBatch> for ArrowRecordBatchIpcStreamFormat {
    type Encoder = ArrowIpcEncoder;

    open spec fn builds(&self, encoder: ArrowIpcEncoder) -> bool {
        encoder@ == (ArrowEncoding {
            schema: self.schema(),
            options: self.options(),
            tracker: new_tracker(false),
        })
    }

    fn encoder(&self) -> (encoder: ArrowIpcEncoder) {
        ArrowIpcEncoder {
            schema: self.schema.clone(),
            options: self.options.clone(),
            data_gen: data_generator(),
            dictionary_tracker: dictionary_tracker(false),
            write_context: write_context(),
        }
    }
}

impl StreamFormatDecode<ArrowBatch> for ArrowRecordBatchIpcStreamFormat {
    type Frame = Result<ArrowBatch, StreamError>;

    type Framer = ArrowIpcCodec;

    type Parser = IdentityParser;

    open spec fn frames(&self, options: DecodeOptions, framer: ArrowIpcCodec) -> bool {
        &&& framer.ready()
        &&& framer@ == ArrowState::fresh(options.max_obj_len as nat)
    }

    fn framer(&self, options: &DecodeOptions) -> (framer: ArrowIpcCodec) {
        ArrowIpcCodec::new_with_max_length(options.max_obj_len)
    }

    fn parser(&self) -> (parser: IdentityParser) {
        IdentityParser
    }
}

} // verus!
