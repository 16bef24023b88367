//! Framework-neutral building blocks for streaming HTTP bodies as sequences of items.
//!
//! This crate holds the parts that are the same whichever HTTP library is in use: the wire
//! formats (encoding *and* decoding), the error type, and the progress/observability state
//! machine. It knows nothing about any specific client or server, and nothing about any runtime:
//! what waits for bytes or items calls in here with what has arrived.
//!
//! # Directionality
//!
//! Every format can encode. All but `text` can decode: text framing writes raw bytes with no
//! delimiter, so `["ab", "c"]` and `["a", "bc"]` are byte-identical on the wire and splitting
//! them back into items is not merely unimplemented but impossible.
//!
//! # What is proved
//!
//! Every function here has a contract that Verus proves, apart from those that make a call into
//! another crate: they say in their documentation what is relied on. What holds of several
//! functions together is stated by the functions whose names begin with `law_`.

pub mod arrow_fields;
pub mod arrow_format;
pub mod arrow_ipc_codec;
pub mod arrow_laws;
pub mod arrow_message;
pub mod arrow_message_laws;
pub mod arrow_metadata;
pub mod arrow_metadata_laws;
pub mod arrow_soundness_laws;
pub mod buffer;
pub mod call_laws;
pub mod codec_call_laws;
pub mod content_type;
pub mod csv_format;
pub mod csv_laws;
pub mod csv_record_codec;
pub mod encoder_laws;
pub mod envelope;
pub mod error;
pub mod format;
pub mod format_call_laws;
pub mod format_laws;
pub mod json_array_codec;
pub mod json_array_laws;
pub mod json_byte_laws;
pub mod json_formats;
pub mod json_nl_codec;
pub mod json_nl_laws;
pub mod octets;
pub mod progress;
pub mod progress_call_laws;
pub mod protobuf_format;
pub mod protobuf_laws;
pub mod protobuf_len_codec;
pub mod stream;
pub mod text_format;
pub mod wire_laws;

pub use arrow_format::{ArrowIpcEncoder, ArrowRecordBatchIpcStreamFormat};
pub use arrow_ipc_codec::{ArrowBatch, ArrowIpcCodec};
pub use buffer::{coalesce_ready, BytesBuffer};
pub use content_type::ContentType;
pub use csv_format::{CsvEncoder, CsvParser, CsvStreamFormat, CsvWriter, QuoteStyle};
pub use csv_record_codec::{CsvFrameConfig, CsvRecordCodec, Terminator};
pub use envelope::StreamFormatEnvelope;
pub use error::{ErrorSource, StreamError, StreamErrorKind};
pub use format::{
    DecodeOptions, DefaultFormat, FrameParser, IdentityParser, ItemEncoder, StreamFormat,
    StreamFormatDecode, StreamFormatEncode, DEFAULT_BUF_CAPACITY,
};
pub use json_array_codec::JsonArrayCodec;
pub use json_formats::{
    JsonArrayEncoder, JsonArrayStreamFormat, JsonNewLineEncoder, JsonNewLineStreamFormat, JsonText,
};
pub use json_nl_codec::JsonNewLineCodec;
pub use progress::{
    ChunkReport, Counting, Direction, ErrorInfo, Level, PollReport, Polled, Progress, ProgressItem,
    ProgressOptions, ProgressState, Report, Side, SpanFields, StreamContext, StreamOutcome,
    StreamProgress,
};
pub use protobuf_format::{ProtobufEncoder, ProtobufStreamFormat};
pub use protobuf_len_codec::ProtobufLenPrefixCodec;
pub use stream::{parse_frame, Action, EncodeState};
pub use text_format::{TextEncoder, TextStreamFormat};
