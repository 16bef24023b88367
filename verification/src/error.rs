//! The error type shared by every streaming format, in both directions.

use vstd::prelude::*;

verus! {

/// `serde_json::Error`, carried but never looked into.
#[verifier::external_type_specification]
#[verifier::external_body]
pub struct ExJsonError(serde_json::Error);

/// `csv::Error`, carried but never looked into.
#[verifier::external_type_specification]
#[verifier::external_body]
pub struct ExCsvError(csv::Error);

/// `prost::DecodeError`, carried but never looked into.
#[verifier::external_type_specification]
#[verifier::external_body]
pub struct ExProtobufError(prost::DecodeError);

/// `arrow::error::ArrowError`, carried but never looked into.
#[verifier::external_type_specification]
#[verifier::external_body]
pub struct ExArrowError(arrow::error::ArrowError);

/// `std::io::Error`, carried but never looked into.
#[verifier::external_type_specification]
#[verifier::external_body]
pub struct ExIoError(std::io::Error);

/// What lay underneath a [`StreamError`].
///
/// `Io` doubles as the way in for an error of any other type: `std::io::Error::other` boxes one
/// and `std::io::Error::into_inner` hands it back.
#[derive(Debug)]
pub enum ErrorSource {
    /// A JSON value could not be read or written.
    Json(serde_json::Error),
    /// A CSV record could not be read or written.
    Csv(csv::Error),
    /// A protobuf message could not be read.
    Protobuf(prost::DecodeError),
    /// An Arrow IPC message could not be read or written.
    Arrow(arrow::error::ArrowError),
    /// Reading or writing failed, or an error of some other type is carried along.
    Io(std::io::Error),
}

/// The kind of error that occurred.
#[derive(Clone, Copy, Debug, PartialEq, Eq, Structural)]
#[non_exhaustive]
pub enum StreamErrorKind {
    /// An error occured while encoding or decoding a frame or format.
    CodecError,
    /// An error occured while reading or writing the stream.
    InputOutputError,
    /// The maximum length of a single object was exceeded.
    MaxLenReachedError,
    /// The maximum length of the whole body was exceeded.
    ///
    /// Only reachable on the receiving side, where the peer is not trusted.
    MaxBodyLenReachedError,
}

impl StreamErrorKind {
    /// The name that [`as_str`](Self::as_str) reports.
    pub open spec fn name(self) -> Seq<char> {
        match self {
            StreamErrorKind::CodecError => "codec"@,
            StreamErrorKind::InputOutputError => "io"@,
            StreamErrorKind::MaxLenReachedError => "max_len"@,
            StreamErrorKind::MaxBodyLenReachedError => "max_body_len"@,
        }
    }

    /// The sentence that opens a rendered error of this kind.
    pub open spec fn headline(self) -> Seq<char> {
        match self {
            StreamErrorKind::CodecError => "Frame/codec error"@,
            StreamErrorKind::InputOutputError => "I/O error"@,
            StreamErrorKind::MaxLenReachedError => "Max object length reached"@,
            StreamErrorKind::MaxBodyLenReachedError => "Max body length reached"@,
        }
    }

    /// A short, stable name for this kind, so that errors can be aggregated without parsing
    /// their rendered text.
    pub fn as_str(&self) -> (name: &'static str)
        ensures
            name@ == self.name(),
    {
        match self {
            StreamErrorKind::CodecError => "codec",
            StreamErrorKind::InputOutputError => "io",
            StreamErrorKind::MaxLenReachedError => "max_len",
            StreamErrorKind::MaxBodyLenReachedError => "max_body_len",
        }
    }
}

/// The error that may occur while encoding or decoding a streamed HTTP body.
#[derive(Debug)]
pub struct StreamError {
    kind: StreamErrorKind,
    source: Option<ErrorSource>,
    message: Option<String>,
}

/// What a [`StreamError`] says.
pub struct ErrorView {
    pub kind: StreamErrorKind,
    pub source: Option<ErrorSource>,
    pub message: Option<Seq<char>>,
}

/// The characters of an optional text.
pub open spec fn text_of(text: Option<String>) -> Option<Seq<char>> {
    match text {
        Some(text) => Some(text@),
        None => None,
    }
}

/// An error of `kind` that carries a message and no source.
pub open spec fn reason(kind: StreamErrorKind, message: Seq<char>) -> ErrorView {
    ErrorView { kind, source: None, message: Some(message) }
}

/// An error of `kind` that carries a source and no message.
pub open spec fn caused(kind: StreamErrorKind, source: ErrorSource) -> ErrorView {
    ErrorView { kind, source: Some(source), message: None }
}

/// The rendered form of an error whose source, if any, renders as `source`.
pub open spec fn rendered(error: ErrorView, source: Option<Seq<char>>) -> Seq<char> {
    let with_message = match error.message {
        Some(message) => error.kind.headline() + ": "@ + message,
        None => error.kind.headline(),
    };
    match source {
        Some(source) => with_message + ": "@ + source,
        None => with_message,
    }
}

impl View for StreamError {
    type V = ErrorView;

    closed spec fn view(&self) -> ErrorView {
        ErrorView { kind: self.kind, source: self.source, message: text_of(self.message) }
    }
}

impl StreamError {
    /// Create a new instance of an error.
    ///
    /// Public so that formats implemented outside this crate can report failures the same way
    /// the built-in ones do.
    pub fn new(
        kind: StreamErrorKind,
        source: Option<ErrorSource>,
        message: Option<String>,
    ) -> (error: Self)
        ensures
            error@ == (ErrorView { kind, source, message: text_of(message) }),
    {
        StreamError { kind, source, message }
    }

    /// The kind of error that occurred.
    pub fn kind(&self) -> (kind: StreamErrorKind)
        ensures
            kind == self@.kind,
    {
        self.kind
    }

    /// The actual error that occurred.
    pub fn source(&self) -> (source: Option<&ErrorSource>)
        ensures
            match source {
                Some(source) => self@.source == Some(*source),
                None => self@.source is None,
            },
    {
        self.source.as_ref()
    }

    /// The message associated with the error.
    pub fn message(&self) -> (message: Option<&str>)
        ensures
            match message {
                Some(message) => self@.message == Some(message@),
                None => self@.message is None,
            },
    {
        match &self.message {
            Some(message) => Some(message.as_str()),
            None => None,
        }
    }

    /// Takes the error apart, giving up ownership of its cause.
    ///
    /// Exists so a binding crate can wrap its own error type to pass it through this crate's
    /// pipeline and then recover the *original* on the way out.
    pub fn into_parts(self) -> (parts: (StreamErrorKind, Option<ErrorSource>, Option<String>))
        ensures
            self@ == (ErrorView { kind: parts.0, source: parts.1, message: text_of(parts.2) }),
    {
        (self.kind, self.source, self.message)
    }

    /// A codec error carrying `source` as its cause.
    pub fn codec(source: ErrorSource) -> (error: Self)
        ensures
            error@ == caused(StreamErrorKind::CodecError, source),
    {
        Self::new(StreamErrorKind::CodecError, Some(source), None)
    }

    /// An I/O error carrying `source` as its cause.
    pub fn io(source: ErrorSource) -> (error: Self)
        ensures
            error@ == caused(StreamErrorKind::InputOutputError, source),
    {
        Self::new(StreamErrorKind::InputOutputError, Some(source), None)
    }

    /// An error of `kind` explained by `message` alone.
    pub(crate) fn because(kind: StreamErrorKind, message: &str) -> (error: Self)
        ensures
            error@ == reason(kind, message@),
    {
        Self::new(kind, None, Some(message.to_owned()))
    }

    /// The error as one line of text, given the text of its source.
    pub fn render(&self, source: Option<&str>) -> (text: String)
        ensures
            text@ == rendered(self@, match source {
                Some(source) => Some(source@),
                None => None,
            }),
    {
        let mut text: String = match self.kind {
            StreamErrorKind::CodecError => "Frame/codec error",
            StreamErrorKind::InputOutputError => "I/O error",
            StreamErrorKind::MaxLenReachedError => "Max object length reached",
            StreamErrorKind::MaxBodyLenReachedError => "Max body length reached",
        }.to_owned();
        if let Some(message) = &self.message {
            text.append(": ");
            text.append(message.as_str());
        }
        if let Some(source) = source {
            text.append(": ");
            text.append(source);
        }
        text
    }
}

impl vstd::std_specs::convert::FromSpecImpl<std::io::Error> for StreamError {
    open spec fn obeys_from_spec() -> bool {
        true
    }

    closed spec fn from_spec(err: std::io::Error) -> Self {
        StreamError {
            kind: StreamErrorKind::InputOutputError,
            source: Some(ErrorSource::Io(err)),
            message: None,
        }
    }
}

impl From<std::io::Error> for StreamError {
    fn from(err: std::io::Error) -> (error: Self)
        ensures
            error@ == caused(StreamErrorKind::InputOutputError, ErrorSource::Io(err)),
    {
        StreamError {
            kind: StreamErrorKind::InputOutputError,
            source: Some(ErrorSource::Io(err)),
            message: None,
        }
    }
}

/// The name of every kind, by which errors are told apart without reading them.
pub proof fn law_kinds_have_names()
    ensures
        StreamErrorKind::CodecError.name() == "codec"@,
        StreamErrorKind::InputOutputError.name() == "io"@,
        StreamErrorKind::MaxLenReachedError.name() == "max_len"@,
        StreamErrorKind::MaxBodyLenReachedError.name() == "max_body_len"@,
{
}

/// An error is rendered as the sentence of its kind, then its message and then its source, each
/// behind a colon and a space, and each only where there is one.
pub proof fn law_how_errors_are_rendered(error: ErrorView, message: Seq<char>, source: Seq<char>)
    ensures
        ({
            let kind = match error.kind {
                StreamErrorKind::CodecError => "Frame/codec error"@,
                StreamErrorKind::InputOutputError => "I/O error"@,
                StreamErrorKind::MaxLenReachedError => "Max object length reached"@,
                StreamErrorKind::MaxBodyLenReachedError => "Max body length reached"@,
            };
            let bare = ErrorView { message: None, ..error };
            let told = ErrorView { message: Some(message), ..error };
            &&& rendered(bare, None) == kind
            &&& rendered(told, None) == kind + ": "@ + message
            &&& rendered(bare, Some(source)) == kind + ": "@ + source
            &&& rendered(told, Some(source)) == kind + ": "@ + message + ": "@ + source
        }),
{
}

/// An error that is explained carries the explanation and nothing else, one that was caused its
/// cause and nothing else.
pub proof fn law_reasons_and_causes(kind: StreamErrorKind, message: Seq<char>, source: ErrorSource)
    ensures
        reason(kind, message).kind == kind,
        reason(kind, message).message == Some(message),
        reason(kind, message).source is None,
        caused(kind, source).kind == kind,
        caused(kind, source).source == Some(source),
        caused(kind, source).message is None,
{
}

} // verus!
