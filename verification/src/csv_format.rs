//! CSV, both directions.

use crate::content_type::{same_but_case, ContentType};
use crate::csv_record_codec::{
    reader_for, CsvFrameConfig, CsvRecordCodec, CsvState, Terminator, INITIAL_ENDS, INITIAL_FIELDS,
};
use crate::error::{caused, ErrorSource, StreamError, StreamErrorKind};
use crate::format::{
    Call, DecodeOptions, DefaultFormat, FrameParser, ItemEncoder, StreamFormat,
    StreamFormatDecode, StreamFormatEncode,
};
use crate::octets::{extend, held};
use bytes::BytesMut;
use vstd::prelude::*;

verus! {

/// When a field is put in quotes.
#[derive(Clone, Copy, Debug, PartialEq, Eq, Structural)]
pub enum QuoteStyle {
    /// Always.
    Always,
    /// Where it has to be.
    Necessary,
    /// Where it is no number.
    NonNumeric,
    /// Never, even if that makes invalid CSV.
    Never,
}

/// CSV rows, with an optional header row.
#[derive(Debug, Clone, Copy)]
pub struct CsvStreamFormat {
    has_headers: bool,
    delimiter: u8,
    flexible: bool,
    quote_style: QuoteStyle,
    quote: u8,
    double_quote: bool,
    escape: u8,
    terminator: Terminator,
}

/// How a [`CsvStreamFormat`] is set up.
pub struct CsvSettings {
    /// Whether there is a header row.
    pub has_headers: bool,
    /// What stands between two fields.
    pub delimiter: u8,
    /// Whether rows may differ in length.
    pub flexible: bool,
    /// When a field is put in quotes.
    pub quote_style: QuoteStyle,
    /// The quote character.
    pub quote: u8,
    /// Whether a quote within a field is doubled.
    pub double_quote: bool,
    /// What stands before a quote within a field where it is not doubled.
    pub escape: u8,
    /// What ends a row.
    pub terminator: Terminator,
}

impl View for CsvStreamFormat {
    type V = CsvSettings;

    closed spec fn view(&self) -> CsvSettings {
        CsvSettings {
            has_headers: self.has_headers,
            delimiter: self.delimiter,
            flexible: self.flexible,
            quote_style: self.quote_style,
            quote: self.quote,
            double_quote: self.double_quote,
            escape: self.escape,
            terminator: self.terminator,
        }
    }
}

impl CsvSettings {
    /// A header row, commas, and quotes where they are necessary.
    pub open spec fn default() -> CsvSettings {
        CsvSettings {
            has_headers: true,
            delimiter: 0x2c,
            flexible: false,
            quote_style: QuoteStyle::Necessary,
            quote: 0x22,
            double_quote: true,
            escape: 0x5c,
            terminator: Terminator::Any(0x0a),
        }
    }

    /// How the rows are to be read back.
    ///
    /// The writer escapes by doubling unless `double_quote` is off, so the escape character only
    /// applies in the other case.
    pub open spec fn framing(self) -> CsvFrameConfig {
        CsvFrameConfig {
            delimiter: self.delimiter,
            quote: self.quote,
            double_quote: self.double_quote,
            escape: if self.double_quote {
                None
            } else {
                Some(self.escape)
            },
            terminator: self.terminator,
        }
    }
}

/// `csv::Writer` over a `Vec<u8>`.
#[verifier::external_body]
#[derive(Debug)]
pub struct CsvWriter {
    /// The writer itself.
    pub writer: csv::Writer<Vec<u8>>,
}

/// The writer that `csv::WriterBuilder` makes of a setup.
pub uninterp spec fn writer_for(settings: CsvSettings, write_headers: bool) -> CsvWriter;

/// The bytes of the rows that a writer has been given.
pub uninterp spec fn rows(writer: CsvWriter) -> Seq<u8>;

/// `csv::WriterBuilder::from_writer` with an empty `Vec`: a writer that has been given nothing.
#[verifier::external_body]
fn new_writer(format: &CsvStreamFormat, write_headers: bool) -> (writer: CsvWriter)
    ensures
        writer == writer_for(format@, write_headers),
        rows(writer) == Seq::<u8>::empty(),
{
    let style = match format.quote_style {
        QuoteStyle::Always => csv::QuoteStyle::Always,
        QuoteStyle::Necessary => csv::QuoteStyle::Necessary,
        QuoteStyle::NonNumeric => csv::QuoteStyle::NonNumeric,
        QuoteStyle::Never => csv::QuoteStyle::Never,
    };
    let end = match format.terminator {
        Terminator::CRLF => csv::Terminator::CRLF,
        Terminator::Any(byte) => csv::Terminator::Any(byte),
    };
    let mut builder = csv::WriterBuilder::new();
    builder.has_headers(write_headers).delimiter(format.delimiter).flexible(format.flexible);
    builder.quote_style(style).quote(format.quote).double_quote(format.double_quote);
    builder.escape(format.escape).terminator(end);
    CsvWriter { writer: builder.from_writer(Vec::new()) }
}

/// `csv::Writer::flush`: moves what is buffered on to the underlying `Vec`, which cannot fail.
#[verifier::external_body]
fn flush(writer: &mut CsvWriter) -> (res: Result<(), std::io::Error>)
    ensures
        res is Ok,
        rows(*final(writer)) == rows(*old(writer)),
{
    writer.writer.flush()
}

/// `csv::Writer::into_inner`: the `Vec` with all rows, which cannot fail.
#[verifier::external_body]
fn into_rows(writer: CsvWriter) -> (res: Result<Vec<u8>, std::io::Error>)
    ensures
        res is Ok,
        res->Ok_0@ == rows(writer),
{
    writer.writer.into_inner().map_err(|err| err.into_error())
}

impl Default for CsvStreamFormat {
    fn default() -> (format: Self)
        ensures
            format@ == CsvSettings::default(),
    {
        CsvStreamFormat {
            has_headers: true,
            delimiter: 0x2c,
            flexible: false,
            quote_style: QuoteStyle::Necessary,
            quote: 0x22,
            double_quote: true,
            escape: 0x5c,
            terminator: Terminator::Any(0x0a),
        }
    }
}

impl DefaultFormat for CsvStreamFormat {
    fn default_format() -> (format: Self)
        ensures
            format@ == CsvSettings::default(),
    {
        Self::default()
    }
}

impl CsvStreamFormat {
    /// CSV with the given header behaviour and field delimiter, everything else default.
    pub fn new(has_headers: bool, delimiter: u8) -> (format: Self)
        ensures
            format@ == (CsvSettings { has_headers, delimiter, ..CsvSettings::default() }),
    {
        CsvStreamFormat { has_headers, delimiter, ..Self::default() }
    }

    /// Sets whether to use flexible serialize.
    ///
    /// Encode only. On the way back in, records are framed and deserialised one at a time, so
    /// there is no "first record" to compare a field count against.
    pub fn with_flexible(self, flexible: bool) -> (format: Self)
        ensures
            format@ == (CsvSettings { flexible, ..self@ }),
    {
        CsvStreamFormat { flexible, ..self }
    }

    /// Sets the quote style to use.
    pub fn with_quote_style(self, quote_style: QuoteStyle) -> (format: Self)
        ensures
            format@ == (CsvSettings { quote_style, ..self@ }),
    {
        CsvStreamFormat { quote_style, ..self }
    }

    /// Sets the quote character to use.
    pub fn with_quote(self, quote: u8) -> (format: Self)
        ensures
            format@ == (CsvSettings { quote, ..self@ }),
    {
        CsvStreamFormat { quote, ..self }
    }

    /// Sets whether to double quote.
    pub fn with_double_quote(self, double_quote: bool) -> (format: Self)
        ensures
            format@ == (CsvSettings { double_quote, ..self@ }),
    {
        CsvStreamFormat { double_quote, ..self }
    }

    /// Sets the escape character to use.
    pub fn with_escape(self, escape: u8) -> (format: Self)
        ensures
            format@ == (CsvSettings { escape, ..self@ }),
    {
        CsvStreamFormat { escape, ..self }
    }

    /// Sets the record terminator to use.
    ///
    /// Honoured in both directions: the framer is configured from the same value.
    pub fn with_terminator(self, terminator: Terminator) -> (format: Self)
        ensures
            format@ == (CsvSettings { terminator, ..self@ }),
    {
        CsvStreamFormat { terminator, ..self }
    }

    /// Set the field delimiter to use.
    pub fn with_delimiter(self, delimiter: u8) -> (format: Self)
        ensures
            format@ == (CsvSettings { delimiter, ..self@ }),
    {
        CsvStreamFormat { delimiter, ..self }
    }

    /// Set whether to write headers.
    pub fn with_has_headers(self, has_headers: bool) -> (format: Self)
        ensures
            format@ == (CsvSettings { has_headers, ..self@ }),
    {
        CsvStreamFormat { has_headers, ..self }
    }

    fn frame_config(&self) -> (config: CsvFrameConfig)
        ensures
            config == self@.framing(),
    {
        CsvFrameConfig {
            delimiter: self.delimiter,
            quote: self.quote,
            double_quote: self.double_quote,
            escape: if self.double_quote {
                None
            } else {
                Some(self.escape)
            },
            terminator: self.terminator,
        }
    }
}

/// The media types that name CSV.
pub open spec fn names_csv(essence: Seq<char>) -> bool {
    same_but_case(essence, "text/csv"@) || same_but_case(essence, "application/csv"@)
}

impl StreamFormat for CsvStreamFormat {
    open spec fn goes_by(&self, name: Seq<char>) -> bool {
        name == "csv"@
    }

    open spec fn emits(&self, media_type: Seq<char>) -> bool {
        media_type == "text/csv"@
    }

    fn format_name(&self) -> (name: &'static str) {
        "csv"
    }

    fn default_content_type(&self) -> (media_type: &'static str) {
        "text/csv"
    }

    fn accepts_content_type(&self, ct: &ContentType<'_>) -> (accepted: bool)
        ensures
            accepted == names_csv(ct@),
    {
        let aliases: Vec<&str> = vec!["text/csv", "application/csv"];
        proof {
            assert(aliases@[0]@ == "text/csv"@);
            assert(aliases@[1]@ == "application/csv"@);
        }
        ct.matches_any(aliases.as_slice())
    }
}

/// Per-stream state for [`CsvStreamFormat`].
///
/// A fresh `csv::Writer` is built for every row, because `csv` writes its header from the
/// first serialised record and there is no way to ask an existing writer to stop. The header
/// therefore has to be produced by a writer configured for it, and every later row by one that
/// is not.
///
/// An item is what hands its row to the writer.
#[derive(Debug)]
pub struct CsvEncoder {
    format: CsvStreamFormat,
}

impl View for CsvEncoder {
    type V = CsvSettings;

    closed spec fn view(&self) -> CsvSettings {
        self.format@
    }
}

/// What encoding a row comes to, where handing it to the writer came to `outcome`.
pub open spec fn row_written<E>(
    call: Call<E>,
    outcome: Result<CsvWriter, csv::Error>,
) -> bool {
    match outcome {
        Ok(writer) => call.appended(rows(writer)),
        Err(err) => {
            &&& call.encoder_after == call.encoder
            &&& call.buffer_after == call.buffer
            &&& call.result matches Err(error)
            &&& error@ == caused(StreamErrorKind::CodecError, ErrorSource::Csv(err))
        },
    }
}

/// What encoding a row comes to, where `item` hands it to `writer`.
pub open spec fn row_handed<E, R: FnOnce(CsvWriter) -> Result<CsvWriter, csv::Error>>(
    item: R,
    writer: CsvWriter,
    call: Call<E>,
) -> bool {
    exists|outcome: Result<CsvWriter, csv::Error>| #[trigger]
        call_ensures(item, (writer,), outcome) && row_written(call, outcome)
}

impl<R: FnOnce(CsvWriter) -> Result<CsvWriter, csv::Error>> ItemEncoder<R> for CsvEncoder {
    open spec fn opens(call: Call<Self>) -> bool {
        call.appended(seq![])
    }

    open spec fn takes(item: R) -> bool {
        forall|writer: CsvWriter| #[trigger] call_requires(item, (writer,))
    }

    open spec fn encodes(call: Call<Self>, item: R, index: u64) -> bool {
        row_handed(
            item,
            writer_for(call.encoder@, index == 0 && call.encoder@.has_headers),
            call,
        )
    }

    open spec fn closes(call: Call<Self>) -> bool {
        call.appended(seq![])
    }

    fn prologue(&mut self, buf: &mut BytesMut) -> (result: Result<(), StreamError>) {
        assert(held(*buf) + seq![] == held(*buf));
        Ok(())
    }

    fn encode(&mut self, item: R, index: u64, buf: &mut BytesMut) -> (result: Result<
        (),
        StreamError,
    >) {
        let write_headers = index == 0 && self.format.has_headers;
        let fresh = new_writer(&self.format, write_headers);
        let outcome = item(fresh);
        let ghost came = outcome;
        let ghost writer = writer_for(self@, index == 0 && self@.has_headers);
        assert(call_ensures(item, (writer,), came));
        let mut writer = match outcome {
            Ok(writer) => writer,
            Err(err) => {
                return Err(StreamError::codec(ErrorSource::Csv(err)));
            },
        };
        if let Err(err) = flush(&mut writer) {
            return Err(StreamError::codec(ErrorSource::Io(err)));
        }
        match into_rows(writer) {
            Ok(bytes) => {
                extend(buf, bytes.as_slice());
                Ok(())
            },
            Err(err) => Err(StreamError::codec(ErrorSource::Io(err))),
        }
    }

    fn epilogue(&mut self, buf: &mut BytesMut) -> (result: Result<(), StreamError>) {
        assert(held(*buf) + seq![] == held(*buf));
        Ok(())
    }
}

impl<R: FnOnce(CsvWriter) -> Result<CsvWriter, csv::Error>> StreamFormatEncode<
    R,
> for CsvStreamFormat {
    type Encoder = CsvEncoder;

    open spec fn builds(&self, encoder: CsvEncoder) -> bool {
        encoder@ == self@
    }

    fn encoder(&self) -> (encoder: CsvEncoder) {
        CsvEncoder { format: *self }
    }
}

/// Reports one deserialised CSV record.
///
/// Positional, not by header name: the header row is consumed by the framer and discarded.
#[derive(Debug, Clone, Copy, Default)]
pub struct CsvParser;

impl<T> FrameParser<Result<T, csv::Error>, T> for CsvParser {
    open spec fn parses(&self, frame: Result<T, csv::Error>, item: Result<T, StreamError>) -> bool {
        match frame {
            Ok(value) => item == Ok::<T, StreamError>(value),
            Err(err) => item matches Err(error) && error@ == caused(
                StreamErrorKind::CodecError,
                ErrorSource::Csv(err),
            ),
        }
    }

    fn parse(&self, frame: Result<T, csv::Error>) -> (item: Result<T, StreamError>) {
        match frame {
            Ok(value) => Ok(value),
            Err(err) => Err(StreamError::codec(ErrorSource::Csv(err))),
        }
    }
}

impl<T> StreamFormatDecode<T> for CsvStreamFormat {
    type Frame = Result<T, csv::Error>;

    type Framer = CsvRecordCodec;

    type Parser = CsvParser;

    open spec fn frames(&self, options: DecodeOptions, framer: CsvRecordCodec) -> bool {
        &&& framer.ready()
        &&& framer@ == (CsvState {
            mode: reader_for(self@.framing()),
            fields: seq![],
            ends: seq![],
            room: INITIAL_FIELDS as nat,
            ends_room: INITIAL_ENDS as nat,
            header_pending: self@.has_headers,
            limit: options.max_obj_len as nat,
        })
    }

    fn framer(&self, options: &DecodeOptions) -> (framer: CsvRecordCodec) {
        CsvRecordCodec::new(self.frame_config(), self.has_headers, options.max_obj_len)
    }

    fn parser(&self) -> (parser: CsvParser) {
        CsvParser
    }
}

/// The settings that are in force where nothing else is asked for: a header row, fields between
/// commas, rows ended by a line feed, quotes where they are necessary, doubled within a field.
pub proof fn law_default_settings()
    ensures
        CsvSettings::default().has_headers,
        CsvSettings::default().delimiter == 0x2c,
        !CsvSettings::default().flexible,
        CsvSettings::default().quote_style == QuoteStyle::Necessary,
        CsvSettings::default().quote == 0x22,
        CsvSettings::default().double_quote,
        CsvSettings::default().escape == 0x5c,
        CsvSettings::default().terminator == Terminator::Any(0x0a),
{
}

/// Rows are read by the settings that they are written by; what stands before a quote within a field
/// counts only where quotes are not doubled.
pub proof fn law_rows_are_read_as_they_are_written(settings: CsvSettings)
    ensures
        settings.framing().delimiter == settings.delimiter,
        settings.framing().quote == settings.quote,
        settings.framing().double_quote == settings.double_quote,
        settings.framing().terminator == settings.terminator,
        settings.double_quote ==> settings.framing().escape is None,
        !settings.double_quote ==> settings.framing().escape == Some(settings.escape),
{
}

/// A record that could not be deserialised is reported with the reason, any other as it is.
pub proof fn law_records_are_reported<T>(
    parser: CsvParser,
    frame: Result<T, csv::Error>,
    item: Result<T, StreamError>,
)
    requires
        parser.parses(frame, item),
    ensures
        match frame {
            Ok(value) => item == Ok::<T, StreamError>(value),
            Err(err) => {
                &&& item matches Err(error)
                &&& error@.kind == StreamErrorKind::CodecError
                &&& error@.source == Some(ErrorSource::Csv(err))
                &&& error@.message is None
            },
        },
{
}

} // verus!
