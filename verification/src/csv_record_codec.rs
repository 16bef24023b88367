//! Framing CSV records.
//!
//! Built directly on `csv-core` rather than on line splitting: a CSV field may contain a newline
//! when quoted, and this crate's own encoder emits exactly that. Splitting on `\n` truncates such
//! a field and yields the remainder as a bogus record.
//!
//! The framer is not generic over the item type. Deserialisation happens in a separate step.

use crate::error::{reason, ErrorView, StreamError, StreamErrorKind};
use crate::octets::{advance, buffer_len, buffer_slice, held};
use bytes::BytesMut;
use vstd::prelude::*;
use vstd::slice::slice_subrange;

verus! {

/// Initial size of the field buffer; it grows on demand.
pub const INITIAL_FIELDS: usize = 512;

/// Initial size of the offset buffer; it grows on demand.
pub const INITIAL_ENDS: usize = 16;

/// The field buffer is doubled only below this length: no allocation is larger than `isize::MAX`
/// bytes.
pub const MAX_FIELDS: usize = usize::MAX / 4;

/// The offset buffer is doubled only below this length.
pub const MAX_ENDS: usize = usize::MAX / 32;

/// `csv_core::Reader`, the state machine that splits records into fields.
#[verifier::external_type_specification]
#[verifier::external_body]
pub struct ExCoreReader(csv_core::Reader);

/// `csv::ByteRecord`, one record as raw bytes.
#[verifier::external_type_specification]
#[verifier::external_body]
pub struct ExByteRecord(csv::ByteRecord);

/// The fields that a `csv::ByteRecord` holds.
pub uninterp spec fn fields_of(record: csv::ByteRecord) -> Seq<Seq<u8>>;

/// What ends a record.
#[derive(Clone, Copy, Debug, PartialEq, Eq, Structural)]
pub enum Terminator {
    /// `\r`, `\n` or `\r\n`.
    CRLF,
    /// The given byte.
    Any(u8),
}

/// How to frame CSV records.
#[derive(Debug, Clone, Copy, PartialEq, Eq, Structural)]
pub struct CsvFrameConfig {
    /// Field delimiter.
    pub delimiter: u8,
    /// Quote character.
    pub quote: u8,
    /// Whether a doubled quote character is an escaped quote.
    pub double_quote: bool,
    /// Escape character, if escaping is by prefix rather than by doubling.
    pub escape: Option<u8>,
    /// Record terminator.
    pub terminator: Terminator,
}

/// Why `csv_core::Reader::read_record` stopped.
#[derive(Clone, Copy, Debug, PartialEq, Eq, Structural)]
pub enum ReadStatus {
    /// The input ran out before the end of a record.
    InputEmpty,
    /// There is no more room for field bytes.
    OutputFull,
    /// There is no more room for end positions.
    OutputEndsFull,
    /// The end of a record was found.
    Record,
    /// All input has been read.
    End,
}

/// What a `csv_core::Reader` goes by. Its line count is no part of it: no record depends on that.
pub struct ReaderMode {
    /// It has been given something to read.
    pub started: bool,
    /// How many field bytes it has written of the record it is in.
    pub pos: nat,
    /// Its configuration, and where in a record it is.
    pub place: int,
}

/// What a `csv_core::Reader` goes by.
pub uninterp spec fn mode_of(reader: csv_core::Reader) -> ReaderMode;

/// What one call of `csv_core::Reader::read_record` comes to.
pub struct CsvRead {
    pub status: ReadStatus,
    /// How many bytes of the input were read.
    pub read: nat,
    /// The field bytes that were written.
    pub fields: Seq<u8>,
    /// The end positions that were written.
    pub ends: Seq<usize>,
    /// What the reader goes by afterwards.
    pub mode: ReaderMode,
}

/// What the reader that `csv_core::ReaderBuilder::build` makes of a configuration goes by.
pub uninterp spec fn reader_for(config: CsvFrameConfig) -> ReaderMode;

/// What `csv_core::Reader::read_record` makes of an input, with room for so many field bytes and
/// so many end positions.
pub uninterp spec fn csv_read(
    mode: ReaderMode,
    input: Seq<u8>,
    room: nat,
    ends_room: nat,
) -> CsvRead;

/// What holds of a call of `csv_core::Reader::read_record` with `pos` field bytes of the record
/// written before it.
pub open spec fn in_bounds(
    step: CsvRead,
    pos: nat,
    input: nat,
    room: nat,
    ends_room: nat,
) -> bool {
    &&& step.read <= input
    &&& step.fields.len() <= room
    &&& step.ends.len() <= ends_room
    &&& step.mode.started
    &&& step.mode.pos == (if step.status == ReadStatus::Record {
        0
    } else {
        pos + step.fields.len()
    })
    // End positions count from the start of the record and never go down.
    &&& forall|i: int|
        0 <= i < step.ends.len() ==> pos <= #[trigger] step.ends[i] <= pos + step.fields.len()
    &&& forall|i: int, j: int|
        0 <= i <= j < step.ends.len() ==> #[trigger] step.ends[i] <= #[trigger] step.ends[j]
    // No input is the end of all input: it makes the last record whole, or ends it.
    &&& input == 0 ==> step.fields.len() == 0 && step.status != ReadStatus::InputEmpty
        && step.status != ReadStatus::OutputFull
    &&& input == 0 && step.status == ReadStatus::OutputEndsFull ==> ends_room == 0
    // Input is read unless there is no room.
    &&& input > 0 && room > 0 && ends_room > 0 ==> step.read > 0
    &&& input > 0 && room == 0 ==> step.status == ReadStatus::OutputFull || step.status
        == ReadStatus::End
    &&& input > 0 && room > 0 && ends_room == 0 ==> step.status == ReadStatus::OutputEndsFull
        || step.status == ReadStatus::End
    &&& input > 0 && (room == 0 || ends_room == 0) ==> step.fields.len() == 0 && step.ends.len()
        == 0
    &&& input > 0 && (step.status == ReadStatus::InputEmpty || step.status == ReadStatus::End)
        ==> step.read == input
}

/// Whether `input` begins with the byte order mark of UTF-8.
pub open spec fn is_marked(input: Seq<u8>) -> bool {
    input.len() >= 3 && input[0] == 0xef && input[1] == 0xbb && input[2] == 0xbf
}

/// Two calls as one: `rest` goes on where `first` ran out of input.
pub open spec fn joined(first: CsvRead, rest: CsvRead) -> CsvRead {
    CsvRead {
        status: rest.status,
        read: first.read + rest.read,
        fields: first.fields + rest.fields,
        ends: first.ends + rest.ends,
        mode: rest.mode,
    }
}

/// What reading `input` in two pieces, the first of `n` bytes, comes to.
pub open spec fn in_two(
    mode: ReaderMode,
    input: Seq<u8>,
    n: int,
    room: nat,
    ends_room: nat,
) -> CsvRead {
    let first = csv_read(mode, input.take(n), room, ends_room);
    if first.status == ReadStatus::InputEmpty || first.status == ReadStatus::End {
        joined(
            first,
            csv_read(
                first.mode,
                input.skip(n),
                (room - first.fields.len()) as nat,
                (ends_room - first.ends.len()) as nat,
            ),
        )
    } else {
        first
    }
}

/// What holds of the next call of `csv_core::Reader::read_record`, where the field bytes of a
/// record can be counted.
pub open spec fn reads_on(mode: ReaderMode) -> bool {
    &&& forall|input: Seq<u8>, room: nat, ends_room: nat|
        mode.pos + room <= usize::MAX ==> in_bounds(
            #[trigger] csv_read(mode, input, room, ends_room),
            mode.pos,
            input.len(),
            room,
            ends_room,
        )
    // A byte order mark is passed over where a reader is given all of it to begin with.
    &&& forall|input: Seq<u8>, n: int, room: nat, ends_room: nat|
        mode.pos + room <= usize::MAX && 0 < n < input.len() && (mode.started || 3 <= n
            || !is_marked(input)) ==> #[trigger] in_two(mode, input, n, room, ends_room)
            == csv_read(mode, input, room, ends_room)
}

/// The arguments of a call.
pub struct CsvCall {
    pub input: Seq<u8>,
    pub room: nat,
    pub ends_room: nat,
}

/// What a reader goes by after some calls.
pub open spec fn mode_after(mode: ReaderMode, calls: Seq<CsvCall>) -> ReaderMode
    decreases calls.len(),
{
    if calls.len() == 0 {
        mode
    } else {
        let call = calls[0];
        mode_after(
            csv_read(mode, call.input, call.room, call.ends_room).mode,
            calls.drop_first(),
        )
    }
}

/// Whatever is read first, the rest is read alike in one piece or in two.
pub open spec fn is_incremental(mode: ReaderMode) -> bool {
    forall|calls: Seq<CsvCall>| reads_on(#[trigger] mode_after(mode, calls))
}

pub proof fn incremental_now(mode: ReaderMode)
    requires
        is_incremental(mode),
    ensures
        reads_on(mode),
{
    assert(mode_after(mode, seq![]) == mode);
}

pub proof fn incremental_next(mode: ReaderMode, input: Seq<u8>, room: nat, ends_room: nat)
    requires
        is_incremental(mode),
    ensures
        is_incremental(csv_read(mode, input, room, ends_room).mode),
{
    let next = csv_read(mode, input, room, ends_room).mode;
    assert forall|calls: Seq<CsvCall>| reads_on(#[trigger] mode_after(next, calls)) by {
        let all = seq![CsvCall { input, room, ends_room }] + calls;
        assert(all.drop_first() == calls);
        assert(mode_after(mode, all) == mode_after(next, calls));
    }
}

/// `csv_core::ReaderBuilder::build`: a reader for `config`, which has not read anything.
///
/// What it makes of which input is named, not spelled out. Of what it reads from then on the
/// contract says: it stays within what it is given; end positions count from the start of the
/// record, never go down, and lie within the field bytes written so far; an empty input stands
/// for the end of all input, and makes the last record whole or ends it; an input that is not
/// empty is read unless there is no room, and `InputEmpty` comes only once all of it has been
/// read. An input comes to the same in one piece or in two, but for a byte order mark at the very
/// beginning that is cut in two.
#[verifier::external_body]
fn build_reader(config: CsvFrameConfig) -> (reader: csv_core::Reader)
    ensures
        mode_of(reader) == reader_for(config),
        mode_of(reader).pos == 0,
        !mode_of(reader).started,
        is_incremental(mode_of(reader)),
{
    let terminator = match config.terminator {
        Terminator::CRLF => csv_core::Terminator::CRLF,
        Terminator::Any(byte) => csv_core::Terminator::Any(byte),
    };
    csv_core::ReaderBuilder::new()
        .delimiter(config.delimiter)
        .quote(config.quote)
        .double_quote(config.double_quote)
        .escape(config.escape)
        .terminator(terminator)
        .build()
}

/// Whether `res` are the status and the counts of `step`.
pub open spec fn counts(step: CsvRead, res: (ReadStatus, usize, usize, usize)) -> bool {
    &&& res.0 == step.status
    &&& res.1 == step.read
    &&& res.2 == step.fields.len()
    &&& res.3 == step.ends.len()
}

/// `csv_core::Reader::read_record`, which writes field bytes into `output` from `outlen` on and
/// end positions into `ends` from `endlen` on, and returns why it stopped and how many bytes of
/// the input it read, how many field bytes and how many end positions it wrote: what those are is
/// named.
#[verifier::external_body]
fn read_record(
    reader: &mut csv_core::Reader,
    input: &[u8],
    output: &mut Vec<u8>,
    outlen: usize,
    ends: &mut Vec<usize>,
    endlen: usize,
) -> (res: (ReadStatus, usize, usize, usize))
    requires
        outlen <= old(output)@.len(),
        endlen <= old(ends)@.len(),
        mode_of(*old(reader)).pos == outlen,
    ensures
        counts(
            csv_read(
                mode_of(*old(reader)),
                input@,
                (old(output)@.len() - outlen) as nat,
                (old(ends)@.len() - endlen) as nat,
            ),
            res,
        ),
        mode_of(*final(reader)) == csv_read(
            mode_of(*old(reader)),
            input@,
            (old(output)@.len() - outlen) as nat,
            (old(ends)@.len() - endlen) as nat,
        ).mode,
        final(output)@.len() == old(output)@.len(),
        final(output)@.take(outlen + res.2) == old(output)@.take(outlen as int) + csv_read(
            mode_of(*old(reader)),
            input@,
            (old(output)@.len() - outlen) as nat,
            (old(ends)@.len() - endlen) as nat,
        ).fields,
        final(ends)@.len() == old(ends)@.len(),
        final(ends)@.take(endlen + res.3) == old(ends)@.take(endlen as int) + csv_read(
            mode_of(*old(reader)),
            input@,
            (old(output)@.len() - outlen) as nat,
            (old(ends)@.len() - endlen) as nat,
        ).ends,
{
    let (res, nin, nout, nend) =
        reader.read_record(input, &mut output[outlen..], &mut ends[endlen..]);
    let status = match res {
        csv_core::ReadRecordResult::InputEmpty => ReadStatus::InputEmpty,
        csv_core::ReadRecordResult::OutputFull => ReadStatus::OutputFull,
        csv_core::ReadRecordResult::OutputEndsFull => ReadStatus::OutputEndsFull,
        csv_core::ReadRecordResult::Record => ReadStatus::Record,
        csv_core::ReadRecordResult::End => ReadStatus::End,
    };
    (status, nin, nout, nend)
}

/// `csv::ByteRecord::from`: a record of the given fields.
#[verifier::external_body]
fn byte_record(fields: Vec<&[u8]>) -> (record: csv::ByteRecord)
    ensures
        fields_of(record) == fields@.map_values(|field: &[u8]| field@),
{
    csv::ByteRecord::from(fields)
}

/// Where a framer stands between two calls of the reader.
pub struct CsvState {
    /// What the reader goes by.
    pub mode: ReaderMode,
    /// The field bytes of the current record so far.
    pub fields: Seq<u8>,
    /// Where its fields end.
    pub ends: Seq<usize>,
    /// How many field bytes there is room for.
    pub room: nat,
    /// How many end positions there is room for.
    pub ends_room: nat,
    /// The next record is the header row.
    pub header_pending: bool,
    /// The size beyond which a record is refused.
    pub limit: nat,
}

impl CsvState {
    /// What the framer relies on from one call of the reader to the next.
    pub open spec fn ready(self) -> bool {
        &&& is_incremental(self.mode)
        &&& self.mode.pos == self.fields.len() <= self.room <= usize::MAX
        &&& self.ends.len() <= self.ends_room
        &&& self.in_order()
    }

    /// End positions lie within the field bytes and never go down.
    pub open spec fn in_order(self) -> bool {
        &&& forall|i: int|
            0 <= i < self.ends.len() ==> #[trigger] self.ends[i] <= self.fields.len()
        &&& forall|i: int, j: int|
            0 <= i <= j < self.ends.len() ==> #[trigger] self.ends[i] <= #[trigger] self.ends[j]
    }

    /// The size of the current record so far.
    ///
    /// Counts the end positions as well as the field bytes: a record like `a,,,,,,,...` has
    /// hardly any field bytes however many fields it has.
    pub open spec fn size(self) -> nat {
        self.fields.len() + self.ends.len() * vstd::layout::size_of::<usize>()
    }

    /// Whether the current record is larger than the limit. The largest limit there is, is none.
    pub open spec fn too_long(self) -> bool {
        self.limit < usize::MAX && self.size() > self.limit
    }

    /// The next call of the reader.
    pub open spec fn read(self, input: Seq<u8>) -> CsvRead {
        csv_read(
            self.mode,
            input,
            (self.room - self.fields.len()) as nat,
            (self.ends_room - self.ends.len()) as nat,
        )
    }

    /// The state with more field bytes and end positions.
    pub open spec fn grown(self, fields: Seq<u8>, ends: Seq<usize>) -> CsvState {
        CsvState { fields: self.fields + fields, ends: self.ends + ends, ..self }
    }

    /// The state with what a call of the reader added.
    pub open spec fn with(self, step: CsvRead) -> CsvState {
        CsvState { mode: step.mode, ..self.grown(step.fields, step.ends) }
    }

    /// The state at the start of the next record.
    pub open spec fn cleared(self) -> CsvState {
        CsvState { fields: seq![], ends: seq![], ..self }
    }

    /// How many of the two buffers have no room left.
    pub open spec fn full(self) -> nat {
        (if self.room <= self.fields.len() {
            1nat
        } else {
            0
        }) + (if self.ends_room <= self.ends.len() {
            1nat
        } else {
            0
        })
    }
}

/// The fields that end at the given positions.
pub open spec fn split_fields(bytes: Seq<u8>, ends: Seq<usize>) -> Seq<Seq<u8>> {
    Seq::new(
        ends.len(),
        |i: int|
            bytes.subrange(
                if i == 0 {
                    0
                } else {
                    ends[i - 1] as int
                },
                ends[i] as int,
            ),
    )
}

/// `len` doubled.
pub open spec fn doubled(len: nat) -> nat {
    if len == 0 {
        1
    } else {
        2 * len
    }
}

/// What becomes of a call of the reader.
pub enum Verdict {
    /// The reader is to be called again.
    Again { state: CsvState },
    /// A record is whole.
    Record { fields: Seq<Seq<u8>>, state: CsvState },
    /// There is nothing more to read.
    Ended { state: CsvState },
    /// The record is larger than the limit, or than any buffer.
    TooLong { state: CsvState },
}

/// What becomes of a call of the reader that stopped for the reason `status` and left the framer
/// in `next`.
pub open spec fn verdict(next: CsvState, status: ReadStatus) -> Verdict {
    if next.too_long() {
        Verdict::TooLong { state: next }
    } else {
        match status {
            ReadStatus::InputEmpty => Verdict::Again { state: next },
            ReadStatus::OutputFull => if next.room < MAX_FIELDS {
                Verdict::Again { state: CsvState { room: doubled(next.room), ..next } }
            } else {
                Verdict::TooLong { state: next }
            },
            ReadStatus::OutputEndsFull => if next.ends_room < MAX_ENDS {
                Verdict::Again { state: CsvState { ends_room: doubled(next.ends_room), ..next } }
            } else {
                Verdict::TooLong { state: next }
            },
            ReadStatus::Record => if next.header_pending {
                Verdict::Again { state: CsvState { header_pending: false, ..next.cleared() } }
            } else {
                Verdict::Record {
                    fields: split_fields(next.fields, next.ends),
                    state: next.cleared(),
                }
            },
            ReadStatus::End => Verdict::Ended { state: next },
        }
    }
}

/// How a look at the buffer ended; `left` is what stays in it.
pub enum Framed {
    /// There is no whole record.
    More { state: CsvState, left: Seq<u8> },
    /// A whole record.
    Record { fields: Seq<Seq<u8>>, state: CsvState, left: Seq<u8> },
    /// The record is larger than the limit.
    TooLong { state: CsvState, left: Seq<u8> },
}

/// Whether there is less to do with `left` buffered than there was with `input`.
pub open spec fn less_to_do(
    state: CsvState,
    input: Seq<u8>,
    next: CsvState,
    left: Seq<u8>,
) -> bool {
    ||| left.len() < input.len()
    ||| left.len() == input.len() && state.header_pending && !next.header_pending
    ||| left.len() == input.len() && state.header_pending == next.header_pending && next.full()
        < state.full()
}

/// `input` without its first `n` bytes.
pub open spec fn unread(input: Seq<u8>, n: nat) -> Seq<u8> {
    if n <= input.len() {
        input.skip(n as int)
    } else {
        seq![]
    }
}

/// The next record of `input`. `at_eof` says that no more input follows.
pub open spec fn record_from(state: CsvState, input: Seq<u8>, at_eof: bool) -> Framed
    decreases
            input.len(),
            (if state.header_pending {
                1nat
            } else {
                0
            }),
            state.full(),
{
    let step = state.read(input);
    let left = unread(input, step.read);
    if input.len() == 0 && !at_eof {
        Framed::More { state, left: input }
    } else {
        match verdict(state.with(step), step.status) {
            Verdict::Again { state: next } => if less_to_do(state, input, next, left) {
                record_from(next, left, at_eof)
            } else {
                Framed::More { state: next, left }
            },
            Verdict::Record { fields, state: next } => Framed::Record {
                fields,
                state: next,
                left,
            },
            Verdict::Ended { state: next } => Framed::More { state: next, left },
            Verdict::TooLong { state: next } => Framed::TooLong { state: next, left },
        }
    }
}

/// A call of the reader leaves the framer as it was found, and closer to the end of the buffer.
pub proof fn call_is_sound(state: CsvState, input: Seq<u8>)
    requires
        state.ready(),
    ensures
        ({
            let step = state.read(input);
            let next = state.with(step);
            let left = unread(input, step.read);
            &&& in_bounds(
                step,
                state.mode.pos,
                input.len(),
                (state.room - state.fields.len()) as nat,
                (state.ends_room - state.ends.len()) as nat,
            )
            &&& next.in_order()
            &&& next.fields.len() <= next.room
            &&& next.ends.len() <= next.ends_room
            &&& next.mode.started
            &&& match verdict(next, step.status) {
                Verdict::Again { state: after } => {
                    &&& after.ready()
                    &&& less_to_do(state, input, after, left)
                    &&& after.mode.started
                },
                Verdict::Record { state: after, .. } => {
                    &&& after.ready()
                    &&& input.len() > 0 ==> left.len() < input.len()
                    &&& after.mode.started
                },
                Verdict::Ended { state: after } => {
                    &&& after.ready()
                    &&& left.len() == 0
                    &&& after.mode.started
                },
                Verdict::TooLong { .. } => true,
            }
        }),
{
    let step = state.read(input);
    let next = state.with(step);
    let n = state.ends.len();
    let room = (state.room - state.fields.len()) as nat;
    let ends_room = (state.ends_room - state.ends.len()) as nat;
    incremental_now(state.mode);
    incremental_next(state.mode, input, room, ends_room);
    assert(in_bounds(step, state.mode.pos, input.len(), room, ends_room));
    assert forall|i: int| 0 <= i < next.ends.len() implies #[trigger] next.ends[i]
        <= next.fields.len() by {
        if i >= n {
            assert(next.ends[i] == step.ends[i - n]);
        } else {
            assert(next.ends[i] == state.ends[i]);
        }
    }
    assert forall|i: int, j: int| 0 <= i <= j < next.ends.len() implies #[trigger] next.ends[i]
        <= #[trigger] next.ends[j] by {
        if i >= n {
            assert(step.ends[i - n] <= step.ends[j - n]);
        } else if j >= n {
            assert(state.ends[i] <= state.fields.len() <= step.ends[j - n]);
        } else {
            assert(state.ends[i] <= state.ends[j]);
        }
    }
}

/// What [`CsvRecordCodec::settle`] finds to do next.
#[derive(Debug)]
pub enum Settled {
    /// Call the reader again.
    Again,
    /// Hand out a record.
    Record(csv::ByteRecord),
    /// Stop.
    Ended,
}

/// Yields one `csv::ByteRecord` per CSV record.
///
/// Not generic over the item type: see the module docs.
#[derive(Debug)]
pub struct CsvRecordCodec {
    core: csv_core::Reader,
    output: Vec<u8>,
    ends: Vec<usize>,
    outlen: usize,
    endlen: usize,
    header_pending: bool,
    max_len: usize,
}

impl View for CsvRecordCodec {
    type V = CsvState;

    closed spec fn view(&self) -> CsvState {
        CsvState {
            mode: mode_of(self.core),
            fields: self.output@.take(self.outlen as int),
            ends: self.ends@.take(self.endlen as int),
            room: self.output@.len(),
            ends_room: self.ends@.len(),
            header_pending: self.header_pending,
            limit: self.max_len as nat,
        }
    }
}

impl CsvRecordCodec {
    /// What is in use of the buffers lies within them.
    pub closed spec fn wf(self) -> bool {
        &&& self.outlen <= self.output@.len()
        &&& self.endlen <= self.ends@.len()
    }

    /// The part of the field buffer that is not in use, with what stands in it.
    pub closed spec fn spare_fields(self) -> Seq<u8> {
        self.output@.skip(self.outlen as int)
    }

    /// The part of the offset buffer that is not in use, with what stands in it.
    pub closed spec fn spare_ends(self) -> Seq<usize> {
        self.ends@.skip(self.endlen as int)
    }

    /// Whether the framer can go on. A failed one need not be able to.
    pub open spec fn ready(self) -> bool {
        self.wf() && self@.ready()
    }

    /// A framer reading records per `config`, skipping a leading header row if `has_headers`.
    pub fn new(config: CsvFrameConfig, has_headers: bool, max_len: usize) -> (codec: Self)
        ensures
            codec.ready(),
            codec@ == (CsvState {
                mode: reader_for(config),
                fields: seq![],
                ends: seq![],
                room: INITIAL_FIELDS as nat,
                ends_room: INITIAL_ENDS as nat,
                header_pending: has_headers,
                limit: max_len as nat,
            }),
            !codec@.mode.started,
            codec.spare_fields() == Seq::new(INITIAL_FIELDS as nat, |i: int| 0u8),
            codec.spare_ends() == Seq::new(INITIAL_ENDS as nat, |i: int| 0usize),
    {
        let codec = CsvRecordCodec {
            core: build_reader(config),
            output: vec![0; INITIAL_FIELDS],
            ends: vec![0; INITIAL_ENDS],
            outlen: 0,
            endlen: 0,
            header_pending: has_headers,
            max_len,
        };
        assert(codec@.fields == Seq::<u8>::empty());
        assert(codec@.ends == Seq::<usize>::empty());
        codec
    }

    /// The size of the current record so far, as far as it can be told apart from the limit.
    fn is_too_long(&self) -> (too_long: bool)
        requires
            self.wf(),
        ensures
            too_long == self@.too_long(),
    {
        let ends_size: usize = match self.endlen.checked_mul(core::mem::size_of::<usize>()) {
            Some(size) => size,
            None => usize::MAX,
        };
        let record_bytes: usize = self.outlen.saturating_add(ends_size);
        record_bytes > self.max_len
    }

    /// Builds the finished record and resets the accumulators for the next one.
    fn take_record(&mut self) -> (record: csv::ByteRecord)
        requires
            old(self).wf(),
            old(self)@.in_order(),
        ensures
            final(self).wf(),
            final(self)@ == old(self)@.cleared(),
            fields_of(record) == split_fields(old(self)@.fields, old(self)@.ends),
    {
        let ghost bytes = self@.fields;
        let ghost positions = self@.ends;
        let output = self.output.as_slice();
        let mut fields: Vec<&[u8]> = Vec::new();
        let mut start: usize = 0;
        let mut i: usize = 0;
        while i < self.endlen
            invariant
                i <= self.endlen <= self.ends@.len(),
                self.outlen <= self.output@.len(),
                output@ == self.output@,
                bytes == self.output@.take(self.outlen as int),
                positions == self.ends@.take(self.endlen as int),
                forall|k: int| 0 <= k < positions.len() ==> #[trigger] positions[k] <= bytes.len(),
                forall|k: int, j: int|
                    0 <= k <= j < positions.len() ==> #[trigger] positions[k]
                        <= #[trigger] positions[j],
                start == (if i == 0 {
                    0
                } else {
                    positions[i - 1] as int
                }),
                fields@.len() == i,
                forall|k: int|
                    0 <= k < i ==> (#[trigger] fields@[k])@ == split_fields(bytes, positions)[k],
            decreases self.endlen - i,
        {
            let end: usize = self.ends[i];
            assert(positions[i as int] == end);
            if i > 0 {
                assert(positions[i - 1] <= positions[i as int]);
            }
            let field = slice_subrange(output, start, end);
            assert(field@ == bytes.subrange(start as int, end as int));
            fields.push(field);
            start = end;
            i = i + 1;
        }
        assert(fields@.map_values(|field: &[u8]| field@) == split_fields(bytes, positions));
        let record = byte_record(fields);
        self.outlen = 0;
        self.endlen = 0;
        assert(self@.fields == Seq::<u8>::empty());
        assert(self@.ends == Seq::<usize>::empty());
        record
    }

    /// How a call that came to `verdict` leaves the framer, and what it returns.
    pub open spec fn settles(
        verdict: Verdict,
        after: Self,
        res: Result<Settled, StreamError>,
    ) -> bool {
        &&& after.wf()
        &&& match verdict {
            Verdict::Again { state } => after@ == state && res matches Ok(Settled::Again),
            Verdict::Record { fields, state } => {
                &&& after@ == state
                &&& res matches Ok(Settled::Record(record))
                &&& fields_of(record) == fields
            },
            Verdict::Ended { state } => after@ == state && res matches Ok(Settled::Ended),
            Verdict::TooLong { state } => {
                &&& after@ == state
                &&& res matches Err(error)
                &&& error@ == too_large()
            },
        }
    }

    /// Takes in that a call of the reader stopped for the reason `status`, having written `nout`
    /// field bytes and `nend` end positions behind those in use, and says what is to be done.
    pub fn settle(&mut self, status: ReadStatus, nout: usize, nend: usize) -> (res: Result<
        Settled,
        StreamError,
    >)
        requires
            old(self).wf(),
            nout <= old(self).spare_fields().len(),
            nend <= old(self).spare_ends().len(),
            old(self)@.grown(
                old(self).spare_fields().take(nout as int),
                old(self).spare_ends().take(nend as int),
            ).in_order(),
        ensures
            Self::settles(
                verdict(
                    old(self)@.grown(
                        old(self).spare_fields().take(nout as int),
                        old(self).spare_ends().take(nend as int),
                    ),
                    status,
                ),
                *final(self),
                res,
            ),
    {
        let ghost next = self@.grown(
            self.spare_fields().take(nout as int),
            self.spare_ends().take(nend as int),
        );
        assert(self.outlen + nout <= self.output.len() && self.endlen + nend <= self.ends.len());
        self.outlen = self.outlen + nout;
        self.endlen = self.endlen + nend;
        assert(self@.fields == next.fields);
        assert(self@.ends == next.ends);
        if self.is_too_long() {
            return Err(
                StreamError::because(
                    StreamErrorKind::MaxLenReachedError,
                    "Max record length reached",
                ),
            );
        }
        match status {
            ReadStatus::InputEmpty => Ok(Settled::Again),
            ReadStatus::OutputFull => {
                if !grow_fields(&mut self.output) {
                    return Err(
                        StreamError::because(
                            StreamErrorKind::MaxLenReachedError,
                            "Max record length reached",
                        ),
                    );
                }
                assert(self@.fields == next.fields);
                Ok(Settled::Again)
            },
            ReadStatus::OutputEndsFull => {
                if !grow_ends(&mut self.ends) {
                    return Err(
                        StreamError::because(
                            StreamErrorKind::MaxLenReachedError,
                            "Max record length reached",
                        ),
                    );
                }
                assert(self@.ends == next.ends);
                Ok(Settled::Again)
            },
            ReadStatus::Record => {
                let record = self.take_record();
                // The header slot is consumed here rather than by skipping the first *yielded*
                // item, which would swallow a record whose header failed to frame.
                if self.header_pending {
                    self.header_pending = false;
                    Ok(Settled::Again)
                } else {
                    Ok(Settled::Record(record))
                }
            },
            ReadStatus::End => Ok(Settled::Ended),
        }
    }

    /// How a call that met `framed` leaves the framer and the buffer.
    pub open spec fn moved(framed: Framed, after: Self, left: Seq<u8>) -> bool {
        match framed {
            Framed::More { state, left: rest } => {
                after@ == state && left == rest && after.ready()
            },
            Framed::Record { state, left: rest, .. } => {
                after@ == state && left == rest && after.ready()
            },
            Framed::TooLong { state, left: rest } => after@ == state && left == rest,
        }
    }

    /// What a call that met `framed` returns.
    pub open spec fn returned(
        framed: Framed,
        res: Result<Option<csv::ByteRecord>, StreamError>,
    ) -> bool {
        match framed {
            Framed::More { .. } => res matches Ok(None),
            Framed::Record { fields, .. } => res matches Ok(Some(record)) && fields_of(record)
                == fields,
            Framed::TooLong { .. } => res matches Err(error) && error@ == too_large(),
        }
    }

    /// One pass of the framing loop, mirroring `csv`'s own reader.
    ///
    /// `at_eof` says whether the caller may signal end of input, which `csv-core` recognises as
    /// an empty input slice and which is the only way to flush a final record that has no
    /// trailing terminator.
    fn next_record(&mut self, buf: &mut BytesMut, at_eof: bool) -> (res: Result<
        Option<csv::ByteRecord>,
        StreamError,
    >)
        requires
            old(self).ready(),
        ensures
            Self::moved(
                record_from(old(self)@, held(*old(buf)), at_eof),
                *final(self),
                held(*final(buf)),
            ),
            Self::returned(record_from(old(self)@, held(*old(buf)), at_eof), res),
    {
        let ghost framed = record_from(self@, held(*buf), at_eof);
        loop
            invariant
                self.ready(),
                framed == record_from(old(self)@, held(*old(buf)), at_eof),
                framed == record_from(self@, held(*buf), at_eof),
            decreases
                    held(*buf).len(),
                    (if self@.header_pending {
                        1nat
                    } else {
                        0
                    }),
                    self@.full(),
        {
            let len: usize = buffer_len(buf);
            if len == 0 && !at_eof {
                return Ok(None);
            }
            let ghost before = self@;
            let ghost input = held(*buf);
            let ghost step = before.read(input);
            proof {
                call_is_sound(before, input);
            }
            let (status, nin, nout, nend) = read_record(
                &mut self.core,
                buffer_slice(buf),
                &mut self.output,
                self.outlen,
                &mut self.ends,
                self.endlen,
            );
            advance(buf, nin);
            proof {
                let out = self.output@.take(self.outlen + nout);
                let positions = self.ends@.take(self.endlen + nend);
                assert(self@.fields == out.take(self.outlen as int));
                assert(out.take(self.outlen as int) == before.fields);
                assert(self@.ends == positions.take(self.endlen as int));
                assert(positions.take(self.endlen as int) == before.ends);
                assert(self.spare_fields().take(nout as int) == out.skip(self.outlen as int));
                assert(out.skip(self.outlen as int) == step.fields);
                assert(self.spare_ends().take(nend as int) == positions.skip(self.endlen as int));
                assert(positions.skip(self.endlen as int) == step.ends);
                assert(self@.grown(step.fields, step.ends) == before.with(step));
            }
            match self.settle(status, nout, nend) {
                Ok(Settled::Again) => {},
                Ok(Settled::Record(record)) => {
                    return Ok(Some(record));
                },
                Ok(Settled::Ended) => {
                    return Ok(None);
                },
                Err(error) => {
                    return Err(error);
                },
            }
        }
    }

    /// The next record, if the buffer holds all of it. Errors are framing errors, and terminal.
    pub fn decode(&mut self, buf: &mut BytesMut) -> (res: Result<
        Option<csv::ByteRecord>,
        StreamError,
    >)
        requires
            old(self).ready(),
        ensures
            Self::moved(
                record_from(old(self)@, held(*old(buf)), false),
                *final(self),
                held(*final(buf)),
            ),
            Self::returned(record_from(old(self)@, held(*old(buf)), false), res),
    {
        self.next_record(buf, false)
    }

    /// The next record, where the buffer holds all that is left of the body.
    pub fn decode_eof(&mut self, buf: &mut BytesMut) -> (res: Result<
        Option<csv::ByteRecord>,
        StreamError,
    >)
        requires
            old(self).ready(),
        ensures
            Self::moved(
                record_from(old(self)@, held(*old(buf)), true),
                *final(self),
                held(*final(buf)),
            ),
            Self::returned(record_from(old(self)@, held(*old(buf)), true), res),
    {
        self.next_record(buf, true)
    }
}

/// What a record that is larger than the limit is answered with.
pub open spec fn too_large() -> ErrorView {
    reason(StreamErrorKind::MaxLenReachedError, "Max record length reached"@)
}

/// Doubles the field buffer, unless it is as large as it may get.
fn grow_fields(output: &mut Vec<u8>) -> (grown: bool)
    ensures
        grown == (old(output)@.len() < MAX_FIELDS),
        grown ==> final(output)@.len() == doubled(old(output)@.len()),
        grown ==> forall|i: int|
            0 <= i < old(output)@.len() ==> #[trigger] final(output)@[i] == old(output)@[i],
        !grown ==> final(output)@ == old(output)@,
{
    let len: usize = output.len();
    if len >= MAX_FIELDS {
        return false;
    }
    output.resize(
        if len == 0 {
            1
        } else {
            2 * len
        },
        0,
    );
    assert forall|i: int| 0 <= i < len implies #[trigger] output@[i] == old(output)@[i] by {
        assert(output@.subrange(0, len as int)[i] == old(output)@[i]);
    }
    true
}

/// Doubles the offset buffer, unless it is as large as it may get.
fn grow_ends(ends: &mut Vec<usize>) -> (grown: bool)
    ensures
        grown == (old(ends)@.len() < MAX_ENDS),
        grown ==> final(ends)@.len() == doubled(old(ends)@.len()),
        grown ==> forall|i: int|
            0 <= i < old(ends)@.len() ==> #[trigger] final(ends)@[i] == old(ends)@[i],
        !grown ==> final(ends)@ == old(ends)@,
{
    let len: usize = ends.len();
    if len >= MAX_ENDS {
        return false;
    }
    ends.resize(
        if len == 0 {
            1
        } else {
            2 * len
        },
        0,
    );
    assert forall|i: int| 0 <= i < len implies #[trigger] ends@[i] == old(ends)@[i] by {
        assert(ends@.subrange(0, len as int)[i] == old(ends)@[i]);
    }
    true
}

} // verus!
