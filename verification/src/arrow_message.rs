//! The messages of an Arrow IPC stream: where they end, and which of them can be read.

use crate::arrow_fields::{add_fields, shapes_of, FieldShape, Form, DEPTH};
use arrow::ipc::root_as_message;
use vstd::prelude::*;

verus! {

/// The kinds of messages by number.
pub const SCHEMA: u8 = 1;

pub const DICTIONARY_BATCH: u8 = 2;

pub const RECORD_BATCH: u8 = 3;

/// The number of the first version in which unions have no validity buffer.
pub const VERSION_FIVE: i16 = 4;

/// What the metadata of a message says of the message.
#[derive(Clone, Copy)]
pub struct MessageHead {
    /// The number of its kind.
    pub header: u8,
    /// The number of the version it is written in.
    pub version: i16,
    /// How many bytes follow the metadata.
    pub body_len: i64,
}

/// What the metadata of a batch says of its body.
pub struct BatchLayout {
    /// How many elements each field has.
    pub nodes: Vec<i64>,
    /// Where each buffer starts in the body, and how many bytes it has.
    pub buffers: Vec<(i64, i64)>,
    /// How many more buffers each field of views has.
    pub variadic: Vec<i64>,
    /// Whether the buffers are compressed.
    pub compressed: bool,
}

/// The same, as mathematical values.
pub struct Layout {
    pub nodes: Seq<i64>,
    pub buffers: Seq<(i64, i64)>,
    pub variadic: Seq<i64>,
    pub compressed: bool,
}

impl View for BatchLayout {
    type V = Layout;

    open spec fn view(&self) -> Layout {
        Layout {
            nodes: self.nodes@,
            buffers: self.buffers@,
            variadic: self.variadic@,
            compressed: self.compressed,
        }
    }
}

/// What `root_as_message` says of a message; nothing where its metadata is malformed.
pub uninterp spec fn message_head_of(metadata: Seq<u8>) -> Option<MessageHead>;

/// The fields of the schema that a message carries.
pub uninterp spec fn fields_of(metadata: Seq<u8>) -> Seq<arrow::ipc::Field<'static>>;

/// What the batch or the dictionary that a message carries says of its body.
pub uninterp spec fn layout_of(metadata: Seq<u8>) -> Option<Layout>;

/// Which dictionary a message carries values of, if any, and whether it appends to that one.
pub uninterp spec fn dictionary_of(metadata: Seq<u8>) -> Option<(i64, bool)>;

/// `root_as_message`, and what the message says of itself; both are named.
#[verifier::external_body]
fn message_head(metadata: &[u8]) -> (head: Option<MessageHead>)
    ensures
        head == message_head_of(metadata@),
{
    root_as_message(metadata).ok().map(
        |message| MessageHead {
            header: message.header_type().0,
            version: message.version().0,
            body_len: message.bodyLength(),
        },
    )
}

/// `Message::header_as_schema` and `Schema::fields`: the fields, in order, which are named; none
/// where the message carries no schema.
#[verifier::external_body]
fn schema_fields<'a>(metadata: &'a [u8]) -> (fields: Vec<arrow::ipc::Field<'a>>)
    ensures
        fields@ == fields_of(metadata@),
{
    let schema = root_as_message(metadata).ok().and_then(|message| message.header_as_schema());
    schema.and_then(|schema| schema.fields()).map_or(
        Vec::new(),
        |fields| fields.iter().collect(),
    )
}

/// `Message::header_as_record_batch`, or `DictionaryBatch::data` of
/// `Message::header_as_dictionary_batch`, and what its accessors say, which is named; nothing where
/// the message carries neither.
#[verifier::external_body]
fn batch_layout(metadata: &[u8]) -> (layout: Option<BatchLayout>)
    ensures
        match layout_of(metadata@) {
            Some(found) => layout matches Some(layout) && layout@ == found,
            None => layout is None,
        },
{
    let message = root_as_message(metadata).ok()?;
    let values = message.header_as_dictionary_batch().and_then(|found| found.data());
    let batch = message.header_as_record_batch().or(values)?;
    let nodes = batch.nodes().map_or(vec![], |all| all.iter().map(|node| node.length()).collect());
    let buffers = batch.buffers().map_or(
        vec![],
        |all| all.iter().map(|buffer| (buffer.offset(), buffer.length())).collect(),
    );
    let variadic = batch.variadicBufferCounts().map_or(vec![], |all| all.iter().collect());
    let compressed = batch.compression().is_some();
    Some(BatchLayout { nodes, buffers, variadic, compressed })
}

/// `DictionaryBatch::id` and `DictionaryBatch::isDelta` of `Message::header_as_dictionary_batch`,
/// which are named; nothing where the message carries no dictionary.
#[verifier::external_body]
fn dictionary_id(metadata: &[u8]) -> (dictionary: Option<(i64, bool)>)
    ensures
        dictionary == dictionary_of(metadata@),
{
    let message = root_as_message(metadata).ok()?;
    message.header_as_dictionary_batch().map(|found| (found.id(), found.isDelta()))
}

/// How far the fields of a batch have been matched with its body.
pub struct Place {
    pub node: nat,
    pub buffer: nat,
    pub variadic: nat,
}

/// The start of a body.
pub open spec fn first_place() -> Place {
    Place { node: 0, buffer: 0, variadic: 0 }
}

/// The 8 bytes at a place of some bytes as a number, the lowest first.
pub open spec fn number_at(bytes: Seq<u8>, at: int) -> int {
    bytes[at] + 0x100 * bytes[at + 1] + 0x1_0000 * bytes[at + 2] + 0x100_0000 * bytes[at + 3]
        + 0x1_0000_0000 * bytes[at + 4] + 0x100_0000_0000 * bytes[at + 5] + 0x1_0000_0000_0000
        * bytes[at + 6] + 0x100_0000_0000_0000 * bytes[at + 7]
}

impl FieldShape {
    /// The buffers of the field: those of the indexes where a dictionary encodes it.
    pub open spec fn stored_form(self) -> Form {
        match self.dictionary {
            Some((_, width)) => Form::Plain { count: 2, second: width, third: 1 },
            None => self.form,
        }
    }

    /// Whether a dictionary encodes the field.
    pub open spec fn is_in(self, id: i64) -> bool {
        self.dictionary matches Some((found, _)) && found == id
    }

    /// How many entries the field takes in a batch: what is below it belongs to the dictionary
    /// where one encodes it.
    pub open spec fn stored_size(self) -> int {
        if self.dictionary is Some && self.size > 0 {
            self.size as int
        } else {
            1
        }
    }
}

/// The body of a batch: the bytes of `message` from `start` on.
pub struct Body {
    pub layout: Layout,
    pub version: i16,
    pub message: Seq<u8>,
    pub start: int,
}

impl Body {
    /// Whether every buffer lies within the body.
    pub open spec fn is_within(self) -> bool {
        forall|i: int|
            0 <= i < self.layout.buffers.len() ==> {
                let buffer = #[trigger] self.layout.buffers[i];
                0 <= buffer.0 && 0 <= buffer.1 && self.start + buffer.0 + buffer.1
                    <= self.message.len()
            }
    }

    /// How many bytes a buffer has once it is decompressed. A compressed buffer starts with that
    /// number, or with -1 where it is stored as it is.
    pub open spec fn stored_len(self, i: int) -> Option<int> {
        let (offset, len) = self.layout.buffers[i];
        if !self.layout.compressed || len == 0 {
            Some(len as int)
        } else if len < 8 {
            None
        } else {
            let number = number_at(self.message, self.start + offset);
            if number == u64::MAX {
                Some(len - 8)
            } else if number <= i64::MAX {
                Some(number)
            } else {
                None
            }
        }
    }

    /// Where the bytes of a buffer stand in the body, if they are stored as they are.
    pub open spec fn stored_at(self, i: int) -> Option<int> {
        let (offset, len) = self.layout.buffers[i];
        if !self.layout.compressed || len == 0 {
            Some(offset as int)
        } else if len >= 8 && number_at(self.message, self.start + offset) == u64::MAX {
            Some(offset + 8)
        } else {
            None
        }
    }

    /// Whether a buffer holds so many elements of so many bytes.
    pub open spec fn has_room(self, i: int, count: int, width: int) -> bool {
        self.stored_len(i) matches Some(len) && count * width <= len
    }

    /// Whether a buffer holds whole elements of so many bytes.
    pub open spec fn is_whole(self, i: int, width: usize) -> bool {
        width <= 1 || (self.stored_len(i) matches Some(len) && len % width as int == 0)
    }

    /// How many buffers a field has.
    pub open spec fn buffers_of(self, form: Form, at: Place) -> int {
        match form {
            Form::Plain { count, .. } => count as int,
            Form::Repeated { .. } => 1,
            Form::Views => 2 + self.layout.variadic[at.variadic as int],
            Form::Variants { dense } => 1 + (if dense {
                1int
            } else {
                0
            }) + (if self.version < VERSION_FIVE {
                1int
            } else {
                0
            }),
        }
    }

    /// Whether the node and the buffers of a field are there, and fit its type.
    pub open spec fn holds(self, form: Form, at: Place) -> bool {
        let node = at.node as int;
        let buffer = at.buffer as int;
        let count = self.buffers_of(form, at);
        &&& node < self.layout.nodes.len()
        &&& self.layout.nodes[node] >= 0
        &&& form is Views ==> at.variadic < self.layout.variadic.len()
            && self.layout.variadic[at.variadic as int] >= 0
        &&& buffer + count <= self.layout.buffers.len()
        &&& match form {
            Form::Plain { count, second, third } => {
                &&& count > 1 ==> self.is_whole(buffer + 1, second)
                &&& count > 2 ==> self.is_whole(buffer + 2, third)
            },
            Form::Repeated { items } => self.layout.nodes[node] * items <= usize::MAX,
            Form::Views => self.is_whole(buffer + 1, 16),
            Form::Variants { dense } => {
                let last = buffer + count - 1;
                if dense {
                    &&& self.has_room(last - 1, self.layout.nodes[node] as int, 1)
                    &&& self.has_room(last, self.layout.nodes[node] as int, 4)
                    &&& self.stored_at(last) matches Some(at) && (self.start + at) % 4 == 0
                } else {
                    self.has_room(last, self.layout.nodes[node] as int, 1)
                }
            },
        }
    }

    /// Where the next field starts.
    pub open spec fn after(self, form: Form, at: Place) -> Place {
        Place {
            node: at.node + 1,
            buffer: (at.buffer + self.buffers_of(form, at)) as nat,
            variadic: at.variadic + (if form is Views {
                1nat
            } else {
                0
            }),
        }
    }

    /// Whether the body holds the fields, from a place on.
    pub open spec fn fits(self, shapes: Seq<FieldShape>, at: Place) -> bool
        decreases shapes.len(),
    {
        if shapes.len() == 0 {
            true
        } else {
            let form = shapes[0].stored_form();
            let size = shapes[0].stored_size();
            self.holds(form, at) && (size < shapes.len() ==> self.fits(
                shapes.skip(size),
                self.after(form, at),
            ))
        }
    }

    /// How many elements and bytes the body holds.
    pub open spec fn weight(self) -> int {
        self.message.len() - self.start + sum_of(self.layout.nodes)
    }

    /// The room for dictionaries that is left once the body has been read.
    pub open spec fn room_after(self, room: Option<u64>) -> Option<u64> {
        match room {
            Some(room) if self.weight() <= room => Some((room - self.weight()) as u64),
            _ => None,
        }
    }

    /// Whether the body holds values for the dictionary of an entry.
    ///
    /// Values that take no room of their own, or hold others, are appended only where there is
    /// room for all of them together, and where neither unions nor dictionaries are among them.
    pub open spec fn fits_values(self, known: Known, i: int, appends: bool) -> bool {
        let shapes = known.fields;
        &&& 0 < shapes[i].size <= shapes.len() - i
        &&& appends ==> shapes[i].extends || {
            &&& is_simple(values_of(shapes, i))
            &&& !self.layout.compressed
            &&& self.room_after(known.room) is Some
        }
        &&& self.fits(values_of(shapes, i), first_place())
    }

    /// Whether the body can be read: the buffers lie within it and hold the fields of the schema,
    /// or the values of every field that the dictionary encodes, where the message carries one.
    pub open spec fn is_sound(self, known: Known, dictionary: Option<(i64, bool)>) -> bool {
        &&& self.is_within()
        &&& match dictionary {
            None => self.fits(known.fields, first_place()),
            Some((id, appends)) => forall|i: int|
                0 <= i < known.fields.len() && (#[trigger] known.fields[i]).is_in(id)
                    ==> self.fits_values(known, i, appends),
        }
    }
}

/// What has been learned from the messages that were read.
pub struct Known {
    /// The fields of the schema, in the order in which a batch lays them out.
    pub fields: Seq<FieldShape>,
    /// How many more elements and bytes dictionaries may hold that nested values are appended to;
    /// none where they hold too many already.
    pub room: Option<u64>,
}

/// How many elements and bytes dictionaries may hold that nested values are appended to.
pub const MOST_VALUES: u64 = 0x7fff_ffff;

/// The sum of the numbers that are not negative.
pub open spec fn sum_of(numbers: Seq<i64>) -> int
    decreases numbers.len(),
{
    if numbers.len() == 0 {
        0
    } else {
        sum_of(numbers.drop_last()) + (if numbers.last() > 0 {
            numbers.last() as int
        } else {
            0
        })
    }
}

/// Whether neither unions nor dictionaries are among the entries.
pub open spec fn is_simple(shapes: Seq<FieldShape>) -> bool {
    forall|i: int|
        0 <= i < shapes.len() ==> (#[trigger] shapes[i]).dictionary is None
            && !(shapes[i].form is Variants)
}

/// The entries of the values of a dictionary.
pub open spec fn values_of(shapes: Seq<FieldShape>, i: int) -> Seq<FieldShape> {
    shapes.subrange(i, i + shapes[i].size).update(0, FieldShape { dictionary: None, ..shapes[i] })
}

/// How a message starts: the bytes ahead of its metadata, and the bytes of those.
pub struct Prefix {
    pub len: nat,
    pub size: nat,
}

/// The 4 bytes at a place of some bytes as a number, the lowest first.
pub open spec fn word_at(bytes: Seq<u8>, at: int) -> nat {
    (bytes[at] + 0x100 * bytes[at + 1] + 0x1_0000 * bytes[at + 2] + 0x100_0000 * bytes[at
        + 3]) as nat
}

/// The start of the next message, once it is there. A continuation marker may stand ahead of the
/// size of the metadata.
pub open spec fn prefix_at(body: Seq<u8>) -> Option<Prefix> {
    if body.len() < 4 {
        None
    } else if word_at(body, 0) != u32::MAX {
        Some(Prefix { len: 4, size: word_at(body, 0) })
    } else if body.len() < 8 {
        None
    } else {
        Some(Prefix { len: 8, size: word_at(body, 4) })
    }
}

/// What stands at the front of a buffer.
pub enum Found {
    /// The start of a message.
    Part,
    /// The end of the stream, in so many bytes.
    End { len: nat },
    /// A message that carries a batch and is longer than the limit.
    TooLong,
    /// A message that cannot be read.
    Unsound,
    /// A whole message of so many bytes, and what is known once it has been read.
    Whole { len: nat, head: Option<MessageHead>, known: Known },
}

/// Whether a message carries a batch.
pub open spec fn has_batch(head: Option<MessageHead>) -> bool {
    head matches Some(head) && head.header == RECORD_BATCH
}

/// What is known once a message has been read; nothing where it cannot be read.
pub open spec fn known_after(
    known: Known,
    head: MessageHead,
    metadata: Seq<u8>,
    message: Seq<u8>,
) -> Option<Known> {
    if head.header == SCHEMA {
        match shapes_of(fields_of(metadata), DEPTH as nat) {
            Some(fields) => Some(Known { fields, ..known }),
            None => None,
        }
    } else if head.header == RECORD_BATCH || head.header == DICTIONARY_BATCH {
        match layout_of(metadata) {
            Some(layout) => {
                let body = Body {
                    layout,
                    version: head.version,
                    message,
                    start: message.len() - head.body_len,
                };
                let dictionary = dictionary_of(metadata);
                if !body.is_sound(known, dictionary) {
                    None
                } else if dictionary is Some {
                    Some(Known { room: body.room_after(known.room), ..known })
                } else {
                    Some(known)
                }
            },
            None => None,
        }
    } else {
        Some(known)
    }
}

/// What stands at the front of `body`.
///
/// A message whose metadata are malformed ends with them: nothing says how long its body is.
pub open spec fn next_message(known: Known, limit: nat, body: Seq<u8>) -> Found {
    match prefix_at(body) {
        None => Found::Part,
        Some(prefix) => {
            let start = prefix.len + prefix.size;
            if prefix.size == 0 {
                Found::End { len: prefix.len }
            } else if start > body.len() {
                Found::Part
            } else {
                let metadata = body.subrange(prefix.len as int, start as int);
                match message_head_of(metadata) {
                    None => Found::Whole { len: start, head: None, known },
                    Some(head) => {
                        let len = start + head.body_len;
                        if head.body_len < 0 {
                            Found::Unsound
                        } else if head.header == RECORD_BATCH && len > limit {
                            Found::TooLong
                        } else if len > body.len() {
                            Found::Part
                        } else {
                            match known_after(known, head, metadata, body.take(len)) {
                                Some(known) => Found::Whole {
                                    len: len as nat,
                                    head: Some(head),
                                    known,
                                },
                                None => Found::Unsound,
                            }
                        }
                    },
                }
            }
        },
    }
}

/// How far a check of a body is.
struct Cursor {
    node: usize,
    buffer: usize,
    variadic: usize,
}

impl View for Cursor {
    type V = Place;

    closed spec fn view(&self) -> Place {
        Place {
            node: self.node as nat,
            buffer: self.buffer as nat,
            variadic: self.variadic as nat,
        }
    }
}

fn read_number(bytes: &[u8], at: usize) -> (number: u64)
    requires
        at + 8 <= bytes@.len(),
    ensures
        number == number_at(bytes@, at as int),
{
    bytes[at] as u64 + 0x100 * bytes[at + 1] as u64 + 0x1_0000 * bytes[at + 2] as u64 + 0x100_0000
        * bytes[at + 3] as u64 + 0x1_0000_0000 * bytes[at + 4] as u64 + 0x100_0000_0000 * bytes[at
        + 5] as u64 + 0x1_0000_0000_0000 * bytes[at + 6] as u64 + 0x100_0000_0000_0000 * bytes[at
        + 7] as u64
}

impl BatchLayout {
    /// The body that the layout describes.
    pub open spec fn body(&self, version: i16, message: &[u8], start: usize) -> Body {
        Body { layout: self@, version, message: message@, start: start as int }
    }

    fn check_within(&self, version: i16, message: &[u8], start: usize) -> (within: bool)
        requires
            start <= message@.len(),
        ensures
            within == self.body(version, message, start).is_within(),
    {
        let ghost body = self.body(version, message, start);
        let room: u64 = (message.len() - start) as u64;
        let mut i: usize = 0;
        while i < self.buffers.len()
            invariant
                0 <= i <= self.buffers@.len(),
                start <= message@.len(),
                room == message@.len() - start,
                body == self.body(version, message, start),
                forall|j: int|
                    0 <= j < i ==> {
                        let buffer = #[trigger] body.layout.buffers[j];
                        0 <= buffer.0 && 0 <= buffer.1 && body.start + buffer.0 + buffer.1
                            <= body.message.len()
                    },
            decreases self.buffers@.len() - i,
        {
            let (offset, len) = self.buffers[i];
            assert(body.layout.buffers[i as int] == (offset, len));
            if offset < 0 || len < 0 || offset as u64 > room || len as u64 > room - offset as u64 {
                return false;
            }
            i = i + 1;
        }
        true
    }

    fn check_whole(
        &self,
        version: i16,
        message: &[u8],
        start: usize,
        i: usize,
        width: usize,
    ) -> (whole: bool)
        requires
            self.body(version, message, start).is_within(),
            i < self.buffers@.len(),
        ensures
            whole == self.body(version, message, start).is_whole(i as int, width),
    {
        if width <= 1 {
            return true;
        }
        match self.buffer_len(version, message, start, i) {
            Some(len) => len % width as u64 == 0,
            None => false,
        }
    }

    /// How many bytes a buffer has once it is decompressed.
    fn buffer_len(&self, version: i16, message: &[u8], start: usize, i: usize) -> (len: Option<u64>)
        requires
            self.body(version, message, start).is_within(),
            i < self.buffers@.len(),
        ensures
            match self.body(version, message, start).stored_len(i as int) {
                Some(found) => len matches Some(len) && len == found && len <= i64::MAX,
                None => len is None,
            },
    {
        let (offset, len) = self.buffers[i];
        assert(self@.buffers[i as int] == (offset, len));
        if !self.compressed || len == 0 {
            return Some(len as u64);
        }
        if len < 8 {
            return None;
        }
        let end: usize = message.len();
        assert(start + offset + len <= end);
        let number: u64 = read_number(message, start + offset as usize);
        if number == u64::MAX {
            Some((len - 8) as u64)
        } else if number <= i64::MAX as u64 {
            Some(number)
        } else {
            None
        }
    }

    /// Where the bytes of a buffer stand in the message, if they are stored as they are.
    fn buffer_at(&self, version: i16, message: &[u8], start: usize, i: usize) -> (at: Option<usize>)
        requires
            self.body(version, message, start).is_within(),
            i < self.buffers@.len(),
        ensures
            match self.body(version, message, start).stored_at(i as int) {
                Some(found) => at matches Some(at) && at == start + found,
                None => at is None,
            },
    {
        let (offset, len) = self.buffers[i];
        assert(self@.buffers[i as int] == (offset, len));
        let end: usize = message.len();
        assert(start + offset + len <= end);
        let at: usize = start + offset as usize;
        if !self.compressed || len == 0 {
            Some(at)
        } else if len >= 8 && read_number(message, at) == u64::MAX {
            Some(at + 8)
        } else {
            None
        }
    }

    fn check_room(
        &self,
        version: i16,
        message: &[u8],
        start: usize,
        i: usize,
        count: i64,
        width: u64,
    ) -> (fits: bool)
        requires
            self.body(version, message, start).is_within(),
            i < self.buffers@.len(),
            count >= 0,
            width == 1 || width == 4,
        ensures
            fits == self.body(version, message, start).has_room(
                i as int,
                count as int,
                width as int,
            ),
    {
        match self.buffer_len(version, message, start, i) {
            Some(len) => if width == 1 {
                count as u64 <= len
            } else {
                count as u64 <= len / 4
            },
            None => false,
        }
    }

    /// How many buffers a field has, if there are that many left; and whether they hold it.
    fn check_field(
        &self,
        version: i16,
        message: &[u8],
        start: usize,
        form: Form,
        at: &Cursor,
    ) -> (count: Option<usize>)
        requires
            self.body(version, message, start).is_within(),
            at.buffer <= self.buffers@.len(),
        ensures
            match count {
                Some(count) => {
                    &&& self.body(version, message, start).holds(form, at@)
                    &&& count == self.body(version, message, start).buffers_of(form, at@)
                },
                None => !self.body(version, message, start).holds(form, at@),
            },
    {
        if at.node >= self.nodes.len() || self.nodes[at.node] < 0 {
            return None;
        }
        let node: i64 = self.nodes[at.node];
        let left: usize = self.buffers.len() - at.buffer;
        match form {
            Form::Plain { count, second, third } => {
                if count > left || (count > 1 && !self.check_whole(
                    version,
                    message,
                    start,
                    at.buffer + 1,
                    second,
                )) || (count > 2 && !self.check_whole(
                    version,
                    message,
                    start,
                    at.buffer + 2,
                    third,
                )) {
                    None
                } else {
                    Some(count)
                }
            },
            Form::Repeated { items } => {
                if left < 1 {
                    None
                } else if items <= 0 {
                    assert(node * items <= 0) by (nonlinear_arith)
                        requires
                            node >= 0,
                            items <= 0,
                    ;
                    Some(1)
                } else {
                    assert(0 <= node * items <= 0x7fff_ffff_ffff_ffff * 0x7fff_ffff)
                        by (nonlinear_arith)
                        requires
                            0 <= node <= 0x7fff_ffff_ffff_ffff,
                            0 <= items <= 0x7fff_ffff,
                    ;
                    if node as u128 * items as u128 <= usize::MAX as u128 {
                        Some(1)
                    } else {
                        None
                    }
                }
            },
            Form::Views => {
                if at.variadic >= self.variadic.len() || self.variadic[at.variadic] < 0 {
                    return None;
                }
                let more: i64 = self.variadic[at.variadic];
                if left < 2 || more as u64 > (left - 2) as u64 || !self.check_whole(
                    version,
                    message,
                    start,
                    at.buffer + 1,
                    16,
                ) {
                    None
                } else {
                    Some(2 + more as usize)
                }
            },
            Form::Variants { dense } => {
                let count: usize = 1 + (if dense {
                    1usize
                } else {
                    0
                }) + (if version < VERSION_FIVE {
                    1usize
                } else {
                    0
                });
                if count > left {
                    return None;
                }
                let last: usize = at.buffer + count - 1;
                if !dense {
                    return if self.check_room(version, message, start, last, node, 1) {
                        Some(count)
                    } else {
                        None
                    };
                }
                let aligned = match self.buffer_at(version, message, start, last) {
                    Some(place) => place % 4 == 0,
                    None => false,
                };
                if aligned && self.check_room(version, message, start, last - 1, node, 1)
                    && self.check_room(version, message, start, last, node, 4) {
                    Some(count)
                } else {
                    None
                }
            },
        }
    }

    fn check_fields(
        &self,
        version: i16,
        message: &[u8],
        start: usize,
        shapes: &[FieldShape],
    ) -> (fit: bool)
        requires
            self.body(version, message, start).is_within(),
        ensures
            fit == self.body(version, message, start).fits(shapes@, first_place()),
    {
        let ghost body = self.body(version, message, start);
        let nodes: usize = self.nodes.len();
        let buffers: usize = self.buffers.len();
        let views: usize = self.variadic.len();
        let mut at = Cursor { node: 0, buffer: 0, variadic: 0 };
        let mut i: usize = 0;
        assert(shapes@.skip(0) == shapes@);
        while i < shapes.len()
            invariant
                0 <= i <= shapes@.len(),
                body == self.body(version, message, start),
                body.is_within(),
                nodes == self.nodes@.len(),
                views == self.variadic@.len(),
                at.node <= nodes,
                buffers == self.buffers@.len(),
                at.buffer <= buffers,
                at.variadic <= views,
                body.fits(shapes@, first_place()) == body.fits(shapes@.skip(i as int), at@),
            decreases shapes@.len() - i,
        {
            let shape = shapes[i];
            assert(shapes@.skip(i as int)[0] == shape);
            let form = match shape.dictionary {
                Some((_, width)) => Form::Plain { count: 2, second: width, third: 1 },
                None => shape.form,
            };
            let count: usize = match self.check_field(version, message, start, form, &at) {
                Some(count) => count,
                None => {
                    return false;
                },
            };
            let variadic: usize = match form {
                Form::Views => at.variadic + 1,
                _ => at.variadic,
            };
            at = Cursor { node: at.node + 1, buffer: at.buffer + count, variadic };
            let size: usize = if shape.dictionary.is_some() && shape.size > 0 {
                shape.size
            } else {
                1
            };
            if size >= shapes.len() - i {
                return true;
            }
            assert(shapes@.skip(i as int).skip(size as int) == shapes@.skip(i + size));
            i = i + size;
        }
        assert(shapes@.skip(i as int).len() == 0);
        true
    }

    /// The room for dictionaries that is left once the body has been read.
    pub fn room_left(&self, message: &[u8], start: usize, room: Option<u64>) -> (left: Option<u64>)
        requires
            start <= message@.len(),
        ensures
            forall|version: i16|
                left == (#[trigger] self.body(version, message, start)).room_after(room),
            left == self.body(VERSION_FIVE, message, start).room_after(room),
    {
        let mut sum: u128 = 0;
        let mut i: usize = 0;
        assert(self.nodes@.take(0) == Seq::<i64>::empty());
        while i < self.nodes.len()
            invariant
                0 <= i <= self.nodes@.len(),
                sum == sum_of(self.nodes@.take(i as int)),
                sum <= i * 0x7fff_ffff_ffff_ffff,
            decreases self.nodes@.len() - i,
        {
            assert(self.nodes@.take(i + 1).drop_last() == self.nodes@.take(i as int));
            if self.nodes[i] > 0 {
                sum = sum + self.nodes[i] as u128;
            }
            i = i + 1;
        }
        assert(self.nodes@.take(i as int) == self.nodes@);
        let weight: u128 = sum + (message.len() - start) as u128;
        match room {
            Some(room) => if weight <= room as u128 {
                Some(room - weight as u64)
            } else {
                None
            },
            None => None,
        }
    }

    fn check_values(
        &self,
        version: i16,
        message: &[u8],
        start: usize,
        shapes: &[FieldShape],
        room: Option<u64>,
        i: usize,
        appends: bool,
    ) -> (fit: bool)
        requires
            self.body(version, message, start).is_within(),
            start <= message@.len(),
            i < shapes@.len(),
        ensures
            fit == self.body(version, message, start).fits_values(
                (Known { fields: shapes@, room }),
                i as int,
                appends,
            ),
    {
        let first = shapes[i];
        if first.size == 0 || first.size > shapes.len() - i {
            return false;
        }
        let mut values: Vec<FieldShape> = Vec::new();
        values.push(FieldShape { dictionary: None, ..first });
        let end: usize = i + first.size;
        let mut n: usize = i + 1;
        while n < end
            invariant
                i < n <= end,
                first == shapes@[i as int],
                end == i + first.size,
                end <= shapes@.len(),
                values@ == values_of(shapes@, i as int).take(n - i),
            decreases end - n,
        {
            values.push(shapes[n]);
            n = n + 1;
        }
        assert(values@ == values_of(shapes@, i as int));
        if appends && !first.extends && !(simple(values.as_slice()) && !self.compressed
            && self.room_left(message, start, room).is_some()) {
            return false;
        }
        self.check_fields(version, message, start, values.as_slice())
    }

    /// Whether the body can be read.
    pub fn check(
        &self,
        version: i16,
        message: &[u8],
        start: usize,
        shapes: &[FieldShape],
        room: Option<u64>,
        dictionary: Option<(i64, bool)>,
    ) -> (sound: bool)
        requires
            start <= message@.len(),
        ensures
            sound == self.body(version, message, start).is_sound(
                (Known { fields: shapes@, room }),
                dictionary,
            ),
    {
        if !self.check_within(version, message, start) {
            return false;
        }
        let (id, appends) = match dictionary {
            None => {
                return self.check_fields(version, message, start, shapes);
            },
            Some(found) => found,
        };
        let ghost body = self.body(version, message, start);
        let ghost known = Known { fields: shapes@, room };
        let mut i: usize = 0;
        while i < shapes.len()
            invariant
                0 <= i <= shapes@.len(),
                body == self.body(version, message, start),
                known == (Known { fields: shapes@, room }),
                body.is_within(),
                start <= message@.len(),
                dictionary == Some((id, appends)),
                forall|j: int|
                    0 <= j < i && (#[trigger] known.fields[j]).is_in(id) ==> body.fits_values(
                        known,
                        j,
                        appends,
                    ),
            decreases shapes@.len() - i,
        {
            let encoded = match shapes[i].dictionary {
                Some((found, _)) => found == id,
                None => false,
            };
            assert(encoded == known.fields[i as int].is_in(id));
            if encoded && !self.check_values(version, message, start, shapes, room, i, appends) {
                return false;
            }
            i = i + 1;
        }
        true
    }
}

fn simple(shapes: &[FieldShape]) -> (simple: bool)
    ensures
        simple == is_simple(shapes@),
{
    let mut i: usize = 0;
    while i < shapes.len()
        invariant
            0 <= i <= shapes@.len(),
            forall|j: int|
                0 <= j < i ==> (#[trigger] shapes@[j]).dictionary is None && !(
                shapes@[j].form is Variants),
        decreases shapes@.len() - i,
    {
        let variants = match shapes[i].form {
            Form::Variants { .. } => true,
            _ => false,
        };
        if variants || shapes[i].dictionary.is_some() {
            assert(!(shapes@[i as int].dictionary is None && !(
            shapes@[i as int].form is Variants)));
            return false;
        }
        i = i + 1;
    }
    true
}

fn read_word(bytes: &[u8], at: usize) -> (word: u32)
    requires
        at + 4 <= bytes@.len(),
    ensures
        word == word_at(bytes@, at as int),
{
    bytes[at] as u32 + 0x100 * bytes[at + 1] as u32 + 0x1_0000 * bytes[at + 2] as u32 + 0x100_0000
        * bytes[at + 3] as u32
}

/// What stands at the front of a buffer.
pub enum Front {
    /// The start of a message.
    Part,
    /// The end of the stream, in so many bytes.
    End { len: usize },
    /// A message that carries a batch and is longer than the limit.
    TooLong,
    /// A message that cannot be read.
    Unsound,
    /// A whole message of so many bytes, the fields of the schema that it carries, if any, and the
    /// room for dictionaries that is left once it has been read.
    Whole {
        len: usize,
        head: Option<MessageHead>,
        fields: Option<Vec<FieldShape>>,
        room: Option<u64>,
    },
}

impl Front {
    /// What was found, where `known` was known.
    pub open spec fn found(self, known: Known) -> Found {
        match self {
            Front::Part => Found::Part,
            Front::End { len } => Found::End { len: len as nat },
            Front::TooLong => Found::TooLong,
            Front::Unsound => Found::Unsound,
            Front::Whole { len, head, fields, room } => Found::Whole {
                len: len as nat,
                head,
                known: Known {
                    fields: match fields {
                        Some(fields) => fields@,
                        None => known.fields,
                    },
                    room,
                },
            },
        }
    }
}

/// The start of the message at the front of a buffer, once it is there: the bytes ahead of its
/// metadata, and the bytes of those.
pub fn front_prefix(body: &[u8]) -> (prefix: Option<(usize, u32)>)
    ensures
        match prefix_at(body@) {
            Some(found) => prefix matches Some((len, size)) && len == found.len && size
                == found.size,
            None => prefix is None,
        },
{
    if body.len() < 4 {
        return None;
    }
    let size: u32 = read_word(body, 0);
    if size != u32::MAX {
        return Some((4, size));
    }
    if body.len() < 8 {
        return None;
    }
    Some((8, read_word(body, 4)))
}

/// How far a message reaches.
pub enum Extent {
    /// Beyond what is there.
    Part,
    /// Beyond the limit.
    TooLong,
    /// To nowhere.
    Unsound,
    /// So many bytes, which are all there.
    Whole { len: usize },
}

impl MessageHead {
    /// How far the message reaches whose metadata end at `start`, where there are `total` bytes.
    /// Only one that carries a batch is held to the limit.
    pub fn extent(&self, start: usize, limit: usize, total: usize) -> (extent: Extent)
        requires
            start <= total,
        ensures
            ({
                let len = start + self.body_len;
                let over = self.header == RECORD_BATCH && len > limit;
                match extent {
                    Extent::Unsound => self.body_len < 0,
                    Extent::TooLong => self.body_len >= 0 && over,
                    Extent::Part => self.body_len >= 0 && !over && len > total,
                    Extent::Whole { len: found } => self.body_len >= 0 && !over && found == len
                        && len <= total,
                }
            }),
    {
        if self.body_len < 0 {
            Extent::Unsound
        } else if self.header == RECORD_BATCH && (start > limit || self.body_len as u64 > (limit
            - start) as u64) {
            Extent::TooLong
        } else if self.body_len as u64 > (total - start) as u64 {
            Extent::Part
        } else {
            Extent::Whole { len: start + self.body_len as usize }
        }
    }
}

/// Looks at the message at the front of a buffer.
pub fn front_message(
    shapes: &[FieldShape],
    room: Option<u64>,
    limit: usize,
    body: &[u8],
) -> (front: Front)
    ensures
        front.found(Known { fields: shapes@, room }) == next_message(
            (Known { fields: shapes@, room }),
            limit as nat,
            body@,
        ),
{
    let (prefix, size) = match front_prefix(body) {
        Some(found) => found,
        None => {
            return Front::Part;
        },
    };
    if size == 0 {
        return Front::End { len: prefix };
    }
    if size as usize > body.len() - prefix {
        return Front::Part;
    }
    let start: usize = prefix + size as usize;
    let metadata = vstd::slice::slice_subrange(body, prefix, start);
    let head = match message_head(metadata) {
        None => {
            return Front::Whole { len: start, head: None, fields: None, room };
        },
        Some(head) => head,
    };
    let len: usize = match head.extent(start, limit, body.len()) {
        Extent::Whole { len } => len,
        Extent::Part => {
            return Front::Part;
        },
        Extent::TooLong => {
            return Front::TooLong;
        },
        Extent::Unsound => {
            return Front::Unsound;
        },
    };
    if head.header == SCHEMA {
        let mut fields: Vec<FieldShape> = Vec::new();
        if !add_fields(&schema_fields(metadata), DEPTH, &mut fields) {
            return Front::Unsound;
        }
        assert(Seq::<FieldShape>::empty() + fields@ == fields@);
        return Front::Whole { len, head: Some(head), fields: Some(fields), room };
    }
    if head.header == RECORD_BATCH || head.header == DICTIONARY_BATCH {
        let message = vstd::slice::slice_subrange(body, 0, len);
        assert(message@ == body@.take(len as int));
        let layout = match batch_layout(metadata) {
            Some(layout) => layout,
            None => {
                return Front::Unsound;
            },
        };
        let dictionary = dictionary_id(metadata);
        if !layout.check(head.version, message, start, shapes, room, dictionary) {
            return Front::Unsound;
        }
        let ghost read = layout.body(head.version, message, start);
        if dictionary.is_some() {
            let left = layout.room_left(message, start, room);
            assert(left == read.room_after(room));
            return Front::Whole { len, head: Some(head), fields: None, room: left };
        }
    }
    Front::Whole { len, head: Some(head), fields: None, room }
}

/// What stands at the front of a buffer stands there whatever comes behind it.
pub(crate) proof fn message_is_kept(
    known: Known,
    limit: nat,
    body: Seq<u8>,
    more: Seq<u8>,
)
    requires
        !(next_message(known, limit, body) is Part),
    ensures
        next_message(known, limit, body + more) == next_message(known, limit, body),
{
    let whole = body + more;
    let prefix = prefix_at(body)->Some_0;
    let start = prefix.len + prefix.size;
    assert(prefix_at(whole) == prefix_at(body));
    if prefix.size > 0 && start <= body.len() {
        let metadata = body.subrange(prefix.len as int, start as int);
        assert(whole.subrange(prefix.len as int, start as int) == metadata);
        match message_head_of(metadata) {
            Some(head) => {
                let len = start + head.body_len;
                if 0 <= len <= body.len() {
                    assert(whole.take(len) == body.take(len));
                }
            },
            None => {},
        }
    }
}

/// A whole message is one by itself.
pub(crate) proof fn message_stands_alone(known: Known, limit: nat, body: Seq<u8>)
    ensures
        next_message(known, limit, body) matches Found::Whole { len, head, .. } ==> {
            &&& 0 < len <= body.len()
            &&& has_batch(head) ==> len <= limit
            &&& next_message(known, len, body.take(len as int)) == next_message(
                known,
                limit,
                body,
            )
        },
        next_message(known, limit, body) matches Found::End { len } ==> 0 < len <= body.len(),
{
    match next_message(known, limit, body) {
        Found::Whole { len, .. } => {
            let alone = body.take(len as int);
            let prefix = prefix_at(body)->Some_0;
            let start = prefix.len + prefix.size;
            assert(prefix_at(alone) == prefix_at(body));
            assert(alone.subrange(prefix.len as int, start as int) == body.subrange(
                prefix.len as int,
                start as int,
            ));
            assert(alone.take(len as int) == alone);
        },
        _ => {},
    }
}

} // verus!
