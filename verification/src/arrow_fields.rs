//! The fields of an Arrow schema, as far as they say what the body of a batch holds.

use vstd::prelude::*;

verus! {

/// `arrow::ipc::Field`, a field as a schema message describes it.
#[verifier::external_type_specification]
#[verifier::external_body]
pub struct ExIpcField<'a>(arrow::ipc::Field<'a>);

/// What a schema message says of one field, its children apart.
#[derive(Clone, Copy)]
pub struct FieldHead {
    /// The number of its type.
    pub tag: u8,
    /// Of an integer, how many bits it has and whether it is signed.
    pub integer: Option<(i32, bool)>,
    /// Of a run of bytes of one length, that length.
    pub width: Option<i32>,
    /// Of a list of one length, that length.
    pub items: Option<i32>,
    /// Of a union, the number of its mode, and whether its children are numbered.
    pub variants: Option<(i16, bool)>,
    /// Of a field that is encoded by a dictionary, the dictionary and the bits of an index into it.
    pub dictionary: Option<(i64, Option<i32>)>,
}

/// What the accessors of `arrow::ipc::Field` say of a field.
pub uninterp spec fn head_of(field: arrow::ipc::Field) -> FieldHead;

/// What `arrow::ipc::Field::children` gives.
pub uninterp spec fn children_of(field: arrow::ipc::Field) -> Seq<arrow::ipc::Field>;

/// The accessors of `arrow::ipc::Field`: what they say is named.
#[verifier::external_body]
fn field_head(field: &arrow::ipc::Field) -> (head: FieldHead)
    ensures
        head == head_of(*field),
{
    FieldHead {
        tag: field.type_type().0,
        integer: field.type_as_int().map(|kind| (kind.bitWidth(), kind.is_signed())),
        width: field.type_as_fixed_size_binary().map(|kind| kind.byteWidth()),
        items: field.type_as_fixed_size_list().map(|kind| kind.listSize()),
        variants: field.type_as_union().map(|kind| (kind.mode().0, kind.typeIds().is_some())),
        dictionary: field.dictionary().map(
            |found| (found.id(), found.indexType().map(|index| index.bitWidth())),
        ),
    }
}

/// `arrow::ipc::Field::children`: the fields below a field, in order.
#[verifier::external_body]
fn field_children<'a>(field: &arrow::ipc::Field<'a>) -> (children: Vec<arrow::ipc::Field<'a>>)
    ensures
        children@ == children_of(*field),
{
    field.children().map_or(Vec::new(), |found| found.iter().collect())
}

/// Which buffers of a body belong to a field.
#[derive(Debug, Clone, Copy)]
pub enum Form {
    /// So many buffers. The second and the third hold elements of so many bytes each.
    Plain { count: usize, second: usize, third: usize },
    /// One buffer, and so many items of the child for each element.
    Repeated { items: i32 },
    /// A validity buffer and one of 16-byte views, and as many more as the batch says.
    Views,
    /// The number of a child for each element, and where it is in that child if `dense`.
    Variants { dense: bool },
}

/// One field of a schema, in the order in which a batch lays out the fields: each before its
/// children.
#[derive(Debug, Clone, Copy)]
pub struct FieldShape {
    /// The buffers, where no dictionary encodes the field.
    pub form: Form,
    /// The dictionary that encodes it, and the bytes of an index into that.
    pub dictionary: Option<(i64, usize)>,
    /// Whether every value takes room of its own in the body and holds no others, so that any
    /// number can be appended to a dictionary of them.
    pub extends: bool,
    /// How many entries the field and all below it take.
    pub size: usize,
}

/// The types by number.
pub const NULL: u8 = 1;

pub const INT: u8 = 2;

pub const BINARY: u8 = 4;

pub const UTF8: u8 = 5;

pub const LIST: u8 = 12;

pub const STRUCT: u8 = 13;

pub const UNION: u8 = 14;

pub const FIXED_SIZE_BINARY: u8 = 15;

pub const FIXED_SIZE_LIST: u8 = 16;

pub const MAP: u8 = 17;

pub const LARGE_BINARY: u8 = 19;

pub const LARGE_UTF8: u8 = 20;

pub const LARGE_LIST: u8 = 21;

pub const RUN_END_ENCODED: u8 = 22;

pub const BINARY_VIEW: u8 = 23;

pub const UTF8_VIEW: u8 = 24;

pub const LIST_VIEW: u8 = 25;

pub const LARGE_LIST_VIEW: u8 = 26;

/// How deep fields may be nested.
pub const DEPTH: usize = 64;

/// The bytes of an integer of so many bits.
pub open spec fn bytes_of(bits: i32) -> usize {
    if bits == 16 {
        2
    } else if bits == 32 {
        4
    } else if bits == 64 {
        8
    } else {
        1
    }
}

fn byte_width(bits: i32) -> (bytes: usize)
    ensures
        bytes == bytes_of(bits),
{
    if bits == 16 {
        2
    } else if bits == 32 {
        4
    } else if bits == 64 {
        8
    } else {
        1
    }
}

impl FieldHead {
    /// Whether fields of this type have children.
    pub open spec fn is_nested(self) -> bool {
        ||| self.tag == LIST
        ||| self.tag == STRUCT
        ||| self.tag == UNION
        ||| self.tag == FIXED_SIZE_LIST
        ||| self.tag == MAP
        ||| self.tag == LARGE_LIST
        ||| self.tag == RUN_END_ENCODED
        ||| self.tag == LIST_VIEW
        ||| self.tag == LARGE_LIST_VIEW
    }

    /// Whether a field can say where runs end.
    pub open spec fn ends_runs(self) -> bool {
        &&& self.tag == INT
        &&& self.dictionary is None
        &&& self.integer matches Some((bits, signed)) && signed && bytes_of(bits) > 1
    }

    /// The buffers of a field that says where runs end.
    pub open spec fn run_ends(self) -> Form {
        let second = match self.integer {
            Some((bits, _)) => bytes_of(bits),
            None => 1,
        };
        Form::Plain { count: 2, second, third: 1 }
    }

    /// The buffers of a field of this type.
    pub open spec fn form(self) -> Form {
        if self.tag == NULL || self.tag == RUN_END_ENCODED {
            Form::Plain { count: 0, second: 1, third: 1 }
        } else if self.tag == BINARY || self.tag == UTF8 {
            Form::Plain { count: 3, second: 4, third: 1 }
        } else if self.tag == LARGE_BINARY || self.tag == LARGE_UTF8 {
            Form::Plain { count: 3, second: 8, third: 1 }
        } else if self.tag == LIST || self.tag == MAP {
            Form::Plain { count: 2, second: 4, third: 1 }
        } else if self.tag == LARGE_LIST {
            Form::Plain { count: 2, second: 8, third: 1 }
        } else if self.tag == LIST_VIEW {
            Form::Plain { count: 3, second: 4, third: 4 }
        } else if self.tag == LARGE_LIST_VIEW {
            Form::Plain { count: 3, second: 8, third: 8 }
        } else if self.tag == STRUCT {
            Form::Plain { count: 1, second: 1, third: 1 }
        } else if self.tag == FIXED_SIZE_LIST {
            Form::Repeated {
                items: match self.items {
                    Some(items) => items,
                    None => 0,
                },
            }
        } else if self.tag == BINARY_VIEW || self.tag == UTF8_VIEW {
            Form::Views
        } else if self.tag == UNION {
            Form::Variants { dense: !(self.variants matches Some((0, _))) }
        } else {
            Form::Plain { count: 2, second: 1, third: 1 }
        }
    }

    /// Whether any number of values of this type can be appended to a dictionary: each takes room
    /// of its own in the body and holds no others.
    pub open spec fn extends(self) -> bool {
        &&& !self.is_nested()
        &&& self.tag != NULL
        &&& self.tag == FIXED_SIZE_BINARY ==> (self.width matches Some(width) && width > 0)
    }

    /// Whether a field of this type can be read that has `count` children; of the first is given
    /// what is said of it, and how many children it has itself.
    ///
    /// Lengths are not negative, the children of a union have numbers of one byte, runs end at
    /// integers, and a map holds pairs.
    pub open spec fn is_readable(self, count: int, first: Option<(FieldHead, usize)>) -> bool {
        &&& self.tag == FIXED_SIZE_BINARY ==> !(self.width matches Some(width) && width < 0)
        &&& self.tag == FIXED_SIZE_LIST ==> !(self.items matches Some(items) && items < 0)
        &&& self.tag == UNION ==> (self.variants matches Some((_, numbered)) && numbered)
            || count <= 128
        &&& self.tag == RUN_END_ENCODED ==> (first matches Some((head, _)) && head.ends_runs())
        &&& self.tag == MAP ==> (first matches Some((head, count)) && head.tag == STRUCT
            && head.dictionary is None && count == 2)
    }

    /// Whether fields of this type have children.
    pub fn nests(&self) -> (nested: bool)
        ensures
            nested == self.is_nested(),
    {
        self.tag == LIST || self.tag == STRUCT || self.tag == UNION || self.tag == FIXED_SIZE_LIST
            || self.tag == MAP || self.tag == LARGE_LIST || self.tag == RUN_END_ENCODED || self.tag
            == LIST_VIEW || self.tag == LARGE_LIST_VIEW
    }

    /// Whether a field can say where runs end.
    pub fn can_end_runs(&self) -> (can: bool)
        ensures
            can == self.ends_runs(),
    {
        if self.tag != INT || self.dictionary.is_some() {
            return false;
        }
        match self.integer {
            Some((bits, signed)) => signed && byte_width(bits) > 1,
            None => false,
        }
    }

    /// The buffers of a field that says where runs end.
    pub fn run_end_buffers(&self) -> (form: Form)
        ensures
            form == self.run_ends(),
    {
        let second: usize = match self.integer {
            Some((bits, _)) => byte_width(bits),
            None => 1,
        };
        Form::Plain { count: 2, second, third: 1 }
    }

    /// The buffers of a field of this type.
    pub fn buffers(&self) -> (form: Form)
        ensures
            form == self.form(),
    {
        if self.tag == NULL || self.tag == RUN_END_ENCODED {
            Form::Plain { count: 0, second: 1, third: 1 }
        } else if self.tag == BINARY || self.tag == UTF8 {
            Form::Plain { count: 3, second: 4, third: 1 }
        } else if self.tag == LARGE_BINARY || self.tag == LARGE_UTF8 {
            Form::Plain { count: 3, second: 8, third: 1 }
        } else if self.tag == LIST || self.tag == MAP {
            Form::Plain { count: 2, second: 4, third: 1 }
        } else if self.tag == LARGE_LIST {
            Form::Plain { count: 2, second: 8, third: 1 }
        } else if self.tag == LIST_VIEW {
            Form::Plain { count: 3, second: 4, third: 4 }
        } else if self.tag == LARGE_LIST_VIEW {
            Form::Plain { count: 3, second: 8, third: 8 }
        } else if self.tag == STRUCT {
            Form::Plain { count: 1, second: 1, third: 1 }
        } else if self.tag == FIXED_SIZE_LIST {
            let items: i32 = match self.items {
                Some(items) => items,
                None => 0,
            };
            Form::Repeated { items }
        } else if self.tag == BINARY_VIEW || self.tag == UTF8_VIEW {
            Form::Views
        } else if self.tag == UNION {
            let dense = match self.variants {
                Some((mode, _)) => mode != 0,
                None => true,
            };
            Form::Variants { dense }
        } else {
            Form::Plain { count: 2, second: 1, third: 1 }
        }
    }

    /// Whether any number of values of this type can be appended to a dictionary.
    pub fn can_extend(&self) -> (can: bool)
        ensures
            can == self.extends(),
    {
        if self.nests() || self.tag == NULL {
            false
        } else if self.tag == FIXED_SIZE_BINARY {
            match self.width {
                Some(width) => width > 0,
                None => false,
            }
        } else {
            true
        }
    }

    /// Whether a field of this type can be read.
    pub fn can_be_read(&self, count: usize, first: Option<(FieldHead, usize)>) -> (can: bool)
        ensures
            can == self.is_readable(count as int, first),
    {
        if self.tag == FIXED_SIZE_BINARY {
            match self.width {
                Some(width) => width >= 0,
                None => true,
            }
        } else if self.tag == FIXED_SIZE_LIST {
            match self.items {
                Some(items) => items >= 0,
                None => true,
            }
        } else if self.tag == UNION {
            let numbered = match self.variants {
                Some((_, numbered)) => numbered,
                None => false,
            };
            numbered || count <= 128
        } else if self.tag == RUN_END_ENCODED {
            match first {
                Some((head, _)) => head.can_end_runs(),
                None => false,
            }
        } else if self.tag == MAP {
            match first {
                Some((head, count)) => head.tag == STRUCT && head.dictionary.is_none() && count
                    == 2,
                None => false,
            }
        } else {
            true
        }
    }
}

/// What is said of the first of some fields, and how many children it has.
pub open spec fn first_of(fields: Seq<arrow::ipc::Field>) -> Option<(FieldHead, usize)> {
    if fields.len() == 0 {
        None
    } else {
        Some((head_of(fields[0]), children_of(fields[0]).len() as usize))
    }
}

/// What is below a field whose runs end where its first child says: the ends are whole integers.
pub open spec fn with_run_ends(
    below: Seq<FieldShape>,
    first: Option<(FieldHead, usize)>,
) -> Seq<FieldShape> {
    match first {
        Some((head, _)) if below.len() > 0 => below.update(
            0,
            FieldShape { form: head.run_ends(), ..below[0] },
        ),
        _ => below,
    }
}

/// The entries of a field and of all below it; none where some field of them cannot be read, or
/// they are nested deeper than `depth`.
pub open spec fn shapes_below(field: arrow::ipc::Field, depth: nat) -> Option<Seq<FieldShape>>
    decreases depth, 0nat, 0nat,
{
    let head = head_of(field);
    let children = children_of(field);
    if depth == 0 || !head.is_readable(children.len() as int, first_of(children)) {
        None
    } else {
        let below = if head.is_nested() {
            shapes_of(children, (depth - 1) as nat)
        } else {
            Some(seq![])
        };
        match below {
            None => None,
            Some(below) => Some(
                seq![
                    FieldShape {
                        form: head.form(),
                        dictionary: match head.dictionary {
                            None => None,
                            Some((id, None)) => Some((id, 1usize)),
                            Some((id, Some(bits))) => Some((id, bytes_of(bits))),
                        },
                        extends: head.extends(),
                        size: (below.len() + 1) as usize,
                    },
                ] + (if head.tag == RUN_END_ENCODED {
                    with_run_ends(below, first_of(children))
                } else {
                    below
                }),
            ),
        }
    }
}

/// The entries of fields, one after the other.
pub open spec fn shapes_of(fields: Seq<arrow::ipc::Field>, depth: nat) -> Option<Seq<FieldShape>>
    decreases depth, 1nat, fields.len(),
{
    if fields.len() == 0 {
        Some(seq![])
    } else {
        match (shapes_of(fields.drop_last(), depth), shapes_below(fields.last(), depth)) {
            (Some(before), Some(last)) => Some(before + last),
            _ => None,
        }
    }
}

/// Appends the entries of a field and of all below it; says whether they can be read.
fn add_field<'a>(
    field: &arrow::ipc::Field<'a>,
    depth: usize,
    shapes: &mut Vec<FieldShape>,
) -> (readable: bool)
    ensures
        match shapes_below(*field, depth as nat) {
            Some(below) => readable && final(shapes)@ == old(shapes)@ + below,
            None => !readable,
        },
    decreases depth, 0nat, 0nat,
{
    if depth == 0 {
        return false;
    }
    let head = field_head(field);
    let children = field_children(field);
    let first = if children.len() > 0 {
        Some((field_head(&children[0]), field_children(&children[0]).len()))
    } else {
        None
    };
    if !head.can_be_read(children.len(), first) {
        return false;
    }
    let mut below: Vec<FieldShape> = Vec::new();
    if head.nests() {
        if !add_fields(&children, depth - 1, &mut below) {
            return false;
        }
    }
    assert(Seq::<FieldShape>::empty() + below@ == below@);
    if head.tag == RUN_END_ENCODED && below.len() > 0 {
        match first {
            Some((ends, _)) => {
                let shape = below[0];
                below.set(0, FieldShape { form: ends.run_end_buffers(), ..shape });
            },
            None => {},
        }
    }
    let dictionary = match head.dictionary {
        None => None,
        Some((id, None)) => Some((id, 1usize)),
        Some((id, Some(bits))) => Some((id, byte_width(bits))),
    };
    let ghost inner = below@;
    let at: usize = shapes.len();
    let form = head.buffers();
    let extends = head.can_extend();
    shapes.push(FieldShape { form, dictionary, extends, size: 1 });
    shapes.append(&mut below);
    let size: usize = shapes.len() - at;
    shapes.set(at, FieldShape { form, dictionary, extends, size });
    proof {
        let whole = seq![FieldShape { form, dictionary, extends, size }] + inner;
        assert(shapes@ == old(shapes)@ + whole);
    }
    true
}

/// Appends the entries of fields, one after the other; says whether they can be read.
pub(crate) fn add_fields<'a>(
    fields: &Vec<arrow::ipc::Field<'a>>,
    depth: usize,
    shapes: &mut Vec<FieldShape>,
) -> (readable: bool)
    ensures
        match shapes_of(fields@, depth as nat) {
            Some(added) => readable && final(shapes)@ == old(shapes)@ + added,
            None => !readable,
        },
    decreases depth, 1nat, fields@.len(),
{
    let ghost start = shapes@;
    let mut i: usize = 0;
    while i < fields.len()
        invariant
            0 <= i <= fields@.len(),
            start == old(shapes)@,
            shapes_of(fields@.take(i as int), depth as nat) matches Some(added)
                && shapes@ == start + added,
        decreases fields@.len() - i,
    {
        assert(fields@.take(i + 1).drop_last() == fields@.take(i as int));
        assert(fields@.take(i + 1).last() == fields@[i as int]);
        if !add_field(&fields[i], depth, shapes) {
            proof {
                unreadable_is_kept(fields@, i + 1, depth as nat);
            }
            return false;
        }
        i = i + 1;
    }
    assert(fields@.take(i as int) == fields@);
    true
}

proof fn unreadable_is_kept(fields: Seq<arrow::ipc::Field>, n: int, depth: nat)
    requires
        0 <= n <= fields.len(),
        shapes_of(fields.take(n), depth) is None,
    ensures
        shapes_of(fields, depth) is None,
    decreases fields.len(),
{
    if n < fields.len() {
        assert(fields.drop_last().take(n) == fields.take(n));
        unreadable_is_kept(fields.drop_last(), n, depth);
    } else {
        assert(fields.take(n) == fields);
    }
}

} // verus!
