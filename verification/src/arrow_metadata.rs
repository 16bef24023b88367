//! How long the metadata of an Arrow IPC message get.
//!
//! The metadata of a message are built in one piece, which cannot be longer than 2 GiB. What they
//! take is estimated from above: the texts of a schema, the buffers of a batch, and a fixed amount
//! for each of the things they belong to.

use crate::arrow_ipc_codec::ArrowBatch;
use arrow::array::{Array, ArrayData};
use arrow::datatypes::{DataType, Field, Schema};
use std::sync::Arc;
use vstd::prelude::*;

verus! {

/// `arrow::datatypes::Field`, a field of a schema.
#[verifier::external_type_specification]
#[verifier::external_body]
pub struct ExField(Field);

/// `arrow::datatypes::DataType`, the type of a field.
#[verifier::external_type_specification]
#[verifier::external_body]
pub struct ExDataType(DataType);

/// `arrow::array::ArrayData`, what a column holds.
#[verifier::external_type_specification]
#[verifier::external_body]
pub struct ExArrayData(ArrayData);

/// The lengths of the keys and values of `Schema::metadata`, in bytes.
pub uninterp spec fn schema_pairs_of(schema: Schema) -> Seq<(usize, usize)>;

/// What `Schema::fields` gives.
pub uninterp spec fn schema_fields_of(schema: Schema) -> Seq<Arc<Field>>;

/// The length of `Field::name`, in bytes.
pub uninterp spec fn name_len_of(field: Field) -> usize;

/// The lengths of the keys and values of `Field::metadata`, in bytes.
pub uninterp spec fn field_pairs_of(field: Field) -> Seq<(usize, usize)>;

/// What `Field::data_type` gives.
pub uninterp spec fn type_of(field: Field) -> DataType;

/// The length of the time zone that a `DataType::Timestamp` names, in bytes.
pub uninterp spec fn zone_len_of(kind: DataType) -> usize;

/// The type of the values of a `DataType::Dictionary`.
pub uninterp spec fn value_type_of(kind: DataType) -> Option<DataType>;

/// The fields below a `DataType`.
pub uninterp spec fn fields_below_of(kind: DataType) -> Seq<Arc<Field>>;

/// What `Array::to_data` gives of each of `RecordBatch::columns`.
pub uninterp spec fn columns_of(batch: ArrowBatch) -> Seq<ArrayData>;

/// How many there are of `ArrayData::buffers`.
pub uninterp spec fn buffer_count_of(data: ArrayData) -> usize;

/// What `ArrayData::child_data` gives.
pub uninterp spec fn child_data_of(data: ArrayData) -> Seq<ArrayData>;

/// `Schema::metadata`: the lengths of its keys and values.
#[verifier::external_body]
fn schema_pairs(schema: &Schema) -> (pairs: Vec<(usize, usize)>)
    ensures
        pairs@ == schema_pairs_of(*schema),
{
    schema.metadata().iter().map(|(key, value)| (key.len(), value.len())).collect()
}

/// `Schema::fields`: the fields, in order.
#[verifier::external_body]
fn schema_fields(schema: &Schema) -> (fields: Vec<Arc<Field>>)
    ensures
        fields@ == schema_fields_of(*schema),
{
    schema.fields().iter().cloned().collect()
}

/// `Field::name`: its length.
#[verifier::external_body]
fn name_len(field: &Field) -> (len: usize)
    ensures
        len == name_len_of(*field),
{
    field.name().len()
}

/// `Field::metadata`: the lengths of its keys and values.
#[verifier::external_body]
fn field_pairs(field: &Field) -> (pairs: Vec<(usize, usize)>)
    ensures
        pairs@ == field_pairs_of(*field),
{
    field.metadata().iter().map(|(key, value)| (key.len(), value.len())).collect()
}

/// `Field::data_type`: the type of a field.
#[verifier::external_body]
fn field_type(field: &Field) -> (kind: DataType)
    ensures
        kind == type_of(*field),
{
    field.data_type().clone()
}

/// `DataType::Timestamp`: the length of the time zone, if it names one.
#[verifier::external_body]
fn zone_len(kind: &DataType) -> (len: usize)
    ensures
        len == zone_len_of(*kind),
{
    match kind {
        DataType::Timestamp(_, Some(zone)) => zone.len(),
        _ => 0,
    }
}

/// `DataType::Dictionary`: the type of the values.
#[verifier::external_body]
fn value_type(kind: &DataType) -> (values: Option<DataType>)
    ensures
        values == value_type_of(*kind),
{
    match kind {
        DataType::Dictionary(_, values) => Some(values.as_ref().clone()),
        _ => None,
    }
}

/// The nested variants of `DataType`: the fields that they hold.
#[verifier::external_body]
fn fields_below(kind: &DataType) -> (fields: Vec<Arc<Field>>)
    ensures
        fields@ == fields_below_of(*kind),
{
    match kind {
        DataType::Struct(fields) => fields.iter().cloned().collect(),
        DataType::Union(fields, _) => fields.iter().map(|(_, field)| field.clone()).collect(),
        DataType::RunEndEncoded(ends, values) => vec![ends.clone(), values.clone()],
        DataType::List(field) | DataType::LargeList(field) => vec![field.clone()],
        DataType::ListView(field) | DataType::LargeListView(field) => vec![field.clone()],
        DataType::FixedSizeList(field, _) | DataType::Map(field, _) => vec![field.clone()],
        _ => vec![],
    }
}

/// `RecordBatch::columns` and `Array::to_data`: what the columns hold.
#[verifier::external_body]
fn column_data(batch: &ArrowBatch) -> (columns: Vec<ArrayData>)
    ensures
        columns@ == columns_of(*batch),
{
    batch.batch.columns().iter().map(|column| column.to_data()).collect()
}

/// `ArrayData::buffers`: how many there are.
#[verifier::external_body]
fn buffer_count(data: &ArrayData) -> (count: usize)
    ensures
        count == buffer_count_of(*data),
{
    data.buffers().len()
}

/// `ArrayData::child_data`: what is below a column.
#[verifier::external_body]
fn child_data(data: &ArrayData) -> (children: Vec<ArrayData>)
    ensures
        children@ == child_data_of(*data),
{
    data.child_data().to_vec()
}

/// The most that the metadata of a message may take.
pub const MOST_METADATA: u64 = 0x4000_0000;

/// What a field takes at most besides its texts.
pub const FIELD_COST: u64 = 256;

/// What a key and its value take at most besides their texts.
pub const PAIR_COST: u64 = 64;

/// What one array takes at most besides its buffers.
pub const NODE_COST: u64 = 48;

/// What one buffer takes.
pub const BUFFER_COST: u64 = 16;

/// What is more than a `u64` can hold is as much as it can hold.
pub open spec fn capped(amount: int) -> int {
    if amount > u64::MAX {
        u64::MAX as int
    } else {
        amount
    }
}

/// What keys and their values take.
pub open spec fn pairs_cost(pairs: Seq<(usize, usize)>) -> int
    decreases pairs.len(),
{
    if pairs.len() == 0 {
        0
    } else {
        pairs_cost(pairs.drop_last()) + PAIR_COST + pairs.last().0 + pairs.last().1
    }
}

/// What fields take, without what is below them.
pub open spec fn fields_cost(fields: Seq<Arc<Field>>) -> int
    decreases fields.len(),
{
    if fields.len() == 0 {
        0
    } else {
        let last = *fields.last();
        fields_cost(fields.drop_last()) + FIELD_COST + name_len_of(last) + pairs_cost(
            field_pairs_of(last),
        )
    }
}

/// The types of fields.
pub open spec fn types_of(fields: Seq<Arc<Field>>) -> Seq<DataType> {
    fields.map_values(|field: Arc<Field>| type_of(*field))
}

/// The types below a type.
pub open spec fn types_below(kind: DataType) -> Seq<DataType> {
    let fields = types_of(fields_below_of(kind));
    match value_type_of(kind) {
        Some(values) => fields.push(values),
        None => fields,
    }
}

/// What a type takes, without what is below the fields that it holds.
pub open spec fn type_cost(kind: DataType) -> int {
    1 + zone_len_of(kind) + fields_cost(fields_below_of(kind))
}

/// Whether types, and all below them, take no more than `room`.
pub open spec fn types_fit(kinds: Seq<DataType>, room: nat) -> bool
    decreases room,
{
    if kinds.len() == 0 {
        true
    } else {
        let cost = type_cost(kinds.last());
        0 < cost <= room && types_fit(
            kinds.drop_last() + types_below(kinds.last()),
            (room - cost) as nat,
        )
    }
}

/// Whether the metadata of a schema message can be built.
pub open spec fn schema_fits(schema: Schema) -> bool {
    let cost = pairs_cost(schema_pairs_of(schema)) + fields_cost(schema_fields_of(schema));
    cost <= MOST_METADATA && types_fit(
        types_of(schema_fields_of(schema)),
        (MOST_METADATA - cost) as nat,
    )
}

/// Whether arrays, and all below them, take no more than `room`.
pub open spec fn arrays_fit(arrays: Seq<ArrayData>, room: nat) -> bool
    decreases room,
{
    if arrays.len() == 0 {
        true
    } else {
        let cost = NODE_COST + BUFFER_COST * buffer_count_of(arrays.last());
        cost <= room && arrays_fit(
            arrays.drop_last() + child_data_of(arrays.last()),
            (room - cost) as nat,
        )
    }
}

/// Whether the metadata of the messages that carry a batch can be built. Those of its dictionaries
/// are part of what its columns hold.
pub open spec fn batch_fits(batch: ArrowBatch) -> bool {
    arrays_fit(columns_of(batch), MOST_METADATA as nat)
}

proof fn pair_costs_are_not_negative()
    ensures
        forall|pairs: Seq<(usize, usize)>| #[trigger] pairs_cost(pairs) >= 0,
{
    assert forall|pairs: Seq<(usize, usize)>| #[trigger] pairs_cost(pairs) >= 0 by {
        pair_cost_is_not_negative(pairs);
    }
}

proof fn pair_cost_is_not_negative(pairs: Seq<(usize, usize)>)
    ensures
        pairs_cost(pairs) >= 0,
    decreases pairs.len(),
{
    if pairs.len() > 0 {
        pair_cost_is_not_negative(pairs.drop_last());
    }
}

pub(crate) proof fn costs_are_not_negative(fields: Seq<Arc<Field>>)
    ensures
        fields_cost(fields) >= 0,
    decreases fields.len(),
{
    if fields.len() > 0 {
        costs_are_not_negative(fields.drop_last());
        pair_costs_are_not_negative();
    }
}

/// What keys and their values take.
pub fn weigh_pairs(pairs: &Vec<(usize, usize)>) -> (cost: u64)
    ensures
        cost == capped(pairs_cost(pairs@)),
{
    let mut cost: u64 = 0;
    let mut i: usize = 0;
    while i < pairs.len()
        invariant
            0 <= i <= pairs@.len(),
            cost == capped(pairs_cost(pairs@.take(i as int))),
        decreases pairs@.len() - i,
    {
        assert(pairs@.take(i + 1).drop_last() == pairs@.take(i as int));
        let (key, value) = pairs[i];
        cost = cost.saturating_add(PAIR_COST).saturating_add(key as u64).saturating_add(
            value as u64,
        );
        i = i + 1;
    }
    assert(pairs@.take(i as int) == pairs@);
    cost
}

/// What fields take, without what is below them; and their types.
fn weigh_fields(fields: &Vec<Arc<Field>>) -> (weighed: (u64, Vec<DataType>))
    ensures
        weighed.0 == capped(fields_cost(fields@)),
        weighed.1@ == types_of(fields@),
{
    let mut cost: u64 = 0;
    let mut kinds: Vec<DataType> = Vec::new();
    let mut i: usize = 0;
    while i < fields.len()
        invariant
            0 <= i <= fields@.len(),
            cost == capped(fields_cost(fields@.take(i as int))),
            kinds@ == types_of(fields@.take(i as int)),
        decreases fields@.len() - i,
    {
        assert(fields@.take(i + 1).drop_last() == fields@.take(i as int));
        proof {
            pair_costs_are_not_negative();
        }
        let pairs: u64 = weigh_pairs(&field_pairs(&fields[i]));
        cost = cost.saturating_add(FIELD_COST).saturating_add(
            name_len(&fields[i]) as u64,
        ).saturating_add(pairs);
        kinds.push(field_type(&fields[i]));
        assert(kinds@ == types_of(fields@.take(i + 1)));
        i = i + 1;
    }
    assert(fields@.take(i as int) == fields@);
    (cost, kinds)
}

fn check_types(first: Vec<DataType>, room: u64) -> (fit: bool)
    requires
        room < u64::MAX,
    ensures
        fit == types_fit(first@, room as nat),
{
    let ghost all = first@;
    let mut kinds = first;
    let mut left: u64 = room;
    loop
        invariant
            all == first@,
            types_fit(all, room as nat) == types_fit(kinds@, left as nat),
            left <= room < u64::MAX,
        decreases left,
    {
        let kind = match kinds.pop() {
            Some(kind) => kind,
            None => {
                return true;
            },
        };
        let (fields, mut below) = weigh_fields(&fields_below(&kind));
        proof {
            costs_are_not_negative(fields_below_of(kind));
        }
        let cost: u64 = fields.saturating_add(zone_len(&kind) as u64).saturating_add(1);
        if cost > left {
            return false;
        }
        match value_type(&kind) {
            Some(values) => {
                below.push(values);
            },
            None => {},
        }
        assert(below@ == types_below(kind));
        kinds.append(&mut below);
        left = left - cost;
    }
}

/// Whether the metadata of a schema message can be built.
pub fn fits_schema(schema: &Schema) -> (fit: bool)
    ensures
        fit == schema_fits(*schema),
{
    let pairs: u64 = weigh_pairs(&schema_pairs(schema));
    let (fields, kinds) = weigh_fields(&schema_fields(schema));
    proof {
        pair_costs_are_not_negative();
        costs_are_not_negative(schema_fields_of(*schema));
    }
    let cost: u64 = pairs.saturating_add(fields);
    cost <= MOST_METADATA && check_types(kinds, MOST_METADATA - cost)
}

/// Whether the metadata of the messages that carry a batch can be built.
pub fn fits_batch(batch: &ArrowBatch) -> (fit: bool)
    ensures
        fit == batch_fits(*batch),
{
    let mut arrays = column_data(batch);
    let mut left: u64 = MOST_METADATA;
    loop
        invariant
            batch_fits(*batch) == arrays_fit(arrays@, left as nat),
            left <= MOST_METADATA,
        decreases left,
    {
        let array = match arrays.pop() {
            Some(array) => array,
            None => {
                return true;
            },
        };
        let count: usize = buffer_count(&array);
        if left < NODE_COST || count as u64 > (left - NODE_COST) / BUFFER_COST {
            return false;
        }
        let mut below = child_data(&array);
        arrays.append(&mut below);
        left = left - NODE_COST - BUFFER_COST * count as u64;
    }
}

/// The lengths of time zones, and one for each type.
pub open spec fn zones_cost(kinds: Seq<DataType>) -> int
    decreases kinds.len(),
{
    if kinds.len() == 0 {
        0
    } else {
        zones_cost(kinds.drop_last()) + 1 + zone_len_of(kinds.last())
    }
}

proof fn zones_are_not_negative(kinds: Seq<DataType>)
    ensures
        zones_cost(kinds) >= 0,
    decreases kinds.len(),
{
    if kinds.len() > 0 {
        zones_are_not_negative(kinds.drop_last());
    }
}

proof fn flat_types_fit(kinds: Seq<DataType>, room: nat)
    requires
        forall|i: int|
            0 <= i < kinds.len() ==> fields_below_of(#[trigger] kinds[i]).len() == 0
                && value_type_of(kinds[i]) is None,
    ensures
        types_fit(kinds, room) <==> zones_cost(kinds) <= room,
    decreases kinds.len(),
{
    zones_are_not_negative(kinds);
    if kinds.len() > 0 {
        let n = kinds.len() - 1;
        assert(fields_below_of(kinds[n]).len() == 0 && value_type_of(kinds[n]) is None);
        let fewer = kinds.drop_last();
        assert(types_below(kinds.last()) == Seq::<DataType>::empty());
        assert(fewer + types_below(kinds.last()) == fewer);
        assert forall|i: int| 0 <= i < fewer.len() implies fields_below_of(
            #[trigger] fewer[i],
        ).len() == 0 && value_type_of(fewer[i]) is None by {
            assert(fewer[i] == kinds[i]);
        }
        zones_are_not_negative(fewer);
        let cost = type_cost(kinds.last());
        assert(cost == 1 + zone_len_of(kinds.last()));
        if cost <= room {
            flat_types_fit(fewer, (room - cost) as nat);
        }
    }
}

/// A schema of columns that hold no others can be written exactly where its texts, with 256 bytes for
/// each field, 64 for each key and its value and one for each type, come to at most 1 GiB.
pub proof fn law_which_flat_schemas_fit(schema: Schema)
    requires
        forall|i: int|
            0 <= i < schema_fields_of(schema).len() ==> {
                let kind = type_of(*#[trigger] schema_fields_of(schema)[i]);
                fields_below_of(kind).len() == 0 && value_type_of(kind) is None
            },
    ensures
        schema_fits(schema) <==> pairs_cost(schema_pairs_of(schema)) + fields_cost(
            schema_fields_of(schema),
        ) + zones_cost(types_of(schema_fields_of(schema))) <= 0x4000_0000,
{
    let fields = schema_fields_of(schema);
    let kinds = types_of(fields);
    assert forall|i: int| 0 <= i < kinds.len() implies fields_below_of(#[trigger] kinds[i]).len()
        == 0 && value_type_of(kinds[i]) is None by {
        assert(kinds[i] == type_of(*fields[i]));
    }
    zones_are_not_negative(kinds);
    pair_costs_are_not_negative();
    costs_are_not_negative(fields);
    let cost = pairs_cost(schema_pairs_of(schema)) + fields_cost(fields);
    if cost <= MOST_METADATA {
        flat_types_fit(kinds, (MOST_METADATA - cost) as nat);
    }
}

/// What texts take: those of a field with 256 bytes, those of a key and its value with 64.
pub proof fn law_what_texts_take(
    pairs: Seq<(usize, usize)>,
    pair: (usize, usize),
    fields: Seq<Arc<Field>>,
    field: Arc<Field>,
)
    ensures
        pairs_cost(seq![]) == 0,
        pairs_cost(pairs.push(pair)) == pairs_cost(pairs) + 64 + pair.0 + pair.1,
        fields_cost(seq![]) == 0,
        fields_cost(fields.push(field)) == fields_cost(fields) + 256 + name_len_of(*field)
            + pairs_cost(field_pairs_of(*field)),
{
    assert(pairs.push(pair).drop_last() == pairs);
    assert(fields.push(field).drop_last() == fields);
}

/// More room is never too little.
pub proof fn law_more_room_is_enough(kinds: Seq<DataType>, room: nat, more: nat)
    requires
        types_fit(kinds, room),
        room <= more,
    ensures
        types_fit(kinds, more),
    decreases room,
{
    if kinds.len() > 0 {
        let cost = type_cost(kinds.last());
        law_more_room_is_enough(
            kinds.drop_last() + types_below(kinds.last()),
            (room - cost) as nat,
            (more - cost) as nat,
        );
    }
}

/// The buffers of arrays, 16 bytes each, and 48 for each array.
pub open spec fn arrays_cost(arrays: Seq<ArrayData>) -> int
    decreases arrays.len(),
{
    if arrays.len() == 0 {
        0
    } else {
        arrays_cost(arrays.drop_last()) + 48 + 16 * buffer_count_of(arrays.last())
    }
}

proof fn flat_arrays_fit(arrays: Seq<ArrayData>, room: nat)
    requires
        forall|i: int| 0 <= i < arrays.len() ==> child_data_of(#[trigger] arrays[i]).len() == 0,
    ensures
        arrays_cost(arrays) >= 0,
        arrays_fit(arrays, room) <==> arrays_cost(arrays) <= room,
    decreases arrays.len(),
{
    if arrays.len() > 0 {
        let n = arrays.len() - 1;
        assert(child_data_of(arrays[n]).len() == 0);
        let fewer = arrays.drop_last();
        assert(fewer + child_data_of(arrays.last()) == fewer);
        assert forall|i: int| 0 <= i < fewer.len() implies child_data_of(
            #[trigger] fewer[i],
        ).len() == 0 by {
            assert(fewer[i] == arrays[i]);
        }
        let cost = NODE_COST + BUFFER_COST * buffer_count_of(arrays.last());
        if cost <= room {
            flat_arrays_fit(fewer, (room - cost) as nat);
        } else {
            flat_arrays_fit(fewer, 0);
        }
    }
}

/// A batch of columns that hold no others can be written exactly where its buffers, 16 bytes each,
/// with 48 bytes for each column, come to at most 1 GiB of metadata.
pub proof fn law_which_flat_batches_fit(batch: ArrowBatch)
    requires
        forall|i: int|
            0 <= i < columns_of(batch).len() ==> child_data_of(
                #[trigger] columns_of(batch)[i],
            ).len() == 0,
    ensures
        batch_fits(batch) <==> arrays_cost(columns_of(batch)) <= 0x4000_0000,
{
    flat_arrays_fit(columns_of(batch), MOST_METADATA as nat);
}

} // verus!
