//! Which schemas and batches can be written: what they weigh, with all that is below their columns.

use crate::arrow_ipc_codec::ArrowBatch;
use crate::arrow_metadata::{
    arrays_fit, batch_fits, buffer_count_of, child_data_of, columns_of, fields_below_of,
    fields_cost, fits_batch, fits_schema, pairs_cost, schema_fields_of, schema_fits,
    schema_pairs_of, type_of, types_below, types_fit, types_of, value_type_of, weigh_pairs,
    zone_len_of,
};
use arrow::array::ArrayData;
use arrow::datatypes::{DataType, Schema};
use vstd::prelude::*;

verus! {

/// The types of the fields that a type holds.
pub open spec fn held_types(kind: DataType) -> Seq<DataType> {
    Seq::new(fields_below_of(kind).len(), |i: int| type_of(*fields_below_of(kind)[i]))
}

/// Whether types are nested no deeper than `depth`.
pub open spec fn is_shallow(kind: DataType, depth: nat) -> bool
    decreases depth,
{
    &&& depth > 0
    &&& forall|i: int|
        0 <= i < held_types(kind).len() ==> is_shallow(
            #[trigger] held_types(kind)[i],
            (depth - 1) as nat,
        )
    &&& value_type_of(kind) matches Some(values) ==> is_shallow(values, (depth - 1) as nat)
}

/// What a type weighs: one byte, the length of its time zone, the fields that it holds and their types,
/// and the type of the values where a dictionary encodes it.
pub open spec fn type_weight(kind: DataType, depth: nat) -> int
    decreases depth, 0nat, 0nat,
{
    if depth == 0 {
        0
    } else {
        1 + zone_len_of(kind) + fields_cost(fields_below_of(kind)) + types_weight(
            held_types(kind),
            (depth - 1) as nat,
        ) + (match value_type_of(kind) {
            Some(values) => type_weight(values, (depth - 1) as nat),
            None => 0,
        })
    }
}

/// What types weigh together.
pub open spec fn types_weight(kinds: Seq<DataType>, depth: nat) -> int
    decreases depth, 1nat, kinds.len(),
{
    if kinds.len() == 0 {
        0
    } else {
        types_weight(kinds.drop_last(), depth) + type_weight(kinds.last(), depth)
    }
}

proof fn weights_add_up(first: Seq<DataType>, second: Seq<DataType>, depth: nat)
    ensures
        types_weight(first + second, depth) == types_weight(first, depth) + types_weight(
            second,
            depth,
        ),
    decreases second.len(),
{
    if second.len() == 0 {
        assert(first + second == first);
    } else {
        assert((first + second).drop_last() == first + second.drop_last());
        weights_add_up(first, second.drop_last(), depth);
    }
}

proof fn all_weights_are_kept(kinds: Seq<DataType>, depth: nat, more: nat)
    requires
        depth <= more,
        forall|i: int| 0 <= i < kinds.len() ==> is_shallow(#[trigger] kinds[i], depth),
    ensures
        types_weight(kinds, more) == types_weight(kinds, depth),
        types_weight(kinds, depth) >= 0,
        forall|i: int| 0 <= i < kinds.len() ==> is_shallow(#[trigger] kinds[i], more),
    decreases depth, 1nat, kinds.len(),
{
    if kinds.len() > 0 {
        let fewer = kinds.drop_last();
        let n = kinds.len() - 1;
        assert forall|i: int| 0 <= i < fewer.len() implies is_shallow(
            #[trigger] fewer[i],
            depth,
        ) by {
            assert(is_shallow(kinds[i], depth));
        }
        all_weights_are_kept(fewer, depth, more);
        assert(is_shallow(kinds[n], depth));
        weight_is_kept(kinds[n], depth, more);
        assert forall|i: int| 0 <= i < kinds.len() implies is_shallow(#[trigger] kinds[i], more) by {
            if i < n {
                assert(is_shallow(fewer[i], more));
            }
        }
    }
}

proof fn weight_is_kept(kind: DataType, depth: nat, more: nat)
    requires
        depth <= more,
        is_shallow(kind, depth),
    ensures
        type_weight(kind, more) == type_weight(kind, depth),
        type_weight(kind, depth) >= 1,
        is_shallow(kind, more),
    decreases depth, 0nat, 0nat,
{
    crate::arrow_metadata::costs_are_not_negative(fields_below_of(kind));
    all_weights_are_kept(held_types(kind), (depth - 1) as nat, (more - 1) as nat);
    if let Some(values) = value_type_of(kind) {
        weight_is_kept(values, (depth - 1) as nat, (more - 1) as nat);
    }
}

proof fn types_fit_by_weight(kinds: Seq<DataType>, depth: nat, room: nat)
    requires
        forall|i: int| 0 <= i < kinds.len() ==> is_shallow(#[trigger] kinds[i], depth),
    ensures
        types_fit(kinds, room) <==> types_weight(kinds, depth) <= room,
    decreases room,
{
    all_weights_are_kept(kinds, depth, depth);
    if kinds.len() > 0 {
        let n = kinds.len() - 1;
        let kind = kinds[n];
        let fewer = kinds.drop_last();
        let less = (depth - 1) as nat;
        assert(is_shallow(kind, depth));
        assert forall|i: int| 0 <= i < fewer.len() implies is_shallow(
            #[trigger] fewer[i],
            depth,
        ) by {
            assert(is_shallow(kinds[i], depth));
        }
        all_weights_are_kept(fewer, depth, depth);
        let below = types_below(kind);
        assert(types_of(fields_below_of(kind)) == held_types(kind));
        match value_type_of(kind) {
            Some(values) => {
                assert(below.drop_last() == held_types(kind));
                assert(below.last() == values);
            },
            None => {},
        }
        assert(types_weight(below, less) == types_weight(held_types(kind), less) + (
        match value_type_of(kind) {
            Some(values) => type_weight(values, less),
            None => 0,
        }));
        assert forall|i: int| 0 <= i < below.len() implies is_shallow(#[trigger] below[i], less) by {
            if i < held_types(kind).len() {
                assert(below[i] == held_types(kind)[i]);
            }
        }
        all_weights_are_kept(below, less, depth);
        let rest = fewer + below;
        weights_add_up(fewer, below, depth);
        assert forall|i: int| 0 <= i < rest.len() implies is_shallow(#[trigger] rest[i], depth) by {
            if i < fewer.len() {
                assert(rest[i] == fewer[i]);
            } else {
                assert(rest[i] == below[i - fewer.len()]);
            }
        }
        crate::arrow_metadata::costs_are_not_negative(fields_below_of(kind));
        let cost = 1 + zone_len_of(kind) + fields_cost(fields_below_of(kind));
        assert(kinds.last() == kind);
        assert(type_weight(kind, depth) == cost + types_weight(below, less));
        assert(types_weight(kinds, depth) == types_weight(rest, depth) + cost);
        if cost <= room {
            types_fit_by_weight(rest, depth, (room - cost) as nat);
        }
    }
}

/// A schema can be written exactly where what it weighs, with everything below its columns however deep
/// they are nested, comes to at most 1 GiB.
pub proof fn law_which_schemas_fit(schema: Schema, depth: nat, fit: bool)
    requires
        call_ensures(fits_schema, (&schema,), fit),
        forall|i: int|
            0 <= i < schema_fields_of(schema).len() ==> is_shallow(
                type_of(*#[trigger] schema_fields_of(schema)[i]),
                depth,
            ),
    ensures
        fit <==> pairs_cost(schema_pairs_of(schema)) + fields_cost(schema_fields_of(schema))
            + types_weight(
            Seq::new(
                schema_fields_of(schema).len(),
                |i: int| type_of(*schema_fields_of(schema)[i]),
            ),
            depth,
        ) <= 0x4000_0000,
{
    let fields = schema_fields_of(schema);
    let kinds = Seq::new(fields.len(), |i: int| type_of(*fields[i]));
    assert(types_of(fields) == kinds);
    assert forall|i: int| 0 <= i < kinds.len() implies is_shallow(#[trigger] kinds[i], depth) by {
        assert(is_shallow(type_of(*fields[i]), depth));
    }
    all_weights_are_kept(kinds, depth, depth);
    let cost = pairs_cost(schema_pairs_of(schema)) + fields_cost(fields);
    if cost <= 0x4000_0000 {
        types_fit_by_weight(kinds, depth, (0x4000_0000 - cost) as nat);
    }
}

/// Whether arrays are nested no deeper than `depth`.
pub open spec fn is_flat_below(data: ArrayData, depth: nat) -> bool
    decreases depth,
{
    &&& depth > 0
    &&& forall|i: int|
        0 <= i < child_data_of(data).len() ==> is_flat_below(
            #[trigger] child_data_of(data)[i],
            (depth - 1) as nat,
        )
}

/// What an array weighs: 48 bytes, 16 for each of its buffers, and all that is below it.
pub open spec fn array_weight(data: ArrayData, depth: nat) -> int
    decreases depth, 0nat, 0nat,
{
    if depth == 0 {
        0
    } else {
        48 + 16 * buffer_count_of(data) + arrays_weight(child_data_of(data), (depth - 1) as nat)
    }
}

/// What arrays weigh together.
pub open spec fn arrays_weight(arrays: Seq<ArrayData>, depth: nat) -> int
    decreases depth, 1nat, arrays.len(),
{
    if arrays.len() == 0 {
        0
    } else {
        arrays_weight(arrays.drop_last(), depth) + array_weight(arrays.last(), depth)
    }
}

proof fn array_weights_add_up(first: Seq<ArrayData>, second: Seq<ArrayData>, depth: nat)
    ensures
        arrays_weight(first + second, depth) == arrays_weight(first, depth) + arrays_weight(
            second,
            depth,
        ),
    decreases second.len(),
{
    if second.len() == 0 {
        assert(first + second == first);
    } else {
        assert((first + second).drop_last() == first + second.drop_last());
        array_weights_add_up(first, second.drop_last(), depth);
    }
}

proof fn all_array_weights_are_kept(arrays: Seq<ArrayData>, depth: nat, more: nat)
    requires
        depth <= more,
        forall|i: int| 0 <= i < arrays.len() ==> is_flat_below(#[trigger] arrays[i], depth),
    ensures
        arrays_weight(arrays, more) == arrays_weight(arrays, depth),
        arrays_weight(arrays, depth) >= 0,
        forall|i: int| 0 <= i < arrays.len() ==> is_flat_below(#[trigger] arrays[i], more),
    decreases depth, 1nat, arrays.len(),
{
    if arrays.len() > 0 {
        let fewer = arrays.drop_last();
        let n = arrays.len() - 1;
        assert forall|i: int| 0 <= i < fewer.len() implies is_flat_below(
            #[trigger] fewer[i],
            depth,
        ) by {
            assert(is_flat_below(arrays[i], depth));
        }
        all_array_weights_are_kept(fewer, depth, more);
        assert(is_flat_below(arrays[n], depth));
        array_weight_is_kept(arrays[n], depth, more);
        assert forall|i: int| 0 <= i < arrays.len() implies is_flat_below(
            #[trigger] arrays[i],
            more,
        ) by {
            if i < n {
                assert(is_flat_below(fewer[i], more));
            }
        }
    }
}

proof fn array_weight_is_kept(data: ArrayData, depth: nat, more: nat)
    requires
        depth <= more,
        is_flat_below(data, depth),
    ensures
        array_weight(data, more) == array_weight(data, depth),
        array_weight(data, depth) >= 48,
        is_flat_below(data, more),
    decreases depth, 0nat, 0nat,
{
    all_array_weights_are_kept(child_data_of(data), (depth - 1) as nat, (more - 1) as nat);
}

proof fn arrays_fit_by_weight(arrays: Seq<ArrayData>, depth: nat, room: nat)
    requires
        forall|i: int| 0 <= i < arrays.len() ==> is_flat_below(#[trigger] arrays[i], depth),
    ensures
        arrays_fit(arrays, room) <==> arrays_weight(arrays, depth) <= room,
    decreases room,
{
    all_array_weights_are_kept(arrays, depth, depth);
    if arrays.len() > 0 {
        let n = arrays.len() - 1;
        let data = arrays[n];
        let fewer = arrays.drop_last();
        let less = (depth - 1) as nat;
        assert(is_flat_below(data, depth));
        assert forall|i: int| 0 <= i < fewer.len() implies is_flat_below(
            #[trigger] fewer[i],
            depth,
        ) by {
            assert(is_flat_below(arrays[i], depth));
        }
        all_array_weights_are_kept(fewer, depth, depth);
        let below = child_data_of(data);
        all_array_weights_are_kept(below, less, depth);
        let rest = fewer + below;
        array_weights_add_up(fewer, below, depth);
        assert forall|i: int| 0 <= i < rest.len() implies is_flat_below(
            #[trigger] rest[i],
            depth,
        ) by {
            if i < fewer.len() {
                assert(rest[i] == fewer[i]);
            } else {
                assert(rest[i] == below[i - fewer.len()]);
            }
        }
        let cost = 48 + 16 * buffer_count_of(data);
        assert(arrays.last() == data);
        assert(array_weight(data, depth) == cost + arrays_weight(below, less));
        assert(arrays_weight(arrays, depth) == arrays_weight(rest, depth) + cost);
        if cost <= room {
            arrays_fit_by_weight(rest, depth, (room - cost) as nat);
        }
    }
}

/// A batch can be written exactly where its columns, with everything below them however deep they are
/// nested, come to at most 1 GiB of metadata.
pub proof fn law_which_batches_fit(batch: ArrowBatch, depth: nat, fit: bool)
    requires
        call_ensures(fits_batch, (&batch,), fit),
        forall|i: int|
            0 <= i < columns_of(batch).len() ==> is_flat_below(
                #[trigger] columns_of(batch)[i],
                depth,
            ),
    ensures
        fit <==> arrays_weight(columns_of(batch), depth) <= 0x4000_0000,
{
    arrays_fit_by_weight(columns_of(batch), depth, 0x4000_0000);
}

/// The test of a schema or a batch says what it is named after.
pub proof fn law_what_is_tested(schema: Schema, batch: ArrowBatch, fit: bool)
    ensures
        call_ensures(fits_schema, (&schema,), fit) ==> fit == schema_fits(schema),
        call_ensures(fits_batch, (&batch,), fit) ==> fit == batch_fits(batch),
{
}

/// What a key and its value weigh is added up, as far as a number can tell.
pub proof fn law_what_pairs_weigh(pairs: Vec<(usize, usize)>, cost: u64)
    requires
        call_ensures(weigh_pairs, (&pairs,), cost),
    ensures
        pairs_cost(pairs@) <= u64::MAX ==> cost == pairs_cost(pairs@),
        pairs_cost(pairs@) > u64::MAX ==> cost == u64::MAX,
{
}

} // verus!
