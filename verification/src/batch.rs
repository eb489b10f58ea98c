//! The tiers of batch validation.
//!
//! Each tier is a code path of its own that appends one verdict per item,
//! and each is proved to give the verdict of the one definition of
//! conformance. All of them walk the batch in windows of a fixed size, which
//! bounds the working set and changes no verdict.

use vstd::prelude::*;
use crate::analysis::{
    bitmap_model, is_strict_primitive, presence_table, strict_model, strict_table, BITMAP_WIDTH,
};
use crate::conform::{conforms, conforms_schema, field_ok, lemma_conforms_schema};
use crate::engine::{
    lemma_array_conforms, tag_matches, validate_array_optimized, validate_boolean_array_simd,
    validate_field, validate_number_array_simd, validate_object_bool, validate_primitive_type,
    validate_string_array_simd, validate_value_bool, validate_value_internal, window_end,
};
use crate::registry::Registry;
use crate::schema::{
    fields_model, keys_distinct, lemma_key_index_of_field, FieldModel, FieldType, FieldValidator,
    Schema, TypeModel,
};
use crate::value::{get_property, lookup, props_model, Value, ValueModel};

verus! {

/// The window of the tier that walks the table of fast fields.
pub const CHUNK_SIZE: usize = 32768;

/// The window of the strict-primitive tier.
pub const SIMD_BATCH_SIZE: usize = 8;

/// The window of the presence-bitmap tier.
pub const BITMAP_BATCH_SIZE: usize = 32;

/// The verdict on each item of a batch: whether it conforms to the schema.
pub open spec fn verdicts(
    reg: Map<Seq<char>, Seq<FieldModel>>,
    s: Seq<FieldModel>,
    items: Seq<Value>,
) -> Seq<bool> {
    Seq::new(items.len(), |i: int| conforms_schema(reg, items[i]@, s))
}

/// Whether the properties satisfy one entry of the table of strict fields:
/// the property is present and has the type that the tag stands for.
pub open spec fn strict_entry_ok(props: Seq<(Seq<char>, ValueModel)>, entry: (Seq<char>, u8)) -> bool {
    let x = lookup(props, entry.0);
    !(x is Undefined) && tag_matches(x, entry.1)
}

/// Whether the value is an object that satisfies every entry of the table
/// of strict fields.
pub open spec fn strict_conforms(v: ValueModel, table: Seq<(Seq<char>, u8)>) -> bool {
    match v {
        ValueModel::Object(props) => forall|i: int|
            0 <= i < table.len() ==> strict_entry_ok(props, #[trigger] table[i]),
        _ => false,
    }
}

/// The verdict of the table of strict fields on each item of a batch.
pub open spec fn strict_verdicts(table: Seq<(Seq<char>, u8)>, items: Seq<Value>) -> Seq<bool> {
    Seq::new(items.len(), |i: int| strict_conforms(items[i]@, table))
}

/// For a strict primitive schema, the table of strict fields accepts
/// exactly the values that conform to the schema.
pub proof fn lemma_strict_tier(
    reg: Map<Seq<char>, Seq<FieldModel>>,
    s: Seq<FieldModel>,
    v: ValueModel,
)
    requires
        is_strict_primitive(s),
    ensures
        strict_conforms(v, strict_table(s)) <==> conforms_schema(reg, v, s),
{
    let table = strict_table(s);
    match v {
        ValueModel::Object(props) => {
            lemma_conforms_schema(reg, props, s);
            assert forall|i: int| 0 <= i < s.len() implies (strict_entry_ok(props, table[i])
                <==> field_ok(reg, props, #[trigger] s[i])) by {}
        },
        _ => {},
    }
}

/// Checks one entry of the table of strict fields against the properties of
/// an object.
fn strict_entry(props: &Vec<(String, Value)>, key: &String, tag: u8) -> (r: bool)
    ensures
        r == strict_entry_ok(props_model(props@), (key@, tag)),
{
    match get_property(props, key) {
        Some(x) => !x.is_undefined() && validate_primitive_type(x, tag),
        None => false,
    }
}

/// The strict-primitive tier for a schema of one field.
pub(crate) fn validate_batch_1_field(
    strict_fields: &Vec<(String, u8)>,
    items: &Vec<Value>,
    start: usize,
    end: usize,
    results: &mut Vec<bool>,
)
    requires
        strict_fields.len() == 1,
        start <= end <= items.len(),
    ensures
        final(results)@ == old(results)@ + strict_verdicts(
            strict_model(strict_fields@),
            items@.subrange(start as int, end as int),
        ),
{
    let ghost before = results@;
    let ghost table = strict_model(strict_fields@);
    let field_key = &strict_fields[0].0;
    let field_tag = strict_fields[0].1;
    let mut i: usize = start;
    while i < end
        invariant
            start <= i <= end <= items.len(),
            table == strict_model(strict_fields@),
            table.len() == 1,
            table[0] == (field_key@, field_tag),
            results@ == before + strict_verdicts(table, items@.subrange(start as int, i as int)),
        decreases end - i,
    {
        let valid = match &items[i] {
            Value::Object(props) => {
                match get_property(props, field_key) {
                    Some(value) => !value.is_undefined() && match field_tag {
                        0 => value.is_string(),
                        1 => value.is_number(),
                        2 => value.is_boolean(),
                        _ => false,
                    },
                    None => false,
                }
            },
            _ => false,
        };
        results.push(valid);
        i += 1;
    }
}

/// The strict-primitive tier for a schema of two fields.
pub(crate) fn validate_batch_2_fields(
    strict_fields: &Vec<(String, u8)>,
    items: &Vec<Value>,
    start: usize,
    end: usize,
    results: &mut Vec<bool>,
)
    requires
        strict_fields.len() == 2,
        start <= end <= items.len(),
    ensures
        final(results)@ == old(results)@ + strict_verdicts(
            strict_model(strict_fields@),
            items@.subrange(start as int, end as int),
        ),
{
    let ghost before = results@;
    let ghost table = strict_model(strict_fields@);
    let key1 = &strict_fields[0].0;
    let tag1 = strict_fields[0].1;
    let key2 = &strict_fields[1].0;
    let tag2 = strict_fields[1].1;
    let mut i: usize = start;
    while i < end
        invariant
            start <= i <= end <= items.len(),
            table == strict_model(strict_fields@),
            table.len() == 2,
            table[0] == (key1@, tag1),
            table[1] == (key2@, tag2),
            results@ == before + strict_verdicts(table, items@.subrange(start as int, i as int)),
        decreases end - i,
    {
        let valid = match &items[i] {
            Value::Object(props) => {
                let val1 = get_property(props, key1);
                let val2 = get_property(props, key2);
                match (val1, val2) {
                    (Some(v1), Some(v2)) => !v1.is_undefined() && !v2.is_undefined()
                        && validate_primitive_type(v1, tag1) && validate_primitive_type(v2, tag2),
                    _ => false,
                }
            },
            _ => false,
        };
        results.push(valid);
        i += 1;
    }
}

/// The strict-primitive tier for a schema of three fields.
pub(crate) fn validate_batch_3_fields(
    strict_fields: &Vec<(String, u8)>,
    items: &Vec<Value>,
    start: usize,
    end: usize,
    results: &mut Vec<bool>,
)
    requires
        strict_fields.len() == 3,
        start <= end <= items.len(),
    ensures
        final(results)@ == old(results)@ + strict_verdicts(
            strict_model(strict_fields@),
            items@.subrange(start as int, end as int),
        ),
{
    let ghost before = results@;
    let ghost table = strict_model(strict_fields@);
    let key1 = &strict_fields[0].0;
    let tag1 = strict_fields[0].1;
    let key2 = &strict_fields[1].0;
    let tag2 = strict_fields[1].1;
    let key3 = &strict_fields[2].0;
    let tag3 = strict_fields[2].1;
    let mut i: usize = start;
    while i < end
        invariant
            start <= i <= end <= items.len(),
            table == strict_model(strict_fields@),
            table.len() == 3,
            table[0] == (key1@, tag1),
            table[1] == (key2@, tag2),
            table[2] == (key3@, tag3),
            results@ == before + strict_verdicts(table, items@.subrange(start as int, i as int)),
        decreases end - i,
    {
        let valid = match &items[i] {
            Value::Object(props) => {
                let val1 = get_property(props, key1);
                let val2 = get_property(props, key2);
                let val3 = get_property(props, key3);
                match (val1, val2, val3) {
                    (Some(v1), Some(v2), Some(v3)) => !v1.is_undefined() && !v2.is_undefined()
                        && !v3.is_undefined() && validate_primitive_type(v1, tag1)
                        && validate_primitive_type(v2, tag2) && validate_primitive_type(v3, tag3),
                    _ => false,
                }
            },
            _ => false,
        };
        results.push(valid);
        i += 1;
    }
}

/// The strict-primitive tier for a schema of four fields.
pub(crate) fn validate_batch_4_fields(
    strict_fields: &Vec<(String, u8)>,
    items: &Vec<Value>,
    start: usize,
    end: usize,
    results: &mut Vec<bool>,
)
    requires
        strict_fields.len() == 4,
        start <= end <= items.len(),
    ensures
        final(results)@ == old(results)@ + strict_verdicts(
            strict_model(strict_fields@),
            items@.subrange(start as int, end as int),
        ),
{
    let ghost before = results@;
    let ghost table = strict_model(strict_fields@);
    let key1 = &strict_fields[0].0;
    let tag1 = strict_fields[0].1;
    let key2 = &strict_fields[1].0;
    let tag2 = strict_fields[1].1;
    let key3 = &strict_fields[2].0;
    let tag3 = strict_fields[2].1;
    let key4 = &strict_fields[3].0;
    let tag4 = strict_fields[3].1;
    let mut i: usize = start;
    while i < end
        invariant
            start <= i <= end <= items.len(),
            table == strict_model(strict_fields@),
            table.len() == 4,
            table[0] == (key1@, tag1),
            table[1] == (key2@, tag2),
            table[2] == (key3@, tag3),
            table[3] == (key4@, tag4),
            results@ == before + strict_verdicts(table, items@.subrange(start as int, i as int)),
        decreases end - i,
    {
        let valid = match &items[i] {
            Value::Object(props) => {
                let val1 = get_property(props, key1);
                let val2 = get_property(props, key2);
                let val3 = get_property(props, key3);
                let val4 = get_property(props, key4);
                match (val1, val2, val3, val4) {
                    (Some(v1), Some(v2), Some(v3), Some(v4)) => !v1.is_undefined()
                        && !v2.is_undefined() && !v3.is_undefined() && !v4.is_undefined()
                        && validate_primitive_type(v1, tag1) && validate_primitive_type(v2, tag2)
                        && validate_primitive_type(v3, tag3) && validate_primitive_type(v4, tag4),
                    _ => false,
                }
            },
            _ => false,
        };
        results.push(valid);
        i += 1;
    }
}

/// The strict-primitive tier for a schema of any number of fields.
pub(crate) fn validate_batch_n_fields(
    strict_fields: &Vec<(String, u8)>,
    items: &Vec<Value>,
    start: usize,
    end: usize,
    results: &mut Vec<bool>,
)
    requires
        start <= end <= items.len(),
    ensures
        final(results)@ == old(results)@ + strict_verdicts(
            strict_model(strict_fields@),
            items@.subrange(start as int, end as int),
        ),
{
    let ghost before = results@;
    let ghost table = strict_model(strict_fields@);
    let mut i: usize = start;
    while i < end
        invariant
            start <= i <= end <= items.len(),
            table == strict_model(strict_fields@),
            results@ == before + strict_verdicts(table, items@.subrange(start as int, i as int)),
        decreases end - i,
    {
        let valid = match &items[i] {
            Value::Object(props) => {
                let mut all = true;
                let mut k: usize = 0;
                while all && k < strict_fields.len()
                    invariant
                        k <= strict_fields.len(),
                        table == strict_model(strict_fields@),
                        all ==> forall|j: int|
                            0 <= j < k ==> strict_entry_ok(
                                props_model(props@),
                                #[trigger] table[j],
                            ),
                        !all ==> exists|j: int|
                            0 <= j < table.len() && !strict_entry_ok(
                                props_model(props@),
                                #[trigger] table[j],
                            ),
                    decreases strict_fields.len() - k + if all { 1int } else { 0int },
                {
                    assert(table[k as int] == (strict_fields[k as int].0@, strict_fields[k as int].1));
                    if !strict_entry(props, &strict_fields[k].0, strict_fields[k].1) {
                        all = false;
                    } else {
                        k += 1;
                    }
                }
                all
            },
            _ => false,
        };
        results.push(valid);
        i += 1;
    }
}

/// The strict-primitive tier: the batch is walked in windows, and each
/// window goes to the variant written for the schema's number of fields.
pub fn validate_batch_simd_primitives(
    strict_fields: &Vec<(String, u8)>,
    items: &Vec<Value>,
    results: &mut Vec<bool>,
)
    ensures
        final(results)@ == old(results)@ + strict_verdicts(strict_model(strict_fields@), items@),
{
    let ghost before = results@;
    let ghost table = strict_model(strict_fields@);
    let field_count = strict_fields.len();
    let len = items.len();
    let mut batch_start: usize = 0;
    while batch_start < len
        invariant
            len == items.len(),
            batch_start <= len,
            field_count == strict_fields.len(),
            table == strict_model(strict_fields@),
            results@ == before + strict_verdicts(table, items@.subrange(0, batch_start as int)),
        decreases len - batch_start,
    {
        let batch_end = window_end(batch_start, len, SIMD_BATCH_SIZE);
        match field_count {
            1 => validate_batch_1_field(strict_fields, items, batch_start, batch_end, results),
            2 => validate_batch_2_fields(strict_fields, items, batch_start, batch_end, results),
            3 => validate_batch_3_fields(strict_fields, items, batch_start, batch_end, results),
            4 => validate_batch_4_fields(strict_fields, items, batch_start, batch_end, results),
            _ => validate_batch_n_fields(strict_fields, items, batch_start, batch_end, results),
        }
        batch_start = batch_end;
    }
}

/// The vectorized-simple tier: each item is checked field by field against
/// the flattened table of fast fields.
pub fn validate_batch_vectorized(
    reg: &Registry,
    fast_fields: &Vec<FieldValidator>,
    items: &Vec<Value>,
    results: &mut Vec<bool>,
)
    ensures
        final(results)@ == old(results)@ + verdicts(reg@, fields_model(fast_fields@), items@),
{
    let ghost before = results@;
    let ghost table = fields_model(fast_fields@);
    let len = items.len();
    let mut chunk_start: usize = 0;
    while chunk_start < len
        invariant
            len == items.len(),
            chunk_start <= len,
            table == fields_model(fast_fields@),
            results@ == before + verdicts(reg@, table, items@.subrange(0, chunk_start as int)),
        decreases len - chunk_start,
    {
        let chunk_end = window_end(chunk_start, len, CHUNK_SIZE);
        let mut i: usize = chunk_start;
        while i < chunk_end
            invariant
                len == items.len(),
                chunk_start <= i <= chunk_end <= len,
                table == fields_model(fast_fields@),
                results@ == before + verdicts(reg@, table, items@.subrange(0, i as int)),
            decreases chunk_end - i,
        {
            let valid = match &items[i] {
                Value::Object(props) => {
                    proof {
                        lemma_conforms_schema(reg@, props_model(props@), table);
                    }
                    let mut all = true;
                    let mut k: usize = 0;
                    while all && k < fast_fields.len()
                        invariant
                            k <= fast_fields.len(),
                            table == fields_model(fast_fields@),
                            all ==> forall|j: int|
                                0 <= j < k ==> field_ok(
                                    reg@,
                                    props_model(props@),
                                    #[trigger] table[j],
                                ),
                            !all ==> exists|j: int|
                                0 <= j < table.len() && !field_ok(
                                    reg@,
                                    props_model(props@),
                                    #[trigger] table[j],
                                ),
                        decreases fast_fields.len() - k + if all { 1int } else { 0int },
                    {
                        assert(table[k as int] == fast_fields[k as int]@);
                        if !validate_field(reg, props, &fast_fields[k]) {
                            all = false;
                        } else {
                            k += 1;
                        }
                    }
                    all
                },
                _ => false,
            };
            results.push(valid);
            i += 1;
        }
        chunk_start = chunk_end;
    }
}

/// Checks every field but those of the key `skip_field`.
pub fn validate_remaining_fields(
    reg: &Registry,
    schema: &Schema,
    props: &Vec<(String, Value)>,
    skip_field: &String,
) -> (r: bool)
    ensures
        r == forall|i: int|
            0 <= i < schema@.len() && (#[trigger] schema@[i]).key != skip_field@ ==> field_ok(
                reg@,
                props_model(props@),
                schema@[i],
            ),
{
    let mut i: usize = 0;
    while i < schema.fields.len()
        invariant
            i <= schema.fields.len(),
            forall|j: int|
                0 <= j < i && (#[trigger] schema@[j]).key != skip_field@ ==> field_ok(
                    reg@,
                    props_model(props@),
                    schema@[j],
                ),
        decreases schema.fields.len() - i,
    {
        let field = &schema.fields[i];
        assert(schema@[i as int] == field@);
        if field.key != *skip_field {
            if !validate_field(reg, props, field) {
                return false;
            }
        }
        i += 1;
    }
    true
}

/// The check of the union tier on one item: the first union field of the
/// schema, the one most likely to tell items apart, is checked before the
/// remaining fields.
pub(crate) fn validate_union_ultra_fast(
    reg: &Registry,
    schema: &Schema,
    union_field: usize,
    value: &Value,
) -> (r: bool)
    requires
        union_field < schema@.len(),
        keys_distinct(schema@),
    ensures
        r == conforms_schema(reg@, value@, schema@),
{
    match value {
        Value::Object(props) => {
            let first = &schema.fields[union_field];
            proof {
                lemma_conforms_schema(reg@, props_model(props@), schema@);
                assert forall|i: int| 0 <= i < schema@.len() && (#[trigger] schema@[i]).key
                    == first@.key implies i == union_field by {
                    lemma_key_index_of_field(schema@, i);
                    lemma_key_index_of_field(schema@, union_field as int);
                }
            }
            if !validate_field(reg, props, first) {
                return false;
            }
            validate_remaining_fields(reg, schema, props, &first.key)
        },
        _ => false,
    }
}

/// The union tier: every verdict is computed first, then all of them are
/// handed over in one sweep.
pub(crate) fn validate_batch_unions_mega_optimized(
    reg: &Registry,
    schema: &Schema,
    union_field: usize,
    items: &Vec<Value>,
    results: &mut Vec<bool>,
)
    requires
        union_field < schema@.len(),
        keys_distinct(schema@),
    ensures
        final(results)@ == old(results)@ + verdicts(reg@, schema@, items@),
{
    let ghost before = results@;
    let len = items.len();
    let mut valid_flags: Vec<bool> = Vec::with_capacity(len);
    let mut i: usize = 0;
    while i < len
        invariant
            len == items.len(),
            i <= len,
            union_field < schema@.len(),
            keys_distinct(schema@),
            valid_flags@ == verdicts(reg@, schema@, items@.subrange(0, i as int)),
        decreases len - i,
    {
        valid_flags.push(validate_union_ultra_fast(reg, schema, union_field, &items[i]));
        i += 1;
    }
    let mut k: usize = 0;
    while k < valid_flags.len()
        invariant
            k <= valid_flags.len(),
            results@ == before + valid_flags@.subrange(0, k as int),
        decreases valid_flags.len() - k,
    {
        results.push(valid_flags[k]);
        k += 1;
    }
}

/// Checks an array whose element type is known: the primitive element
/// types by a scan of their own, the others through the general array
/// check.
pub fn validate_array_monomorphic(reg: &Registry, value: &Value, item_type: &FieldType) -> (r:
    bool)
    ensures
        r == conforms(reg@, value@, TypeModel::Array(Box::new(item_type@))),
{
    match value {
        Value::Array(items) => {
            proof {
                lemma_array_conforms(reg@, *items, item_type@);
            }
            match item_type {
                FieldType::String => validate_string_array_simd(items),
                FieldType::Number => validate_number_array_simd(items),
                FieldType::Boolean => validate_boolean_array_simd(items),
                _ => validate_array_optimized(reg, items, item_type),
            }
        },
        _ => false,
    }
}

/// Checks a nested object whose schema is known.
pub fn validate_object_monomorphic(reg: &Registry, value: &Value, schema: &Schema) -> (r: bool)
    ensures
        r == conforms_schema(reg@, value@, schema@),
{
    validate_object_bool(reg, value, schema)
}

/// The check of the mixed tier on one item: array fields and object fields
/// go to the checks written for them, every other field to the general
/// validator.
#[verifier::loop_isolation(false)]
pub fn validate_mixed_ultra_fast(reg: &Registry, schema: &Schema, value: &Value) -> (r: bool)
    ensures
        r == conforms_schema(reg@, value@, schema@),
{
    match value {
        Value::Object(props) => {
            proof {
                lemma_conforms_schema(reg@, props_model(props@), schema@);
            }
            let mut i: usize = 0;
            while i < schema.fields.len()
                invariant
                    i <= schema.fields.len(),
                    forall|j: int|
                        0 <= j < i ==> field_ok(reg@, props_model(props@), #[trigger] schema@[j]),
                decreases schema.fields.len() - i,
            {
                let field = &schema.fields[i];
                let ok = match get_property(props, &field.key) {
                    Some(x) => {
                        if x.is_undefined() {
                            !field.required
                        } else {
                            match &field.field_type {
                                FieldType::Array(item_type) => validate_array_monomorphic(
                                    reg,
                                    x,
                                    item_type,
                                ),
                                FieldType::Object(nested) => validate_object_monomorphic(
                                    reg,
                                    x,
                                    nested,
                                ),
                                other => validate_value_bool(reg, x, other),
                            }
                        }
                    },
                    None => !field.required,
                };
                assert(ok == field_ok(reg@, props_model(props@), schema@[i as int]));
                if !ok {
                    return false;
                }
                i += 1;
            }
            true
        },
        _ => false,
    }
}

/// The mixed tier: every verdict is computed first, then all of them are
/// handed over in one sweep.
pub fn validate_batch_mixed_mega_optimized(
    reg: &Registry,
    schema: &Schema,
    items: &Vec<Value>,
    results: &mut Vec<bool>,
)
    ensures
        final(results)@ == old(results)@ + verdicts(reg@, schema@, items@),
{
    let ghost before = results@;
    let len = items.len();
    let mut valid_flags: Vec<bool> = Vec::with_capacity(len);
    let mut i: usize = 0;
    while i < len
        invariant
            len == items.len(),
            i <= len,
            valid_flags@ == verdicts(reg@, schema@, items@.subrange(0, i as int)),
        decreases len - i,
    {
        valid_flags.push(validate_mixed_ultra_fast(reg, schema, &items[i]));
        i += 1;
    }
    let mut k: usize = 0;
    while k < valid_flags.len()
        invariant
            k <= valid_flags.len(),
            results@ == before + valid_flags@.subrange(0, k as int),
        decreases valid_flags.len() - k,
    {
        results.push(valid_flags[k]);
        k += 1;
    }
}

/// Adding the bit of a field that no mask holds yet: the required fields
/// are all present afterwards exactly when they were before and the new
/// field is present if it is required.
pub proof fn lemma_fresh_bit(present: u32, required: u32, i: u32)
    by (bit_vector)
    requires
        i < 32,
        present >> i == 0,
        required >> i == 0,
    ensures
        ((present | (1u32 << i)) & (required | (1u32 << i)) == (required | (1u32 << i))) == (
        present & required == required),
        ((present | (1u32 << i)) & required == required) == (present & required == required),
        (present & (required | (1u32 << i)) == (required | (1u32 << i))) == false,
        i < 31 ==> (present | (1u32 << i)) >> ((i + 1) as u32) == 0,
        i < 31 ==> (required | (1u32 << i)) >> ((i + 1) as u32) == 0,
        i < 31 ==> present >> ((i + 1) as u32) == 0,
        i < 31 ==> required >> ((i + 1) as u32) == 0,
{
}

/// Whether the field is present among the properties: reading it yields
/// something other than `undefined`.
pub open spec fn is_present(props: Seq<(Seq<char>, ValueModel)>, f: FieldModel) -> bool {
    !(lookup(props, f.key) is Undefined)
}

/// The check of the presence-bitmap tier on one item, for a schema of at
/// most 32 fields: one pass over the fields gathers a mask of the required
/// fields and a mask of the present ones, and checks the type of each
/// present field; the item is valid when no type check failed and every
/// required bit is also a present bit.
#[verifier::loop_isolation(false)]
pub(crate) fn validate_asymmetric_fast(
    reg: &Registry,
    schema: &Schema,
    presence_bitmap: &Vec<(String, u32)>,
    value: &Value,
) -> (r: bool)
    requires
        schema@.len() <= BITMAP_WIDTH,
        bitmap_model(presence_bitmap@) == presence_table(schema@),
    ensures
        r == conforms_schema(reg@, value@, schema@),
{
    match value {
        Value::Object(props) => {
            let ghost pm = props_model(props@);
            let ghost s = schema@;
            proof {
                lemma_conforms_schema(reg@, pm, s);
            }
            let n = schema.fields.len();
            assert(presence_bitmap.len() == n) by {
                assert(bitmap_model(presence_bitmap@).len() == presence_table(s).len());
            }
            let mut present_mask: u32 = 0;
            let mut required_mask: u32 = 0;
            assert(0u32 >> 0u32 == 0 && 0u32 & 0u32 == 0u32) by (bit_vector);
            let mut i: usize = 0;
            while i < n
                invariant
                    n == schema.fields.len(),
                    n <= BITMAP_WIDTH,
                    presence_bitmap.len() == n,
                    i <= n,
                    s == schema@,
                    pm == props_model(props@),
                    bitmap_model(presence_bitmap@) == presence_table(s),
                    i < 32 ==> present_mask >> (i as u32) == 0 && required_mask >> (i as u32) == 0,
                    (present_mask & required_mask == required_mask) <==> forall|j: int|
                        0 <= j < i && (#[trigger] s[j]).required ==> is_present(pm, s[j]),
                    forall|j: int|
                        0 <= j < i && is_present(pm, #[trigger] s[j]) ==> conforms(
                            reg@,
                            lookup(pm, s[j].key),
                            s[j].field_type,
                        ),
                decreases n - i,
            {
                let field = &schema.fields[i];
                let bit = presence_bitmap[i].1;
                assert(bit == 1u32 << (i as u32)) by {
                    assert(bitmap_model(presence_bitmap@)[i as int] == presence_table(s)[i as int]);
                }
                let ghost before_present = present_mask;
                let ghost before_required = required_mask;
                proof {
                    lemma_fresh_bit(before_present, before_required, i as u32);
                }
                if field.required {
                    required_mask = required_mask | bit;
                }
                match get_property(props, &field.key) {
                    Some(field_value) => {
                        if !field_value.is_undefined() {
                            present_mask = present_mask | bit;
                            if !validate_value_bool(reg, field_value, &field.field_type) {
                                return false;
                            }
                        }
                    },
                    None => {},
                }
                i += 1;
            }
            (present_mask & required_mask) == required_mask
        },
        _ => false,
    }
}

/// The presence-bitmap tier. A schema within the width of the bitmap is
/// checked through the masks; a wider one goes to the general check.
pub(crate) fn validate_batch_asymmetric_optimized(
    reg: &Registry,
    schema: &Schema,
    presence_bitmap: &Vec<(String, u32)>,
    items: &Vec<Value>,
    results: &mut Vec<bool>,
)
    requires
        bitmap_model(presence_bitmap@) == presence_table(schema@),
    ensures
        final(results)@ == old(results)@ + verdicts(reg@, schema@, items@),
{
    let ghost before = results@;
    let len = items.len();
    let within = schema.fields.len() <= BITMAP_WIDTH;
    let mut batch_start: usize = 0;
    while batch_start < len
        invariant
            len == items.len(),
            batch_start <= len,
            within == (schema@.len() <= BITMAP_WIDTH),
            bitmap_model(presence_bitmap@) == presence_table(schema@),
            results@ == before + verdicts(reg@, schema@, items@.subrange(0, batch_start as int)),
        decreases len - batch_start,
    {
        let batch_end = window_end(batch_start, len, BITMAP_BATCH_SIZE);
        let mut i: usize = batch_start;
        while i < batch_end
            invariant
                len == items.len(),
                batch_start <= i <= batch_end <= len,
                within == (schema@.len() <= BITMAP_WIDTH),
                bitmap_model(presence_bitmap@) == presence_table(schema@),
                results@ == before + verdicts(reg@, schema@, items@.subrange(0, i as int)),
            decreases batch_end - i,
        {
            let is_valid = if within {
                validate_asymmetric_fast(reg, schema, presence_bitmap, &items[i])
            } else {
                validate_value_internal(reg, schema, &items[i])
            };
            results.push(is_valid);
            i += 1;
        }
        batch_start = batch_end;
    }
}

} // verus!
