//! The recursive validator: one value against one type or one schema.

use vstd::prelude::*;
use crate::conform::{conforms, conforms_schema, field_ok, lemma_conforms_schema};
use crate::laws::law_union;
use crate::registry::Registry;
use crate::schema::{
    is_primitive, types_model, FieldModel, FieldType, FieldValidator, Schema, TypeModel,
};
use crate::text::strings_model;
use crate::value::{get_property, props_model, Value, ValueModel};

verus! {

/// The tag of the string type in the table of strict fields.
pub const TAG_STRING: u8 = 0;

/// The tag of the number type in the table of strict fields.
pub const TAG_NUMBER: u8 = 1;

/// The tag of the boolean type in the table of strict fields.
pub const TAG_BOOLEAN: u8 = 2;

/// The tag that stands for every other type; no value matches it.
pub const TAG_OTHER: u8 = 255;

/// The number of array elements that are checked in one window.
pub const WINDOW: usize = 8;

/// The tag that stands for a type in the table of strict fields.
pub open spec fn tag_of(t: TypeModel) -> u8 {
    match t {
        TypeModel::String => TAG_STRING,
        TypeModel::Number => TAG_NUMBER,
        TypeModel::Boolean => TAG_BOOLEAN,
        _ => TAG_OTHER,
    }
}

/// Whether a value has the dynamic type that a tag stands for.
pub open spec fn tag_matches(v: ValueModel, tag: u8) -> bool {
    if tag == TAG_STRING {
        v is String
    } else if tag == TAG_NUMBER {
        v is Number
    } else if tag == TAG_BOOLEAN {
        v is Boolean
    } else {
        false
    }
}

/// Every value of the list conforms to the type.
pub open spec fn all_conform(
    reg: Map<Seq<char>, Seq<FieldModel>>,
    items: Seq<Value>,
    t: TypeModel,
) -> bool {
    forall|i: int| 0 <= i < items.len() ==> conforms(reg, (#[trigger] items[i])@, t)
}

/// Every property value of the list conforms to the type.
pub open spec fn all_values_conform(
    reg: Map<Seq<char>, Seq<FieldModel>>,
    props: Seq<(String, Value)>,
    t: TypeModel,
) -> bool {
    forall|i: int| 0 <= i < props.len() ==> conforms(reg, (#[trigger] props[i]).1@, t)
}

/// An array conforms to an array type exactly when each element conforms to
/// the element type.
pub proof fn lemma_array_conforms(
    reg: Map<Seq<char>, Seq<FieldModel>>,
    items: Vec<Value>,
    t: TypeModel,
)
    ensures
        conforms(reg, Value::Array(items)@, TypeModel::Array(Box::new(t))) <==> all_conform(
            reg,
            items@,
            t,
        ),
{
    let s = Value::Array(items)@->Array_0;
    if conforms(reg, Value::Array(items)@, TypeModel::Array(Box::new(t))) {
        assert forall|i: int| 0 <= i < items.len() implies conforms(
            reg,
            (#[trigger] items@[i])@,
            t,
        ) by {
            assert(s[i] == items@[i]@);
        }
    }
}

/// An object conforms to a record type exactly when each property value
/// conforms to the value type.
pub proof fn lemma_record_conforms(
    reg: Map<Seq<char>, Seq<FieldModel>>,
    props: Vec<(String, Value)>,
    t: TypeModel,
)
    ensures
        conforms(reg, Value::Object(props)@, TypeModel::Record(Box::new(t)))
            <==> all_values_conform(reg, props@, t),
{
    let s = Value::Object(props)@->Object_0;
    if conforms(reg, Value::Object(props)@, TypeModel::Record(Box::new(t))) {
        assert forall|i: int| 0 <= i < props.len() implies conforms(
            reg,
            (#[trigger] props@[i]).1@,
            t,
        ) by {
            assert(conforms(reg, s[i].1, t));
        }
    }
}

/// Where the window that starts at `start` ends: `size` items on, or at the
/// end of the input if that comes first. A window of a positive size that
/// starts inside the input is never empty.
pub fn window_end(start: usize, len: usize, size: usize) -> (end: usize)
    ensures
        end == if start + size <= len {
            start + size
        } else {
            len as int
        },
{
    if start < len && len - start > size {
        start + size
    } else {
        len
    }
}

/// Tests a value against the tag of a primitive type.
pub fn validate_primitive_type(value: &Value, tag: u8) -> (r: bool)
    ensures
        r == tag_matches(value@, tag),
{
    match tag {
        0 => value.is_string(),
        1 => value.is_number(),
        2 => value.is_boolean(),
        _ => false,
    }
}

/// Whether every element is a string, window by window.
pub fn validate_string_array_simd(items: &Vec<Value>) -> (r: bool)
    ensures
        r == forall|i: int| 0 <= i < items.len() ==> (#[trigger] items[i])@ is String,
{
    let len = items.len();
    let mut start: usize = 0;
    while start < len
        invariant
            len == items.len(),
            start <= len,
            forall|i: int| 0 <= i < start ==> (#[trigger] items[i])@ is String,
        decreases len - start,
    {
        let end = window_end(start, len, WINDOW);
        let mut i: usize = start;
        while i < end
            invariant
                len == items.len(),
                start <= i <= end <= len,
                forall|j: int| 0 <= j < i ==> (#[trigger] items[j])@ is String,
            decreases end - i,
        {
            if !items[i].is_string() {
                return false;
            }
            i += 1;
        }
        start = end;
    }
    true
}

/// Whether every element is a number, window by window.
pub fn validate_number_array_simd(items: &Vec<Value>) -> (r: bool)
    ensures
        r == forall|i: int| 0 <= i < items.len() ==> (#[trigger] items[i])@ is Number,
{
    let len = items.len();
    let mut start: usize = 0;
    while start < len
        invariant
            len == items.len(),
            start <= len,
            forall|i: int| 0 <= i < start ==> (#[trigger] items[i])@ is Number,
        decreases len - start,
    {
        let end = window_end(start, len, WINDOW);
        let mut i: usize = start;
        while i < end
            invariant
                len == items.len(),
                start <= i <= end <= len,
                forall|j: int| 0 <= j < i ==> (#[trigger] items[j])@ is Number,
            decreases end - i,
        {
            if !items[i].is_number() {
                return false;
            }
            i += 1;
        }
        start = end;
    }
    true
}

/// Whether every element is a boolean, window by window.
pub fn validate_boolean_array_simd(items: &Vec<Value>) -> (r: bool)
    ensures
        r == forall|i: int| 0 <= i < items.len() ==> (#[trigger] items[i])@ is Boolean,
{
    let len = items.len();
    let mut start: usize = 0;
    while start < len
        invariant
            len == items.len(),
            start <= len,
            forall|i: int| 0 <= i < start ==> (#[trigger] items[i])@ is Boolean,
        decreases len - start,
    {
        let end = window_end(start, len, WINDOW);
        let mut i: usize = start;
        while i < end
            invariant
                len == items.len(),
                start <= i <= end <= len,
                forall|j: int| 0 <= j < i ==> (#[trigger] items[j])@ is Boolean,
            decreases end - i,
        {
            if !items[i].is_boolean() {
                return false;
            }
            i += 1;
        }
        start = end;
    }
    true
}

/// Whether the index `j` is an entry of the order.
pub open spec fn lists(order: Seq<usize>, j: int) -> bool {
    exists|k: int| 0 <= k < order.len() && #[trigger] order[k] == j
}

/// The order in which the members of a union are tried: the primitive
/// members first, then the others, each group in the order of the union.
pub fn selectivity_order(members: &Vec<FieldType>) -> (order: Vec<usize>)
    ensures
        order.len() == members.len(),
        forall|k: int| 0 <= k < order.len() ==> (#[trigger] order[k]) < members.len(),
        forall|j: int| 0 <= j < members.len() ==> #[trigger] lists(order@, j),
        forall|a: int, b: int|
            0 <= a < b < order.len() && is_primitive(members[#[trigger] order[b] as int]@)
                ==> is_primitive(members[#[trigger] order[a] as int]@),
        forall|a: int, b: int|
            0 <= a < b < order.len() && is_primitive(members[#[trigger] order[a] as int]@)
                == is_primitive(members[#[trigger] order[b] as int]@) ==> order[a] < order[b],
{
    let n = members.len();
    let mut order: Vec<usize> = Vec::new();
    let mut i: usize = 0;
    while i < n
        invariant
            n == members.len(),
            i <= n,
            order.len() <= i,
            forall|k: int|
                0 <= k < order.len() ==> (#[trigger] order[k]) < i && is_primitive(
                    members[order[k] as int]@,
                ),
            forall|j: int|
                0 <= j < i && is_primitive(members[j]@) ==> exists|k: int|
                    0 <= k < order.len() && #[trigger] order[k] == j,
            forall|a: int, b: int|
                0 <= a < b < order.len() ==> (#[trigger] order[a]) < (#[trigger] order[b]),
        decreases n - i,
    {
        let primitive = match &members[i] {
            FieldType::String | FieldType::Number | FieldType::Boolean => true,
            _ => false,
        };
        if primitive {
            let ghost before = order@;
            order.push(i);
            assert forall|j: int| 0 <= j < i + 1 && is_primitive(members[j]@) implies exists|
                k: int,
            | 0 <= k < order.len() && #[trigger] order[k] == j by {
                if j < i {
                    let k = choose|k: int| 0 <= k < before.len() && #[trigger] before[k] == j;
                    assert(order[k] == j);
                } else {
                    assert(order[order.len() - 1] == j);
                }
            }
        }
        i += 1;
    }
    let split = order.len();
    let mut i: usize = 0;
    while i < n
        invariant
            n == members.len(),
            i <= n,
            split <= order.len() <= split + i,
            split <= n,
            forall|k: int|
                0 <= k < split ==> (#[trigger] order[k]) < n && is_primitive(
                    members[order[k] as int]@,
                ),
            forall|k: int|
                split <= k < order.len() ==> (#[trigger] order[k]) < i && !is_primitive(
                    members[order[k] as int]@,
                ),
            forall|j: int|
                0 <= j < n && is_primitive(members[j]@) ==> exists|k: int|
                    0 <= k < split && #[trigger] order[k] == j,
            forall|j: int|
                0 <= j < i && !is_primitive(members[j]@) ==> exists|k: int|
                    split <= k < order.len() && #[trigger] order[k] == j,
            forall|a: int, b: int|
                0 <= a < b < split ==> (#[trigger] order[a]) < (#[trigger] order[b]),
            forall|a: int, b: int|
                split <= a < b < order.len() ==> (#[trigger] order[a]) < (#[trigger] order[b]),
        decreases n - i,
    {
        let primitive = match &members[i] {
            FieldType::String | FieldType::Number | FieldType::Boolean => true,
            _ => false,
        };
        if !primitive {
            let ghost before = order@;
            order.push(i);
            assert forall|j: int| 0 <= j < n && is_primitive(members[j]@) implies exists|k: int|
                0 <= k < split && #[trigger] order[k] == j by {
                let k = choose|k: int| 0 <= k < split && #[trigger] before[k] == j;
                assert(order[k] == j);
            }
            assert forall|j: int| 0 <= j < i + 1 && !is_primitive(members[j]@) implies exists|
                k: int,
            | split <= k < order.len() && #[trigger] order[k] == j by {
                if j < i {
                    let k = choose|k: int|
                        split <= k < before.len() && #[trigger] before[k] == j;
                    assert(order[k] == j);
                } else {
                    assert(order[order.len() - 1] == j);
                }
            }
        }
        i += 1;
    }
    proof {
        lemma_order_is_full(members@, order@, split as int);
        assert forall|j: int| 0 <= j < members.len() implies #[trigger] lists(order@, j) by {
            if is_primitive(members[j]@) {
                let k = choose|k: int| 0 <= k < split && #[trigger] order[k] == j;
                assert(order@[k] == j);
            } else {
                let k = choose|k: int| split <= k < order.len() && #[trigger] order[k] == j;
                assert(order@[k] == j);
            }
        }
    }
    order
}

/// An order that lists each primitive index once below `split` and each
/// other index once from `split` on has one entry per member.
proof fn lemma_order_is_full(members: Seq<FieldType>, order: Seq<usize>, split: int)
    requires
        0 <= split <= order.len(),
        forall|k: int|
            0 <= k < split ==> (#[trigger] order[k]) < members.len() && is_primitive(
                members[order[k] as int]@,
            ),
        forall|k: int|
            split <= k < order.len() ==> (#[trigger] order[k]) < members.len() && !is_primitive(
                members[order[k] as int]@,
            ),
        forall|j: int|
            0 <= j < members.len() && is_primitive(members[j]@) ==> exists|k: int|
                0 <= k < split && #[trigger] order[k] == j,
        forall|j: int|
            0 <= j < members.len() && !is_primitive(members[j]@) ==> exists|k: int|
                split <= k < order.len() && #[trigger] order[k] == j,
        forall|a: int, b: int| 0 <= a < b < split ==> (#[trigger] order[a]) < (#[trigger] order[b]),
        forall|a: int, b: int|
            split <= a < b < order.len() ==> (#[trigger] order[a]) < (#[trigger] order[b]),
    ensures
        order.len() == members.len(),
{
    // The entries are pairwise distinct and each is an index of a member,
    // and every index of a member is an entry: the two sets are the same.
    let entries = order.map_values(|x: usize| x as int);
    entries.unique_seq_to_set();
    let indices = Set::new(|j: int| 0 <= j < members.len());
    assert(entries.to_set() =~= indices) by {
        assert forall|j: int| indices.contains(j) implies entries.to_set().contains(j) by {
            if is_primitive(members[j]@) {
                let k = choose|k: int| 0 <= k < split && #[trigger] order[k] == j;
                assert(entries[k] == j);
            } else {
                let k = choose|k: int| split <= k < order.len() && #[trigger] order[k] == j;
                assert(entries[k] == j);
            }
        }
    }
    vstd::set_lib::lemma_int_range(0, members.len() as int);
    assert(indices =~= vstd::set_lib::set_int_range(0, members.len() as int));
}

/// Whether the string is one of the listed values.
pub fn contains_string(values: &Vec<String>, s: &String) -> (r: bool)
    ensures
        r == strings_model(values@).contains(s@),
{
    let mut i: usize = 0;
    while i < values.len()
        invariant
            i <= values.len(),
            forall|j: int| 0 <= j < i ==> (#[trigger] strings_model(values@)[j]) != s@,
        decreases values.len() - i,
    {
        if values[i] == *s {
            assert(strings_model(values@)[i as int] == s@);
            return true;
        }
        i += 1;
    }
    false
}

/// Checks every element of an array against the element type: the
/// primitive element types by a scan of their own, the others window by
/// window through the general validator.
pub fn validate_array_optimized(reg: &Registry, items: &Vec<Value>, item_type: &FieldType) -> (r:
    bool)
    ensures
        r == all_conform(reg@, items@, item_type@),
    decreases items, 2int, item_type,
{
    let len = items.len();
    if len == 0 {
        return true;
    }
    match item_type {
        FieldType::String => validate_string_array_simd(items),
        FieldType::Number => validate_number_array_simd(items),
        FieldType::Boolean => validate_boolean_array_simd(items),
        _ => {
            let mut start: usize = 0;
            while start < len
                invariant
                    len == items.len(),
                    start <= len,
                    forall|i: int|
                        0 <= i < start ==> conforms(reg@, (#[trigger] items[i])@, item_type@),
                decreases len - start,
            {
                let end = window_end(start, len, WINDOW);
                let mut i: usize = start;
                while i < end
                    invariant
                        len == items.len(),
                        start <= i <= end <= len,
                        forall|j: int|
                            0 <= j < i ==> conforms(reg@, (#[trigger] items[j])@, item_type@),
                    decreases end - i,
                {
                    if !validate_value_bool(reg, &items[i], item_type) {
                        return false;
                    }
                    i += 1;
                }
                start = end;
            }
            true
        },
    }
}

/// Checks one field of a schema against the properties of an object: a
/// property that is absent, or reads as `undefined`, passes exactly when the
/// field is optional; any other value must have the field's type.
pub fn validate_field(reg: &Registry, props: &Vec<(String, Value)>, field: &FieldValidator) -> (r:
    bool)
    ensures
        r == field_ok(reg@, props_model(props@), field@),
    decreases props, 0int, field,
{
    match get_property(props, &field.key) {
        Some(x) => {
            if x.is_undefined() {
                !field.required
            } else {
                validate_value_bool(reg, x, &field.field_type)
            }
        },
        None => !field.required,
    }
}

/// Checks a value against a schema: the value must be an object, every
/// required field must be present, and every present field must have its
/// type.
pub fn validate_object_bool(reg: &Registry, value: &Value, schema: &Schema) -> (r: bool)
    ensures
        r == conforms_schema(reg@, value@, schema@),
    decreases value, 0int, schema,
{
    match value {
        Value::Object(props) => {
            proof {
                lemma_conforms_schema(reg@, props_model(props@), schema@);
            }
            let mut i: usize = 0;
            while i < schema.fields.len()
                invariant
                    i <= schema.fields.len(),
                    *value == Value::Object(*props),
                    conforms_schema(reg@, value@, schema@) <==> forall|j: int|
                        0 <= j < schema@.len() ==> field_ok(
                            reg@,
                            props_model(props@),
                            #[trigger] schema@[j],
                        ),
                    forall|j: int|
                        0 <= j < i ==> field_ok(reg@, props_model(props@), #[trigger] schema@[j]),
                decreases schema.fields.len() - i,
            {
                assert(schema@[i as int] == schema.fields[i as int]@);
                if !validate_field(reg, props, &schema.fields[i]) {
                    return false;
                }
                i += 1;
            }
            true
        },
        _ => false,
    }
}

/// Checks a value against a type.
///
/// The members of a union are tried in their selectivity order, the
/// primitive ones first; the first member that accepts the value settles
/// it.
pub fn validate_value_bool(reg: &Registry, value: &Value, field_type: &FieldType) -> (r: bool)
    ensures
        r == conforms(reg@, value@, field_type@),
    decreases value, 1int, field_type,
{
    match field_type {
        FieldType::String => value.is_string(),
        FieldType::Number => value.is_number(),
        FieldType::Boolean => value.is_boolean(),
        FieldType::Array(item_type) => match value {
            Value::Array(items) => {
                proof {
                    lemma_array_conforms(reg@, *items, item_type@);
                }
                validate_array_optimized(reg, items, item_type)
            },
            _ => false,
        },
        FieldType::Object(nested_schema) => validate_object_bool(reg, value, nested_schema),
        FieldType::Custom(name) => match reg.get(name) {
            Some(custom_type) => validate_object_bool(reg, value, custom_type),
            None => true,
        },
        FieldType::Record(value_type) => match value {
            Value::Object(props) => {
                proof {
                    lemma_record_conforms(reg@, *props, value_type@);
                }
                let mut i: usize = 0;
                while i < props.len()
                    invariant
                        i <= props.len(),
                        *value == Value::Object(*props),
                        conforms(reg@, value@, field_type@) <==> all_values_conform(
                            reg@,
                            props@,
                            value_type@,
                        ),
                        forall|j: int|
                            0 <= j < props.len() ==> decreases_to!(value => (#[trigger] props[j]).1),
                        forall|j: int|
                            0 <= j < i ==> conforms(reg@, (#[trigger] props[j]).1@, value_type@),
                    decreases props.len() - i,
                {
                    if !validate_value_bool(reg, &props[i].1, value_type) {
                        return false;
                    }
                    i += 1;
                }
                true
            },
            _ => false,
        },
        FieldType::Date => match value {
            Value::Date => true,
            _ => false,
        },
        FieldType::BigInt => match value {
            Value::BigInt => true,
            _ => false,
        },
        FieldType::Symbol => match value {
            Value::Symbol => true,
            _ => false,
        },
        FieldType::Undefined => value.is_undefined(),
        FieldType::Null => match value {
            Value::Null => true,
            _ => false,
        },
        FieldType::Void => value.is_undefined(),
        FieldType::Unknown => true,
        FieldType::Never => false,
        FieldType::Any => true,
        FieldType::Enum(allowed_values) => match value {
            Value::String(s) => contains_string(allowed_values, s),
            _ => false,
        },
        FieldType::Union(union_types) => {
            let order = selectivity_order(union_types);
            let ghost members = types_model(union_types@);
            let mut k: usize = 0;
            while k < order.len()
                invariant
                    k <= order.len(),
                    field_type@ == TypeModel::Union(members),
                    members == types_model(union_types@),
                    forall|j: int|
                        0 <= j < union_types.len() ==> decreases_to!(field_type => #[trigger] union_types[j]),
                    forall|a: int| 0 <= a < order.len() ==> (#[trigger] order[a]) < union_types.len(),
                    forall|a: int|
                        0 <= a < k ==> !conforms(reg@, value@, members[(#[trigger] order[a]) as int]),
                decreases order.len() - k,
            {
                let member = &union_types[order[k]];
                assert(members[order[k as int] as int] == member@);
                if validate_value_bool(reg, value, member) {
                    proof {
                        law_union(reg@, value@, members);
                    }
                    return true;
                }
                k += 1;
            }
            proof {
                assert forall|j: int| 0 <= j < members.len() implies !conforms(
                    reg@,
                    value@,
                    #[trigger] members[j],
                ) by {
                    assert(lists(order@, j));
                }
            }
            false
        },
    }
}

/// The general check of one item against the schema: the value must be an
/// object; a nested object field goes to the schema check, every other
/// field to the type check.
#[verifier::loop_isolation(false)]
pub fn validate_value_internal(reg: &Registry, schema: &Schema, value: &Value) -> (r: bool)
    ensures
        r == conforms_schema(reg@, value@, schema@),
{
    match value {
        Value::Object(props) => {
            proof {
                lemma_conforms_schema(reg@, props_model(props@), schema@);
            }
            let mut i: usize = 0;
            while i < schema.fields.len()
                invariant
                    i <= schema.fields.len(),
                    forall|j: int|
                        0 <= j < i ==> field_ok(reg@, props_model(props@), #[trigger] schema@[j]),
                decreases schema.fields.len() - i,
            {
                let validator = &schema.fields[i];
                assert(schema@[i as int] == validator@);
                match &validator.field_type {
                    FieldType::Object(nested_schema) => {
                        match get_property(props, &validator.key) {
                            Some(nested_value) => {
                                if nested_value.is_undefined() {
                                    if validator.required {
                                        return false;
                                    }
                                } else if !validate_object_bool(reg, nested_value, nested_schema) {
                                    return false;
                                }
                            },
                            None => {
                                if validator.required {
                                    return false;
                                }
                            },
                        }
                    },
                    other => {
                        match get_property(props, &validator.key) {
                            Some(field_value) => {
                                if field_value.is_undefined() {
                                    if validator.required {
                                        return false;
                                    }
                                } else if !validate_value_bool(reg, field_value, other) {
                                    return false;
                                }
                            },
                            None => {
                                if validator.required {
                                    return false;
                                }
                            },
                        }
                    },
                }
                i += 1;
            }
            true
        },
        _ => false,
    }
}

} // verus!
