//! The classification of a schema: the flags and flattened tables that are
//! recomputed after every change of the schema and that decide which tier
//! validates a batch.

use vstd::prelude::*;
use crate::engine::{tag_of, TAG_BOOLEAN, TAG_NUMBER, TAG_OTHER, TAG_STRING};
use crate::schema::{
    fields_model, is_primitive, FieldModel, FieldType, FieldValidator, Schema, TypeModel,
};

verus! {

/// The number of fields that the presence bitmap has room for.
pub const BITMAP_WIDTH: usize = 32;

/// The types that count as complex: objects, arrays, custom types, unions.
pub open spec fn is_complex(t: TypeModel) -> bool {
    t is Object || t is Array || t is Custom || t is Union
}

/// Some field has a complex type.
pub open spec fn has_complex_types(s: Seq<FieldModel>) -> bool {
    exists|i: int| 0 <= i < s.len() && is_complex((#[trigger] s[i]).field_type)
}

/// Some field is a union.
pub open spec fn has_unions(s: Seq<FieldModel>) -> bool {
    exists|i: int| 0 <= i < s.len() && (#[trigger] s[i]).field_type is Union
}

/// Some field is an array.
pub open spec fn has_arrays(s: Seq<FieldModel>) -> bool {
    exists|i: int| 0 <= i < s.len() && (#[trigger] s[i]).field_type is Array
}

/// Some field is a nested object.
pub open spec fn has_objects(s: Seq<FieldModel>) -> bool {
    exists|i: int| 0 <= i < s.len() && (#[trigger] s[i]).field_type is Object
}

/// The schema holds both an array field and an object field.
pub open spec fn has_mixed_arrays(s: Seq<FieldModel>) -> bool {
    has_arrays(s) && has_objects(s)
}

/// No field is complex, and every field is required and primitive.
pub open spec fn is_strict_primitive(s: Seq<FieldModel>) -> bool {
    &&& !has_complex_types(s)
    &&& forall|i: int|
        0 <= i < s.len() ==> (#[trigger] s[i]).required && is_primitive(s[i].field_type)
}

/// The table of strict fields: for a strict primitive schema the key and the
/// type tag of each field, in order; for any other schema, nothing.
pub open spec fn strict_table(s: Seq<FieldModel>) -> Seq<(Seq<char>, u8)> {
    if is_strict_primitive(s) {
        Seq::new(s.len(), |i: int| (s[i].key, tag_of(s[i].field_type)))
    } else {
        Seq::empty()
    }
}

/// The table of fast fields: the fields of a schema without complex types,
/// in order; for any other schema, nothing.
pub open spec fn fast_table(s: Seq<FieldModel>) -> Seq<FieldModel> {
    if has_complex_types(s) {
        Seq::empty()
    } else {
        s
    }
}

/// The bit that stands for the field at index `i` in a presence mask.
pub open spec fn presence_bit(i: int) -> u32 {
    1u32 << (i as u32)
}

/// The presence bitmap: for each of the first 32 fields its key and its bit.
pub open spec fn presence_table(s: Seq<FieldModel>) -> Seq<(Seq<char>, u32)> {
    Seq::new(
        if s.len() <= BITMAP_WIDTH {
            s.len()
        } else {
            BITMAP_WIDTH as nat
        },
        |i: int| (s[i].key, presence_bit(i)),
    )
}

/// The index of the first union field, or the length of the schema where it
/// has none.
pub open spec fn first_union(s: Seq<FieldModel>) -> int
    decreases s.len(),
{
    if s.len() == 0 {
        0
    } else if s[0].field_type is Union {
        0
    } else {
        1 + first_union(s.drop_first())
    }
}

/// `first_union` returns the least index that holds a union.
pub proof fn lemma_first_union(s: Seq<FieldModel>)
    ensures
        0 <= first_union(s) <= s.len(),
        first_union(s) < s.len() ==> s[first_union(s)].field_type is Union,
        forall|j: int| 0 <= j < first_union(s) ==> !((#[trigger] s[j]).field_type is Union),
        first_union(s) < s.len() <==> has_unions(s),
    decreases s.len(),
{
    if s.len() != 0 && !(s[0].field_type is Union) {
        let rest = s.drop_first();
        lemma_first_union(rest);
        assert forall|j: int| 0 <= j < first_union(s) implies !((#[trigger] s[j]).field_type is Union) by {
            if j > 0 {
                assert(s[j] == rest[j - 1]);
            }
        }
    }
}

/// Any index that holds a union, with none before it, is the index of the
/// first union.
pub proof fn lemma_first_union_is(s: Seq<FieldModel>, p: int)
    requires
        0 <= p <= s.len(),
        p < s.len() ==> s[p].field_type is Union,
        forall|j: int| 0 <= j < p ==> !((#[trigger] s[j]).field_type is Union),
    ensures
        first_union(s) == p,
{
    lemma_first_union(s);
}

/// The tier that validates a batch.
#[derive(Debug, Clone, Copy, PartialEq, Eq)]
pub enum Tier {
    /// Every field is required and primitive: each is a key and a type tag.
    StrictPrimitive,
    /// Some field is a union.
    Union,
    /// The schema mixes array fields and object fields.
    Mixed,
    /// No field is complex: the flattened table of fast fields is walked.
    VectorizedSimple,
    /// A complex schema of at most 32 fields: presence is kept in a bitmap.
    PresenceBitmap,
    /// Any other schema: the general recursive validator.
    GenericRecursive,
}

/// The tier that a schema is validated in.
pub open spec fn tier_of(s: Seq<FieldModel>) -> Tier {
    if is_strict_primitive(s) {
        Tier::StrictPrimitive
    } else if has_unions(s) {
        Tier::Union
    } else if has_mixed_arrays(s) {
        Tier::Mixed
    } else if !has_complex_types(s) {
        Tier::VectorizedSimple
    } else if s.len() <= BITMAP_WIDTH {
        Tier::PresenceBitmap
    } else {
        Tier::GenericRecursive
    }
}

/// The model of a table of keys with a number each.
pub open spec fn strict_model(table: Seq<(String, u8)>) -> Seq<(Seq<char>, u8)> {
    Seq::new(table.len(), |i: int| (table[i].0@, table[i].1))
}

/// The model of a presence bitmap.
pub open spec fn bitmap_model(table: Seq<(String, u32)>) -> Seq<(Seq<char>, u32)> {
    Seq::new(table.len(), |i: int| (table[i].0@, table[i].1))
}

/// The cached classification of a schema.
#[derive(Debug)]
pub struct Classification {
    pub has_complex_types: bool,
    pub is_strict_primitive_schema: bool,
    pub has_unions: bool,
    pub has_mixed_arrays: bool,
    /// The key and type tag of each field, for a strict primitive schema.
    pub strict_fields: Vec<(String, u8)>,
    /// The fields of a schema without complex types.
    pub fast_fields: Vec<FieldValidator>,
    /// The index of the first union field.
    pub union_field: Option<usize>,
    /// The key and presence bit of each of the first 32 fields.
    pub presence_bitmap_cache: Vec<(String, u32)>,
}

impl Classification {
    /// Whether the classification is that of the schema `s`: every flag and
    /// every table is what the schema determines.
    pub open spec fn describes(&self, s: Seq<FieldModel>) -> bool {
        &&& self.has_complex_types == has_complex_types(s)
        &&& self.is_strict_primitive_schema == is_strict_primitive(s)
        &&& self.has_unions == has_unions(s)
        &&& self.has_mixed_arrays == has_mixed_arrays(s)
        &&& strict_model(self.strict_fields@) == strict_table(s)
        &&& fields_model(self.fast_fields@) == fast_table(s)
        &&& self.union_field == (if first_union(s) < s.len() {
            Some(first_union(s) as usize)
        } else {
            None
        })
        &&& bitmap_model(self.presence_bitmap_cache@) == presence_table(s)
    }

    /// The classification of the empty schema.
    pub fn new() -> (r: Classification)
        ensures
            r.describes(Seq::empty()),
    {
        let r = Classification {
            has_complex_types: false,
            is_strict_primitive_schema: true,
            has_unions: false,
            has_mixed_arrays: false,
            strict_fields: Vec::new(),
            fast_fields: Vec::new(),
            union_field: None,
            presence_bitmap_cache: Vec::new(),
        };
        let ghost s = Seq::<FieldModel>::empty();
        assert(strict_model(r.strict_fields@) =~= strict_table(s));
        assert(fields_model(r.fast_fields@) =~= fast_table(s));
        assert(bitmap_model(r.presence_bitmap_cache@) =~= presence_table(s));
        r
    }

    /// The tier that the classified schema is validated in.
    pub fn tier(&self, field_count: usize) -> (r: Tier)
        ensures
            forall|s: Seq<FieldModel>|
                self.describes(s) && s.len() == field_count ==> r == #[trigger] tier_of(s),
    {
        if self.is_strict_primitive_schema {
            Tier::StrictPrimitive
        } else if self.has_unions {
            Tier::Union
        } else if self.has_mixed_arrays {
            Tier::Mixed
        } else if !self.has_complex_types {
            Tier::VectorizedSimple
        } else if field_count <= BITMAP_WIDTH {
            Tier::PresenceBitmap
        } else {
            Tier::GenericRecursive
        }
    }

    /// Recomputes every flag and every table from the schema, in one pass
    /// over its fields for the flags and one for each table.
    pub fn invalidate_cache(&mut self, schema: &Schema)
        ensures
            final(self).describes(schema@),
    {
        let ghost s = schema@;
        let n = schema.fields.len();
        let mut complex = false;
        let mut unions = false;
        let mut arrays = false;
        let mut objects = false;
        let mut strict = true;
        let mut union_field: Option<usize> = None;
        let mut i: usize = 0;
        while i < n
            invariant
                s == schema@,
                n == schema.fields.len(),
                i <= n,
                complex == exists|j: int| 0 <= j < i && is_complex((#[trigger] s[j]).field_type),
                unions == exists|j: int| 0 <= j < i && (#[trigger] s[j]).field_type is Union,
                arrays == exists|j: int| 0 <= j < i && (#[trigger] s[j]).field_type is Array,
                objects == exists|j: int| 0 <= j < i && (#[trigger] s[j]).field_type is Object,
                strict == forall|j: int|
                    0 <= j < i ==> (#[trigger] s[j]).required && is_primitive(s[j].field_type),
                match union_field {
                    Some(u) => u < i && s[u as int].field_type is Union && forall|j: int|
                        0 <= j < u ==> !((#[trigger] s[j]).field_type is Union),
                    None => forall|j: int| 0 <= j < i ==> !((#[trigger] s[j]).field_type is Union),
                },
            decreases n - i,
        {
            let field = &schema.fields[i];
            assert(s[i as int] == field@);
            match &field.field_type {
                FieldType::Object(_) => {
                    complex = true;
                    objects = true;
                    strict = false;
                },
                FieldType::Array(_) => {
                    complex = true;
                    arrays = true;
                    strict = false;
                },
                FieldType::Custom(_) => {
                    complex = true;
                    strict = false;
                },
                FieldType::Union(_) => {
                    complex = true;
                    unions = true;
                    strict = false;
                    if union_field.is_none() {
                        union_field = Some(i);
                    }
                },
                FieldType::String | FieldType::Number | FieldType::Boolean => {
                    if !field.required {
                        strict = false;
                    }
                },
                _ => {
                    strict = false;
                },
            }
            i += 1;
        }
        proof {
            match union_field {
                Some(u) => lemma_first_union_is(s, u as int),
                None => lemma_first_union_is(s, s.len() as int),
            }
        }
        self.has_complex_types = complex;
        self.has_unions = unions;
        self.has_mixed_arrays = arrays && objects;
        self.is_strict_primitive_schema = !complex && strict;
        self.union_field = union_field;
        if self.is_strict_primitive_schema {
            self.strict_fields = strict_fields_of(schema);
        } else {
            self.strict_fields = Vec::new();
            assert(strict_model(self.strict_fields@) =~= strict_table(s));
        }
        if !self.has_complex_types {
            self.fast_fields = fast_fields_of(schema);
        } else {
            self.fast_fields = Vec::new();
            assert(fields_model(self.fast_fields@) =~= fast_table(s));
        }
        self.presence_bitmap_cache = presence_bitmap_of(schema);
    }
}

/// The key and the type tag of every field, in order.
fn strict_fields_of(schema: &Schema) -> (table: Vec<(String, u8)>)
    ensures
        strict_model(table@) == Seq::new(
            schema@.len(),
            |i: int| (schema@[i].key, tag_of(schema@[i].field_type)),
        ),
{
    let mut table: Vec<(String, u8)> = Vec::new();
    let mut i: usize = 0;
    while i < schema.fields.len()
        invariant
            i <= schema.fields.len(),
            table.len() == i,
            forall|j: int|
                0 <= j < i ==> (#[trigger] table[j]).0@ == schema@[j].key && table[j].1 == tag_of(
                    schema@[j].field_type,
                ),
        decreases schema.fields.len() - i,
    {
        let field = &schema.fields[i];
        let tag = match &field.field_type {
            FieldType::String => TAG_STRING,
            FieldType::Number => TAG_NUMBER,
            FieldType::Boolean => TAG_BOOLEAN,
            _ => TAG_OTHER,
        };
        table.push((field.key.clone(), tag));
        i += 1;
    }
    table
}

/// A copy of every field, in order.
fn fast_fields_of(schema: &Schema) -> (table: Vec<FieldValidator>)
    ensures
        fields_model(table@) == schema@,
{
    let mut table: Vec<FieldValidator> = Vec::new();
    let mut i: usize = 0;
    while i < schema.fields.len()
        invariant
            i <= schema.fields.len(),
            table.len() == i,
            forall|j: int| 0 <= j < i ==> (#[trigger] table[j])@ == schema@[j],
        decreases schema.fields.len() - i,
    {
        table.push(schema.fields[i].clone());
        i += 1;
    }
    table
}

/// The key and the presence bit of each of the first 32 fields.
fn presence_bitmap_of(schema: &Schema) -> (table: Vec<(String, u32)>)
    ensures
        bitmap_model(table@) == presence_table(schema@),
{
    let mut table: Vec<(String, u32)> = Vec::new();
    let mut i: usize = 0;
    while i < schema.fields.len() && i < BITMAP_WIDTH
        invariant
            i <= schema.fields.len(),
            i <= BITMAP_WIDTH,
            table.len() == i,
            forall|j: int|
                0 <= j < i ==> (#[trigger] table[j]).0@ == schema@[j].key && table[j].1
                    == presence_bit(j),
        decreases schema.fields.len() - i,
    {
        let field = &schema.fields[i];
        let bit: u32 = 1u32 << (i as u32);
        table.push((field.key.clone(), bit));
        i += 1;
    }
    table
}

} // verus!
