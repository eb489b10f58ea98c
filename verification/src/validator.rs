//! The validator: a schema, a registry of custom types, the classification
//! of the schema, and the operations that build and apply them.

use vstd::prelude::*;
use crate::analysis::{tier_of, Classification, Tier};
use crate::batch::{
    lemma_strict_tier, validate_batch_asymmetric_optimized, validate_batch_mixed_mega_optimized,
    validate_batch_simd_primitives, validate_batch_unions_mega_optimized,
    validate_batch_vectorized,
};
use crate::conform::conforms_schema;
use crate::engine::validate_value_internal;
use crate::error::{SchemaError, SchemaErrorModel};
use crate::parser::{parse_descriptor, parse_field_type};
use crate::registry::{registry_wf, Registry};
use crate::schema::{
    insert_at_path, insert_field, key_index, lemma_insert_at_path, lemma_insert_field,
    schema_wf, type_wf, FieldModel, FieldType, FieldValidator, Schema, TypeModel,
};
use crate::text::{chars_of, range_equals, split, split_strings};
use crate::value::{Value, ValueModel};

verus! {

/// The batch size that a new validator advises.
pub const DEFAULT_BATCH_SIZE: i32 = 1000;

/// The mathematical model of a validator.
pub struct CoreModel {
    /// The fields of the root schema, in the order in which their keys were
    /// first added.
    pub schema: Seq<FieldModel>,
    /// The schema of each defined custom type.
    pub custom_types: Map<Seq<char>, Seq<FieldModel>>,
    /// The advisory batch size.
    pub batch_size: int,
    /// The debug flag.
    pub debug: bool,
    /// The index of the root field that was added last, if any was.
    pub last_field: Option<int>,
}

impl CoreModel {
    /// Whether the validator accepts the value: it conforms to the root
    /// schema.
    pub open spec fn accepts(self, v: ValueModel) -> bool {
        conforms_schema(self.custom_types, v, self.schema)
    }

    /// The validator after a field has been put into the root schema; that
    /// field is then the one added last.
    pub open spec fn with_root_field(self, f: FieldModel) -> CoreModel {
        CoreModel {
            schema: insert_field(self.schema, f),
            last_field: Some(key_index(self.schema, f.key)),
            ..self
        }
    }

    /// The validator after its last field has been replaced; where no field
    /// was added yet, nothing changes.
    pub open spec fn with_last_field(self, change: spec_fn(FieldModel) -> FieldModel) -> CoreModel {
        match self.last_field {
            Some(i) => CoreModel { schema: self.schema.update(i, change(self.schema[i])), ..self },
            None => self,
        }
    }

    /// The validator after a custom type has been defined: a name that is
    /// new gets an empty schema, a name that is known changes nothing.
    pub open spec fn define_custom_type(self, name: Seq<char>) -> CoreModel {
        if self.custom_types.dom().contains(name) {
            self
        } else {
            CoreModel { custom_types: self.custom_types.insert(name, Seq::empty()), ..self }
        }
    }

    /// The validator after a field has been added to a custom type, or the
    /// error: an unsupported descriptor first, an undefined type second.
    pub open spec fn add_field_to_custom_type(
        self,
        name: Seq<char>,
        field_name: Seq<char>,
        descriptor: Seq<char>,
        required: bool,
    ) -> Result<CoreModel, SchemaErrorModel> {
        match parse_descriptor(self.custom_types.dom(), descriptor) {
            Err(unmatched) => Err(SchemaErrorModel::UnsupportedType(unmatched)),
            Ok(field_type) => if self.custom_types.dom().contains(name) {
                Ok(
                    CoreModel {
                        custom_types: self.custom_types.insert(
                            name,
                            insert_field(
                                self.custom_types[name],
                                FieldModel { key: field_name, field_type, required },
                            ),
                        ),
                        ..self
                    },
                )
            } else {
                Err(SchemaErrorModel::CustomTypeNotDefined)
            },
        }
    }

    /// The validator after a field has been added to the root schema, or
    /// the error of an unsupported descriptor.
    pub open spec fn add_field(
        self,
        name: Seq<char>,
        descriptor: Seq<char>,
        required: bool,
    ) -> Result<CoreModel, SchemaErrorModel> {
        match parse_descriptor(self.custom_types.dom(), descriptor) {
            Err(unmatched) => Err(SchemaErrorModel::UnsupportedType(unmatched)),
            Ok(field_type) => Ok(
                self.with_root_field(FieldModel { key: name, field_type, required }),
            ),
        }
    }

    /// The validator after an object field without fields of its own has
    /// been added to the root schema.
    pub open spec fn add_object_field(self, name: Seq<char>, required: bool) -> CoreModel {
        self.with_root_field(
            FieldModel { key: name, field_type: TypeModel::Object(Seq::empty()), required },
        )
    }

    /// The validator after a field has been added where a dotted path leads
    /// to, or the error: an unsupported descriptor first, a path that leads
    /// nowhere second. The empty path leads to the root schema, and only a
    /// field added there becomes the last field.
    pub open spec fn add_nested_field(
        self,
        object_path: Seq<char>,
        field_name: Seq<char>,
        descriptor: Seq<char>,
        required: bool,
    ) -> Result<CoreModel, SchemaErrorModel> {
        match parse_descriptor(self.custom_types.dom(), descriptor) {
            Err(unmatched) => Err(SchemaErrorModel::UnsupportedType(unmatched)),
            Ok(field_type) => {
                let f = FieldModel { key: field_name, field_type, required };
                if object_path.len() == 0 {
                    Ok(self.with_root_field(f))
                } else {
                    match insert_at_path(self.schema, split(object_path, '.'), f) {
                        Some(schema) => Ok(CoreModel { schema, ..self }),
                        None => Err(SchemaErrorModel::InvalidObjectPath),
                    }
                }
            },
        }
    }

    /// The validator after its last field has been made optional or
    /// required.
    pub open spec fn set_optional(self, optional: bool) -> CoreModel {
        self.with_last_field(
            |f: FieldModel| FieldModel { key: f.key, field_type: f.field_type, required: !optional },
        )
    }

    /// The validator after its last field has been made nullable or not: a
    /// nullable field is not required, any other is.
    pub open spec fn set_nullable(self, nullable: bool) -> CoreModel {
        self.with_last_field(
            |f: FieldModel| FieldModel { key: f.key, field_type: f.field_type, required: !nullable },
        )
    }

    /// The validator after its last field has been given a simple type.
    pub open spec fn set_value_type(self, value_type: Seq<char>) -> CoreModel {
        self.with_last_field(
            |f: FieldModel|
                FieldModel {
                    key: f.key,
                    field_type: simple_type(value_type),
                    required: f.required,
                },
        )
    }
}

/// The type that a simple type name stands for: one of the three primitive
/// types, and `Any` for every other name.
pub open spec fn simple_type(name: Seq<char>) -> TypeModel {
    if name == "string"@ {
        TypeModel::String
    } else if name == "number"@ {
        TypeModel::Number
    } else if name == "boolean"@ {
        TypeModel::Boolean
    } else {
        TypeModel::Any
    }
}

/// Whether a call did what it was meant to: on success the validator is the
/// expected one; on failure the error is the expected one and the validator
/// is as it was before.
pub open spec fn outcome_is(
    r: Result<(), SchemaError>,
    before: CoreModel,
    after: CoreModel,
    expected: Result<CoreModel, SchemaErrorModel>,
) -> bool {
    match expected {
        Ok(model) => r is Ok && after == model,
        Err(error) => r matches Err(e) && e@ == error && after == before,
    }
}

/// A validator: a root schema, the custom types that its fields may name,
/// and the classification of the schema, which is recomputed after every
/// change of the schema.
pub struct DhiCore {
    schema: Schema,
    batch_size: i32,
    custom_types: Registry,
    debug: bool,
    last_field: Option<usize>,
    cache: Classification,
}

impl View for DhiCore {
    type V = CoreModel;

    closed spec fn view(&self) -> CoreModel {
        CoreModel {
            schema: self.schema@,
            custom_types: self.custom_types@,
            batch_size: self.batch_size as int,
            debug: self.debug,
            last_field: match self.last_field {
                Some(i) => Some(i as int),
                None => None,
            },
        }
    }
}

impl DhiCore {
    /// The invariant of a validator: no schema holds a key twice, the
    /// classification is that of the root schema, the last field, if there
    /// is one, is a field of the root schema, and a root schema with a field
    /// has a last field.
    pub closed spec fn wf(&self) -> bool {
        &&& schema_wf(self.schema@)
        &&& self.custom_types.wf()
        &&& self.cache.describes(self.schema@)
        &&& self.last_field matches Some(i) ==> i < self.schema@.len()
        &&& self.schema@.len() > 0 ==> self.last_field is Some
    }

    /// What the invariant says of the model: every schema is well formed, so
    /// that no schema holds a key twice; the last field is a field of the
    /// root schema; and there is a last field exactly when the root schema
    /// has a field.
    pub proof fn lemma_wf(&self)
        requires
            self.wf(),
        ensures
            schema_wf(self@.schema),
            registry_wf(self@.custom_types),
            self@.last_field matches Some(i) ==> 0 <= i < self@.schema.len(),
            self@.last_field is Some <==> self@.schema.len() > 0,
    {
        self.custom_types.lemma_wf_model();
    }

    /// An empty validator: no field, no custom type, the default batch
    /// size, debugging off.
    pub fn new() -> (r: Self)
        ensures
            r.wf(),
            r@ == (CoreModel {
                schema: Seq::empty(),
                custom_types: Map::empty(),
                batch_size: DEFAULT_BATCH_SIZE as int,
                debug: false,
                last_field: None,
            }),
    {
        DhiCore {
            schema: Schema::new(),
            batch_size: DEFAULT_BATCH_SIZE,
            custom_types: Registry::new(),
            debug: false,
            last_field: None,
            cache: Classification::new(),
        }
    }

    /// The advisory batch size.
    pub fn get_batch_size(&self) -> (r: i32)
        ensures
            r == self@.batch_size,
    {
        self.batch_size
    }

    /// Sets the advisory batch size. No operation of the validator reads it.
    pub fn set_batch_size(&mut self, size: i32)
        ensures
            final(self)@ == (CoreModel { batch_size: size as int, ..old(self)@ }),
            final(self).wf() == old(self).wf(),
    {
        self.batch_size = size;
    }

    /// Sets the debug flag. No operation of the validator reads it.
    pub fn set_debug(&mut self, debug: bool)
        ensures
            final(self)@ == (CoreModel { debug, ..old(self)@ }),
            final(self).wf() == old(self).wf(),
    {
        self.debug = debug;
    }

    /// The tier in which batches are validated.
    pub fn tier(&self) -> (r: Tier)
        requires
            self.wf(),
        ensures
            r == tier_of(self@.schema),
    {
        self.cache.tier(self.schema.len())
    }

    /// Recomputes the classification from the root schema.
    fn invalidate_cache(&mut self)
        ensures
            final(self)@ == old(self)@,
            final(self).cache.describes(final(self).schema@),
            final(self).schema == old(self).schema,
            final(self).custom_types == old(self).custom_types,
            final(self).last_field == old(self).last_field,
    {
        self.cache.invalidate_cache(&self.schema);
    }

    /// Parses a type descriptor against the custom types defined so far.
    fn parse_field_type(&self, field_type: &str) -> (r: Result<FieldType, SchemaError>)
        ensures
            crate::parser::agrees(r, parse_descriptor(self@.custom_types.dom(), field_type@)),
            r matches Ok(parsed) ==> type_wf(parsed@),
    {
        parse_field_type(&self.custom_types, field_type)
    }

    /// Puts a field into the root schema and reclassifies.
    fn put_root_field(&mut self, field: FieldValidator)
        requires
            old(self).wf(),
            type_wf(field@.field_type),
        ensures
            final(self).wf(),
            final(self)@ == old(self)@.with_root_field(field@),
    {
        proof {
            lemma_insert_field(self.schema@, field@);
        }
        let index = self.schema.insert(field);
        self.last_field = Some(index);
        self.invalidate_cache();
    }

    /// Registers a custom type with an empty schema. Registering a name
    /// again changes nothing. Always succeeds.
    pub fn define_custom_type(&mut self, name: String) -> (r: Result<(), SchemaError>)
        requires
            old(self).wf(),
        ensures
            final(self).wf(),
            r is Ok,
            final(self)@ == old(self)@.define_custom_type(name@),
    {
        self.custom_types.define(name);
        Ok(())
    }

    /// Adds a field to a custom type, or replaces the field of that name.
    ///
    /// Fails with `UnsupportedType` where the descriptor denotes no type,
    /// else with `CustomTypeNotDefined` where the custom type was not
    /// defined.
    pub fn add_field_to_custom_type(
        &mut self,
        name: String,
        field_name: String,
        field_type: String,
        required: bool,
    ) -> (r: Result<(), SchemaError>)
        requires
            old(self).wf(),
        ensures
            final(self).wf(),
            outcome_is(
                r,
                old(self)@,
                final(self)@,
                old(self)@.add_field_to_custom_type(name@, field_name@, field_type@, required),
            ),
    {
        let parsed_field_type = match self.parse_field_type(field_type.as_str()) {
            Ok(parsed) => parsed,
            Err(e) => {
                return Err(e);
            },
        };
        let field = FieldValidator { key: field_name, field_type: parsed_field_type, required };
        if self.custom_types.add_field(&name, field) {
            Ok(())
        } else {
            Err(SchemaError::CustomTypeNotDefined)
        }
    }

    /// Adds a field to the root schema, or replaces the field of that name.
    ///
    /// Fails with `UnsupportedType` where the descriptor denotes no type.
    pub fn add_field(&mut self, name: String, field_type: String, required: bool) -> (r: Result<
        (),
        SchemaError,
    >)
        requires
            old(self).wf(),
        ensures
            final(self).wf(),
            outcome_is(
                r,
                old(self)@,
                final(self)@,
                old(self)@.add_field(name@, field_type@, required),
            ),
    {
        let field_type = match self.parse_field_type(field_type.as_str()) {
            Ok(parsed) => parsed,
            Err(e) => {
                return Err(e);
            },
        };
        self.put_root_field(FieldValidator { key: name, field_type, required });
        Ok(())
    }

    /// Adds a field that is a nested object with no field yet. Always
    /// succeeds.
    pub fn add_object_field(&mut self, name: String, required: bool) -> (r: Result<(), SchemaError>)
        requires
            old(self).wf(),
        ensures
            final(self).wf(),
            r is Ok,
            final(self)@ == old(self)@.add_object_field(name@, required),
    {
        let nested = Schema::new();
        assert(schema_wf(nested@));
        self.put_root_field(
            FieldValidator { key: name, field_type: FieldType::Object(nested), required },
        );
        Ok(())
    }

    /// Adds a field to the nested object that a path leads to. The path is
    /// a sequence of field names separated by dots, each naming an object
    /// field inside the one before; the empty path stands for the root
    /// schema.
    ///
    /// Fails with `UnsupportedType` where the descriptor denotes no type,
    /// else with `InvalidObjectPath` where a segment of the path names no
    /// field or a field that is no object.
    pub fn add_nested_field(
        &mut self,
        object_path: String,
        field_name: String,
        field_type: String,
        required: bool,
    ) -> (r: Result<(), SchemaError>)
        requires
            old(self).wf(),
        ensures
            final(self).wf(),
            outcome_is(
                r,
                old(self)@,
                final(self)@,
                old(self)@.add_nested_field(object_path@, field_name@, field_type@, required),
            ),
    {
        let parsed_field_type = match self.parse_field_type(field_type.as_str()) {
            Ok(parsed) => parsed,
            Err(e) => {
                return Err(e);
            },
        };
        let field = FieldValidator { key: field_name, field_type: parsed_field_type, required };
        let chars = chars_of(object_path.as_str());
        if chars.len() == 0 {
            self.put_root_field(field);
            return Ok(());
        }
        assert(chars@.subrange(0, chars.len() as int) =~= object_path@);
        let parts = split_strings(object_path.as_str(), &chars, 0, chars.len(), '.');
        proof {
            lemma_insert_at_path(self.schema@, split(object_path@, '.'), field@);
        }
        if self.schema.insert_nested(&parts, field) {
            self.invalidate_cache();
            Ok(())
        } else {
            Err(SchemaError::InvalidObjectPath)
        }
    }

    /// Whether the value conforms to the root schema.
    pub fn validate(&self, value: &Value) -> (r: bool)
        ensures
            r == self@.accepts(value@),
    {
        validate_value_internal(&self.custom_types, &self.schema, value)
    }

    /// Whether each value of a batch conforms to the root schema: the
    /// result holds, at each index, what `validate` returns for the item at
    /// that index. The classification of the schema picks the tier that
    /// does the work.
    pub fn validate_batch(&self, items: &Vec<Value>) -> (r: Vec<bool>)
        requires
            self.wf(),
        ensures
            r.len() == items.len(),
            forall|i: int|
                #![trigger r[i]]
                #![trigger items[i]]
                0 <= i < items.len() ==> r[i] == self@.accepts(items[i]@),
    {
        let ghost reg = self.custom_types@;
        let ghost s = self.schema@;
        let mut results: Vec<bool> = Vec::with_capacity(items.len());
        if self.cache.is_strict_primitive_schema {
            validate_batch_simd_primitives(&self.cache.strict_fields, items, &mut results);
            proof {
                assert forall|i: int| 0 <= i < items.len() implies results[i] == conforms_schema(
                    reg,
                    #[trigger] items[i]@,
                    s,
                ) by {
                    lemma_strict_tier(reg, s, items[i]@);
                }
            }
        } else if self.cache.has_unions {
            proof {
                crate::analysis::lemma_first_union(s);
            }
            validate_batch_unions_mega_optimized(
                &self.custom_types,
                &self.schema,
                self.cache.union_field.unwrap(),
                items,
                &mut results,
            );
        } else if self.cache.has_mixed_arrays {
            validate_batch_mixed_mega_optimized(
                &self.custom_types,
                &self.schema,
                items,
                &mut results,
            );
        } else if !self.cache.has_complex_types {
            validate_batch_vectorized(
                &self.custom_types,
                &self.cache.fast_fields,
                items,
                &mut results,
            );
        } else {
            validate_batch_asymmetric_optimized(
                &self.custom_types,
                &self.schema,
                &self.cache.presence_bitmap_cache,
                items,
                &mut results,
            );
        }
        results
    }

    /// Makes the field that was added last optional or required. Where no
    /// field was added yet, nothing changes.
    pub fn set_optional(&mut self, optional: bool)
        requires
            old(self).wf(),
        ensures
            final(self).wf(),
            final(self)@ == old(self)@.set_optional(optional),
    {
        if let Some(i) = self.last_field {
            let ghost before = self.schema@;
            self.schema.fields[i].required = !optional;
            proof {
                lemma_same_keys(before, self.schema@, i as int);
            }
            self.invalidate_cache();
        }
    }

    /// Makes the field that was added last required unless it is nullable.
    /// Where no field was added yet, nothing changes.
    pub fn set_nullable(&mut self, nullable: bool)
        requires
            old(self).wf(),
        ensures
            final(self).wf(),
            final(self)@ == old(self)@.set_nullable(nullable),
    {
        if let Some(i) = self.last_field {
            let ghost before = self.schema@;
            self.schema.fields[i].required = !nullable;
            proof {
                lemma_same_keys(before, self.schema@, i as int);
            }
            self.invalidate_cache();
        }
    }

    /// Gives the field that was added last a simple type: `string`,
    /// `number` or `boolean` by their names, and the type that accepts
    /// anything for every other name. Where no field was added yet, nothing
    /// changes.
    pub fn set_value_type(&mut self, value_type: &str)
        requires
            old(self).wf(),
        ensures
            final(self).wf(),
            final(self)@ == old(self)@.set_value_type(value_type@),
    {
        if let Some(i) = self.last_field {
            let ghost before = self.schema@;
            let chars = chars_of(value_type);
            assert(chars@.subrange(0, chars.len() as int) =~= value_type@);
            let field_type = if range_equals(&chars, 0, chars.len(), "string") {
                FieldType::String
            } else if range_equals(&chars, 0, chars.len(), "number") {
                FieldType::Number
            } else if range_equals(&chars, 0, chars.len(), "boolean") {
                FieldType::Boolean
            } else {
                FieldType::Any
            };
            self.schema.fields[i].field_type = field_type;
            proof {
                lemma_same_keys(before, self.schema@, i as int);
            }
            self.invalidate_cache();
        }
    }
}

/// Replacing one field by a well-formed field of the same key keeps a
/// schema well formed.
proof fn lemma_same_keys(before: Seq<FieldModel>, after: Seq<FieldModel>, i: int)
    requires
        schema_wf(before),
        0 <= i < before.len(),
        after.len() == before.len(),
        forall|j: int| 0 <= j < before.len() && j != i ==> after[j] == before[j],
        after[i].key == before[i].key,
        type_wf(after[i].field_type),
    ensures
        schema_wf(after),
        after == before.update(i, after[i]),
{
}

} // verus!
