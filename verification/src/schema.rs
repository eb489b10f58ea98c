//! Field types, field validators and schemas, with their mathematical models.

use vstd::prelude::*;
use crate::text::strings_model;

verus! {

/// The mathematical model of a field type.
pub enum TypeModel {
    String,
    Number,
    Boolean,
    Array(Box<TypeModel>),
    Object(Seq<FieldModel>),
    Custom(Seq<char>),
    Any,
    Record(Box<TypeModel>),
    Date,
    BigInt,
    Symbol,
    Undefined,
    Null,
    Void,
    Unknown,
    Never,
    Enum(Seq<Seq<char>>),
    Union(Seq<TypeModel>),
}

/// The mathematical model of one field of a schema.
pub struct FieldModel {
    pub key: Seq<char>,
    pub field_type: TypeModel,
    pub required: bool,
}

/// The type a field's value must have.
#[derive(Debug, PartialEq, Eq)]
pub enum FieldType {
    String,
    Number,
    Boolean,
    /// A sequence whose every element has the given type.
    Array(Box<FieldType>),
    /// A nested object with a schema of its own.
    Object(Schema),
    /// A reference, by name, to a schema of the custom-type registry.
    Custom(String),
    Any,
    /// An object whose every property value has the given type.
    Record(Box<FieldType>),
    Date,
    BigInt,
    Symbol,
    Undefined,
    Null,
    Void,
    Unknown,
    Never,
    /// A string that is one of the listed values.
    Enum(Vec<String>),
    /// A value of at least one of the member types.
    Union(Vec<FieldType>),
}

/// One field of a schema: its key, its type, and whether it must be present.
#[derive(Debug, PartialEq, Eq)]
pub struct FieldValidator {
    pub key: String,
    pub field_type: FieldType,
    pub required: bool,
}

/// A schema: fields with pairwise distinct keys, in the order in which their
/// keys were first added.
#[derive(Debug, PartialEq, Eq)]
pub struct Schema {
    pub fields: Vec<FieldValidator>,
}

/// The model of a field type.
pub open spec fn type_model(t: FieldType) -> TypeModel
    decreases t,
{
    match t {
        FieldType::String => TypeModel::String,
        FieldType::Number => TypeModel::Number,
        FieldType::Boolean => TypeModel::Boolean,
        FieldType::Array(inner) => TypeModel::Array(Box::new(type_model(*inner))),
        FieldType::Object(schema) => TypeModel::Object(fields_model(schema.fields@)),
        FieldType::Custom(name) => TypeModel::Custom(name@),
        FieldType::Any => TypeModel::Any,
        FieldType::Record(inner) => TypeModel::Record(Box::new(type_model(*inner))),
        FieldType::Date => TypeModel::Date,
        FieldType::BigInt => TypeModel::BigInt,
        FieldType::Symbol => TypeModel::Symbol,
        FieldType::Undefined => TypeModel::Undefined,
        FieldType::Null => TypeModel::Null,
        FieldType::Void => TypeModel::Void,
        FieldType::Unknown => TypeModel::Unknown,
        FieldType::Never => TypeModel::Never,
        FieldType::Enum(values) => TypeModel::Enum(strings_model(values@)),
        FieldType::Union(members) => TypeModel::Union(types_model(members@)),
    }
}

/// The model of a list of field types.
pub open spec fn types_model(members: Seq<FieldType>) -> Seq<TypeModel>
    decreases members,
{
    Seq::new(
        members.len(),
        |i: int|
            if 0 <= i < members.len() {
                type_model(members[i])
            } else {
                TypeModel::Never
            },
    )
}

/// The model of a field.
pub open spec fn field_model(f: FieldValidator) -> FieldModel
    decreases f,
{
    FieldModel { key: f.key@, field_type: type_model(f.field_type), required: f.required }
}

/// The model of a list of fields.
pub open spec fn fields_model(fields: Seq<FieldValidator>) -> Seq<FieldModel>
    decreases fields,
{
    Seq::new(
        fields.len(),
        |i: int|
            if 0 <= i < fields.len() {
                field_model(fields[i])
            } else {
                FieldModel { key: Seq::empty(), field_type: TypeModel::Never, required: false }
            },
    )
}

impl View for FieldType {
    type V = TypeModel;

    open spec fn view(&self) -> TypeModel {
        type_model(*self)
    }
}

impl View for FieldValidator {
    type V = FieldModel;

    open spec fn view(&self) -> FieldModel {
        field_model(*self)
    }
}

impl View for Schema {
    type V = Seq<FieldModel>;

    open spec fn view(&self) -> Seq<FieldModel> {
        fields_model(self.fields@)
    }
}

/// The three primitive types: string, number and boolean.
pub open spec fn is_primitive(t: TypeModel) -> bool {
    t is String || t is Number || t is Boolean
}

/// The index of the first field with the given key, or the length of the
/// schema where no field has it.
pub open spec fn key_index(s: Seq<FieldModel>, key: Seq<char>) -> int
    decreases s.len(),
{
    if s.len() == 0 {
        0
    } else if s[0].key == key {
        0
    } else {
        1 + key_index(s.drop_first(), key)
    }
}

/// No two fields share a key.
pub open spec fn keys_distinct(s: Seq<FieldModel>) -> bool {
    forall|i: int, j: int| 0 <= i < j < s.len() ==> (#[trigger] s[i]).key != (#[trigger] s[j]).key
}

/// A type is well formed when every schema inside it is.
pub open spec fn type_wf(t: TypeModel) -> bool
    decreases t,
{
    match t {
        TypeModel::Array(inner) => type_wf(*inner),
        TypeModel::Record(inner) => type_wf(*inner),
        TypeModel::Object(schema) => schema_wf(schema),
        TypeModel::Union(members) => forall|i: int|
            0 <= i < members.len() ==> type_wf(#[trigger] members[i]),
        _ => true,
    }
}

/// A schema is well formed when its keys are pairwise distinct and the type
/// of every field is well formed.
pub open spec fn schema_wf(s: Seq<FieldModel>) -> bool
    decreases s,
{
    &&& keys_distinct(s)
    &&& forall|i: int| 0 <= i < s.len() ==> type_wf((#[trigger] s[i]).field_type)
}

/// The schema after a field has been put in: a field of the same key is
/// replaced where it stands, a field of a new key goes to the end.
pub open spec fn insert_field(s: Seq<FieldModel>, f: FieldModel) -> Seq<FieldModel> {
    let i = key_index(s, f.key);
    if i < s.len() {
        s.update(i, f)
    } else {
        s.push(f)
    }
}

/// `key_index` returns the least index that holds the key.
pub proof fn lemma_key_index(s: Seq<FieldModel>, key: Seq<char>)
    ensures
        0 <= key_index(s, key) <= s.len(),
        key_index(s, key) < s.len() ==> s[key_index(s, key)].key == key,
        forall|j: int| 0 <= j < key_index(s, key) ==> (#[trigger] s[j]).key != key,
    decreases s.len(),
{
    if s.len() != 0 && s[0].key != key {
        let rest = s.drop_first();
        lemma_key_index(rest, key);
        assert forall|j: int| 0 <= j < key_index(s, key) implies (#[trigger] s[j]).key != key by {
            if j > 0 {
                assert(s[j] == rest[j - 1]);
            }
        }
    }
}

/// Any index that holds the key, with no earlier one doing so, is the index
/// of the key.
pub proof fn lemma_key_index_is(s: Seq<FieldModel>, key: Seq<char>, p: int)
    requires
        0 <= p <= s.len(),
        p < s.len() ==> s[p].key == key,
        forall|j: int| 0 <= j < p ==> (#[trigger] s[j]).key != key,
    ensures
        key_index(s, key) == p,
{
    lemma_key_index(s, key);
}

/// In a schema with distinct keys, every field stands at the index of its
/// own key.
pub proof fn lemma_key_index_of_field(s: Seq<FieldModel>, i: int)
    requires
        keys_distinct(s),
        0 <= i < s.len(),
    ensures
        key_index(s, s[i].key) == i,
{
    lemma_key_index(s, s[i].key);
}

/// Putting a well-formed field into a well-formed schema keeps it well
/// formed, and the field then stands at the index of its key.
pub proof fn lemma_insert_field(s: Seq<FieldModel>, f: FieldModel)
    requires
        schema_wf(s),
        type_wf(f.field_type),
    ensures
        schema_wf(insert_field(s, f)),
        key_index(insert_field(s, f), f.key) == key_index(s, f.key),
        insert_field(s, f)[key_index(s, f.key)] == f,
        insert_field(s, f).len() == if key_index(s, f.key) < s.len() {
            s.len()
        } else {
            s.len() + 1
        },
{
    lemma_key_index(s, f.key);
    let i = key_index(s, f.key);
    let t = insert_field(s, f);
    lemma_key_index_is(t, f.key, i);
}

impl Clone for FieldType {
    /// A deep copy: the result has the same model.
    fn clone(&self) -> (r: Self)
        ensures
            r@ == self@,
        decreases self,
    {
        match self {
            FieldType::String => FieldType::String,
            FieldType::Number => FieldType::Number,
            FieldType::Boolean => FieldType::Boolean,
            FieldType::Array(inner) => FieldType::Array(Box::new((**inner).clone())),
            FieldType::Object(schema) => FieldType::Object(schema.clone()),
            FieldType::Custom(name) => FieldType::Custom(name.clone()),
            FieldType::Any => FieldType::Any,
            FieldType::Record(inner) => FieldType::Record(Box::new((**inner).clone())),
            FieldType::Date => FieldType::Date,
            FieldType::BigInt => FieldType::BigInt,
            FieldType::Symbol => FieldType::Symbol,
            FieldType::Undefined => FieldType::Undefined,
            FieldType::Null => FieldType::Null,
            FieldType::Void => FieldType::Void,
            FieldType::Unknown => FieldType::Unknown,
            FieldType::Never => FieldType::Never,
            FieldType::Enum(values) => {
                let mut out: Vec<String> = Vec::new();
                let mut i: usize = 0;
                while i < values.len()
                    invariant
                        i <= values.len(),
                        out.len() == i,
                        forall|j: int| 0 <= j < i ==> (#[trigger] out[j])@ == values[j]@,
                    decreases values.len() - i,
                {
                    out.push(values[i].clone());
                    i += 1;
                }
                assert(strings_model(out@) =~= strings_model(values@));
                FieldType::Enum(out)
            },
            FieldType::Union(members) => {
                let mut out: Vec<FieldType> = Vec::new();
                let mut i: usize = 0;
                while i < members.len()
                    invariant
                        i <= members.len(),
                        out.len() == i,
                        forall|j: int| 0 <= j < i ==> (#[trigger] out[j])@ == members[j]@,
                        forall|j: int|
                            0 <= j < members.len() ==> decreases_to!(self => #[trigger] members[j]),
                    decreases members.len() - i,
                {
                    out.push(members[i].clone());
                    i += 1;
                }
                assert(types_model(out@) =~= types_model(members@));
                FieldType::Union(out)
            },
        }
    }
}

impl Clone for FieldValidator {
    /// A deep copy: the result has the same model.
    fn clone(&self) -> (r: Self)
        ensures
            r@ == self@,
        decreases self,
    {
        FieldValidator {
            key: self.key.clone(),
            field_type: self.field_type.clone(),
            required: self.required,
        }
    }
}

impl Clone for Schema {
    /// A deep copy: the result has the same model.
    fn clone(&self) -> (r: Self)
        ensures
            r@ == self@,
        decreases self,
    {
        let mut out: Vec<FieldValidator> = Vec::new();
        let mut i: usize = 0;
        while i < self.fields.len()
            invariant
                i <= self.fields.len(),
                out.len() == i,
                forall|j: int| 0 <= j < i ==> (#[trigger] out[j])@ == self.fields[j]@,
                forall|j: int|
                    0 <= j < self.fields.len() ==> decreases_to!(self => #[trigger] self.fields[j]),
            decreases self.fields.len() - i,
        {
            out.push(self.fields[i].clone());
            i += 1;
        }
        Schema { fields: out }
    }
}

impl Schema {
    /// The empty schema.
    pub fn new() -> (r: Schema)
        ensures
            r@ == Seq::<FieldModel>::empty(),
    {
        let r = Schema { fields: Vec::new() };
        r
    }

    /// The number of fields.
    pub fn len(&self) -> (r: usize)
        ensures
            r == self@.len(),
    {
        self.fields.len()
    }

    /// The index of the field with the given key, if there is one.
    pub fn find(&self, key: &String) -> (r: Option<usize>)
        ensures
            match r {
                Some(i) => i == key_index(self@, key@) && i < self@.len(),
                None => key_index(self@, key@) == self@.len(),
            },
    {
        let mut i: usize = 0;
        while i < self.fields.len()
            invariant
                i <= self.fields.len(),
                forall|j: int| 0 <= j < i ==> (#[trigger] self@[j]).key != key@,
            decreases self.fields.len() - i,
        {
            if self.fields[i].key == *key {
                proof {
                    lemma_key_index_is(self@, key@, i as int);
                }
                return Some(i);
            }
            i += 1;
        }
        proof {
            lemma_key_index_is(self@, key@, self@.len() as int);
        }
        None
    }

    /// Puts a field in and returns the index at which it then stands: a
    /// field of the same key is replaced where it stands, a field of a new
    /// key goes to the end.
    pub fn insert(&mut self, field: FieldValidator) -> (r: usize)
        ensures
            final(self)@ == insert_field(old(self)@, field@),
            r == key_index(old(self)@, field@.key),
            r < final(self)@.len(),
    {
        let found = self.find(&field.key);
        match found {
            Some(i) => {
                self.fields.set(i, field);
                i
            },
            None => {
                let i = self.fields.len();
                self.fields.push(field);
                i
            },
        }
    }
}

/// The schema after a field has been put into the nested object that a path
/// leads to. Each segment of the path must name a field that is an object;
/// where one does not, there is no result. The empty path leads to the
/// schema itself.
pub open spec fn insert_at_path(
    s: Seq<FieldModel>,
    path: Seq<Seq<char>>,
    f: FieldModel,
) -> Option<Seq<FieldModel>>
    decreases path.len(),
{
    if path.len() == 0 {
        Some(insert_field(s, f))
    } else {
        let j = key_index(s, path[0]);
        if 0 <= j < s.len() {
            match s[j].field_type {
                TypeModel::Object(nested) => match insert_at_path(nested, path.drop_first(), f) {
                    Some(changed) => Some(
                        s.update(
                            j,
                            FieldModel {
                                key: s[j].key,
                                field_type: TypeModel::Object(changed),
                                required: s[j].required,
                            },
                        ),
                    ),
                    None => None,
                },
                _ => None,
            }
        } else {
            None
        }
    }
}

/// Putting a well-formed field in at a path keeps a well-formed schema well
/// formed.
pub proof fn lemma_insert_at_path(s: Seq<FieldModel>, path: Seq<Seq<char>>, f: FieldModel)
    requires
        schema_wf(s),
        type_wf(f.field_type),
    ensures
        insert_at_path(s, path, f) matches Some(changed) ==> schema_wf(changed),
    decreases path.len(),
{
    if path.len() == 0 {
        lemma_insert_field(s, f);
    } else {
        let j = key_index(s, path[0]);
        if 0 <= j < s.len() {
            if let TypeModel::Object(nested) = s[j].field_type {
                lemma_insert_at_path(nested, path.drop_first(), f);
            }
        }
    }
}

impl Schema {
    /// Puts a field into the nested object that a path of field names leads
    /// to. Returns whether the path led anywhere; where it did not, the
    /// schema is left as it was.
    pub fn insert_nested(&mut self, path: &Vec<String>, field: FieldValidator) -> (r: bool)
        ensures
            match insert_at_path(old(self)@, strings_model(path@), field@) {
                Some(changed) => r && final(self)@ == changed,
                None => !r && final(self)@ == old(self)@,
            },
    {
        assert(strings_model(path@).subrange(0, path.len() as int) =~= strings_model(path@));
        self.insert_from(path, 0, field)
    }

    /// Puts a field into the nested object that the segments of `path` from
    /// index `at` on lead to.
    fn insert_from(&mut self, path: &Vec<String>, at: usize, field: FieldValidator) -> (r: bool)
        requires
            at <= path.len(),
        ensures
            match insert_at_path(
                old(self)@,
                strings_model(path@).subrange(at as int, path.len() as int),
                field@,
            ) {
                Some(changed) => r && final(self)@ == changed,
                None => !r && final(self)@ == old(self)@,
            },
        decreases path.len() - at,
    {
        let ghost segments = strings_model(path@).subrange(at as int, path.len() as int);
        if at == path.len() {
            self.insert(field);
            true
        } else {
            assert(segments.drop_first() =~= strings_model(path@).subrange(
                at + 1,
                path.len() as int,
            ));
            match self.find(&path[at]) {
                Some(j) => {
                    match &mut self.fields[j].field_type {
                        FieldType::Object(nested) => {
                            let done = nested.insert_from(path, at + 1, field);
                            done
                        },
                        _ => false,
                    }
                },
                None => false,
            }
        }
    }
}

} // verus!
