//! What it means for a value to conform to a type and to a schema.

use vstd::prelude::*;
use crate::schema::{FieldModel, TypeModel};
use crate::value::{lookup, position, ValueModel};

verus! {

/// Whether the value `v` conforms to the type `t`, with named types resolved
/// in the registry `reg`.
///
/// A reference to a name that the registry does not hold accepts every
/// value.
pub open spec fn conforms(
    reg: Map<Seq<char>, Seq<FieldModel>>,
    v: ValueModel,
    t: TypeModel,
) -> bool
    decreases v, 1int, t,
{
    match t {
        TypeModel::String => v is String,
        TypeModel::Number => v is Number,
        TypeModel::Boolean => v is Boolean,
        TypeModel::Array(inner) => match v {
            ValueModel::Array(items) => forall|i: int|
                0 <= i < items.len() ==> conforms(reg, #[trigger] items[i], *inner),
            _ => false,
        },
        TypeModel::Object(schema) => conforms_schema(reg, v, schema),
        TypeModel::Custom(name) => reg.dom().contains(name) ==> conforms_schema(
            reg,
            v,
            reg[name],
        ),
        TypeModel::Any => true,
        TypeModel::Record(inner) => match v {
            ValueModel::Object(props) => forall|i: int|
                0 <= i < props.len() ==> conforms(reg, (#[trigger] props[i]).1, *inner),
            _ => false,
        },
        TypeModel::Date => v is Date,
        TypeModel::BigInt => v is BigInt,
        TypeModel::Symbol => v is Symbol,
        TypeModel::Undefined => v is Undefined,
        TypeModel::Null => v is Null,
        TypeModel::Void => v is Undefined,
        TypeModel::Unknown => true,
        TypeModel::Never => false,
        TypeModel::Enum(values) => match v {
            ValueModel::String(s) => values.contains(s),
            _ => false,
        },
        TypeModel::Union(members) => exists|i: int|
            0 <= i < members.len() && conforms(reg, v, #[trigger] members[i]),
    }
}

/// Whether the value `v` is an object that satisfies every field of the
/// schema `s`: a property that reads as `undefined` is absent, which only an
/// optional field allows; any other property value must conform to the
/// field's type.
pub open spec fn conforms_schema(
    reg: Map<Seq<char>, Seq<FieldModel>>,
    v: ValueModel,
    s: Seq<FieldModel>,
) -> bool
    decreases v, 0int, s,
{
    match v {
        ValueModel::Object(props) => forall|i: int|
            0 <= i < s.len() ==> {
                let p = position(props, (#[trigger] s[i]).key);
                if 0 <= p < props.len() && !(props[p].1 is Undefined) {
                    conforms(reg, props[p].1, s[i].field_type)
                } else {
                    !s[i].required
                }
            },
        _ => false,
    }
}

/// Whether the properties `props` satisfy the single field `f`.
pub open spec fn field_ok(
    reg: Map<Seq<char>, Seq<FieldModel>>,
    props: Seq<(Seq<char>, ValueModel)>,
    f: FieldModel,
) -> bool {
    let x = lookup(props, f.key);
    if x is Undefined {
        !f.required
    } else {
        conforms(reg, x, f.field_type)
    }
}

/// An object conforms to a schema exactly when it satisfies each field.
pub proof fn lemma_conforms_schema(
    reg: Map<Seq<char>, Seq<FieldModel>>,
    props: Seq<(Seq<char>, ValueModel)>,
    s: Seq<FieldModel>,
)
    ensures
        conforms_schema(reg, ValueModel::Object(props), s) <==> forall|i: int|
            0 <= i < s.len() ==> field_ok(reg, props, #[trigger] s[i]),
{
    assert forall|i: int| 0 <= i < s.len() implies (field_ok(reg, props, #[trigger] s[i]) <==> {
        let p = position(props, s[i].key);
        if 0 <= p < props.len() && !(props[p].1 is Undefined) {
            conforms(reg, props[p].1, s[i].field_type)
        } else {
            !s[i].required
        }
    }) by {
        crate::value::lemma_position(props, s[i].key);
    }
}

} // verus!
