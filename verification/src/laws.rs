//! Laws of conformance: what holds of every registry, every schema and
//! every value.

use vstd::prelude::*;
use crate::conform::{conforms, conforms_schema, field_ok, lemma_conforms_schema};
use crate::schema::{is_primitive, keys_distinct, FieldModel, TypeModel};
use crate::value::{
    lemma_with_property, lemma_without, lookup, with_property, without, ValueModel,
};

verus! {

/// Taking a required field out of an object makes it fail the schema,
/// whatever else the object holds.
pub proof fn law_required_field(
    reg: Map<Seq<char>, Seq<FieldModel>>,
    props: Seq<(Seq<char>, ValueModel)>,
    s: Seq<FieldModel>,
    i: int,
)
    requires
        0 <= i < s.len(),
        s[i].required,
    ensures
        !conforms_schema(reg, ValueModel::Object(without(props, s[i].key)), s),
{
    lemma_without(props, s[i].key, s[i].key);
}

/// Taking an optional field out of an object that conforms to a schema
/// leaves it conforming.
pub proof fn law_optional_field(
    reg: Map<Seq<char>, Seq<FieldModel>>,
    props: Seq<(Seq<char>, ValueModel)>,
    s: Seq<FieldModel>,
    i: int,
)
    requires
        keys_distinct(s),
        0 <= i < s.len(),
        !s[i].required,
        conforms_schema(reg, ValueModel::Object(props), s),
    ensures
        conforms_schema(reg, ValueModel::Object(without(props, s[i].key)), s),
{
    let removed = without(props, s[i].key);
    lemma_conforms_schema(reg, props, s);
    lemma_conforms_schema(reg, removed, s);
    assert forall|j: int| 0 <= j < s.len() implies field_ok(reg, removed, #[trigger] s[j]) by {
        lemma_without(props, s[i].key, s[j].key);
    }
}

/// Binding the key of a primitive field to a value of another dynamic type
/// makes the object fail the schema, whatever its other properties are, and
/// changes none of them. The one value left out is `undefined` for an
/// optional field, which reads as the field being absent.
pub proof fn law_type_tag(
    reg: Map<Seq<char>, Seq<FieldModel>>,
    props: Seq<(Seq<char>, ValueModel)>,
    s: Seq<FieldModel>,
    i: int,
    x: ValueModel,
)
    requires
        0 <= i < s.len(),
        is_primitive(s[i].field_type),
        !conforms(reg, x, s[i].field_type),
        s[i].required || !(x is Undefined),
    ensures
        !conforms_schema(reg, ValueModel::Object(with_property(props, s[i].key, x)), s),
        forall|other: Seq<char>|
            other != s[i].key ==> #[trigger] lookup(with_property(props, s[i].key, x), other)
                == lookup(props, other),
{
    let changed = with_property(props, s[i].key, x);
    lemma_with_property(props, s[i].key, x, s[i].key);
    lemma_conforms_schema(reg, changed, s);
    assert forall|other: Seq<char>| other != s[i].key implies #[trigger] lookup(changed, other)
        == lookup(props, other) by {
        lemma_with_property(props, s[i].key, x, other);
    }
}

/// A value conforms to a union exactly when it conforms to at least one of
/// its members.
pub proof fn law_union(
    reg: Map<Seq<char>, Seq<FieldModel>>,
    v: ValueModel,
    members: Seq<TypeModel>,
)
    ensures
        conforms(reg, v, TypeModel::Union(members)) <==> exists|i: int|
            0 <= i < members.len() && conforms(reg, v, #[trigger] members[i]),
{
    if exists|i: int| 0 <= i < members.len() && conforms(reg, v, #[trigger] members[i]) {
        let i = choose|i: int| 0 <= i < members.len() && conforms(reg, v, #[trigger] members[i]);
        let union = TypeModel::Union(members);
        assert(conforms(reg, v, union->Union_0[i]));
    }
}

/// Conformance to a union does not depend on the order of its members: two
/// unions with the same members, however arranged, accept the same values.
pub proof fn law_union_order(
    reg: Map<Seq<char>, Seq<FieldModel>>,
    v: ValueModel,
    a: Seq<TypeModel>,
    b: Seq<TypeModel>,
)
    requires
        a.to_multiset() == b.to_multiset(),
    ensures
        conforms(reg, v, TypeModel::Union(a)) == conforms(reg, v, TypeModel::Union(b)),
{
    lemma_union_members(reg, v, a, b);
    lemma_union_members(reg, v, b, a);
}

/// Where every member of one union is a member of another, the other
/// accepts what the one accepts.
proof fn lemma_union_members(
    reg: Map<Seq<char>, Seq<FieldModel>>,
    v: ValueModel,
    a: Seq<TypeModel>,
    b: Seq<TypeModel>,
)
    requires
        a.to_multiset() == b.to_multiset(),
    ensures
        conforms(reg, v, TypeModel::Union(a)) ==> conforms(reg, v, TypeModel::Union(b)),
{
    law_union(reg, v, b);
    if conforms(reg, v, TypeModel::Union(a)) {
        let i = choose|i: int| 0 <= i < a.len() && conforms(reg, v, #[trigger] a[i]);
        a.to_multiset_ensures();
        b.to_multiset_ensures();
        assert(b.to_multiset().count(a[i]) > 0);
    }
}

/// A value conforms to an enumeration exactly when it is a string that is,
/// character for character, one of the listed values.
pub proof fn law_enum(
    reg: Map<Seq<char>, Seq<FieldModel>>,
    v: ValueModel,
    values: Seq<Seq<char>>,
)
    ensures
        conforms(reg, v, TypeModel::Enum(values)) <==> (v matches ValueModel::String(s)
            && values.contains(s)),
{
}

/// `Never` rejects every value, `null` and `undefined` among them;
/// `Unknown` and `Any` accept every value.
pub proof fn law_never_unknown_any(reg: Map<Seq<char>, Seq<FieldModel>>, v: ValueModel)
    ensures
        !conforms(reg, v, TypeModel::Never),
        conforms(reg, v, TypeModel::Unknown),
        conforms(reg, v, TypeModel::Any),
{
}

} // verus!
