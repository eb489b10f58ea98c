//! Dynamic host values and their mathematical model.

use vstd::prelude::*;

verus! {

/// The mathematical model of a dynamic value.
pub enum ValueModel {
    Undefined,
    Null,
    Boolean(bool),
    /// A number, held as the bit pattern of its 64-bit floating-point form.
    Number(u64),
    String(Seq<char>),
    BigInt,
    Symbol,
    Date,
    Function,
    Array(Seq<ValueModel>),
    /// A plain object: its properties in order, each a key and a value.
    Object(Seq<(Seq<char>, ValueModel)>),
}

/// A dynamic value as the host hands it over.
///
/// `BigInt`, `Symbol`, `Date` and `Function` carry no payload: validation
/// only ever looks at their kind. A number is held as the bit pattern of its
/// 64-bit floating-point form. An object is a list of properties; where a
/// key occurs twice, the first entry is the one a lookup finds.
#[derive(Debug, PartialEq, Eq)]
pub enum Value {
    Undefined,
    Null,
    Boolean(bool),
    Number(u64),
    String(String),
    BigInt,
    Symbol,
    Date,
    Function,
    Array(Vec<Value>),
    Object(Vec<(String, Value)>),
}

/// The model of a value: strings become character sequences, vectors become
/// sequences, element by element.
pub open spec fn value_model(v: Value) -> ValueModel
    decreases v,
{
    match v {
        Value::Undefined => ValueModel::Undefined,
        Value::Null => ValueModel::Null,
        Value::Boolean(b) => ValueModel::Boolean(b),
        Value::Number(bits) => ValueModel::Number(bits),
        Value::String(s) => ValueModel::String(s@),
        Value::BigInt => ValueModel::BigInt,
        Value::Symbol => ValueModel::Symbol,
        Value::Date => ValueModel::Date,
        Value::Function => ValueModel::Function,
        Value::Array(items) => ValueModel::Array(values_model(items@)),
        Value::Object(props) => ValueModel::Object(props_model(props@)),
    }
}

/// The model of a list of values.
pub open spec fn values_model(items: Seq<Value>) -> Seq<ValueModel>
    decreases items,
{
    Seq::new(
        items.len(),
        |i: int|
            if 0 <= i < items.len() {
                value_model(items[i])
            } else {
                ValueModel::Undefined
            },
    )
}

/// The model of a list of properties.
pub open spec fn props_model(props: Seq<(String, Value)>) -> Seq<(Seq<char>, ValueModel)>
    decreases props,
{
    Seq::new(
        props.len(),
        |i: int|
            if 0 <= i < props.len() {
                (props[i].0@, value_model(props[i].1))
            } else {
                (Seq::empty(), ValueModel::Undefined)
            },
    )
}

impl View for Value {
    type V = ValueModel;

    open spec fn view(&self) -> ValueModel {
        value_model(*self)
    }
}

/// The index of the first property with the given key, or the length of the
/// list where no property has it.
pub open spec fn position(props: Seq<(Seq<char>, ValueModel)>, key: Seq<char>) -> int
    decreases props.len(),
{
    if props.len() == 0 {
        0
    } else if props[0].0 == key {
        0
    } else {
        1 + position(props.drop_first(), key)
    }
}

/// What reading a property yields: the value of the first entry with that
/// key, and `Undefined` where there is none.
pub open spec fn lookup(props: Seq<(Seq<char>, ValueModel)>, key: Seq<char>) -> ValueModel {
    let p = position(props, key);
    if p < props.len() {
        props[p].1
    } else {
        ValueModel::Undefined
    }
}

/// The property list with every entry of the given key taken out.
pub open spec fn without(props: Seq<(Seq<char>, ValueModel)>, key: Seq<char>) -> Seq<
    (Seq<char>, ValueModel),
>
    decreases props.len(),
{
    if props.len() == 0 {
        props
    } else if props[0].0 == key {
        without(props.drop_first(), key)
    } else {
        seq![props[0]] + without(props.drop_first(), key)
    }
}

/// The property list with the given key bound to `x`: the first entry of
/// that key is overwritten, or a new entry is appended.
pub open spec fn with_property(
    props: Seq<(Seq<char>, ValueModel)>,
    key: Seq<char>,
    x: ValueModel,
) -> Seq<(Seq<char>, ValueModel)> {
    let p = position(props, key);
    if p < props.len() {
        props.update(p, (key, x))
    } else {
        props.push((key, x))
    }
}

/// `position` returns the least index that holds the key.
pub proof fn lemma_position(props: Seq<(Seq<char>, ValueModel)>, key: Seq<char>)
    ensures
        0 <= position(props, key) <= props.len(),
        position(props, key) < props.len() ==> props[position(props, key)].0 == key,
        forall|j: int| 0 <= j < position(props, key) ==> (#[trigger] props[j]).0 != key,
    decreases props.len(),
{
    if props.len() != 0 && props[0].0 != key {
        let rest = props.drop_first();
        lemma_position(rest, key);
        assert forall|j: int| 0 <= j < position(props, key) implies (#[trigger] props[j]).0
            != key by {
            if j > 0 {
                assert(props[j] == rest[j - 1]);
            }
        }
    }
}

/// Any index that holds the key, with no earlier one doing so, is the
/// position of the key.
pub proof fn lemma_position_is(props: Seq<(Seq<char>, ValueModel)>, key: Seq<char>, p: int)
    requires
        0 <= p <= props.len(),
        p < props.len() ==> props[p].0 == key,
        forall|j: int| 0 <= j < p ==> (#[trigger] props[j]).0 != key,
    ensures
        position(props, key) == p,
{
    lemma_position(props, key);
}

/// Once a key has been taken out, reading it yields `undefined`, and
/// reading any other key yields what it did before.
pub proof fn lemma_without(props: Seq<(Seq<char>, ValueModel)>, key: Seq<char>, other: Seq<char>)
    ensures
        lookup(without(props, key), key) is Undefined,
        other != key ==> lookup(without(props, key), other) == lookup(props, other),
    decreases props.len(),
{
    if props.len() != 0 {
        let rest = props.drop_first();
        lemma_without(rest, key, other);
        lemma_position(without(rest, key), key);
        lemma_position(without(rest, key), other);
        lemma_position(rest, other);
        if props[0].0 != key {
            let kept = seq![props[0]] + without(rest, key);
            assert(kept.drop_first() =~= without(rest, key));
        }
    }
}

/// Once a key has been bound to a value, reading it yields that value, and
/// reading any other key yields what it did before.
pub proof fn lemma_with_property(
    props: Seq<(Seq<char>, ValueModel)>,
    key: Seq<char>,
    x: ValueModel,
    other: Seq<char>,
)
    ensures
        lookup(with_property(props, key, x), key) == x,
        other != key ==> lookup(with_property(props, key, x), other) == lookup(props, other),
{
    lemma_position(props, key);
    lemma_position(props, other);
    let p = position(props, key);
    let q = position(props, other);
    let changed = with_property(props, key, x);
    lemma_position_is(changed, key, p);
    if other != key {
        if q < props.len() {
            lemma_position_is(changed, other, q);
        } else {
            lemma_position_is(changed, other, changed.len() as int);
        }
    }
}

impl Clone for Value {
    /// A deep copy: the result has the same model.
    fn clone(&self) -> (r: Self)
        ensures
            r@ == self@,
        decreases self,
    {
        match self {
            Value::Undefined => Value::Undefined,
            Value::Null => Value::Null,
            Value::Boolean(b) => Value::Boolean(*b),
            Value::Number(bits) => Value::Number(*bits),
            Value::String(s) => Value::String(s.clone()),
            Value::BigInt => Value::BigInt,
            Value::Symbol => Value::Symbol,
            Value::Date => Value::Date,
            Value::Function => Value::Function,
            Value::Array(items) => {
                let mut out: Vec<Value> = Vec::new();
                let mut i: usize = 0;
                while i < items.len()
                    invariant
                        i <= items.len(),
                        out.len() == i,
                        forall|j: int| 0 <= j < i ==> (#[trigger] out[j])@ == items[j]@,
                        forall|j: int|
                            0 <= j < items.len() ==> decreases_to!(self => #[trigger] items[j]),
                    decreases items.len() - i,
                {
                    out.push(items[i].clone());
                    i += 1;
                }
                assert(values_model(out@) =~= values_model(items@));
                Value::Array(out)
            },
            Value::Object(props) => {
                let mut out: Vec<(String, Value)> = Vec::new();
                let mut i: usize = 0;
                while i < props.len()
                    invariant
                        i <= props.len(),
                        out.len() == i,
                        forall|j: int|
                            0 <= j < i ==> (#[trigger] out[j]).0@ == props[j].0@ && out[j].1@
                                == props[j].1@,
                        forall|j: int|
                            0 <= j < props.len() ==> decreases_to!(self => (#[trigger] props[j]).1),
                    decreases props.len() - i,
                {
                    out.push((props[i].0.clone(), props[i].1.clone()));
                    i += 1;
                }
                assert(props_model(out@) =~= props_model(props@));
                Value::Object(out)
            },
        }
    }
}

impl Value {
    /// Whether the value is a string.
    pub fn is_string(&self) -> (r: bool)
        ensures
            r == (self@ is String),
    {
        match self {
            Value::String(_) => true,
            _ => false,
        }
    }

    /// Whether the value is a number.
    pub fn is_number(&self) -> (r: bool)
        ensures
            r == (self@ is Number),
    {
        match self {
            Value::Number(_) => true,
            _ => false,
        }
    }

    /// Whether the value is a boolean.
    pub fn is_boolean(&self) -> (r: bool)
        ensures
            r == (self@ is Boolean),
    {
        match self {
            Value::Boolean(_) => true,
            _ => false,
        }
    }

    /// Whether the value is `undefined`, which is also what reading an
    /// absent property yields.
    pub fn is_undefined(&self) -> (r: bool)
        ensures
            r == (self@ is Undefined),
    {
        match self {
            Value::Undefined => true,
            _ => false,
        }
    }
}

/// Reads a property: the value of the first entry with the given key.
pub fn get_property<'a>(props: &'a Vec<(String, Value)>, key: &String) -> (r: Option<&'a Value>)
    ensures
        match r {
            Some(x) => {
                let p = position(props_model(props@), key@);
                &&& 0 <= p < props.len()
                &&& *x == props[p].1
                &&& x@ == lookup(props_model(props@), key@)
            },
            None => {
                &&& position(props_model(props@), key@) == props.len()
                &&& lookup(props_model(props@), key@) is Undefined
            },
        },
{
    let mut i: usize = 0;
    while i < props.len()
        invariant
            i <= props.len(),
            forall|j: int| 0 <= j < i ==> (#[trigger] props_model(props@)[j]).0 != key@,
        decreases props.len() - i,
    {
        if props[i].0 == *key {
            proof {
                lemma_position_is(props_model(props@), key@, i as int);
            }
            return Some(&props[i].1);
        }
        i += 1;
    }
    proof {
        lemma_position_is(props_model(props@), key@, props.len() as int);
    }
    None
}

} // verus!
