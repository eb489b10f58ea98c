use dhi_core::batch::{
    validate_array_monomorphic, validate_mixed_ultra_fast, validate_object_monomorphic,
    validate_remaining_fields,
};
use dhi_core::engine::{
    contains_string, selectivity_order, validate_array_optimized, validate_boolean_array_simd,
    validate_field, validate_number_array_simd, validate_object_bool, validate_primitive_type,
    validate_string_array_simd, validate_value_bool, validate_value_internal, window_end,
};
use dhi_core::registry::Registry;
use dhi_core::schema::{FieldType, FieldValidator, Schema};
use dhi_core::Value;

fn text(s: &str) -> Value {
    Value::String(s.to_string())
}

fn number(n: f64) -> Value {
    Value::Number(n.to_bits())
}

fn object(props: Vec<(&str, Value)>) -> Value {
    Value::Object(props.into_iter().map(|(k, v)| (k.to_string(), v)).collect())
}

fn field(key: &str, field_type: FieldType, required: bool) -> FieldValidator {
    FieldValidator { key: key.to_string(), field_type, required }
}

#[test]
fn window_end_is_the_nearer_of_the_two() {
    assert_eq!(window_end(0, 20, 8), 8);
    assert_eq!(window_end(8, 20, 8), 16);
    assert_eq!(window_end(16, 20, 8), 20);
    assert_eq!(window_end(12, 20, 8), 20);
    assert_eq!(window_end(11, 20, 8), 19);
    assert_eq!(window_end(20, 20, 8), 20);
    assert_eq!(window_end(25, 20, 8), 20);
    assert_eq!(window_end(usize::MAX - 3, usize::MAX, 8), usize::MAX);
    assert_eq!(window_end(0, usize::MAX, usize::MAX), usize::MAX);
}

#[test]
fn primitive_tags() {
    let values = [text("s"), number(1.0), Value::Boolean(true), Value::Null, Value::Undefined];
    for (tag, accepted) in [(0u8, 0usize), (1, 1), (2, 2)] {
        for (i, v) in values.iter().enumerate() {
            assert_eq!(validate_primitive_type(v, tag), i == accepted);
        }
    }
    for tag in [3u8, 4, 254, 255] {
        for v in values.iter() {
            assert!(!validate_primitive_type(v, tag));
        }
    }
}

#[test]
fn primitive_array_scans() {
    // Lengths around the window of eight.
    for len in [0usize, 1, 7, 8, 9, 16, 17] {
        let all_strings: Vec<Value> = (0..len).map(|_| text("s")).collect();
        let all_numbers: Vec<Value> = (0..len).map(|i| number(i as f64)).collect();
        let all_booleans: Vec<Value> = (0..len).map(|i| Value::Boolean(i % 2 == 0)).collect();
        assert!(validate_string_array_simd(&all_strings));
        assert!(validate_number_array_simd(&all_numbers));
        assert!(validate_boolean_array_simd(&all_booleans));
        assert_eq!(validate_string_array_simd(&all_numbers), len == 0);
        assert_eq!(validate_number_array_simd(&all_booleans), len == 0);
        assert_eq!(validate_boolean_array_simd(&all_strings), len == 0);
        for bad in 0..len {
            let mut items = all_strings.clone();
            items[bad] = Value::Null;
            assert!(!validate_string_array_simd(&items));
            let mut items = all_numbers.clone();
            items[bad] = text("1");
            assert!(!validate_number_array_simd(&items));
            let mut items = all_booleans.clone();
            items[bad] = number(0.0);
            assert!(!validate_boolean_array_simd(&items));
        }
    }
}

#[test]
fn general_array_check() {
    let reg = Registry::new();
    let inner = FieldType::Array(Box::new(FieldType::Number));
    for len in [0usize, 1, 8, 9, 20] {
        let rows: Vec<Value> = (0..len).map(|i| Value::Array(vec![number(i as f64)])).collect();
        assert!(validate_array_optimized(&reg, &rows, &inner));
        for bad in 0..len {
            let mut items = rows.clone();
            items[bad] = Value::Array(vec![text("x")]);
            assert!(!validate_array_optimized(&reg, &items, &inner));
        }
    }
    let nulls = vec![Value::Null, Value::Null];
    assert!(validate_array_optimized(&reg, &nulls, &FieldType::Null));
    assert!(!validate_array_optimized(&reg, &nulls, &FieldType::String));
    assert!(validate_array_monomorphic(&reg, &Value::Array(nulls), &FieldType::Null));
    assert!(!validate_array_monomorphic(&reg, &Value::Null, &FieldType::Null));
    assert!(validate_array_monomorphic(&reg, &Value::Array(vec![text("a")]), &FieldType::String));
    assert!(!validate_array_monomorphic(&reg, &Value::Array(vec![text("a")]), &FieldType::Number));
    assert!(!validate_array_monomorphic(&reg, &object(vec![]), &FieldType::String));
}

#[test]
fn selectivity_order_puts_primitives_first() {
    let members = vec![
        FieldType::Array(Box::new(FieldType::String)),
        FieldType::Number,
        FieldType::Null,
        FieldType::String,
        FieldType::Enum(vec![]),
        FieldType::Boolean,
        FieldType::Union(vec![FieldType::String]),
    ];
    assert_eq!(selectivity_order(&members), vec![1, 3, 5, 0, 2, 4, 6]);
    assert_eq!(selectivity_order(&vec![]), Vec::<usize>::new());
    assert_eq!(selectivity_order(&vec![FieldType::Date, FieldType::Any]), vec![0, 1]);
    assert_eq!(selectivity_order(&vec![FieldType::String, FieldType::String]), vec![0, 1]);
}

#[test]
fn contains_string_is_exact() {
    let values = vec!["red".to_string(), "".to_string(), "Blue".to_string()];
    assert!(contains_string(&values, &"red".to_string()));
    assert!(contains_string(&values, &"".to_string()));
    assert!(contains_string(&values, &"Blue".to_string()));
    assert!(!contains_string(&values, &"blue".to_string()));
    assert!(!contains_string(&values, &"re".to_string()));
    assert!(!contains_string(&values, &"red ".to_string()));
    assert!(!contains_string(&vec![], &"".to_string()));
}

#[test]
fn a_reference_to_an_undefined_type_accepts_everything() {
    let mut reg = Registry::new();
    let custom = FieldType::Custom("T".to_string());
    for v in [Value::Undefined, Value::Null, number(1.0), object(vec![]), Value::Array(vec![])] {
        assert!(validate_value_bool(&reg, &v, &custom));
    }
    reg.define("T".to_string());
    assert!(validate_value_bool(&reg, &object(vec![]), &custom));
    assert!(!validate_value_bool(&reg, &number(1.0), &custom));
    assert!(!validate_value_bool(&reg, &Value::Array(vec![]), &custom));
    reg.add_field(&"T".to_string(), field("x", FieldType::String, true));
    assert!(!validate_value_bool(&reg, &object(vec![]), &custom));
    assert!(validate_value_bool(&reg, &object(vec![("x", text("s"))]), &custom));
}

#[test]
fn union_accepts_what_some_member_accepts() {
    let reg = Registry::new();
    let members = vec![FieldType::Null, FieldType::Array(Box::new(FieldType::Number)), FieldType::String];
    let values =
        [Value::Null, text("s"), Value::Array(vec![number(1.0)]), Value::Array(vec![text("s")]), number(1.0)];
    let expected = [true, true, true, false, false];
    // Whatever the order of the members.
    let orders: [[usize; 3]; 6] =
        [[0, 1, 2], [0, 2, 1], [1, 0, 2], [1, 2, 0], [2, 0, 1], [2, 1, 0]];
    for order in orders {
        let union = FieldType::Union(order.iter().map(|i| members[*i].clone()).collect());
        for (v, e) in values.iter().zip(expected) {
            assert_eq!(validate_value_bool(&reg, v, &union), e);
            let some = members.iter().any(|m| validate_value_bool(&reg, v, m));
            assert_eq!(some, e);
        }
    }
    let empty = FieldType::Union(vec![]);
    for v in values.iter() {
        assert!(!validate_value_bool(&reg, v, &empty));
    }
}

#[test]
fn field_rules() {
    let reg = Registry::new();
    let props = vec![
        ("s".to_string(), text("x")),
        ("u".to_string(), Value::Undefined),
        ("n".to_string(), Value::Null),
    ];
    assert!(validate_field(&reg, &props, &field("s", FieldType::String, true)));
    assert!(!validate_field(&reg, &props, &field("s", FieldType::Number, false)));
    assert!(!validate_field(&reg, &props, &field("missing", FieldType::String, true)));
    assert!(validate_field(&reg, &props, &field("missing", FieldType::String, false)));
    // A property that reads as undefined is absent.
    assert!(!validate_field(&reg, &props, &field("u", FieldType::Undefined, true)));
    assert!(validate_field(&reg, &props, &field("u", FieldType::String, false)));
    // Null is a value like any other.
    assert!(!validate_field(&reg, &props, &field("n", FieldType::String, false)));
    assert!(validate_field(&reg, &props, &field("n", FieldType::Null, true)));
    // Never on an optional field still lets the absent field through.
    assert!(validate_field(&reg, &props, &field("missing", FieldType::Never, false)));
    assert!(!validate_field(&reg, &props, &field("s", FieldType::Never, false)));
    // Unknown on a required field still wants the field present.
    assert!(!validate_field(&reg, &props, &field("missing", FieldType::Unknown, true)));
    assert!(validate_field(&reg, &props, &field("n", FieldType::Unknown, true)));
}

#[test]
fn the_schema_checks_agree() {
    let mut reg = Registry::new();
    reg.define("T".to_string());
    reg.add_field(&"T".to_string(), field("id", FieldType::Number, true));
    let nested = Schema { fields: vec![field("x", FieldType::String, true)] };
    let schema = Schema {
        fields: vec![
            field("a", FieldType::Array(Box::new(FieldType::Custom("T".to_string()))), false),
            field("o", FieldType::Object(nested), true),
            field("s", FieldType::String, false),
        ],
    };
    let good_o = || object(vec![("x", text("s"))]);
    let t = |id: Value| object(vec![("id", id)]);
    let cases = vec![
        (object(vec![("o", good_o())]), true),
        (object(vec![("o", good_o()), ("a", Value::Array(vec![t(number(1.0))]))]), true),
        (object(vec![("o", good_o()), ("a", Value::Array(vec![t(text("1"))]))]), false),
        (object(vec![("o", good_o()), ("a", t(number(1.0)))]), false),
        (object(vec![("o", object(vec![]))]), false),
        (object(vec![("o", Value::Undefined)]), false),
        (object(vec![]), false),
        (object(vec![("o", good_o()), ("s", number(1.0))]), false),
        (object(vec![("o", good_o()), ("s", text("1"))]), true),
        (Value::Array(vec![]), false),
        (Value::Null, false),
    ];
    for (value, expected) in cases {
        assert_eq!(validate_object_bool(&reg, &value, &schema), expected);
        assert_eq!(validate_object_monomorphic(&reg, &value, &schema), expected);
        assert_eq!(validate_value_internal(&reg, &schema, &value), expected);
        assert_eq!(validate_mixed_ultra_fast(&reg, &schema, &value), expected);
    }
}

#[test]
fn remaining_fields_skips_one_key() {
    let reg = Registry::new();
    let schema = Schema {
        fields: vec![
            field("a", FieldType::String, true),
            field("b", FieldType::Number, true),
            field("c", FieldType::Boolean, false),
        ],
    };
    let props = vec![("a".to_string(), number(1.0)), ("b".to_string(), number(2.0))];
    assert!(validate_remaining_fields(&reg, &schema, &props, &"a".to_string()));
    assert!(!validate_remaining_fields(&reg, &schema, &props, &"b".to_string()));
    assert!(!validate_remaining_fields(&reg, &schema, &props, &"c".to_string()));
    assert!(!validate_remaining_fields(&reg, &schema, &props, &"other".to_string()));
    let none: Vec<(String, Value)> = vec![];
    assert!(!validate_remaining_fields(&reg, &schema, &none, &"a".to_string()));
    assert!(validate_remaining_fields(&reg, &Schema::new(), &none, &"a".to_string()));
}
