use dhi_core::analysis::Tier;
use dhi_core::{DhiCore, Value};

fn text(s: &str) -> Value {
    Value::String(s.to_string())
}

fn number(n: f64) -> Value {
    Value::Number(n.to_bits())
}

fn object(props: Vec<(&str, Value)>) -> Value {
    Value::Object(props.into_iter().map(|(k, v)| (k.to_string(), v)).collect())
}

fn strings(items: &[&str]) -> Value {
    Value::Array(items.iter().map(|s| text(s)).collect())
}

/// Values of every kind, none of them an object with fields of interest.
fn odd_items() -> Vec<Value> {
    vec![
        Value::Undefined,
        Value::Null,
        Value::Boolean(true),
        number(1.5),
        text("text"),
        Value::BigInt,
        Value::Symbol,
        Value::Date,
        Value::Function,
        Value::Array(vec![]),
        object(vec![]),
    ]
}

/// Asserts that the batch agrees with the single validation item by item,
/// for the whole batch and for every shorter batch around the window sizes,
/// and returns the verdicts.
fn agree(core: &DhiCore, items: Vec<Value>) -> Vec<bool> {
    let single: Vec<bool> = items.iter().map(|item| core.validate(item)).collect();
    let batch = core.validate_batch(&items);
    assert_eq!(batch, single);
    for len in [0usize, 1, 7, 8, 9, 16, 31, 32, 33, 64, 65] {
        if len <= items.len() {
            let part: Vec<Value> = items[..len].to_vec();
            assert_eq!(core.validate_batch(&part), single[..len].to_vec());
        }
    }
    batch
}

/// Repeats the items until there are at least `n` of them.
fn at_least(n: usize, items: Vec<Value>) -> Vec<Value> {
    let mut out = Vec::new();
    while out.len() < n {
        out.extend(items.iter().cloned());
    }
    out
}

fn strict(fields: &[(&str, &str)]) -> DhiCore {
    let mut core = DhiCore::new();
    for (name, descriptor) in fields {
        core.add_field(name.to_string(), descriptor.to_string(), true).unwrap();
    }
    assert_eq!(core.tier(), Tier::StrictPrimitive);
    core
}

#[test]
fn empty_batch() {
    for core in [
        DhiCore::new(),
        strict(&[("a", "string")]),
        strict(&[("a", "string"), ("b", "number"), ("c", "boolean"), ("d", "string"), ("e", "number")]),
    ] {
        assert_eq!(core.validate_batch(&vec![]), Vec::<bool>::new());
    }
}

#[test]
fn strict_tier_without_fields() {
    let core = DhiCore::new();
    let verdicts = agree(&core, odd_items());
    assert_eq!(
        verdicts,
        vec![false, false, false, false, false, false, false, false, false, false, true]
    );
}

#[test]
fn strict_tier_one_field() {
    for (descriptor, good) in
        [("string", text("x")), ("number", number(0.0)), ("boolean", Value::Boolean(false))]
    {
        let core = strict(&[("a", descriptor)]);
        let mut items = odd_items();
        items.push(object(vec![("a", good.clone())]));
        items.push(object(vec![("a", Value::Null)]));
        items.push(object(vec![("a", Value::Undefined)]));
        items.push(object(vec![("b", good.clone())]));
        items.push(object(vec![("b", text("x")), ("a", good)]));
        let verdicts = agree(&core, at_least(70, items));
        assert_eq!(
            verdicts[..16],
            [
                false, false, false, false, false, false, false, false, false, false, false, true,
                false, false, false, true
            ]
        );
    }
}

#[test]
fn strict_tier_two_three_four_and_more_fields() {
    let names = ["a", "b", "c", "d", "e", "f"];
    let kinds = ["string", "number", "boolean"];
    let good = |i: usize| match i % 3 {
        0 => text("s"),
        1 => number(i as f64),
        _ => Value::Boolean(true),
    };
    for count in 2..=6 {
        let fields: Vec<(&str, &str)> = (0..count).map(|i| (names[i], kinds[i % 3])).collect();
        let core = strict(&fields);
        let all: Vec<(&str, Value)> = (0..count).map(|i| (names[i], good(i))).collect();
        let mut items = odd_items();
        items.push(object(all.clone()));
        // One field missing, one field of the wrong type, one field undefined.
        for i in 0..count {
            let mut missing = all.clone();
            missing.remove(i);
            items.push(object(missing));
            let mut wrong = all.clone();
            wrong[i].1 = good(i + 1);
            items.push(object(wrong));
            let mut undefined = all.clone();
            undefined[i].1 = Value::Undefined;
            items.push(object(undefined));
        }
        let mut reversed = all.clone();
        reversed.reverse();
        items.push(object(reversed));
        let expected: Vec<bool> = (0..items.len())
            .map(|k| k == odd_items().len() || k == items.len() - 1)
            .collect();
        assert_eq!(agree(&core, items.clone()), expected);
        agree(&core, at_least(70, items));
    }
}

#[test]
fn union_tier() {
    let mut core = DhiCore::new();
    core.add_field("name".to_string(), "string".to_string(), true).unwrap();
    core.add_field("id".to_string(), "Union<Array<string>, number, enum:a, string>".to_string(), true)
        .unwrap();
    core.add_field("note".to_string(), "Union<null, boolean>".to_string(), false).unwrap();
    assert_eq!(core.tier(), Tier::Union);
    let mut items = odd_items();
    items.push(object(vec![("name", text("n")), ("id", number(1.0))]));
    items.push(object(vec![("name", text("n")), ("id", text("anything"))]));
    items.push(object(vec![("name", text("n")), ("id", strings(&["x", "y"]))]));
    items.push(object(vec![("name", text("n")), ("id", Value::Boolean(true))]));
    items.push(object(vec![("name", text("n")), ("id", Value::Array(vec![number(1.0)]))]));
    items.push(object(vec![("name", text("n"))]));
    items.push(object(vec![("id", number(1.0))]));
    items.push(object(vec![("name", text("n")), ("id", number(1.0)), ("note", Value::Null)]));
    items.push(object(vec![("name", text("n")), ("id", number(1.0)), ("note", number(0.0))]));
    let verdicts = agree(&core, items.clone());
    assert_eq!(
        verdicts[odd_items().len()..],
        [true, true, true, false, false, false, false, true, false]
    );
    agree(&core, at_least(70, items));
}

#[test]
fn mixed_tier() {
    let mut core = DhiCore::new();
    core.add_field("tags".to_string(), "Array<string>".to_string(), true).unwrap();
    core.add_field("sizes".to_string(), "Array<number>".to_string(), false).unwrap();
    core.add_field("flags".to_string(), "Array<boolean>".to_string(), false).unwrap();
    core.add_field("rows".to_string(), "Array<Array<string>>".to_string(), false).unwrap();
    core.add_object_field("settings".to_string(), true).unwrap();
    core.add_nested_field("settings".to_string(), "version".to_string(), "string".to_string(), true)
        .unwrap();
    core.add_field("count".to_string(), "number".to_string(), false).unwrap();
    assert_eq!(core.tier(), Tier::Mixed);
    let settings = || object(vec![("version", text("1"))]);
    let mut items = odd_items();
    items.push(object(vec![("tags", strings(&[])), ("settings", settings())]));
    items.push(object(vec![("tags", strings(&["a"])), ("settings", object(vec![]))]));
    items.push(object(vec![("tags", text("a")), ("settings", settings())]));
    items.push(object(vec![
        ("tags", strings(&["a", "b"])),
        ("settings", settings()),
        ("sizes", Value::Array(vec![number(1.0), number(2.0)])),
        ("flags", Value::Array(vec![Value::Boolean(true)])),
        ("rows", Value::Array(vec![strings(&["x"]), strings(&[])])),
        ("count", number(3.0)),
    ]));
    items.push(object(vec![
        ("tags", strings(&["a"])),
        ("settings", settings()),
        ("sizes", Value::Array(vec![number(1.0), text("2")])),
    ]));
    items.push(object(vec![
        ("tags", strings(&["a"])),
        ("settings", settings()),
        ("flags", Value::Array(vec![Value::Null])),
    ]));
    items.push(object(vec![
        ("tags", strings(&["a"])),
        ("settings", settings()),
        ("rows", Value::Array(vec![strings(&["x"]), text("y")])),
    ]));
    items.push(object(vec![
        ("tags", strings(&["a"])),
        ("settings", settings()),
        ("count", text("3")),
    ]));
    let verdicts = agree(&core, items.clone());
    assert_eq!(
        verdicts[odd_items().len()..],
        [true, false, false, true, false, false, false, false]
    );
    agree(&core, at_least(70, items));
}

#[test]
fn vectorized_simple_tier() {
    let mut core = DhiCore::new();
    core.add_field("name".to_string(), "string".to_string(), true).unwrap();
    core.add_field("nickname".to_string(), "string".to_string(), false).unwrap();
    core.add_field("kind".to_string(), "enum:a,b".to_string(), false).unwrap();
    core.add_field("extra".to_string(), "Record<number>".to_string(), false).unwrap();
    assert_eq!(core.tier(), Tier::VectorizedSimple);
    let mut items = odd_items();
    items.push(object(vec![("name", text("n"))]));
    items.push(object(vec![("nickname", text("n"))]));
    items.push(object(vec![("name", text("n")), ("nickname", number(7.0))]));
    items.push(object(vec![("name", text("n")), ("kind", text("b"))]));
    items.push(object(vec![("name", text("n")), ("kind", text("c"))]));
    items.push(object(vec![("name", text("n")), ("extra", object(vec![("k", number(1.0))]))]));
    items.push(object(vec![("name", text("n")), ("extra", object(vec![("k", text("1"))]))]));
    let verdicts = agree(&core, items.clone());
    assert_eq!(
        verdicts[odd_items().len()..],
        [true, false, false, true, false, true, false]
    );
    // More items than one window of this tier holds.
    let many = at_least(32768 + 40, items);
    let verdicts = agree(&core, many);
    assert!(verdicts.len() >= 32768 + 40);
    assert_eq!(verdicts.iter().filter(|v| **v).count(), 3 * (verdicts.len() / 18));
}

fn bitmap_schema(fields: usize) -> DhiCore {
    let mut core = DhiCore::new();
    core.add_object_field("nested".to_string(), false).unwrap();
    core.add_nested_field("nested".to_string(), "x".to_string(), "number".to_string(), true)
        .unwrap();
    for i in 1..fields {
        // Every third field is optional.
        core.add_field(format!("f{}", i), "string".to_string(), i % 3 != 0).unwrap();
    }
    core
}

fn bitmap_item(fields: usize, skip: Option<usize>, wrong: Option<usize>) -> Value {
    let mut props: Vec<(String, Value)> = Vec::new();
    for i in (1..fields).rev() {
        if Some(i) == skip {
            continue;
        }
        let v = if Some(i) == wrong { number(1.0) } else { text("s") };
        props.push((format!("f{}", i), v));
    }
    Value::Object(props)
}

#[test]
fn presence_bitmap_tier() {
    for fields in [1usize, 2, 5, 31, 32] {
        let core = bitmap_schema(fields);
        assert_eq!(core.tier(), Tier::PresenceBitmap);
        let mut items = odd_items();
        let mut expected: Vec<bool> = items.iter().map(|v| fields == 1 && *v == object(vec![])).collect();
        items.push(bitmap_item(fields, None, None));
        expected.push(true);
        for i in 1..fields {
            items.push(bitmap_item(fields, Some(i), None));
            expected.push(i % 3 == 0);
            items.push(bitmap_item(fields, None, Some(i)));
            expected.push(false);
        }
        items.push(object(vec![("nested", object(vec![]))]));
        expected.push(false);
        items.push(object(vec![("nested", object(vec![("x", number(1.0))]))]));
        expected.push(fields == 1);
        assert_eq!(agree(&core, items), expected);
    }
}

#[test]
fn generic_recursive_tier() {
    for fields in [33usize, 40] {
        let core = bitmap_schema(fields);
        assert_eq!(core.tier(), Tier::GenericRecursive);
        let mut items = odd_items();
        let mut expected: Vec<bool> = items.iter().map(|_| false).collect();
        items.push(bitmap_item(fields, None, None));
        expected.push(true);
        for i in 1..fields {
            items.push(bitmap_item(fields, Some(i), None));
            expected.push(i % 3 == 0);
            items.push(bitmap_item(fields, None, Some(i)));
            expected.push(false);
        }
        assert_eq!(agree(&core, items), expected);
    }
}

#[test]
fn tiers_follow_the_schema() {
    let mut core = DhiCore::new();
    assert_eq!(core.tier(), Tier::StrictPrimitive);
    core.add_field("a".to_string(), "string".to_string(), true).unwrap();
    assert_eq!(core.tier(), Tier::StrictPrimitive);
    core.add_field("b".to_string(), "date".to_string(), true).unwrap();
    assert_eq!(core.tier(), Tier::VectorizedSimple);
    core.define_custom_type("T".to_string()).unwrap();
    core.add_field("c".to_string(), "T".to_string(), true).unwrap();
    assert_eq!(core.tier(), Tier::PresenceBitmap);
    core.add_field("d".to_string(), "Array<T>".to_string(), true).unwrap();
    assert_eq!(core.tier(), Tier::PresenceBitmap);
    core.add_object_field("e".to_string(), true).unwrap();
    assert_eq!(core.tier(), Tier::Mixed);
    core.add_field("f".to_string(), "Union<string>".to_string(), true).unwrap();
    assert_eq!(core.tier(), Tier::Union);
    // Replacing the union and the object brings the earlier tiers back.
    core.add_field("f".to_string(), "string".to_string(), true).unwrap();
    assert_eq!(core.tier(), Tier::Mixed);
    core.add_field("e".to_string(), "string".to_string(), true).unwrap();
    assert_eq!(core.tier(), Tier::PresenceBitmap);
}
