use dhi_core::error::SchemaError;
use dhi_core::parser::parse_field_type;
use dhi_core::registry::Registry;
use dhi_core::schema::{FieldType, Schema};

fn parse(text: &str) -> Result<FieldType, SchemaError> {
    parse_field_type(&Registry::new(), text)
}

#[test]
fn parses_each_keyword() {
    assert_eq!(parse("string"), Ok(FieldType::String));
    assert_eq!(parse("number"), Ok(FieldType::Number));
    assert_eq!(parse("boolean"), Ok(FieldType::Boolean));
    assert_eq!(parse("object"), Ok(FieldType::Object(Schema::new())));
    assert_eq!(parse("record"), Ok(FieldType::Record(Box::new(FieldType::Any))));
    assert_eq!(parse("date"), Ok(FieldType::Date));
    assert_eq!(parse("bigint"), Ok(FieldType::BigInt));
    assert_eq!(parse("symbol"), Ok(FieldType::Symbol));
    assert_eq!(parse("undefined"), Ok(FieldType::Undefined));
    assert_eq!(parse("null"), Ok(FieldType::Null));
    assert_eq!(parse("void"), Ok(FieldType::Void));
    assert_eq!(parse("unknown"), Ok(FieldType::Unknown));
    assert_eq!(parse("never"), Ok(FieldType::Never));
}

#[test]
fn keywords_are_case_sensitive() {
    assert_eq!(parse("String"), Err(SchemaError::UnsupportedType("String".to_string())));
    assert_eq!(parse("any"), Err(SchemaError::UnsupportedType("any".to_string())));
    assert_eq!(parse(""), Err(SchemaError::UnsupportedType("".to_string())));
}

#[test]
fn parses_enum_values() {
    assert_eq!(
        parse("enum:red,green,blue"),
        Ok(FieldType::Enum(vec!["red".to_string(), "green".to_string(), "blue".to_string()]))
    );
    assert_eq!(parse("enum:"), Ok(FieldType::Enum(vec!["".to_string()])));
    assert_eq!(
        parse("enum: a ,,b"),
        Ok(FieldType::Enum(vec![" a ".to_string(), "".to_string(), "b".to_string()]))
    );
}

#[test]
fn parses_compound_forms() {
    assert_eq!(parse("Array<string>"), Ok(FieldType::Array(Box::new(FieldType::String))));
    assert_eq!(
        parse("Record<Array<number>>"),
        Ok(FieldType::Record(Box::new(FieldType::Array(Box::new(FieldType::Number)))))
    );
    assert_eq!(
        parse("Union<string, number>"),
        Ok(FieldType::Union(vec![FieldType::String, FieldType::Number]))
    );
    assert_eq!(
        parse("Union< boolean ,\tnull,Array<string>>"),
        Ok(FieldType::Union(vec![
            FieldType::Boolean,
            FieldType::Null,
            FieldType::Array(Box::new(FieldType::String)),
        ]))
    );
}

#[test]
fn reports_the_part_that_matched_no_rule() {
    assert_eq!(parse("Array<colour>"), Err(SchemaError::UnsupportedType("colour".to_string())));
    assert_eq!(
        parse("Union<string, wrong, alsowrong>"),
        Err(SchemaError::UnsupportedType("wrong".to_string()))
    );
    assert_eq!(parse("Array<>"), Err(SchemaError::UnsupportedType("".to_string())));
    assert_eq!(parse("Array<"), Err(SchemaError::UnsupportedType("Array<".to_string())));
    assert_eq!(parse("Array<string"), Err(SchemaError::UnsupportedType("Array<string".to_string())));
}

#[test]
fn a_union_may_hold_a_union() {
    assert_eq!(
        parse("Union<Union<string,number>,boolean>"),
        Ok(FieldType::Union(vec![
            FieldType::Union(vec![FieldType::String, FieldType::Number]),
            FieldType::Boolean,
        ]))
    );
    assert_eq!(
        parse("Union< Array<Union<string, number>> , Record<Union<null,boolean>>, date >"),
        Ok(FieldType::Union(vec![
            FieldType::Array(Box::new(FieldType::Union(vec![
                FieldType::String,
                FieldType::Number,
            ]))),
            FieldType::Record(Box::new(FieldType::Union(vec![
                FieldType::Null,
                FieldType::Boolean,
            ]))),
            FieldType::Date,
        ]))
    );
    assert_eq!(
        parse("Union<Union<Union<string>>>"),
        Ok(FieldType::Union(vec![FieldType::Union(vec![FieldType::Union(vec![
            FieldType::String,
        ])])]))
    );
}

#[test]
fn a_union_is_cut_only_outside_inner_brackets() {
    // The first part that matches no rule is reported, whole.
    assert_eq!(
        parse("Union<string,Union<number,wrong>,alsowrong>"),
        Err(SchemaError::UnsupportedType("wrong".to_string()))
    );
    assert_eq!(
        parse("Union<Array<a,b>,number>"),
        Err(SchemaError::UnsupportedType("a,b".to_string()))
    );
    // A closing bracket with nothing open closes nothing.
    assert_eq!(
        parse("Union<a>,string>"),
        Err(SchemaError::UnsupportedType("a>".to_string()))
    );
    // An opening bracket that is never closed keeps the rest in one piece.
    assert_eq!(
        parse("Union<string,Array<number,boolean>"),
        Err(SchemaError::UnsupportedType("Array<number,boolean".to_string()))
    );
    assert_eq!(parse("Union<>"), Err(SchemaError::UnsupportedType("".to_string())));
    assert_eq!(parse("Union<string,>"), Err(SchemaError::UnsupportedType("".to_string())));
}

#[test]
fn an_enum_inside_a_union_has_one_value() {
    assert_eq!(
        parse("Union<enum:a, number>"),
        Ok(FieldType::Union(vec![FieldType::Enum(vec!["a".to_string()]), FieldType::Number]))
    );
    assert_eq!(
        parse("Union<enum:a,b>"),
        Err(SchemaError::UnsupportedType("b".to_string()))
    );
}

#[test]
fn a_custom_name_of_compound_shape() {
    let mut reg = Registry::new();
    reg.define("Array<foo>".to_string());
    reg.define("Union<a,b>".to_string());
    reg.define("Array<string>".to_string());
    reg.define("Record<>".to_string());
    // The inside matches no rule, the whole is a defined name.
    assert_eq!(
        parse_field_type(&reg, "Array<foo>"),
        Ok(FieldType::Custom("Array<foo>".to_string()))
    );
    assert_eq!(
        parse_field_type(&reg, "Union<a,b>"),
        Ok(FieldType::Custom("Union<a,b>".to_string()))
    );
    assert_eq!(parse_field_type(&reg, "Record<>"), Ok(FieldType::Custom("Record<>".to_string())));
    assert_eq!(
        parse_field_type(&reg, "Array<Array<foo>>"),
        Ok(FieldType::Array(Box::new(FieldType::Custom("Array<foo>".to_string()))))
    );
    // The compound form comes first where it matches.
    assert_eq!(
        parse_field_type(&reg, "Array<string>"),
        Ok(FieldType::Array(Box::new(FieldType::String)))
    );
    // Not defined: the part inside that matched no rule is reported.
    assert_eq!(
        parse_field_type(&reg, "Array<bar>"),
        Err(SchemaError::UnsupportedType("bar".to_string()))
    );
    assert_eq!(
        parse_field_type(&reg, "Union<a,c>"),
        Err(SchemaError::UnsupportedType("a".to_string()))
    );
}

#[test]
fn custom_names_resolve_only_when_defined() {
    let mut reg = Registry::new();
    assert_eq!(
        parse_field_type(&reg, "Address"),
        Err(SchemaError::UnsupportedType("Address".to_string()))
    );
    reg.define("Address".to_string());
    assert_eq!(parse_field_type(&reg, "Address"), Ok(FieldType::Custom("Address".to_string())));
    assert_eq!(
        parse_field_type(&reg, "Array<Address>"),
        Ok(FieldType::Array(Box::new(FieldType::Custom("Address".to_string()))))
    );
    // A keyword wins over a custom type of the same name.
    reg.define("string".to_string());
    assert_eq!(parse_field_type(&reg, "string"), Ok(FieldType::String));
}

#[test]
fn handles_text_beyond_ascii() {
    assert_eq!(
        parse("enum:añ,日本,z"),
        Ok(FieldType::Enum(vec!["añ".to_string(), "日本".to_string(), "z".to_string()]))
    );
    assert_eq!(
        parse("Union<\u{3000}string\u{a0},number>"),
        Ok(FieldType::Union(vec![FieldType::String, FieldType::Number]))
    );
}

#[test]
fn error_messages() {
    assert_eq!(
        SchemaError::UnsupportedType("colour".to_string()).message(),
        "Unsupported type: colour"
    );
    assert_eq!(SchemaError::CustomTypeNotDefined.message(), "Custom type not defined");
    assert_eq!(SchemaError::InvalidObjectPath.message(), "Invalid object path");
}
