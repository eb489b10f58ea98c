//! The errors of schema construction.

use vstd::prelude::*;
use vstd::string::*;

verus! {

/// The mathematical model of a schema-construction error.
pub enum SchemaErrorModel {
    UnsupportedType(Seq<char>),
    CustomTypeNotDefined,
    InvalidObjectPath,
}

/// Why a schema-construction call was refused. A refused call leaves the
/// schema as it was.
#[derive(Debug, PartialEq, Eq)]
pub enum SchemaError {
    /// No rule of the descriptor grammar matches the descriptor held here.
    UnsupportedType(String),
    /// The custom type that a field was to be added to is not defined.
    CustomTypeNotDefined,
    /// A segment of an object path names no field, or a field that is no
    /// object.
    InvalidObjectPath,
}

impl View for SchemaError {
    type V = SchemaErrorModel;

    open spec fn view(&self) -> SchemaErrorModel {
        match self {
            SchemaError::UnsupportedType(descriptor) => SchemaErrorModel::UnsupportedType(
                descriptor@,
            ),
            SchemaError::CustomTypeNotDefined => SchemaErrorModel::CustomTypeNotDefined,
            SchemaError::InvalidObjectPath => SchemaErrorModel::InvalidObjectPath,
        }
    }
}

/// The text that describes an error.
pub open spec fn message_of(e: SchemaErrorModel) -> Seq<char> {
    match e {
        SchemaErrorModel::UnsupportedType(descriptor) => "Unsupported type: "@ + descriptor,
        SchemaErrorModel::CustomTypeNotDefined => "Custom type not defined"@,
        SchemaErrorModel::InvalidObjectPath => "Invalid object path"@,
    }
}

impl SchemaError {
    /// The text that describes the error.
    pub fn message(&self) -> (r: String)
        ensures
            r@ == message_of(self@),
    {
        match self {
            SchemaError::UnsupportedType(descriptor) => String::from_str(
                "Unsupported type: ",
            ).concat(descriptor.as_str()),
            SchemaError::CustomTypeNotDefined => String::from_str("Custom type not defined"),
            SchemaError::InvalidObjectPath => String::from_str("Invalid object path"),
        }
    }
}

} // verus!
