//! A runtime structural-type validator.
//!
//! A [`DhiCore`] holds a schema, built field by field from textual type
//! descriptors, and decides whether a dynamic [`Value`] conforms to it, one
//! value at a time or in batches.
//!
//! Every contract is stated over the mathematical views of the data:
//! [`ValueModel`](crate::value::ValueModel) for values,
//! [`TypeModel`](crate::schema::TypeModel) for field types,
//! [`CoreModel`](crate::validator::CoreModel) for the validator, and the
//! predicate [`conforms`](crate::conform::conforms) that relates a value to a
//! type. The batch tiers are separate code paths, each proved to return what
//! that one predicate says.

pub mod analysis;
pub mod batch;
pub mod conform;
pub mod engine;
pub mod error;
pub mod laws;
pub mod parser;
pub mod registry;
pub mod schema;
pub mod text;
pub mod validator;
pub mod value;

pub use crate::error::SchemaError;
pub use crate::validator::DhiCore;
pub use crate::value::Value;
