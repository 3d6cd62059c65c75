//! A schema-driven query execution core for a typed, hierarchical query
//! language: a schema registry with a type-reference algebra, a value
//! validator, an order-preserving field resolution engine, and a federation
//! projection.

pub mod ast;
pub mod cache;
pub mod error;
pub mod federation;
pub mod model;
pub mod naming;
pub mod registry;
pub mod resolve;
pub mod strutil;
pub mod table;
pub mod typeref;
pub mod types;
pub mod validation;
pub mod value;
