//! Schema support: the wire prefix carried by schema-tagged payloads,
//! identifiers and registry records, and validation errors.

pub mod wire;
pub mod catalog;
pub mod validate;
pub mod error;
pub mod fields;
pub mod compat;
pub mod registry;
pub mod proto;
