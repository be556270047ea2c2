//! Bridges row-oriented, self-describing records to a columnar, typed table
//! layout: schema conversion, column builder construction, row appending,
//! and a reference-resolving schema registry.

pub mod schema;
pub mod datatype;
pub mod value;
pub mod column;
pub mod append;
pub mod builder;
pub mod registry;
pub mod client;
pub mod avro;
