//! Decoded values, mirroring the variants of the schema tree.

use vstd::prelude::*;

verus! {

/// A decoded value. `Float` and `Double` carry the IEEE-754 bit pattern;
/// `Decimal` carries the unscaled integer as big-endian two's-complement bytes.
#[derive(Debug)]
pub enum Value {
    Null,
    Boolean(bool),
    Int(i32),
    Long(i64),
    Float(u32),
    Double(u64),
    Bytes(Vec<u8>),
    String(String),
    /// The declared length and the bytes.
    Fixed(usize, Vec<u8>),
    /// The symbol's ordinal and the symbol.
    Enum(u32, String),
    /// The index of the active variant and the inner value.
    Union(u32, Box<Value>),
    Array(Vec<Value>),
    /// Key and value pairs, in the decoder's order.
    Mapping(Vec<(String, Value)>),
    /// Field name and value pairs, aligned with the record's fields.
    Record(Vec<(String, Value)>),
    Date(i32),
    Decimal(Vec<u8>),
    TimeMillis(i32),
    TimeMicros(i64),
    TimestampMillis(i64),
    TimestampMicros(i64),
    TimestampNanos(i64),
    LocalTimestampMillis(i64),
    LocalTimestampMicros(i64),
    LocalTimestampNanos(i64),
    /// The sixteen raw bytes.
    Uuid(Vec<u8>),
}

} // verus!
