//! The columnar type tree and the conversion of record schemas into it.

use vstd::prelude::*;
use crate::schema::{Name, RecordField, Schema, nullable_spec, optional_spec, is_nullable, is_optional};

verus! {

#[derive(Debug, Clone, PartialEq)]
pub enum TimeUnit {
    Second,
    Millisecond,
    Microsecond,
    Nanosecond,
}

/// A columnar data type.
#[derive(Debug)]
pub enum DataType {
    Null,
    Boolean,
    Int32,
    Int64,
    Float32,
    Float64,
    Utf8,
    Binary,
    FixedSizeBinary(i32),
    Date32,
    Time32(TimeUnit),
    Time64(TimeUnit),
    /// The unit, and the UTC offset of a wall-clock timestamp.
    Timestamp(TimeUnit, Option<String>),
    Decimal128(u8, i8),
    List(Box<Field>),
    /// The entries field (a struct of keys and values), and whether keys are sorted.
    Mapping(Box<Field>, bool),
    Struct(Vec<Field>),
}

/// A named, typed, nullable column.
#[derive(Debug)]
pub struct Field {
    pub name: String,
    pub data_type: DataType,
    pub nullable: bool,
}

/// A table schema: an ordered sequence of fields.
#[derive(Debug)]
pub struct TableSchema {
    pub fields: Vec<Field>,
}

/// Why a record schema has no columnar counterpart.
#[derive(Debug, Clone, PartialEq)]
pub enum ConvertError {
    /// A union other than `[Null, T]`.
    UnsupportedUnion,
    /// A named reference that was not expanded beforehand.
    UnresolvedRef(Name),
    /// A variant with no columnar counterpart.
    UnsupportedSchema,
    /// The top-level schema is not a record.
    RootMustBeRecord,
}

/// The mathematical value of a `DataType`.
pub enum DType {
    Null,
    Boolean,
    Int32,
    Int64,
    Float32,
    Float64,
    Utf8,
    Binary,
    FixedSizeBinary(i32),
    Date32,
    Time32(TimeUnit),
    Time64(TimeUnit),
    Timestamp(TimeUnit, Option<Seq<char>>),
    Decimal128(u8, i8),
    List(Box<FieldView>),
    Mapping(Box<FieldView>, bool),
    Struct(Seq<FieldView>),
}

/// The mathematical value of a `Field`.
pub struct FieldView {
    pub name: Seq<char>,
    pub data_type: DType,
    pub nullable: bool,
}

pub open spec fn tz_view(tz: Option<String>) -> Option<Seq<char>> {
    match tz {
        Some(s) => Some(s@),
        None => None,
    }
}

pub open spec fn dtype_of(d: DataType) -> DType
    decreases d,
{
    match d {
        DataType::Null => DType::Null,
        DataType::Boolean => DType::Boolean,
        DataType::Int32 => DType::Int32,
        DataType::Int64 => DType::Int64,
        DataType::Float32 => DType::Float32,
        DataType::Float64 => DType::Float64,
        DataType::Utf8 => DType::Utf8,
        DataType::Binary => DType::Binary,
        DataType::FixedSizeBinary(n) => DType::FixedSizeBinary(n),
        DataType::Date32 => DType::Date32,
        DataType::Time32(u) => DType::Time32(u),
        DataType::Time64(u) => DType::Time64(u),
        DataType::Timestamp(u, tz) => DType::Timestamp(u, tz_view(tz)),
        DataType::Decimal128(p, s) => DType::Decimal128(p, s),
        DataType::List(f) => DType::List(Box::new(field_of(*f))),
        DataType::Mapping(f, sorted) => DType::Mapping(Box::new(field_of(*f)), sorted),
        DataType::Struct(fs) => DType::Struct(fields_of(fs@)),
    }
}

pub open spec fn field_of(f: Field) -> FieldView
    decreases f,
{
    FieldView { name: f.name@, data_type: dtype_of(f.data_type), nullable: f.nullable }
}

pub open spec fn fields_of(fs: Seq<Field>) -> Seq<FieldView>
    decreases fs,
{
    if fs.len() == 0 {
        Seq::empty()
    } else {
        fields_of(fs.drop_last()).push(field_of(fs.last()))
    }
}

impl View for DataType {
    type V = DType;

    open spec fn view(&self) -> DType {
        dtype_of(*self)
    }
}

impl View for Field {
    type V = FieldView;

    open spec fn view(&self) -> FieldView {
        field_of(*self)
    }
}

/// The columnar type of a schema position; `tz` is the UTC offset given to
/// every wall-clock timestamp.
pub open spec fn datatype_spec(s: Schema, tz: Seq<char>) -> Result<DType, ConvertError>
    decreases s,
{
    match s {
        Schema::Null => Ok(DType::Null),
        Schema::Boolean => Ok(DType::Boolean),
        Schema::Int => Ok(DType::Int32),
        Schema::Long => Ok(DType::Int64),
        Schema::Float => Ok(DType::Float32),
        Schema::Double => Ok(DType::Float64),
        Schema::Bytes => Ok(DType::Binary),
        Schema::String => Ok(DType::Utf8),
        Schema::Uuid => Ok(DType::FixedSizeBinary(16)),
        Schema::TimeMillis => Ok(DType::Time32(TimeUnit::Millisecond)),
        Schema::TimeMicros => Ok(DType::Time64(TimeUnit::Microsecond)),
        Schema::TimestampMillis => Ok(DType::Timestamp(TimeUnit::Millisecond, None)),
        Schema::TimestampMicros => Ok(DType::Timestamp(TimeUnit::Microsecond, None)),
        Schema::TimestampNanos => Ok(DType::Timestamp(TimeUnit::Nanosecond, None)),
        Schema::LocalTimestampMillis => Ok(DType::Timestamp(TimeUnit::Millisecond, Some(tz))),
        Schema::LocalTimestampMicros => Ok(DType::Timestamp(TimeUnit::Microsecond, Some(tz))),
        Schema::LocalTimestampNanos => Ok(DType::Timestamp(TimeUnit::Nanosecond, Some(tz))),
        Schema::Date => Ok(DType::Date32),
        Schema::Enum { .. } => Ok(DType::Utf8),
        Schema::Decimal { precision, scale } => Ok(DType::Decimal128(precision as u8, scale as i8)),
        Schema::Fixed { size, .. } => Ok(DType::FixedSizeBinary(size as i32)),
        Schema::BigDecimal => Ok(DType::Binary),
        Schema::Array(items) => match datatype_spec(*items, tz) {
            Ok(d) => Ok(DType::List(Box::new(FieldView { name: "item"@, data_type: d, nullable: nullable_spec(*items) }))),
            Err(e) => Err(e),
        },
        Schema::Mapping(values) => match datatype_spec(*values, tz) {
            Ok(d) => Ok(DType::Mapping(Box::new(entries_field(d, nullable_spec(*values))), false)),
            Err(e) => Err(e),
        },
        Schema::Union(vs) => if optional_spec(vs@) {
            datatype_spec(vs@[1], tz)
        } else {
            Err(ConvertError::UnsupportedUnion)
        },
        Schema::Record { fields, .. } => match fields_spec(fields@, tz) {
            Ok(fs) => Ok(DType::Struct(fs)),
            Err(e) => Err(e),
        },
        Schema::Ref(n) => Err(ConvertError::UnresolvedRef(n)),
        Schema::Duration => Err(ConvertError::UnsupportedSchema),
    }
}

/// The entries of a map column: non-null string keys and the values.
pub open spec fn entries_field(values: DType, nullable: bool) -> FieldView {
    FieldView {
        name: "entries"@,
        data_type: DType::Struct(seq![
            FieldView { name: "keys"@, data_type: DType::Utf8, nullable: false },
            FieldView { name: "values"@, data_type: values, nullable: nullable },
        ]),
        nullable: false,
    }
}

pub open spec fn field_spec(f: RecordField, tz: Seq<char>) -> Result<FieldView, ConvertError>
    decreases f,
{
    match datatype_spec(f.schema, tz) {
        Ok(d) => Ok(FieldView { name: f.name@, data_type: d, nullable: nullable_spec(f.schema) }),
        Err(e) => Err(e),
    }
}

/// The columns of a record's fields, positionally; the first failing field decides the error.
pub open spec fn fields_spec(fs: Seq<RecordField>, tz: Seq<char>) -> Result<Seq<FieldView>, ConvertError>
    decreases fs,
{
    if fs.len() == 0 {
        Ok(Seq::empty())
    } else {
        match fields_spec(fs.drop_last(), tz) {
            Err(e) => Err(e),
            Ok(prev) => match field_spec(fs.last(), tz) {
                Ok(f) => Ok(prev.push(f)),
                Err(e) => Err(e),
            },
        }
    }
}

/// The columns of a table: a record's fields converted positionally.
pub open spec fn schema_spec(s: Schema, tz: Seq<char>) -> Result<Seq<FieldView>, ConvertError> {
    match s {
        Schema::Record { fields, .. } => fields_spec(fields@, tz),
        _ => Err(ConvertError::RootMustBeRecord),
    }
}

pub open spec fn datatype_result(r: Result<DataType, ConvertError>) -> Result<DType, ConvertError> {
    match r {
        Ok(d) => Ok(d@),
        Err(e) => Err(e),
    }
}

pub open spec fn fields_result(r: Result<Vec<Field>, ConvertError>) -> Result<Seq<FieldView>, ConvertError> {
    match r {
        Ok(fs) => Ok(fields_of(fs@)),
        Err(e) => Err(e),
    }
}

pub open spec fn table_result(r: Result<TableSchema, ConvertError>) -> Result<Seq<FieldView>, ConvertError> {
    match r {
        Ok(t) => Ok(fields_of(t.fields@)),
        Err(e) => Err(e),
    }
}

pub(crate) proof fn lemma_fields_of_push(fs: Seq<Field>, f: Field)
    ensures
        fields_of(fs.push(f)) == fields_of(fs).push(f@),
{
    assert(fs.push(f).drop_last() =~= fs);
}

proof fn lemma_fields_spec_step(fs: Seq<RecordField>, i: int, tz: Seq<char>)
    requires
        0 <= i < fs.len(),
    ensures
        fields_spec(fs.take(i + 1), tz) == match fields_spec(fs.take(i), tz) {
            Err(e) => Err(e),
            Ok(prev) => match field_spec(fs[i], tz) {
                Ok(f) => Ok(prev.push(f)),
                Err(e) => Err(e),
            },
        },
{
    assert(fs.take(i + 1).drop_last() =~= fs.take(i));
}

/// Once a prefix of the fields fails, the whole sequence fails the same way.
proof fn lemma_fields_err_prefix(fs: Seq<RecordField>, k: int, tz: Seq<char>)
    requires
        0 <= k <= fs.len(),
        fields_spec(fs.take(k), tz) is Err,
    ensures
        fields_spec(fs, tz) == fields_spec(fs.take(k), tz),
    decreases fs.len() - k,
{
    if k < fs.len() {
        lemma_fields_spec_step(fs, k, tz);
        lemma_fields_err_prefix(fs, k + 1, tz);
    } else {
        assert(fs.take(k) =~= fs);
    }
}

/// The entries field of a map column whose values have type `values`.
fn entries(values: DataType, nullable: bool) -> (r: Field)
    ensures
        r@ == entries_field(values@, nullable),
{
    let keys = Field { name: "keys".to_string(), data_type: DataType::Utf8, nullable: false };
    let vals = Field { name: "values".to_string(), data_type: values, nullable };
    let mut fs: Vec<Field> = Vec::new();
    fs.push(keys);
    proof {
        lemma_fields_of_push(Seq::empty(), keys);
    }
    fs.push(vals);
    proof {
        lemma_fields_of_push(seq![keys], vals);
        assert(fs@ =~= seq![keys, vals]);
        assert(fields_of(fs@) =~= seq![keys@, vals@]);
    }
    Field { name: "entries".to_string(), data_type: DataType::Struct(fs), nullable: false }
}

/// Converts one schema position; `tz` is the offset of wall-clock timestamps.
pub fn convert_to_datatype(src: &Schema, tz: &str) -> (r: Result<DataType, ConvertError>)
    ensures
        datatype_result(r) == datatype_spec(*src, tz@),
    decreases src,
{
    match src {
        Schema::Null => Ok(DataType::Null),
        Schema::Boolean => Ok(DataType::Boolean),
        Schema::Int => Ok(DataType::Int32),
        Schema::Long => Ok(DataType::Int64),
        Schema::Float => Ok(DataType::Float32),
        Schema::Double => Ok(DataType::Float64),
        Schema::Bytes => Ok(DataType::Binary),
        Schema::String => Ok(DataType::Utf8),
        Schema::Uuid => Ok(DataType::FixedSizeBinary(16)),
        Schema::TimeMillis => Ok(DataType::Time32(TimeUnit::Millisecond)),
        Schema::TimeMicros => Ok(DataType::Time64(TimeUnit::Microsecond)),
        Schema::TimestampMillis => Ok(DataType::Timestamp(TimeUnit::Millisecond, None)),
        Schema::TimestampMicros => Ok(DataType::Timestamp(TimeUnit::Microsecond, None)),
        Schema::TimestampNanos => Ok(DataType::Timestamp(TimeUnit::Nanosecond, None)),
        Schema::LocalTimestampMillis => Ok(DataType::Timestamp(TimeUnit::Millisecond, Some(tz.to_string()))),
        Schema::LocalTimestampMicros => Ok(DataType::Timestamp(TimeUnit::Microsecond, Some(tz.to_string()))),
        Schema::LocalTimestampNanos => Ok(DataType::Timestamp(TimeUnit::Nanosecond, Some(tz.to_string()))),
        Schema::Date => Ok(DataType::Date32),
        Schema::Enum { .. } => Ok(DataType::Utf8),
        Schema::Decimal { precision, scale } => Ok(DataType::Decimal128(*precision as u8, *scale as i8)),
        Schema::Fixed { size, .. } => Ok(DataType::FixedSizeBinary(*size as i32)),
        Schema::BigDecimal => Ok(DataType::Binary),
        Schema::Array(items) => {
            let d = convert_to_datatype(items, tz)?;
            let item = Field { name: "item".to_string(), data_type: d, nullable: is_nullable(items) };
            Ok(DataType::List(Box::new(item)))
        },
        Schema::Mapping(values) => {
            let d = convert_to_datatype(values, tz)?;
            let e = entries(d, is_nullable(values));
            Ok(DataType::Mapping(Box::new(e), false))
        },
        Schema::Union(vs) => {
            if is_optional(vs) {
                convert_to_datatype(&vs[1], tz)
            } else {
                Err(ConvertError::UnsupportedUnion)
            }
        },
        Schema::Record { fields, .. } => {
            let fs = convert_fields(fields, tz)?;
            Ok(DataType::Struct(fs))
        },
        Schema::Ref(n) => Err(ConvertError::UnresolvedRef(n.duplicate())),
        Schema::Duration => Err(ConvertError::UnsupportedSchema),
    }
}

/// Converts a record's fields positionally, stopping at the first that fails.
pub fn convert_fields(fields: &Vec<RecordField>, tz: &str) -> (r: Result<Vec<Field>, ConvertError>)
    ensures
        fields_result(r) == fields_spec(fields@, tz@),
    decreases fields,
{
    let mut out: Vec<Field> = Vec::new();
    let mut i: usize = 0;
    while i < fields.len()
        invariant
            0 <= i <= fields.len(),
            fields_spec(fields@.take(i as int), tz@) == Ok::<Seq<FieldView>, ConvertError>(fields_of(out@)),
        decreases fields.len() - i,
    {
        let f = &fields[i];
        proof {
            lemma_fields_spec_step(fields@, i as int, tz@);
        }
        match convert_to_datatype(&f.schema, tz) {
            Ok(d) => {
                let field = Field { name: f.name.clone(), data_type: d, nullable: is_nullable(&f.schema) };
                proof {
                    lemma_fields_of_push(out@, field);
                }
                out.push(field);
            },
            Err(e) => {
                proof {
                    lemma_fields_err_prefix(fields@, i + 1, tz@);
                }
                return Err(e);
            },
        }
        i = i + 1;
    }
    proof {
        assert(fields@.take(i as int) =~= fields@);
    }
    Ok(out)
}

/// Converts a top-level record schema into table columns, with `tz` as the
/// offset of every wall-clock timestamp.
pub fn convert_schema_with_tz(src: &Schema, tz: &str) -> (r: Result<TableSchema, ConvertError>)
    ensures
        table_result(r) == schema_spec(*src, tz@),
{
    match src {
        Schema::Record { fields, .. } => {
            let fs = convert_fields(fields, tz)?;
            Ok(TableSchema { fields: fs })
        },
        _ => Err(ConvertError::RootMustBeRecord),
    }
}

/// Relies on chrono's `Local::now` and the `Debug` form of its `FixedOffset`
/// (such as `+02:00`): the host's current UTC offset. It depends on the clock
/// and the host's zone, so nothing is promised of the text.
#[verifier::external_body]
pub(crate) fn local_offset() -> (r: String) {
    format!("{:?}", chrono::Local::now().offset())
}

/// Converts a top-level record schema into table columns. The host's UTC
/// offset is read once, and every wall-clock timestamp column carries it.
pub fn convert_schema(src: &Schema) -> (r: Result<TableSchema, ConvertError>)
    ensures
        exists|tz: Seq<char>| table_result(r) == schema_spec(*src, tz),
{
    let tz = local_offset();
    convert_schema_with_tz(src, tz.as_str())
}

proof fn lemma_fields_nullability(fs: Seq<RecordField>, tz: Seq<char>)
    requires
        fields_spec(fs, tz) is Ok,
    ensures
        fields_spec(fs, tz)->Ok_0.len() == fs.len(),
        forall|i: int| 0 <= i < fs.len() ==> (#[trigger] fields_spec(fs, tz)->Ok_0[i]).nullable == nullable_spec(fs[i].schema),
        forall|i: int| 0 <= i < fs.len() ==> (#[trigger] fields_spec(fs, tz)->Ok_0[i]).name == fs[i].name@,
    decreases fs.len(),
{
    if fs.len() > 0 {
        let init = fs.drop_last();
        lemma_fields_nullability(init, tz);
        let r = fields_spec(fs, tz)->Ok_0;
        let prev = fields_spec(init, tz)->Ok_0;
        assert(field_spec(fs.last(), tz) is Ok);
        assert(r == prev.push(field_spec(fs.last(), tz)->Ok_0));
        assert forall|i: int| 0 <= i < fs.len() implies (#[trigger] r[i]).nullable == nullable_spec(fs[i].schema)
            && r[i].name == fs[i].name@ by {
            if i < fs.len() - 1 {
                assert(r[i] == prev[i]);
                assert(init[i] == fs[i]);
            }
        }
    }
}

/// Each converted column is nullable exactly when the record field's schema
/// is a union holding `Null`, and it keeps the field's name and position.
pub proof fn lemma_converted_nullability(s: Schema, tz: Seq<char>)
    requires
        schema_spec(s, tz) is Ok,
    ensures
        s is Record,
        schema_spec(s, tz)->Ok_0.len() == s->Record_fields@.len(),
        forall|i: int| 0 <= i < s->Record_fields@.len()
            ==> (#[trigger] schema_spec(s, tz)->Ok_0[i]).nullable == nullable_spec(s->Record_fields@[i].schema),
        forall|i: int| 0 <= i < s->Record_fields@.len()
            ==> (#[trigger] schema_spec(s, tz)->Ok_0[i]).name == s->Record_fields@[i].name@,
{
    lemma_fields_nullability(s->Record_fields@, tz);
}

/// The conversion reads nothing but the schema and the offset snapshot:
/// equal schemas with equal snapshots convert to equal columns.
pub proof fn lemma_conversion_deterministic(s1: Schema, s2: Schema, tz1: Seq<char>, tz2: Seq<char>)
    requires
        s1 == s2,
        tz1 == tz2,
    ensures
        schema_spec(s1, tz1) == schema_spec(s2, tz2),
        datatype_spec(s1, tz1) == datatype_spec(s2, tz2),
{
}

/// Every timestamp in a type carries either no offset or the offset `tz`.
pub open spec fn offsets_are(d: DType, tz: Seq<char>) -> bool
    decreases d,
{
    match d {
        DType::Timestamp(_, z) => z is None || z == Some(tz),
        DType::List(f) => offsets_are(f.data_type, tz),
        DType::Mapping(f, _) => offsets_are(f.data_type, tz),
        DType::Struct(fs) => forall|i: int| 0 <= i < fs.len() ==> offsets_are(#[trigger] fs[i].data_type, tz),
        _ => true,
    }
}

proof fn lemma_fields_offsets(fs: Seq<RecordField>, tz: Seq<char>)
    requires
        fields_spec(fs, tz) is Ok,
    ensures
        forall|i: int| 0 <= i < fields_spec(fs, tz)->Ok_0.len()
            ==> offsets_are(#[trigger] fields_spec(fs, tz)->Ok_0[i].data_type, tz),
    decreases fs,
{
    if fs.len() > 0 {
        let init = fs.drop_last();
        lemma_fields_offsets(init, tz);
        lemma_datatype_offsets(fs.last().schema, tz);
        let r = fields_spec(fs, tz)->Ok_0;
        let prev = fields_spec(init, tz)->Ok_0;
        assert(r == prev.push(field_spec(fs.last(), tz)->Ok_0));
        assert forall|i: int| 0 <= i < r.len() implies offsets_are(#[trigger] r[i].data_type, tz) by {
            if i < prev.len() {
                assert(r[i] == prev[i]);
            }
        }
    }
}

/// One snapshot for the whole schema: every wall-clock timestamp column of a
/// converted schema carries the same offset `tz`, and no other offset occurs.
pub proof fn lemma_datatype_offsets(s: Schema, tz: Seq<char>)
    requires
        datatype_spec(s, tz) is Ok,
    ensures
        offsets_are(datatype_spec(s, tz)->Ok_0, tz),
    decreases s,
{
    match s {
        Schema::Array(items) => {
            lemma_datatype_offsets(*items, tz);
        },
        Schema::Mapping(values) => {
            lemma_datatype_offsets(*values, tz);
            let d = datatype_spec(*values, tz)->Ok_0;
            let fs = entries_field(d, nullable_spec(*values)).data_type->Struct_0;
            assert(fs.len() == 2);
            assert forall|i: int| 0 <= i < fs.len() implies offsets_are(#[trigger] fs[i].data_type, tz) by {
                if i == 0 {
                    assert(fs[0].data_type == DType::Utf8);
                } else {
                    assert(fs[1].data_type == d);
                }
            }
            assert(offsets_are(entries_field(d, nullable_spec(*values)).data_type, tz));
        },
        Schema::Union(vs) => {
            if optional_spec(vs@) {
                lemma_datatype_offsets(vs@[1], tz);
            }
        },
        Schema::Record { fields, .. } => {
            lemma_fields_offsets(fields@, tz);
        },
        _ => {},
    }
}

} // verus!
