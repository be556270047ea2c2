//! Allocating a tree of empty column builders shaped like a schema.

use vstd::prelude::*;
use crate::schema::{RecordField, Schema, nullable_spec, optional_spec, is_nullable, is_optional};
use crate::datatype::{
    ConvertError, DType, DataType, Field, FieldView, TimeUnit, datatype_spec, datatype_result, field_spec,
    fields_of, convert_to_datatype, local_offset, lemma_fields_of_push,
};
use crate::append::{append_items, append_spec, decimal_payload, be_signed, fits_i128, lemma_items_wf};
use crate::column::{col_len, wf_column, wf_builder, Column, ColumnBuilder, ListBuilder, MapBuilder, StructBuilder, columns_of, nats, strs, opt_str, opt_bytes};

verus! {

/// The empty builder for a schema position, shaped like its converted type;
/// `tz` is the offset carried by wall-clock timestamp columns.
pub open spec fn builder_spec(s: Schema, tz: Seq<char>) -> Result<Column, ConvertError>
    decreases s,
{
    match s {
        Schema::Null => Ok(Column::Null(0)),
        Schema::Boolean => Ok(Column::Boolean(Seq::empty())),
        Schema::Int => Ok(Column::Int32(DType::Int32, Seq::empty())),
        Schema::Date => Ok(Column::Int32(DType::Date32, Seq::empty())),
        Schema::TimeMillis => Ok(Column::Int32(DType::Time32(TimeUnit::Millisecond), Seq::empty())),
        Schema::Long => Ok(Column::Int64(DType::Int64, Seq::empty())),
        Schema::TimeMicros => Ok(Column::Int64(DType::Time64(TimeUnit::Microsecond), Seq::empty())),
        Schema::TimestampMillis => Ok(Column::Int64(DType::Timestamp(TimeUnit::Millisecond, None), Seq::empty())),
        Schema::TimestampMicros => Ok(Column::Int64(DType::Timestamp(TimeUnit::Microsecond, None), Seq::empty())),
        Schema::TimestampNanos => Ok(Column::Int64(DType::Timestamp(TimeUnit::Nanosecond, None), Seq::empty())),
        Schema::LocalTimestampMillis => Ok(Column::Int64(DType::Timestamp(TimeUnit::Millisecond, Some(tz)), Seq::empty())),
        Schema::LocalTimestampMicros => Ok(Column::Int64(DType::Timestamp(TimeUnit::Microsecond, Some(tz)), Seq::empty())),
        Schema::LocalTimestampNanos => Ok(Column::Int64(DType::Timestamp(TimeUnit::Nanosecond, Some(tz)), Seq::empty())),
        Schema::Float => Ok(Column::Float32(Seq::empty())),
        Schema::Double => Ok(Column::Float64(Seq::empty())),
        Schema::Decimal { precision, scale } => Ok(Column::Decimal128(DType::Decimal128(precision as u8, scale as i8), Seq::empty())),
        Schema::Bytes => Ok(Column::Binary(Seq::empty())),
        Schema::String => Ok(Column::Utf8(Seq::empty())),
        Schema::Enum { .. } => Ok(Column::Utf8(Seq::empty())),
        Schema::Uuid => Ok(Column::FixedSizeBinary(16, Seq::empty())),
        Schema::Fixed { size, .. } => Ok(Column::FixedSizeBinary(size as nat, Seq::empty())),
        Schema::Array(items) => match datatype_spec(*items, tz) {
            Ok(d) => match builder_spec(*items, tz) {
                Ok(c) => Ok(Column::List(
                    FieldView { name: "item"@, data_type: d, nullable: nullable_spec(*items) },
                    seq![0nat],
                    Seq::empty(),
                    Box::new(c),
                )),
                Err(e) => Err(e),
            },
            Err(e) => Err(e),
        },
        Schema::Mapping(values) => match builder_spec(*values, tz) {
            Ok(c) => Ok(Column::Mapping(seq![0nat], Seq::empty(), Seq::empty(), Box::new(c))),
            Err(e) => Err(e),
        },
        Schema::Record { fields, .. } => match struct_spec(fields@, tz) {
            Ok(fc) => Ok(Column::Struct(fc.0, Seq::empty(), fc.1)),
            Err(e) => Err(e),
        },
        Schema::Union(vs) => if optional_spec(vs@) {
            builder_spec(vs@[1], tz)
        } else {
            Err(ConvertError::UnsupportedUnion)
        },
        Schema::Ref(n) => Err(ConvertError::UnresolvedRef(n)),
        Schema::BigDecimal => Err(ConvertError::UnsupportedSchema),
        Schema::Duration => Err(ConvertError::UnsupportedSchema),
    }
}

/// The fields' metadata and one empty child per field, in declaration order;
/// the first failing field decides the error.
pub open spec fn struct_spec(fs: Seq<RecordField>, tz: Seq<char>) -> Result<(Seq<FieldView>, Seq<Column>), ConvertError>
    decreases fs,
{
    if fs.len() == 0 {
        Ok((Seq::empty(), Seq::empty()))
    } else {
        match struct_spec(fs.drop_last(), tz) {
            Err(e) => Err(e),
            Ok(prev) => match field_spec(fs.last(), tz) {
                Err(e) => Err(e),
                Ok(f) => match builder_spec(fs.last().schema, tz) {
                    Ok(c) => Ok((prev.0.push(f), prev.1.push(c))),
                    Err(e) => Err(e),
                },
            },
        }
    }
}

pub open spec fn builder_result(r: Result<ColumnBuilder, ConvertError>) -> Result<Column, ConvertError> {
    match r {
        Ok(b) => Ok(b@),
        Err(e) => Err(e),
    }
}

proof fn lemma_struct_step(fs: Seq<RecordField>, i: int, tz: Seq<char>)
    requires
        0 <= i < fs.len(),
    ensures
        struct_spec(fs.take(i + 1), tz) == match struct_spec(fs.take(i), tz) {
            Err(e) => Err(e),
            Ok(prev) => match field_spec(fs[i], tz) {
                Err(e) => Err(e),
                Ok(f) => match builder_spec(fs[i].schema, tz) {
                    Ok(c) => Ok((prev.0.push(f), prev.1.push(c))),
                    Err(e) => Err(e),
                },
            },
        },
{
    assert(fs.take(i + 1).drop_last() =~= fs.take(i));
}

proof fn lemma_struct_err(fs: Seq<RecordField>, k: int, tz: Seq<char>)
    requires
        0 <= k <= fs.len(),
        struct_spec(fs.take(k), tz) is Err,
    ensures
        struct_spec(fs, tz) == struct_spec(fs.take(k), tz),
    decreases fs.len() - k,
{
    if k < fs.len() {
        lemma_struct_step(fs, k, tz);
        lemma_struct_err(fs, k + 1, tz);
    } else {
        assert(fs.take(k) =~= fs);
    }
}

proof fn lemma_columns_of_push(cs: Seq<ColumnBuilder>, c: ColumnBuilder)
    ensures
        columns_of(cs.push(c)) == columns_of(cs).push(c@),
{
    assert(cs.push(c).drop_last() =~= cs);
}

fn empty_strings(cap: usize) -> (r: Vec<Option<String>>)
    ensures
        r@.map_values(|o: Option<String>| opt_str(o)) == Seq::<Option<Seq<char>>>::empty(),
{
    let v: Vec<Option<String>> = Vec::with_capacity(cap);
    assert(v@.map_values(|o: Option<String>| opt_str(o)) =~= Seq::<Option<Seq<char>>>::empty());
    v
}

fn empty_bytes(cap: usize) -> (r: Vec<Option<Vec<u8>>>)
    ensures
        r@.map_values(|o: Option<Vec<u8>>| opt_bytes(o)) == Seq::<Option<Seq<u8>>>::empty(),
{
    let v: Vec<Option<Vec<u8>>> = Vec::with_capacity(cap);
    assert(v@.map_values(|o: Option<Vec<u8>>| opt_bytes(o)) =~= Seq::<Option<Seq<u8>>>::empty());
    v
}

fn empty_offsets(cap: usize) -> (r: Vec<usize>)
    ensures
        nats(r@) == seq![0nat],
{
    let mut v: Vec<usize> = Vec::with_capacity(cap);
    v.push(0);
    assert(nats(v@) =~= seq![0nat]);
    v
}

/// Allocates the empty builder tree for a schema, each column pre-sized for
/// `cap` slots (a hint, not a bound); `tz` is the offset that wall-clock
/// timestamp columns carry.
pub fn create_builder_with_tz(avro: &Schema, cap: usize, tz: &str) -> (r: Result<ColumnBuilder, ConvertError>)
    ensures
        builder_result(r) == builder_spec(*avro, tz@),
        r matches Ok(b) ==> wf_builder(b) && col_len(b@) == 0,
    decreases avro,
{
    proof {
        if builder_spec(*avro, tz@) is Ok {
            lemma_builder_wf(*avro, tz@);
        }
    }
    match avro {
        Schema::Null => Ok(ColumnBuilder::Null(Vec::with_capacity(cap))),
        Schema::Boolean => Ok(ColumnBuilder::Boolean(Vec::with_capacity(cap))),
        Schema::Int => Ok(ColumnBuilder::Int32(DataType::Int32, Vec::with_capacity(cap))),
        Schema::Date => Ok(ColumnBuilder::Int32(DataType::Date32, Vec::with_capacity(cap))),
        Schema::TimeMillis => Ok(ColumnBuilder::Int32(DataType::Time32(TimeUnit::Millisecond), Vec::with_capacity(cap))),
        Schema::Long => Ok(ColumnBuilder::Int64(DataType::Int64, Vec::with_capacity(cap))),
        Schema::TimeMicros => Ok(ColumnBuilder::Int64(DataType::Time64(TimeUnit::Microsecond), Vec::with_capacity(cap))),
        Schema::TimestampMillis => Ok(ColumnBuilder::Int64(DataType::Timestamp(TimeUnit::Millisecond, None), Vec::with_capacity(cap))),
        Schema::TimestampMicros => Ok(ColumnBuilder::Int64(DataType::Timestamp(TimeUnit::Microsecond, None), Vec::with_capacity(cap))),
        Schema::TimestampNanos => Ok(ColumnBuilder::Int64(DataType::Timestamp(TimeUnit::Nanosecond, None), Vec::with_capacity(cap))),
        Schema::LocalTimestampMillis => Ok(ColumnBuilder::Int64(
            DataType::Timestamp(TimeUnit::Millisecond, Some(tz.to_string())),
            Vec::with_capacity(cap),
        )),
        Schema::LocalTimestampMicros => Ok(ColumnBuilder::Int64(
            DataType::Timestamp(TimeUnit::Microsecond, Some(tz.to_string())),
            Vec::with_capacity(cap),
        )),
        Schema::LocalTimestampNanos => Ok(ColumnBuilder::Int64(
            DataType::Timestamp(TimeUnit::Nanosecond, Some(tz.to_string())),
            Vec::with_capacity(cap),
        )),
        Schema::Float => Ok(ColumnBuilder::Float32(Vec::with_capacity(cap))),
        Schema::Double => Ok(ColumnBuilder::Float64(Vec::with_capacity(cap))),
        Schema::Decimal { precision, scale } => {
            let d = DataType::Decimal128(*precision as u8, *scale as i8);
            Ok(ColumnBuilder::Decimal128(d, Vec::with_capacity(cap)))
        },
        Schema::Bytes => Ok(ColumnBuilder::Binary(empty_bytes(cap))),
        Schema::String => Ok(ColumnBuilder::Utf8(empty_strings(cap))),
        Schema::Enum { .. } => Ok(ColumnBuilder::Utf8(empty_strings(cap))),
        Schema::Uuid => Ok(ColumnBuilder::FixedSizeBinary(16, empty_bytes(cap))),
        Schema::Fixed { size, .. } => Ok(ColumnBuilder::FixedSizeBinary(*size, empty_bytes(cap))),
        Schema::Array(items) => {
            let d = convert_to_datatype(items, tz)?;
            let child = create_builder_with_tz(items, cap, tz)?;
            let item = Field { name: "item".to_string(), data_type: d, nullable: is_nullable(items) };
            Ok(ColumnBuilder::List(ListBuilder {
                item,
                offsets: empty_offsets(cap),
                validity: Vec::with_capacity(cap),
                values: Box::new(child),
            }))
        },
        Schema::Mapping(values) => {
            let child = create_builder_with_tz(values, cap, tz)?;
            let keys: Vec<String> = Vec::with_capacity(cap);
            proof {
                assert(strs(keys@) =~= Seq::<Seq<char>>::empty());
            }
            Ok(ColumnBuilder::Mapping(MapBuilder {
                offsets: empty_offsets(cap),
                validity: Vec::with_capacity(cap),
                keys,
                values: Box::new(child),
            }))
        },
        Schema::Record { fields, .. } => struct_builder(fields, cap, tz),
        Schema::Union(vs) => {
            if is_optional(vs) {
                create_builder_with_tz(&vs[1], cap, tz)
            } else {
                Err(ConvertError::UnsupportedUnion)
            }
        },
        Schema::Ref(n) => Err(ConvertError::UnresolvedRef(n.duplicate())),
        Schema::BigDecimal => Err(ConvertError::UnsupportedSchema),
        Schema::Duration => Err(ConvertError::UnsupportedSchema),
    }
}

/// A struct builder with one child per field, in declaration order.
fn struct_builder(fields: &Vec<RecordField>, cap: usize, tz: &str) -> (r: Result<ColumnBuilder, ConvertError>)
    ensures
        builder_result(r) == match struct_spec(fields@, tz@) {
            Ok(fc) => Ok(Column::Struct(fc.0, Seq::empty(), fc.1)),
            Err(e) => Err(e),
        },
    decreases fields,
{
    let mut metas: Vec<Field> = Vec::new();
    let mut children: Vec<ColumnBuilder> = Vec::new();
    let mut i: usize = 0;
    while i < fields.len()
        invariant
            0 <= i <= fields.len(),
            struct_spec(fields@.take(i as int), tz@)
                == Ok::<(Seq<FieldView>, Seq<Column>), ConvertError>((fields_of(metas@), columns_of(children@))),
        decreases fields.len() - i,
    {
        let f = &fields[i];
        proof {
            lemma_struct_step(fields@, i as int, tz@);
        }
        let d = match convert_to_datatype(&f.schema, tz) {
            Ok(d) => d,
            Err(e) => {
                proof {
                    lemma_struct_err(fields@, i + 1, tz@);
                }
                return Err(e);
            },
        };
        let child = match create_builder_with_tz(&f.schema, cap, tz) {
            Ok(c) => c,
            Err(e) => {
                proof {
                    lemma_struct_err(fields@, i + 1, tz@);
                }
                return Err(e);
            },
        };
        let meta = Field { name: f.name.clone(), data_type: d, nullable: is_nullable(&f.schema) };
        proof {
            lemma_fields_of_push(metas@, meta);
            lemma_columns_of_push(children@, child);
        }
        metas.push(meta);
        children.push(child);
        i = i + 1;
    }
    proof {
        assert(fields@.take(i as int) =~= fields@);
    }
    Ok(ColumnBuilder::Struct(StructBuilder { fields: metas, validity: Vec::with_capacity(cap), children }))
}

/// Allocates the empty builder tree for a schema, each column pre-sized for
/// `cap` slots. The host's UTC offset is read once, and every wall-clock
/// timestamp column carries it.
pub fn create_builder(avro: &Schema, cap: usize) -> (r: Result<ColumnBuilder, ConvertError>)
    ensures
        exists|tz: Seq<char>| builder_result(r) == builder_spec(*avro, tz),
        r matches Ok(b) ==> wf_builder(b) && col_len(b@) == 0,
{
    let tz = local_offset();
    create_builder_with_tz(avro, cap, tz.as_str())
}

/// A freshly allocated builder is well formed and empty.
pub proof fn lemma_builder_wf(s: Schema, tz: Seq<char>)
    requires
        builder_spec(s, tz) is Ok,
    ensures
        wf_column(builder_spec(s, tz)->Ok_0),
        col_len(builder_spec(s, tz)->Ok_0) == 0,
    decreases s,
{
    match s {
        Schema::Array(items) => {
            lemma_builder_wf(*items, tz);
        },
        Schema::Mapping(values) => {
            lemma_builder_wf(*values, tz);
        },
        Schema::Record { fields, .. } => {
            lemma_struct_wf(fields@, tz);
        },
        Schema::Union(vs) => {
            lemma_builder_wf(vs@[1], tz);
        },
        _ => {},
    }
}

proof fn lemma_struct_wf(fs: Seq<RecordField>, tz: Seq<char>)
    requires
        struct_spec(fs, tz) is Ok,
    ensures
        struct_spec(fs, tz)->Ok_0.0.len() == struct_spec(fs, tz)->Ok_0.1.len(),
        forall|i: int| 0 <= i < struct_spec(fs, tz)->Ok_0.1.len()
            ==> wf_column(#[trigger] struct_spec(fs, tz)->Ok_0.1[i]) && col_len(struct_spec(fs, tz)->Ok_0.1[i]) == 0,
    decreases fs,
{
    if fs.len() > 0 {
        lemma_struct_wf(fs.drop_last(), tz);
        lemma_builder_wf(fs.last().schema, tz);
        let prev = struct_spec(fs.drop_last(), tz)->Ok_0.1;
        let cur = struct_spec(fs, tz)->Ok_0.1;
        assert forall|i: int| 0 <= i < cur.len() implies wf_column(#[trigger] cur[i]) && col_len(cur[i]) == 0 by {
            if i < prev.len() {
                assert(cur[i] == prev[i]);
            }
        }
    }
}

/// Appending `n` values, one after another, to a fresh builder for `s` gives a
/// well-formed column of exactly `n` slots; a struct column's children then
/// each hold `n` slots too, so siblings stay aligned.
pub proof fn lemma_appended_lengths(s: Schema, tz: Seq<char>, vs: Seq<crate::value::Value>)
    requires
        builder_spec(s, tz) is Ok,
        append_items(builder_spec(s, tz)->Ok_0, s, vs) is Ok,
    ensures
        wf_column(append_items(builder_spec(s, tz)->Ok_0, s, vs)->Ok_0),
        col_len(append_items(builder_spec(s, tz)->Ok_0, s, vs)->Ok_0) == vs.len(),
        append_items(builder_spec(s, tz)->Ok_0, s, vs)->Ok_0 matches Column::Struct(_, _, cs)
            ==> forall|i: int| 0 <= i < cs.len() ==> col_len(#[trigger] cs[i]) == vs.len(),
{
    lemma_builder_wf(s, tz);
    lemma_items_wf(builder_spec(s, tz)->Ok_0, s, vs);
}

/// Appending one integer to a fresh integer column gives back exactly that integer.
pub proof fn lemma_round_trip_int(x: i32, tz: Seq<char>)
    ensures
        append_spec(builder_spec(Schema::Int, tz)->Ok_0, Schema::Int, crate::value::Value::Int(x))
            == Ok::<Column, crate::append::AppendError>(Column::Int32(DType::Int32, seq![Some(x)])),
{
    assert(Seq::<Option<i32>>::empty().push(Some(x)) =~= seq![Some(x)]);
}

/// Appending one wall-clock timestamp to a fresh column gives back exactly
/// that instant, under the column's offset.
pub proof fn lemma_round_trip_local_timestamp(x: i64, tz: Seq<char>)
    ensures
        append_spec(
            builder_spec(Schema::LocalTimestampMillis, tz)->Ok_0,
            Schema::LocalTimestampMillis,
            crate::value::Value::LocalTimestampMillis(x),
        ) == Ok::<Column, crate::append::AppendError>(
            Column::Int64(DType::Timestamp(TimeUnit::Millisecond, Some(tz)), seq![Some(x)]),
        ),
{
    assert(Seq::<Option<i64>>::empty().push(Some(x)) =~= seq![Some(x)]);
}

/// Appending one string to a fresh string column gives back exactly that string.
pub proof fn lemma_round_trip_string(x: String, tz: Seq<char>)
    ensures
        append_spec(builder_spec(Schema::String, tz)->Ok_0, Schema::String, crate::value::Value::String(x))
            == Ok::<Column, crate::append::AppendError>(Column::Utf8(seq![Some(x@)])),
{
    assert(Seq::<Option<Seq<char>>>::empty().push(Some(x@)) =~= seq![Some(x@)]);
}

/// A decimal whose unscaled integer fits in 128 bits comes back exactly; any
/// other comes back as zero.
pub proof fn lemma_round_trip_decimal(b: Vec<u8>, precision: usize, scale: usize, tz: Seq<char>)
    ensures
        append_spec(
            builder_spec(Schema::Decimal { precision, scale }, tz)->Ok_0,
            Schema::Decimal { precision, scale },
            crate::value::Value::Decimal(b),
        ) == Ok::<Column, crate::append::AppendError>(Column::Decimal128(
            DType::Decimal128(precision as u8, scale as i8),
            seq![Some(decimal_payload(b@))],
        )),
        fits_i128(be_signed(b@)) ==> decimal_payload(b@) == be_signed(b@),
        !fits_i128(be_signed(b@)) ==> decimal_payload(b@) == 0,
{
    assert(Seq::<Option<i128>>::empty().push(Some(decimal_payload(b@))) =~= seq![Some(decimal_payload(b@))]);
}

} // verus!
