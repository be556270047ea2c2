//! Appending decoded values to column builders, in lockstep with the schema.

use vstd::prelude::*;
use num_traits::ToPrimitive;
use crate::schema::{RecordField, Schema, optional_spec, is_optional};
use crate::value::Value;
use crate::column::{
    Column, ColumnBuilder, col_len, null_spec, nulls_spec, wf_column, wf_builder, columns_of, nats, strs,
    lemma_nulls_spec, lemma_columns_of_len, lemma_columns_of_update, lemma_str_push, lemma_bytes_push,
    lemma_nats_push, lemma_strs_push,
};

verus! {

/// Why a value could not be appended.
#[derive(Debug, Clone, PartialEq)]
pub enum AppendError {
    /// The value's variant does not match the schema's.
    TypeMismatch,
    /// The builder's kind does not match the schema.
    BuilderMismatch,
    /// A fixed-size value's byte length differs from the declared width.
    FixedLengthMismatch { expected: usize, got: usize },
    /// The schema has no column counterpart on the appending path.
    UnsupportedSchema,
}

pub open spec fn pow256(n: nat) -> nat
    decreases n,
{
    if n == 0 {
        1
    } else {
        256 * pow256((n - 1) as nat)
    }
}

/// The unsigned big-endian value of a byte string.
pub open spec fn be_unsigned(s: Seq<u8>) -> nat
    decreases s.len(),
{
    if s.len() == 0 {
        0
    } else {
        be_unsigned(s.drop_last()) * 256 + s.last() as nat
    }
}

/// The big-endian two's-complement value of a byte string; empty is zero.
pub open spec fn be_signed(s: Seq<u8>) -> int {
    if s.len() > 0 && s[0] >= 128 {
        be_unsigned(s) - pow256(s.len())
    } else {
        be_unsigned(s) as int
    }
}

pub open spec fn fits_i128(x: int) -> bool {
    i128::MIN <= x <= i128::MAX
}

/// What a decimal column holds for an unscaled integer: the integer when it
/// fits in 128 bits, else zero.
pub open spec fn decimal_payload(s: Seq<u8>) -> i128 {
    if fits_i128(be_signed(s)) {
        be_signed(s) as i128
    } else {
        0
    }
}

pub open spec fn pushed_i32(c: Column, x: i32) -> Result<Column, AppendError> {
    match c {
        Column::Int32(d, xs) => Ok(Column::Int32(d, xs.push(Some(x)))),
        _ => Err(AppendError::BuilderMismatch),
    }
}

pub open spec fn pushed_i64(c: Column, x: i64) -> Result<Column, AppendError> {
    match c {
        Column::Int64(d, xs) => Ok(Column::Int64(d, xs.push(Some(x)))),
        _ => Err(AppendError::BuilderMismatch),
    }
}

pub open spec fn pushed_str(c: Column, x: Seq<char>) -> Result<Column, AppendError> {
    match c {
        Column::Utf8(xs) => Ok(Column::Utf8(xs.push(Some(x)))),
        _ => Err(AppendError::BuilderMismatch),
    }
}

pub open spec fn pushed_fixed(c: Column, x: Seq<u8>) -> Result<Column, AppendError> {
    match c {
        Column::FixedSizeBinary(w, xs) => if x.len() == w {
            Ok(Column::FixedSizeBinary(w, xs.push(Some(x))))
        } else {
            Err(AppendError::FixedLengthMismatch { expected: w as usize, got: x.len() as usize })
        },
        _ => Err(AppendError::BuilderMismatch),
    }
}

/// The column after appending `v` under schema `s`. A null value gives a null
/// slot whatever the schema; a `[Null, T]` union appends its inner value as `T`.
pub open spec fn append_spec(c: Column, s: Schema, v: Value) -> Result<Column, AppendError>
    decreases v,
{
    if v is Null {
        Ok(null_spec(c))
    } else {
        match s {
            Schema::Union(vs) => if !optional_spec(vs@) {
                Err(AppendError::UnsupportedSchema)
            } else {
                match v {
                    Value::Union(_, inner) => append_spec(c, vs@[1], *inner),
                    _ => Err(AppendError::TypeMismatch),
                }
            },
            Schema::Boolean => match v {
                Value::Boolean(b) => match c {
                    Column::Boolean(xs) => Ok(Column::Boolean(xs.push(Some(b)))),
                    _ => Err(AppendError::BuilderMismatch),
                },
                _ => Err(AppendError::TypeMismatch),
            },
            Schema::Int => match v {
                Value::Int(x) => pushed_i32(c, x),
                _ => Err(AppendError::TypeMismatch),
            },
            Schema::Date => match v {
                Value::Date(x) => pushed_i32(c, x),
                _ => Err(AppendError::TypeMismatch),
            },
            Schema::TimeMillis => match v {
                Value::TimeMillis(x) => pushed_i32(c, x),
                _ => Err(AppendError::TypeMismatch),
            },
            Schema::Long => match v {
                Value::Long(x) => pushed_i64(c, x),
                _ => Err(AppendError::TypeMismatch),
            },
            Schema::TimeMicros => match v {
                Value::TimeMicros(x) => pushed_i64(c, x),
                _ => Err(AppendError::TypeMismatch),
            },
            Schema::TimestampMillis => match v {
                Value::TimestampMillis(x) => pushed_i64(c, x),
                _ => Err(AppendError::TypeMismatch),
            },
            Schema::TimestampMicros => match v {
                Value::TimestampMicros(x) => pushed_i64(c, x),
                _ => Err(AppendError::TypeMismatch),
            },
            Schema::TimestampNanos => match v {
                Value::TimestampNanos(x) => pushed_i64(c, x),
                _ => Err(AppendError::TypeMismatch),
            },
            Schema::LocalTimestampMillis => match v {
                Value::LocalTimestampMillis(x) => pushed_i64(c, x),
                _ => Err(AppendError::TypeMismatch),
            },
            Schema::LocalTimestampMicros => match v {
                Value::LocalTimestampMicros(x) => pushed_i64(c, x),
                _ => Err(AppendError::TypeMismatch),
            },
            Schema::LocalTimestampNanos => match v {
                Value::LocalTimestampNanos(x) => pushed_i64(c, x),
                _ => Err(AppendError::TypeMismatch),
            },
            Schema::Float => match v {
                Value::Float(x) => match c {
                    Column::Float32(xs) => Ok(Column::Float32(xs.push(Some(x)))),
                    _ => Err(AppendError::BuilderMismatch),
                },
                _ => Err(AppendError::TypeMismatch),
            },
            Schema::Double => match v {
                Value::Double(x) => match c {
                    Column::Float64(xs) => Ok(Column::Float64(xs.push(Some(x)))),
                    _ => Err(AppendError::BuilderMismatch),
                },
                _ => Err(AppendError::TypeMismatch),
            },
            Schema::Decimal { .. } => match v {
                Value::Decimal(b) => match c {
                    Column::Decimal128(d, xs) => Ok(Column::Decimal128(d, xs.push(Some(decimal_payload(b@))))),
                    _ => Err(AppendError::BuilderMismatch),
                },
                _ => Err(AppendError::TypeMismatch),
            },
            Schema::String => match v {
                Value::String(t) => pushed_str(c, t@),
                _ => Err(AppendError::TypeMismatch),
            },
            Schema::Enum { .. } => match v {
                Value::Enum(_, t) => pushed_str(c, t@),
                _ => Err(AppendError::TypeMismatch),
            },
            Schema::Bytes => match v {
                Value::Bytes(b) => match c {
                    Column::Binary(xs) => Ok(Column::Binary(xs.push(Some(b@)))),
                    _ => Err(AppendError::BuilderMismatch),
                },
                _ => Err(AppendError::TypeMismatch),
            },
            Schema::Uuid => match v {
                Value::Uuid(b) => pushed_fixed(c, b@),
                _ => Err(AppendError::TypeMismatch),
            },
            Schema::Fixed { .. } => match v {
                Value::Fixed(_, b) => pushed_fixed(c, b@),
                _ => Err(AppendError::TypeMismatch),
            },
            Schema::Array(items) => match v {
                Value::Array(xs) => match c {
                    Column::List(f, offs, valid, child) => match append_items(*child, *items, xs@) {
                        Ok(c2) => Ok(Column::List(f, offs.push(col_len(c2)), valid.push(true), Box::new(c2))),
                        Err(e) => Err(e),
                    },
                    _ => Err(AppendError::BuilderMismatch),
                },
                _ => Err(AppendError::TypeMismatch),
            },
            Schema::Mapping(vsch) => match v {
                Value::Mapping(ps) => match c {
                    Column::Mapping(offs, valid, keys, vals) => match append_pairs(keys, *vals, *vsch, ps@) {
                        Ok(kv) => Ok(Column::Mapping(offs.push(col_len(kv.1)), valid.push(true), kv.0, Box::new(kv.1))),
                        Err(e) => Err(e),
                    },
                    _ => Err(AppendError::BuilderMismatch),
                },
                _ => Err(AppendError::TypeMismatch),
            },
            Schema::Record { fields, .. } => match v {
                Value::Record(fvs) => if fvs.len() != fields.len() {
                    Err(AppendError::TypeMismatch)
                } else {
                    match c {
                        Column::Struct(fs, valid, cs) => if cs.len() != fields.len() {
                            Err(AppendError::BuilderMismatch)
                        } else {
                            match append_fields(cs, fields@, fvs@) {
                                Ok(cs2) => Ok(Column::Struct(fs, valid.push(true), cs2)),
                                Err(e) => Err(e),
                            }
                        },
                        _ => Err(AppendError::BuilderMismatch),
                    }
                },
                _ => Err(AppendError::TypeMismatch),
            },
            _ => Err(AppendError::UnsupportedSchema),
        }
    }
}

/// Appends each item in turn, stopping at the first failure.
pub open spec fn append_items(c: Column, s: Schema, xs: Seq<Value>) -> Result<Column, AppendError>
    decreases xs,
{
    if xs.len() == 0 {
        Ok(c)
    } else {
        match append_items(c, s, xs.drop_last()) {
            Ok(c1) => append_spec(c1, s, xs.last()),
            Err(e) => Err(e),
        }
    }
}

/// Appends each pair in turn: the key to `keys`, the value to `vals`.
pub open spec fn append_pairs(keys: Seq<Seq<char>>, vals: Column, s: Schema, ps: Seq<(String, Value)>) -> Result<(Seq<Seq<char>>, Column), AppendError>
    decreases ps,
{
    if ps.len() == 0 {
        Ok((keys, vals))
    } else {
        match append_pairs(keys, vals, s, ps.drop_last()) {
            Ok(kv) => match append_spec(kv.1, s, ps.last().1) {
                Ok(c2) => Ok((kv.0.push(ps.last().0@), c2)),
                Err(e) => Err(e),
            },
            Err(e) => Err(e),
        }
    }
}

/// Appends the `i`-th field value to the `i`-th child under the `i`-th field
/// schema, in field order, stopping at the first failure.
pub open spec fn append_fields(cs: Seq<Column>, fs: Seq<RecordField>, vals: Seq<(String, Value)>) -> Result<Seq<Column>, AppendError>
    decreases vals,
{
    if vals.len() == 0 {
        Ok(cs)
    } else {
        let n = vals.len() - 1;
        match append_fields(cs, fs, vals.drop_last()) {
            Ok(cs1) => match append_spec(cs1[n], fs[n].schema, vals.last().1) {
                Ok(c2) => Ok(cs1.update(n, c2)),
                Err(e) => Err(e),
            },
            Err(e) => Err(e),
        }
    }
}

/// A null slot keeps a column well formed and adds one slot.
pub proof fn lemma_null_wf(c: Column)
    requires
        wf_column(c),
    ensures
        wf_column(null_spec(c)),
        col_len(null_spec(c)) == col_len(c) + 1,
    decreases c,
{
    match c {
        Column::Struct(fs, valid, cs) => {
            lemma_nulls_spec(cs);
            let cs2 = nulls_spec(cs);
            assert forall|i: int| 0 <= i < cs2.len() implies col_len(#[trigger] cs2[i]) == valid.len() + 1
                && wf_column(cs2[i]) by {
                lemma_null_wf(cs[i]);
            }
        },
        Column::List(f, offs, valid, items) => {
            let o2 = offs.push(offs.last());
            assert forall|i: int, j: int| 0 <= i <= j < o2.len() implies o2[i] <= o2[j] by {
                if j == o2.len() - 1 && i < j {
                    assert(offs[i] <= offs[offs.len() - 1]);
                }
            }
        },
        Column::Mapping(offs, valid, keys, vals) => {
            let o2 = offs.push(offs.last());
            assert forall|i: int, j: int| 0 <= i <= j < o2.len() implies o2[i] <= o2[j] by {
                if j == o2.len() - 1 && i < j {
                    assert(offs[i] <= offs[offs.len() - 1]);
                }
            }
        },
        _ => {},
    }
}

proof fn lemma_push_offset(offs: Seq<nat>, x: nat)
    requires
        offs.len() > 0,
        forall|i: int, j: int| 0 <= i <= j < offs.len() ==> offs[i] <= offs[j],
        offs.last() <= x,
    ensures
        forall|i: int, j: int| 0 <= i <= j < offs.push(x).len() ==> offs.push(x)[i] <= offs.push(x)[j],
{
    let o2 = offs.push(x);
    assert forall|i: int, j: int| 0 <= i <= j < o2.len() implies o2[i] <= o2[j] by {
        if j == o2.len() - 1 && i < j {
            assert(offs[i] <= offs[offs.len() - 1]);
        }
    }
}

/// A successful append keeps a column well formed and adds exactly one slot.
pub proof fn lemma_append_wf(c: Column, s: Schema, v: Value)
    requires
        wf_column(c),
        append_spec(c, s, v) is Ok,
    ensures
        wf_column(append_spec(c, s, v)->Ok_0),
        col_len(append_spec(c, s, v)->Ok_0) == col_len(c) + 1,
    decreases v,
{
    if v is Null {
        lemma_null_wf(c);
    } else {
        match s {
            Schema::Union(vs) => {
                if let Value::Union(_, inner) = v {
                    lemma_append_wf(c, vs@[1], *inner);
                }
            },
            Schema::Array(items) => {
                if let Value::Array(xs) = v {
                    if let Column::List(f, offs, valid, child) = c {
                        lemma_items_wf(*child, *items, xs@);
                        lemma_push_offset(offs, col_len(append_items(*child, *items, xs@)->Ok_0));
                    }
                }
            },
            Schema::Mapping(vsch) => {
                if let Value::Mapping(ps) = v {
                    if let Column::Mapping(offs, valid, keys, vals) = c {
                        lemma_pairs_wf(keys, *vals, *vsch, ps@);
                        lemma_push_offset(offs, col_len(append_pairs(keys, *vals, *vsch, ps@)->Ok_0.1));
                    }
                }
            },
            Schema::Record { fields, .. } => {
                if let Value::Record(fvs) = v {
                    if let Column::Struct(fs, valid, cs) = c {
                        lemma_fields_wf(cs, fields@, fvs@, valid.len());
                        let cs2 = append_fields(cs, fields@, fvs@)->Ok_0;
                        assert forall|i: int| 0 <= i < cs2.len() implies col_len(#[trigger] cs2[i]) == valid.len() + 1 by {}
                    }
                }
            },
            _ => {},
        }
    }
}

pub(crate) proof fn lemma_items_wf(c: Column, s: Schema, xs: Seq<Value>)
    requires
        wf_column(c),
        append_items(c, s, xs) is Ok,
    ensures
        wf_column(append_items(c, s, xs)->Ok_0),
        col_len(append_items(c, s, xs)->Ok_0) == col_len(c) + xs.len(),
    decreases xs,
{
    if xs.len() > 0 {
        lemma_items_wf(c, s, xs.drop_last());
        lemma_append_wf(append_items(c, s, xs.drop_last())->Ok_0, s, xs.last());
    }
}

pub(crate) proof fn lemma_pairs_wf(keys: Seq<Seq<char>>, vals: Column, s: Schema, ps: Seq<(String, Value)>)
    requires
        wf_column(vals),
        keys.len() == col_len(vals),
        append_pairs(keys, vals, s, ps) is Ok,
    ensures
        wf_column(append_pairs(keys, vals, s, ps)->Ok_0.1),
        append_pairs(keys, vals, s, ps)->Ok_0.0.len() == col_len(append_pairs(keys, vals, s, ps)->Ok_0.1),
        col_len(append_pairs(keys, vals, s, ps)->Ok_0.1) == col_len(vals) + ps.len(),
    decreases ps,
{
    if ps.len() > 0 {
        lemma_pairs_wf(keys, vals, s, ps.drop_last());
        lemma_append_wf(append_pairs(keys, vals, s, ps.drop_last())->Ok_0.1, s, ps.last().1);
    }
}

pub(crate) proof fn lemma_fields_wf(cs: Seq<Column>, fs: Seq<RecordField>, vals: Seq<(String, Value)>, n: nat)
    requires
        vals.len() <= cs.len(),
        forall|i: int| 0 <= i < cs.len() ==> wf_column(#[trigger] cs[i]) && col_len(cs[i]) == n,
        append_fields(cs, fs, vals) is Ok,
    ensures
        append_fields(cs, fs, vals)->Ok_0.len() == cs.len(),
        forall|i: int| 0 <= i < cs.len() ==> wf_column(#[trigger] append_fields(cs, fs, vals)->Ok_0[i]),
        forall|i: int| 0 <= i < cs.len() ==> col_len(#[trigger] append_fields(cs, fs, vals)->Ok_0[i])
            == (if i < vals.len() { n + 1 } else { n }),
    decreases vals,
{
    if vals.len() > 0 {
        let k = vals.len() - 1;
        lemma_fields_wf(cs, fs, vals.drop_last(), n);
        let cs1 = append_fields(cs, fs, vals.drop_last())->Ok_0;
        assert(wf_column(cs1[k]) && col_len(cs1[k]) == n);
        lemma_append_wf(cs1[k], fs[k].schema, vals.last().1);
    }
}

proof fn lemma_items_step(c: Column, s: Schema, xs: Seq<Value>, i: int)
    requires
        0 <= i < xs.len(),
    ensures
        append_items(c, s, xs.take(i + 1)) == match append_items(c, s, xs.take(i)) {
            Ok(c1) => append_spec(c1, s, xs[i]),
            Err(e) => Err(e),
        },
{
    assert(xs.take(i + 1).drop_last() =~= xs.take(i));
}

proof fn lemma_items_err(c: Column, s: Schema, xs: Seq<Value>, k: int)
    requires
        0 <= k <= xs.len(),
        append_items(c, s, xs.take(k)) is Err,
    ensures
        append_items(c, s, xs) == append_items(c, s, xs.take(k)),
    decreases xs.len() - k,
{
    if k < xs.len() {
        lemma_items_step(c, s, xs, k);
        lemma_items_err(c, s, xs, k + 1);
    } else {
        assert(xs.take(k) =~= xs);
    }
}

proof fn lemma_pairs_step(keys: Seq<Seq<char>>, vals: Column, s: Schema, ps: Seq<(String, Value)>, i: int)
    requires
        0 <= i < ps.len(),
    ensures
        append_pairs(keys, vals, s, ps.take(i + 1)) == match append_pairs(keys, vals, s, ps.take(i)) {
            Ok(kv) => match append_spec(kv.1, s, ps[i].1) {
                Ok(c2) => Ok((kv.0.push(ps[i].0@), c2)),
                Err(e) => Err(e),
            },
            Err(e) => Err(e),
        },
{
    assert(ps.take(i + 1).drop_last() =~= ps.take(i));
}

proof fn lemma_pairs_err(keys: Seq<Seq<char>>, vals: Column, s: Schema, ps: Seq<(String, Value)>, k: int)
    requires
        0 <= k <= ps.len(),
        append_pairs(keys, vals, s, ps.take(k)) is Err,
    ensures
        append_pairs(keys, vals, s, ps) == append_pairs(keys, vals, s, ps.take(k)),
    decreases ps.len() - k,
{
    if k < ps.len() {
        lemma_pairs_step(keys, vals, s, ps, k);
        lemma_pairs_err(keys, vals, s, ps, k + 1);
    } else {
        assert(ps.take(k) =~= ps);
    }
}

proof fn lemma_fields_step(cs: Seq<Column>, fs: Seq<RecordField>, vals: Seq<(String, Value)>, i: int)
    requires
        0 <= i < vals.len(),
    ensures
        append_fields(cs, fs, vals.take(i + 1)) == match append_fields(cs, fs, vals.take(i)) {
            Ok(cs1) => match append_spec(cs1[i], fs[i].schema, vals[i].1) {
                Ok(c2) => Ok(cs1.update(i, c2)),
                Err(e) => Err(e),
            },
            Err(e) => Err(e),
        },
{
    assert(vals.take(i + 1).drop_last() =~= vals.take(i));
}

proof fn lemma_fields_err(cs: Seq<Column>, fs: Seq<RecordField>, vals: Seq<(String, Value)>, k: int)
    requires
        0 <= k <= vals.len(),
        append_fields(cs, fs, vals.take(k)) is Err,
    ensures
        append_fields(cs, fs, vals) == append_fields(cs, fs, vals.take(k)),
    decreases vals.len() - k,
{
    if k < vals.len() {
        lemma_fields_step(cs, fs, vals, k);
        lemma_fields_err(cs, fs, vals, k + 1);
    } else {
        assert(vals.take(k) =~= vals);
    }
}

/// Relies on num-bigint: `BigInt::from_signed_bytes_be` reads big-endian
/// two's-complement bytes (none is zero), and `ToPrimitive::to_i128` gives the
/// value when it fits in 128 bits, else `None`.
#[verifier::external_body]
fn bigint_to_i128(bytes: &[u8]) -> (r: Option<i128>)
    ensures
        r == (if fits_i128(be_signed(bytes@)) { Some(be_signed(bytes@) as i128) } else { None::<i128> }),
{
    num_bigint::BigInt::from_signed_bytes_be(bytes).to_i128()
}

/// The 128-bit payload of a decimal: its unscaled integer, or zero when that
/// does not fit.
pub fn decimal_to_i128(bytes: &Vec<u8>) -> (r: i128)
    ensures
        r == decimal_payload(bytes@),
{
    match bigint_to_i128(bytes.as_slice()) {
        Some(v) => v,
        None => 0,
    }
}

fn copy_bytes(b: &Vec<u8>) -> (r: Vec<u8>)
    ensures
        r@ == b@,
{
    let mut out: Vec<u8> = Vec::with_capacity(b.len());
    let mut i: usize = 0;
    while i < b.len()
        invariant
            0 <= i <= b.len(),
            out@ == b@.take(i as int),
        decreases b.len() - i,
    {
        out.push(b[i]);
        i = i + 1;
        assert(out@ =~= b@.take(i as int));
    }
    assert(b@.take(i as int) =~= b@);
    out
}

pub open spec fn append_outcome(before: Column, after: Column, r: Result<(), AppendError>, expected: Result<Column, AppendError>) -> bool {
    match r {
        Ok(_) => expected == Ok::<Column, AppendError>(after),
        Err(e) => expected == Err::<Column, AppendError>(e),
    }
}

fn push_i32(b: &mut ColumnBuilder, x: i32) -> (r: Result<(), AppendError>)
    ensures
        append_outcome(old(b)@, final(b)@, r, pushed_i32(old(b)@, x)),
{
    match b {
        ColumnBuilder::Int32(_, xs) => {
            xs.push(Some(x));
            Ok(())
        },
        _ => Err(AppendError::BuilderMismatch),
    }
}

fn push_i64(b: &mut ColumnBuilder, x: i64) -> (r: Result<(), AppendError>)
    ensures
        append_outcome(old(b)@, final(b)@, r, pushed_i64(old(b)@, x)),
{
    match b {
        ColumnBuilder::Int64(_, xs) => {
            xs.push(Some(x));
            Ok(())
        },
        _ => Err(AppendError::BuilderMismatch),
    }
}

fn push_str(b: &mut ColumnBuilder, x: &String) -> (r: Result<(), AppendError>)
    ensures
        append_outcome(old(b)@, final(b)@, r, pushed_str(old(b)@, x@)),
{
    match b {
        ColumnBuilder::Utf8(xs) => {
            let t = x.clone();
            proof {
                lemma_str_push(xs@, Some(t));
            }
            xs.push(Some(t));
            Ok(())
        },
        _ => Err(AppendError::BuilderMismatch),
    }
}

fn push_fixed(b: &mut ColumnBuilder, x: &Vec<u8>) -> (r: Result<(), AppendError>)
    ensures
        append_outcome(old(b)@, final(b)@, r, pushed_fixed(old(b)@, x@)),
{
    match b {
        ColumnBuilder::FixedSizeBinary(w, xs) => {
            if x.len() == *w {
                let t = copy_bytes(x);
                proof {
                    lemma_bytes_push(xs@, Some(t));
                }
                xs.push(Some(t));
                Ok(())
            } else {
                Err(AppendError::FixedLengthMismatch { expected: *w, got: x.len() })
            }
        },
        _ => Err(AppendError::BuilderMismatch),
    }
}

/// Appends one decoded value to `builder`, recursing in lockstep on the schema
/// and the value. On success the builder holds exactly what `append_spec`
/// describes; on failure the error is the one it names, and the builder may
/// hold a partial append and should be discarded.
pub fn append_record(builder: &mut ColumnBuilder, schema: &Schema, record: &Value) -> (r: Result<(), AppendError>)
    requires
        wf_builder(*old(builder)),
    ensures
        append_outcome(old(builder)@, final(builder)@, r, append_spec(old(builder)@, *schema, *record)),
        r is Ok ==> wf_builder(*final(builder)),
    decreases *record,
{
    let ghost before = builder@;
    proof {
        if append_spec(before, *schema, *record) is Ok {
            lemma_append_wf(before, *schema, *record);
        }
    }
    if let Value::Null = record {
        builder.append_null();
        return Ok(());
    }
    match schema {
        Schema::Union(vs) => {
            if !is_optional(vs) {
                return Err(AppendError::UnsupportedSchema);
            }
            match record {
                Value::Union(_, inner) => append_record(builder, &vs[1], inner),
                _ => Err(AppendError::TypeMismatch),
            }
        },
        Schema::Boolean => match record {
            Value::Boolean(x) => match builder {
                ColumnBuilder::Boolean(xs) => {
                    xs.push(Some(*x));
                    Ok(())
                },
                _ => Err(AppendError::BuilderMismatch),
            },
            _ => Err(AppendError::TypeMismatch),
        },
        Schema::Int => match record {
            Value::Int(x) => push_i32(builder, *x),
            _ => Err(AppendError::TypeMismatch),
        },
        Schema::Date => match record {
            Value::Date(x) => push_i32(builder, *x),
            _ => Err(AppendError::TypeMismatch),
        },
        Schema::TimeMillis => match record {
            Value::TimeMillis(x) => push_i32(builder, *x),
            _ => Err(AppendError::TypeMismatch),
        },
        Schema::Long => match record {
            Value::Long(x) => push_i64(builder, *x),
            _ => Err(AppendError::TypeMismatch),
        },
        Schema::TimeMicros => match record {
            Value::TimeMicros(x) => push_i64(builder, *x),
            _ => Err(AppendError::TypeMismatch),
        },
        Schema::TimestampMillis => match record {
            Value::TimestampMillis(x) => push_i64(builder, *x),
            _ => Err(AppendError::TypeMismatch),
        },
        Schema::TimestampMicros => match record {
            Value::TimestampMicros(x) => push_i64(builder, *x),
            _ => Err(AppendError::TypeMismatch),
        },
        Schema::TimestampNanos => match record {
            Value::TimestampNanos(x) => push_i64(builder, *x),
            _ => Err(AppendError::TypeMismatch),
        },
        Schema::LocalTimestampMillis => match record {
            Value::LocalTimestampMillis(x) => push_i64(builder, *x),
            _ => Err(AppendError::TypeMismatch),
        },
        Schema::LocalTimestampMicros => match record {
            Value::LocalTimestampMicros(x) => push_i64(builder, *x),
            _ => Err(AppendError::TypeMismatch),
        },
        Schema::LocalTimestampNanos => match record {
            Value::LocalTimestampNanos(x) => push_i64(builder, *x),
            _ => Err(AppendError::TypeMismatch),
        },
        Schema::Float => match record {
            Value::Float(x) => match builder {
                ColumnBuilder::Float32(xs) => {
                    xs.push(Some(*x));
                    Ok(())
                },
                _ => Err(AppendError::BuilderMismatch),
            },
            _ => Err(AppendError::TypeMismatch),
        },
        Schema::Double => match record {
            Value::Double(x) => match builder {
                ColumnBuilder::Float64(xs) => {
                    xs.push(Some(*x));
                    Ok(())
                },
                _ => Err(AppendError::BuilderMismatch),
            },
            _ => Err(AppendError::TypeMismatch),
        },
        Schema::Decimal { .. } => match record {
            Value::Decimal(b) => match builder {
                ColumnBuilder::Decimal128(_, xs) => {
                    xs.push(Some(decimal_to_i128(b)));
                    Ok(())
                },
                _ => Err(AppendError::BuilderMismatch),
            },
            _ => Err(AppendError::TypeMismatch),
        },
        Schema::String => match record {
            Value::String(t) => push_str(builder, t),
            _ => Err(AppendError::TypeMismatch),
        },
        Schema::Enum { .. } => match record {
            Value::Enum(_, t) => push_str(builder, t),
            _ => Err(AppendError::TypeMismatch),
        },
        Schema::Bytes => match record {
            Value::Bytes(b) => match builder {
                ColumnBuilder::Binary(xs) => {
                    let t = copy_bytes(b);
                    proof {
                        lemma_bytes_push(xs@, Some(t));
                    }
                    xs.push(Some(t));
                    Ok(())
                },
                _ => Err(AppendError::BuilderMismatch),
            },
            _ => Err(AppendError::TypeMismatch),
        },
        Schema::Uuid => match record {
            Value::Uuid(b) => push_fixed(builder, b),
            _ => Err(AppendError::TypeMismatch),
        },
        Schema::Fixed { .. } => match record {
            Value::Fixed(_, b) => push_fixed(builder, b),
            _ => Err(AppendError::TypeMismatch),
        },
        Schema::Array(items) => match record {
            Value::Array(xs) => match builder {
                ColumnBuilder::List(l) => {
                    let ghost child0 = l.values@;
                    let mut i: usize = 0;
                    proof {
                        assert(xs@.take(0) =~= Seq::<Value>::empty());
                    }
                    while i < xs.len()
                        invariant
                            0 <= i <= xs.len(),
                            append_items(child0, **items, xs@.take(i as int)) == Ok::<Column, AppendError>(l.values@),
                            wf_builder(*l.values),
                            *record == Value::Array(*xs),
                            *schema == Schema::Array(*items),
                            before == old(builder)@,
                            before == Column::List(l.item@, nats(l.offsets@), l.validity@, Box::new(child0)),
                        decreases xs.len() - i,
                    {
                        proof {
                            lemma_items_step(child0, **items, xs@, i as int);
                        }
                        match append_record(&mut l.values, items, &xs[i]) {
                            Ok(()) => {},
                            Err(e) => {
                                proof {
                                    lemma_items_err(child0, **items, xs@, i + 1);
                                }
                                return Err(e);
                            },
                        }
                        i = i + 1;
                    }
                    proof {
                        assert(xs@.take(i as int) =~= xs@);
                    }
                    let n = l.values.len();
                    proof {
                        lemma_nats_push(l.offsets@, n);
                    }
                    l.offsets.push(n);
                    l.validity.push(true);
                    Ok(())
                },
                _ => Err(AppendError::BuilderMismatch),
            },
            _ => Err(AppendError::TypeMismatch),
        },
        Schema::Mapping(vsch) => match record {
            Value::Mapping(ps) => match builder {
                ColumnBuilder::Mapping(m) => {
                    let ghost keys0 = strs(m.keys@);
                    let ghost vals0 = m.values@;
                    let mut i: usize = 0;
                    proof {
                        assert(ps@.take(0) =~= Seq::<(String, Value)>::empty());
                    }
                    while i < ps.len()
                        invariant
                            0 <= i <= ps.len(),
                            append_pairs(keys0, vals0, **vsch, ps@.take(i as int))
                                == Ok::<(Seq<Seq<char>>, Column), AppendError>((strs(m.keys@), m.values@)),
                            wf_builder(*m.values),
                            *record == Value::Mapping(*ps),
                            *schema == Schema::Mapping(*vsch),
                            before == old(builder)@,
                            before == Column::Mapping(nats(m.offsets@), m.validity@, keys0, Box::new(vals0)),
                        decreases ps.len() - i,
                    {
                        proof {
                            lemma_pairs_step(keys0, vals0, **vsch, ps@, i as int);
                        }
                        let k = ps[i].0.clone();
                        match append_record(&mut m.values, vsch, &ps[i].1) {
                            Ok(()) => {},
                            Err(e) => {
                                proof {
                                    lemma_pairs_err(keys0, vals0, **vsch, ps@, i + 1);
                                }
                                return Err(e);
                            },
                        }
                        proof {
                            lemma_strs_push(m.keys@, k);
                        }
                        m.keys.push(k);
                        i = i + 1;
                    }
                    proof {
                        assert(ps@.take(i as int) =~= ps@);
                    }
                    let n = m.values.len();
                    proof {
                        lemma_nats_push(m.offsets@, n);
                    }
                    m.offsets.push(n);
                    m.validity.push(true);
                    Ok(())
                },
                _ => Err(AppendError::BuilderMismatch),
            },
            _ => Err(AppendError::TypeMismatch),
        },
        Schema::Record { fields, .. } => match record {
            Value::Record(fvs) => {
                if fvs.len() != fields.len() {
                    return Err(AppendError::TypeMismatch);
                }
                match builder {
                    ColumnBuilder::Struct(sb) => {
                        let ghost cs0 = sb.children@;
                        proof {
                            lemma_columns_of_len(cs0);
                            assert(fvs@.take(0) =~= Seq::<(String, Value)>::empty());
                            assert forall|j: int| 0 <= j < cs0.len() implies wf_builder(#[trigger] cs0[j]) by {
                                assert(columns_of(cs0)[j] == cs0[j]@);
                            }
                        }
                        if sb.children.len() != fields.len() {
                            return Err(AppendError::BuilderMismatch);
                        }
                        let mut i: usize = 0;
                        while i < fvs.len()
                            invariant
                                0 <= i <= fvs.len(),
                                fvs.len() == fields.len(),
                                sb.children.len() == fields.len(),
                                cs0.len() == fields.len(),
                                columns_of(cs0).len() == fields.len(),
                                append_fields(columns_of(cs0), fields@, fvs@.take(i as int))
                                    == Ok::<Seq<Column>, AppendError>(columns_of(sb.children@)),
                                forall|j: int| 0 <= j < sb.children.len() ==> wf_builder(#[trigger] sb.children@[j]),
                                *record == Value::Record(*fvs),
                                *schema matches Schema::Record { fields: f, .. } && f == *fields,
                                before == old(builder)@,
                                before == Column::Struct(crate::datatype::fields_of(sb.fields@), sb.validity@, columns_of(cs0)),
                            decreases fvs.len() - i,
                        {
                            proof {
                                lemma_fields_step(columns_of(cs0), fields@, fvs@, i as int);
                                lemma_columns_of_len(sb.children@);
                            }
                            let ghost cur = sb.children@;
                            match append_record(&mut sb.children[i], &fields[i].schema, &fvs[i].1) {
                                Ok(()) => {},
                                Err(e) => {
                                    proof {
                                        lemma_fields_err(columns_of(cs0), fields@, fvs@, i + 1);
                                    }
                                    return Err(e);
                                },
                            }
                            proof {
                                lemma_columns_of_update(cur, i as int, sb.children@[i as int]);
                                assert(sb.children@ == cur.update(i as int, sb.children@[i as int]));
                                assert forall|j: int| 0 <= j < sb.children.len() implies wf_builder(#[trigger] sb.children@[j]) by {
                                    if j != i {
                                        assert(sb.children@[j] == cur[j]);
                                    }
                                }
                            }
                            i = i + 1;
                        }
                        proof {
                            assert(fvs@.take(i as int) =~= fvs@);
                        }
                        sb.validity.push(true);
                        Ok(())
                    },
                    _ => Err(AppendError::BuilderMismatch),
                }
            },
            _ => Err(AppendError::TypeMismatch),
        },
        _ => Err(AppendError::UnsupportedSchema),
    }
}

} // verus!
