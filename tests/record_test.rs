use avroarrow::append::{append_record, decimal_to_i128, AppendError};
use avroarrow::builder::{create_builder, create_builder_with_tz};
use avroarrow::column::ColumnBuilder;
use avroarrow::datatype::{convert_schema_with_tz, DataType, TimeUnit};
use avroarrow::schema::{Name, RecordField, Schema};
use avroarrow::value::Value;
use num_bigint::ToBigInt;

fn tz_offset() -> String {
    format!("{:?}", chrono::Local::now().offset())
}

fn build(schema: &Schema, values: &Vec<Value>) -> ColumnBuilder {
    let mut builder = create_builder(schema, 32).unwrap();
    for v in values {
        append_record(&mut builder, schema, v).unwrap();
    }
    builder
}

fn name(n: &str) -> Name {
    Name { name: n.to_string(), namespace: None }
}

fn opt(inner: Schema) -> Schema {
    Schema::Union(vec![Schema::Null, inner])
}

fn decimal_bytes(v: i128) -> Vec<u8> {
    v.to_bigint().unwrap().to_signed_bytes_be()
}

fn uuid_bytes(text: &str) -> Vec<u8> {
    let hex: Vec<u8> = text.bytes().filter(|c| *c != b'-').collect();
    hex.chunks(2)
        .map(|p| u8::from_str_radix(std::str::from_utf8(p).unwrap(), 16).unwrap())
        .collect()
}

#[test]
fn test_append_bool() {
    let row = vec![true, false, true];
    let values: Vec<Value> = row.iter().map(|v| Value::Boolean(*v)).collect();
    match build(&Schema::Boolean, &values) {
        ColumnBuilder::Boolean(v) => assert_eq!(v, vec![Some(true), Some(false), Some(true)]),
        _ => panic!("expected a boolean column"),
    }
}

#[test]
fn test_append_int() {
    let row = vec![3, 4, 5];
    let values: Vec<Value> = row.iter().map(|v| Value::Int(*v)).collect();
    match build(&Schema::Int, &values) {
        ColumnBuilder::Int32(DataType::Int32, v) => assert_eq!(v, vec![Some(3), Some(4), Some(5)]),
        _ => panic!("expected an int32 column"),
    }
}

#[test]
fn test_append_long() {
    let row: Vec<i64> = vec![3, 4, 5];
    let values: Vec<Value> = row.iter().map(|v| Value::Long(*v)).collect();
    match build(&Schema::Long, &values) {
        ColumnBuilder::Int64(DataType::Int64, v) => assert_eq!(v, vec![Some(3), Some(4), Some(5)]),
        _ => panic!("expected an int64 column"),
    }
}

#[test]
fn test_append_float() {
    let row: Vec<f32> = vec![3.1, 4.2, 5.3];
    let values: Vec<Value> = row.iter().map(|v| Value::Float(v.to_bits())).collect();
    match build(&Schema::Float, &values) {
        ColumnBuilder::Float32(v) => {
            let got: Vec<f32> = v.iter().map(|b| f32::from_bits(b.unwrap())).collect();
            assert_eq!(got, row);
        },
        _ => panic!("expected a float32 column"),
    }
}

#[test]
fn test_append_double() {
    let row: Vec<f64> = vec![3.1, 4.2, 5.3];
    let values: Vec<Value> = row.iter().map(|v| Value::Double(v.to_bits())).collect();
    match build(&Schema::Double, &values) {
        ColumnBuilder::Float64(v) => {
            let got: Vec<f64> = v.iter().map(|b| f64::from_bits(b.unwrap())).collect();
            assert_eq!(got, row);
        },
        _ => panic!("expected a float64 column"),
    }
}

#[test]
fn test_append_decimal() {
    let raw: Vec<i128> = vec![1024, -2048, 4096];
    let schema = Schema::Decimal { precision: 10, scale: 4 };
    let values: Vec<Value> = raw.iter().map(|v| Value::Decimal(decimal_bytes(*v))).collect();
    match build(&schema, &values) {
        ColumnBuilder::Decimal128(d, v) => {
            assert!(matches!(d, DataType::Decimal128(10, 4)));
            assert_eq!(v, vec![Some(1024), Some(-2048), Some(4096)]);
        },
        _ => panic!("expected a decimal column"),
    }
}

#[test]
fn decimal_out_of_range_is_zero() {
    let mut big = vec![0x01u8];
    big.extend(std::iter::repeat(0u8).take(16));
    assert_eq!(decimal_to_i128(&big), 0);
    assert_eq!(decimal_to_i128(&decimal_bytes(i128::MIN)), i128::MIN);
    assert_eq!(decimal_to_i128(&decimal_bytes(i128::MAX)), i128::MAX);
    assert_eq!(decimal_to_i128(&vec![]), 0);
    assert_eq!(decimal_to_i128(&vec![0xff]), -1);
}

#[test]
fn test_append_date() {
    let raw: Vec<i32> = vec![19938, 19937, 19936];
    let values: Vec<Value> = raw.iter().map(|v| Value::Date(*v)).collect();
    match build(&Schema::Date, &values) {
        ColumnBuilder::Int32(DataType::Date32, v) => assert_eq!(v, vec![Some(19938), Some(19937), Some(19936)]),
        _ => panic!("expected a date column"),
    }
}

#[test]
fn test_append_time_ms() {
    let raw: Vec<i32> = vec![42000000, 52000000, 62000000];
    let values: Vec<Value> = raw.iter().map(|v| Value::TimeMillis(*v)).collect();
    match build(&Schema::TimeMillis, &values) {
        ColumnBuilder::Int32(DataType::Time32(TimeUnit::Millisecond), v) => {
            assert_eq!(v, vec![Some(42000000), Some(52000000), Some(62000000)])
        },
        _ => panic!("expected a time32 column"),
    }
}

#[test]
fn test_append_time_mc() {
    let raw: Vec<i64> = vec![42000000, 52000000, 62000000];
    let values: Vec<Value> = raw.iter().map(|v| Value::TimeMicros(*v)).collect();
    match build(&Schema::TimeMicros, &values) {
        ColumnBuilder::Int64(DataType::Time64(TimeUnit::Microsecond), v) => {
            assert_eq!(v, vec![Some(42000000), Some(52000000), Some(62000000)])
        },
        _ => panic!("expected a time64 column"),
    }
}

fn timestamps(schema: Schema, raw: &Vec<i64>, wrap: fn(i64) -> Value, unit: TimeUnit, local: bool) {
    let values: Vec<Value> = raw.iter().map(|v| wrap(*v)).collect();
    let tz = tz_offset();
    let mut builder = create_builder_with_tz(&schema, 32, &tz).unwrap();
    for v in &values {
        append_record(&mut builder, &schema, v).unwrap();
    }
    match builder {
        ColumnBuilder::Int64(DataType::Timestamp(u, z), v) => {
            assert!(std::mem::discriminant(&u) == std::mem::discriminant(&unit));
            assert_eq!(z, if local { Some(tz) } else { None });
            assert_eq!(v, raw.iter().map(|x| Some(*x)).collect::<Vec<_>>());
        },
        _ => panic!("expected a timestamp column"),
    }
}

#[test]
fn test_append_timestamp_ms() {
    timestamps(Schema::TimestampMillis, &vec![1709821534123, 1709821533123, 1709821532123], Value::TimestampMillis, TimeUnit::Millisecond, false);
}

#[test]
fn test_append_timestamp_mc() {
    timestamps(Schema::TimestampMicros, &vec![1709821534123123, 1709821533123456, 1709821532123789], Value::TimestampMicros, TimeUnit::Microsecond, false);
}

#[test]
fn test_append_timestamp_ns() {
    timestamps(Schema::TimestampNanos, &vec![1699539650112345678, 1699539650112335678, 1699539650112325678], Value::TimestampNanos, TimeUnit::Nanosecond, false);
}

#[test]
fn test_append_local_timestamp_ms() {
    timestamps(Schema::LocalTimestampMillis, &vec![1709821534123, 1709821533123, 1709821532123], Value::LocalTimestampMillis, TimeUnit::Millisecond, true);
}

#[test]
fn test_append_local_timestamp_mc() {
    timestamps(Schema::LocalTimestampMicros, &vec![1709821534123123, 1709821533123456, 1709821532123789], Value::LocalTimestampMicros, TimeUnit::Microsecond, true);
}

#[test]
fn test_append_local_timestamp_ns() {
    timestamps(Schema::LocalTimestampNanos, &vec![1699539650112345678, 1699539650112335678, 1699539650112325678], Value::LocalTimestampNanos, TimeUnit::Nanosecond, true);
}

#[test]
fn test_append_string() {
    let row: Vec<String> = vec!["a-3.1".to_string(), "b-4.2".to_string(), "c-5.3".to_string()];
    let values: Vec<Value> = row.iter().map(|v| Value::String(v.clone())).collect();
    match build(&Schema::String, &values) {
        ColumnBuilder::Utf8(v) => assert_eq!(v, row.into_iter().map(Some).collect::<Vec<_>>()),
        _ => panic!("expected a utf8 column"),
    }
}

#[test]
fn test_append_enum() {
    let raw = vec!["X1".to_string(), "X2".to_string(), "X3".to_string()];
    let schema = Schema::Enum { name: name("e1"), symbols: raw.clone() };
    let values: Vec<Value> = raw.iter().enumerate().map(|(i, v)| Value::Enum(i as u32, v.clone())).collect();
    match build(&schema, &values) {
        ColumnBuilder::Utf8(v) => assert_eq!(v, raw.into_iter().map(Some).collect::<Vec<_>>()),
        _ => panic!("expected a utf8 column"),
    }
}

#[test]
fn test_append_uuid() {
    let raw = vec![
        "cbb297c0-14a9-46bc-ad91-1d0ef9b42df9",
        "465a78ad-93cc-432e-a836-9824d49506d6",
        "0cd4a0d3-2e41-4b51-945a-eb06adbe8d1e",
    ];
    let values: Vec<Value> = raw.iter().map(|v| Value::Uuid(uuid_bytes(v))).collect();
    match build(&Schema::Uuid, &values) {
        ColumnBuilder::FixedSizeBinary(16, v) => {
            assert_eq!(v, raw.iter().map(|t| Some(uuid_bytes(t))).collect::<Vec<_>>());
            assert_eq!(v[0].as_ref().unwrap().len(), 16);
        },
        _ => panic!("expected a fixed-size binary column"),
    }
}

#[test]
fn test_append_bytes() {
    let raw: Vec<&[u8]> = vec![b"one", b"tow", b"", b"three"];
    let values: Vec<Value> = raw.iter().map(|v| Value::Bytes(v.to_vec())).collect();
    match build(&Schema::Bytes, &values) {
        ColumnBuilder::Binary(v) => assert_eq!(v, raw.iter().map(|b| Some(b.to_vec())).collect::<Vec<_>>()),
        _ => panic!("expected a binary column"),
    }
}

#[test]
fn test_append_fixed() {
    let raw: Vec<&[u8; 2]> = vec![b"12", b"23", b"56"];
    let schema = Schema::Fixed { name: name("test-1"), size: 2 };
    let values: Vec<Value> = raw.iter().map(|v| Value::Fixed(2, v.to_vec())).collect();
    match build(&schema, &values) {
        ColumnBuilder::FixedSizeBinary(2, v) => assert_eq!(v, raw.iter().map(|b| Some(b.to_vec())).collect::<Vec<_>>()),
        _ => panic!("expected a fixed-size binary column"),
    }
}

#[test]
fn fixed_length_mismatch_is_an_error() {
    let schema = Schema::Fixed { name: name("f"), size: 2 };
    let mut builder = create_builder(&schema, 4).unwrap();
    let r = append_record(&mut builder, &schema, &Value::Fixed(3, vec![1, 2, 3]));
    assert!(matches!(r, Err(AppendError::FixedLengthMismatch { expected: 2, got: 3 })));
}

#[test]
fn type_mismatch_is_an_error() {
    let mut builder = create_builder(&Schema::Int, 4).unwrap();
    let r = append_record(&mut builder, &Schema::Int, &Value::String("x".to_string()));
    assert!(matches!(r, Err(AppendError::TypeMismatch)));
}

#[test]
fn builder_mismatch_is_an_error() {
    let mut builder = create_builder(&Schema::Int, 4).unwrap();
    let r = append_record(&mut builder, &Schema::Long, &Value::Long(1));
    assert!(matches!(r, Err(AppendError::BuilderMismatch)));
}

#[test]
fn unsupported_schema_is_an_error() {
    let mut builder = create_builder(&Schema::Int, 4).unwrap();
    let r = append_record(&mut builder, &Schema::Duration, &Value::Int(1));
    assert!(matches!(r, Err(AppendError::UnsupportedSchema)));
    let wide = Schema::Union(vec![Schema::Int, Schema::String]);
    let r = append_record(&mut builder, &wide, &Value::Union(0, Box::new(Value::Int(1))));
    assert!(matches!(r, Err(AppendError::UnsupportedSchema)));
}

#[test]
fn null_value_appends_a_null_slot() {
    let mut builder = create_builder(&Schema::Int, 4).unwrap();
    append_record(&mut builder, &Schema::Int, &Value::Null).unwrap();
    append_record(&mut builder, &Schema::Int, &Value::Int(7)).unwrap();
    match builder {
        ColumnBuilder::Int32(_, v) => assert_eq!(v, vec![None, Some(7)]),
        _ => panic!("expected an int32 column"),
    }
}

#[test]
fn test_append_string_array() {
    let raw = vec![vec!["x1", "x2"], vec!["y1", "y2", "y3"], vec!["z1", "z2", "z3", "z4"]];
    let schema = Schema::Array(Box::new(Schema::String));
    let values: Vec<Value> = raw
        .iter()
        .map(|v| Value::Array(v.iter().map(|i| Value::String(i.to_string())).collect()))
        .collect();
    match build(&schema, &values) {
        ColumnBuilder::List(l) => {
            assert_eq!(l.offsets, vec![0, 2, 5, 9]);
            assert_eq!(l.validity, vec![true, true, true]);
            assert_eq!(l.item.name, "item");
            match *l.values {
                ColumnBuilder::Utf8(v) => {
                    let flat: Vec<Option<String>> = raw.concat().iter().map(|s| Some(s.to_string())).collect();
                    assert_eq!(v, flat);
                },
                _ => panic!("expected utf8 items"),
            }
        },
        _ => panic!("expected a list column"),
    }
}

fn sorted(mut v: Vec<String>) -> Vec<String> {
    v.sort();
    v
}

#[test]
fn test_append_string_map() {
    let raw = vec![
        vec![("x1", "a"), ("x2", "b")],
        vec![("y1", "A"), ("y2", "B"), ("y3", "C")],
        vec![("z1", "1")],
    ];
    let schema = Schema::Mapping(Box::new(Schema::String));
    let values: Vec<Value> = raw
        .iter()
        .map(|m| Value::Mapping(m.iter().map(|(k, v)| (k.to_string(), Value::String(v.to_string()))).collect()))
        .collect();
    match build(&schema, &values) {
        ColumnBuilder::Mapping(m) => {
            assert_eq!(m.offsets, vec![0, 2, 5, 6]);
            let vals: Vec<String> = match *m.values {
                ColumnBuilder::Utf8(v) => v.into_iter().map(|s| s.unwrap()).collect(),
                _ => panic!("expected utf8 values"),
            };
            assert_eq!(sorted(m.keys[0..2].to_vec()), vec!["x1", "x2"]);
            assert_eq!(sorted(vals[0..2].to_vec()), vec!["a", "b"]);
            assert_eq!(sorted(m.keys[2..5].to_vec()), vec!["y1", "y2", "y3"]);
            assert_eq!(sorted(vals[2..5].to_vec()), vec!["A", "B", "C"]);
            assert_eq!(sorted(m.keys[5..6].to_vec()), vec!["z1"]);
            assert_eq!(sorted(vals[5..6].to_vec()), vec!["1"]);
        },
        _ => panic!("expected a map column"),
    }
}

fn person_schema() -> Schema {
    Schema::Record {
        name: name("Person"),
        fields: vec![
            RecordField { name: "id".to_string(), schema: Schema::String },
            RecordField { name: "name".to_string(), schema: Schema::String },
            RecordField { name: "age".to_string(), schema: opt(Schema::Int) },
        ],
    }
}

fn person(id: &str, n: &str, age: Option<i32>) -> Value {
    let age = match age {
        Some(a) => Value::Union(1, Box::new(Value::Int(a))),
        None => Value::Union(0, Box::new(Value::Null)),
    };
    Value::Record(vec![
        ("id".to_string(), Value::String(id.to_string())),
        ("name".to_string(), Value::String(n.to_string())),
        ("age".to_string(), age),
    ])
}

#[test]
fn test_append_struct() {
    let schema = person_schema();
    let values = vec![person("p-1", "Job", Some(33)), person("p-2", "Don", Some(43)), person("p-3", "Rob", None)];
    let builder = build(&schema, &values);
    assert_eq!(builder.len(), 3);
    match builder {
        ColumnBuilder::Struct(s) => {
            assert_eq!(s.validity, vec![true, true, true]);
            assert_eq!(s.fields.len(), 3);
            assert!(s.fields[2].nullable);
            assert!(!s.fields[0].nullable);
            for c in &s.children {
                assert_eq!(c.len(), 3);
            }
            match &s.children[2] {
                ColumnBuilder::Int32(_, v) => assert_eq!(*v, vec![Some(33), Some(43), None]),
                _ => panic!("expected an int32 child"),
            }
            match &s.children[1] {
                ColumnBuilder::Utf8(v) => {
                    assert_eq!(*v, vec![Some("Job".to_string()), Some("Don".to_string()), Some("Rob".to_string())])
                },
                _ => panic!("expected a utf8 child"),
            }
        },
        _ => panic!("expected a struct column"),
    }
}

#[test]
fn null_record_keeps_children_aligned() {
    let schema = person_schema();
    let mut builder = create_builder(&schema, 4).unwrap();
    append_record(&mut builder, &schema, &person("p-1", "Job", Some(33))).unwrap();
    append_record(&mut builder, &schema, &Value::Null).unwrap();
    assert_eq!(builder.len(), 2);
    match builder {
        ColumnBuilder::Struct(s) => {
            assert_eq!(s.validity, vec![true, false]);
            for c in &s.children {
                assert_eq!(c.len(), 2);
            }
        },
        _ => panic!("expected a struct column"),
    }
}

#[test]
fn nullable_string_field() {
    let schema = Schema::Record {
        name: name("R"),
        fields: vec![RecordField { name: "f".to_string(), schema: opt(Schema::String) }],
    };
    let values = vec![
        Value::Record(vec![("f".to_string(), Value::Union(1, Box::new(Value::String("a".to_string()))))]),
        Value::Record(vec![("f".to_string(), Value::Union(0, Box::new(Value::Null)))]),
    ];
    match build(&schema, &values) {
        ColumnBuilder::Struct(s) => {
            assert_eq!(s.fields.len(), 1);
            assert!(s.fields[0].nullable);
            assert!(matches!(s.fields[0].data_type, DataType::Utf8));
            match &s.children[0] {
                ColumnBuilder::Utf8(v) => assert_eq!(*v, vec![Some("a".to_string()), None]),
                _ => panic!("expected a utf8 child"),
            }
        },
        _ => panic!("expected a struct column"),
    }
}

#[test]
fn map_of_strings_single_value() {
    let schema = Schema::Mapping(Box::new(Schema::String));
    let value = Value::Mapping(vec![
        ("x1".to_string(), Value::String("a".to_string())),
        ("x2".to_string(), Value::String("b".to_string())),
    ]);
    match build(&schema, &vec![value]) {
        ColumnBuilder::Mapping(m) => {
            assert_eq!(m.offsets, vec![0, 2]);
            assert_eq!(sorted(m.keys.clone()), vec!["x1", "x2"]);
            match *m.values {
                ColumnBuilder::Utf8(v) => {
                    assert_eq!(sorted(v.into_iter().map(|s| s.unwrap()).collect()), vec!["a", "b"])
                },
                _ => panic!("expected utf8 values"),
            }
        },
        _ => panic!("expected a map column"),
    }
}

#[test]
fn null_map_closes_an_absent_entry() {
    let schema = Schema::Mapping(Box::new(Schema::Int));
    let mut builder = create_builder(&schema, 4).unwrap();
    append_record(&mut builder, &schema, &Value::Mapping(vec![("k".to_string(), Value::Int(1))])).unwrap();
    append_record(&mut builder, &schema, &Value::Null).unwrap();
    match builder {
        ColumnBuilder::Mapping(m) => {
            assert_eq!(m.offsets, vec![0, 1, 1]);
            assert_eq!(m.validity, vec![true, false]);
        },
        _ => panic!("expected a map column"),
    }
}

#[test]
fn builder_errors() {
    assert!(create_builder(&Schema::Ref(name("X")), 4).is_err());
    assert!(create_builder(&Schema::BigDecimal, 4).is_err());
    assert!(create_builder(&Schema::Union(vec![Schema::Int, Schema::Null]), 4).is_err());
}

#[test]
fn local_timestamp_column_shares_the_converted_offset() {
    let tz = tz_offset();
    let schema = Schema::Record {
        name: name("T"),
        fields: vec![RecordField { name: "t".to_string(), schema: Schema::LocalTimestampMillis }],
    };
    let table = convert_schema_with_tz(&schema, &tz).unwrap();
    let values = vec![Value::Record(vec![("t".to_string(), Value::LocalTimestampMillis(1709821534123))])];
    let mut builder = create_builder_with_tz(&schema, 8, &tz).unwrap();
    for v in &values {
        append_record(&mut builder, &schema, v).unwrap();
    }
    let declared = match &table.fields[0].data_type {
        DataType::Timestamp(TimeUnit::Millisecond, Some(z)) => z.clone(),
        _ => panic!("expected a local timestamp"),
    };
    match builder {
        ColumnBuilder::Struct(s) => match &s.children[0] {
            ColumnBuilder::Int64(DataType::Timestamp(TimeUnit::Millisecond, Some(z)), v) => {
                assert_eq!(*z, declared);
                assert_eq!(*v, vec![Some(1709821534123)]);
            },
            _ => panic!("expected a timestamp child"),
        },
        _ => panic!("expected a struct column"),
    }
}
