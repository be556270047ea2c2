use avroarrow::avro::{AvroRegistry, Resolution};
use avroarrow::client::{sr_schema_url, sr_versions_url, strip_value_suffix, Reference, Subject};
use avroarrow::datatype::{convert_schema, convert_schema_with_tz, ConvertError, DataType, TimeUnit};
use avroarrow::registry::{expand_schema, expand_within, qualified_name, register_schema, RegistryError, SchemaMap};
use avroarrow::schema::{Name, RecordField, Schema};

fn ns_name(n: &str) -> Name {
    Name { name: n.to_string(), namespace: Some("com.test".to_string()) }
}

fn field(n: &str, s: Schema) -> RecordField {
    RecordField { name: n.to_string(), schema: s }
}

fn location() -> Schema {
    Schema::Record { name: ns_name("Location"), fields: vec![field("latitude", Schema::Float), field("longtitude", Schema::Float)] }
}

fn address(loc: Schema) -> Schema {
    Schema::Record { name: ns_name("Address"), fields: vec![field("id", Schema::Long), field("street", Schema::String), field("location", loc)] }
}

fn user(addr: Schema) -> Schema {
    Schema::Record {
        name: ns_name("User"),
        fields: vec![
            field("id", Schema::Long),
            field("email", Schema::Union(vec![Schema::Null, Schema::String])),
            field("address", addr),
        ],
    }
}

fn subject(id: i32, text: &str, refs: Vec<(&str, &str, i32)>) -> Subject {
    Subject {
        id,
        schema: text.to_string(),
        schema_type: "AVRO".to_string(),
        references: if refs.is_empty() {
            None
        } else {
            Some(refs.into_iter().map(|(n, s, v)| Reference { name: n.to_string(), subject: s.to_string(), version: v }).collect())
        },
    }
}

fn answer(subject_name: &str, version: i32) -> Subject {
    match (subject_name, version) {
        ("User", 2) => subject(202, "user", vec![("Address", "Address-value", 1)]),
        ("Address", 1) => subject(101, "address", vec![("Location", "Location-value", 3)]),
        ("Location", 3) => subject(303, "location", vec![]),
        _ => panic!("unexpected fetch of {}:{}", subject_name, version),
    }
}

fn parse(text: &str) -> Schema {
    match text {
        "user" => user(Schema::Ref(ns_name("Address"))),
        "address" => address(Schema::Ref(ns_name("Location"))),
        "location" => location(),
        _ => panic!("unknown text"),
    }
}

fn get(registry: &mut AvroRegistry, s: &str, v: i32, fetches: &mut Vec<String>) -> Result<std::rc::Rc<Schema>, RegistryError> {
    if let Some(hit) = registry.get_cached(s, v) {
        return Ok(hit);
    }
    let mut res = Resolution::begin(s, v);
    while let Some(key) = res.next_fetch(registry) {
        fetches.push(sr_schema_url("http://registry", &key.subject, key.version));
        let answer = answer(&key.subject, key.version);
        registry.record_fetch(&mut res, key, &answer);
    }
    let parsed: Vec<Schema> = res.texts().iter().map(|t| parse(t)).collect();
    registry.complete(&res, &parsed)
}

fn expanded_user() -> Schema {
    user(address(location()))
}

fn same(a: &Schema, b: &Schema) -> bool {
    match (convert_schema_with_tz(a, "+00:00"), convert_schema_with_tz(b, "+00:00")) {
        (Ok(x), Ok(y)) => format!("{:?}", field_names(&x.fields)) == format!("{:?}", field_names(&y.fields)) && shape(a) == shape(b),
        _ => false,
    }
}

fn field_names(fs: &Vec<avroarrow::datatype::Field>) -> Vec<String> {
    fs.iter().map(|f| f.name.clone()).collect()
}

fn shape(s: &Schema) -> String {
    match s {
        Schema::Record { name, fields } => format!(
            "{}{{{}}}",
            name.name,
            fields.iter().map(|f| format!("{}:{}", f.name, shape(&f.schema))).collect::<Vec<_>>().join(",")
        ),
        Schema::Union(vs) => format!("[{}]", vs.iter().map(shape).collect::<Vec<_>>().join(",")),
        Schema::Ref(n) => format!("ref {}", n.name),
        Schema::Array(i) => format!("array {}", shape(i)),
        Schema::Mapping(i) => format!("map {}", shape(i)),
        Schema::Long => "long".to_string(),
        Schema::String => "string".to_string(),
        Schema::Float => "float".to_string(),
        Schema::Null => "null".to_string(),
        Schema::Int => "int".to_string(),
        _ => "other".to_string(),
    }
}

#[test]
fn test_avro_registry_get_with_references() {
    let mut registry = AvroRegistry::new();
    let mut fetches: Vec<String> = Vec::new();
    let schema = get(&mut registry, "User", 2, &mut fetches).unwrap();
    assert_eq!(
        fetches,
        vec![
            "http://registry/subjects/User-value/versions/2",
            "http://registry/subjects/Address-value/versions/1",
            "http://registry/subjects/Location-value/versions/3",
        ]
    );
    assert!(same(&schema, &expanded_user()));
    let again = get(&mut registry, "User", 2, &mut fetches).unwrap();
    assert_eq!(fetches.len(), 3);
    assert!(std::rc::Rc::ptr_eq(&schema, &again));
    let addr = get(&mut registry, "Address", 1, &mut fetches).unwrap();
    assert_eq!(fetches.len(), 3);
    assert!(same(&addr, &address(location())));
}

#[test]
fn raw_cache_hit_is_not_refetched_nor_followed() {
    let mut registry = AvroRegistry::new();
    let mut fetches: Vec<String> = Vec::new();
    get(&mut registry, "Address", 1, &mut fetches).unwrap();
    assert_eq!(fetches.len(), 2);
    let r = get(&mut registry, "User", 2, &mut fetches);
    assert_eq!(fetches.len(), 3);
    match r {
        Err(RegistryError::ResolutionFailed(m)) => assert_eq!(m, "com.test.Location"),
        _ => panic!("a cached text's references are not collected again"),
    }
}

#[test]
fn test_get_versions_ok() {
    assert_eq!(sr_versions_url("http://h", "test"), "http://h/subjects/test-value/versions");
}

#[test]
fn test_get_schema_ok() {
    assert_eq!(sr_schema_url("http://h", "user", 1), "http://h/subjects/user-value/versions/1");
    assert_eq!(sr_schema_url("http://h", "user", -12), "http://h/subjects/user-value/versions/-12");
    assert_eq!(sr_schema_url("", "a", 2147483647), "/subjects/a-value/versions/2147483647");
}

#[test]
fn value_suffix_is_stripped() {
    assert_eq!(strip_value_suffix("Address-value"), "Address");
    assert_eq!(strip_value_suffix("Address"), "Address");
    assert_eq!(strip_value_suffix("-value"), "");
    assert_eq!(strip_value_suffix("value"), "value");
    assert_eq!(strip_value_suffix("a-valuex"), "a-valuex");
}

#[test]
fn register_refuses_non_records() {
    let mut map = SchemaMap::new();
    assert!(matches!(register_schema(&Schema::Int, &mut map), Err(RegistryError::ExpectedRecord)));
    assert!(register_schema(&location(), &mut map).is_ok());
    assert!(map.lookup(&ns_name("Location")).is_some());
    assert!(map.lookup(&ns_name("Other")).is_none());
}

#[test]
fn expand_inlines_references() {
    let mut map = SchemaMap::new();
    register_schema(&location(), &mut map).unwrap();
    register_schema(&address(Schema::Ref(ns_name("Location"))), &mut map).unwrap();
    let e = expand_schema(&user(Schema::Ref(ns_name("Address"))), &map).unwrap();
    assert_eq!(shape(&e), shape(&expanded_user()));
}

#[test]
fn expand_without_references_is_identity() {
    let map = SchemaMap::new();
    let s = user(address(location()));
    let e = expand_schema(&s, &map).unwrap();
    assert_eq!(shape(&e), shape(&s));
}

#[test]
fn expand_unknown_reference_names_it() {
    let map = SchemaMap::new();
    match expand_schema(&Schema::Ref(ns_name("Missing")), &map) {
        Err(RegistryError::ResolutionFailed(m)) => assert_eq!(m, "com.test.Missing"),
        _ => panic!("expected a resolution failure"),
    }
    let bare = Name { name: "Missing".to_string(), namespace: None };
    assert_eq!(qualified_name(&bare), ".Missing");
}

#[test]
fn expand_refuses_bad_unions() {
    let map = SchemaMap::new();
    match expand_schema(&Schema::Union(vec![Schema::Int, Schema::Int]), &map) {
        Err(RegistryError::ResolutionFailed(m)) => assert_eq!(m, "Unions cannot contain duplicate types"),
        _ => panic!("expected a resolution failure"),
    }
    match expand_schema(&Schema::Union(vec![Schema::Null, Schema::Union(vec![])]), &map) {
        Err(RegistryError::ResolutionFailed(m)) => assert_eq!(m, "Unions may not directly contain a union"),
        _ => panic!("expected a resolution failure"),
    }
    assert!(expand_schema(&Schema::Union(vec![location(), address(location())]), &map).is_ok());
}

#[test]
fn expand_within_reports_cycles() {
    let mut map = SchemaMap::new();
    let a = Schema::Record { name: ns_name("A"), fields: vec![field("b", Schema::Ref(ns_name("A")))] };
    register_schema(&a, &mut map).unwrap();
    match expand_within(&a, &map, 3) {
        Err(RegistryError::ResolutionFailed(m)) => assert_eq!(m, "reference cycle"),
        _ => panic!("expected a cycle"),
    }
}

#[test]
fn convert_flat_record() {
    let schema = Schema::Record {
        name: ns_name("Example"),
        fields: vec![
            field("f_string", Schema::String),
            field("f_opt_string", Schema::Union(vec![Schema::Null, Schema::String])),
            field("f_uuid", Schema::Uuid),
            field("f_dec128", Schema::Decimal { precision: 38, scale: 8 }),
            field("f_loc_timestamp_ms", Schema::LocalTimestampMillis),
            field("f_array", Schema::Array(Box::new(Schema::String))),
            field("f_map", Schema::Mapping(Box::new(Schema::Long))),
        ],
    };
    let t = convert_schema_with_tz(&schema, "+02:00").unwrap();
    let names: Vec<&str> = t.fields.iter().map(|f| f.name.as_str()).collect();
    assert_eq!(names, vec!["f_string", "f_opt_string", "f_uuid", "f_dec128", "f_loc_timestamp_ms", "f_array", "f_map"]);
    let nullable: Vec<bool> = t.fields.iter().map(|f| f.nullable).collect();
    assert_eq!(nullable, vec![false, true, false, false, false, false, false]);
    assert!(matches!(t.fields[0].data_type, DataType::Utf8));
    assert!(matches!(t.fields[1].data_type, DataType::Utf8));
    assert!(matches!(t.fields[2].data_type, DataType::FixedSizeBinary(16)));
    assert!(matches!(t.fields[3].data_type, DataType::Decimal128(38, 8)));
    match &t.fields[4].data_type {
        DataType::Timestamp(TimeUnit::Millisecond, Some(tz)) => assert_eq!(tz, "+02:00"),
        _ => panic!("expected a local timestamp"),
    }
    match &t.fields[5].data_type {
        DataType::List(item) => {
            assert_eq!(item.name, "item");
            assert!(matches!(item.data_type, DataType::Utf8));
            assert!(!item.nullable);
        },
        _ => panic!("expected a list"),
    }
    match &t.fields[6].data_type {
        DataType::Mapping(entries, sorted) => {
            assert!(!sorted);
            assert_eq!(entries.name, "entries");
            match &entries.data_type {
                DataType::Struct(kv) => {
                    assert_eq!(kv[0].name, "keys");
                    assert!(!kv[0].nullable);
                    assert_eq!(kv[1].name, "values");
                    assert!(matches!(kv[1].data_type, DataType::Int64));
                },
                _ => panic!("expected entries"),
            }
        },
        _ => panic!("expected a map"),
    }
}

#[test]
fn local_timestamp_carries_host_offset() {
    let schema = Schema::Record { name: ns_name("T"), fields: vec![field("t", Schema::LocalTimestampMillis)] };
    let t = convert_schema(&schema).unwrap();
    let expected = format!("{:?}", chrono::Local::now().offset());
    match &t.fields[0].data_type {
        DataType::Timestamp(TimeUnit::Millisecond, Some(tz)) => assert_eq!(*tz, expected),
        _ => panic!("expected a local timestamp"),
    }
}

#[test]
fn convert_errors() {
    assert!(matches!(convert_schema_with_tz(&Schema::Int, "Z"), Err(ConvertError::RootMustBeRecord)));
    let bad_union = Schema::Record { name: ns_name("U"), fields: vec![field("u", Schema::Union(vec![Schema::Int, Schema::Null]))] };
    assert!(matches!(convert_schema_with_tz(&bad_union, "Z"), Err(ConvertError::UnsupportedUnion)));
    let with_ref = Schema::Record { name: ns_name("R"), fields: vec![field("r", Schema::Ref(ns_name("X")))] };
    assert!(matches!(convert_schema_with_tz(&with_ref, "Z"), Err(ConvertError::UnresolvedRef(_))));
    let with_duration = Schema::Record { name: ns_name("D"), fields: vec![field("d", Schema::Duration)] };
    assert!(matches!(convert_schema_with_tz(&with_duration, "Z"), Err(ConvertError::UnsupportedSchema)));
}

#[test]
fn conversion_is_deterministic() {
    let s = user(address(location()));
    let a = convert_schema_with_tz(&s, "+01:00").unwrap();
    let b = convert_schema_with_tz(&s, "+01:00").unwrap();
    assert_eq!(field_names(&a.fields), field_names(&b.fields));
    assert_eq!(a.fields.iter().map(|f| f.nullable).collect::<Vec<_>>(), b.fields.iter().map(|f| f.nullable).collect::<Vec<_>>());
}
