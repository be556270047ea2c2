//! The record schema tree and the decoded values that conform to it.

use vstd::prelude::*;

verus! {

/// A qualified name of a named schema (record, enum, fixed).
#[derive(Debug, Clone, PartialEq)]
pub struct Name {
    pub name: String,
    pub namespace: Option<String>,
}

impl Name {
    /// A copy of this name.
    pub fn duplicate(&self) -> (r: Name)
        ensures
            r == *self,
    {
        let namespace = match &self.namespace {
            Some(ns) => Some(ns.clone()),
            None => None,
        };
        Name { name: self.name.clone(), namespace }
    }
}

/// One named field of a record schema.
#[derive(Debug)]
pub struct RecordField {
    pub name: String,
    pub schema: Schema,
}

/// A record schema tree.
#[derive(Debug)]
pub enum Schema {
    Null,
    Boolean,
    Int,
    Long,
    Float,
    Double,
    Bytes,
    String,
    Uuid,
    Date,
    TimeMillis,
    TimeMicros,
    TimestampMillis,
    TimestampMicros,
    TimestampNanos,
    LocalTimestampMillis,
    LocalTimestampMicros,
    LocalTimestampNanos,
    Duration,
    BigDecimal,
    Decimal { precision: usize, scale: usize },
    Fixed { name: Name, size: usize },
    Enum { name: Name, symbols: Vec<String> },
    Array(Box<Schema>),
    Mapping(Box<Schema>),
    Record { name: Name, fields: Vec<RecordField> },
    Union(Vec<Schema>),
    Ref(Name),
}

/// A position is nullable iff its schema is a union holding the `Null` variant.
pub open spec fn nullable_spec(s: Schema) -> bool {
    match s {
        Schema::Union(vs) => exists|i: int| 0 <= i < vs.len() && (#[trigger] vs@[i]) is Null,
        _ => false,
    }
}

/// The one union shape that the conversion accepts: `[Null, T]`.
pub open spec fn optional_spec(vs: Seq<Schema>) -> bool {
    vs.len() == 2 && vs[0] is Null
}

pub fn is_nullable(src: &Schema) -> (r: bool)
    ensures
        r == nullable_spec(*src),
{
    match src {
        Schema::Union(vs) => {
            let mut i: usize = 0;
            while i < vs.len()
                invariant
                    0 <= i <= vs.len(),
                    *src == Schema::Union(*vs),
                    forall|j: int| 0 <= j < i ==> !(vs@[j] is Null),
                decreases vs.len() - i,
            {
                if let Schema::Null = &vs[i] {
                    assert(vs@[i as int] is Null);
                    return true;
                }
                i = i + 1;
            }
            false
        },
        _ => false,
    }
}

pub fn is_optional(variants: &Vec<Schema>) -> (r: bool)
    ensures
        r == optional_spec(variants@),
{
    variants.len() == 2 && matches!(variants[0], Schema::Null)
}

/// A qualified name as text: the name and the optional namespace.
pub type NameKey = (Seq<char>, Option<Seq<char>>);

pub open spec fn name_key(n: Name) -> NameKey {
    (n.name@, match n.namespace {
        Some(ns) => Some(ns@),
        None => None,
    })
}

/// The mathematical value of a `Schema`.
pub enum SchemaView {
    Null,
    Boolean,
    Int,
    Long,
    Float,
    Double,
    Bytes,
    String,
    Uuid,
    Date,
    TimeMillis,
    TimeMicros,
    TimestampMillis,
    TimestampMicros,
    TimestampNanos,
    LocalTimestampMillis,
    LocalTimestampMicros,
    LocalTimestampNanos,
    Duration,
    BigDecimal,
    Decimal { precision: usize, scale: usize },
    Fixed { name: NameKey, size: usize },
    Enum { name: NameKey, symbols: Seq<Seq<char>> },
    Array(Box<SchemaView>),
    Mapping(Box<SchemaView>),
    Record { name: NameKey, fields: Seq<(Seq<char>, SchemaView)> },
    Union(Seq<SchemaView>),
    Ref(NameKey),
}

pub open spec fn schema_view(s: Schema) -> SchemaView
    decreases s,
{
    match s {
        Schema::Null => SchemaView::Null,
        Schema::Boolean => SchemaView::Boolean,
        Schema::Int => SchemaView::Int,
        Schema::Long => SchemaView::Long,
        Schema::Float => SchemaView::Float,
        Schema::Double => SchemaView::Double,
        Schema::Bytes => SchemaView::Bytes,
        Schema::String => SchemaView::String,
        Schema::Uuid => SchemaView::Uuid,
        Schema::Date => SchemaView::Date,
        Schema::TimeMillis => SchemaView::TimeMillis,
        Schema::TimeMicros => SchemaView::TimeMicros,
        Schema::TimestampMillis => SchemaView::TimestampMillis,
        Schema::TimestampMicros => SchemaView::TimestampMicros,
        Schema::TimestampNanos => SchemaView::TimestampNanos,
        Schema::LocalTimestampMillis => SchemaView::LocalTimestampMillis,
        Schema::LocalTimestampMicros => SchemaView::LocalTimestampMicros,
        Schema::LocalTimestampNanos => SchemaView::LocalTimestampNanos,
        Schema::Duration => SchemaView::Duration,
        Schema::BigDecimal => SchemaView::BigDecimal,
        Schema::Decimal { precision, scale } => SchemaView::Decimal { precision, scale },
        Schema::Fixed { name, size } => SchemaView::Fixed { name: name_key(name), size },
        Schema::Enum { name, symbols } => SchemaView::Enum {
            name: name_key(name),
            symbols: symbols@.map_values(|t: String| t@),
        },
        Schema::Array(items) => SchemaView::Array(Box::new(schema_view(*items))),
        Schema::Mapping(values) => SchemaView::Mapping(Box::new(schema_view(*values))),
        Schema::Record { name, fields } => SchemaView::Record { name: name_key(name), fields: record_fields_view(fields@) },
        Schema::Union(vs) => SchemaView::Union(schemas_view(vs@)),
        Schema::Ref(name) => SchemaView::Ref(name_key(name)),
    }
}

pub open spec fn record_fields_view(fs: Seq<RecordField>) -> Seq<(Seq<char>, SchemaView)>
    decreases fs,
{
    if fs.len() == 0 {
        Seq::empty()
    } else {
        record_fields_view(fs.drop_last()).push((fs.last().name@, schema_view(fs.last().schema)))
    }
}

pub open spec fn schemas_view(vs: Seq<Schema>) -> Seq<SchemaView>
    decreases vs,
{
    if vs.len() == 0 {
        Seq::empty()
    } else {
        schemas_view(vs.drop_last()).push(schema_view(vs.last()))
    }
}

impl View for Schema {
    type V = SchemaView;

    open spec fn view(&self) -> SchemaView {
        schema_view(*self)
    }
}

pub(crate) proof fn lemma_schemas_view_push(vs: Seq<Schema>, s: Schema)
    ensures
        schemas_view(vs.push(s)) == schemas_view(vs).push(s@),
{
    assert(vs.push(s).drop_last() =~= vs);
}

pub(crate) proof fn lemma_record_fields_view_push(fs: Seq<RecordField>, f: RecordField)
    ensures
        record_fields_view(fs.push(f)) == record_fields_view(fs).push((f.name@, f.schema@)),
{
    assert(fs.push(f).drop_last() =~= fs);
}

pub(crate) proof fn lemma_schemas_view_index(vs: Seq<Schema>)
    ensures
        schemas_view(vs).len() == vs.len(),
        forall|i: int| 0 <= i < vs.len() ==> #[trigger] schemas_view(vs)[i] == vs[i]@,
    decreases vs.len(),
{
    if vs.len() > 0 {
        lemma_schemas_view_index(vs.drop_last());
        assert forall|i: int| 0 <= i < vs.len() implies #[trigger] schemas_view(vs)[i] == vs[i]@ by {
            if i < vs.len() - 1 {
                assert(vs.drop_last()[i] == vs[i]);
            }
        }
    }
}

pub(crate) proof fn lemma_record_fields_view_index(fs: Seq<RecordField>)
    ensures
        record_fields_view(fs).len() == fs.len(),
        forall|i: int| 0 <= i < fs.len() ==> #[trigger] record_fields_view(fs)[i] == (fs[i].name@, fs[i].schema@),
    decreases fs.len(),
{
    if fs.len() > 0 {
        lemma_record_fields_view_index(fs.drop_last());
        assert forall|i: int| 0 <= i < fs.len() implies #[trigger] record_fields_view(fs)[i] == (fs[i].name@, fs[i].schema@) by {
            if i < fs.len() - 1 {
                assert(fs.drop_last()[i] == fs[i]);
            }
        }
    }
}

impl Schema {
    /// A deep copy of this schema.
    pub fn duplicate(&self) -> (r: Schema)
        ensures
            r@ == self@,
    {
        duplicate_schema(self)
    }
}

fn duplicate_schema(s: &Schema) -> (r: Schema)
    ensures
        r@ == s@,
    decreases s,
{
        match s {
            Schema::Null => Schema::Null,
            Schema::Boolean => Schema::Boolean,
            Schema::Int => Schema::Int,
            Schema::Long => Schema::Long,
            Schema::Float => Schema::Float,
            Schema::Double => Schema::Double,
            Schema::Bytes => Schema::Bytes,
            Schema::String => Schema::String,
            Schema::Uuid => Schema::Uuid,
            Schema::Date => Schema::Date,
            Schema::TimeMillis => Schema::TimeMillis,
            Schema::TimeMicros => Schema::TimeMicros,
            Schema::TimestampMillis => Schema::TimestampMillis,
            Schema::TimestampMicros => Schema::TimestampMicros,
            Schema::TimestampNanos => Schema::TimestampNanos,
            Schema::LocalTimestampMillis => Schema::LocalTimestampMillis,
            Schema::LocalTimestampMicros => Schema::LocalTimestampMicros,
            Schema::LocalTimestampNanos => Schema::LocalTimestampNanos,
            Schema::Duration => Schema::Duration,
            Schema::BigDecimal => Schema::BigDecimal,
            Schema::Decimal { precision, scale } => Schema::Decimal { precision: *precision, scale: *scale },
            Schema::Fixed { name, size } => Schema::Fixed { name: name.duplicate(), size: *size },
            Schema::Enum { name, symbols } => {
                let mut out: Vec<String> = Vec::new();
                let mut i: usize = 0;
                while i < symbols.len()
                    invariant
                        0 <= i <= symbols.len(),
                        out.len() == i,
                        forall|j: int| 0 <= j < i ==> #[trigger] out@[j]@ == symbols@[j]@,
                    decreases symbols.len() - i,
                {
                    out.push(symbols[i].clone());
                    i = i + 1;
                }
                assert(out@.map_values(|t: String| t@) =~= symbols@.map_values(|t: String| t@));
                Schema::Enum { name: name.duplicate(), symbols: out }
            },
            Schema::Array(items) => Schema::Array(Box::new(duplicate_schema(items))),
            Schema::Mapping(values) => Schema::Mapping(Box::new(duplicate_schema(values))),
            Schema::Record { name, fields } => Schema::Record { name: name.duplicate(), fields: duplicate_fields(fields) },
            Schema::Union(vs) => Schema::Union(duplicate_schemas(vs)),
            Schema::Ref(name) => Schema::Ref(name.duplicate()),
        }
}

fn duplicate_fields(fields: &Vec<RecordField>) -> (r: Vec<RecordField>)
    ensures
        record_fields_view(r@) == record_fields_view(fields@),
    decreases fields,
{
    let mut out: Vec<RecordField> = Vec::new();
    let mut i: usize = 0;
    while i < fields.len()
        invariant
            0 <= i <= fields.len(),
            record_fields_view(out@) == record_fields_view(fields@.take(i as int)),
        decreases fields.len() - i,
    {
        let f = RecordField { name: fields[i].name.clone(), schema: duplicate_schema(&fields[i].schema) };
        proof {
            lemma_record_fields_view_push(out@, f);
            assert(fields@.take(i + 1).drop_last() =~= fields@.take(i as int));
        }
        out.push(f);
        i = i + 1;
    }
    assert(fields@.take(i as int) =~= fields@);
    out
}

fn duplicate_schemas(vs: &Vec<Schema>) -> (r: Vec<Schema>)
    ensures
        schemas_view(r@) == schemas_view(vs@),
    decreases vs,
{
    let mut out: Vec<Schema> = Vec::new();
    let mut i: usize = 0;
    while i < vs.len()
        invariant
            0 <= i <= vs.len(),
            schemas_view(out@) == schemas_view(vs@.take(i as int)),
        decreases vs.len() - i,
    {
        let c = duplicate_schema(&vs[i]);
        proof {
            lemma_schemas_view_push(out@, c);
            assert(vs@.take(i + 1).drop_last() =~= vs@.take(i as int));
        }
        out.push(c);
        i = i + 1;
    }
    assert(vs@.take(i as int) =~= vs@);
    out
}

} // verus!
