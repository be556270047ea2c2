//! Registering named record schemas and expanding named references into a
//! self-contained schema tree.

use vstd::prelude::*;
use vstd::string::StringExecFns;
use crate::schema::{
    Name, NameKey, RecordField, Schema, SchemaView, name_key, record_fields_view, schemas_view,
    lemma_record_fields_view_index, lemma_record_fields_view_push, lemma_schemas_view_index, lemma_schemas_view_push,
};

verus! {

/// Why a registry operation failed.
#[derive(Debug, Clone, PartialEq)]
pub enum RegistryError {
    /// Only record schemas can be registered.
    ExpectedRecord,
    /// The registry could not be reached or answered with an error.
    ClientError(String),
    /// A reference could not be resolved, or a union could not be rebuilt.
    ResolutionFailed(String),
    /// The schema texts could not be parsed.
    DeserializationFailed(String),
}

/// Registered schemas by qualified name; a later entry for a name overrides an
/// earlier one.
#[derive(Debug)]
pub struct SchemaMap {
    pub entries: Vec<(Name, Schema)>,
}

pub open spec fn map_of(es: Seq<(Name, Schema)>) -> Map<NameKey, SchemaView>
    decreases es.len(),
{
    if es.len() == 0 {
        Map::empty()
    } else {
        map_of(es.drop_last()).insert(name_key(es.last().0), es.last().1@)
    }
}

impl View for SchemaMap {
    type V = Map<NameKey, SchemaView>;

    open spec fn view(&self) -> Map<NameKey, SchemaView> {
        map_of(self.entries@)
    }
}

proof fn lemma_map_of_found(es: Seq<(Name, Schema)>, i: int, k: NameKey)
    requires
        0 <= i < es.len(),
        name_key(es[i].0) == k,
        forall|j: int| i < j < es.len() ==> name_key(#[trigger] es[j].0) != k,
    ensures
        map_of(es).contains_key(k),
        map_of(es)[k] == es[i].1@,
    decreases es.len(),
{
    if i < es.len() - 1 {
        let init = es.drop_last();
        assert forall|j: int| i < j < init.len() implies name_key(#[trigger] init[j].0) != k by {
            assert(init[j] == es[j]);
        }
        lemma_map_of_found(init, i, k);
    }
}

proof fn lemma_map_of_absent(es: Seq<(Name, Schema)>, k: NameKey)
    requires
        forall|j: int| 0 <= j < es.len() ==> name_key(#[trigger] es[j].0) != k,
    ensures
        !map_of(es).contains_key(k),
    decreases es.len(),
{
    if es.len() > 0 {
        let init = es.drop_last();
        assert forall|j: int| 0 <= j < init.len() implies name_key(#[trigger] init[j].0) != k by {
            assert(init[j] == es[j]);
        }
        lemma_map_of_absent(init, k);
    }
}

/// Whether two names are the same qualified name.
pub fn name_eq(a: &Name, b: &Name) -> (r: bool)
    ensures
        r == (name_key(*a) == name_key(*b)),
{
    if a.name != b.name {
        return false;
    }
    match (&a.namespace, &b.namespace) {
        (Some(x), Some(y)) => *x == *y,
        (None, None) => true,
        _ => false,
    }
}

impl SchemaMap {
    pub fn new() -> (r: SchemaMap)
        ensures
            r@ == Map::<NameKey, SchemaView>::empty(),
    {
        SchemaMap { entries: Vec::new() }
    }

    /// The schema registered under `name`, if any.
    pub fn lookup(&self, name: &Name) -> (r: Option<&Schema>)
        ensures
            match r {
                Some(s) => self@.contains_key(name_key(*name)) && s@ == self@[name_key(*name)],
                None => !self@.contains_key(name_key(*name)),
            },
    {
        let mut i: usize = self.entries.len();
        while i > 0
            invariant
                0 <= i <= self.entries.len(),
                forall|j: int| i <= j < self.entries.len() ==> name_key(#[trigger] self.entries@[j].0) != name_key(*name),
            decreases i,
        {
            i = i - 1;
            if name_eq(&self.entries[i].0, name) {
                proof {
                    lemma_map_of_found(self.entries@, i as int, name_key(*name));
                }
                return Some(&self.entries[i].1);
            }
        }
        proof {
            lemma_map_of_absent(self.entries@, name_key(*name));
        }
        None
    }

    /// Registers `schema` under `name`, overriding an earlier entry.
    pub fn insert(&mut self, name: Name, schema: Schema)
        ensures
            final(self)@ == old(self)@.insert(name_key(name), schema@),
    {
        let ghost es = self.entries@;
        self.entries.push((name, schema));
        assert(self.entries@.drop_last() =~= es);
    }
}

/// Registers a record schema under its qualified name; any other schema is
/// refused with `ExpectedRecord` and the map is left as it was.
pub fn register_schema(schema: &Schema, schemas: &mut SchemaMap) -> (r: Result<(), RegistryError>)
    ensures
        match *schema {
            Schema::Record { name, .. } => r is Ok && final(schemas)@ == old(schemas)@.insert(name_key(name), schema@),
            _ => r == Err::<(), RegistryError>(RegistryError::ExpectedRecord) && final(schemas)@ == old(schemas)@,
        },
{
    match schema {
        Schema::Record { name, .. } => {
            schemas.insert(name.duplicate(), schema.duplicate());
            Ok(())
        },
        _ => Err(RegistryError::ExpectedRecord),
    }
}

/// The text of a qualified name: `namespace.name`, or `.name` without one.
pub open spec fn qualified(n: NameKey) -> Seq<char> {
    match n.1 {
        Some(ns) => ns + "."@ + n.0,
        None => "."@ + n.0,
    }
}

pub open spec fn nested_union_text() -> Seq<char> {
    "Unions may not directly contain a union"@
}

pub open spec fn duplicate_union_text() -> Seq<char> {
    "Unions cannot contain duplicate types"@
}

/// The variant tag of a schema.
pub open spec fn kind(s: SchemaView) -> int {
    match s {
        SchemaView::Null => 0,
        SchemaView::Boolean => 1,
        SchemaView::Int => 2,
        SchemaView::Long => 3,
        SchemaView::Float => 4,
        SchemaView::Double => 5,
        SchemaView::Bytes => 6,
        SchemaView::String => 7,
        SchemaView::Uuid => 8,
        SchemaView::Date => 9,
        SchemaView::TimeMillis => 10,
        SchemaView::TimeMicros => 11,
        SchemaView::TimestampMillis => 12,
        SchemaView::TimestampMicros => 13,
        SchemaView::TimestampNanos => 14,
        SchemaView::LocalTimestampMillis => 15,
        SchemaView::LocalTimestampMicros => 16,
        SchemaView::LocalTimestampNanos => 17,
        SchemaView::Duration => 18,
        SchemaView::BigDecimal => 19,
        SchemaView::Decimal { .. } => 20,
        SchemaView::Fixed { .. } => 21,
        SchemaView::Enum { .. } => 22,
        SchemaView::Array(_) => 23,
        SchemaView::Mapping(_) => 24,
        SchemaView::Record { .. } => 25,
        SchemaView::Union(_) => 26,
        SchemaView::Ref(_) => 27,
    }
}

/// Records, enums, fixed and references are told apart by name, not by kind.
pub open spec fn named(s: SchemaView) -> bool {
    s is Record || s is Enum || s is Fixed || s is Ref
}

/// What is wrong with a union's variants, checked in order: the first that is
/// itself a union, or that repeats the kind of an earlier unnamed variant.
pub open spec fn union_fault(vs: Seq<SchemaView>) -> Option<Seq<char>>
    decreases vs.len(),
{
    if vs.len() == 0 {
        None
    } else {
        match union_fault(vs.drop_last()) {
            Some(m) => Some(m),
            None => if vs.last() is Union {
                Some(nested_union_text())
            } else if !named(vs.last()) && exists|j: int| 0 <= j < vs.len() - 1 && kind(#[trigger] vs[j]) == kind(vs.last()) {
                Some(duplicate_union_text())
            } else {
                None
            },
        }
    }
}

/// The expansion of `s` against `m`: every reference replaced by the expansion
/// of what it names. `fuel` bounds the number of references followed along a
/// path; `None` means it ran out (a cyclic definition never has enough).
pub open spec fn expand_spec(s: SchemaView, m: Map<NameKey, SchemaView>, fuel: nat) -> Option<Result<SchemaView, Seq<char>>>
    decreases fuel, s,
{
    match s {
        SchemaView::Record { name, fields } => match expand_fields(fields, m, fuel) {
            Some(Ok(fs)) => Some(Ok(SchemaView::Record { name, fields: fs })),
            Some(Err(e)) => Some(Err(e)),
            None => None,
        },
        SchemaView::Mapping(v) => match expand_spec(*v, m, fuel) {
            Some(Ok(e)) => Some(Ok(SchemaView::Mapping(Box::new(e)))),
            other => other,
        },
        SchemaView::Array(v) => match expand_spec(*v, m, fuel) {
            Some(Ok(e)) => Some(Ok(SchemaView::Array(Box::new(e)))),
            other => other,
        },
        SchemaView::Union(vs) => match expand_all(vs, m, fuel) {
            Some(Ok(es)) => match union_fault(es) {
                Some(msg) => Some(Err(msg)),
                None => Some(Ok(SchemaView::Union(es))),
            },
            Some(Err(e)) => Some(Err(e)),
            None => None,
        },
        SchemaView::Ref(n) => if m.contains_key(n) {
            if fuel == 0 {
                None
            } else {
                expand_spec(m[n], m, (fuel - 1) as nat)
            }
        } else {
            Some(Err(qualified(n)))
        },
        _ => Some(Ok(s)),
    }
}

/// Expands each field's schema in order, stopping at the first failure.
pub open spec fn expand_fields(fs: Seq<(Seq<char>, SchemaView)>, m: Map<NameKey, SchemaView>, fuel: nat) -> Option<Result<Seq<(Seq<char>, SchemaView)>, Seq<char>>>
    decreases fuel, fs,
{
    if fs.len() == 0 {
        Some(Ok(Seq::empty()))
    } else {
        match expand_fields(fs.drop_last(), m, fuel) {
            Some(Ok(prev)) => match expand_spec(fs.last().1, m, fuel) {
                Some(Ok(e)) => Some(Ok(prev.push((fs.last().0, e)))),
                Some(Err(e)) => Some(Err(e)),
                None => None,
            },
            other => other,
        }
    }
}

/// Expands each schema in order, stopping at the first failure.
pub open spec fn expand_all(vs: Seq<SchemaView>, m: Map<NameKey, SchemaView>, fuel: nat) -> Option<Result<Seq<SchemaView>, Seq<char>>>
    decreases fuel, vs,
{
    if vs.len() == 0 {
        Some(Ok(Seq::empty()))
    } else {
        match expand_all(vs.drop_last(), m, fuel) {
            Some(Ok(prev)) => match expand_spec(vs.last(), m, fuel) {
                Some(Ok(e)) => Some(Ok(prev.push(e))),
                Some(Err(e)) => Some(Err(e)),
                None => None,
            },
            other => other,
        }
    }
}

/// The text of a qualified name.
pub fn qualified_name(n: &Name) -> (r: String)
    ensures
        r@ == qualified(name_key(*n)),
{
    match &n.namespace {
        Some(ns) => ns.clone().concat(".").concat(n.name.as_str()),
        None => ".".to_string().concat(n.name.as_str()),
    }
}

fn kind_of(s: &Schema) -> (r: u8)
    ensures
        r as int == kind(s@),
{
    match s {
        Schema::Null => 0,
        Schema::Boolean => 1,
        Schema::Int => 2,
        Schema::Long => 3,
        Schema::Float => 4,
        Schema::Double => 5,
        Schema::Bytes => 6,
        Schema::String => 7,
        Schema::Uuid => 8,
        Schema::Date => 9,
        Schema::TimeMillis => 10,
        Schema::TimeMicros => 11,
        Schema::TimestampMillis => 12,
        Schema::TimestampMicros => 13,
        Schema::TimestampNanos => 14,
        Schema::LocalTimestampMillis => 15,
        Schema::LocalTimestampMicros => 16,
        Schema::LocalTimestampNanos => 17,
        Schema::Duration => 18,
        Schema::BigDecimal => 19,
        Schema::Decimal { .. } => 20,
        Schema::Fixed { .. } => 21,
        Schema::Enum { .. } => 22,
        Schema::Array(_) => 23,
        Schema::Mapping(_) => 24,
        Schema::Record { .. } => 25,
        Schema::Union(_) => 26,
        Schema::Ref(_) => 27,
    }
}

proof fn lemma_union_fault_step(vs: Seq<SchemaView>, i: int)
    requires
        0 <= i < vs.len(),
    ensures
        union_fault(vs.take(i + 1)) == match union_fault(vs.take(i)) {
            Some(m) => Some(m),
            None => if vs[i] is Union {
                Some(nested_union_text())
            } else if !named(vs[i]) && exists|j: int| 0 <= j < i && kind(#[trigger] vs[j]) == kind(vs[i]) {
                Some(duplicate_union_text())
            } else {
                None
            },
        },
{
    let t = vs.take(i + 1);
    assert(t.drop_last() =~= vs.take(i));
    assert forall|j: int| 0 <= j < i implies #[trigger] t[j] == vs[j] by {}
    if exists|j: int| 0 <= j < i && kind(#[trigger] vs[j]) == kind(vs[i]) {
        let j = choose|j: int| 0 <= j < i && kind(#[trigger] vs[j]) == kind(vs[i]);
        assert(kind(t[j]) == kind(t.last()));
    }
}

proof fn lemma_union_fault_prefix(vs: Seq<SchemaView>, k: int)
    requires
        0 <= k <= vs.len(),
        union_fault(vs.take(k)) is Some,
    ensures
        union_fault(vs) == union_fault(vs.take(k)),
    decreases vs.len() - k,
{
    if k < vs.len() {
        lemma_union_fault_step(vs, k);
        lemma_union_fault_prefix(vs, k + 1);
    } else {
        assert(vs.take(k) =~= vs);
    }
}

/// Checks a union's expanded variants as the union constructor does.
fn union_check(vs: &Vec<Schema>) -> (r: Option<String>)
    ensures
        match r {
            Some(m) => union_fault(schemas_view(vs@)) == Some(m@),
            None => union_fault(schemas_view(vs@)) is None,
        },
{
    let ghost sv = schemas_view(vs@);
    proof {
        lemma_schemas_view_index(vs@);
        assert(sv.take(0) =~= Seq::<SchemaView>::empty());
    }
    let mut i: usize = 0;
    while i < vs.len()
        invariant
            0 <= i <= vs.len(),
            sv == schemas_view(vs@),
            sv.len() == vs.len(),
            forall|j: int| 0 <= j < vs.len() ==> #[trigger] sv[j] == vs@[j]@,
            union_fault(sv.take(i as int)) is None,
        decreases vs.len() - i,
    {
        proof {
            lemma_union_fault_step(sv, i as int);
        }
        if let Schema::Union(_) = &vs[i] {
            let m = "Unions may not directly contain a union".to_string();
            proof {
                lemma_union_fault_prefix(sv, i + 1);
            }
            return Some(m);
        }
        let named_variant = matches!(&vs[i], Schema::Record { .. } | Schema::Enum { .. } | Schema::Fixed { .. } | Schema::Ref(_));
        if !named_variant {
            let k = kind_of(&vs[i]);
            let mut j: usize = 0;
            while j < i
                invariant
                    0 <= j <= i < vs.len(),
                    sv == schemas_view(vs@),
                    sv.len() == vs.len(),
                    forall|l: int| 0 <= l < vs.len() ==> #[trigger] sv[l] == vs@[l]@,
                    k as int == kind(sv[i as int]),
                    union_fault(sv.take(i as int)) is None,
                    !(sv[i as int] is Union),
                    !named(sv[i as int]),
                    forall|l: int| 0 <= l < j ==> kind(#[trigger] sv[l]) != k as int,
                decreases i - j,
            {
                if kind_of(&vs[j]) == k {
                    let m = "Unions cannot contain duplicate types".to_string();
                    proof {
                        assert(kind(sv[j as int]) == kind(sv[i as int]));
                        lemma_union_fault_step(sv, i as int);
                        lemma_union_fault_prefix(sv, i + 1);
                    }
                    return Some(m);
                }
                j = j + 1;
            }
        }
        i = i + 1;
    }
    proof {
        assert(sv.take(i as int) =~= sv);
    }
    None
}

pub open spec fn cycle_text() -> Seq<char> {
    "reference cycle"@
}

/// The outcome of a bounded expansion: the expansion, or `ResolutionFailed`
/// naming a reference cycle where the bound ran out.
pub open spec fn expand_bounded(r: Result<Schema, RegistryError>, e: Option<Result<SchemaView, Seq<char>>>) -> bool {
    match e {
        Some(x) => expand_outcome(r, x),
        None => r matches Err(RegistryError::ResolutionFailed(m)) && m@ == cycle_text(),
    }
}

fn cycle_text_exec() -> (r: String)
    ensures
        r@ == cycle_text(),
{
    "reference cycle".to_string()
}

pub open spec fn expand_outcome(r: Result<Schema, RegistryError>, e: Result<SchemaView, Seq<char>>) -> bool {
    match r {
        Ok(s) => e == Ok::<SchemaView, Seq<char>>(s@),
        Err(RegistryError::ResolutionFailed(m)) => e == Err::<SchemaView, Seq<char>>(m@),
        Err(_) => false,
    }
}

proof fn lemma_expand_fields_step(fs: Seq<(Seq<char>, SchemaView)>, m: Map<NameKey, SchemaView>, fuel: nat, i: int)
    requires
        0 <= i < fs.len(),
    ensures
        expand_fields(fs.take(i + 1), m, fuel) == match expand_fields(fs.take(i), m, fuel) {
            Some(Ok(prev)) => match expand_spec(fs[i].1, m, fuel) {
                Some(Ok(e)) => Some(Ok(prev.push((fs[i].0, e)))),
                Some(Err(e)) => Some(Err(e)),
                None => None,
            },
            other => other,
        },
{
    assert(fs.take(i + 1).drop_last() =~= fs.take(i));
}

proof fn lemma_expand_fields_prefix(fs: Seq<(Seq<char>, SchemaView)>, m: Map<NameKey, SchemaView>, fuel: nat, k: int)
    requires
        0 <= k <= fs.len(),
        !(expand_fields(fs.take(k), m, fuel) matches Some(Ok(_))),
    ensures
        expand_fields(fs, m, fuel) == expand_fields(fs.take(k), m, fuel),
    decreases fs.len() - k,
{
    if k < fs.len() {
        lemma_expand_fields_step(fs, m, fuel, k);
        lemma_expand_fields_prefix(fs, m, fuel, k + 1);
    } else {
        assert(fs.take(k) =~= fs);
    }
}

proof fn lemma_expand_all_step(vs: Seq<SchemaView>, m: Map<NameKey, SchemaView>, fuel: nat, i: int)
    requires
        0 <= i < vs.len(),
    ensures
        expand_all(vs.take(i + 1), m, fuel) == match expand_all(vs.take(i), m, fuel) {
            Some(Ok(prev)) => match expand_spec(vs[i], m, fuel) {
                Some(Ok(e)) => Some(Ok(prev.push(e))),
                Some(Err(e)) => Some(Err(e)),
                None => None,
            },
            other => other,
        },
{
    assert(vs.take(i + 1).drop_last() =~= vs.take(i));
}

proof fn lemma_expand_all_prefix(vs: Seq<SchemaView>, m: Map<NameKey, SchemaView>, fuel: nat, k: int)
    requires
        0 <= k <= vs.len(),
        !(expand_all(vs.take(k), m, fuel) matches Some(Ok(_))),
    ensures
        expand_all(vs, m, fuel) == expand_all(vs.take(k), m, fuel),
    decreases vs.len() - k,
{
    if k < vs.len() {
        lemma_expand_all_step(vs, m, fuel, k);
        lemma_expand_all_prefix(vs, m, fuel, k + 1);
    } else {
        assert(vs.take(k) =~= vs);
    }
}

/// Like `expand_schema`, following at most `fuel` references along any path;
/// past that bound it fails with `ResolutionFailed`, naming a reference cycle.
pub fn expand_within(src: &Schema, schemas: &SchemaMap, fuel: usize) -> (r: Result<Schema, RegistryError>)
    ensures
        expand_bounded(r, expand_spec(src@, schemas@, fuel as nat)),
    decreases fuel, src,
{
    match src {
        Schema::Record { name, fields } => {
            let fs = expand_fields_within(fields, schemas, fuel)?;
            Ok(Schema::Record { name: name.duplicate(), fields: fs })
        },
        Schema::Mapping(v) => {
            let e = expand_within(v, schemas, fuel)?;
            Ok(Schema::Mapping(Box::new(e)))
        },
        Schema::Array(v) => {
            let e = expand_within(v, schemas, fuel)?;
            Ok(Schema::Array(Box::new(e)))
        },
        Schema::Union(vs) => {
            let es = expand_all_within(vs, schemas, fuel)?;
            match union_check(&es) {
                Some(m) => Err(RegistryError::ResolutionFailed(m)),
                None => Ok(Schema::Union(es)),
            }
        },
        Schema::Ref(n) => match schemas.lookup(n) {
            Some(resolved) => {
                if fuel == 0 {
                    Err(RegistryError::ResolutionFailed(cycle_text_exec()))
                } else {
                    expand_within(resolved, schemas, fuel - 1)
                }
            },
            None => Err(RegistryError::ResolutionFailed(qualified_name(n))),
        },
        _ => Ok(src.duplicate()),
    }
}

fn expand_fields_within(fields: &Vec<RecordField>, schemas: &SchemaMap, fuel: usize) -> (r: Result<Vec<RecordField>, RegistryError>)
    ensures
        match r {
            Ok(fs) => expand_fields(record_fields_view(fields@), schemas@, fuel as nat) == Some(Ok::<Seq<(Seq<char>, SchemaView)>, Seq<char>>(record_fields_view(fs@))),
            Err(RegistryError::ResolutionFailed(m)) => match expand_fields(record_fields_view(fields@), schemas@, fuel as nat) {
                Some(x) => x == Err::<Seq<(Seq<char>, SchemaView)>, Seq<char>>(m@),
                None => m@ == cycle_text(),
            },
            Err(_) => false,
        },
    decreases fuel, fields,
{
    let ghost fv = record_fields_view(fields@);
    proof {
        lemma_record_fields_view_index(fields@);
        assert(fv.take(0) =~= Seq::<(Seq<char>, SchemaView)>::empty());
    }
    let mut out: Vec<RecordField> = Vec::new();
    let mut i: usize = 0;
    while i < fields.len()
        invariant
            0 <= i <= fields.len(),
            fv == record_fields_view(fields@),
            fv.len() == fields.len(),
            forall|j: int| 0 <= j < fields.len() ==> #[trigger] fv[j] == (fields@[j].name@, fields@[j].schema@),
            expand_fields(fv.take(i as int), schemas@, fuel as nat) == Some(Ok::<Seq<(Seq<char>, SchemaView)>, Seq<char>>(record_fields_view(out@))),
        decreases fields.len() - i,
    {
        proof {
            lemma_expand_fields_step(fv, schemas@, fuel as nat, i as int);
        }
        match expand_within(&fields[i].schema, schemas, fuel) {
            Ok(e) => {
                let f = RecordField { name: fields[i].name.clone(), schema: e };
                proof {
                    lemma_record_fields_view_push(out@, f);
                }
                out.push(f);
            },
            Err(err) => {
                proof {
                    lemma_expand_fields_prefix(fv, schemas@, fuel as nat, i + 1);
                }
                return Err(err);
            },
        }
        i = i + 1;
    }
    proof {
        assert(fv.take(i as int) =~= fv);
    }
    Ok(out)
}

fn expand_all_within(vs: &Vec<Schema>, schemas: &SchemaMap, fuel: usize) -> (r: Result<Vec<Schema>, RegistryError>)
    ensures
        match r {
            Ok(es) => expand_all(schemas_view(vs@), schemas@, fuel as nat) == Some(Ok::<Seq<SchemaView>, Seq<char>>(schemas_view(es@))),
            Err(RegistryError::ResolutionFailed(m)) => match expand_all(schemas_view(vs@), schemas@, fuel as nat) {
                Some(x) => x == Err::<Seq<SchemaView>, Seq<char>>(m@),
                None => m@ == cycle_text(),
            },
            Err(_) => false,
        },
    decreases fuel, vs,
{
    let ghost sv = schemas_view(vs@);
    proof {
        lemma_schemas_view_index(vs@);
        assert(sv.take(0) =~= Seq::<SchemaView>::empty());
    }
    let mut out: Vec<Schema> = Vec::new();
    let mut i: usize = 0;
    while i < vs.len()
        invariant
            0 <= i <= vs.len(),
            sv == schemas_view(vs@),
            sv.len() == vs.len(),
            forall|j: int| 0 <= j < vs.len() ==> #[trigger] sv[j] == vs@[j]@,
            expand_all(sv.take(i as int), schemas@, fuel as nat) == Some(Ok::<Seq<SchemaView>, Seq<char>>(schemas_view(out@))),
        decreases vs.len() - i,
    {
        proof {
            lemma_expand_all_step(sv, schemas@, fuel as nat, i as int);
        }
        match expand_within(&vs[i], schemas, fuel) {
            Ok(e) => {
                proof {
                    lemma_schemas_view_push(out@, e);
                }
                out.push(e);
            },
            Err(err) => {
                proof {
                    lemma_expand_all_prefix(sv, schemas@, fuel as nat, i + 1);
                }
                return Err(err);
            },
        }
        i = i + 1;
    }
    proof {
        assert(sv.take(i as int) =~= sv);
    }
    Ok(out)
}

/// More fuel never changes an expansion that already finished.
proof fn lemma_expand_mono(s: SchemaView, m: Map<NameKey, SchemaView>, f1: nat, f2: nat)
    requires
        f1 <= f2,
        expand_spec(s, m, f1) is Some,
    ensures
        expand_spec(s, m, f2) == expand_spec(s, m, f1),
    decreases f1, s,
{
    match s {
        SchemaView::Record { fields, .. } => {
            lemma_expand_fields_mono(fields, m, f1, f2);
        },
        SchemaView::Mapping(v) => {
            lemma_expand_mono(*v, m, f1, f2);
        },
        SchemaView::Array(v) => {
            lemma_expand_mono(*v, m, f1, f2);
        },
        SchemaView::Union(vs) => {
            lemma_expand_all_mono(vs, m, f1, f2);
        },
        SchemaView::Ref(n) => {
            if m.contains_key(n) {
                lemma_expand_mono(m[n], m, (f1 - 1) as nat, (f2 - 1) as nat);
            }
        },
        _ => {},
    }
}

proof fn lemma_expand_fields_mono(fs: Seq<(Seq<char>, SchemaView)>, m: Map<NameKey, SchemaView>, f1: nat, f2: nat)
    requires
        f1 <= f2,
        expand_fields(fs, m, f1) is Some,
    ensures
        expand_fields(fs, m, f2) == expand_fields(fs, m, f1),
    decreases f1, fs,
{
    if fs.len() > 0 {
        lemma_expand_fields_mono(fs.drop_last(), m, f1, f2);
        if expand_fields(fs.drop_last(), m, f1) matches Some(Ok(_)) {
            lemma_expand_mono(fs.last().1, m, f1, f2);
        }
    }
}

proof fn lemma_expand_all_mono(vs: Seq<SchemaView>, m: Map<NameKey, SchemaView>, f1: nat, f2: nat)
    requires
        f1 <= f2,
        expand_all(vs, m, f1) is Some,
    ensures
        expand_all(vs, m, f2) == expand_all(vs, m, f1),
    decreases f1, vs,
{
    if vs.len() > 0 {
        lemma_expand_all_mono(vs.drop_last(), m, f1, f2);
        if expand_all(vs.drop_last(), m, f1) matches Some(Ok(_)) {
            lemma_expand_mono(vs.last(), m, f1, f2);
        }
    }
}

/// Whether expanding `s` against `m` finishes: no cycle of references is met
/// (and no path follows more references than a `usize` counts).
pub open spec fn expandable(s: SchemaView, m: Map<NameKey, SchemaView>) -> bool {
    exists|fuel: nat| fuel <= usize::MAX && (#[trigger] expand_spec(s, m, fuel)) is Some
}

/// The expansion of `s` against `m`, for a schema that is expandable.
pub open spec fn expanded(s: SchemaView, m: Map<NameKey, SchemaView>) -> Result<SchemaView, Seq<char>> {
    expand_spec(s, m, choose|fuel: nat| fuel <= usize::MAX && (#[trigger] expand_spec(s, m, fuel)) is Some)->Some_0
}

/// Replaces every reference in `src` by a deep copy of the schema it names,
/// itself expanded. A name that `schemas` lacks, or a union whose expanded
/// variants the union constructor refuses, gives `ResolutionFailed` with the
/// name or the reason. Callers keep cyclic definitions away.
pub fn expand_schema(src: &Schema, schemas: &SchemaMap) -> (r: Result<Schema, RegistryError>)
    requires
        expandable(src@, schemas@),
    ensures
        expand_outcome(r, expanded(src@, schemas@)),
{
    let ghost fuel = choose|fuel: nat| fuel <= usize::MAX && (#[trigger] expand_spec(src@, schemas@, fuel)) is Some;
    proof {
        lemma_expand_mono(src@, schemas@, fuel, usize::MAX as nat);
    }
    expand_within(src, schemas, usize::MAX)
}

/// A schema with no references, whose unions the union constructor accepts.
pub open spec fn self_contained(s: SchemaView) -> bool
    decreases s,
{
    match s {
        SchemaView::Ref(_) => false,
        SchemaView::Array(v) => self_contained(*v),
        SchemaView::Mapping(v) => self_contained(*v),
        SchemaView::Record { fields, .. } => forall|i: int| 0 <= i < fields.len() ==> self_contained(#[trigger] fields[i].1),
        SchemaView::Union(vs) => union_fault(vs) is None && forall|i: int| 0 <= i < vs.len() ==> self_contained(#[trigger] vs[i]),
        _ => true,
    }
}

proof fn lemma_expand_self_contained(s: SchemaView, m: Map<NameKey, SchemaView>, fuel: nat)
    requires
        self_contained(s),
    ensures
        expand_spec(s, m, fuel) == Some(Ok::<SchemaView, Seq<char>>(s)),
    decreases fuel, s,
{
    match s {
        SchemaView::Array(v) => {
            lemma_expand_self_contained(*v, m, fuel);
        },
        SchemaView::Mapping(v) => {
            lemma_expand_self_contained(*v, m, fuel);
        },
        SchemaView::Record { fields, .. } => {
            lemma_expand_fields_self_contained(fields, m, fuel);
        },
        SchemaView::Union(vs) => {
            lemma_expand_all_self_contained(vs, m, fuel);
        },
        _ => {},
    }
}

proof fn lemma_expand_fields_self_contained(fs: Seq<(Seq<char>, SchemaView)>, m: Map<NameKey, SchemaView>, fuel: nat)
    requires
        forall|i: int| 0 <= i < fs.len() ==> self_contained(#[trigger] fs[i].1),
    ensures
        expand_fields(fs, m, fuel) == Some(Ok::<Seq<(Seq<char>, SchemaView)>, Seq<char>>(fs)),
    decreases fuel, fs,
{
    if fs.len() > 0 {
        let init = fs.drop_last();
        assert forall|i: int| 0 <= i < init.len() implies self_contained(#[trigger] init[i].1) by {
            assert(init[i] == fs[i]);
        }
        lemma_expand_fields_self_contained(init, m, fuel);
        assert(self_contained(fs[fs.len() - 1].1));
        lemma_expand_self_contained(fs.last().1, m, fuel);
        assert(init.push((fs.last().0, fs.last().1)) =~= fs);
    } else {
        assert(fs =~= Seq::<(Seq<char>, SchemaView)>::empty());
    }
}

proof fn lemma_expand_all_self_contained(vs: Seq<SchemaView>, m: Map<NameKey, SchemaView>, fuel: nat)
    requires
        forall|i: int| 0 <= i < vs.len() ==> self_contained(#[trigger] vs[i]),
    ensures
        expand_all(vs, m, fuel) == Some(Ok::<Seq<SchemaView>, Seq<char>>(vs)),
    decreases fuel, vs,
{
    if vs.len() > 0 {
        let init = vs.drop_last();
        assert forall|i: int| 0 <= i < init.len() implies self_contained(#[trigger] init[i]) by {
            assert(init[i] == vs[i]);
        }
        lemma_expand_all_self_contained(init, m, fuel);
        assert(self_contained(vs[vs.len() - 1]));
        lemma_expand_self_contained(vs.last(), m, fuel);
        assert(init.push(vs.last()) =~= vs);
    } else {
        assert(vs =~= Seq::<SchemaView>::empty());
    }
}

/// Expanding a schema that holds no reference, against no registered
/// schemas, gives the schema back unchanged (its unions must be ones the
/// union constructor accepts: `[Int, Int]` is refused).
pub proof fn lemma_expand_identity(s: Schema)
    requires
        self_contained(s@),
    ensures
        expandable(s@, Map::<NameKey, SchemaView>::empty()),
        expanded(s@, Map::<NameKey, SchemaView>::empty()) == Ok::<SchemaView, Seq<char>>(s@),
{
    let m = Map::<NameKey, SchemaView>::empty();
    lemma_expand_self_contained(s@, m, 0);
    let f = choose|fuel: nat| fuel <= usize::MAX && (#[trigger] expand_spec(s@, m, fuel)) is Some;
    lemma_expand_self_contained(s@, m, f);
}

} // verus!
