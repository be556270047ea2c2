//! Append-only column builders, one variant per kind of column.

use vstd::prelude::*;
use crate::datatype::{DType, DataType, Field, FieldView, fields_of};

verus! {

/// A list column under construction: offsets into `values` (starting at 0),
/// one validity bit per slot, and the items.
#[derive(Debug)]
pub struct ListBuilder {
    pub item: Field,
    pub offsets: Vec<usize>,
    pub validity: Vec<bool>,
    pub values: Box<ColumnBuilder>,
}

/// A map column under construction: offsets into the entries, one validity
/// bit per slot, the keys, and the values.
#[derive(Debug)]
pub struct MapBuilder {
    pub offsets: Vec<usize>,
    pub validity: Vec<bool>,
    pub keys: Vec<String>,
    pub values: Box<ColumnBuilder>,
}

/// A struct column under construction: the fields' metadata, one validity
/// bit per slot, and one child column per field.
#[derive(Debug)]
pub struct StructBuilder {
    pub fields: Vec<Field>,
    pub validity: Vec<bool>,
    pub children: Vec<ColumnBuilder>,
}

/// A typed, append-only column builder. `None` marks a null slot.
#[derive(Debug)]
pub enum ColumnBuilder {
    /// One unit per slot.
    Null(Vec<()>),
    Boolean(Vec<Option<bool>>),
    /// 32-bit integers: plain, dates and millisecond times.
    Int32(DataType, Vec<Option<i32>>),
    /// 64-bit integers: plain, microsecond times and timestamps.
    Int64(DataType, Vec<Option<i64>>),
    /// Single-precision bit patterns.
    Float32(Vec<Option<u32>>),
    /// Double-precision bit patterns.
    Float64(Vec<Option<u64>>),
    Decimal128(DataType, Vec<Option<i128>>),
    Utf8(Vec<Option<String>>),
    Binary(Vec<Option<Vec<u8>>>),
    /// The width of each slot, and the slots.
    FixedSizeBinary(usize, Vec<Option<Vec<u8>>>),
    List(ListBuilder),
    Mapping(MapBuilder),
    Struct(StructBuilder),
}

/// The mathematical value of a column builder.
pub enum Column {
    Null(nat),
    Boolean(Seq<Option<bool>>),
    Int32(DType, Seq<Option<i32>>),
    Int64(DType, Seq<Option<i64>>),
    Float32(Seq<Option<u32>>),
    Float64(Seq<Option<u64>>),
    Decimal128(DType, Seq<Option<i128>>),
    Utf8(Seq<Option<Seq<char>>>),
    Binary(Seq<Option<Seq<u8>>>),
    FixedSizeBinary(nat, Seq<Option<Seq<u8>>>),
    /// Item field, offsets, validity, items.
    List(FieldView, Seq<nat>, Seq<bool>, Box<Column>),
    /// Offsets, validity, keys, values.
    Mapping(Seq<nat>, Seq<bool>, Seq<Seq<char>>, Box<Column>),
    /// Fields, validity, children.
    Struct(Seq<FieldView>, Seq<bool>, Seq<Column>),
}

pub open spec fn opt_str(o: Option<String>) -> Option<Seq<char>> {
    match o {
        Some(s) => Some(s@),
        None => None,
    }
}

pub open spec fn opt_bytes(o: Option<Vec<u8>>) -> Option<Seq<u8>> {
    match o {
        Some(b) => Some(b@),
        None => None,
    }
}

pub open spec fn nats(s: Seq<usize>) -> Seq<nat> {
    s.map_values(|x: usize| x as nat)
}

pub open spec fn strs(s: Seq<String>) -> Seq<Seq<char>> {
    s.map_values(|x: String| x@)
}

pub open spec fn column_of(b: ColumnBuilder) -> Column
    decreases b,
{
    match b {
        ColumnBuilder::Null(v) => Column::Null(v.len() as nat),
        ColumnBuilder::Boolean(v) => Column::Boolean(v@),
        ColumnBuilder::Int32(d, v) => Column::Int32(d@, v@),
        ColumnBuilder::Int64(d, v) => Column::Int64(d@, v@),
        ColumnBuilder::Float32(v) => Column::Float32(v@),
        ColumnBuilder::Float64(v) => Column::Float64(v@),
        ColumnBuilder::Decimal128(d, v) => Column::Decimal128(d@, v@),
        ColumnBuilder::Utf8(v) => Column::Utf8(v@.map_values(|o: Option<String>| opt_str(o))),
        ColumnBuilder::Binary(v) => Column::Binary(v@.map_values(|o: Option<Vec<u8>>| opt_bytes(o))),
        ColumnBuilder::FixedSizeBinary(w, v) => Column::FixedSizeBinary(
            w as nat,
            v@.map_values(|o: Option<Vec<u8>>| opt_bytes(o)),
        ),
        ColumnBuilder::List(l) => Column::List(
            l.item@,
            nats(l.offsets@),
            l.validity@,
            Box::new(column_of(*l.values)),
        ),
        ColumnBuilder::Mapping(m) => Column::Mapping(
            nats(m.offsets@),
            m.validity@,
            strs(m.keys@),
            Box::new(column_of(*m.values)),
        ),
        ColumnBuilder::Struct(s) => Column::Struct(fields_of(s.fields@), s.validity@, columns_of(s.children@)),
    }
}

pub open spec fn columns_of(cs: Seq<ColumnBuilder>) -> Seq<Column>
    decreases cs,
{
    if cs.len() == 0 {
        Seq::empty()
    } else {
        columns_of(cs.drop_last()).push(column_of(cs.last()))
    }
}

impl View for ColumnBuilder {
    type V = Column;

    open spec fn view(&self) -> Column {
        column_of(*self)
    }
}

/// A builder whose list and map offsets are consistent with its items.
pub open spec fn wf_builder(b: ColumnBuilder) -> bool {
    wf_column(b@)
}

/// Offsets start at zero, never decrease, and end at the number of items; a
/// struct's children have one slot per struct slot.
pub open spec fn wf_column(c: Column) -> bool
    decreases c,
{
    match c {
        Column::List(_, offs, valid, items) => {
            &&& offs.len() == valid.len() + 1
            &&& offs[0] == 0
            &&& forall|i: int, j: int| 0 <= i <= j < offs.len() ==> offs[i] <= offs[j]
            &&& offs.last() == col_len(*items)
            &&& wf_column(*items)
        },
        Column::Mapping(offs, valid, keys, vals) => {
            &&& offs.len() == valid.len() + 1
            &&& offs[0] == 0
            &&& forall|i: int, j: int| 0 <= i <= j < offs.len() ==> offs[i] <= offs[j]
            &&& offs.last() == col_len(*vals)
            &&& keys.len() == col_len(*vals)
            &&& wf_column(*vals)
        },
        Column::Struct(fs, valid, cs) => {
            &&& cs.len() == fs.len()
            &&& forall|i: int| 0 <= i < cs.len() ==> col_len(#[trigger] cs[i]) == valid.len()
            &&& forall|i: int| 0 <= i < cs.len() ==> wf_column(#[trigger] cs[i])
        },
        _ => true,
    }
}

/// The number of slots of a column.
pub open spec fn col_len(c: Column) -> nat {
    match c {
        Column::Null(n) => n,
        Column::Boolean(v) => v.len(),
        Column::Int32(_, v) => v.len(),
        Column::Int64(_, v) => v.len(),
        Column::Float32(v) => v.len(),
        Column::Float64(v) => v.len(),
        Column::Decimal128(_, v) => v.len(),
        Column::Utf8(v) => v.len(),
        Column::Binary(v) => v.len(),
        Column::FixedSizeBinary(_, v) => v.len(),
        Column::List(_, _, valid, _) => valid.len(),
        Column::Mapping(_, valid, _, _) => valid.len(),
        Column::Struct(_, valid, _) => valid.len(),
    }
}

/// A column with one more null slot; a struct gives each child a null slot too,
/// so that siblings stay aligned.
pub open spec fn null_spec(c: Column) -> Column
    decreases c,
{
    match c {
        Column::Null(n) => Column::Null(n + 1),
        Column::Boolean(v) => Column::Boolean(v.push(None)),
        Column::Int32(d, v) => Column::Int32(d, v.push(None)),
        Column::Int64(d, v) => Column::Int64(d, v.push(None)),
        Column::Float32(v) => Column::Float32(v.push(None)),
        Column::Float64(v) => Column::Float64(v.push(None)),
        Column::Decimal128(d, v) => Column::Decimal128(d, v.push(None)),
        Column::Utf8(v) => Column::Utf8(v.push(None)),
        Column::Binary(v) => Column::Binary(v.push(None)),
        Column::FixedSizeBinary(w, v) => Column::FixedSizeBinary(w, v.push(None)),
        Column::List(f, offs, valid, items) => Column::List(f, offs.push(offs.last()), valid.push(false), items),
        Column::Mapping(offs, valid, keys, vals) => Column::Mapping(offs.push(offs.last()), valid.push(false), keys, vals),
        Column::Struct(fs, valid, cs) => Column::Struct(fs, valid.push(false), nulls_spec(cs)),
    }
}

pub open spec fn nulls_spec(cs: Seq<Column>) -> Seq<Column>
    decreases cs,
{
    if cs.len() == 0 {
        Seq::empty()
    } else {
        nulls_spec(cs.drop_last()).push(null_spec(cs.last()))
    }
}

pub(crate) proof fn lemma_columns_of_update(cs: Seq<ColumnBuilder>, i: int, c: ColumnBuilder)
    requires
        0 <= i < cs.len(),
    ensures
        columns_of(cs.update(i, c)) == columns_of(cs).update(i, c@),
        columns_of(cs).len() == cs.len(),
    decreases cs.len(),
{
    let u = cs.update(i, c);
    if i == cs.len() - 1 {
        assert(u.drop_last() =~= cs.drop_last());
        lemma_columns_of_len(cs.drop_last());
        assert(columns_of(u) =~= columns_of(cs).update(i, c@));
    } else {
        assert(u.drop_last() =~= cs.drop_last().update(i, c));
        lemma_columns_of_update(cs.drop_last(), i, c);
        assert(columns_of(u) =~= columns_of(cs).update(i, c@));
    }
    lemma_columns_of_len(cs);
}

pub(crate) proof fn lemma_columns_of_len(cs: Seq<ColumnBuilder>)
    ensures
        columns_of(cs).len() == cs.len(),
        forall|i: int| 0 <= i < cs.len() ==> #[trigger] columns_of(cs)[i] == cs[i]@,
    decreases cs.len(),
{
    if cs.len() > 0 {
        lemma_columns_of_len(cs.drop_last());
        assert forall|i: int| 0 <= i < cs.len() implies #[trigger] columns_of(cs)[i] == cs[i]@ by {
            if i < cs.len() - 1 {
                assert(cs.drop_last()[i] == cs[i]);
            }
        }
    }
}

pub(crate) proof fn lemma_nulls_spec(cs: Seq<Column>)
    ensures
        nulls_spec(cs).len() == cs.len(),
        forall|i: int| 0 <= i < cs.len() ==> #[trigger] nulls_spec(cs)[i] == null_spec(cs[i]),
    decreases cs.len(),
{
    if cs.len() > 0 {
        lemma_nulls_spec(cs.drop_last());
        assert forall|i: int| 0 <= i < cs.len() implies #[trigger] nulls_spec(cs)[i] == null_spec(cs[i]) by {
            if i < cs.len() - 1 {
                assert(cs.drop_last()[i] == cs[i]);
            }
        }
    }
}

pub(crate) proof fn lemma_str_push(v: Seq<Option<String>>, x: Option<String>)
    ensures
        v.push(x).map_values(|o: Option<String>| opt_str(o)) == v.map_values(|o: Option<String>| opt_str(o)).push(opt_str(x)),
{
    assert(v.push(x).map_values(|o: Option<String>| opt_str(o)) =~= v.map_values(|o: Option<String>| opt_str(o)).push(opt_str(x)));
}

pub(crate) proof fn lemma_bytes_push(v: Seq<Option<Vec<u8>>>, x: Option<Vec<u8>>)
    ensures
        v.push(x).map_values(|o: Option<Vec<u8>>| opt_bytes(o)) == v.map_values(|o: Option<Vec<u8>>| opt_bytes(o)).push(opt_bytes(x)),
{
    assert(v.push(x).map_values(|o: Option<Vec<u8>>| opt_bytes(o)) =~= v.map_values(|o: Option<Vec<u8>>| opt_bytes(o)).push(opt_bytes(x)));
}

pub(crate) proof fn lemma_nats_push(v: Seq<usize>, x: usize)
    ensures
        nats(v.push(x)) == nats(v).push(x as nat),
{
    assert(nats(v.push(x)) =~= nats(v).push(x as nat));
}

pub(crate) proof fn lemma_strs_push(v: Seq<String>, x: String)
    ensures
        strs(v.push(x)) == strs(v).push(x@),
{
    assert(strs(v.push(x)) =~= strs(v).push(x@));
}

impl ColumnBuilder {
    /// The number of slots.
    pub fn len(&self) -> (r: usize)
        ensures
            r == col_len(self@),
    {
        match self {
            ColumnBuilder::Null(v) => v.len(),
            ColumnBuilder::Boolean(v) => v.len(),
            ColumnBuilder::Int32(_, v) => v.len(),
            ColumnBuilder::Int64(_, v) => v.len(),
            ColumnBuilder::Float32(v) => v.len(),
            ColumnBuilder::Float64(v) => v.len(),
            ColumnBuilder::Decimal128(_, v) => v.len(),
            ColumnBuilder::Utf8(v) => v.len(),
            ColumnBuilder::Binary(v) => v.len(),
            ColumnBuilder::FixedSizeBinary(_, v) => v.len(),
            ColumnBuilder::List(l) => l.validity.len(),
            ColumnBuilder::Mapping(m) => m.validity.len(),
            ColumnBuilder::Struct(s) => s.validity.len(),
        }
    }

    /// Appends a null slot. A list or map slot is closed as absent; a struct
    /// slot is null and each child gets a null slot.
    pub fn append_null(&mut self)
        requires
            wf_builder(*old(self)),
        ensures
            final(self)@ == null_spec(old(self)@),
        decreases *old(self),
    {
        let ghost before = *self;
        match self {
            ColumnBuilder::Null(v) => {
                v.push(());
            },
            ColumnBuilder::Boolean(v) => v.push(None),
            ColumnBuilder::Int32(_, v) => v.push(None),
            ColumnBuilder::Int64(_, v) => v.push(None),
            ColumnBuilder::Float32(v) => v.push(None),
            ColumnBuilder::Float64(v) => v.push(None),
            ColumnBuilder::Decimal128(_, v) => v.push(None),
            ColumnBuilder::Utf8(v) => {
                proof {
                    lemma_str_push(v@, None);
                }
                v.push(None);
            },
            ColumnBuilder::Binary(v) => {
                proof {
                    lemma_bytes_push(v@, None);
                }
                v.push(None);
            },
            ColumnBuilder::FixedSizeBinary(_, v) => {
                proof {
                    lemma_bytes_push(v@, None);
                }
                v.push(None);
            },
            ColumnBuilder::List(l) => {
                let last = l.offsets[l.offsets.len() - 1];
                proof {
                    lemma_nats_push(l.offsets@, last);
                }
                l.offsets.push(last);
                l.validity.push(false);
            },
            ColumnBuilder::Mapping(m) => {
                let last = m.offsets[m.offsets.len() - 1];
                proof {
                    lemma_nats_push(m.offsets@, last);
                }
                m.offsets.push(last);
                m.validity.push(false);
            },
            ColumnBuilder::Struct(s) => {
                let ghost old_children = s.children@;
                proof {
                    lemma_columns_of_len(old_children);
                    assert forall|j: int| 0 <= j < old_children.len() implies wf_builder(#[trigger] old_children[j]) by {
                        assert(columns_of(old_children)[j] == old_children[j]@);
                    }
                }
                s.validity.push(false);
                let mut i: usize = 0;
                while i < s.children.len()
                    invariant
                        0 <= i <= s.children.len(),
                        before == *old(self),
                        before is Struct,
                        old_children == before->Struct_0.children@,
                        s.fields == before->Struct_0.fields,
                        s.validity@ == before->Struct_0.validity@.push(false),
                        forall|j: int| 0 <= j < old_children.len() ==> wf_builder(#[trigger] old_children[j]),
                        s.children.len() == old_children.len(),
                        forall|j: int| 0 <= j < i ==> #[trigger] s.children@[j]@ == null_spec(old_children[j]@),
                        forall|j: int| i <= j < s.children.len() ==> #[trigger] s.children@[j] == old_children[j],
                    decreases s.children.len() - i,
                {
                    proof {
                        assert(decreases_to!(before => before->Struct_0));
                        assert(decreases_to!(before->Struct_0 => old_children[i as int]));
                    }
                    s.children[i].append_null();
                    i = i + 1;
                }
                proof {
                    lemma_columns_of_len(s.children@);
                    lemma_columns_of_len(old_children);
                    lemma_nulls_spec(columns_of(old_children));
                    assert(columns_of(s.children@) =~= nulls_spec(columns_of(old_children)));
                }
            },
        }
    }
}

} // verus!
