//! Arrow's column types, as the mapping between them and the library's
//! column types reads them, and that mapping both ways.
//!
//! Arrow's own type descriptions are held here as plain values: the
//! variants the mapping tells apart, with the fields it reads, and `Other`
//! for every Arrow type that has no column type.
use std::sync::Arc;

use vstd::prelude::*;

use crate::typeable::{
    fields_model, lemma_fields_model_index, lemma_fields_model_len, lemma_fields_model_push, type_size,
    FieldModel, PrimitiveDataType, PyroField, PyroSchema, PyroType, TypeModel,
};

verus! {

/// Arrow's units of time.
#[derive(Debug, Clone, Copy, PartialEq, Eq, Structural)]
pub enum ArrowTimeUnit {
    Second,
    Millisecond,
    Microsecond,
    Nanosecond,
}

/// Arrow's units of intervals.
#[derive(Debug, Clone, Copy, PartialEq, Eq, Structural)]
pub enum ArrowIntervalUnit {
    YearMonth,
    DayTime,
    MonthDayNano,
}

/// An Arrow column type.
#[derive(Debug, PartialEq, Eq)]
pub enum ArrowType {
    Null,
    Boolean,
    Int8,
    Int16,
    Int32,
    Int64,
    UInt8,
    UInt16,
    UInt32,
    UInt64,
    Float16,
    Float32,
    Float64,
    Utf8,
    LargeUtf8,
    Binary,
    LargeBinary,
    /// Binary values of the given width.
    FixedSizeBinary(i32),
    Date32,
    Date64,
    Time32(ArrowTimeUnit),
    Time64(ArrowTimeUnit),
    /// An instant, in a unit, and the time zone it is given in, if any.
    Timestamp(ArrowTimeUnit, Option<String>),
    Duration(ArrowTimeUnit),
    Interval(ArrowIntervalUnit),
    List(Box<ArrowField>),
    LargeList(Box<ArrowField>),
    /// A list of the given length.
    FixedSizeList(Box<ArrowField>, i32),
    Struct(Vec<ArrowField>),
    /// A map, given by its entries field, and whether its keys are sorted.
    KeyValueMap(Box<ArrowField>, bool),
    /// Dictionary-encoded values: the type of the keys and of the values.
    Dictionary(Box<ArrowType>, Box<ArrowType>),
    /// Any other Arrow type: decimals, unions, views, run-end encoding.
    Other,
}

/// A named Arrow column.
#[derive(Debug, PartialEq, Eq)]
pub struct ArrowField {
    pub name: String,
    pub data_type: ArrowType,
    pub nullable: bool,
}

/// An Arrow schema: its fields in order.
#[derive(Debug, PartialEq, Eq)]
pub struct ArrowSchema {
    pub fields: Vec<ArrowField>,
}

/// What an [`ArrowType`] denotes.
pub enum ArrowTypeModel {
    Null,
    Boolean,
    Int8,
    Int16,
    Int32,
    Int64,
    UInt8,
    UInt16,
    UInt32,
    UInt64,
    Float16,
    Float32,
    Float64,
    Utf8,
    LargeUtf8,
    Binary,
    LargeBinary,
    FixedSizeBinary(i32),
    Date32,
    Date64,
    Time32(ArrowTimeUnit),
    Time64(ArrowTimeUnit),
    Timestamp(ArrowTimeUnit, Option<Seq<char>>),
    Duration(ArrowTimeUnit),
    Interval(ArrowIntervalUnit),
    List(Box<ArrowFieldModel>),
    LargeList(Box<ArrowFieldModel>),
    FixedSizeList(Box<ArrowFieldModel>, i32),
    Struct(Seq<ArrowFieldModel>),
    KeyValueMap(Box<ArrowFieldModel>, bool),
    Dictionary(Box<ArrowTypeModel>, Box<ArrowTypeModel>),
    Other,
}

/// What an [`ArrowField`] denotes.
pub struct ArrowFieldModel {
    pub name: Seq<char>,
    pub data_type: ArrowTypeModel,
    pub nullable: bool,
}

pub open spec fn arrow_model(t: ArrowType) -> ArrowTypeModel
    decreases t,
{
    match t {
        ArrowType::Null => ArrowTypeModel::Null,
        ArrowType::Boolean => ArrowTypeModel::Boolean,
        ArrowType::Int8 => ArrowTypeModel::Int8,
        ArrowType::Int16 => ArrowTypeModel::Int16,
        ArrowType::Int32 => ArrowTypeModel::Int32,
        ArrowType::Int64 => ArrowTypeModel::Int64,
        ArrowType::UInt8 => ArrowTypeModel::UInt8,
        ArrowType::UInt16 => ArrowTypeModel::UInt16,
        ArrowType::UInt32 => ArrowTypeModel::UInt32,
        ArrowType::UInt64 => ArrowTypeModel::UInt64,
        ArrowType::Float16 => ArrowTypeModel::Float16,
        ArrowType::Float32 => ArrowTypeModel::Float32,
        ArrowType::Float64 => ArrowTypeModel::Float64,
        ArrowType::Utf8 => ArrowTypeModel::Utf8,
        ArrowType::LargeUtf8 => ArrowTypeModel::LargeUtf8,
        ArrowType::Binary => ArrowTypeModel::Binary,
        ArrowType::LargeBinary => ArrowTypeModel::LargeBinary,
        ArrowType::FixedSizeBinary(n) => ArrowTypeModel::FixedSizeBinary(n),
        ArrowType::Date32 => ArrowTypeModel::Date32,
        ArrowType::Date64 => ArrowTypeModel::Date64,
        ArrowType::Time32(u) => ArrowTypeModel::Time32(u),
        ArrowType::Time64(u) => ArrowTypeModel::Time64(u),
        ArrowType::Timestamp(u, tz) => ArrowTypeModel::Timestamp(
            u,
            match tz {
                Some(z) => Some(z@),
                None => None,
            },
        ),
        ArrowType::Duration(u) => ArrowTypeModel::Duration(u),
        ArrowType::Interval(u) => ArrowTypeModel::Interval(u),
        ArrowType::List(f) => ArrowTypeModel::List(Box::new(arrow_field_model(*f))),
        ArrowType::LargeList(f) => ArrowTypeModel::LargeList(Box::new(arrow_field_model(*f))),
        ArrowType::FixedSizeList(f, n) => ArrowTypeModel::FixedSizeList(Box::new(arrow_field_model(*f)), n),
        ArrowType::Struct(fs) => ArrowTypeModel::Struct(arrow_fields_model(fs@)),
        ArrowType::KeyValueMap(f, sorted) => ArrowTypeModel::KeyValueMap(Box::new(arrow_field_model(*f)), sorted),
        ArrowType::Dictionary(k, v) => ArrowTypeModel::Dictionary(Box::new(arrow_model(*k)), Box::new(arrow_model(*v))),
        ArrowType::Other => ArrowTypeModel::Other,
    }
}

pub open spec fn arrow_field_model(f: ArrowField) -> ArrowFieldModel
    decreases f,
{
    ArrowFieldModel { name: f.name@, data_type: arrow_model(f.data_type), nullable: f.nullable }
}

pub open spec fn arrow_fields_model(s: Seq<ArrowField>) -> Seq<ArrowFieldModel>
    decreases s,
{
    if s.len() == 0 {
        Seq::empty()
    } else {
        arrow_fields_model(s.drop_last()).push(arrow_field_model(s.last()))
    }
}

impl View for ArrowType {
    type V = ArrowTypeModel;

    open spec fn view(&self) -> ArrowTypeModel {
        arrow_model(*self)
    }
}

impl View for ArrowField {
    type V = ArrowFieldModel;

    open spec fn view(&self) -> ArrowFieldModel {
        arrow_field_model(*self)
    }
}

/// The number of type nodes in `t`, by which recursion over Arrow types
/// ends.
pub open spec fn arrow_size(t: ArrowType) -> nat
    decreases t,
{
    match t {
        ArrowType::List(f) => 1 + arrow_size(f.data_type),
        ArrowType::LargeList(f) => 1 + arrow_size(f.data_type),
        ArrowType::FixedSizeList(f, _) => 1 + arrow_size(f.data_type),
        ArrowType::Struct(fs) => 1 + arrow_fields_size(fs@),
        ArrowType::KeyValueMap(f, _) => 1 + arrow_size(f.data_type),
        ArrowType::Dictionary(k, v) => 1 + arrow_size(*k) + arrow_size(*v),
        _ => 1,
    }
}

pub open spec fn arrow_fields_size(s: Seq<ArrowField>) -> nat
    decreases s,
{
    if s.len() == 0 {
        0
    } else {
        arrow_fields_size(s.drop_last()) + arrow_size(s.last().data_type)
    }
}

pub proof fn lemma_arrow_fields_size_index(s: Seq<ArrowField>, i: int)
    requires
        0 <= i < s.len(),
    ensures
        arrow_size(s[i].data_type) <= arrow_fields_size(s),
    decreases s.len(),
{
    if i < s.len() - 1 {
        lemma_arrow_fields_size_index(s.drop_last(), i);
    }
}

pub proof fn lemma_arrow_fields_model(s: Seq<ArrowField>)
    ensures
        arrow_fields_model(s).len() == s.len(),
        forall|i: int| 0 <= i < s.len() ==> #[trigger] arrow_fields_model(s)[i] == s[i]@,
    decreases s.len(),
{
    if s.len() > 0 {
        lemma_arrow_fields_model(s.drop_last());
    }
}

pub proof fn lemma_arrow_fields_model_push(s: Seq<ArrowField>, f: ArrowField)
    ensures
        arrow_fields_model(s.push(f)) == arrow_fields_model(s).push(f@),
{
    assert(s.push(f).drop_last() =~= s);
}

// ---------------------------------------------------------------------------
// The mapping, stated
// ---------------------------------------------------------------------------

/// The Arrow type of a scalar type.
pub open spec fn prim_to_arrow(p: PrimitiveDataType) -> ArrowTypeModel {
    match p {
        PrimitiveDataType::Bool => ArrowTypeModel::Boolean,
        PrimitiveDataType::U8 => ArrowTypeModel::UInt8,
        PrimitiveDataType::U16 => ArrowTypeModel::UInt16,
        PrimitiveDataType::U32 => ArrowTypeModel::UInt32,
        PrimitiveDataType::U64 => ArrowTypeModel::UInt64,
        PrimitiveDataType::I8 => ArrowTypeModel::Int8,
        PrimitiveDataType::I16 => ArrowTypeModel::Int16,
        PrimitiveDataType::I32 => ArrowTypeModel::Int32,
        PrimitiveDataType::I64 => ArrowTypeModel::Int64,
        PrimitiveDataType::F16 => ArrowTypeModel::Float16,
        PrimitiveDataType::F32 => ArrowTypeModel::Float32,
        PrimitiveDataType::F64 => ArrowTypeModel::Float64,
    }
}

/// The scalar type of an Arrow type, for the Arrow types of the scalars
/// that lists of scalars hold.
pub open spec fn prim_from_arrow(t: ArrowTypeModel) -> Option<PrimitiveDataType> {
    match t {
        ArrowTypeModel::Boolean => Some(PrimitiveDataType::Bool),
        ArrowTypeModel::UInt8 => Some(PrimitiveDataType::U8),
        ArrowTypeModel::UInt16 => Some(PrimitiveDataType::U16),
        ArrowTypeModel::UInt32 => Some(PrimitiveDataType::U32),
        ArrowTypeModel::UInt64 => Some(PrimitiveDataType::U64),
        ArrowTypeModel::Int8 => Some(PrimitiveDataType::I8),
        ArrowTypeModel::Int16 => Some(PrimitiveDataType::I16),
        ArrowTypeModel::Int32 => Some(PrimitiveDataType::I32),
        ArrowTypeModel::Int64 => Some(PrimitiveDataType::I64),
        ArrowTypeModel::Float16 => Some(PrimitiveDataType::F16),
        ArrowTypeModel::Float32 => Some(PrimitiveDataType::F32),
        ArrowTypeModel::Float64 => Some(PrimitiveDataType::F64),
        _ => None,
    }
}

/// The field of the items of an Arrow list.
pub open spec fn item_field(t: ArrowTypeModel, nullable: bool) -> ArrowFieldModel {
    ArrowFieldModel { name: "item"@, data_type: t, nullable }
}

/// The Arrow type of a column type: scalars as Arrow's scalars, text as
/// UTF-8, instants as nanosecond timestamps without a time zone, lists as
/// lists of a nullable item field (the item field of a list of values is
/// nullable as the list says), fixed lists at their length, maps as a
/// non-nullable entries field of a key and a nullable value, rows as
/// structs.
pub open spec fn type_to_arrow(t: TypeModel) -> ArrowTypeModel
    decreases t,
{
    match t {
        TypeModel::Null => ArrowTypeModel::Null,
        TypeModel::PrimitiveScalar(p) => prim_to_arrow(p),
        TypeModel::Str => ArrowTypeModel::Utf8,
        TypeModel::Timestamp => ArrowTypeModel::Timestamp(ArrowTimeUnit::Nanosecond, None),
        TypeModel::PrimitiveList(p) => ArrowTypeModel::List(Box::new(item_field(prim_to_arrow(p), true))),
        TypeModel::PrimitiveFixedList(p, n) => ArrowTypeModel::FixedSizeList(
            Box::new(item_field(prim_to_arrow(p), true)),
            n as i32,
        ),
        TypeModel::List(inner, nullable) => ArrowTypeModel::List(Box::new(item_field(type_to_arrow(*inner), nullable))),
        TypeModel::KeyValueMap { key, value } => ArrowTypeModel::KeyValueMap(
            Box::new(
                ArrowFieldModel {
                    name: "entries"@,
                    data_type: ArrowTypeModel::Struct(
                        seq![
                            ArrowFieldModel { name: "key"@, data_type: type_to_arrow(*key), nullable: false },
                            ArrowFieldModel { name: "value"@, data_type: type_to_arrow(*value), nullable: true },
                        ],
                    ),
                    nullable: false,
                },
            ),
            false,
        ),
        TypeModel::Group(fields) => ArrowTypeModel::Struct(fields_to_arrow(fields)),
    }
}

/// The Arrow fields of fields, in order.
pub open spec fn fields_to_arrow(s: Seq<FieldModel>) -> Seq<ArrowFieldModel>
    decreases s,
{
    if s.len() == 0 {
        Seq::empty()
    } else {
        fields_to_arrow(s.drop_last()).push(
            ArrowFieldModel { name: s.last().name, data_type: type_to_arrow(s.last().data_type), nullable: s.last().nullable },
        )
    }
}

/// The column type of an Arrow type, where it has one: scalars as
/// scalars, text as text, binary as lists of bytes, dates, times and
/// timestamps as instants, lists of scalars as lists of scalars and other
/// lists as lists of values, structs as rows, maps of two-field entries
/// as maps, and dictionaries as their values. A timestamp with a time zone
/// has no column type.
pub open spec fn type_from_arrow(t: ArrowTypeModel) -> Option<TypeModel>
    decreases t,
{
    match t {
        ArrowTypeModel::Null => Some(TypeModel::Null),
        ArrowTypeModel::Utf8 | ArrowTypeModel::LargeUtf8 => Some(TypeModel::Str),
        ArrowTypeModel::Interval(_) => None,
        ArrowTypeModel::Binary | ArrowTypeModel::LargeBinary => Some(TypeModel::PrimitiveList(PrimitiveDataType::U8)),
        ArrowTypeModel::FixedSizeBinary(n) => Some(TypeModel::PrimitiveFixedList(PrimitiveDataType::U8, n as usize)),
        ArrowTypeModel::Date32 | ArrowTypeModel::Date64 | ArrowTypeModel::Time32(_) | ArrowTypeModel::Time64(_)
        | ArrowTypeModel::Timestamp(_, None) => Some(TypeModel::Timestamp),
        ArrowTypeModel::Timestamp(_, Some(_)) => None,
        ArrowTypeModel::Duration(_) => None,
        ArrowTypeModel::List(f) | ArrowTypeModel::LargeList(f) => match prim_from_arrow(f.data_type) {
            Some(p) => Some(TypeModel::PrimitiveList(p)),
            None => match type_from_arrow(f.data_type) {
                Some(d) => Some(TypeModel::List(Box::new(d), f.nullable)),
                None => None,
            },
        },
        ArrowTypeModel::FixedSizeList(f, n) => match prim_from_arrow(f.data_type) {
            Some(p) => Some(TypeModel::PrimitiveFixedList(p, n as usize)),
            None => match type_from_arrow(f.data_type) {
                Some(d) => Some(TypeModel::List(Box::new(d), f.nullable)),
                None => None,
            },
        },
        ArrowTypeModel::Struct(fs) => match fields_from_arrow(fs) {
            Some(m) => Some(TypeModel::Group(m)),
            None => None,
        },
        ArrowTypeModel::KeyValueMap(e, _) => match e.data_type {
            ArrowTypeModel::Struct(kv) => if kv.len() == 2 {
                match (type_from_arrow(kv[0].data_type), type_from_arrow(kv[1].data_type)) {
                    (Some(k), Some(v)) => Some(TypeModel::KeyValueMap { key: Box::new(k), value: Box::new(v) }),
                    _ => None,
                }
            } else {
                None
            },
            _ => None,
        },
        ArrowTypeModel::Dictionary(_, v) => type_from_arrow(*v),
        ArrowTypeModel::Other => None,
        _ => match prim_from_arrow(t) {
            Some(p) => Some(TypeModel::PrimitiveScalar(p)),
            None => None,
        },
    }
}

/// The fields of Arrow fields, where every one has a column type.
pub open spec fn fields_from_arrow(s: Seq<ArrowFieldModel>) -> Option<Seq<FieldModel>>
    decreases s,
{
    if s.len() == 0 {
        Some(Seq::empty())
    } else {
        match (fields_from_arrow(s.drop_last()), type_from_arrow(s.last().data_type)) {
            (Some(m), Some(d)) => Some(m.push(FieldModel { name: s.last().name, data_type: d, nullable: s.last().nullable })),
            _ => None,
        }
    }
}

/// A column type, or nothing, as what it denotes.
pub open spec fn opt_type_model(r: Option<PyroType>) -> Option<TypeModel> {
    match r {
        Some(t) => Some(t@),
        None => None,
    }
}

// ---------------------------------------------------------------------------
// The mapping, computed
// ---------------------------------------------------------------------------

impl PrimitiveDataType {
    /// The Arrow type of the scalar type.
    pub fn to_arrow(&self) -> (r: ArrowType)
        ensures
            r@ == prim_to_arrow(*self),
    {
        match self {
            PrimitiveDataType::Bool => ArrowType::Boolean,
            PrimitiveDataType::U8 => ArrowType::UInt8,
            PrimitiveDataType::U16 => ArrowType::UInt16,
            PrimitiveDataType::U32 => ArrowType::UInt32,
            PrimitiveDataType::U64 => ArrowType::UInt64,
            PrimitiveDataType::I8 => ArrowType::Int8,
            PrimitiveDataType::I16 => ArrowType::Int16,
            PrimitiveDataType::I32 => ArrowType::Int32,
            PrimitiveDataType::I64 => ArrowType::Int64,
            PrimitiveDataType::F16 => ArrowType::Float16,
            PrimitiveDataType::F32 => ArrowType::Float32,
            PrimitiveDataType::F64 => ArrowType::Float64,
        }
    }

    /// The scalar type of an Arrow type, for the Arrow types of the scalars
    /// that lists of scalars hold.
    pub fn from_arrow(dt: &ArrowType) -> (r: Option<PrimitiveDataType>)
        ensures
            r == prim_from_arrow(dt@),
    {
        match dt {
            ArrowType::Boolean => Some(PrimitiveDataType::Bool),
            ArrowType::UInt8 => Some(PrimitiveDataType::U8),
            ArrowType::UInt16 => Some(PrimitiveDataType::U16),
            ArrowType::UInt32 => Some(PrimitiveDataType::U32),
            ArrowType::UInt64 => Some(PrimitiveDataType::U64),
            ArrowType::Int8 => Some(PrimitiveDataType::I8),
            ArrowType::Int16 => Some(PrimitiveDataType::I16),
            ArrowType::Int32 => Some(PrimitiveDataType::I32),
            ArrowType::Int64 => Some(PrimitiveDataType::I64),
            ArrowType::Float16 => Some(PrimitiveDataType::F16),
            ArrowType::Float32 => Some(PrimitiveDataType::F32),
            ArrowType::Float64 => Some(PrimitiveDataType::F64),
            _ => None,
        }
    }
}

/// The field of the items of an Arrow list.
fn new_item_field(data_type: ArrowType, nullable: bool) -> (r: ArrowField)
    ensures
        r@ == item_field(data_type@, nullable),
{
    ArrowField { name: "item".to_owned(), data_type, nullable }
}

/// Where a prefix of Arrow fields has no column types, the fields have
/// none.
proof fn lemma_fields_from_arrow_prefix(s: Seq<ArrowFieldModel>, i: int)
    requires
        0 <= i <= s.len(),
        fields_from_arrow(s.take(i)) is None,
    ensures
        fields_from_arrow(s) is None,
    decreases s.len() - i,
{
    if i == s.len() {
        assert(s.take(i) =~= s);
    } else {
        assert(s.take(i + 1).drop_last() =~= s.take(i));
        lemma_fields_from_arrow_prefix(s, i + 1);
    }
}

impl PyroType {
    /// The Arrow type of the column type.
    pub fn to_arrow(&self) -> (r: ArrowType)
        ensures
            r@ == type_to_arrow(self@),
        decreases type_size(*self),
    {
        match self {
            PyroType::Null => {
                assert(ArrowType::Null@ == type_to_arrow(self@));
                ArrowType::Null
            },
            PyroType::PrimitiveScalar(p) => {
                let r = p.to_arrow();
                assert(r@ == type_to_arrow(self@));
                r
            },
            PyroType::Str => {
                assert(ArrowType::Utf8@ == type_to_arrow(self@));
                ArrowType::Utf8
            },
            PyroType::Timestamp => {
                let r = ArrowType::Timestamp(ArrowTimeUnit::Nanosecond, None);
                assert(r@ == type_to_arrow(self@));
                r
            },
            PyroType::PrimitiveList(p) => {
                let r = ArrowType::List(Box::new(new_item_field(p.to_arrow(), true)));
                assert(r@ == type_to_arrow(self@));
                r
            },
            PyroType::PrimitiveFixedList(p, size) => {
                let r = ArrowType::FixedSizeList(
                    Box::new(new_item_field(p.to_arrow(), true)),
                    #[verifier::truncate]
                    (*size as i32),
                );
                assert(r@ == type_to_arrow(self@));
                r
            },
            PyroType::List(inner, nullable) => {
                let r = ArrowType::List(Box::new(new_item_field(inner.to_arrow(), *nullable)));
                assert(r@ == type_to_arrow(self@));
                r
            },
            PyroType::KeyValueMap { key, value } => {
                let k = ArrowField { name: "key".to_owned(), data_type: key.to_arrow(), nullable: false };
                let v = ArrowField { name: "value".to_owned(), data_type: value.to_arrow(), nullable: true };
                let kv = vec![k, v];
                proof {
                    lemma_arrow_fields_model(kv@);
                    assert(arrow_fields_model(kv@) =~= seq![k@, v@]);
                }
                let entries = ArrowField { name: "entries".to_owned(), data_type: ArrowType::Struct(kv), nullable: false };
                let r = ArrowType::KeyValueMap(Box::new(entries), false);
                proof {
                    let tk = self@->KeyValueMap_key;
                    assert(k@ == ArrowFieldModel { name: "key"@, data_type: type_to_arrow(*tk), nullable: false });
                    assert(entries@.data_type == ArrowTypeModel::Struct(seq![k@, v@]));
                    assert(entries@.name == "entries"@);
                }
                assert(r@ == type_to_arrow(self@));
                r
            },
            PyroType::Group(fields) => {
                let ghost fm = fields_model(fields@);
                proof {
                    lemma_fields_model_len(fields@);
                }
                let mut out: Vec<ArrowField> = Vec::new();
                let mut i: usize = 0;
                while i < fields.len()
                    invariant
                        i <= fields@.len(),
                        fm == fields_model(fields@),
                        fm.len() == fields@.len(),
                        crate::typeable::fields_size(fields@) < type_size(*self),
                        arrow_fields_model(out@) == fields_to_arrow(fm.take(i as int)),
                    decreases fields.len() - i,
                {
                    proof {
                        crate::typeable::lemma_fields_size_index(fields@, i as int);
                        lemma_fields_model_index(fields@, i as int);
                    }
                    let f = ArrowField {
                        name: fields[i].name.clone(),
                        data_type: fields[i].data_type.to_arrow(),
                        nullable: fields[i].nullable,
                    };
                    proof {
                        lemma_arrow_fields_model_push(out@, f);
                        assert(fm.take(i + 1).drop_last() =~= fm.take(i as int));
                        assert(fm.take(i + 1).last() == fm[i as int]);
                    }
                    out.push(f);
                    i = i + 1;
                }
                proof {
                    assert(fm.take(fm.len() as int) =~= fm);
                }
                let r = ArrowType::Struct(out);
                assert(r@ == type_to_arrow(self@));
                r
            },
        }
    }

    /// The column type of an Arrow type, where it has one.
    pub fn from_arrow(dt: &ArrowType) -> (r: Option<PyroType>)
        ensures
            opt_type_model(r) == type_from_arrow(dt@),
        decreases arrow_size(*dt),
    {
        match dt {
            ArrowType::Null => Some(PyroType::Null),
            ArrowType::Utf8 | ArrowType::LargeUtf8 => Some(PyroType::Str),
            ArrowType::Interval(_) => None,
            ArrowType::Binary | ArrowType::LargeBinary => Some(PyroType::PrimitiveList(PrimitiveDataType::U8)),
            ArrowType::FixedSizeBinary(size) => Some(PyroType::PrimitiveFixedList(PrimitiveDataType::U8, #[verifier::truncate] (*size as usize))),
            ArrowType::Date32 | ArrowType::Date64 | ArrowType::Time32(_) | ArrowType::Time64(_) | ArrowType::Timestamp(
                _,
                None,
            ) => Some(PyroType::Timestamp),
            ArrowType::Timestamp(_, Some(_)) => None,
            ArrowType::Duration(_) => None,
            ArrowType::List(inner) | ArrowType::LargeList(inner) => {
                proof {
                    assert(inner@.data_type == inner.data_type@);
                }
                let r = if let Some(p) = PrimitiveDataType::from_arrow(&inner.data_type) {
                    Some(PyroType::PrimitiveList(p))
                } else {
                    match PyroType::from_arrow(&inner.data_type) {
                        Some(d) => Some(PyroType::List(Box::new(d), inner.nullable)),
                        None => None,
                    }
                };
                assert(opt_type_model(r) == type_from_arrow(dt@));
                r
            },
            ArrowType::FixedSizeList(inner, size) => {
                proof {
                    assert(inner@.data_type == inner.data_type@);
                }
                let r = if let Some(p) = PrimitiveDataType::from_arrow(&inner.data_type) {
                    Some(PyroType::PrimitiveFixedList(p, #[verifier::truncate] (*size as usize)))
                } else {
                    match PyroType::from_arrow(&inner.data_type) {
                        Some(d) => Some(PyroType::List(Box::new(d), inner.nullable)),
                        None => None,
                    }
                };
                assert(opt_type_model(r) == type_from_arrow(dt@));
                r
            },
            ArrowType::Struct(fields) => {
                let ghost am = arrow_fields_model(fields@);
                proof {
                    lemma_arrow_fields_model(fields@);
                }
                let mut out: Vec<PyroField> = Vec::new();
                let mut i: usize = 0;
                while i < fields.len()
                    invariant
                        i <= fields@.len(),
                        dt@ == ArrowTypeModel::Struct(am),
                        am == arrow_fields_model(fields@),
                        am.len() == fields@.len(),
                        forall|j: int| 0 <= j < fields@.len() ==> #[trigger] am[j] == fields@[j]@,
                        arrow_fields_size(fields@) < arrow_size(*dt),
                        fields_from_arrow(am.take(i as int)) == Some(fields_model(out@)),
                    decreases fields.len() - i,
                {
                    proof {
                        lemma_arrow_fields_size_index(fields@, i as int);
                        assert(am.take(i + 1).drop_last() =~= am.take(i as int));
                        assert(am.take(i + 1).last() == am[i as int]);
                    }
                    match PyroType::from_arrow(&fields[i].data_type) {
                        Some(d) => {
                            let f = PyroField { name: fields[i].name.clone(), data_type: d, nullable: fields[i].nullable };
                            proof {
                                lemma_fields_model_push(out@, f);
                            }
                            out.push(f);
                        },
                        None => {
                            proof {
                                lemma_fields_from_arrow_prefix(am, i + 1);
                            }
                            return None;
                        },
                    }
                    i = i + 1;
                }
                proof {
                    assert(am.take(am.len() as int) =~= am);
                }
                Some(PyroType::Group(out))
            },
            ArrowType::KeyValueMap(entries, _) => {
                proof {
                    assert(entries@.data_type == entries.data_type@);
                    assert(dt@->KeyValueMap_0 == Box::new(entries@));
                }
                match &entries.data_type {
                ArrowType::Struct(kv) => {
                    assert(entries.data_type@ == ArrowTypeModel::Struct(arrow_fields_model(kv@)));
                    if kv.len() == 2 {
                        proof {
                            lemma_arrow_fields_size_index(kv@, 0);
                            lemma_arrow_fields_size_index(kv@, 1);
                            lemma_arrow_fields_model(kv@);
                            assert(arrow_size(entries.data_type) == 1 + arrow_fields_size(kv@));
                        }
                        let k = PyroType::from_arrow(&kv[0].data_type);
                        let v = PyroType::from_arrow(&kv[1].data_type);
                        let r = match (k, v) {
                            (Some(k), Some(v)) => Some(PyroType::KeyValueMap { key: Box::new(k), value: Box::new(v) }),
                            _ => None,
                        };
                        assert(arrow_fields_model(kv@)[0] == kv@[0]@);
                        assert(arrow_fields_model(kv@)[1] == kv@[1]@);
                        assert(opt_type_model(r) == type_from_arrow(dt@));
                        r
                    } else {
                        proof {
                            lemma_arrow_fields_model(kv@);
                        }
                        let r = None;
                        assert(opt_type_model(r) == type_from_arrow(dt@));
                        r
                    }
                },
                _ => {
                    assert(!(entries.data_type@ is Struct));
                    let r = None;
                    assert(opt_type_model(r) == type_from_arrow(dt@));
                    r
                },
                }
            },
            ArrowType::Dictionary(_, value) => {
                let r = PyroType::from_arrow(value);
                assert(opt_type_model(r) == type_from_arrow(dt@));
                r
            },
            ArrowType::Other => None,
            _ => {
                let r = match PrimitiveDataType::from_arrow(dt) {
                    Some(p) => Some(PyroType::PrimitiveScalar(p)),
                    None => None,
                };
                assert(opt_type_model(r) == type_from_arrow(dt@));
                r
            },
        }
    }
}

impl PyroField {
    /// The Arrow field of the field: its name, the Arrow type of its type,
    /// and whether it may be missing.
    pub fn to_arrow(&self) -> (r: ArrowField)
        ensures
            r@ == (ArrowFieldModel { name: self.name@, data_type: type_to_arrow(self.data_type@), nullable: self.nullable }),
    {
        ArrowField { name: self.name.clone(), data_type: self.data_type.to_arrow(), nullable: self.nullable }
    }

    /// The field of an Arrow field whose type has a column type.
    pub fn from_arrow(field: &ArrowField) -> (r: Option<PyroField>)
        ensures
            r is Some <==> type_from_arrow(field.data_type@) is Some,
            r matches Some(f) ==> f@ == (FieldModel {
                name: field.name@,
                data_type: type_from_arrow(field.data_type@)->0,
                nullable: field.nullable,
            }),
    {
        match PyroType::from_arrow(&field.data_type) {
            Some(dt) => Some(PyroField { name: field.name.clone(), data_type: dt, nullable: field.nullable }),
            None => None,
        }
    }
}

impl PyroSchema {
    /// The Arrow schema of the schema: the Arrow fields of its fields.
    pub fn to_arrow(&self) -> (r: ArrowSchema)
        ensures
            arrow_fields_model(r.fields@) == fields_to_arrow(fields_model(self.fields@)),
    {
        let ghost fm = fields_model(self.fields@);
        proof {
            lemma_fields_model_len(self.fields@);
        }
        let mut out: Vec<ArrowField> = Vec::new();
        let mut i: usize = 0;
        while i < self.fields.len()
            invariant
                i <= self.fields@.len(),
                fm == fields_model(self.fields@),
                fm.len() == self.fields@.len(),
                arrow_fields_model(out@) == fields_to_arrow(fm.take(i as int)),
            decreases self.fields.len() - i,
        {
            proof {
                lemma_fields_model_index(self.fields@, i as int);
            }
            let f = self.fields[i].to_arrow();
            proof {
                lemma_arrow_fields_model_push(out@, f);
                assert(fm.take(i + 1).drop_last() =~= fm.take(i as int));
                assert(fm.take(i + 1).last() == fm[i as int]);
            }
            out.push(f);
            i = i + 1;
        }
        proof {
            assert(fm.take(fm.len() as int) =~= fm);
        }
        ArrowSchema { fields: out }
    }

    /// The Arrow schema of the schema, shared.
    pub fn to_arrow_arc(&self) -> (r: Arc<ArrowSchema>)
        ensures
            arrow_fields_model(r.fields@) == fields_to_arrow(fields_model(self.fields@)),
    {
        Arc::new(self.to_arrow())
    }

    /// The schema of an Arrow schema whose fields all have column types.
    pub fn from_arrow(schema: &ArrowSchema) -> (r: Option<PyroSchema>)
        ensures
            r is Some <==> fields_from_arrow(arrow_fields_model(schema.fields@)) is Some,
            r matches Some(s) ==> s.documentation is None && Some(fields_model(s.fields@)) == fields_from_arrow(
                arrow_fields_model(schema.fields@),
            ),
    {
        let ghost am = arrow_fields_model(schema.fields@);
        proof {
            lemma_arrow_fields_model(schema.fields@);
        }
        let mut out: Vec<PyroField> = Vec::new();
        let mut i: usize = 0;
        while i < schema.fields.len()
            invariant
                i <= schema.fields@.len(),
                am == arrow_fields_model(schema.fields@),
                am.len() == schema.fields@.len(),
                forall|j: int| 0 <= j < schema.fields@.len() ==> #[trigger] am[j] == schema.fields@[j]@,
                fields_from_arrow(am.take(i as int)) == Some(fields_model(out@)),
            decreases schema.fields.len() - i,
        {
            proof {
                assert(am.take(i + 1).drop_last() =~= am.take(i as int));
                assert(am.take(i + 1).last() == am[i as int]);
            }
            match PyroField::from_arrow(&schema.fields[i]) {
                Some(f) => {
                    proof {
                        lemma_fields_model_push(out@, f);
                    }
                    out.push(f);
                },
                None => {
                    proof {
                        lemma_fields_from_arrow_prefix(am, i + 1);
                    }
                    return None;
                },
            }
            i = i + 1;
        }
        proof {
            assert(am.take(am.len() as int) =~= am);
        }
        Some(PyroSchema::new(out))
    }
}

// ---------------------------------------------------------------------------
// Laws of the mapping
// ---------------------------------------------------------------------------

/// Whether every fixed length in `t` fits Arrow's 32-bit lengths.
pub open spec fn lengths_fit(t: TypeModel) -> bool
    decreases t,
{
    match t {
        TypeModel::PrimitiveFixedList(_, n) => n <= i32::MAX,
        TypeModel::List(inner, _) => lengths_fit(*inner),
        TypeModel::KeyValueMap { key, value } => lengths_fit(*key) && lengths_fit(*value),
        TypeModel::Group(fs) => fields_fit(fs),
        _ => true,
    }
}

/// Whether every fixed length in the types of fields fits Arrow's 32-bit
/// lengths.
pub open spec fn fields_fit(s: Seq<FieldModel>) -> bool
    decreases s,
{
    s.len() == 0 || (fields_fit(s.drop_last()) && lengths_fit(s.last().data_type))
}

/// The column type that comes back from Arrow for `t`: `t` itself, but
/// that a list of values of a scalar type comes back as a list of scalars.
pub open spec fn read_back(t: TypeModel) -> TypeModel
    decreases t,
{
    match t {
        TypeModel::List(inner, nullable) => match *inner {
            TypeModel::PrimitiveScalar(p) => TypeModel::PrimitiveList(p),
            _ => TypeModel::List(Box::new(read_back(*inner)), nullable),
        },
        TypeModel::KeyValueMap { key, value } => TypeModel::KeyValueMap {
            key: Box::new(read_back(*key)),
            value: Box::new(read_back(*value)),
        },
        TypeModel::Group(fs) => TypeModel::Group(fields_read_back(fs)),
        _ => t,
    }
}

/// The fields that come back from Arrow for `s`.
pub open spec fn fields_read_back(s: Seq<FieldModel>) -> Seq<FieldModel>
    decreases s,
{
    if s.len() == 0 {
        Seq::empty()
    } else {
        fields_read_back(s.drop_last()).push(
            FieldModel { name: s.last().name, data_type: read_back(s.last().data_type), nullable: s.last().nullable },
        )
    }
}

/// The Arrow type of a column type is an Arrow scalar type only for a
/// scalar, and then of that scalar.
pub proof fn lemma_prim_arrow(t: TypeModel)
    ensures
        prim_from_arrow(type_to_arrow(t)) == (match t {
            TypeModel::PrimitiveScalar(p) => Some(p),
            _ => None,
        }),
{
}

/// Taking a column type to Arrow and back gives the type as it comes back
/// (itself, but that lists of values of a scalar type come back as lists
/// of scalars), where its fixed lengths fit Arrow's.
pub proof fn lemma_arrow_roundtrip(t: TypeModel)
    requires
        lengths_fit(t),
    ensures
        type_from_arrow(type_to_arrow(t)) == Some(read_back(t)),
    decreases t,
{
    match t {
        TypeModel::List(inner, nullable) => {
            lemma_prim_arrow(*inner);
            lemma_arrow_roundtrip(*inner);
        },
        TypeModel::PrimitiveList(p) => {
            lemma_prim_arrow(TypeModel::PrimitiveScalar(p));
        },
        TypeModel::PrimitiveFixedList(p, n) => {
            lemma_prim_arrow(TypeModel::PrimitiveScalar(p));
        },
        TypeModel::KeyValueMap { key, value } => {
            lemma_arrow_roundtrip(*key);
            lemma_arrow_roundtrip(*value);
        },
        TypeModel::Group(fs) => {
            lemma_fields_arrow_roundtrip(fs);
        },
        TypeModel::PrimitiveScalar(p) => {
            lemma_prim_arrow(t);
        },
        _ => {},
    }
}

/// Taking fields to Arrow and back gives the fields as they come back,
/// where their fixed lengths fit Arrow's; the same holds of a schema.
pub proof fn lemma_fields_arrow_roundtrip(s: Seq<FieldModel>)
    requires
        fields_fit(s),
    ensures
        fields_from_arrow(fields_to_arrow(s)) == Some(fields_read_back(s)),
    decreases s,
{
    if s.len() > 0 {
        lemma_fields_arrow_roundtrip(s.drop_last());
        lemma_arrow_roundtrip(s.last().data_type);
        let a = fields_to_arrow(s);
        assert(a.drop_last() =~= fields_to_arrow(s.drop_last()));
    }
}

impl ArrowType {
    /// A copy of the type.
    pub fn copy(&self) -> (r: ArrowType)
        ensures
            r@ == self@,
        decreases arrow_size(*self), 0nat,
    {
        match self {
            ArrowType::Null => ArrowType::Null,
            ArrowType::Boolean => ArrowType::Boolean,
            ArrowType::Int8 => ArrowType::Int8,
            ArrowType::Int16 => ArrowType::Int16,
            ArrowType::Int32 => ArrowType::Int32,
            ArrowType::Int64 => ArrowType::Int64,
            ArrowType::UInt8 => ArrowType::UInt8,
            ArrowType::UInt16 => ArrowType::UInt16,
            ArrowType::UInt32 => ArrowType::UInt32,
            ArrowType::UInt64 => ArrowType::UInt64,
            ArrowType::Float16 => ArrowType::Float16,
            ArrowType::Float32 => ArrowType::Float32,
            ArrowType::Float64 => ArrowType::Float64,
            ArrowType::Utf8 => ArrowType::Utf8,
            ArrowType::LargeUtf8 => ArrowType::LargeUtf8,
            ArrowType::Binary => ArrowType::Binary,
            ArrowType::LargeBinary => ArrowType::LargeBinary,
            ArrowType::FixedSizeBinary(n) => ArrowType::FixedSizeBinary(*n),
            ArrowType::Date32 => ArrowType::Date32,
            ArrowType::Date64 => ArrowType::Date64,
            ArrowType::Time32(u) => ArrowType::Time32(*u),
            ArrowType::Time64(u) => ArrowType::Time64(*u),
            ArrowType::Timestamp(u, tz) => {
                let z = match tz {
                    Some(s) => Some(s.clone()),
                    None => None,
                };
                ArrowType::Timestamp(*u, z)
            },
            ArrowType::Duration(u) => ArrowType::Duration(*u),
            ArrowType::Interval(u) => ArrowType::Interval(*u),
            ArrowType::List(f) => {
                proof {
                    assert(f@.data_type == f.data_type@);
                }
                ArrowType::List(Box::new(f.copy()))
            },
            ArrowType::LargeList(f) => {
                proof {
                    assert(f@.data_type == f.data_type@);
                }
                ArrowType::LargeList(Box::new(f.copy()))
            },
            ArrowType::FixedSizeList(f, n) => {
                proof {
                    assert(f@.data_type == f.data_type@);
                }
                ArrowType::FixedSizeList(Box::new(f.copy()), *n)
            },
            ArrowType::Struct(fields) => {
                proof {
                    lemma_arrow_fields_model(fields@);
                }
                let mut out: Vec<ArrowField> = Vec::new();
                let mut i: usize = 0;
                while i < fields.len()
                    invariant
                        i <= fields@.len(),
                        arrow_fields_model(fields@).len() == fields@.len(),
                        forall|j: int| 0 <= j < fields@.len() ==> #[trigger] arrow_fields_model(fields@)[j] == fields@[j]@,
                        arrow_fields_size(fields@) < arrow_size(*self),
                        arrow_fields_model(out@) == arrow_fields_model(fields@).take(i as int),
                    decreases fields.len() - i,
                {
                    proof {
                        lemma_arrow_fields_size_index(fields@, i as int);
                    }
                    let f = fields[i].copy();
                    proof {
                        lemma_arrow_fields_model_push(out@, f);
                        assert(arrow_fields_model(fields@).take(i + 1) =~= arrow_fields_model(fields@).take(i as int).push(
                            fields@[i as int]@,
                        ));
                    }
                    out.push(f);
                    i = i + 1;
                }
                proof {
                    assert(arrow_fields_model(fields@).take(fields@.len() as int) =~= arrow_fields_model(fields@));
                }
                ArrowType::Struct(out)
            },
            ArrowType::KeyValueMap(f, sorted) => {
                proof {
                    assert(f@.data_type == f.data_type@);
                }
                ArrowType::KeyValueMap(Box::new(f.copy()), *sorted)
            },
            ArrowType::Dictionary(k, v) => ArrowType::Dictionary(Box::new(k.copy()), Box::new(v.copy())),
            ArrowType::Other => ArrowType::Other,
        }
    }
}

impl ArrowField {
    /// A copy of the field.
    pub fn copy(&self) -> (r: ArrowField)
        ensures
            r@ == self@,
        decreases arrow_size(self.data_type), 1nat,
    {
        ArrowField { name: self.name.clone(), data_type: self.data_type.copy(), nullable: self.nullable }
    }
}

impl Clone for ArrowType {
    fn clone(&self) -> (r: ArrowType)
        ensures
            r@ == self@,
    {
        self.copy()
    }
}

impl Clone for ArrowField {
    fn clone(&self) -> (r: ArrowField)
        ensures
            r@ == self@,
    {
        self.copy()
    }
}

} // verus!
