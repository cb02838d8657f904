//! The columns of Arrow arrays, built from the values of one column of
//! many rows: what each array holds, as plain values.
use vstd::prelude::*;

use crate::arrow_type::{
    arrow_fields_model, arrow_fields_size, arrow_size, fields_to_arrow, item_field, lemma_arrow_fields_model, lemma_arrow_fields_model_push,
    lemma_arrow_fields_size_index, prim_from_arrow, ArrowField, ArrowFieldModel, ArrowSchema, ArrowTimeUnit, ArrowType,
    ArrowTypeModel,
};
use crate::nested_repair::{project_spec, row_agrees};
use crate::repair::{FloatOps, ScalarRepairError};
use crate::typeable::{fields_model, PrimitiveDataType, PyroSchema, PyroType, TypeModel};
use crate::value_type::row_fields;
use crate::value::{
    first_key, lemma_values_model, lemma_values_model_push, list_type, values_model, ListModel, PrimitiveValueList, PyroRow,
    PyroValue, ValueModel,
};

verus! {

/// What an Arrow array holds.
#[derive(Debug)]
pub enum Column {
    /// An array of the given number of missing values.
    Null(usize),
    Boolean(Vec<Option<bool>>),
    Int8(Vec<Option<i8>>),
    Int16(Vec<Option<i16>>),
    Int32(Vec<Option<i32>>),
    Int64(Vec<Option<i64>>),
    UInt8(Vec<Option<u8>>),
    UInt16(Vec<Option<u16>>),
    UInt32(Vec<Option<u32>>),
    UInt64(Vec<Option<u64>>),
    Float16(Vec<Option<u16>>),
    Float32(Vec<Option<u32>>),
    Float64(Vec<Option<u64>>),
    Utf8(Vec<Option<String>>),
    LargeUtf8(Vec<Option<String>>),
    /// Instants counted in a unit, with the time zone of the Arrow type.
    Timestamp(ArrowTimeUnit, Option<String>, Vec<Option<i64>>),
    /// A struct array: its fields, a column for each, and which rows are
    /// present, or nothing when all are.
    Struct(Vec<ArrowField>, Vec<Column>, Option<Vec<bool>>),
    /// A list array: the field of its items, where the items of each list
    /// start and, last, where they end, which lists are present, and the
    /// column of all the items.
    List(Box<ArrowField>, Vec<u128>, Vec<bool>, Box<Column>),
    /// A list array with 64-bit offsets, laid out as `List`.
    LargeList(Box<ArrowField>, Vec<u128>, Vec<bool>, Box<Column>),
}

/// What a [`Column`] denotes: scalars and text as the values they came
/// from, the missing value where one is missing.
pub enum ColumnModel {
    Null(nat),
    Values(ArrowTypeModel, Seq<ValueModel>),
    Timestamps(ArrowTimeUnit, Option<Seq<char>>, Seq<Option<i64>>),
    Struct(Seq<ArrowFieldModel>, Seq<ColumnModel>, Option<Seq<bool>>),
    List(ArrowFieldModel, Seq<int>, Seq<bool>, Box<ColumnModel>),
    LargeList(ArrowFieldModel, Seq<int>, Seq<bool>, Box<ColumnModel>),
}

/// The value a slot of Boolean holds.
pub open spec fn slot_boolean(x: Option<bool>) -> ValueModel {
    match x {
        Some(y) => ValueModel::Bool(y),
        None => ValueModel::Null,
    }
}

/// The value a slot of Int8 holds.
pub open spec fn slot_int8(x: Option<i8>) -> ValueModel {
    match x {
        Some(y) => ValueModel::I8(y),
        None => ValueModel::Null,
    }
}

/// The value a slot of Int16 holds.
pub open spec fn slot_int16(x: Option<i16>) -> ValueModel {
    match x {
        Some(y) => ValueModel::I16(y),
        None => ValueModel::Null,
    }
}

/// The value a slot of Int32 holds.
pub open spec fn slot_int32(x: Option<i32>) -> ValueModel {
    match x {
        Some(y) => ValueModel::I32(y),
        None => ValueModel::Null,
    }
}

/// The value a slot of Int64 holds.
pub open spec fn slot_int64(x: Option<i64>) -> ValueModel {
    match x {
        Some(y) => ValueModel::I64(y),
        None => ValueModel::Null,
    }
}

/// The value a slot of UInt8 holds.
pub open spec fn slot_uint8(x: Option<u8>) -> ValueModel {
    match x {
        Some(y) => ValueModel::U8(y),
        None => ValueModel::Null,
    }
}

/// The value a slot of UInt16 holds.
pub open spec fn slot_uint16(x: Option<u16>) -> ValueModel {
    match x {
        Some(y) => ValueModel::U16(y),
        None => ValueModel::Null,
    }
}

/// The value a slot of UInt32 holds.
pub open spec fn slot_uint32(x: Option<u32>) -> ValueModel {
    match x {
        Some(y) => ValueModel::U32(y),
        None => ValueModel::Null,
    }
}

/// The value a slot of UInt64 holds.
pub open spec fn slot_uint64(x: Option<u64>) -> ValueModel {
    match x {
        Some(y) => ValueModel::U64(y),
        None => ValueModel::Null,
    }
}

/// The value a slot of Float16 holds.
pub open spec fn slot_float16(x: Option<u16>) -> ValueModel {
    match x {
        Some(y) => ValueModel::F16(y),
        None => ValueModel::Null,
    }
}

/// The value a slot of Float32 holds.
pub open spec fn slot_float32(x: Option<u32>) -> ValueModel {
    match x {
        Some(y) => ValueModel::F32(y),
        None => ValueModel::Null,
    }
}

/// The value a slot of Float64 holds.
pub open spec fn slot_float64(x: Option<u64>) -> ValueModel {
    match x {
        Some(y) => ValueModel::F64(y),
        None => ValueModel::Null,
    }
}
/// The value a slot of text holds.
pub open spec fn slot_text(x: Option<String>) -> ValueModel {
    match x {
        Some(y) => ValueModel::Str(y@),
        None => ValueModel::Null,
    }
}

pub open spec fn column_model(c: Column) -> ColumnModel
    decreases c,
{
    match c {
        Column::Null(n) => ColumnModel::Null(n as nat),
        Column::Boolean(xs) => ColumnModel::Values(ArrowTypeModel::Boolean, xs@.map_values(|x: Option<bool>| slot_boolean(x))),
        Column::Int8(xs) => ColumnModel::Values(ArrowTypeModel::Int8, xs@.map_values(|x: Option<i8>| slot_int8(x))),
        Column::Int16(xs) => ColumnModel::Values(ArrowTypeModel::Int16, xs@.map_values(|x: Option<i16>| slot_int16(x))),
        Column::Int32(xs) => ColumnModel::Values(ArrowTypeModel::Int32, xs@.map_values(|x: Option<i32>| slot_int32(x))),
        Column::Int64(xs) => ColumnModel::Values(ArrowTypeModel::Int64, xs@.map_values(|x: Option<i64>| slot_int64(x))),
        Column::UInt8(xs) => ColumnModel::Values(ArrowTypeModel::UInt8, xs@.map_values(|x: Option<u8>| slot_uint8(x))),
        Column::UInt16(xs) => ColumnModel::Values(ArrowTypeModel::UInt16, xs@.map_values(|x: Option<u16>| slot_uint16(x))),
        Column::UInt32(xs) => ColumnModel::Values(ArrowTypeModel::UInt32, xs@.map_values(|x: Option<u32>| slot_uint32(x))),
        Column::UInt64(xs) => ColumnModel::Values(ArrowTypeModel::UInt64, xs@.map_values(|x: Option<u64>| slot_uint64(x))),
        Column::Float16(xs) => ColumnModel::Values(ArrowTypeModel::Float16, xs@.map_values(|x: Option<u16>| slot_float16(x))),
        Column::Float32(xs) => ColumnModel::Values(ArrowTypeModel::Float32, xs@.map_values(|x: Option<u32>| slot_float32(x))),
        Column::Float64(xs) => ColumnModel::Values(ArrowTypeModel::Float64, xs@.map_values(|x: Option<u64>| slot_float64(x))),
        Column::Utf8(xs) => ColumnModel::Values(ArrowTypeModel::Utf8, xs@.map_values(|x: Option<String>| slot_text(x))),
        Column::LargeUtf8(xs) => ColumnModel::Values(ArrowTypeModel::LargeUtf8, xs@.map_values(|x: Option<String>| slot_text(x))),
        Column::Timestamp(u, tz, xs) => ColumnModel::Timestamps(
            u,
            match tz {
                Some(z) => Some(z@),
                None => None,
            },
            xs@,
        ),
        Column::Struct(fs, cs, nulls) => ColumnModel::Struct(
            arrow_fields_model(fs@),
            columns_model(cs@),
            match nulls {
                Some(n) => Some(n@),
                None => None,
            },
        ),
        Column::List(f, offs, valid, child) => ColumnModel::List(
            f@,
            offs@.map_values(|o: u128| o as int),
            valid@,
            Box::new(column_model(*child)),
        ),
        Column::LargeList(f, offs, valid, child) => ColumnModel::LargeList(
            f@,
            offs@.map_values(|o: u128| o as int),
            valid@,
            Box::new(column_model(*child)),
        ),
    }
}

pub open spec fn columns_model(s: Seq<Column>) -> Seq<ColumnModel>
    decreases s,
{
    if s.len() == 0 {
        Seq::empty()
    } else {
        columns_model(s.drop_last()).push(column_model(s.last()))
    }
}

impl View for Column {
    type V = ColumnModel;

    open spec fn view(&self) -> ColumnModel {
        column_model(*self)
    }
}

/// Why a column could not be built.
#[derive(Debug)]
pub enum ColumnError {
    /// A value that the column's type does not hold.
    Invalid(PyroValue),
    /// A value that a list of scalars does not hold: the whole list it
    /// stands in.
    InvalidLarge(PyroValue),
    /// A column type that no column is built for.
    Unimplemented,
}

/// What a [`ColumnError`] denotes.
pub enum ColumnErrorModel {
    Invalid(ValueModel),
    InvalidLarge(ValueModel),
    Unimplemented,
}

impl View for ColumnError {
    type V = ColumnErrorModel;

    open spec fn view(&self) -> ColumnErrorModel {
        match self {
            ColumnError::Invalid(v) => ColumnErrorModel::Invalid(v@),
            ColumnError::InvalidLarge(v) => ColumnErrorModel::InvalidLarge(v@),
            ColumnError::Unimplemented => ColumnErrorModel::Unimplemented,
        }
    }
}

/// A column built, or why not, as what it denotes.
pub open spec fn built_model(r: Result<Column, ColumnError>) -> Result<ColumnModel, ColumnErrorModel> {
    match r {
        Ok(c) => Ok(c@),
        Err(e) => Err(e@),
    }
}

// ---------------------------------------------------------------------------
// Building a column, stated
// ---------------------------------------------------------------------------

/// Whether an array of the Arrow type `dt` holds scalars or text.
pub open spec fn is_values_type(dt: ArrowTypeModel) -> bool {
    dt is Boolean || dt is Int8 || dt is Int16 || dt is Int32 || dt is Int64 || dt is UInt8 || dt is UInt16 || dt is UInt32 || dt is UInt64 || dt is Float16 || dt is Float32 || dt is Float64 || dt is Utf8 || dt is LargeUtf8
}

/// Whether an array of the scalars or text `dt` holds the present value `v`.
pub open spec fn accepts(dt: ArrowTypeModel, v: ValueModel) -> bool {
    match dt {
        ArrowTypeModel::Boolean => v is Bool,
        ArrowTypeModel::Int8 => v is I8,
        ArrowTypeModel::Int16 => v is I16,
        ArrowTypeModel::Int32 => v is I32,
        ArrowTypeModel::Int64 => v is I64,
        ArrowTypeModel::UInt8 => v is U8,
        ArrowTypeModel::UInt16 => v is U16,
        ArrowTypeModel::UInt32 => v is U32,
        ArrowTypeModel::UInt64 => v is U64,
        ArrowTypeModel::Float16 => v is F16,
        ArrowTypeModel::Float32 => v is F32,
        ArrowTypeModel::Float64 => v is F64,
        ArrowTypeModel::Utf8 | ArrowTypeModel::LargeUtf8 => v is Str,
        _ => false,
    }
}

/// Whether lists of items of type `dt` take lists of scalars whole.
pub open spec fn takes_scalar_lists(dt: ArrowTypeModel) -> bool {
    dt is Int8 || dt is Int16 || dt is Int32 || dt is Int64 || dt is UInt8 || dt is UInt16 || dt is UInt32
        || dt is UInt64 || dt is Float32 || dt is Float64
}

/// The position of the first value that is not `ok`, if any.
pub open spec fn first_failing(vals: Seq<ValueModel>, ok: spec_fn(ValueModel) -> bool) -> Option<int>
    decreases vals.len(),
{
    if vals.len() == 0 {
        None
    } else {
        match first_failing(vals.drop_last(), ok) {
            Some(i) => Some(i),
            None => if ok(vals.last()) {
                None
            } else {
                Some(vals.len() - 1)
            },
        }
    }
}

/// The scalars of a list of scalars, as values.
pub open spec fn list_values(l: ListModel) -> Seq<ValueModel> {
    match l {
        ListModel::Bool(s) => s.map_values(|x: bool| ValueModel::Bool(x)),
        ListModel::U8(s) => s.map_values(|x: u8| ValueModel::U8(x)),
        ListModel::U16(s) => s.map_values(|x: u16| ValueModel::U16(x)),
        ListModel::U32(s) => s.map_values(|x: u32| ValueModel::U32(x)),
        ListModel::U64(s) => s.map_values(|x: u64| ValueModel::U64(x)),
        ListModel::I8(s) => s.map_values(|x: i8| ValueModel::I8(x)),
        ListModel::I16(s) => s.map_values(|x: i16| ValueModel::I16(x)),
        ListModel::I32(s) => s.map_values(|x: i32| ValueModel::I32(x)),
        ListModel::I64(s) => s.map_values(|x: i64| ValueModel::I64(x)),
        ListModel::F16(s) => s.map_values(|x: u16| ValueModel::F16(x)),
        ListModel::F32(s) => s.map_values(|x: u32| ValueModel::F32(x)),
        ListModel::F64(s) => s.map_values(|x: u64| ValueModel::F64(x)),
    }
}

/// The items of a list value: its values, or its scalars; none for
/// anything else.
pub open spec fn items_of(v: ValueModel) -> Seq<ValueModel> {
    match v {
        ValueModel::List(items) => items,
        ValueModel::PrimitiveList(l) => list_values(l),
        _ => Seq::empty(),
    }
}

/// The items of all the values, in order.
pub open spec fn flatten(vals: Seq<ValueModel>) -> Seq<ValueModel>
    decreases vals.len(),
{
    if vals.len() == 0 {
        Seq::empty()
    } else {
        flatten(vals.drop_last()) + items_of(vals.last())
    }
}

/// Where the items of each value start among all items, and, last, where
/// they end.
pub open spec fn offsets_of(vals: Seq<ValueModel>) -> Seq<int> {
    Seq::new(vals.len() + 1, |i: int| flatten(vals.take(i)).len() as int)
}

/// Which values are present.
pub open spec fn present(vals: Seq<ValueModel>) -> Seq<bool> {
    vals.map_values(|v: ValueModel| !(v is Null))
}

/// The value of the field `name` in the row `v`: its first item of that
/// name, or the missing value for a row without one and for anything
/// that is not a row.
pub open spec fn field_value(v: ValueModel, name: Seq<char>) -> ValueModel {
    match v {
        ValueModel::Group(items) => match first_key(items, name) {
            Some(t) => items[t].1,
            None => ValueModel::Null,
        },
        _ => ValueModel::Null,
    }
}

/// The values of the field `name` in each row.
pub open spec fn project(vals: Seq<ValueModel>, name: Seq<char>) -> Seq<ValueModel> {
    vals.map_values(|v: ValueModel| field_value(v, name))
}

/// An instant's nanoseconds counted in a unit, cut toward zero and then to
/// 64 bits as a cast cuts them.
pub open spec fn in_unit(u: ArrowTimeUnit, nanos: int) -> i64 {
    let d: int = match u {
        ArrowTimeUnit::Second => 1000000000,
        ArrowTimeUnit::Millisecond => 1000000,
        ArrowTimeUnit::Microsecond => 1000,
        ArrowTimeUnit::Nanosecond => 1,
    };
    (if nanos >= 0 {
        nanos / d
    } else {
        -((-nanos) / d)
    }) as i64
}

/// Whether an array of the scalars or text `dt` takes `v`: the missing
/// value, or a present value it holds.
pub open spec fn value_ok(dt: ArrowTypeModel) -> spec_fn(ValueModel) -> bool {
    |v: ValueModel| v is Null || accepts(dt, v)
}

/// Whether an array of instants takes `v`.
pub open spec fn instant_ok() -> spec_fn(ValueModel) -> bool {
    |v: ValueModel| v is Null || v is Timestamp
}

/// Whether a struct array takes `v`: the missing value, or a row.
pub open spec fn row_ok() -> spec_fn(ValueModel) -> bool {
    |v: ValueModel| v is Null || v is Group
}

/// Whether a list array takes `v`: the missing value, a list, or a list
/// of scalars.
pub open spec fn list_ok() -> spec_fn(ValueModel) -> bool {
    |v: ValueModel| v is Null || v is List || v is PrimitiveList
}

/// Whether a list array of the scalars `item`, which takes lists of
/// scalars whole, takes `v`: the missing value, a list of scalars of the
/// item's type, or a list whose items it takes.
pub open spec fn scalar_list_ok(item: ArrowTypeModel) -> spec_fn(ValueModel) -> bool {
    |v: ValueModel| scalar_list_takes(item, v)
}

/// Whether a list array of the scalars `item`, which takes lists of
/// scalars whole, takes `v`.
pub open spec fn scalar_list_takes(item: ArrowTypeModel, v: ValueModel) -> bool {
    ||| v is Null
    ||| (v matches ValueModel::PrimitiveList(l) && prim_from_arrow(item) == Some(list_type(l)))
    ||| (v matches ValueModel::List(items) && forall|k: int|
        0 <= k < items.len() ==> (#[trigger] items[k]) is Null || accepts(item, items[k]))
}

/// Whether a value is missing anywhere in `vals`.
pub open spec fn any_missing(vals: Seq<ValueModel>) -> bool {
    exists|i: int| 0 <= i < vals.len() && vals[i] is Null
}

/// The slot of an array of instants that holds `v`.
pub open spec fn instant_slot(u: ArrowTimeUnit, v: ValueModel) -> Option<i64> {
    match v {
        ValueModel::Timestamp(t) => Some(in_unit(u, t.0 as int)),
        _ => None,
    }
}

/// What building a column of the Arrow type `dt` from `vals` gives:
/// - `Null`: an array of that many missing values;
/// - scalars and text: the values, each missing or of the type;
/// - timestamps: each instant counted in the type's unit;
/// - structs: each field's column of the values under its name in each
///   row (missing where a row is missing or lacks it), and which rows are
///   present where one is missing;
/// - lists: where each list's items start, which lists are present, and
///   the column of all the items; lists of scalars the item type takes
///   whole are taken whole, under a nullable field named `item`;
/// - any other type: `Unimplemented`.
/// A value the array does not take is the error, the first one.
pub open spec fn build_spec(dt: ArrowTypeModel, vals: Seq<ValueModel>) -> Result<ColumnModel, ColumnErrorModel>
    decreases dt,
{
    match dt {
        ArrowTypeModel::Null => Ok(ColumnModel::Null(vals.len())),
        ArrowTypeModel::Timestamp(u, tz) => match first_failing(vals, instant_ok()) {
            Some(i) => Err(ColumnErrorModel::Invalid(vals[i])),
            None => Ok(ColumnModel::Timestamps(u, tz, vals.map_values(|v: ValueModel| instant_slot(u, v)))),
        },
        ArrowTypeModel::Struct(fs) => match (if fs.len() > 0 {
            first_failing(vals, row_ok())
        } else {
            None
        }) {
            Some(i) => Err(ColumnErrorModel::Invalid(vals[i])),
            None => match build_fields(fs, vals) {
                Ok(cs) => Ok(
                    ColumnModel::Struct(
                        fs,
                        cs,
                        if any_missing(vals) {
                            Some(present(vals))
                        } else {
                            None
                        },
                    ),
                ),
                Err(e) => Err(e),
            },
        },
        ArrowTypeModel::List(f) => if takes_scalar_lists(f.data_type) {
            match first_failing(vals, scalar_list_ok(f.data_type)) {
                Some(i) => Err(ColumnErrorModel::InvalidLarge(vals[i])),
                None => Ok(
                    ColumnModel::List(
                        item_field(f.data_type, true),
                        offsets_of(vals),
                        present(vals),
                        Box::new(ColumnModel::Values(f.data_type, flatten(vals))),
                    ),
                ),
            }
        } else {
            match first_failing(vals, list_ok()) {
                Some(i) => Err(ColumnErrorModel::Invalid(vals[i])),
                None => match build_spec(f.data_type, flatten(vals)) {
                    Ok(c) => Ok(ColumnModel::List(*f, offsets_of(vals), present(vals), Box::new(c))),
                    Err(e) => Err(e),
                },
            }
        },
        ArrowTypeModel::LargeList(f) => match first_failing(vals, list_ok()) {
            Some(i) => Err(ColumnErrorModel::Invalid(vals[i])),
            None => match build_spec(f.data_type, flatten(vals)) {
                Ok(c) => Ok(ColumnModel::LargeList(*f, offsets_of(vals), present(vals), Box::new(c))),
                Err(e) => Err(e),
            },
        },
        _ => if is_values_type(dt) {
            match first_failing(vals, value_ok(dt)) {
                Some(i) => Err(ColumnErrorModel::Invalid(vals[i])),
                None => Ok(ColumnModel::Values(dt, vals)),
            }
        } else {
            Err(ColumnErrorModel::Unimplemented)
        },
    }
}

/// The columns of the fields of a struct, in order, or the first error.
pub open spec fn build_fields(fs: Seq<ArrowFieldModel>, vals: Seq<ValueModel>) -> Result<Seq<ColumnModel>, ColumnErrorModel>
    decreases fs,
{
    if fs.len() == 0 {
        Ok(Seq::empty())
    } else {
        match build_fields(fs.drop_last(), vals) {
            Err(e) => Err(e),
            Ok(cs) => match build_spec(fs.last().data_type, project(vals, fs.last().name)) {
                Ok(c) => Ok(cs.push(c)),
                Err(e) => Err(e),
            },
        }
    }
}

/// Once a prefix of the values has a first one that is not `ok`, so have
/// all of them; with none in all of them, none is.
pub proof fn lemma_first_failing_prefix(vals: Seq<ValueModel>, ok: spec_fn(ValueModel) -> bool, n: int)
    requires
        0 <= n <= vals.len(),
    ensures
        first_failing(vals.take(n), ok) is Some ==> first_failing(vals, ok) == first_failing(vals.take(n), ok),
        n == vals.len() ==> first_failing(vals.take(n), ok) == first_failing(vals, ok),
    decreases vals.len() - n,
{
    if n == vals.len() {
        assert(vals.take(n) =~= vals);
    } else {
        assert(vals.take(n + 1).drop_last() =~= vals.take(n));
        lemma_first_failing_prefix(vals, ok, n + 1);
    }
}

/// No value fails exactly when every value is `ok`; the first failing one
/// fails, and all before it are `ok`.
pub proof fn lemma_first_failing(vals: Seq<ValueModel>, ok: spec_fn(ValueModel) -> bool)
    ensures
        first_failing(vals, ok) is None <==> forall|i: int| 0 <= i < vals.len() ==> #[trigger] ok(vals[i]),
        first_failing(vals, ok) matches Some(i) ==> 0 <= i < vals.len() && !ok(vals[i]) && forall|k: int|
            0 <= k < i ==> #[trigger] ok(vals[k]),
    decreases vals.len(),
{
    if vals.len() > 0 {
        let d = vals.drop_last();
        lemma_first_failing(d, ok);
        assert forall|i: int| 0 <= i < d.len() implies d[i] == vals[i] by {}
        if first_failing(d, ok) is None && !ok(vals.last()) {
            assert(!ok(vals[vals.len() - 1]));
        }
    }
}

/// The column of scalars or text of the Arrow type `dt`.
fn values_column(dt: &ArrowType, values: &[PyroValue]) -> (r: Result<Column, ColumnError>)
    requires
        is_values_type(dt@),
    ensures
        built_model(r) == build_spec(dt@, values_model(values@)),
{
    let ghost vals = values_model(values@);
    proof {
        lemma_values_model(values@);
    }
    match dt {
        ArrowType::Boolean => {
            let mut out: Vec<Option<bool>> = Vec::new();
            let mut i: usize = 0;
            while i < values.len()
                invariant
                    i <= values@.len(),
                    vals == values_model(values@),
                    vals.len() == values@.len(),
                    forall|j: int| 0 <= j < values@.len() ==> #[trigger] vals[j] == values@[j]@,
                    dt@ == ArrowTypeModel::Boolean,
                    first_failing(vals.take(i as int), value_ok(ArrowTypeModel::Boolean)) is None,
                    out@.len() == i,
                    forall|j: int| 0 <= j < i ==> #[trigger] slot_boolean(out@[j]) == vals[j],
                decreases values.len() - i,
            {
                proof {
                    assert(vals.take(i + 1).drop_last() =~= vals.take(i as int));
                    assert(vals.take(i + 1).last() == vals[i as int]);
                }
                match &values[i] {
                    PyroValue::Bool(x) => {
                        out.push(Some(*x));
                    },
                    PyroValue::Null => {
                        out.push(None);
                    },
                    other => {
                        proof {
                            lemma_first_failing_prefix(vals, value_ok(ArrowTypeModel::Boolean), i + 1);
                        }
                        return Err(ColumnError::Invalid(other.to_static()));
                    },
                }
                i = i + 1;
            }
            proof {
                lemma_first_failing_prefix(vals, value_ok(ArrowTypeModel::Boolean), vals.len() as int);
                assert(out@.map_values(|x: Option<bool>| slot_boolean(x)) =~= vals);
            }
            Ok(Column::Boolean(out))
        },
        ArrowType::Int8 => {
            let mut out: Vec<Option<i8>> = Vec::new();
            let mut i: usize = 0;
            while i < values.len()
                invariant
                    i <= values@.len(),
                    vals == values_model(values@),
                    vals.len() == values@.len(),
                    forall|j: int| 0 <= j < values@.len() ==> #[trigger] vals[j] == values@[j]@,
                    dt@ == ArrowTypeModel::Int8,
                    first_failing(vals.take(i as int), value_ok(ArrowTypeModel::Int8)) is None,
                    out@.len() == i,
                    forall|j: int| 0 <= j < i ==> #[trigger] slot_int8(out@[j]) == vals[j],
                decreases values.len() - i,
            {
                proof {
                    assert(vals.take(i + 1).drop_last() =~= vals.take(i as int));
                    assert(vals.take(i + 1).last() == vals[i as int]);
                }
                match &values[i] {
                    PyroValue::I8(x) => {
                        out.push(Some(*x));
                    },
                    PyroValue::Null => {
                        out.push(None);
                    },
                    other => {
                        proof {
                            lemma_first_failing_prefix(vals, value_ok(ArrowTypeModel::Int8), i + 1);
                        }
                        return Err(ColumnError::Invalid(other.to_static()));
                    },
                }
                i = i + 1;
            }
            proof {
                lemma_first_failing_prefix(vals, value_ok(ArrowTypeModel::Int8), vals.len() as int);
                assert(out@.map_values(|x: Option<i8>| slot_int8(x)) =~= vals);
            }
            Ok(Column::Int8(out))
        },
        ArrowType::Int16 => {
            let mut out: Vec<Option<i16>> = Vec::new();
            let mut i: usize = 0;
            while i < values.len()
                invariant
                    i <= values@.len(),
                    vals == values_model(values@),
                    vals.len() == values@.len(),
                    forall|j: int| 0 <= j < values@.len() ==> #[trigger] vals[j] == values@[j]@,
                    dt@ == ArrowTypeModel::Int16,
                    first_failing(vals.take(i as int), value_ok(ArrowTypeModel::Int16)) is None,
                    out@.len() == i,
                    forall|j: int| 0 <= j < i ==> #[trigger] slot_int16(out@[j]) == vals[j],
                decreases values.len() - i,
            {
                proof {
                    assert(vals.take(i + 1).drop_last() =~= vals.take(i as int));
                    assert(vals.take(i + 1).last() == vals[i as int]);
                }
                match &values[i] {
                    PyroValue::I16(x) => {
                        out.push(Some(*x));
                    },
                    PyroValue::Null => {
                        out.push(None);
                    },
                    other => {
                        proof {
                            lemma_first_failing_prefix(vals, value_ok(ArrowTypeModel::Int16), i + 1);
                        }
                        return Err(ColumnError::Invalid(other.to_static()));
                    },
                }
                i = i + 1;
            }
            proof {
                lemma_first_failing_prefix(vals, value_ok(ArrowTypeModel::Int16), vals.len() as int);
                assert(out@.map_values(|x: Option<i16>| slot_int16(x)) =~= vals);
            }
            Ok(Column::Int16(out))
        },
        ArrowType::Int32 => {
            let mut out: Vec<Option<i32>> = Vec::new();
            let mut i: usize = 0;
            while i < values.len()
                invariant
                    i <= values@.len(),
                    vals == values_model(values@),
                    vals.len() == values@.len(),
                    forall|j: int| 0 <= j < values@.len() ==> #[trigger] vals[j] == values@[j]@,
                    dt@ == ArrowTypeModel::Int32,
                    first_failing(vals.take(i as int), value_ok(ArrowTypeModel::Int32)) is None,
                    out@.len() == i,
                    forall|j: int| 0 <= j < i ==> #[trigger] slot_int32(out@[j]) == vals[j],
                decreases values.len() - i,
            {
                proof {
                    assert(vals.take(i + 1).drop_last() =~= vals.take(i as int));
                    assert(vals.take(i + 1).last() == vals[i as int]);
                }
                match &values[i] {
                    PyroValue::I32(x) => {
                        out.push(Some(*x));
                    },
                    PyroValue::Null => {
                        out.push(None);
                    },
                    other => {
                        proof {
                            lemma_first_failing_prefix(vals, value_ok(ArrowTypeModel::Int32), i + 1);
                        }
                        return Err(ColumnError::Invalid(other.to_static()));
                    },
                }
                i = i + 1;
            }
            proof {
                lemma_first_failing_prefix(vals, value_ok(ArrowTypeModel::Int32), vals.len() as int);
                assert(out@.map_values(|x: Option<i32>| slot_int32(x)) =~= vals);
            }
            Ok(Column::Int32(out))
        },
        ArrowType::Int64 => {
            let mut out: Vec<Option<i64>> = Vec::new();
            let mut i: usize = 0;
            while i < values.len()
                invariant
                    i <= values@.len(),
                    vals == values_model(values@),
                    vals.len() == values@.len(),
                    forall|j: int| 0 <= j < values@.len() ==> #[trigger] vals[j] == values@[j]@,
                    dt@ == ArrowTypeModel::Int64,
                    first_failing(vals.take(i as int), value_ok(ArrowTypeModel::Int64)) is None,
                    out@.len() == i,
                    forall|j: int| 0 <= j < i ==> #[trigger] slot_int64(out@[j]) == vals[j],
                decreases values.len() - i,
            {
                proof {
                    assert(vals.take(i + 1).drop_last() =~= vals.take(i as int));
                    assert(vals.take(i + 1).last() == vals[i as int]);
                }
                match &values[i] {
                    PyroValue::I64(x) => {
                        out.push(Some(*x));
                    },
                    PyroValue::Null => {
                        out.push(None);
                    },
                    other => {
                        proof {
                            lemma_first_failing_prefix(vals, value_ok(ArrowTypeModel::Int64), i + 1);
                        }
                        return Err(ColumnError::Invalid(other.to_static()));
                    },
                }
                i = i + 1;
            }
            proof {
                lemma_first_failing_prefix(vals, value_ok(ArrowTypeModel::Int64), vals.len() as int);
                assert(out@.map_values(|x: Option<i64>| slot_int64(x)) =~= vals);
            }
            Ok(Column::Int64(out))
        },
        ArrowType::UInt8 => {
            let mut out: Vec<Option<u8>> = Vec::new();
            let mut i: usize = 0;
            while i < values.len()
                invariant
                    i <= values@.len(),
                    vals == values_model(values@),
                    vals.len() == values@.len(),
                    forall|j: int| 0 <= j < values@.len() ==> #[trigger] vals[j] == values@[j]@,
                    dt@ == ArrowTypeModel::UInt8,
                    first_failing(vals.take(i as int), value_ok(ArrowTypeModel::UInt8)) is None,
                    out@.len() == i,
                    forall|j: int| 0 <= j < i ==> #[trigger] slot_uint8(out@[j]) == vals[j],
                decreases values.len() - i,
            {
                proof {
                    assert(vals.take(i + 1).drop_last() =~= vals.take(i as int));
                    assert(vals.take(i + 1).last() == vals[i as int]);
                }
                match &values[i] {
                    PyroValue::U8(x) => {
                        out.push(Some(*x));
                    },
                    PyroValue::Null => {
                        out.push(None);
                    },
                    other => {
                        proof {
                            lemma_first_failing_prefix(vals, value_ok(ArrowTypeModel::UInt8), i + 1);
                        }
                        return Err(ColumnError::Invalid(other.to_static()));
                    },
                }
                i = i + 1;
            }
            proof {
                lemma_first_failing_prefix(vals, value_ok(ArrowTypeModel::UInt8), vals.len() as int);
                assert(out@.map_values(|x: Option<u8>| slot_uint8(x)) =~= vals);
            }
            Ok(Column::UInt8(out))
        },
        ArrowType::UInt16 => {
            let mut out: Vec<Option<u16>> = Vec::new();
            let mut i: usize = 0;
            while i < values.len()
                invariant
                    i <= values@.len(),
                    vals == values_model(values@),
                    vals.len() == values@.len(),
                    forall|j: int| 0 <= j < values@.len() ==> #[trigger] vals[j] == values@[j]@,
                    dt@ == ArrowTypeModel::UInt16,
                    first_failing(vals.take(i as int), value_ok(ArrowTypeModel::UInt16)) is None,
                    out@.len() == i,
                    forall|j: int| 0 <= j < i ==> #[trigger] slot_uint16(out@[j]) == vals[j],
                decreases values.len() - i,
            {
                proof {
                    assert(vals.take(i + 1).drop_last() =~= vals.take(i as int));
                    assert(vals.take(i + 1).last() == vals[i as int]);
                }
                match &values[i] {
                    PyroValue::U16(x) => {
                        out.push(Some(*x));
                    },
                    PyroValue::Null => {
                        out.push(None);
                    },
                    other => {
                        proof {
                            lemma_first_failing_prefix(vals, value_ok(ArrowTypeModel::UInt16), i + 1);
                        }
                        return Err(ColumnError::Invalid(other.to_static()));
                    },
                }
                i = i + 1;
            }
            proof {
                lemma_first_failing_prefix(vals, value_ok(ArrowTypeModel::UInt16), vals.len() as int);
                assert(out@.map_values(|x: Option<u16>| slot_uint16(x)) =~= vals);
            }
            Ok(Column::UInt16(out))
        },
        ArrowType::UInt32 => {
            let mut out: Vec<Option<u32>> = Vec::new();
            let mut i: usize = 0;
            while i < values.len()
                invariant
                    i <= values@.len(),
                    vals == values_model(values@),
                    vals.len() == values@.len(),
                    forall|j: int| 0 <= j < values@.len() ==> #[trigger] vals[j] == values@[j]@,
                    dt@ == ArrowTypeModel::UInt32,
                    first_failing(vals.take(i as int), value_ok(ArrowTypeModel::UInt32)) is None,
                    out@.len() == i,
                    forall|j: int| 0 <= j < i ==> #[trigger] slot_uint32(out@[j]) == vals[j],
                decreases values.len() - i,
            {
                proof {
                    assert(vals.take(i + 1).drop_last() =~= vals.take(i as int));
                    assert(vals.take(i + 1).last() == vals[i as int]);
                }
                match &values[i] {
                    PyroValue::U32(x) => {
                        out.push(Some(*x));
                    },
                    PyroValue::Null => {
                        out.push(None);
                    },
                    other => {
                        proof {
                            lemma_first_failing_prefix(vals, value_ok(ArrowTypeModel::UInt32), i + 1);
                        }
                        return Err(ColumnError::Invalid(other.to_static()));
                    },
                }
                i = i + 1;
            }
            proof {
                lemma_first_failing_prefix(vals, value_ok(ArrowTypeModel::UInt32), vals.len() as int);
                assert(out@.map_values(|x: Option<u32>| slot_uint32(x)) =~= vals);
            }
            Ok(Column::UInt32(out))
        },
        ArrowType::UInt64 => {
            let mut out: Vec<Option<u64>> = Vec::new();
            let mut i: usize = 0;
            while i < values.len()
                invariant
                    i <= values@.len(),
                    vals == values_model(values@),
                    vals.len() == values@.len(),
                    forall|j: int| 0 <= j < values@.len() ==> #[trigger] vals[j] == values@[j]@,
                    dt@ == ArrowTypeModel::UInt64,
                    first_failing(vals.take(i as int), value_ok(ArrowTypeModel::UInt64)) is None,
                    out@.len() == i,
                    forall|j: int| 0 <= j < i ==> #[trigger] slot_uint64(out@[j]) == vals[j],
                decreases values.len() - i,
            {
                proof {
                    assert(vals.take(i + 1).drop_last() =~= vals.take(i as int));
                    assert(vals.take(i + 1).last() == vals[i as int]);
                }
                match &values[i] {
                    PyroValue::U64(x) => {
                        out.push(Some(*x));
                    },
                    PyroValue::Null => {
                        out.push(None);
                    },
                    other => {
                        proof {
                            lemma_first_failing_prefix(vals, value_ok(ArrowTypeModel::UInt64), i + 1);
                        }
                        return Err(ColumnError::Invalid(other.to_static()));
                    },
                }
                i = i + 1;
            }
            proof {
                lemma_first_failing_prefix(vals, value_ok(ArrowTypeModel::UInt64), vals.len() as int);
                assert(out@.map_values(|x: Option<u64>| slot_uint64(x)) =~= vals);
            }
            Ok(Column::UInt64(out))
        },
        ArrowType::Float16 => {
            let mut out: Vec<Option<u16>> = Vec::new();
            let mut i: usize = 0;
            while i < values.len()
                invariant
                    i <= values@.len(),
                    vals == values_model(values@),
                    vals.len() == values@.len(),
                    forall|j: int| 0 <= j < values@.len() ==> #[trigger] vals[j] == values@[j]@,
                    dt@ == ArrowTypeModel::Float16,
                    first_failing(vals.take(i as int), value_ok(ArrowTypeModel::Float16)) is None,
                    out@.len() == i,
                    forall|j: int| 0 <= j < i ==> #[trigger] slot_float16(out@[j]) == vals[j],
                decreases values.len() - i,
            {
                proof {
                    assert(vals.take(i + 1).drop_last() =~= vals.take(i as int));
                    assert(vals.take(i + 1).last() == vals[i as int]);
                }
                match &values[i] {
                    PyroValue::F16(x) => {
                        out.push(Some(*x));
                    },
                    PyroValue::Null => {
                        out.push(None);
                    },
                    other => {
                        proof {
                            lemma_first_failing_prefix(vals, value_ok(ArrowTypeModel::Float16), i + 1);
                        }
                        return Err(ColumnError::Invalid(other.to_static()));
                    },
                }
                i = i + 1;
            }
            proof {
                lemma_first_failing_prefix(vals, value_ok(ArrowTypeModel::Float16), vals.len() as int);
                assert(out@.map_values(|x: Option<u16>| slot_float16(x)) =~= vals);
            }
            Ok(Column::Float16(out))
        },
        ArrowType::Float32 => {
            let mut out: Vec<Option<u32>> = Vec::new();
            let mut i: usize = 0;
            while i < values.len()
                invariant
                    i <= values@.len(),
                    vals == values_model(values@),
                    vals.len() == values@.len(),
                    forall|j: int| 0 <= j < values@.len() ==> #[trigger] vals[j] == values@[j]@,
                    dt@ == ArrowTypeModel::Float32,
                    first_failing(vals.take(i as int), value_ok(ArrowTypeModel::Float32)) is None,
                    out@.len() == i,
                    forall|j: int| 0 <= j < i ==> #[trigger] slot_float32(out@[j]) == vals[j],
                decreases values.len() - i,
            {
                proof {
                    assert(vals.take(i + 1).drop_last() =~= vals.take(i as int));
                    assert(vals.take(i + 1).last() == vals[i as int]);
                }
                match &values[i] {
                    PyroValue::F32(x) => {
                        out.push(Some(*x));
                    },
                    PyroValue::Null => {
                        out.push(None);
                    },
                    other => {
                        proof {
                            lemma_first_failing_prefix(vals, value_ok(ArrowTypeModel::Float32), i + 1);
                        }
                        return Err(ColumnError::Invalid(other.to_static()));
                    },
                }
                i = i + 1;
            }
            proof {
                lemma_first_failing_prefix(vals, value_ok(ArrowTypeModel::Float32), vals.len() as int);
                assert(out@.map_values(|x: Option<u32>| slot_float32(x)) =~= vals);
            }
            Ok(Column::Float32(out))
        },
        ArrowType::Float64 => {
            let mut out: Vec<Option<u64>> = Vec::new();
            let mut i: usize = 0;
            while i < values.len()
                invariant
                    i <= values@.len(),
                    vals == values_model(values@),
                    vals.len() == values@.len(),
                    forall|j: int| 0 <= j < values@.len() ==> #[trigger] vals[j] == values@[j]@,
                    dt@ == ArrowTypeModel::Float64,
                    first_failing(vals.take(i as int), value_ok(ArrowTypeModel::Float64)) is None,
                    out@.len() == i,
                    forall|j: int| 0 <= j < i ==> #[trigger] slot_float64(out@[j]) == vals[j],
                decreases values.len() - i,
            {
                proof {
                    assert(vals.take(i + 1).drop_last() =~= vals.take(i as int));
                    assert(vals.take(i + 1).last() == vals[i as int]);
                }
                match &values[i] {
                    PyroValue::F64(x) => {
                        out.push(Some(*x));
                    },
                    PyroValue::Null => {
                        out.push(None);
                    },
                    other => {
                        proof {
                            lemma_first_failing_prefix(vals, value_ok(ArrowTypeModel::Float64), i + 1);
                        }
                        return Err(ColumnError::Invalid(other.to_static()));
                    },
                }
                i = i + 1;
            }
            proof {
                lemma_first_failing_prefix(vals, value_ok(ArrowTypeModel::Float64), vals.len() as int);
                assert(out@.map_values(|x: Option<u64>| slot_float64(x)) =~= vals);
            }
            Ok(Column::Float64(out))
        },
        ArrowType::Utf8 => {
            let mut out: Vec<Option<String>> = Vec::new();
            let mut i: usize = 0;
            while i < values.len()
                invariant
                    i <= values@.len(),
                    vals == values_model(values@),
                    vals.len() == values@.len(),
                    forall|j: int| 0 <= j < values@.len() ==> #[trigger] vals[j] == values@[j]@,
                    dt@ == ArrowTypeModel::Utf8,
                    first_failing(vals.take(i as int), value_ok(ArrowTypeModel::Utf8)) is None,
                    out@.len() == i,
                    forall|j: int| 0 <= j < i ==> #[trigger] slot_text(out@[j]) == vals[j],
                decreases values.len() - i,
            {
                proof {
                    assert(vals.take(i + 1).drop_last() =~= vals.take(i as int));
                    assert(vals.take(i + 1).last() == vals[i as int]);
                }
                match &values[i] {
                    PyroValue::Str(x) => {
                        out.push(Some(x.clone()));
                    },
                    PyroValue::Null => {
                        out.push(None);
                    },
                    other => {
                        proof {
                            lemma_first_failing_prefix(vals, value_ok(ArrowTypeModel::Utf8), i + 1);
                        }
                        return Err(ColumnError::Invalid(other.to_static()));
                    },
                }
                i = i + 1;
            }
            proof {
                lemma_first_failing_prefix(vals, value_ok(ArrowTypeModel::Utf8), vals.len() as int);
                assert(out@.map_values(|x: Option<String>| slot_text(x)) =~= vals);
            }
            Ok(Column::Utf8(out))
        },
        ArrowType::LargeUtf8 => {
            let mut out: Vec<Option<String>> = Vec::new();
            let mut i: usize = 0;
            while i < values.len()
                invariant
                    i <= values@.len(),
                    vals == values_model(values@),
                    vals.len() == values@.len(),
                    forall|j: int| 0 <= j < values@.len() ==> #[trigger] vals[j] == values@[j]@,
                    dt@ == ArrowTypeModel::LargeUtf8,
                    first_failing(vals.take(i as int), value_ok(ArrowTypeModel::LargeUtf8)) is None,
                    out@.len() == i,
                    forall|j: int| 0 <= j < i ==> #[trigger] slot_text(out@[j]) == vals[j],
                decreases values.len() - i,
            {
                proof {
                    assert(vals.take(i + 1).drop_last() =~= vals.take(i as int));
                    assert(vals.take(i + 1).last() == vals[i as int]);
                }
                match &values[i] {
                    PyroValue::Str(x) => {
                        out.push(Some(x.clone()));
                    },
                    PyroValue::Null => {
                        out.push(None);
                    },
                    other => {
                        proof {
                            lemma_first_failing_prefix(vals, value_ok(ArrowTypeModel::LargeUtf8), i + 1);
                        }
                        return Err(ColumnError::Invalid(other.to_static()));
                    },
                }
                i = i + 1;
            }
            proof {
                lemma_first_failing_prefix(vals, value_ok(ArrowTypeModel::LargeUtf8), vals.len() as int);
                assert(out@.map_values(|x: Option<String>| slot_text(x)) =~= vals);
            }
            Ok(Column::LargeUtf8(out))
        },
        _ => Err(ColumnError::Unimplemented),
    }
}

/// Whether an array of the scalars or text `dt` holds the present value `v`.
fn accepts_exec(dt: &ArrowType, v: &PyroValue) -> (r: bool)
    ensures
        r == accepts(dt@, v@),
{
    match (dt, v) {
        (ArrowType::Boolean, PyroValue::Bool(_)) => true,
        (ArrowType::Int8, PyroValue::I8(_)) => true,
        (ArrowType::Int16, PyroValue::I16(_)) => true,
        (ArrowType::Int32, PyroValue::I32(_)) => true,
        (ArrowType::Int64, PyroValue::I64(_)) => true,
        (ArrowType::UInt8, PyroValue::U8(_)) => true,
        (ArrowType::UInt16, PyroValue::U16(_)) => true,
        (ArrowType::UInt32, PyroValue::U32(_)) => true,
        (ArrowType::UInt64, PyroValue::U64(_)) => true,
        (ArrowType::Float16, PyroValue::F16(_)) => true,
        (ArrowType::Float32, PyroValue::F32(_)) => true,
        (ArrowType::Float64, PyroValue::F64(_)) => true,
        (ArrowType::Utf8, PyroValue::Str(_)) => true,
        (ArrowType::LargeUtf8, PyroValue::Str(_)) => true,
        _ => false,
    }
}

/// Whether an array of the Arrow type `dt` holds scalars or text.
fn is_values_type_exec(dt: &ArrowType) -> (r: bool)
    ensures
        r == is_values_type(dt@),
{
    match dt {
        ArrowType::Boolean | ArrowType::Int8 | ArrowType::Int16 | ArrowType::Int32 | ArrowType::Int64 | ArrowType::UInt8 | ArrowType::UInt16 | ArrowType::UInt32 | ArrowType::UInt64 | ArrowType::Float16 | ArrowType::Float32 | ArrowType::Float64 | ArrowType::Utf8 | ArrowType::LargeUtf8 => true,
        _ => false,
    }
}

/// Whether lists of items of type `dt` take lists of scalars whole.
fn takes_scalar_lists_exec(dt: &ArrowType) -> (r: bool)
    ensures
        r == takes_scalar_lists(dt@),
{
    match dt {
        ArrowType::Int8 | ArrowType::Int16 | ArrowType::Int32 | ArrowType::Int64 | ArrowType::UInt8 | ArrowType::UInt16
        | ArrowType::UInt32 | ArrowType::UInt64 | ArrowType::Float32 | ArrowType::Float64 => true,
        _ => false,
    }
}

/// An instant's nanoseconds counted in a unit, as [`in_unit`] says.
fn to_unit(u: ArrowTimeUnit, nanos: i128) -> (r: i64)
    ensures
        r == in_unit(u, nanos as int),
{
    let d: i128 = match u {
        ArrowTimeUnit::Second => 1000000000,
        ArrowTimeUnit::Millisecond => 1000000,
        ArrowTimeUnit::Microsecond => 1000,
        ArrowTimeUnit::Nanosecond => 1,
    };
    if d == 1 {
        return #[verifier::truncate] (nanos as i64);
    }
    let q: i128 = if nanos >= 0 {
        nanos / d
    } else {
        let m: u128 = (-(nanos + 1)) as u128 + 1;
        let p: u128 = m / (d as u128);
        proof {
            assert(m as int == -(nanos as int));
            assert(p <= m / 1000) by (nonlinear_arith)
                requires
                    p == m / (d as u128),
                    d >= 1000,
            ;
        }
        -(p as i128)
    };
    #[verifier::truncate] (q as i64)
}

/// The column of instants in the unit `u` and the time zone `tz`.
fn timestamp_column(u: ArrowTimeUnit, tz: &Option<String>, values: &[PyroValue]) -> (r: Result<Column, ColumnError>)
    ensures
        r matches Ok(c) ==> c@ == ColumnModel::Timestamps(
            u,
            match tz {
                Some(z) => Some(z@),
                None => None,
            },
            values_model(values@).map_values(|v: ValueModel| instant_slot(u, v)),
        ) && first_failing(values_model(values@), instant_ok()) is None,
        r matches Err(e) ==> first_failing(values_model(values@), instant_ok()) matches Some(i) && e@
            == ColumnErrorModel::Invalid(values_model(values@)[i]),
{
    let ghost vals = values_model(values@);
    proof {
        lemma_values_model(values@);
    }
    let mut out: Vec<Option<i64>> = Vec::new();
    let mut i: usize = 0;
    while i < values.len()
        invariant
            i <= values@.len(),
            vals == values_model(values@),
            vals.len() == values@.len(),
            forall|j: int| 0 <= j < values@.len() ==> #[trigger] vals[j] == values@[j]@,
            first_failing(vals.take(i as int), instant_ok()) is None,
            out@.len() == i,
            forall|j: int| 0 <= j < i ==> #[trigger] out@[j] == instant_slot(u, vals[j]),
        decreases values.len() - i,
    {
        proof {
            assert(vals.take(i + 1).drop_last() =~= vals.take(i as int));
            assert(vals.take(i + 1).last() == vals[i as int]);
        }
        match &values[i] {
            PyroValue::Timestamp(t) => {
                out.push(Some(to_unit(u, t.0)));
            },
            PyroValue::Null => {
                out.push(None);
            },
            other => {
                proof {
                    lemma_first_failing_prefix(vals, instant_ok(), i + 1);
                }
                return Err(ColumnError::Invalid(other.to_static()));
            },
        }
        i = i + 1;
    }
    proof {
        lemma_first_failing_prefix(vals, instant_ok(), vals.len() as int);
        assert(out@ =~= vals.map_values(|v: ValueModel| instant_slot(u, v)));
    }
    let z = match tz {
        Some(s) => Some(s.clone()),
        None => None,
    };
    Ok(Column::Timestamp(u, z, out))
}

/// The values of the field `name` in each row, as [`project`] says.
fn field_values(values: &[PyroValue], name: &str) -> (r: Vec<PyroValue>)
    ensures
        values_model(r@) == project(values_model(values@), name@),
{
    let ghost vals = values_model(values@);
    proof {
        lemma_values_model(values@);
    }
    let mut out: Vec<PyroValue> = Vec::new();
    let mut i: usize = 0;
    while i < values.len()
        invariant
            i <= values@.len(),
            vals == values_model(values@),
            vals.len() == values@.len(),
            forall|j: int| 0 <= j < values@.len() ==> #[trigger] vals[j] == values@[j]@,
            values_model(out@) == project(vals, name@).take(i as int),
        decreases values.len() - i,
    {
        let x = match &values[i] {
            PyroValue::Group(row) => match row.get(name) {
                Some(v) => v.to_static(),
                None => PyroValue::Null,
            },
            _ => PyroValue::Null,
        };
        proof {
            lemma_values_model_push(out@, x);
            assert(x@ == field_value(vals[i as int], name@));
            assert(project(vals, name@).take(i + 1) =~= project(vals, name@).take(i as int).push(x@));
        }
        out.push(x);
        i = i + 1;
    }
    proof {
        assert(project(vals, name@).take(vals.len() as int) =~= project(vals, name@));
    }
    out
}

/// Once the columns of a prefix of the fields end in an error, so do the
/// columns of all of them; the prefix of all the fields is all of them.
proof fn lemma_build_fields_prefix(fs: Seq<ArrowFieldModel>, vals: Seq<ValueModel>, n: int)
    requires
        0 <= n <= fs.len(),
    ensures
        build_fields(fs.take(n), vals) is Err ==> build_fields(fs, vals) == build_fields(fs.take(n), vals),
        n == fs.len() ==> build_fields(fs.take(n), vals) == build_fields(fs, vals),
    decreases fs.len() - n,
{
    if n == fs.len() {
        assert(fs.take(n) =~= fs);
    } else {
        assert(fs.take(n + 1).drop_last() =~= fs.take(n));
        lemma_build_fields_prefix(fs, vals, n + 1);
    }
}

pub proof fn lemma_columns_model_push(s: Seq<Column>, c: Column)
    ensures
        columns_model(s.push(c)) == columns_model(s).push(c@),
{
    assert(s.push(c).drop_last() =~= s);
}

/// Copies of Arrow fields.
fn copy_fields(fields: &Vec<ArrowField>) -> (r: Vec<ArrowField>)
    ensures
        arrow_fields_model(r@) == arrow_fields_model(fields@),
{
    proof {
        lemma_arrow_fields_model(fields@);
    }
    let mut out: Vec<ArrowField> = Vec::new();
    let mut i: usize = 0;
    while i < fields.len()
        invariant
            i <= fields@.len(),
            arrow_fields_model(fields@).len() == fields@.len(),
            forall|j: int| 0 <= j < fields@.len() ==> #[trigger] arrow_fields_model(fields@)[j] == fields@[j]@,
            arrow_fields_model(out@) == arrow_fields_model(fields@).take(i as int),
        decreases fields.len() - i,
    {
        let f = fields[i].copy();
        proof {
            lemma_arrow_fields_model_push(out@, f);
            assert(arrow_fields_model(fields@).take(i + 1) =~= arrow_fields_model(fields@).take(i as int).push(fields@[i as int]@));
        }
        out.push(f);
        i = i + 1;
    }
    proof {
        assert(arrow_fields_model(fields@).take(fields@.len() as int) =~= arrow_fields_model(fields@));
    }
    out
}

/// Which values are present, and whether one is missing.
fn presence(values: &[PyroValue]) -> (r: (Vec<bool>, bool))
    ensures
        r.0@ == present(values_model(values@)),
        r.1 == any_missing(values_model(values@)),
{
    let ghost vals = values_model(values@);
    proof {
        lemma_values_model(values@);
    }
    let mut valid: Vec<bool> = Vec::new();
    let mut any = false;
    let mut i: usize = 0;
    while i < values.len()
        invariant
            i <= values@.len(),
            vals == values_model(values@),
            vals.len() == values@.len(),
            forall|j: int| 0 <= j < values@.len() ==> #[trigger] vals[j] == values@[j]@,
            valid@ == present(vals.take(i as int)),
            any == any_missing(vals.take(i as int)),
        decreases values.len() - i,
    {
        let missing = values[i].is_null();
        proof {
            assert(present(vals.take(i + 1)) =~= present(vals.take(i as int)).push(!missing));
            if missing {
                assert(vals.take(i + 1)[i as int] is Null);
            }
            let t1 = vals.take(i + 1);
            let t0 = vals.take(i as int);
            if any_missing(t1) && !missing {
                let k = choose|k: int| 0 <= k < t1.len() && t1[k] is Null;
                assert(t0[k] is Null);
            }
            if any_missing(t0) {
                let k = choose|k: int| 0 <= k < t0.len() && t0[k] is Null;
                assert(t1[k] is Null);
            }
        }
        valid.push(!missing);
        if missing {
            any = true;
        }
        i = i + 1;
    }
    proof {
        assert(vals.take(vals.len() as int) =~= vals);
    }
    (valid, any)
}

/// The columns of the given fields, each of the values under its name in
/// each row, as [`build_fields`] says.
pub fn field_columns(fields: &Vec<ArrowField>, values: &[PyroValue]) -> (r: Result<Vec<Column>, ColumnError>)
    ensures
        match r {
            Ok(cs) => Ok(columns_model(cs@)),
            Err(e) => Err(e@),
        } == build_fields(arrow_fields_model(fields@), values_model(values@)),
    decreases arrow_fields_size(fields@) + 1, 0nat,
{
    let ghost vals = values_model(values@);
    let ghost fs = arrow_fields_model(fields@);
    proof {
        lemma_values_model(values@);
        lemma_arrow_fields_model(fields@);
    }
    let mut arrays: Vec<Column> = Vec::new();
    let mut j: usize = 0;
    while j < fields.len()
        invariant
            j <= fields@.len(),
            vals == values_model(values@),
            fs == arrow_fields_model(fields@),
            fs.len() == fields@.len(),
            forall|k: int| 0 <= k < fields@.len() ==> #[trigger] fs[k] == fields@[k]@,
            build_fields(fs.take(j as int), vals) == Ok::<Seq<ColumnModel>, ColumnErrorModel>(columns_model(arrays@)),
        decreases fields.len() - j,
    {
        proof {
            lemma_arrow_fields_size_index(fields@, j as int);
            assert(fs.take(j + 1).drop_last() =~= fs.take(j as int));
            assert(fs.take(j + 1).last() == fs[j as int]);
        }
        proof {
            assert(fs[j as int].data_type == fields@[j as int].data_type@);
            assert(fs[j as int].name == fields@[j as int].name@);
        }
        let column_values = field_values(values, fields[j].name.as_str());
        match build_column(&fields[j].data_type, &column_values) {
            Ok(c) => {
                proof {
                    lemma_columns_model_push(arrays@, c);
                }
                arrays.push(c);
            },
            Err(e) => {
                proof {
                    lemma_build_fields_prefix(fs, vals, j + 1);
                }
                return Err(e);
            },
        }
        j = j + 1;
    }
    proof {
        lemma_build_fields_prefix(fs, vals, fs.len() as int);
    }
    Ok(arrays)
}

/// The column of a struct of the given fields.
fn struct_column(fields: &Vec<ArrowField>, values: &[PyroValue]) -> (r: Result<Column, ColumnError>)
    ensures
        built_model(r) == build_spec(ArrowTypeModel::Struct(arrow_fields_model(fields@)), values_model(values@)),
    decreases arrow_fields_size(fields@) + 1, 1nat,
{
    let ghost vals = values_model(values@);
    let ghost fs = arrow_fields_model(fields@);
    proof {
        lemma_values_model(values@);
        lemma_arrow_fields_model(fields@);
    }
    if fields.len() > 0 {
        let mut i: usize = 0;
        while i < values.len()
            invariant
                i <= values@.len(),
                vals == values_model(values@),
                vals.len() == values@.len(),
                forall|j: int| 0 <= j < values@.len() ==> #[trigger] vals[j] == values@[j]@,
                fs == arrow_fields_model(fields@),
                fs.len() > 0,
                first_failing(vals.take(i as int), row_ok()) is None,
            decreases values.len() - i,
        {
            proof {
                assert(vals.take(i + 1).drop_last() =~= vals.take(i as int));
                assert(vals.take(i + 1).last() == vals[i as int]);
            }
            match &values[i] {
                PyroValue::Group(_) => {},
                PyroValue::Null => {},
                other => {
                    proof {
                        lemma_first_failing_prefix(vals, row_ok(), i + 1);
                    }
                    return Err(ColumnError::Invalid(other.to_static()));
                },
            }
            i = i + 1;
        }
        proof {
            lemma_first_failing_prefix(vals, row_ok(), vals.len() as int);
        }
    }
    let arrays = match field_columns(fields, values) {
        Ok(cs) => cs,
        Err(e) => {
            return Err(e);
        },
    };
    let (valid, any) = presence(values);
    let nulls = if any {
        Some(valid)
    } else {
        None
    };
    Ok(Column::Struct(copy_fields(fields), arrays, nulls))
}

/// Appends the items of a list, or the scalars of a list of scalars, and
/// gives their number.
fn push_items(flat: &mut Vec<PyroValue>, v: &PyroValue) -> (r: usize)
    requires
        v@ is List || v@ is PrimitiveList,
    ensures
        values_model(final(flat)@) == values_model(old(flat)@) + items_of(v@),
        r == items_of(v@).len(),
{
    let ghost start = flat@;
    match v {
        PyroValue::List(items) => {
            proof {
                lemma_values_model(items@);
            }
            let mut k: usize = 0;
            while k < items.len()
                invariant
                    k <= items@.len(),
                    v@ == ValueModel::List(values_model(items@)),
                    values_model(items@).len() == items@.len(),
                    forall|j: int| 0 <= j < items@.len() ==> #[trigger] values_model(items@)[j] == items@[j]@,
                    values_model(flat@) == values_model(start) + values_model(items@).take(k as int),
                decreases items.len() - k,
            {
                let x = items[k].to_static();
                proof {
                    lemma_values_model_push(flat@, x);
                    assert(values_model(items@).take(k + 1) =~= values_model(items@).take(k as int).push(x@));
                }
                flat.push(x);
                k = k + 1;
            }
            proof {
                assert(values_model(items@).take(items@.len() as int) =~= values_model(items@));
            }
            items.len()
        },
        PyroValue::PrimitiveList(l) => {
            match l {
                PrimitiveValueList::Bool(xs) => {
                    let mut k: usize = 0;
                    while k < xs.len()
                        invariant
                            k <= xs@.len(),
                            l@ == ListModel::Bool(xs@),
                            values_model(flat@) == values_model(start) + list_values(l@).take(k as int),
                        decreases xs.len() - k,
                    {
                        let x = PyroValue::Bool(xs[k]);
                        proof {
                            lemma_values_model_push(flat@, x);
                            assert(list_values(l@).take(k + 1) =~= list_values(l@).take(k as int).push(x@));
                        }
                        flat.push(x);
                        k = k + 1;
                    }
                    proof {
                        assert(list_values(l@).take(xs@.len() as int) =~= list_values(l@));
                    }
                    xs.len()
                },
                PrimitiveValueList::U8(xs) => {
                    let mut k: usize = 0;
                    while k < xs.len()
                        invariant
                            k <= xs@.len(),
                            l@ == ListModel::U8(xs@),
                            values_model(flat@) == values_model(start) + list_values(l@).take(k as int),
                        decreases xs.len() - k,
                    {
                        let x = PyroValue::U8(xs[k]);
                        proof {
                            lemma_values_model_push(flat@, x);
                            assert(list_values(l@).take(k + 1) =~= list_values(l@).take(k as int).push(x@));
                        }
                        flat.push(x);
                        k = k + 1;
                    }
                    proof {
                        assert(list_values(l@).take(xs@.len() as int) =~= list_values(l@));
                    }
                    xs.len()
                },
                PrimitiveValueList::U16(xs) => {
                    let mut k: usize = 0;
                    while k < xs.len()
                        invariant
                            k <= xs@.len(),
                            l@ == ListModel::U16(xs@),
                            values_model(flat@) == values_model(start) + list_values(l@).take(k as int),
                        decreases xs.len() - k,
                    {
                        let x = PyroValue::U16(xs[k]);
                        proof {
                            lemma_values_model_push(flat@, x);
                            assert(list_values(l@).take(k + 1) =~= list_values(l@).take(k as int).push(x@));
                        }
                        flat.push(x);
                        k = k + 1;
                    }
                    proof {
                        assert(list_values(l@).take(xs@.len() as int) =~= list_values(l@));
                    }
                    xs.len()
                },
                PrimitiveValueList::U32(xs) => {
                    let mut k: usize = 0;
                    while k < xs.len()
                        invariant
                            k <= xs@.len(),
                            l@ == ListModel::U32(xs@),
                            values_model(flat@) == values_model(start) + list_values(l@).take(k as int),
                        decreases xs.len() - k,
                    {
                        let x = PyroValue::U32(xs[k]);
                        proof {
                            lemma_values_model_push(flat@, x);
                            assert(list_values(l@).take(k + 1) =~= list_values(l@).take(k as int).push(x@));
                        }
                        flat.push(x);
                        k = k + 1;
                    }
                    proof {
                        assert(list_values(l@).take(xs@.len() as int) =~= list_values(l@));
                    }
                    xs.len()
                },
                PrimitiveValueList::U64(xs) => {
                    let mut k: usize = 0;
                    while k < xs.len()
                        invariant
                            k <= xs@.len(),
                            l@ == ListModel::U64(xs@),
                            values_model(flat@) == values_model(start) + list_values(l@).take(k as int),
                        decreases xs.len() - k,
                    {
                        let x = PyroValue::U64(xs[k]);
                        proof {
                            lemma_values_model_push(flat@, x);
                            assert(list_values(l@).take(k + 1) =~= list_values(l@).take(k as int).push(x@));
                        }
                        flat.push(x);
                        k = k + 1;
                    }
                    proof {
                        assert(list_values(l@).take(xs@.len() as int) =~= list_values(l@));
                    }
                    xs.len()
                },
                PrimitiveValueList::I8(xs) => {
                    let mut k: usize = 0;
                    while k < xs.len()
                        invariant
                            k <= xs@.len(),
                            l@ == ListModel::I8(xs@),
                            values_model(flat@) == values_model(start) + list_values(l@).take(k as int),
                        decreases xs.len() - k,
                    {
                        let x = PyroValue::I8(xs[k]);
                        proof {
                            lemma_values_model_push(flat@, x);
                            assert(list_values(l@).take(k + 1) =~= list_values(l@).take(k as int).push(x@));
                        }
                        flat.push(x);
                        k = k + 1;
                    }
                    proof {
                        assert(list_values(l@).take(xs@.len() as int) =~= list_values(l@));
                    }
                    xs.len()
                },
                PrimitiveValueList::I16(xs) => {
                    let mut k: usize = 0;
                    while k < xs.len()
                        invariant
                            k <= xs@.len(),
                            l@ == ListModel::I16(xs@),
                            values_model(flat@) == values_model(start) + list_values(l@).take(k as int),
                        decreases xs.len() - k,
                    {
                        let x = PyroValue::I16(xs[k]);
                        proof {
                            lemma_values_model_push(flat@, x);
                            assert(list_values(l@).take(k + 1) =~= list_values(l@).take(k as int).push(x@));
                        }
                        flat.push(x);
                        k = k + 1;
                    }
                    proof {
                        assert(list_values(l@).take(xs@.len() as int) =~= list_values(l@));
                    }
                    xs.len()
                },
                PrimitiveValueList::I32(xs) => {
                    let mut k: usize = 0;
                    while k < xs.len()
                        invariant
                            k <= xs@.len(),
                            l@ == ListModel::I32(xs@),
                            values_model(flat@) == values_model(start) + list_values(l@).take(k as int),
                        decreases xs.len() - k,
                    {
                        let x = PyroValue::I32(xs[k]);
                        proof {
                            lemma_values_model_push(flat@, x);
                            assert(list_values(l@).take(k + 1) =~= list_values(l@).take(k as int).push(x@));
                        }
                        flat.push(x);
                        k = k + 1;
                    }
                    proof {
                        assert(list_values(l@).take(xs@.len() as int) =~= list_values(l@));
                    }
                    xs.len()
                },
                PrimitiveValueList::I64(xs) => {
                    let mut k: usize = 0;
                    while k < xs.len()
                        invariant
                            k <= xs@.len(),
                            l@ == ListModel::I64(xs@),
                            values_model(flat@) == values_model(start) + list_values(l@).take(k as int),
                        decreases xs.len() - k,
                    {
                        let x = PyroValue::I64(xs[k]);
                        proof {
                            lemma_values_model_push(flat@, x);
                            assert(list_values(l@).take(k + 1) =~= list_values(l@).take(k as int).push(x@));
                        }
                        flat.push(x);
                        k = k + 1;
                    }
                    proof {
                        assert(list_values(l@).take(xs@.len() as int) =~= list_values(l@));
                    }
                    xs.len()
                },
                PrimitiveValueList::F16(xs) => {
                    let mut k: usize = 0;
                    while k < xs.len()
                        invariant
                            k <= xs@.len(),
                            l@ == ListModel::F16(xs@),
                            values_model(flat@) == values_model(start) + list_values(l@).take(k as int),
                        decreases xs.len() - k,
                    {
                        let x = PyroValue::F16(xs[k]);
                        proof {
                            lemma_values_model_push(flat@, x);
                            assert(list_values(l@).take(k + 1) =~= list_values(l@).take(k as int).push(x@));
                        }
                        flat.push(x);
                        k = k + 1;
                    }
                    proof {
                        assert(list_values(l@).take(xs@.len() as int) =~= list_values(l@));
                    }
                    xs.len()
                },
                PrimitiveValueList::F32(xs) => {
                    let mut k: usize = 0;
                    while k < xs.len()
                        invariant
                            k <= xs@.len(),
                            l@ == ListModel::F32(xs@),
                            values_model(flat@) == values_model(start) + list_values(l@).take(k as int),
                        decreases xs.len() - k,
                    {
                        let x = PyroValue::F32(xs[k]);
                        proof {
                            lemma_values_model_push(flat@, x);
                            assert(list_values(l@).take(k + 1) =~= list_values(l@).take(k as int).push(x@));
                        }
                        flat.push(x);
                        k = k + 1;
                    }
                    proof {
                        assert(list_values(l@).take(xs@.len() as int) =~= list_values(l@));
                    }
                    xs.len()
                },
                PrimitiveValueList::F64(xs) => {
                    let mut k: usize = 0;
                    while k < xs.len()
                        invariant
                            k <= xs@.len(),
                            l@ == ListModel::F64(xs@),
                            values_model(flat@) == values_model(start) + list_values(l@).take(k as int),
                        decreases xs.len() - k,
                    {
                        let x = PyroValue::F64(xs[k]);
                        proof {
                            lemma_values_model_push(flat@, x);
                            assert(list_values(l@).take(k + 1) =~= list_values(l@).take(k as int).push(x@));
                        }
                        flat.push(x);
                        k = k + 1;
                    }
                    proof {
                        assert(list_values(l@).take(xs@.len() as int) =~= list_values(l@));
                    }
                    xs.len()
                },
            }
        },
        _ => 0,
    }
}

/// Whether a list of scalars holds scalars of the item type `dt`.
fn list_of_item_type(dt: &ArrowType, l: &PrimitiveValueList) -> (r: bool)
    ensures
        r == (prim_from_arrow(dt@) == Some(list_type(l@))),
{
    match PrimitiveDataType::from_arrow(dt) {
        Some(p) => p == l.data_type(),
        None => false,
    }
}

/// Whether every item of a list is missing or held by an array of `dt`.
fn items_taken(dt: &ArrowType, items: &Vec<PyroValue>) -> (r: bool)
    ensures
        r == forall|k: int| 0 <= k < values_model(items@).len() ==> #[trigger] values_model(items@)[k] is Null || accepts(
            dt@,
            values_model(items@)[k],
        ),
{
    proof {
        lemma_values_model(items@);
    }
    let mut k: usize = 0;
    while k < items.len()
        invariant
            k <= items@.len(),
            values_model(items@).len() == items@.len(),
            forall|j: int| 0 <= j < items@.len() ==> #[trigger] values_model(items@)[j] == items@[j]@,
            forall|j: int| 0 <= j < k ==> #[trigger] values_model(items@)[j] is Null || accepts(dt@, values_model(items@)[j]),
        decreases items.len() - k,
    {
        if !items[k].is_null() && !accepts_exec(dt, &items[k]) {
            proof {
                assert(!(values_model(items@)[k as int] is Null || accepts(dt@, values_model(items@)[k as int])));
            }
            return false;
        }
        k = k + 1;
    }
    true
}

/// In a list array of scalars that takes lists of scalars whole, all the
/// items of the values it takes are missing or held by the item type.
proof fn lemma_fast_items(item: ArrowTypeModel, vals: Seq<ValueModel>)
    requires
        takes_scalar_lists(item),
        forall|i: int| 0 <= i < vals.len() ==> #[trigger] scalar_list_ok(item)(vals[i]),
    ensures
        forall|k: int| 0 <= k < flatten(vals).len() ==> #[trigger] value_ok(item)(flatten(vals)[k]),
    decreases vals.len(),
{
    if vals.len() > 0 {
        let d = vals.drop_last();
        assert forall|i: int| 0 <= i < d.len() implies #[trigger] scalar_list_ok(item)(d[i]) by {
            assert(d[i] == vals[i]);
        }
        lemma_fast_items(item, d);
        let last = vals.last();
        assert(scalar_list_ok(item)(vals[vals.len() - 1]));
        let fl = flatten(vals);
        assert(fl == flatten(d) + items_of(last));
        assert forall|k: int| 0 <= k < fl.len() implies #[trigger] value_ok(item)(fl[k]) by {
            if k < flatten(d).len() {
                assert(fl[k] == flatten(d)[k]);
            } else {
                let m = k - flatten(d).len();
                assert(fl[k] == items_of(last)[m]);
            }
        }
    }
}

/// The column of lists of items of the field `f`, with 64-bit offsets when
/// `large`.
fn list_column(f: &ArrowField, large: bool, values: &[PyroValue]) -> (r: Result<Column, ColumnError>)
    ensures
        built_model(r) == build_spec(
            if large {
                ArrowTypeModel::LargeList(Box::new(f@))
            } else {
                ArrowTypeModel::List(Box::new(f@))
            },
            values_model(values@),
        ),
    decreases arrow_size(f.data_type) + 1, 0nat,
{
    let ghost vals = values_model(values@);
    let fast = !large && takes_scalar_lists_exec(&f.data_type);
    let ghost ok = if fast {
        scalar_list_ok(f.data_type@)
    } else {
        list_ok()
    };
    proof {
        lemma_values_model(values@);
    }
    let mut offsets: Vec<u128> = Vec::new();
    let mut valid: Vec<bool> = Vec::new();
    let mut flat: Vec<PyroValue> = Vec::new();
    let mut current: u128 = 0;
    offsets.push(0);
    let mut i: usize = 0;
    while i < values.len()
        invariant
            i <= values@.len(),
            vals == values_model(values@),
            vals.len() == values@.len(),
            forall|j: int| 0 <= j < values@.len() ==> #[trigger] vals[j] == values@[j]@,
            fast == (!large && takes_scalar_lists(f.data_type@)),
            ok == (if fast {
                scalar_list_ok(f.data_type@)
            } else {
                list_ok()
            }),
            first_failing(vals.take(i as int), ok) is None,
            values_model(flat@) == flatten(vals.take(i as int)),
            current as int == flatten(vals.take(i as int)).len(),
            current as int <= i * 0xFFFF_FFFF_FFFF_FFFF,
            offsets@.len() == i + 1,
            forall|k: int| 0 <= k <= i ==> #[trigger] offsets@[k] as int == flatten(vals.take(k)).len(),
            valid@ == present(vals.take(i as int)),
        decreases values.len() - i,
    {
        proof {
            assert(vals.take(i + 1).drop_last() =~= vals.take(i as int));
            assert(vals.take(i + 1).last() == vals[i as int]);
            assert(present(vals.take(i + 1)) =~= present(vals.take(i as int)).push(!(vals[i as int] is Null)));
        }
        let v = &values[i];
        let takes = match v {
            PyroValue::Null => true,
            PyroValue::List(items) => !fast || items_taken(&f.data_type, items),
            PyroValue::PrimitiveList(l) => !fast || list_of_item_type(&f.data_type, l),
            _ => false,
        };
        if !takes {
            proof {
                if fast {
                    match v {
                        PyroValue::List(items) => {
                            assert(vals[i as int] == ValueModel::List(values_model(items@)));
                            let k = choose|k: int| 0 <= k < values_model(items@).len() && !(values_model(items@)[k] is Null || accepts(
                                f.data_type@,
                                values_model(items@)[k],
                            ));
                            assert(!(values_model(items@)[k] is Null || accepts(f.data_type@, values_model(items@)[k])));
                            assert(!scalar_list_takes(f.data_type@, vals[i as int]));
                        },
                        PyroValue::PrimitiveList(l) => {
                            assert(vals[i as int] == ValueModel::PrimitiveList(l@));
                            assert(!scalar_list_ok(f.data_type@)(vals[i as int]));
                        },
                        _ => {
                            assert(!scalar_list_ok(f.data_type@)(vals[i as int]));
                        },
                    }
                    assert(!scalar_list_ok(f.data_type@)(vals[i as int]));
                } else {
                    assert(!list_ok()(vals[i as int]));
                }
                assert(!ok(vals[i as int]));
                lemma_first_failing_prefix(vals, ok, i + 1);
            }
            if fast {
                return Err(ColumnError::InvalidLarge(v.to_static()));
            } else {
                return Err(ColumnError::Invalid(v.to_static()));
            }
        }
        if v.is_null() {
            valid.push(false);
        } else {
            let ghost before = flat@;
            let n = push_items(&mut flat, v);
            proof {
                assert(n as int <= 0xFFFF_FFFF_FFFF_FFFF);
                assert((i + 1) * 0xFFFF_FFFF_FFFF_FFFF == i * 0xFFFF_FFFF_FFFF_FFFF + 0xFFFF_FFFF_FFFF_FFFF) by (nonlinear_arith);
                assert(i * 0xFFFF_FFFF_FFFF_FFFF + 0xFFFF_FFFF_FFFF_FFFF <= 0xFFFF_FFFF_FFFF_FFFF * 0xFFFF_FFFF_FFFF_FFFF) by (nonlinear_arith)
                    requires
                        i < 0xFFFF_FFFF_FFFF_FFFF,
                ;
            }
            current = current + n as u128;
            valid.push(true);
        }
        offsets.push(current);
        i = i + 1;
    }
    proof {
        lemma_first_failing_prefix(vals, ok, vals.len() as int);
        assert(vals.take(vals.len() as int) =~= vals);
        assert(offsets@.map_values(|o: u128| o as int) =~= offsets_of(vals));
        lemma_first_failing(vals, ok);
        if fast {
            lemma_fast_items(f.data_type@, vals);
            lemma_first_failing(flatten(vals), value_ok(f.data_type@));
        }
    }
    let child = match build_column(&f.data_type, &flat) {
        Ok(c) => c,
        Err(e) => {
            return Err(e);
        },
    };
    let field = if fast {
        new_item_field_of(&f.data_type)
    } else {
        f.copy()
    };
    if large {
        Ok(Column::LargeList(Box::new(field), offsets, valid, Box::new(child)))
    } else {
        Ok(Column::List(Box::new(field), offsets, valid, Box::new(child)))
    }
}

/// The nullable field named `item` of items of type `dt`.
fn new_item_field_of(dt: &ArrowType) -> (r: ArrowField)
    ensures
        r@ == item_field(dt@, true),
{
    ArrowField { name: "item".to_owned(), data_type: dt.copy(), nullable: true }
}

/// The column of the Arrow type `data_type` built from `values`, or the
/// first value it does not take, as [`build_spec`] says.
pub fn build_column(data_type: &ArrowType, values: &[PyroValue]) -> (r: Result<Column, ColumnError>)
    ensures
        built_model(r) == build_spec(data_type@, values_model(values@)),
    decreases arrow_size(*data_type), 2nat,
{
    proof {
        lemma_values_model(values@);
    }
    match data_type {
        ArrowType::Null => Ok(Column::Null(values.len())),
        ArrowType::Timestamp(u, tz) => {
            let r = timestamp_column(*u, tz, values);
            proof {
                lemma_values_model(values@);
            }
            r
        },
        ArrowType::Struct(fields) => struct_column(fields, values),
        ArrowType::List(f) => list_column(f, false, values),
        ArrowType::LargeList(f) => list_column(f, true, values),
        _ => {
            if is_values_type_exec(data_type) {
                values_column(data_type, values)
            } else {
                Err(ColumnError::Unimplemented)
            }
        },
    }
}

// ---------------------------------------------------------------------------
// Rows gathered before they become a record batch
// ---------------------------------------------------------------------------

/// The rows, as row values.
pub open spec fn row_values(rows: Seq<PyroRow>) -> Seq<ValueModel> {
    rows.map_values(|r: PyroRow| ValueModel::Group(r@))
}

/// What the columns of a record batch of the rows give: nothing for no
/// rows, and otherwise the column of each field of the Arrow schema, or
/// the first error.
pub open spec fn batch_spec(fields: Seq<ArrowFieldModel>, rows: Seq<PyroRow>) -> Result<Option<Seq<ColumnModel>>, ColumnErrorModel> {
    if rows.len() == 0 {
        Ok(None)
    } else {
        match build_fields(fields, row_values(rows)) {
            Ok(cs) => Ok(Some(cs)),
            Err(e) => Err(e),
        }
    }
}

/// The columns of a record batch, or why not, as what they denote.
pub open spec fn batch_model(r: Result<Option<Vec<Column>>, ColumnError>) -> Result<Option<Seq<ColumnModel>>, ColumnErrorModel> {
    match r {
        Ok(Some(cs)) => Ok(Some(columns_model(cs@))),
        Ok(None) => Ok(None),
        Err(e) => Err(e@),
    }
}

/// Rows gathered under a schema before they become the columns of an
/// Arrow record batch.
pub struct PreBatch {
    arrow_schema: ArrowSchema,
    schema: PyroSchema,
    rows: Vec<PyroRow>,
}

impl PreBatch {
    /// The rows gathered.
    pub closed spec fn rows_of(&self) -> Seq<PyroRow> {
        self.rows@
    }

    /// The schema.
    pub closed spec fn schema_of(&self) -> PyroSchema {
        self.schema
    }

    /// The Arrow schema.
    pub closed spec fn arrow_of(&self) -> ArrowSchema {
        self.arrow_schema
    }

    /// Whether the Arrow schema is that of the schema.
    pub closed spec fn wf(&self) -> bool {
        arrow_fields_model(self.arrow_schema.fields@) == fields_to_arrow(fields_model(self.schema.fields@))
    }

    /// No rows, under `schema`.
    pub fn new(schema: PyroSchema) -> (r: PreBatch)
        ensures
            r.wf(),
            r.schema_of() == schema,
            r.rows_of() == Seq::<PyroRow>::empty(),
    {
        let arrow_schema = schema.to_arrow();
        PreBatch { arrow_schema, schema, rows: Vec::new() }
    }

    /// The rows under the schema of the first row, which has no items
    /// repaired; nothing for no rows, or a first row without items.
    pub fn from_iter<F: Fn(&PyroType, &PyroType) -> Option<PyroType>>(rows: Vec<PyroRow>, coerce: &F) -> (r: Option<PreBatch>)
        requires
            forall|x: &PyroType, y: &PyroType| call_requires(*coerce, (x, y)),
        ensures
            r is Some <==> rows@.len() > 0 && rows@[0]@.len() > 0,
            r matches Some(b) ==> b.wf() && b.rows_of() == rows@ && b.schema_of().documentation is None
                && b.schema_of().fields@.len() == rows@[0]@.len() && (row_fields(rows@[0]@) matches Some(fs)
                ==> fields_model(b.schema_of().fields@) == fs),
    {
        if rows.len() == 0 {
            return None;
        }
        let schema = match rows[0].schema(coerce) {
            Ok(s) => s,
            Err(_) => {
                return None;
            },
        };
        let arrow_schema = schema.to_arrow();
        Some(PreBatch { arrow_schema, schema, rows })
    }

    /// The schema.
    pub fn schema(&self) -> (r: &PyroSchema)
        ensures
            *r == self.schema_of(),
    {
        &self.schema
    }

    /// The Arrow schema.
    pub fn arrow_schema(&self) -> (r: &ArrowSchema)
        ensures
            *r == self.arrow_of(),
    {
        &self.arrow_schema
    }

    /// The number of rows.
    pub fn len(&self) -> (r: usize)
        ensures
            r == self.rows_of().len(),
    {
        self.rows.len()
    }

    /// Whether there are no rows.
    pub fn is_empty(&self) -> (r: bool)
        ensures
            r == (self.rows_of().len() == 0),
    {
        self.rows.len() == 0
    }

    /// The row at `index`, if there is one.
    pub fn get(&self, index: usize) -> (r: Option<&PyroRow>)
        ensures
            r is Some <==> index < self.rows_of().len(),
            r matches Some(row) ==> *row == self.rows_of()[index as int],
    {
        if index < self.rows.len() {
            Some(&self.rows[index])
        } else {
            None
        }
    }

    /// Adds a row as it is.
    pub fn push_unchecked(&mut self, row: PyroRow)
        requires
            old(self).wf(),
        ensures
            final(self).wf(),
            final(self).rows_of() == old(self).rows_of().push(row),
            final(self).schema_of() == old(self).schema_of(),
            final(self).arrow_of() == old(self).arrow_of(),
    {
        self.rows.push(row);
    }

    /// Adds a row repaired into the schema's fields, as
    /// `PyroRow::project_repair` repairs it; an error leaves the rows as
    /// they were.
    pub fn push<O: FloatOps>(&mut self, row: PyroRow, ops: &O) -> (r: Result<(), ScalarRepairError>)
        requires
            old(self).wf(),
        ensures
            final(self).wf(),
            final(self).schema_of() == old(self).schema_of(),
            final(self).arrow_of() == old(self).arrow_of(),
            r is Ok ==> final(self).rows_of().len() == old(self).rows_of().len() + 1 && final(self).rows_of().drop_last()
                == old(self).rows_of(),
            r is Err ==> final(self).rows_of() == old(self).rows_of(),
            row_agrees(
                match r {
                    Ok(_) => Ok(final(self).rows_of().last()),
                    Err(e) => Err(e),
                },
                project_spec(row@, fields_model(old(self).schema_of().fields@)),
            ),
    {
        match row.project_repair(self.schema.fields(), ops) {
            Ok(repaired) => {
                let ghost before = self.rows@;
                self.rows.push(repaired);
                proof {
                    assert(self.rows@.drop_last() =~= before);
                }
                Ok(())
            },
            Err(e) => Err(e),
        }
    }

    /// The columns of the rows, one for each field of the Arrow schema.
    fn columns(&self) -> (r: Result<Option<Vec<Column>>, ColumnError>)
        ensures
            batch_model(r) == batch_spec(arrow_fields_model(self.arrow_of().fields@), self.rows_of()),
    {
        if self.rows.len() == 0 {
            return Ok(None);
        }
        let mut values: Vec<PyroValue> = Vec::new();
        let mut i: usize = 0;
        while i < self.rows.len()
            invariant
                i <= self.rows@.len(),
                values_model(values@) == row_values(self.rows@).take(i as int),
            decreases self.rows.len() - i,
        {
            let v = PyroValue::Group(self.rows[i].to_static());
            proof {
                lemma_values_model_push(values@, v);
                assert(row_values(self.rows@).take(i + 1) =~= row_values(self.rows@).take(i as int).push(v@));
            }
            values.push(v);
            i = i + 1;
        }
        proof {
            assert(row_values(self.rows@).take(self.rows@.len() as int) =~= row_values(self.rows@));
        }
        match field_columns(&self.arrow_schema.fields, &values) {
            Ok(cs) => Ok(Some(cs)),
            Err(e) => Err(e),
        }
    }

    /// The columns of a record batch of the rows, which are then taken out;
    /// nothing for no rows. An error leaves the rows as they were.
    pub fn flush(&mut self) -> (r: Result<Option<Vec<Column>>, ColumnError>)
        requires
            old(self).wf(),
        ensures
            final(self).wf(),
            final(self).schema_of() == old(self).schema_of(),
            final(self).arrow_of() == old(self).arrow_of(),
            batch_model(r) == batch_spec(arrow_fields_model(old(self).arrow_of().fields@), old(self).rows_of()),
            r matches Ok(Some(_)) ==> final(self).rows_of() == Seq::<PyroRow>::empty(),
            !(r matches Ok(Some(_))) ==> final(self).rows_of() == old(self).rows_of(),
    {
        let r = self.columns();
        if let Ok(Some(_)) = &r {
            self.rows.clear();
        }
        r
    }

    /// The columns of a record batch of the rows, which stay; nothing for
    /// no rows.
    pub fn to_record_batch(&self) -> (r: Result<Option<Vec<Column>>, ColumnError>)
        ensures
            batch_model(r) == batch_spec(arrow_fields_model(self.arrow_of().fields@), self.rows_of()),
    {
        self.columns()
    }
}

/// The items of two runs of values one after the other are those of the
/// first run, then those of the second.
pub proof fn lemma_flatten_append(a: Seq<ValueModel>, b: Seq<ValueModel>)
    ensures
        flatten(a + b) == flatten(a) + flatten(b),
    decreases b.len(),
{
    if b.len() == 0 {
        assert(a + b =~= a);
        assert(flatten(b) =~= Seq::<ValueModel>::empty());
        assert(flatten(a) + flatten(b) =~= flatten(a));
    } else {
        lemma_flatten_append(a, b.drop_last());
        assert((a + b).drop_last() =~= a + b.drop_last());
        assert((a + b).last() == b.last());
        assert(flatten(a) + flatten(b) =~= flatten(a) + flatten(b.drop_last()) + items_of(b.last()));
    }
}

proof fn lemma_list_offset_at(vals: Seq<ValueModel>, i: int)
    requires
        0 <= i < vals.len(),
    ensures
        offsets_of(vals)[i + 1] == offsets_of(vals)[i] + items_of(vals[i]).len(),
        flatten(vals).subrange(offsets_of(vals)[i], offsets_of(vals)[i + 1]) == items_of(vals[i]),
{
    let pre = vals.take(i);
    let one = vals.take(i + 1);
    assert(one.drop_last() =~= pre);
    assert(one.last() == vals[i]);
    assert(flatten(one) == flatten(pre) + items_of(vals[i]));
    assert(vals =~= one + vals.skip(i + 1));
    lemma_flatten_append(one, vals.skip(i + 1));
    let all = flatten(vals);
    assert(offsets_of(vals)[i] == flatten(pre).len() as int);
    assert(offsets_of(vals)[i + 1] == flatten(one).len() as int);
    assert(all == flatten(pre) + items_of(vals[i]) + flatten(vals.skip(i + 1)));
    assert(all.subrange(flatten(pre).len() as int, (flatten(pre).len() + items_of(vals[i]).len()) as int) =~= items_of(
        vals[i],
    ));
}

/// The offsets of a list array start at zero, step by the length of each
/// list and end at the number of all items; the items between the offsets
/// of a list and of the next are that list's items.
pub proof fn lemma_list_offsets(vals: Seq<ValueModel>)
    ensures
        offsets_of(vals).len() == vals.len() + 1,
        offsets_of(vals)[0] == 0,
        offsets_of(vals)[vals.len() as int] == flatten(vals).len(),
        forall|i: int|
            0 <= i < vals.len() ==> #[trigger] offsets_of(vals)[i + 1] == offsets_of(vals)[i] + items_of(vals[i]).len(),
        forall|i: int|
            0 <= i < vals.len() ==> #[trigger] flatten(vals).subrange(offsets_of(vals)[i], offsets_of(vals)[i + 1])
                == items_of(vals[i]),
{
    assert(vals.take(0) =~= Seq::<ValueModel>::empty());
    assert(vals.take(vals.len() as int) =~= vals);
    assert forall|i: int| 0 <= i < vals.len() implies #[trigger] offsets_of(vals)[i + 1] == offsets_of(vals)[i]
        + items_of(vals[i]).len() by {
        lemma_list_offset_at(vals, i);
    }
    assert forall|i: int| 0 <= i < vals.len() implies #[trigger] flatten(vals).subrange(
        offsets_of(vals)[i],
        offsets_of(vals)[i + 1],
    ) == items_of(vals[i]) by {
        lemma_list_offset_at(vals, i);
    }
}

/// An array of the Arrow type of a scalar column type takes exactly the
/// present values of that scalar type, and one of the Arrow type of text
/// exactly text.
pub proof fn lemma_array_takes_own_type(p: PrimitiveDataType, v: ValueModel)
    ensures
        is_values_type(crate::arrow_type::type_to_arrow(TypeModel::PrimitiveScalar(p))),
        accepts(crate::arrow_type::type_to_arrow(TypeModel::PrimitiveScalar(p)), v)
            <==> crate::value_type::scalar_type_of(v) == Some(p),
        is_values_type(crate::arrow_type::type_to_arrow(TypeModel::Str)),
        accepts(crate::arrow_type::type_to_arrow(TypeModel::Str), v) <==> v is Str,
{
}

/// Whether `c` is `n` divided by `d` and cut toward zero, wherever that
/// quotient fits in 64 bits: at or after zero `c * d <= n < (c + 1) * d`,
/// before zero `(c - 1) * d < n <= c * d`.
pub open spec fn cut_quotient(c: int, n: int, d: int) -> bool {
    &&& 0 <= n < 0x8000_0000_0000_0000 * d ==> c * d <= n < (c + 1) * d
    &&& -0x8000_0000_0000_0000 * d < n < 0 ==> (c - 1) * d < n <= c * d
}

proof fn lemma_cut_division(n: int, d: int)
    requires
        d >= 1,
    ensures
        ({
            let q = if n >= 0 {
                n / d
            } else {
                -((-n) / d)
            };
            &&& 0 <= n < 0x8000_0000_0000_0000 * d ==> 0 <= q < 0x8000_0000_0000_0000 && q * d <= n < (q + 1) * d
            &&& -0x8000_0000_0000_0000 * d < n < 0 ==> -0x8000_0000_0000_0000 < q <= 0 && (q - 1) * d < n <= q * d
        }),
{
    let m: int = if n >= 0 {
        n
    } else {
        -n
    };
    let k = m / d;
    vstd::arithmetic::div_mod::lemma_fundamental_div_mod(m, d);
    vstd::arithmetic::div_mod::lemma_mod_pos_bound(m, d);
    vstd::arithmetic::div_mod::lemma_div_pos_is_pos(m, d);
    assert(k * d <= m < (k + 1) * d) by (nonlinear_arith)
        requires
            m == d * k + m % d,
            0 <= m % d < d,
    ;
    if m < 0x8000_0000_0000_0000 * d {
        assert(k < 0x8000_0000_0000_0000) by (nonlinear_arith)
            requires
                k * d <= m,
                m < 0x8000_0000_0000_0000 * d,
                d >= 1,
        ;
    }
    if n < 0 {
        assert((-k - 1) * d < n <= -k * d) by (nonlinear_arith)
            requires
                k * d <= m < (k + 1) * d,
                n == -m,
        ;
    }
}

/// An instant counted in seconds, milliseconds, microseconds or
/// nanoseconds is its count of nanoseconds divided by a billion, a million,
/// a thousand or one and cut toward zero, wherever that count fits in 64
/// bits.
pub proof fn lemma_instant_count(u: ArrowTimeUnit, nanos: int)
    ensures
        u == ArrowTimeUnit::Second ==> cut_quotient(in_unit(u, nanos) as int, nanos, 1_000_000_000),
        u == ArrowTimeUnit::Millisecond ==> cut_quotient(in_unit(u, nanos) as int, nanos, 1_000_000),
        u == ArrowTimeUnit::Microsecond ==> cut_quotient(in_unit(u, nanos) as int, nanos, 1_000),
        u == ArrowTimeUnit::Nanosecond ==> cut_quotient(in_unit(u, nanos) as int, nanos, 1),
{
    match u {
        ArrowTimeUnit::Second => lemma_cut_division(nanos, 1_000_000_000),
        ArrowTimeUnit::Millisecond => lemma_cut_division(nanos, 1_000_000),
        ArrowTimeUnit::Microsecond => lemma_cut_division(nanos, 1_000),
        ArrowTimeUnit::Nanosecond => lemma_cut_division(nanos, 1),
    }
}

} // verus!
