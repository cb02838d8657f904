//! Taking typed Rust values back out of column values: each conversion
//! succeeds on the variant that holds the type and hands the value back
//! unchanged otherwise.
use vstd::prelude::*;
use std::collections::HashMap;
use std::hash::Hash;
use vstd::std_specs::convert::TryFromSpec;
use vstd::std_specs::hash::obeys_key_model;

use crate::time::Time;
use crate::typeable::Typeable;
use crate::value::{list_len, list_type, ListModel, PrimitiveValueList, PyroRow, PyroValue, RowItem};

verus! {

impl TryFrom<PyroValue> for bool {
    type Error = PyroValue;

    /// The bool a `Bool` value holds.
    fn try_from(value: PyroValue) -> (r: Result<bool, PyroValue>) {
        match value {
            PyroValue::Bool(x) => Ok(x),
            other => Err(other),
        }
    }
}

impl vstd::std_specs::convert::TryFromSpecImpl<PyroValue> for bool {
    open spec fn obeys_try_from_spec() -> bool {
        true
    }

    open spec fn try_from_spec(v: PyroValue) -> Result<bool, PyroValue> {
        match v {
            PyroValue::Bool(x) => Ok(x),
            other => Err(other),
        }
    }
}

impl TryFrom<PyroValue> for i8 {
    type Error = PyroValue;

    /// The i8 an `I8` value holds.
    fn try_from(value: PyroValue) -> (r: Result<i8, PyroValue>) {
        match value {
            PyroValue::I8(x) => Ok(x),
            other => Err(other),
        }
    }
}

impl vstd::std_specs::convert::TryFromSpecImpl<PyroValue> for i8 {
    open spec fn obeys_try_from_spec() -> bool {
        true
    }

    open spec fn try_from_spec(v: PyroValue) -> Result<i8, PyroValue> {
        match v {
            PyroValue::I8(x) => Ok(x),
            other => Err(other),
        }
    }
}

impl TryFrom<PyroValue> for i16 {
    type Error = PyroValue;

    /// The i16 an `I16` value holds.
    fn try_from(value: PyroValue) -> (r: Result<i16, PyroValue>) {
        match value {
            PyroValue::I16(x) => Ok(x),
            other => Err(other),
        }
    }
}

impl vstd::std_specs::convert::TryFromSpecImpl<PyroValue> for i16 {
    open spec fn obeys_try_from_spec() -> bool {
        true
    }

    open spec fn try_from_spec(v: PyroValue) -> Result<i16, PyroValue> {
        match v {
            PyroValue::I16(x) => Ok(x),
            other => Err(other),
        }
    }
}

impl TryFrom<PyroValue> for i32 {
    type Error = PyroValue;

    /// The i32 an `I32` value holds.
    fn try_from(value: PyroValue) -> (r: Result<i32, PyroValue>) {
        match value {
            PyroValue::I32(x) => Ok(x),
            other => Err(other),
        }
    }
}

impl vstd::std_specs::convert::TryFromSpecImpl<PyroValue> for i32 {
    open spec fn obeys_try_from_spec() -> bool {
        true
    }

    open spec fn try_from_spec(v: PyroValue) -> Result<i32, PyroValue> {
        match v {
            PyroValue::I32(x) => Ok(x),
            other => Err(other),
        }
    }
}

impl TryFrom<PyroValue> for i64 {
    type Error = PyroValue;

    /// The i64 an `I64` value holds.
    fn try_from(value: PyroValue) -> (r: Result<i64, PyroValue>) {
        match value {
            PyroValue::I64(x) => Ok(x),
            other => Err(other),
        }
    }
}

impl vstd::std_specs::convert::TryFromSpecImpl<PyroValue> for i64 {
    open spec fn obeys_try_from_spec() -> bool {
        true
    }

    open spec fn try_from_spec(v: PyroValue) -> Result<i64, PyroValue> {
        match v {
            PyroValue::I64(x) => Ok(x),
            other => Err(other),
        }
    }
}

impl TryFrom<PyroValue> for u8 {
    type Error = PyroValue;

    /// The u8 a `U8` value holds.
    fn try_from(value: PyroValue) -> (r: Result<u8, PyroValue>) {
        match value {
            PyroValue::U8(x) => Ok(x),
            other => Err(other),
        }
    }
}

impl vstd::std_specs::convert::TryFromSpecImpl<PyroValue> for u8 {
    open spec fn obeys_try_from_spec() -> bool {
        true
    }

    open spec fn try_from_spec(v: PyroValue) -> Result<u8, PyroValue> {
        match v {
            PyroValue::U8(x) => Ok(x),
            other => Err(other),
        }
    }
}

impl TryFrom<PyroValue> for u16 {
    type Error = PyroValue;

    /// The u16 a `U16` value holds.
    fn try_from(value: PyroValue) -> (r: Result<u16, PyroValue>) {
        match value {
            PyroValue::U16(x) => Ok(x),
            other => Err(other),
        }
    }
}

impl vstd::std_specs::convert::TryFromSpecImpl<PyroValue> for u16 {
    open spec fn obeys_try_from_spec() -> bool {
        true
    }

    open spec fn try_from_spec(v: PyroValue) -> Result<u16, PyroValue> {
        match v {
            PyroValue::U16(x) => Ok(x),
            other => Err(other),
        }
    }
}

impl TryFrom<PyroValue> for u32 {
    type Error = PyroValue;

    /// The u32 a `U32` value holds.
    fn try_from(value: PyroValue) -> (r: Result<u32, PyroValue>) {
        match value {
            PyroValue::U32(x) => Ok(x),
            other => Err(other),
        }
    }
}

impl vstd::std_specs::convert::TryFromSpecImpl<PyroValue> for u32 {
    open spec fn obeys_try_from_spec() -> bool {
        true
    }

    open spec fn try_from_spec(v: PyroValue) -> Result<u32, PyroValue> {
        match v {
            PyroValue::U32(x) => Ok(x),
            other => Err(other),
        }
    }
}

impl TryFrom<PyroValue> for u64 {
    type Error = PyroValue;

    /// The u64 a `U64` value holds.
    fn try_from(value: PyroValue) -> (r: Result<u64, PyroValue>) {
        match value {
            PyroValue::U64(x) => Ok(x),
            other => Err(other),
        }
    }
}

impl vstd::std_specs::convert::TryFromSpecImpl<PyroValue> for u64 {
    open spec fn obeys_try_from_spec() -> bool {
        true
    }

    open spec fn try_from_spec(v: PyroValue) -> Result<u64, PyroValue> {
        match v {
            PyroValue::U64(x) => Ok(x),
            other => Err(other),
        }
    }
}

impl TryFrom<PyroValue> for usize {
    type Error = PyroValue;

    /// The usize a `U64` or `U32` value holds, cast as `as` casts.
    fn try_from(value: PyroValue) -> (r: Result<usize, PyroValue>) {
        match value {
            PyroValue::U64(x) => Ok(x as usize),
            PyroValue::U32(x) => Ok(x as usize),
            other => Err(other),
        }
    }
}

impl vstd::std_specs::convert::TryFromSpecImpl<PyroValue> for usize {
    open spec fn obeys_try_from_spec() -> bool {
        true
    }

    open spec fn try_from_spec(v: PyroValue) -> Result<usize, PyroValue> {
        match v {
            PyroValue::U64(x) => Ok(x as usize),
            PyroValue::U32(x) => Ok(x as usize),
            other => Err(other),
        }
    }
}

impl TryFrom<PyroValue> for isize {
    type Error = PyroValue;

    /// The isize an `I64` or `I32` value holds, cast as `as` casts.
    fn try_from(value: PyroValue) -> (r: Result<isize, PyroValue>) {
        match value {
            PyroValue::I64(x) => Ok(x as isize),
            PyroValue::I32(x) => Ok(x as isize),
            other => Err(other),
        }
    }
}

impl vstd::std_specs::convert::TryFromSpecImpl<PyroValue> for isize {
    open spec fn obeys_try_from_spec() -> bool {
        true
    }

    open spec fn try_from_spec(v: PyroValue) -> Result<isize, PyroValue> {
        match v {
            PyroValue::I64(x) => Ok(x as isize),
            PyroValue::I32(x) => Ok(x as isize),
            other => Err(other),
        }
    }
}

impl TryFrom<PyroValue> for () {
    type Error = PyroValue;

    /// Unit, for the missing value.
    fn try_from(value: PyroValue) -> (r: Result<(), PyroValue>) {
        match value {
            PyroValue::Null => Ok(()),
            other => Err(other),
        }
    }
}

impl vstd::std_specs::convert::TryFromSpecImpl<PyroValue> for () {
    open spec fn obeys_try_from_spec() -> bool {
        true
    }

    open spec fn try_from_spec(v: PyroValue) -> Result<(), PyroValue> {
        match v {
            PyroValue::Null => Ok(()),
            other => Err(other),
        }
    }
}

impl TryFrom<PyroValue> for String {
    type Error = PyroValue;

    /// The text a `Str` value holds.
    fn try_from(value: PyroValue) -> (r: Result<String, PyroValue>) {
        match value {
            PyroValue::Str(s) => Ok(s),
            other => Err(other),
        }
    }
}

impl vstd::std_specs::convert::TryFromSpecImpl<PyroValue> for String {
    open spec fn obeys_try_from_spec() -> bool {
        true
    }

    open spec fn try_from_spec(v: PyroValue) -> Result<String, PyroValue> {
        match v {
            PyroValue::Str(s) => Ok(s),
            other => Err(other),
        }
    }
}

impl TryFrom<PyroValue> for Time {
    type Error = PyroValue;

    /// The instant a `Timestamp` value holds.
    fn try_from(value: PyroValue) -> (r: Result<Time, PyroValue>) {
        match value {
            PyroValue::Timestamp(t) => Ok(t),
            other => Err(other),
        }
    }
}

impl vstd::std_specs::convert::TryFromSpecImpl<PyroValue> for Time {
    open spec fn obeys_try_from_spec() -> bool {
        true
    }

    open spec fn try_from_spec(v: PyroValue) -> Result<Time, PyroValue> {
        match v {
            PyroValue::Timestamp(t) => Ok(t),
            other => Err(other),
        }
    }
}

impl TryFrom<PyroValue> for PrimitiveValueList {
    type Error = PyroValue;

    /// The list of scalars a `PrimitiveList` value holds.
    fn try_from(value: PyroValue) -> (r: Result<PrimitiveValueList, PyroValue>) {
        match value {
            PyroValue::PrimitiveList(l) => Ok(l),
            other => Err(other),
        }
    }
}

impl vstd::std_specs::convert::TryFromSpecImpl<PyroValue> for PrimitiveValueList {
    open spec fn obeys_try_from_spec() -> bool {
        true
    }

    open spec fn try_from_spec(v: PyroValue) -> Result<PrimitiveValueList, PyroValue> {
        match v {
            PyroValue::PrimitiveList(l) => Ok(l),
            other => Err(other),
        }
    }
}

impl TryFrom<PyroValue> for PyroRow {
    type Error = PyroValue;

    /// The row a `Group` value holds.
    fn try_from(value: PyroValue) -> (r: Result<PyroRow, PyroValue>) {
        match value {
            PyroValue::Group(row) => Ok(row),
            other => Err(other),
        }
    }
}

impl vstd::std_specs::convert::TryFromSpecImpl<PyroValue> for PyroRow {
    open spec fn obeys_try_from_spec() -> bool {
        true
    }

    open spec fn try_from_spec(v: PyroValue) -> Result<PyroRow, PyroValue> {
        match v {
            PyroValue::Group(row) => Ok(row),
            other => Err(other),
        }
    }
}

impl TryFrom<PyroValue> for Vec<(PyroValue, PyroValue)> {
    type Error = PyroValue;

    /// The key-value pairs a `MapInternal` value holds, in their order.
    fn try_from(value: PyroValue) -> (r: Result<Vec<(PyroValue, PyroValue)>, PyroValue>) {
        match value {
            PyroValue::MapInternal(pairs) => Ok(pairs),
            other => Err(other),
        }
    }
}

impl vstd::std_specs::convert::TryFromSpecImpl<PyroValue> for Vec<(PyroValue, PyroValue)> {
    open spec fn obeys_try_from_spec() -> bool {
        true
    }

    open spec fn try_from_spec(v: PyroValue) -> Result<Vec<(PyroValue, PyroValue)>, PyroValue> {
        match v {
            PyroValue::MapInternal(pairs) => Ok(pairs),
            other => Err(other),
        }
    }
}

impl<T: TryFrom<PyroValue, Error = PyroValue>> TryFrom<PyroValue> for Option<T> {
    type Error = PyroValue;

    /// Nothing for the missing value, and otherwise what `T` takes out of it.
    fn try_from(value: PyroValue) -> (r: Result<Option<T>, PyroValue>) {
        match value {
            PyroValue::Null => Ok(None),
            other => match T::try_from(other) {
                Ok(x) => Ok(Some(x)),
                Err(e) => Err(e),
            },
        }
    }
}

impl<T: TryFrom<PyroValue, Error = PyroValue>> vstd::std_specs::convert::TryFromSpecImpl<PyroValue> for Option<T> {
    open spec fn obeys_try_from_spec() -> bool {
        <T as TryFromSpec<PyroValue>>::obeys_try_from_spec()
    }

    open spec fn try_from_spec(v: PyroValue) -> Result<Option<T>, PyroValue> {
        match v {
            PyroValue::Null => Ok(None),
            other => match <T as TryFromSpec<PyroValue>>::try_from_spec(other) {
                Ok(x) => Ok(Some(x)),
                Err(e) => Err(e),
            },
        }
    }
}

impl TryFrom<PyroValue> for Vec<PyroRow> {
    type Error = PyroValue;

    /// The rows of a list whose items are all rows; the value unchanged
    /// for anything else.
    fn try_from(value: PyroValue) -> (r: Result<Vec<PyroRow>, PyroValue>)
        ensures
            r is Ok <==> (value matches PyroValue::List(items) && forall|i: int|
                0 <= i < items@.len() ==> #[trigger] items@[i] is Group),
            r matches Ok(rows) ==> value matches PyroValue::List(items) && rows@.len() == items@.len() && forall|i: int|
                0 <= i < rows@.len() ==> #[trigger] items@[i] == PyroValue::Group(rows@[i]),
            r matches Err(e) ==> e == value,
    {
        let ghost v0 = value;
        match value {
            PyroValue::List(items) => {
                let mut i: usize = 0;
                while i < items.len()
                    invariant
                        v0 == value,
                        v0 == PyroValue::List(items),
                        i <= items@.len(),
                        forall|j: int| 0 <= j < i ==> #[trigger] items@[j] is Group,
                    decreases items.len() - i,
                {
                    if !matches!(items[i], PyroValue::Group(_)) {
                        return Err(PyroValue::List(items));
                    }
                    i = i + 1;
                }
                let ghost all = items@;
                let mut rows: Vec<PyroRow> = Vec::new();
                for item in it: items
                    invariant
                        it.seq() == all,
                        v0 matches PyroValue::List(vs) && vs@ == all,
                        forall|j: int| 0 <= j < all.len() ==> #[trigger] all[j] is Group,
                        rows@.len() == it.index(),
                        forall|j: int| 0 <= j < it.index() ==> #[trigger] all[j] == PyroValue::Group(rows@[j]),
                {
                    let ghost k = it.index() as int;
                    proof {
                        assert(all[k] is Group);
                    }
                    match item {
                        PyroValue::Group(row) => {
                            rows.push(row);
                        },
                        _ => {
                            proof {
                                assert(false);
                            }
                        },
                    }
                }
                Ok(rows)
            },
            other => Err(other),
        }
    }
}

impl vstd::std_specs::convert::TryFromSpecImpl<PyroValue> for Vec<PyroRow> {
    open spec fn obeys_try_from_spec() -> bool {
        false
    }

    open spec fn try_from_spec(v: PyroValue) -> Result<Vec<PyroRow>, PyroValue> {
        Err(v)
    }
}

/// The scalar at position `i` of a list, as a value.
pub open spec fn scalar_at(l: ListModel, i: int) -> PyroValue {
    match l {
        ListModel::Bool(s) => PyroValue::Bool(s[i]),
        ListModel::U8(s) => PyroValue::U8(s[i]),
        ListModel::U16(s) => PyroValue::U16(s[i]),
        ListModel::U32(s) => PyroValue::U32(s[i]),
        ListModel::U64(s) => PyroValue::U64(s[i]),
        ListModel::I8(s) => PyroValue::I8(s[i]),
        ListModel::I16(s) => PyroValue::I16(s[i]),
        ListModel::I32(s) => PyroValue::I32(s[i]),
        ListModel::I64(s) => PyroValue::I64(s[i]),
        ListModel::F16(s) => PyroValue::F16(s[i]),
        ListModel::F32(s) => PyroValue::F32(s[i]),
        ListModel::F64(s) => PyroValue::F64(s[i]),
    }
}

/// The scalars of a list, as values.
pub open spec fn list_scalars(l: ListModel) -> Seq<PyroValue> {
    Seq::new(list_len(l), |i: int| scalar_at(l, i))
}

/// The scalar at position `i` of a list, as a value.
pub fn scalar_of(l: &PrimitiveValueList, i: usize) -> (r: PyroValue)
    requires
        i < list_len(l@),
    ensures
        r == scalar_at(l@, i as int),
{
    match l {
        PrimitiveValueList::Bool(v) => PyroValue::Bool(v[i]),
        PrimitiveValueList::U8(v) => PyroValue::U8(v[i]),
        PrimitiveValueList::U16(v) => PyroValue::U16(v[i]),
        PrimitiveValueList::U32(v) => PyroValue::U32(v[i]),
        PrimitiveValueList::U64(v) => PyroValue::U64(v[i]),
        PrimitiveValueList::I8(v) => PyroValue::I8(v[i]),
        PrimitiveValueList::I16(v) => PyroValue::I16(v[i]),
        PrimitiveValueList::I32(v) => PyroValue::I32(v[i]),
        PrimitiveValueList::I64(v) => PyroValue::I64(v[i]),
        PrimitiveValueList::F16(v) => PyroValue::F16(v[i]),
        PrimitiveValueList::F32(v) => PyroValue::F32(v[i]),
        PrimitiveValueList::F64(v) => PyroValue::F64(v[i]),
    }
}

/// Whether a `Vec<T>` is taken straight from the scalars of `value`: `T`
/// is a scalar type that is never missing, and `value` a list of scalars
/// of that type.
pub open spec fn from_scalars<T: Typeable>(value: PyroValue) -> bool {
    &&& !T::spec_is_nullable()
    &&& value matches PyroValue::PrimitiveList(l) && T::spec_primitive_data_type() == Some(list_type(l@))
}

/// Whether every value converts into `T`.
pub open spec fn all_convert<T: TryFrom<PyroValue, Error = PyroValue>>(vals: Seq<PyroValue>) -> bool {
    forall|i: int| 0 <= i < vals.len() ==> (#[trigger] <T as TryFromSpec<PyroValue>>::try_from_spec(vals[i])) is Ok
}

/// Whether `out` holds what each value converts into.
pub open spec fn converted<T: TryFrom<PyroValue, Error = PyroValue>>(vals: Seq<PyroValue>, out: Seq<T>) -> bool {
    &&& out.len() == vals.len()
    &&& forall|i: int| 0 <= i < vals.len() ==> #[trigger] <T as TryFromSpec<PyroValue>>::try_from_spec(vals[i]) == Ok::<T, PyroValue>(out[i])
}

/// Whether position `j` holds the first value that does not convert into `T`.
pub open spec fn first_failure<T: TryFrom<PyroValue, Error = PyroValue>>(vals: Seq<PyroValue>, j: int) -> bool {
    &&& 0 <= j < vals.len()
    &&& <T as TryFromSpec<PyroValue>>::try_from_spec(vals[j]) is Err
    &&& forall|k: int| 0 <= k < j ==> (#[trigger] <T as TryFromSpec<PyroValue>>::try_from_spec(vals[k])) is Ok
}

/// What taking a `Vec<T>` out of `value` gives: the converted scalars of
/// a list of scalars of `T`'s own type, the converted items of a list, and
/// otherwise the value back. Where an item of a list does not convert,
/// the error is a list of what its conversion handed back.
pub open spec fn vec_taken<T: TryFrom<PyroValue, Error = PyroValue> + Typeable>(value: PyroValue, r: Result<Vec<T>, PyroValue>) -> bool {
    if from_scalars::<T>(value) {
        let vals = list_scalars(value->PrimitiveList_0@);
        &&& (r is Ok <==> all_convert::<T>(vals))
        &&& (r matches Ok(out) ==> converted::<T>(vals, out@))
        &&& (r matches Err(e) ==> e == value)
    } else if value is List {
        let vals = value->List_0@;
        &&& (r is Ok <==> all_convert::<T>(vals))
        &&& (r matches Ok(out) ==> converted::<T>(vals, out@))
        &&& (r matches Err(e) ==> exists|j: int|
            first_failure::<T>(vals, j) && (e matches PyroValue::List(bad) && bad@ == seq![
                <T as TryFromSpec<PyroValue>>::try_from_spec(vals[j])->Err_0,
            ]))
    } else {
        r == Err::<Vec<T>, PyroValue>(value)
    }
}

impl<T: TryFrom<PyroValue, Error = PyroValue> + Typeable> TryFrom<PyroValue> for Vec<T> {
    type Error = PyroValue;

    /// The values of a list converted into `T`, or the scalars of a list of
    /// scalars of `T`'s own type when `T` is never missing.
    fn try_from(value: PyroValue) -> (r: Result<Vec<T>, PyroValue>)
        ensures
            <T as TryFromSpec<PyroValue>>::obeys_try_from_spec() ==> vec_taken::<T>(value, r),
    {
        if !T::is_nullable() {
            if let Some(pdt) = T::primitive_data_type() {
                if let PyroValue::PrimitiveList(l) = &value {
                    if pdt == l.data_type() {
                        let ghost vals = list_scalars(l@);
                        let n = l.len();
                        let mut out: Vec<T> = Vec::new();
                        let mut i: usize = 0;
                        while i < n
                            invariant
                                from_scalars::<T>(value),
                                value == PyroValue::PrimitiveList(*l),
                                n == list_len(l@),
                                vals == list_scalars(l@),
                                i <= n,
                                out@.len() == i,
                                forall|k: int| 0 <= k < i ==> <T as TryFromSpec<PyroValue>>::obeys_try_from_spec()
                                    ==> #[trigger] <T as TryFromSpec<PyroValue>>::try_from_spec(vals[k]) == Ok::<T, PyroValue>(out@[k]),
                            decreases n - i,
                        {
                            let x = scalar_of(l, i);
                            proof {
                                assert(vals[i as int] == x);
                            }
                            match T::try_from(x) {
                                Ok(y) => {
                                    out.push(y);
                                },
                                Err(_) => {
                                    proof {
                                        if <T as TryFromSpec<PyroValue>>::obeys_try_from_spec() {
                                            assert((<T as TryFromSpec<PyroValue>>::try_from_spec(vals[i as int])) is Err);
                                            assert(!all_convert::<T>(vals));
                                        }
                                    }
                                    return Err(value);
                                },
                            }
                            i = i + 1;
                        }
                        return Ok(out);
                    }
                }
            }
        }
        let ghost v0 = value;
        match value {
            PyroValue::List(items) => {
                let ghost vals = items@;
                let mut out: Vec<T> = Vec::new();
                for item in it: items
                    invariant
                        v0 == value,
                        v0 matches PyroValue::List(vs) && vs@ == vals,
                        !from_scalars::<T>(v0),
                        it.seq() == vals,
                        out@.len() == it.index(),
                        forall|k: int| 0 <= k < it.index() ==> <T as TryFromSpec<PyroValue>>::obeys_try_from_spec()
                            ==> #[trigger] <T as TryFromSpec<PyroValue>>::try_from_spec(vals[k]) == Ok::<T, PyroValue>(out@[k]),
                {
                    let ghost k = it.index() as int;
                    match T::try_from(item) {
                        Ok(y) => {
                            out.push(y);
                        },
                        Err(bad) => {
                            let bads = vec![bad];
                            proof {
                                if <T as TryFromSpec<PyroValue>>::obeys_try_from_spec() {
                                    assert(first_failure::<T>(vals, k));
                                    assert(bads@ =~= seq![<T as TryFromSpec<PyroValue>>::try_from_spec(vals[k])->Err_0]);
                                }
                            }
                            return Err(PyroValue::List(bads));
                        },
                    }
                }
                Ok(out)
            },
            other => Err(other),
        }
    }
}

impl<T: TryFrom<PyroValue, Error = PyroValue> + Typeable> vstd::std_specs::convert::TryFromSpecImpl<PyroValue> for Vec<T> {
    open spec fn obeys_try_from_spec() -> bool {
        false
    }

    open spec fn try_from_spec(v: PyroValue) -> Result<Vec<T>, PyroValue> {
        Err(v)
    }
}

/// Whether the pair converts into a key of `K` and a value of `V`.
pub open spec fn pair_converts<K: TryFrom<PyroValue, Error = PyroValue>, V: TryFrom<PyroValue, Error = PyroValue>>(p: (PyroValue, PyroValue)) -> bool {
    &&& <K as TryFromSpec<PyroValue>>::try_from_spec(p.0) is Ok
    &&& <V as TryFromSpec<PyroValue>>::try_from_spec(p.1) is Ok
}

/// The map of the converted pairs, a later pair of a key replacing an
/// earlier one.
pub open spec fn pairs_map<K: TryFrom<PyroValue, Error = PyroValue>, V: TryFrom<PyroValue, Error = PyroValue>>(ps: Seq<(PyroValue, PyroValue)>) -> Map<K, V>
    decreases ps.len(),
{
    if ps.len() == 0 {
        Map::empty()
    } else {
        let p = ps.last();
        pairs_map::<K, V>(ps.drop_last()).insert(
            <K as TryFromSpec<PyroValue>>::try_from_spec(p.0)->Ok_0,
            <V as TryFromSpec<PyroValue>>::try_from_spec(p.1)->Ok_0,
        )
    }
}

/// Whether `e` is what taking a map hands back for a pair that does not
/// convert: what the key's conversion handed back beside the missing
/// value, or, for a key that converts, the missing value beside what the
/// value's conversion handed back.
pub open spec fn pair_error<K: TryFrom<PyroValue, Error = PyroValue>, V: TryFrom<PyroValue, Error = PyroValue>>(p: (PyroValue, PyroValue), e: PyroValue) -> bool {
    e matches PyroValue::MapInternal(bad) && bad@ == (if <K as TryFromSpec<PyroValue>>::try_from_spec(p.0) is Err {
        seq![(<K as TryFromSpec<PyroValue>>::try_from_spec(p.0)->Err_0, PyroValue::Null)]
    } else {
        seq![(PyroValue::Null, <V as TryFromSpec<PyroValue>>::try_from_spec(p.1)->Err_0)]
    })
}

/// What taking a map out of `value` gives: the map of the converted pairs
/// of a map value when every pair converts, the error of the first pair
/// that does not, and otherwise the value back.
pub open spec fn map_taken<K: TryFrom<PyroValue, Error = PyroValue>, V: TryFrom<PyroValue, Error = PyroValue>>(value: PyroValue, r: Result<HashMap<K, V>, PyroValue>) -> bool {
    if value is MapInternal {
        let ps = value->MapInternal_0@;
        &&& (r is Ok <==> forall|i: int| 0 <= i < ps.len() ==> #[trigger] pair_converts::<K, V>(ps[i]))
        &&& (r matches Ok(m) ==> m@ == pairs_map::<K, V>(ps))
        &&& (r matches Err(e) ==> exists|j: int|
            0 <= j < ps.len() && !pair_converts::<K, V>(ps[j]) && (forall|k: int| 0 <= k < j ==> #[trigger] pair_converts::<K, V>(ps[k]))
                && pair_error::<K, V>(ps[j], e))
    } else {
        r == Err::<HashMap<K, V>, PyroValue>(value)
    }
}

impl<K, V> TryFrom<PyroValue> for HashMap<K, V> where
    K: TryFrom<PyroValue, Error = PyroValue> + Eq + Hash,
    V: TryFrom<PyroValue, Error = PyroValue>,
 {
    type Error = PyroValue;

    /// The pairs of a map value converted into keys and values.
    fn try_from(value: PyroValue) -> (r: Result<HashMap<K, V>, PyroValue>)
        ensures
            <K as TryFromSpec<PyroValue>>::obeys_try_from_spec() && <V as TryFromSpec<PyroValue>>::obeys_try_from_spec()
                && obeys_key_model::<K>() ==> map_taken::<K, V>(value, r),
    {
        broadcast use vstd::std_specs::hash::axiom_random_state_builds_valid_hashers;

        let ghost v0 = value;
        match value {
            PyroValue::MapInternal(entries) => {
                let ghost ps = entries@;
                let mut map: HashMap<K, V> = HashMap::with_capacity(entries.len());
                for pair in it: entries
                    invariant
                        v0 == value,
                        v0 matches PyroValue::MapInternal(es) && es@ == ps,
                        it.seq() == ps,
                        forall|k: int| 0 <= k < it.index() ==> <K as TryFromSpec<PyroValue>>::obeys_try_from_spec()
                            && <V as TryFromSpec<PyroValue>>::obeys_try_from_spec() ==> #[trigger] pair_converts::<K, V>(ps[k]),
                        <K as TryFromSpec<PyroValue>>::obeys_try_from_spec() && <V as TryFromSpec<PyroValue>>::obeys_try_from_spec()
                            && obeys_key_model::<K>() ==> map@ == pairs_map::<K, V>(ps.take(it.index() as int)),
                {
                    let ghost j = it.index() as int;
                    let ghost obeys = <K as TryFromSpec<PyroValue>>::obeys_try_from_spec() && <V as TryFromSpec<PyroValue>>::obeys_try_from_spec();
                    proof {
                        assert(pair == ps[j]);
                    }
                    let (k, v) = pair;
                    match K::try_from(k) {
                        Ok(key) => match V::try_from(v) {
                            Ok(val) => {
                                proof {
                                    assert(ps.take(j + 1).drop_last() =~= ps.take(j));
                                    assert(ps.take(j + 1).last() == ps[j]);
                                }
                                map.insert(key, val);
                            },
                            Err(bad_v) => {
                                let bad = vec![(PyroValue::Null, bad_v)];
                                proof {
                                    if obeys {
                                        assert(bad@ =~= seq![(PyroValue::Null, bad_v)]);
                                        assert(!pair_converts::<K, V>(ps[j]));
                                        assert(pair_error::<K, V>(ps[j], PyroValue::MapInternal(bad)));
                                    }
                                }
                                return Err(PyroValue::MapInternal(bad));
                            },
                        },
                        Err(bad_k) => {
                            let bad = vec![(bad_k, PyroValue::Null)];
                            proof {
                                if obeys {
                                    assert(bad@ =~= seq![(bad_k, PyroValue::Null)]);
                                    assert(!pair_converts::<K, V>(ps[j]));
                                    assert(pair_error::<K, V>(ps[j], PyroValue::MapInternal(bad)));
                                }
                            }
                            return Err(PyroValue::MapInternal(bad));
                        },
                    }
                }
                proof {
                    assert(ps.take(ps.len() as int) =~= ps);
                }
                Ok(map)
            },
            other => Err(other),
        }
    }
}

impl<K, V> vstd::std_specs::convert::TryFromSpecImpl<PyroValue> for HashMap<K, V> where
    K: TryFrom<PyroValue, Error = PyroValue> + Eq + Hash,
    V: TryFrom<PyroValue, Error = PyroValue>,
 {
    open spec fn obeys_try_from_spec() -> bool {
        false
    }

    open spec fn try_from_spec(v: PyroValue) -> Result<HashMap<K, V>, PyroValue> {
        Err(v)
    }
}

} // verus!
