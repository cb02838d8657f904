//! The column type of a value, read off its shape: scalars have their own
//! type, a list's items and a map's keys and values give the item, key and
//! value types, and a row gives a row type of nullable fields.
use vstd::prelude::*;

use crate::arrow_type::opt_type_model;
use crate::typeable::{
    fields_model, lemma_fields_model_index, lemma_fields_model_len, lemma_fields_model_push,
    type_size, FieldModel, PrimitiveDataType, PyroField, PyroType, TypeModel,
};
use crate::value::{
    items_model, items_size, lemma_items_model, lemma_pairs_model, lemma_values_model, list_type,
    pairs_model, pairs_size, value_size, values_model, values_size, PyroRow, PyroValue, RowItem,
    ValueModel,
};

verus! {

/// The scalar column type of a scalar value.
pub open spec fn scalar_type_of(v: ValueModel) -> Option<PrimitiveDataType> {
    match v {
        ValueModel::Bool(_) => Some(PrimitiveDataType::Bool),
        ValueModel::I8(_) => Some(PrimitiveDataType::I8),
        ValueModel::I16(_) => Some(PrimitiveDataType::I16),
        ValueModel::I32(_) => Some(PrimitiveDataType::I32),
        ValueModel::I64(_) => Some(PrimitiveDataType::I64),
        ValueModel::U8(_) => Some(PrimitiveDataType::U8),
        ValueModel::U16(_) => Some(PrimitiveDataType::U16),
        ValueModel::U32(_) => Some(PrimitiveDataType::U32),
        ValueModel::U64(_) => Some(PrimitiveDataType::U64),
        ValueModel::F16(_) => Some(PrimitiveDataType::F16),
        ValueModel::F32(_) => Some(PrimitiveDataType::F32),
        ValueModel::F64(_) => Some(PrimitiveDataType::F64),
        _ => None,
    }
}

/// The column type of `v`; `None` where it depends on how two differing
/// types are merged.
pub open spec fn type_of(v: ValueModel) -> Option<TypeModel>
    decreases v,
{
    match v {
        ValueModel::Null => Some(TypeModel::Null),
        ValueModel::Str(_) => Some(TypeModel::Str),
        ValueModel::Timestamp(_) => Some(TypeModel::Timestamp),
        ValueModel::PrimitiveList(l) => Some(TypeModel::PrimitiveList(list_type(l))),
        ValueModel::List(items) => match list_item_type(items) {
            Some((inner, has_null)) => Some(TypeModel::List(Box::new(inner), has_null)),
            None => None,
        },
        ValueModel::Group(items) => match row_fields(items) {
            Some(fields) => Some(TypeModel::Group(fields)),
            None => None,
        },
        ValueModel::MapInternal(pairs) => match map_entry_types(pairs) {
            Some((k, x)) => Some(
                TypeModel::KeyValueMap {
                    key: Box::new(
                        if k is Null {
                            TypeModel::Str
                        } else {
                            k
                        },
                    ),
                    value: Box::new(x),
                },
            ),
            None => None,
        },
        _ => match scalar_type_of(v) {
            Some(p) => Some(TypeModel::PrimitiveScalar(p)),
            None => None,
        },
    }
}

/// The item type of a list and whether a missing item occurs: the type of
/// the first present item, when every present item has it.
pub open spec fn list_item_type(items: Seq<ValueModel>) -> Option<(TypeModel, bool)>
    decreases items,
{
    if items.len() == 0 {
        Some((TypeModel::Null, false))
    } else {
        match list_item_type(items.drop_last()) {
            None => None,
            Some((inner, has_null)) => if items.last() is Null {
                Some((inner, true))
            } else {
                match type_of(items.last()) {
                    None => None,
                    Some(t) => if inner is Null {
                        Some((t, has_null))
                    } else if inner == t {
                        Some((inner, has_null))
                    } else {
                        None
                    },
                }
            },
        }
    }
}

/// The fields of a row's type: each item's name and type, every field
/// nullable.
pub open spec fn row_fields(items: Seq<(Seq<char>, ValueModel)>) -> Option<Seq<FieldModel>>
    decreases items,
{
    if items.len() == 0 {
        Some(Seq::empty())
    } else {
        match row_fields(items.drop_last()) {
            None => None,
            Some(fs) => match type_of(items.last().1) {
                None => None,
                Some(t) => Some(fs.push(FieldModel { name: items.last().0, data_type: t, nullable: true })),
            },
        }
    }
}

/// The key and value types of a map's entries: the types of the first
/// entry, which a second entry would merge with.
pub open spec fn map_entry_types(pairs: Seq<(ValueModel, ValueModel)>) -> Option<(TypeModel, TypeModel)>
    decreases pairs,
{
    if pairs.len() == 0 {
        Some((TypeModel::Null, TypeModel::Null))
    } else {
        match map_entry_types(pairs.drop_last()) {
            None => None,
            Some((k, x)) => match (type_of(pairs.last().0), type_of(pairs.last().1)) {
                (Some(kt), Some(xt)) => if k is Null && x is Null {
                    Some((kt, xt))
                } else {
                    None
                },
                _ => None,
            },
        }
    }
}

/// The column type of `v` when two differing types merge as `m` says:
/// `m` gives the merged type, or nothing to keep the first.
pub open spec fn type_merged(v: ValueModel, m: spec_fn(TypeModel, TypeModel) -> Option<TypeModel>) -> TypeModel
    decreases v,
{
    match v {
        ValueModel::Null => TypeModel::Null,
        ValueModel::Str(_) => TypeModel::Str,
        ValueModel::Timestamp(_) => TypeModel::Timestamp,
        ValueModel::PrimitiveList(l) => TypeModel::PrimitiveList(list_type(l)),
        ValueModel::List(items) => TypeModel::List(
            Box::new(item_type_merged(items, m).0),
            item_type_merged(items, m).1,
        ),
        ValueModel::Group(items) => TypeModel::Group(fields_merged(items, m)),
        ValueModel::MapInternal(pairs) => TypeModel::KeyValueMap {
            key: Box::new(
                if entry_types_merged(pairs, m).0 is Null {
                    TypeModel::Str
                } else {
                    entry_types_merged(pairs, m).0
                },
            ),
            value: Box::new(entry_types_merged(pairs, m).1),
        },
        _ => match scalar_type_of(v) {
            Some(p) => TypeModel::PrimitiveScalar(p),
            None => TypeModel::Null,
        },
    }
}

/// `b` merged into `a` as `m` says, keeping `a` where `m` gives nothing.
pub open spec fn merge_with(a: TypeModel, b: TypeModel, m: spec_fn(TypeModel, TypeModel) -> Option<TypeModel>) -> TypeModel {
    match m(a, b) {
        Some(c) => c,
        None => a,
    }
}

/// The item type of a list and whether a missing item occurs: the type of
/// the first present item, merged as `m` says with each later present item
/// of another type.
pub open spec fn item_type_merged(items: Seq<ValueModel>, m: spec_fn(TypeModel, TypeModel) -> Option<TypeModel>) -> (TypeModel, bool)
    decreases items,
{
    if items.len() == 0 {
        (TypeModel::Null, false)
    } else {
        let (inner, has_null) = item_type_merged(items.drop_last(), m);
        if items.last() is Null {
            (inner, true)
        } else {
            let t = type_merged(items.last(), m);
            if inner is Null {
                (t, has_null)
            } else if inner == t {
                (inner, has_null)
            } else {
                (merge_with(inner, t, m), has_null)
            }
        }
    }
}

/// The fields of a row's type, with types merged as `m` says.
pub open spec fn fields_merged(items: Seq<(Seq<char>, ValueModel)>, m: spec_fn(TypeModel, TypeModel) -> Option<TypeModel>) -> Seq<FieldModel>
    decreases items,
{
    if items.len() == 0 {
        Seq::empty()
    } else {
        fields_merged(items.drop_last(), m).push(
            FieldModel { name: items.last().0, data_type: type_merged(items.last().1, m), nullable: true },
        )
    }
}

/// The key and value types of a map's entries: the types of the first
/// entry, each merged as `m` says with the types of every later entry.
pub open spec fn entry_types_merged(pairs: Seq<(ValueModel, ValueModel)>, m: spec_fn(TypeModel, TypeModel) -> Option<TypeModel>) -> (TypeModel, TypeModel)
    decreases pairs,
{
    if pairs.len() == 0 {
        (TypeModel::Null, TypeModel::Null)
    } else {
        let (k, x) = entry_types_merged(pairs.drop_last(), m);
        let kt = type_merged(pairs.last().0, m);
        let xt = type_merged(pairs.last().1, m);
        (
            if k is Null {
                kt
            } else {
                merge_with(k, kt, m)
            },
            if x is Null {
                xt
            } else {
                merge_with(x, xt, m)
            },
        )
    }
}

/// Whether every result of `coerce` is what `m` gives for its arguments.
pub open spec fn merges_as<F: Fn(&PyroType, &PyroType) -> Option<PyroType>>(
    coerce: F,
    m: spec_fn(TypeModel, TypeModel) -> Option<TypeModel>,
) -> bool {
    forall|a: &PyroType, b: &PyroType, r: Option<PyroType>|
        #[trigger] call_ensures(coerce, (a, b), r) ==> opt_type_model(r) == m(a@, b@)
}

pub proof fn lemma_values_size_index(s: Seq<PyroValue>, i: int)
    requires
        0 <= i < s.len(),
    ensures
        value_size(s[i]) <= values_size(s),
    decreases s.len(),
{
    if i < s.len() - 1 {
        lemma_values_size_index(s.drop_last(), i);
    }
}

pub proof fn lemma_items_size_index(s: Seq<RowItem>, i: int)
    requires
        0 <= i < s.len(),
    ensures
        value_size(s[i].value) <= items_size(s),
    decreases s.len(),
{
    if i < s.len() - 1 {
        lemma_items_size_index(s.drop_last(), i);
    }
}

pub proof fn lemma_pairs_size_index(s: Seq<(PyroValue, PyroValue)>, i: int)
    requires
        0 <= i < s.len(),
    ensures
        value_size(s[i].0) + value_size(s[i].1) <= pairs_size(s),
    decreases s.len(),
{
    if i < s.len() - 1 {
        lemma_pairs_size_index(s.drop_last(), i);
    }
}

/// Whether two column types are the same.
pub fn type_eq(a: &PyroType, b: &PyroType) -> (r: bool)
    ensures
        r == (a@ == b@),
    decreases type_size(*a),
{
    match (a, b) {
        (PyroType::Null, PyroType::Null) => true,
        (PyroType::PrimitiveScalar(p), PyroType::PrimitiveScalar(q)) => *p == *q,
        (PyroType::Str, PyroType::Str) => true,
        (PyroType::Timestamp, PyroType::Timestamp) => true,
        (PyroType::PrimitiveList(p), PyroType::PrimitiveList(q)) => *p == *q,
        (PyroType::PrimitiveFixedList(p, n), PyroType::PrimitiveFixedList(q, m)) => *p == *q && *n == *m,
        (PyroType::List(x, n), PyroType::List(y, m)) => *n == *m && type_eq(&**x, &**y),
        (PyroType::KeyValueMap { key: k1, value: v1 }, PyroType::KeyValueMap { key: k2, value: v2 }) => {
            type_eq(&**k1, &**k2) && type_eq(&**v1, &**v2)
        },
        (PyroType::Group(f1), PyroType::Group(f2)) => {
            proof {
                lemma_fields_model_len(f1@);
                lemma_fields_model_len(f2@);
            }
            if f1.len() != f2.len() {
                return false;
            }
            let mut i: usize = 0;
            while i < f1.len()
                invariant
                    i <= f1@.len(),
                    f1@.len() == f2@.len(),
                    a@ == TypeModel::Group(fields_model(f1@)),
                    b@ == TypeModel::Group(fields_model(f2@)),
                    crate::typeable::fields_size(f1@) < type_size(*a),
                    fields_model(f1@).len() == f1@.len(),
                    fields_model(f2@).len() == f2@.len(),
                    forall|j: int| 0 <= j < i ==> fields_model(f1@)[j] == fields_model(f2@)[j],
                decreases f1.len() - i,
            {
                proof {
                    lemma_fields_model_index(f1@, i as int);
                    lemma_fields_model_index(f2@, i as int);
                    crate::typeable::lemma_fields_size_index(f1@, i as int);
                }
                let same = f1[i].name == f2[i].name && f1[i].nullable == f2[i].nullable
                    && type_eq(&f1[i].data_type, &f2[i].data_type);
                if !same {
                    assert(fields_model(f1@)[i as int] != fields_model(f2@)[i as int]);
                    return false;
                }
                i = i + 1;
            }
            assert(fields_model(f1@) =~= fields_model(f2@));
            true
        },
        _ => false,
    }
}

fn is_null_type(t: &PyroType) -> (r: bool)
    ensures
        r == (t@ is Null),
{
    match t {
        PyroType::Null => true,
        _ => false,
    }
}

impl PyroValue {
    /// The column type of the value. The item type of a list is the type
    /// of its first present item, merged by `coerce` with each later item
    /// of another type (kept where `coerce` gives nothing), and the list is
    /// nullable when an item is missing; a row gives nullable fields of its
    /// items' names and types; a map's key and value types start from the
    /// first entry and are merged by `coerce` with each later one, and a
    /// map without keys has text keys. Whatever `coerce` gives, when it
    /// gives what a merge `m` says, the type is `type_merged` under `m`.
    pub fn data_type<F: Fn(&PyroType, &PyroType) -> Option<PyroType>>(&self, coerce: &F) -> (r: PyroType)
        requires
            forall|x: &PyroType, y: &PyroType| call_requires(*coerce, (x, y)),
        ensures
            type_of(self@) matches Some(t) ==> r@ == t,
            forall|m: spec_fn(TypeModel, TypeModel) -> Option<TypeModel>| #[trigger] merges_as(*coerce, m) ==> r@
                == type_merged(self@, m),
        decreases value_size(*self), 0nat,
    {
        match self {
            PyroValue::Null => PyroType::Null,
            PyroValue::Bool(_) => PyroType::PrimitiveScalar(PrimitiveDataType::Bool),
            PyroValue::I8(_) => PyroType::PrimitiveScalar(PrimitiveDataType::I8),
            PyroValue::I16(_) => PyroType::PrimitiveScalar(PrimitiveDataType::I16),
            PyroValue::I32(_) => PyroType::PrimitiveScalar(PrimitiveDataType::I32),
            PyroValue::I64(_) => PyroType::PrimitiveScalar(PrimitiveDataType::I64),
            PyroValue::U8(_) => PyroType::PrimitiveScalar(PrimitiveDataType::U8),
            PyroValue::U16(_) => PyroType::PrimitiveScalar(PrimitiveDataType::U16),
            PyroValue::U32(_) => PyroType::PrimitiveScalar(PrimitiveDataType::U32),
            PyroValue::U64(_) => PyroType::PrimitiveScalar(PrimitiveDataType::U64),
            PyroValue::F16(_) => PyroType::PrimitiveScalar(PrimitiveDataType::F16),
            PyroValue::F32(_) => PyroType::PrimitiveScalar(PrimitiveDataType::F32),
            PyroValue::F64(_) => PyroType::PrimitiveScalar(PrimitiveDataType::F64),
            PyroValue::Str(_) => PyroType::Str,
            PyroValue::Timestamp(_) => PyroType::Timestamp,
            PyroValue::PrimitiveList(pl) => PyroType::PrimitiveList(pl.data_type()),
            PyroValue::List(items) => {
                let ghost ms = values_model(items@);
                proof {
                    lemma_values_model(items@);
                }
                let mut has_null = false;
                let mut inner = PyroType::Null;
                let mut i: usize = 0;
                while i < items.len()
                    invariant
                        i <= items@.len(),
                        ms == values_model(items@),
                        ms.len() == items@.len(),
                        forall|j: int| 0 <= j < items@.len() ==> #[trigger] ms[j] == items@[j]@,
                        values_size(items@) < value_size(*self),
                        forall|x: &PyroType, y: &PyroType| call_requires(*coerce, (x, y)),
                        list_item_type(ms.take(i as int)) matches Some((t, n)) ==> inner@ == t
                            && has_null == n,
                        forall|m: spec_fn(TypeModel, TypeModel) -> Option<TypeModel>| #[trigger] merges_as(*coerce, m)
                            ==> item_type_merged(ms.take(i as int), m) == (inner@, has_null),
                    decreases items.len() - i,
                {
                    let ghost prev = list_item_type(ms.take(i as int));
                    proof {
                        assert(ms.take(i + 1).drop_last() =~= ms.take(i as int));
                        assert(ms.take(i + 1).last() == ms[i as int]);
                        lemma_values_size_index(items@, i as int);
                    }
                    let item = &items[i];
                    let ghost old_inner = inner@;
                    if item.is_null() {
                        has_null = true;
                    } else {
                        let dt = item.data_type(coerce);
                        if is_null_type(&inner) {
                            inner = dt;
                        } else if !type_eq(&inner, &dt) {
                            let merged = coerce(&inner, &dt);
                            proof {
                                assert forall|m: spec_fn(TypeModel, TypeModel) -> Option<TypeModel>| #[trigger]
                                    merges_as(*coerce, m) implies opt_type_model(merged) == m(old_inner, dt@) by {
                                    assert(call_ensures(*coerce, (&inner, &dt), merged));
                                }
                            }
                            if let Some(coerced) = merged {
                                inner = coerced;
                            }
                        }
                    }
                    i = i + 1;
                }
                assert(ms.take(ms.len() as int) =~= ms);
                PyroType::List(Box::new(inner), has_null)
            },
            PyroValue::Group(row) => PyroType::Group(fields_of_row(row, coerce)),
            PyroValue::MapInternal(pairs) => {
                let ghost ms = pairs_model(pairs@);
                proof {
                    lemma_pairs_model(pairs@);
                }
                let mut key_dt = PyroType::Null;
                let mut val_dt = PyroType::Null;
                let mut i: usize = 0;
                while i < pairs.len()
                    invariant
                        i <= pairs@.len(),
                        ms == pairs_model(pairs@),
                        ms.len() == pairs@.len(),
                        forall|j: int| 0 <= j < pairs@.len() ==> #[trigger] ms[j] == (pairs@[j].0@, pairs@[j].1@),
                        pairs_size(pairs@) < value_size(*self),
                        forall|x: &PyroType, y: &PyroType| call_requires(*coerce, (x, y)),
                        map_entry_types(ms.take(i as int)) matches Some((k, x)) ==> key_dt@ == k && val_dt@ == x,
                        forall|m: spec_fn(TypeModel, TypeModel) -> Option<TypeModel>| #[trigger] merges_as(*coerce, m)
                            ==> entry_types_merged(ms.take(i as int), m) == (key_dt@, val_dt@),
                    decreases pairs.len() - i,
                {
                    proof {
                        assert(ms.take(i + 1).drop_last() =~= ms.take(i as int));
                        assert(ms.take(i + 1).last() == ms[i as int]);
                        lemma_pairs_size_index(pairs@, i as int);
                    }
                    let ghost old_k = key_dt@;
                    let ghost old_v = val_dt@;
                    let k_type = pairs[i].0.data_type(coerce);
                    let v_type = pairs[i].1.data_type(coerce);
                    if is_null_type(&key_dt) {
                        key_dt = k_type;
                    } else {
                        let merged = coerce(&key_dt, &k_type);
                        proof {
                            assert forall|m: spec_fn(TypeModel, TypeModel) -> Option<TypeModel>| #[trigger]
                                merges_as(*coerce, m) implies opt_type_model(merged) == m(old_k, k_type@) by {
                                assert(call_ensures(*coerce, (&key_dt, &k_type), merged));
                            }
                        }
                        if let Some(coerced) = merged {
                            key_dt = coerced;
                        }
                    }
                    if is_null_type(&val_dt) {
                        val_dt = v_type;
                    } else {
                        let merged = coerce(&val_dt, &v_type);
                        proof {
                            assert forall|m: spec_fn(TypeModel, TypeModel) -> Option<TypeModel>| #[trigger]
                                merges_as(*coerce, m) implies opt_type_model(merged) == m(old_v, v_type@) by {
                                assert(call_ensures(*coerce, (&val_dt, &v_type), merged));
                            }
                        }
                        if let Some(coerced) = merged {
                            val_dt = coerced;
                        }
                    }
                    i = i + 1;
                }
                assert(ms.take(ms.len() as int) =~= ms);
                let ghost entry = map_entry_types(ms);
                assert(entry matches Some((k, x)) ==> key_dt@ == k && val_dt@ == x);
                let key_was_null = is_null_type(&key_dt);
                if key_was_null {
                    key_dt = PyroType::Str;
                }
                assert(entry matches Some((k, x)) ==> key_dt@ == (if k is Null { TypeModel::Str } else { k }) && val_dt@ == x);
                PyroType::KeyValueMap { key: Box::new(key_dt), value: Box::new(val_dt) }
            },
        }
    }
}

/// The fields of a row's type: one nullable field per item, of the item's
/// name and the type of its value.
pub fn fields_of_row<F: Fn(&PyroType, &PyroType) -> Option<PyroType>>(row: &PyroRow, coerce: &F) -> (r: Vec<PyroField>)
    requires
        forall|x: &PyroType, y: &PyroType| call_requires(*coerce, (x, y)),
    ensures
        row_fields(row@) matches Some(fs) ==> fields_model(r@) == fs,
        r@.len() == row@.len(),
        forall|m: spec_fn(TypeModel, TypeModel) -> Option<TypeModel>| #[trigger] merges_as(*coerce, m) ==> fields_model(r@)
            == fields_merged(row@, m),
    decreases items_size(row.0@), 1nat,
{
    let items = &row.0;
    let ghost ms = items_model(items@);
    proof {
        lemma_items_model(items@);
    }
    let mut fields: Vec<PyroField> = Vec::new();
    let mut i: usize = 0;
    while i < items.len()
        invariant
            i <= items@.len(),
            ms == items_model(items@),
            ms.len() == items@.len(),
            forall|j: int| 0 <= j < items@.len() ==> #[trigger] ms[j] == items@[j]@,
            forall|x: &PyroType, y: &PyroType| call_requires(*coerce, (x, y)),
            items@ == row.0@,
            fields@.len() == i,
            row_fields(ms.take(i as int)) matches Some(fs) ==> fields_model(fields@) == fs,
            forall|m: spec_fn(TypeModel, TypeModel) -> Option<TypeModel>| #[trigger] merges_as(*coerce, m)
                ==> fields_model(fields@) == fields_merged(ms.take(i as int), m),
        decreases items.len() - i,
    {
        proof {
            assert(ms.take(i + 1).drop_last() =~= ms.take(i as int));
            assert(ms.take(i + 1).last() == ms[i as int]);
            lemma_items_size_index(items@, i as int);
        }
        let dt = items[i].value.data_type(coerce);
        let f = PyroField { name: items[i].key.clone(), data_type: dt, nullable: true };
        proof {
            lemma_fields_model_push(fields@, f);
        }
        fields.push(f);
        i = i + 1;
    }
    assert(ms.take(ms.len() as int) =~= ms);
    fields
}

} // verus!
