//! Repairing lists, rows and maps: lists of scalars are cast item by item,
//! general lists are packed into lists of scalars, rows are projected onto
//! the fields of a row type, and every nested value is repaired in turn.
use vstd::prelude::*;
use vstd::string::StringExecFns;

use crate::repair::{
    agrees, decimal, f32_int_cast, float_made, int_made, text_made, f64_int_cast, float_steps, int_text, saturated, FloatStep, is_scalar_of, outcome, repair_scalar_spec, repair_text_spec, scalar_fits,
    text_fits, FloatOps, RepairErrorModel, ScalarRepairError,
};
use crate::value::first_key;
use crate::value_type::{list_item_type, map_entry_types, row_fields, type_of};
use crate::typeable::{
    fields_model, fields_size, lemma_fields_model_index, lemma_fields_size_index, type_size,
    FieldModel, PrimitiveDataType, PyroField, PyroType, TypeModel,
};
use crate::value::{
    is_integer_type, items_model, lemma_items_model, lemma_pairs_model, lemma_pairs_model_push,
    lemma_values_model, lemma_values_model_push, list_len, list_type, pairs_model, values_model,
    ListModel, PrimitiveValueList, PyroRow, PyroValue, RowItem, ValueModel,
};

verus! {

// ---------------------------------------------------------------------------
// Sizes of type models, by which the recursive specifications end
// ---------------------------------------------------------------------------

pub open spec fn tm_size(t: TypeModel) -> nat
    decreases t,
{
    match t {
        TypeModel::List(inner, _) => 1 + tm_size(*inner),
        TypeModel::KeyValueMap { key, value } => 1 + tm_size(*key) + tm_size(*value),
        TypeModel::Group(fields) => 1 + fm_size(fields),
        _ => 1,
    }
}

pub open spec fn fm_size(s: Seq<FieldModel>) -> nat
    decreases s,
{
    if s.len() == 0 {
        0
    } else {
        fm_size(s.drop_last()) + tm_size(s.last().data_type)
    }
}

// ---------------------------------------------------------------------------
// Lists of scalars cast to another scalar type
// ---------------------------------------------------------------------------

/// The numbers of a list of integers.
pub open spec fn list_ints(l: ListModel) -> Seq<int> {
    match l {
        ListModel::U8(v) => v.map_values(|x: u8| x as int),
        ListModel::U16(v) => v.map_values(|x: u16| x as int),
        ListModel::U32(v) => v.map_values(|x: u32| x as int),
        ListModel::U64(v) => v.map_values(|x: u64| x as int),
        ListModel::I8(v) => v.map_values(|x: i8| x as int),
        ListModel::I16(v) => v.map_values(|x: i16| x as int),
        ListModel::I32(v) => v.map_values(|x: i32| x as int),
        ListModel::I64(v) => v.map_values(|x: i64| x as int),
        _ => Seq::empty(),
    }
}

/// Whether casting a list of `from` into `to` keeps it as it is.
pub open spec fn list_identity(from: PrimitiveDataType, to: PrimitiveDataType) -> bool {
    from == to && from != PrimitiveDataType::F16
}

/// Whether a list of `from` can be cast into `to` item by item: into 32-
/// and 64-bit signed integers from any number, into floating-point numbers
/// from the other floating-point width and from 32- and 64-bit signed
/// integers.
pub open spec fn list_castable(from: PrimitiveDataType, to: PrimitiveDataType) -> bool {
    ||| (to == PrimitiveDataType::I32 || to == PrimitiveDataType::I64)
        && from != to && from != PrimitiveDataType::Bool && from != PrimitiveDataType::F16
    ||| (to == PrimitiveDataType::F32 || to == PrimitiveDataType::F64)
        && from != to && (from == PrimitiveDataType::F32 || from == PrimitiveDataType::F64
        || from == PrimitiveDataType::I32 || from == PrimitiveDataType::I64)
}

/// The text of the error for a list whose length is not the fixed one.
pub open spec fn fixed_mismatch_text() -> Seq<char> {
    seq!['F', 'i', 'x', 'e', 'd', 'S', 'i', 'z', 'e', 'L', 'i', 's', 't', ' ', 'm', 'i', 's', 'm', 'a', 't', 'c', 'h']
}

/// The outcome of casting the list `l` into the scalar type `to`, with
/// `size` the length it must have after a cast; `None` where the cast goes
/// through floating-point arithmetic.
pub open spec fn list_repair_spec(l: ListModel, to: PrimitiveDataType, size: Option<usize>) -> Option<Result<ListModel, RepairErrorModel>> {
    let from = list_type(l);
    if list_identity(from, to) {
        Some(Ok(l))
    } else if !list_castable(from, to) {
        Some(Err(RepairErrorModel::Cast(TypeModel::PrimitiveList(to))))
    } else if size is Some && list_len(l) != size->0 {
        Some(Err(RepairErrorModel::OutOfBounds(fixed_mismatch_text(), TypeModel::Null)))
    } else if is_integer_type(from) && to == PrimitiveDataType::I32 {
        Some(Ok(ListModel::I32(list_ints(l).map_values(|n: int| n as i32))))
    } else if is_integer_type(from) && to == PrimitiveDataType::I64 {
        Some(Ok(ListModel::I64(list_ints(l).map_values(|n: int| n as i64))))
    } else {
        None
    }
}

// ---------------------------------------------------------------------------
// Repairing every item of a sequence
// ---------------------------------------------------------------------------

/// The outcomes of `f` on the items of `s` in order, stopping at the first
/// error; `None` where an item before the first error has no stated
/// outcome.
pub open spec fn repair_each(
    s: Seq<ValueModel>,
    f: spec_fn(ValueModel) -> Option<Result<ValueModel, RepairErrorModel>>,
) -> Option<Result<Seq<ValueModel>, RepairErrorModel>>
    decreases s.len(),
{
    if s.len() == 0 {
        Some(Ok(Seq::empty()))
    } else {
        match repair_each(s.drop_last(), f) {
            Some(Ok(prefix)) => match f(s.last()) {
                Some(Ok(x)) => Some(Ok(prefix.push(x))),
                Some(Err(e)) => Some(Err(e)),
                None => None,
            },
            other => other,
        }
    }
}

/// Whether packing a general list into the scalar type `p` gives a list of
/// scalars; other types give a general list of repaired items.
pub open spec fn packs(p: PrimitiveDataType) -> bool {
    p == PrimitiveDataType::I32 || p == PrimitiveDataType::I64 || p == PrimitiveDataType::F64
        || p == PrimitiveDataType::F32 || p == PrimitiveDataType::Bool || p == PrimitiveDataType::U8
}

/// The empty list of scalars of type `p`.
pub open spec fn empty_list(p: PrimitiveDataType) -> ListModel {
    match p {
        PrimitiveDataType::Bool => ListModel::Bool(Seq::empty()),
        PrimitiveDataType::U8 => ListModel::U8(Seq::empty()),
        PrimitiveDataType::U16 => ListModel::U16(Seq::empty()),
        PrimitiveDataType::U32 => ListModel::U32(Seq::empty()),
        PrimitiveDataType::U64 => ListModel::U64(Seq::empty()),
        PrimitiveDataType::I8 => ListModel::I8(Seq::empty()),
        PrimitiveDataType::I16 => ListModel::I16(Seq::empty()),
        PrimitiveDataType::I32 => ListModel::I32(Seq::empty()),
        PrimitiveDataType::I64 => ListModel::I64(Seq::empty()),
        PrimitiveDataType::F16 => ListModel::F16(Seq::empty()),
        PrimitiveDataType::F32 => ListModel::F32(Seq::empty()),
        PrimitiveDataType::F64 => ListModel::F64(Seq::empty()),
    }
}

/// `l` with `v` appended when `v` is a scalar of the list's type, and as
/// it is otherwise.
pub open spec fn list_push(l: ListModel, v: ValueModel) -> ListModel {
    match (l, v) {
        (ListModel::Bool(s), ValueModel::Bool(x)) => ListModel::Bool(s.push(x)),
        (ListModel::U8(s), ValueModel::U8(x)) => ListModel::U8(s.push(x)),
        (ListModel::U16(s), ValueModel::U16(x)) => ListModel::U16(s.push(x)),
        (ListModel::U32(s), ValueModel::U32(x)) => ListModel::U32(s.push(x)),
        (ListModel::U64(s), ValueModel::U64(x)) => ListModel::U64(s.push(x)),
        (ListModel::I8(s), ValueModel::I8(x)) => ListModel::I8(s.push(x)),
        (ListModel::I16(s), ValueModel::I16(x)) => ListModel::I16(s.push(x)),
        (ListModel::I32(s), ValueModel::I32(x)) => ListModel::I32(s.push(x)),
        (ListModel::I64(s), ValueModel::I64(x)) => ListModel::I64(s.push(x)),
        (ListModel::F16(s), ValueModel::F16(x)) => ListModel::F16(s.push(x)),
        (ListModel::F32(s), ValueModel::F32(x)) => ListModel::F32(s.push(x)),
        (ListModel::F64(s), ValueModel::F64(x)) => ListModel::F64(s.push(x)),
        _ => l,
    }
}

/// The scalars of type `p` among `s`, in order; other values are dropped.
pub open spec fn kept(s: Seq<ValueModel>, p: PrimitiveDataType) -> ListModel
    decreases s.len(),
{
    if s.len() == 0 {
        empty_list(p)
    } else {
        list_push(kept(s.drop_last(), p), s.last())
    }
}

/// The outcome of packing the items `s` into a list of the scalar type `p`:
/// every item is repaired into `p`, and the results that are scalars of
/// `p` form a list of scalars, or for the types that do not pack, a
/// general list.
pub open spec fn pack_spec(s: Seq<ValueModel>, p: PrimitiveDataType) -> Option<Result<ValueModel, RepairErrorModel>> {
    match repair_each(s, |v: ValueModel| repair_scalar_spec(v, p)) {
        Some(Ok(rs)) => Some(
            Ok(
                if packs(p) {
                    ValueModel::PrimitiveList(kept(rs, p))
                } else {
                    ValueModel::List(rs)
                },
            ),
        ),
        Some(Err(e)) => Some(Err(e)),
        None => None,
    }
}

/// The text of the error for a general list whose length is not the fixed
/// one.
pub open spec fn fixed_len_text(len: int, size: int) -> Seq<char> {
    seq!['F', 'i', 'x', 'e', 'd', 'S', 'i', 'z', 'e', 'L', 'i', 's', 't', ' ', 'l', 'e', 'n', ' ']
        + decimal(len) + seq![' ', '!', '=', ' '] + decimal(size)
}

/// The outcome of repairing `v` into a list of scalars of type `p`, of
/// length `fixed` when given: a list of scalars is cast, a general list is
/// packed, and any other value becomes a list of one when the length
/// allows it.
pub open spec fn plist_spec(v: ValueModel, p: PrimitiveDataType, fixed: Option<usize>) -> Option<Result<ValueModel, RepairErrorModel>> {
    match v {
        ValueModel::PrimitiveList(l) => match list_repair_spec(l, p, fixed) {
            Some(Ok(l2)) => Some(Ok(ValueModel::PrimitiveList(l2))),
            Some(Err(e)) => Some(Err(e)),
            None => None,
        },
        ValueModel::List(items) => if fixed is Some && items.len() != fixed->0 {
            Some(
                Err(
                    RepairErrorModel::OutOfBounds(
                        fixed_len_text(items.len() as int, fixed->0 as int),
                        TypeModel::PrimitiveFixedList(p, fixed->0),
                    ),
                ),
            )
        } else {
            pack_spec(items, p)
        },
        _ => if fixed is None || fixed == Some(1usize) {
            match repair_scalar_spec(v, p) {
                Some(Ok(x)) => pack_spec(seq![x], p),
                Some(Err(e)) => Some(Err(e)),
                None => None,
            }
        } else {
            Some(Err(RepairErrorModel::Cast(TypeModel::PrimitiveList(p))))
        },
    }
}

// ---------------------------------------------------------------------------
// Repairing nested values
// ---------------------------------------------------------------------------

/// The outcome of repairing `v` into the type `t`; `None` where it goes
/// through floating-point arithmetic before any error.
pub open spec fn repair_spec(v: ValueModel, t: TypeModel) -> Option<Result<ValueModel, RepairErrorModel>>
    decreases tm_size(t), 0nat,
{
    if v is Null {
        Some(Ok(ValueModel::Null))
    } else {
        match t {
            TypeModel::Null => Some(Ok(ValueModel::Null)),
            TypeModel::PrimitiveScalar(p) => repair_scalar_spec(v, p),
            TypeModel::Str => repair_text_spec(v),
            TypeModel::Timestamp => if v is Timestamp {
                Some(Ok(v))
            } else {
                Some(Err(RepairErrorModel::Cast(TypeModel::Timestamp)))
            },
            TypeModel::PrimitiveList(p) => plist_spec(v, p, None),
            TypeModel::PrimitiveFixedList(p, n) => plist_spec(v, p, Some(n)),
            TypeModel::List(inner, _) => match v {
                ValueModel::List(items) => match repair_all(items, *inner) {
                    Some(Ok(rs)) => Some(Ok(ValueModel::List(rs))),
                    Some(Err(e)) => Some(Err(e)),
                    None => None,
                },
                _ => match repair_spec(v, *inner) {
                    Some(Ok(x)) => Some(Ok(ValueModel::List(seq![x]))),
                    Some(Err(e)) => Some(Err(e)),
                    None => None,
                },
            },
            TypeModel::Group(fields) => match v {
                ValueModel::Group(items) => match project_spec(items, fields) {
                    Some(Ok(rs)) => Some(Ok(ValueModel::Group(rs))),
                    Some(Err(e)) => Some(Err(e)),
                    None => None,
                },
                _ => Some(Err(RepairErrorModel::Cast(t))),
            },
            TypeModel::KeyValueMap { key, value } => match v {
                ValueModel::MapInternal(pairs) => match repair_pairs(pairs, *key, *value) {
                    Some(Ok(rs)) => Some(Ok(ValueModel::MapInternal(rs))),
                    Some(Err(e)) => Some(Err(e)),
                    None => None,
                },
                _ => Some(Err(RepairErrorModel::Cast(t))),
            },
        }
    }
}

/// The outcome of repairing every item of `s` into `t`, in order, stopping
/// at the first error.
pub open spec fn repair_all(s: Seq<ValueModel>, t: TypeModel) -> Option<Result<Seq<ValueModel>, RepairErrorModel>>
    decreases tm_size(t), s.len() + 1,
{
    if s.len() == 0 {
        Some(Ok(Seq::empty()))
    } else {
        match repair_all(s.drop_last(), t) {
            Some(Ok(prefix)) => match repair_spec(s.last(), t) {
                Some(Ok(x)) => Some(Ok(prefix.push(x))),
                Some(Err(e)) => Some(Err(e)),
                None => None,
            },
            other => other,
        }
    }
}

/// The outcome of repairing every entry of a map, the key into `kt` and
/// then the value into `vt`, in order, stopping at the first error.
pub open spec fn repair_pairs(s: Seq<(ValueModel, ValueModel)>, kt: TypeModel, vt: TypeModel) -> Option<Result<Seq<(ValueModel, ValueModel)>, RepairErrorModel>>
    decreases tm_size(kt) + tm_size(vt), s.len() + 1,
{
    if s.len() == 0 {
        Some(Ok(Seq::empty()))
    } else {
        match repair_pairs(s.drop_last(), kt, vt) {
            Some(Ok(prefix)) => match repair_spec(s.last().0, kt) {
                Some(Ok(k)) => match repair_spec(s.last().1, vt) {
                    Some(Ok(x)) => Some(Ok(prefix.push((k, x)))),
                    Some(Err(e)) => Some(Err(e)),
                    None => None,
                },
                Some(Err(e)) => Some(Err(e)),
                None => None,
            },
            other => other,
        }
    }
}

/// `items` with the item at `pos` taken out and the last item moved into
/// its place.
pub open spec fn swap_removed<A>(items: Seq<A>, pos: int) -> Seq<A> {
    items.update(pos, items.last()).drop_last()
}

/// The items of a row left after the fields named `names` were taken out
/// one after another, each the first of its name.
pub open spec fn left_after(items: Seq<(Seq<char>, ValueModel)>, names: Seq<Seq<char>>) -> Seq<(Seq<char>, ValueModel)>
    decreases names.len(),
{
    if names.len() == 0 {
        items
    } else {
        let prev = left_after(items, names.drop_last());
        match crate::value::first_key(prev, names.last()) {
            Some(pos) => swap_removed(prev, pos),
            None => prev,
        }
    }
}

/// The names of fields.
pub open spec fn field_names(fields: Seq<FieldModel>) -> Seq<Seq<char>> {
    fields.map_values(|f: FieldModel| f.name)
}

/// The outcome of projecting the row `items` onto `fields`: each field in
/// order takes out the first item of its name and repairs its value into
/// the field's type; a missing field is the missing value when it may be
/// missing and an error otherwise.
pub open spec fn project_spec(items: Seq<(Seq<char>, ValueModel)>, fields: Seq<FieldModel>) -> Option<Result<Seq<(Seq<char>, ValueModel)>, RepairErrorModel>>
    decreases fm_size(fields), fields.len() + 1,
{
    if fields.len() == 0 {
        Some(Ok(Seq::empty()))
    } else {
        match project_spec(items, fields.drop_last()) {
            Some(Ok(prefix)) => {
                let f = fields.last();
                let left = left_after(items, field_names(fields.drop_last()));
                match crate::value::first_key(left, f.name) {
                    Some(pos) => match repair_spec(left[pos].1, f.data_type) {
                        Some(Ok(x)) => Some(Ok(prefix.push((left[pos].0, x)))),
                        Some(Err(e)) => Some(Err(e)),
                        None => None,
                    },
                    None => if f.nullable {
                        Some(Ok(prefix.push((f.name, ValueModel::Null))))
                    } else {
                        Some(Err(RepairErrorModel::Missing(f.name)))
                    },
                }
            },
            other => other,
        }
    }
}

// ---------------------------------------------------------------------------
// What the outcomes can be where floating-point arithmetic decides
// ---------------------------------------------------------------------------
//
// The specifications above leave an outcome open as soon as a number goes
// through floating-point arithmetic. The relations below pin everything
// else: where a floating-point step produces a number, its type is stated
// here, and the step of `FloatOps` it comes from by `float_steps` (for
// scalars, text and lists of scalars); the shape of the result, every key,
// every value that no such step produces, and the errors met before such a
// step are stated.

/// The outcome of a list cast, as plain values.
pub open spec fn list_outcome(r: Result<PrimitiveValueList, ScalarRepairError>) -> Result<ListModel, RepairErrorModel> {
    match r {
        Ok(l) => Ok(l@),
        Err(e) => Err(e@),
    }
}

/// Whether `o` can be the outcome of casting the list `l` into `to`: the
/// stated outcome, or, where floating-point arithmetic casts the items, a
/// list of `to` as long as `l`.
pub open spec fn list_fits(l: ListModel, to: PrimitiveDataType, size: Option<usize>, o: Result<ListModel, RepairErrorModel>) -> bool {
    match list_repair_spec(l, to, size) {
        Some(x) => o == x,
        None => o matches Ok(l2) && list_type(l2) == to && list_len(l2) == list_len(l),
    }
}

/// Whether `o` can be the outcome of repairing the items of `s` into the
/// scalar type `p` in order, stopping at the first error.
pub open spec fn each_fits(s: Seq<ValueModel>, p: PrimitiveDataType, o: Result<Seq<ValueModel>, RepairErrorModel>) -> bool
    decreases s.len(),
{
    if s.len() == 0 {
        o == Ok::<Seq<ValueModel>, RepairErrorModel>(Seq::empty())
    } else {
        match o {
            Ok(rs) => rs.len() == s.len() && each_fits(s.drop_last(), p, Ok(rs.drop_last())) && scalar_fits(
                s.last(),
                p,
                Ok(rs.last()),
            ),
            Err(e) => each_fits(s.drop_last(), p, Err(e)) || (each_can(s.drop_last(), p) && scalar_fits(
                s.last(),
                p,
                Err(e),
            )),
        }
    }
}

/// Whether repairing `v` into the scalar type `p` is not certain to fail.
pub open spec fn scalar_can(v: ValueModel, p: PrimitiveDataType) -> bool {
    !(repair_scalar_spec(v, p) matches Some(Err(_)))
}

/// Whether repairing each of the items `s` into the scalar type `p` is not
/// certain to fail.
pub open spec fn each_can(s: Seq<ValueModel>, p: PrimitiveDataType) -> bool
    decreases s.len(),
{
    s.len() == 0 || (each_can(s.drop_last(), p) && scalar_can(s.last(), p))
}

/// The value that packing gives from the repaired items `rs`.
pub open spec fn packed(rs: Seq<ValueModel>, p: PrimitiveDataType) -> ValueModel {
    if packs(p) {
        ValueModel::PrimitiveList(kept(rs, p))
    } else {
        ValueModel::List(rs)
    }
}

/// Whether `o` can be the outcome of packing the items `s` into a list of
/// the scalar type `p`.
pub open spec fn pack_fits(s: Seq<ValueModel>, p: PrimitiveDataType, o: Result<ValueModel, RepairErrorModel>) -> bool {
    match o {
        Ok(x) => exists|rs: Seq<ValueModel>| each_fits(s, p, Ok(rs)) && x == packed(rs, p),
        Err(e) => each_fits(s, p, Err(e)),
    }
}

/// Whether `o` can be the outcome of repairing `v` into a list of scalars
/// of type `p`, of length `fixed` when given.
pub open spec fn plist_fits(v: ValueModel, p: PrimitiveDataType, fixed: Option<usize>, o: Result<ValueModel, RepairErrorModel>) -> bool {
    match v {
        ValueModel::PrimitiveList(l) => match o {
            Ok(ValueModel::PrimitiveList(l2)) => list_fits(l, p, fixed, Ok(l2)),
            Ok(_) => false,
            Err(e) => list_fits(l, p, fixed, Err(e)),
        },
        ValueModel::List(items) => if fixed is Some && items.len() != fixed->0 {
            o == Err::<ValueModel, RepairErrorModel>(
                RepairErrorModel::OutOfBounds(
                    fixed_len_text(items.len() as int, fixed->0 as int),
                    TypeModel::PrimitiveFixedList(p, fixed->0),
                ),
            )
        } else {
            pack_fits(items, p, o)
        },
        _ => if fixed is None || fixed == Some(1usize) {
            ||| o matches Err(e) && scalar_fits(v, p, Err(e))
            ||| exists|x: ValueModel| scalar_fits(v, p, Ok(x)) && pack_fits(seq![x], p, o)
        } else {
            o == Err::<ValueModel, RepairErrorModel>(RepairErrorModel::Cast(TypeModel::PrimitiveList(p)))
        },
    }
}

/// Whether repairing `v` into the type `t` is not certain to fail: no step
/// that floating-point arithmetic does not decide fails.
pub open spec fn repair_can(v: ValueModel, t: TypeModel) -> bool
    decreases tm_size(t), 0nat,
{
    if v is Null {
        true
    } else {
        match t {
            TypeModel::Null => true,
            TypeModel::PrimitiveScalar(p) => scalar_can(v, p),
            TypeModel::Str => !(repair_text_spec(v) matches Some(Err(_))),
            TypeModel::Timestamp => v is Timestamp,
            TypeModel::PrimitiveList(p) => plist_can(v, p, None),
            TypeModel::PrimitiveFixedList(p, n) => plist_can(v, p, Some(n)),
            TypeModel::List(inner, _) => match v {
                ValueModel::List(items) => all_can(items, *inner),
                _ => repair_can(v, *inner),
            },
            TypeModel::Group(fields) => match v {
                ValueModel::Group(items) => project_can(items, fields),
                _ => false,
            },
            TypeModel::KeyValueMap { key, value } => match v {
                ValueModel::MapInternal(pairs) => pairs_can(pairs, *key, *value),
                _ => false,
            },
        }
    }
}

/// Whether repairing `v` into a list of scalars of type `p`, of length
/// `fixed` when given, is not certain to fail.
pub open spec fn plist_can(v: ValueModel, p: PrimitiveDataType, fixed: Option<usize>) -> bool {
    match v {
        ValueModel::PrimitiveList(l) => !(list_repair_spec(l, p, fixed) matches Some(Err(_))),
        ValueModel::List(items) => !(fixed is Some && items.len() != fixed->0) && each_can(items, p),
        _ => (fixed is None || fixed == Some(1usize)) && scalar_can(v, p),
    }
}

/// Whether repairing each of the items `s` into `t` is not certain to fail.
pub open spec fn all_can(s: Seq<ValueModel>, t: TypeModel) -> bool
    decreases tm_size(t), s.len() + 1,
{
    s.len() == 0 || (all_can(s.drop_last(), t) && repair_can(s.last(), t))
}

/// Whether repairing each entry of a map is not certain to fail.
pub open spec fn pairs_can(s: Seq<(ValueModel, ValueModel)>, kt: TypeModel, vt: TypeModel) -> bool
    decreases tm_size(kt) + tm_size(vt), s.len() + 1,
{
    s.len() == 0 || (pairs_can(s.drop_last(), kt, vt) && repair_can(s.last().0, kt) && repair_can(
        s.last().1,
        vt,
    ))
}

/// Whether projecting the row `items` onto `fields` is not certain to fail.
pub open spec fn project_can(items: Seq<(Seq<char>, ValueModel)>, fields: Seq<FieldModel>) -> bool
    decreases fm_size(fields), fields.len() + 1,
{
    fields.len() == 0 || (project_can(items, fields.drop_last()) && match crate::value::first_key(
        left_after(items, field_names(fields.drop_last())),
        fields.last().name,
    ) {
        Some(pos) => repair_can(left_after(items, field_names(fields.drop_last()))[pos].1, fields.last().data_type),
        None => fields.last().nullable,
    })
}

/// Whether `o` can be the outcome of repairing `v` into the type `t`.
pub open spec fn repair_fits(v: ValueModel, t: TypeModel, o: Result<ValueModel, RepairErrorModel>) -> bool
    decreases tm_size(t), 0nat,
{
    if v is Null {
        o == Ok::<ValueModel, RepairErrorModel>(ValueModel::Null)
    } else {
        match t {
            TypeModel::Null => o == Ok::<ValueModel, RepairErrorModel>(ValueModel::Null),
            TypeModel::PrimitiveScalar(p) => scalar_fits(v, p, o),
            TypeModel::Str => text_fits(v, o),
            TypeModel::Timestamp => o == if v is Timestamp {
                Ok::<ValueModel, RepairErrorModel>(v)
            } else {
                Err(RepairErrorModel::Cast(TypeModel::Timestamp))
            },
            TypeModel::PrimitiveList(p) => plist_fits(v, p, None, o),
            TypeModel::PrimitiveFixedList(p, n) => plist_fits(v, p, Some(n), o),
            TypeModel::List(inner, _) => match v {
                ValueModel::List(items) => match o {
                    Ok(ValueModel::List(rs)) => all_fits(items, *inner, Ok(rs)),
                    Ok(_) => false,
                    Err(e) => all_fits(items, *inner, Err(e)),
                },
                _ => match o {
                    Ok(ValueModel::List(rs)) => rs.len() == 1 && repair_fits(v, *inner, Ok(rs[0])),
                    Ok(_) => false,
                    Err(e) => repair_fits(v, *inner, Err(e)),
                },
            },
            TypeModel::Group(fields) => match v {
                ValueModel::Group(items) => match o {
                    Ok(ValueModel::Group(rs)) => project_fits(items, fields, Ok(rs)),
                    Ok(_) => false,
                    Err(e) => project_fits(items, fields, Err(e)),
                },
                _ => o == Err::<ValueModel, RepairErrorModel>(RepairErrorModel::Cast(t)),
            },
            TypeModel::KeyValueMap { key, value } => match v {
                ValueModel::MapInternal(pairs) => match o {
                    Ok(ValueModel::MapInternal(rs)) => pairs_fits(pairs, *key, *value, Ok(rs)),
                    Ok(_) => false,
                    Err(e) => pairs_fits(pairs, *key, *value, Err(e)),
                },
                _ => o == Err::<ValueModel, RepairErrorModel>(RepairErrorModel::Cast(t)),
            },
        }
    }
}

/// Whether `o` is what steps of `steps` make of the value `v` repaired
/// into a scalar type, text or a list of scalars, where a floating-point
/// step decides.
pub open spec fn scalar_made(steps: spec_fn(FloatStep) -> bool, v: ValueModel, t: TypeModel, o: Result<ValueModel, RepairErrorModel>) -> bool {
    match t {
        TypeModel::PrimitiveScalar(p) => float_made(steps, v, p, o) && int_made(steps, v, p, o),
        TypeModel::Str => text_made(steps, v, o),
        TypeModel::PrimitiveList(p) | TypeModel::PrimitiveFixedList(p, _) => plist_made(steps, v, p, o),
        _ => true,
    }
}

/// Whether `o` is what steps of `steps` make of a list of scalars `v` cast
/// into lists of `p`: the cast that `cast_made` describes.
pub open spec fn plist_made(steps: spec_fn(FloatStep) -> bool, v: ValueModel, p: PrimitiveDataType, o: Result<ValueModel, RepairErrorModel>) -> bool {
    match v {
        ValueModel::PrimitiveList(l) => match o {
            Ok(ValueModel::PrimitiveList(m)) => cast_made(steps, l, p, Ok(m)),
            _ => true,
        },
        _ => true,
    }
}

/// Whether `o` can be the outcome of repairing the items of `s` into `t` in
/// order, stopping at the first error.
pub open spec fn all_fits(s: Seq<ValueModel>, t: TypeModel, o: Result<Seq<ValueModel>, RepairErrorModel>) -> bool
    decreases tm_size(t), s.len() + 1,
{
    if s.len() == 0 {
        o == Ok::<Seq<ValueModel>, RepairErrorModel>(Seq::empty())
    } else {
        match o {
            Ok(rs) => rs.len() == s.len() && all_fits(s.drop_last(), t, Ok(rs.drop_last())) && repair_fits(
                s.last(),
                t,
                Ok(rs.last()),
            ),
            Err(e) => all_fits(s.drop_last(), t, Err(e)) || (all_can(s.drop_last(), t) && repair_fits(
                s.last(),
                t,
                Err(e),
            )),
        }
    }
}

/// Whether `o` can be the outcome of repairing the entries of a map in
/// order, the key into `kt` and then the value into `vt`, stopping at the
/// first error.
pub open spec fn pairs_fits(
    s: Seq<(ValueModel, ValueModel)>,
    kt: TypeModel,
    vt: TypeModel,
    o: Result<Seq<(ValueModel, ValueModel)>, RepairErrorModel>,
) -> bool
    decreases tm_size(kt) + tm_size(vt), s.len() + 1,
{
    if s.len() == 0 {
        o == Ok::<Seq<(ValueModel, ValueModel)>, RepairErrorModel>(Seq::empty())
    } else {
        match o {
            Ok(rs) => rs.len() == s.len() && pairs_fits(s.drop_last(), kt, vt, Ok(rs.drop_last()))
                && repair_fits(s.last().0, kt, Ok(rs.last().0)) && repair_fits(s.last().1, vt, Ok(rs.last().1)),
            Err(e) => pairs_fits(s.drop_last(), kt, vt, Err(e)) || (pairs_can(s.drop_last(), kt, vt) && (
            repair_fits(s.last().0, kt, Err(e)) || (repair_can(s.last().0, kt) && repair_fits(
                s.last().1,
                vt,
                Err(e),
            )))),
        }
    }
}

/// Whether `o` can be the outcome of projecting the row `items` onto
/// `fields`: on success the items are the fields in order, each keyed as
/// the item it was taken from (or by the field's name, holding the missing
/// value, when there was none), with its value repaired into the field's
/// type; an error is that of the first field that fails.
pub open spec fn project_fits(
    items: Seq<(Seq<char>, ValueModel)>,
    fields: Seq<FieldModel>,
    o: Result<Seq<(Seq<char>, ValueModel)>, RepairErrorModel>,
) -> bool
    decreases fm_size(fields), fields.len() + 1,
{
    if fields.len() == 0 {
        o == Ok::<Seq<(Seq<char>, ValueModel)>, RepairErrorModel>(Seq::empty())
    } else {
        let f = fields.last();
        let left = left_after(items, field_names(fields.drop_last()));
        match o {
            Ok(rs) => rs.len() == fields.len() && project_fits(items, fields.drop_last(), Ok(rs.drop_last()))
                && match crate::value::first_key(left, f.name) {
                Some(pos) => rs.last().0 == left[pos].0 && repair_fits(left[pos].1, f.data_type, Ok(rs.last().1)),
                None => f.nullable && rs.last() == (f.name, ValueModel::Null),
            },
            Err(e) => project_fits(items, fields.drop_last(), Err(e)) || (project_can(items, fields.drop_last())
                && match crate::value::first_key(left, f.name) {
                Some(pos) => repair_fits(left[pos].1, f.data_type, Err(e)),
                None => !f.nullable && e == RepairErrorModel::Missing(f.name),
            }),
        }
    }
}

// ---------------------------------------------------------------------------
// Casting lists of scalars
// ---------------------------------------------------------------------------

/// The numbers of a list of integers, widened.
fn widen(l: &PrimitiveValueList) -> (r: Vec<i128>)
    requires
        is_integer_type(list_type(l@)),
    ensures
        r@.len() == list_ints(l@).len(),
        forall|i: int| 0 <= i < r@.len() ==> #[trigger] r@[i] as int == list_ints(l@)[i],
{
    let mut out: Vec<i128> = Vec::new();
    match l {
        PrimitiveValueList::U8(v) => {
            for i in 0..v.len()
                invariant
                    out@.len() == i,
                    forall|j: int| 0 <= j < i ==> #[trigger] out@[j] as int == v@[j] as int,
            {
                out.push(v[i] as i128);
            }
        },
        PrimitiveValueList::U16(v) => {
            for i in 0..v.len()
                invariant
                    out@.len() == i,
                    forall|j: int| 0 <= j < i ==> #[trigger] out@[j] as int == v@[j] as int,
            {
                out.push(v[i] as i128);
            }
        },
        PrimitiveValueList::U32(v) => {
            for i in 0..v.len()
                invariant
                    out@.len() == i,
                    forall|j: int| 0 <= j < i ==> #[trigger] out@[j] as int == v@[j] as int,
            {
                out.push(v[i] as i128);
            }
        },
        PrimitiveValueList::U64(v) => {
            for i in 0..v.len()
                invariant
                    out@.len() == i,
                    forall|j: int| 0 <= j < i ==> #[trigger] out@[j] as int == v@[j] as int,
            {
                out.push(v[i] as i128);
            }
        },
        PrimitiveValueList::I8(v) => {
            for i in 0..v.len()
                invariant
                    out@.len() == i,
                    forall|j: int| 0 <= j < i ==> #[trigger] out@[j] as int == v@[j] as int,
            {
                out.push(v[i] as i128);
            }
        },
        PrimitiveValueList::I16(v) => {
            for i in 0..v.len()
                invariant
                    out@.len() == i,
                    forall|j: int| 0 <= j < i ==> #[trigger] out@[j] as int == v@[j] as int,
            {
                out.push(v[i] as i128);
            }
        },
        PrimitiveValueList::I32(v) => {
            for i in 0..v.len()
                invariant
                    out@.len() == i,
                    forall|j: int| 0 <= j < i ==> #[trigger] out@[j] as int == v@[j] as int,
            {
                out.push(v[i] as i128);
            }
        },
        PrimitiveValueList::I64(v) => {
            for i in 0..v.len()
                invariant
                    out@.len() == i,
                    forall|j: int| 0 <= j < i ==> #[trigger] out@[j] as int == v@[j] as int,
            {
                out.push(v[i] as i128);
            }
        },
        _ => {},
    }
    out
}

/// Each number truncated to its low 32 bits, as `as i32` does.
fn truncate_i32(v: &Vec<i128>) -> (r: Vec<i32>)
    ensures
        r@.len() == v@.len(),
        forall|i: int| 0 <= i < r@.len() ==> #[trigger] r@[i] == (v@[i] as int) as i32,
{
    let mut out: Vec<i32> = Vec::new();
    for i in 0..v.len()
        invariant
            out@.len() == i,
            forall|j: int| 0 <= j < i ==> #[trigger] out@[j] == (v@[j] as int) as i32,
    {
        out.push(v[i] as i32);
    }
    out
}

/// Each number truncated to its low 64 bits, as `as i64` does.
fn truncate_i64(v: &Vec<i128>) -> (r: Vec<i64>)
    ensures
        r@.len() == v@.len(),
        forall|i: int| 0 <= i < r@.len() ==> #[trigger] r@[i] == (v@[i] as int) as i64,
{
    let mut out: Vec<i64> = Vec::new();
    for i in 0..v.len()
        invariant
            out@.len() == i,
            forall|j: int| 0 <= j < i ==> #[trigger] out@[j] == (v@[j] as int) as i64,
    {
        out.push(v[i] as i64);
    }
    out
}

/// Whether the numbers `w` are the floating-point items of `l`, each
/// rounded toward zero to an integer by a step of `steps`.
pub open spec fn floats_rounded(steps: spec_fn(FloatStep) -> bool, l: ListModel, w: Seq<i128>) -> bool {
    match l {
        ListModel::F32(v) => w.len() == v.len() && forall|j: int|
            0 <= j < v.len() ==> #[trigger] steps(FloatStep::Trunc32(v[j], w[j])),
        ListModel::F64(v) => w.len() == v.len() && forall|j: int|
            0 <= j < v.len() ==> #[trigger] steps(FloatStep::Trunc64(v[j], w[j])),
        _ => true,
    }
}

/// Whether the list `m` is what steps of `steps` make of the list `l` item
/// by item, where a floating-point step casts it: each item of a
/// single-precision list widened to double precision, each of a
/// double-precision list narrowed to single precision, each integer as the
/// nearest float, each float rounded toward zero and saturated into the
/// integer type. Any other pair of lists is not such a cast.
pub open spec fn list_made(steps: spec_fn(FloatStep) -> bool, l: ListModel, m: ListModel) -> bool {
    match (l, m) {
        (ListModel::F32(v), ListModel::F64(w)) => w.len() == v.len() && forall|i: int|
            0 <= i < v.len() ==> #[trigger] steps(FloatStep::Widen(v[i], w[i])),
        (ListModel::F64(v), ListModel::F32(w)) => w.len() == v.len() && forall|i: int|
            0 <= i < v.len() ==> #[trigger] steps(FloatStep::Narrow(v[i], w[i])),
        (ListModel::F32(v), ListModel::I32(w)) => w.len() == v.len() && forall|i: int|
            0 <= i < v.len() ==> #[trigger] f32_int_cast(steps, v[i], w[i] as int, i32::MIN as int, i32::MAX as int),
        (ListModel::F32(v), ListModel::I64(w)) => w.len() == v.len() && forall|i: int|
            0 <= i < v.len() ==> #[trigger] f32_int_cast(steps, v[i], w[i] as int, i64::MIN as int, i64::MAX as int),
        (ListModel::F64(v), ListModel::I32(w)) => w.len() == v.len() && forall|i: int|
            0 <= i < v.len() ==> #[trigger] f64_int_cast(steps, v[i], w[i] as int, i32::MIN as int, i32::MAX as int),
        (ListModel::F64(v), ListModel::I64(w)) => w.len() == v.len() && forall|i: int|
            0 <= i < v.len() ==> #[trigger] f64_int_cast(steps, v[i], w[i] as int, i64::MIN as int, i64::MAX as int),
        (_, ListModel::F32(w)) => is_integer_type(list_type(l)) && w.len() == list_ints(l).len() && forall|i: int|
            0 <= i < w.len() ==> #[trigger] steps(FloatStep::FromInt32(list_ints(l)[i], w[i])),
        (_, ListModel::F64(w)) => is_integer_type(list_type(l)) && w.len() == list_ints(l).len() && forall|i: int|
            0 <= i < w.len() ==> #[trigger] steps(FloatStep::FromInt64(list_ints(l)[i], w[i])),
        _ => false,
    }
}

/// The floating-point items of `l` as integers of the type `to` (`I32` or
/// `I64`), rounded toward zero and saturated as `as` does.
fn floats_to_ints<O: FloatOps>(l: &PrimitiveValueList, to: PrimitiveDataType, ops: &O) -> (r: PrimitiveValueList)
    requires
        to == PrimitiveDataType::I32 || to == PrimitiveDataType::I64,
        list_type(l@) == PrimitiveDataType::F32 || list_type(l@) == PrimitiveDataType::F64,
    ensures
        list_type(r@) == to,
        list_len(r@) == list_len(l@),
        list_made(float_steps(ops), l@, r@),
{
    let single = match to {
        PrimitiveDataType::I32 => true,
        _ => false,
    };
    let mut wide: Vec<i128> = Vec::new();
    match l {
        PrimitiveValueList::F32(v) => {
            for i in 0..v.len()
                invariant
                    wide@.len() == i,
                    forall|j: int| 0 <= j < i ==> #[trigger] call_ensures(O::f32_to_int, (ops, v@[j]), wide@[j]),
            {
                wide.push(ops.f32_to_int(v[i]));
            }
        },
        PrimitiveValueList::F64(v) => {
            for i in 0..v.len()
                invariant
                    wide@.len() == i,
                    forall|j: int| 0 <= j < i ==> #[trigger] call_ensures(O::f64_to_int, (ops, v@[j]), wide@[j]),
            {
                wide.push(ops.f64_to_int(v[i]));
            }
        },
        _ => {},
    }
    proof { reveal(float_steps); }
    assert(floats_rounded(float_steps(ops), l@, wide@));
    assert(wide@.len() == list_len(l@));
    if single {
        let mut out: Vec<i32> = Vec::new();
        for i in 0..wide.len()
            invariant
                out@.len() == i,
                forall|j: int| 0 <= j < i ==> #[trigger] out@[j] as int == saturated(wide@[j] as int, i32::MIN as int, i32::MAX as int),
        {
            let x = wide[i];
            let y: i32 = if x < -0x8000_0000 { -0x8000_0000 } else if x > 0x7fff_ffff { 0x7fff_ffff } else { x as i32 };
            out.push(y);
        }
        proof { lemma_floats_rounded_cast(float_steps(ops), l@, wide@, ListModel::I32(out@)); }
        PrimitiveValueList::I32(out)
    } else {
        let mut out: Vec<i64> = Vec::new();
        for i in 0..wide.len()
            invariant
                out@.len() == i,
                forall|j: int| 0 <= j < i ==> #[trigger] out@[j] as int == saturated(wide@[j] as int, i64::MIN as int, i64::MAX as int),
        {
            let x = wide[i];
            let y: i64 = if x < -0x8000_0000_0000_0000 {
                -0x8000_0000_0000_0000
            } else if x > 0x7fff_ffff_ffff_ffff {
                0x7fff_ffff_ffff_ffff
            } else {
                x as i64
            };
            out.push(y);
        }
        proof { lemma_floats_rounded_cast(float_steps(ops), l@, wide@, ListModel::I64(out@)); }
        PrimitiveValueList::I64(out)
    }
}

/// Floats rounded to the integers `wide` and then saturated item by item
/// make the list cast of `list_made`.
proof fn lemma_floats_rounded_cast(steps: spec_fn(FloatStep) -> bool, l: ListModel, wide: Seq<i128>, m: ListModel)
    requires
        list_type(l) == PrimitiveDataType::F32 || list_type(l) == PrimitiveDataType::F64,
        floats_rounded(steps, l, wide),
        m matches ListModel::I32(w) ==> w.len() == wide.len() && forall|j: int|
            0 <= j < w.len() ==> #[trigger] w[j] as int == saturated(wide[j] as int, i32::MIN as int, i32::MAX as int),
        m matches ListModel::I64(w) ==> w.len() == wide.len() && forall|j: int|
            0 <= j < w.len() ==> #[trigger] w[j] as int == saturated(wide[j] as int, i64::MIN as int, i64::MAX as int),
        m is I32 || m is I64,
    ensures
        list_made(steps, l, m),
{
    match (l, m) {
        (ListModel::F32(v), ListModel::I32(w)) => {
            assert forall|i: int| 0 <= i < v.len() implies #[trigger] f32_int_cast(steps, v[i], w[i] as int, i32::MIN as int, i32::MAX as int) by {
                assert(steps(FloatStep::Trunc32(v[i], wide[i])));
            }
        },
        (ListModel::F32(v), ListModel::I64(w)) => {
            assert forall|i: int| 0 <= i < v.len() implies #[trigger] f32_int_cast(steps, v[i], w[i] as int, i64::MIN as int, i64::MAX as int) by {
                assert(steps(FloatStep::Trunc32(v[i], wide[i])));
            }
        },
        (ListModel::F64(v), ListModel::I32(w)) => {
            assert forall|i: int| 0 <= i < v.len() implies #[trigger] f64_int_cast(steps, v[i], w[i] as int, i32::MIN as int, i32::MAX as int) by {
                assert(steps(FloatStep::Trunc64(v[i], wide[i])));
            }
        },
        (ListModel::F64(v), ListModel::I64(w)) => {
            assert forall|i: int| 0 <= i < v.len() implies #[trigger] f64_int_cast(steps, v[i], w[i] as int, i64::MIN as int, i64::MAX as int) by {
                assert(steps(FloatStep::Trunc64(v[i], wide[i])));
            }
        },
        _ => {},
    }
}

/// The items of `l` as floating-point numbers of the type `to` (`F32` or
/// `F64`), converted as `as` does.
fn to_floats<O: FloatOps>(l: &PrimitiveValueList, to: PrimitiveDataType, ops: &O) -> (r: PrimitiveValueList)
    requires
        to == PrimitiveDataType::F32 || to == PrimitiveDataType::F64,
        list_castable(list_type(l@), to),
    ensures
        list_type(r@) == to,
        list_len(r@) == list_len(l@),
        list_made(float_steps(ops), l@, r@),
{
    proof { reveal(float_steps); }
    let single = match to {
        PrimitiveDataType::F32 => true,
        _ => false,
    };
    match l {
        PrimitiveValueList::F32(v) => {
            let mut out: Vec<u64> = Vec::new();
            for i in 0..v.len()
                invariant
                    out@.len() == i,
                    forall|j: int| 0 <= j < i ==> #[trigger] call_ensures(O::f32_to_f64, (ops, v@[j]), out@[j]),
            {
                out.push(ops.f32_to_f64(v[i]));
            }
            PrimitiveValueList::F64(out)
        },
        PrimitiveValueList::F64(v) => {
            let mut out: Vec<u32> = Vec::new();
            for i in 0..v.len()
                invariant
                    out@.len() == i,
                    forall|j: int| 0 <= j < i ==> #[trigger] call_ensures(O::f64_to_f32, (ops, v@[j]), out@[j]),
            {
                out.push(ops.f64_to_f32(v[i]));
            }
            PrimitiveValueList::F32(out)
        },
        _ => {
            let w = widen(l);
            if single {
                let mut out: Vec<u32> = Vec::new();
                for i in 0..w.len()
                    invariant
                        out@.len() == i,
                        w@.len() == list_ints(l@).len(),
                        forall|j: int| 0 <= j < w@.len() ==> #[trigger] w@[j] as int == list_ints(l@)[j],
                        forall|j: int| 0 <= j < i ==> #[trigger] call_ensures(O::f32_from_int, (ops, list_ints(l@)[j] as i128), out@[j]),
                {
                    assert(w@[i as int] == list_ints(l@)[i as int] as i128);
                    out.push(ops.f32_from_int(w[i]));
                }
                PrimitiveValueList::F32(out)
            } else {
                let mut out: Vec<u64> = Vec::new();
                for i in 0..w.len()
                    invariant
                        out@.len() == i,
                        w@.len() == list_ints(l@).len(),
                        forall|j: int| 0 <= j < w@.len() ==> #[trigger] w@[j] as int == list_ints(l@)[j],
                        forall|j: int| 0 <= j < i ==> #[trigger] call_ensures(O::f64_from_int, (ops, list_ints(l@)[j] as i128), out@[j]),
                {
                    assert(w@[i as int] == list_ints(l@)[i as int] as i128);
                    out.push(ops.f64_from_int(w[i]));
                }
                PrimitiveValueList::F64(out)
            }
        },
    }
}

/// Whether `o` is what steps of `steps` make of the list `l` cast into
/// `to`: where the list changes between integers and floating-point
/// numbers or between the two floating-point widths, a success is the list
/// that `list_made` describes.
pub open spec fn cast_made(steps: spec_fn(FloatStep) -> bool, l: ListModel, to: PrimitiveDataType, o: Result<ListModel, RepairErrorModel>) -> bool {
    let from = list_type(l);
    let floats = |p: PrimitiveDataType| p == PrimitiveDataType::F32 || p == PrimitiveDataType::F64;
    let ints = |p: PrimitiveDataType| p == PrimitiveDataType::I32 || p == PrimitiveDataType::I64;
    (from != to && ((floats(from) && (floats(to) || ints(to))) || (is_integer_type(from) && floats(to))))
        ==> (o matches Ok(m) ==> list_made(steps, l, m))
}

/// Whether `r` is what the specification of a list cast gives, where it
/// gives one.
pub open spec fn list_agrees(r: Result<PrimitiveValueList, ScalarRepairError>, s: Option<Result<ListModel, RepairErrorModel>>) -> bool {
    s matches Some(x) ==> (match r {
        Ok(l) => Ok(l@),
        Err(e) => Err(e@),
    }) == x
}

impl PrimitiveValueList {
    /// The items as integers, for a list of integers; nothing for a list of
    /// booleans or floating-point numbers.
    pub fn iter_numbers(&self) -> (r: Option<Vec<i128>>)
        ensures
            r is Some <==> is_integer_type(list_type(self@)),
            r matches Some(v) ==> v@.len() == list_ints(self@).len() && forall|i: int|
                0 <= i < v@.len() ==> #[trigger] v@[i] as int == list_ints(self@)[i],
    {
        if self.is_number() {
            Some(widen(self))
        } else {
            None
        }
    }

    /// The list cast into the scalar type `target`: kept as it is when the
    /// type is its own, cast item by item where a cast is provided, and
    /// then held to the length `size` when given.
    pub fn repair<O: FloatOps>(self, target: PrimitiveDataType, size: Option<usize>, ops: &O) -> (r: Result<PrimitiveValueList, ScalarRepairError>)
        ensures
            list_agrees(r, list_repair_spec(self@, target, size)),
            list_fits(self@, target, size, list_outcome(r)),
            cast_made(float_steps(ops), self@, target, list_outcome(r)),
    {
        let from = self.data_type();
        let same = from == target;
        let half = match from {
            PrimitiveDataType::F16 => true,
            _ => false,
        };
        if same && !half {
            return Ok(self);
        }
        let int_source = self.is_number();
        let castable = match target {
            PrimitiveDataType::I32 | PrimitiveDataType::I64 => {
                !same && !half && match from {
                    PrimitiveDataType::Bool => false,
                    _ => true,
                }
            },
            PrimitiveDataType::F32 | PrimitiveDataType::F64 => {
                !same && match from {
                    PrimitiveDataType::F32 | PrimitiveDataType::F64 | PrimitiveDataType::I32
                    | PrimitiveDataType::I64 => true,
                    _ => false,
                }
            },
            _ => false,
        };
        if !castable {
            return Err(ScalarRepairError::Cast(PyroType::PrimitiveList(target)));
        }
        let cast = match target {
            PrimitiveDataType::I32 => if int_source {
                let w = widen(&self);
                let out = truncate_i32(&w);
                assert(out@ =~= list_ints(self@).map_values(|n: int| n as i32));
                PrimitiveValueList::I32(out)
            } else {
                floats_to_ints(&self, target, ops)
            },
            PrimitiveDataType::I64 => if int_source {
                let w = widen(&self);
                let out = truncate_i64(&w);
                assert(out@ =~= list_ints(self@).map_values(|n: int| n as i64));
                PrimitiveValueList::I64(out)
            } else {
                floats_to_ints(&self, target, ops)
            },
            _ => to_floats(&self, target, ops),
        };
        proof {
            if int_source {
                assert(list_ints(self@).len() == list_len(self@));
            }
        }
        if let Some(sz) = size {
            if cast.len() != sz {
                proof { reveal_strlit("FixedSizeList mismatch"); }
                let text = String::from_str("FixedSizeList mismatch");
                assert(text@ =~= fixed_mismatch_text());
                return Err(ScalarRepairError::OutOfBounds(text, PyroType::Null));
            }
        }
        Ok(cast)
    }
}

// ---------------------------------------------------------------------------
// Packing general lists
// ---------------------------------------------------------------------------

pub proof fn lemma_repair_each_step(
    s: Seq<ValueModel>,
    k: int,
    f: spec_fn(ValueModel) -> Option<Result<ValueModel, RepairErrorModel>>,
)
    requires
        0 <= k < s.len(),
    ensures
        repair_each(s.take(k + 1), f) == (match repair_each(s.take(k), f) {
            Some(Ok(prefix)) => match f(s[k]) {
                Some(Ok(x)) => Some(Ok(prefix.push(x))),
                Some(Err(e)) => Some(Err(e)),
                None => None,
            },
            other => other,
        }),
{
    assert(s.take(k + 1).drop_last() =~= s.take(k));
    assert(s.take(k + 1).last() == s[k]);
}

/// Once the outcome of a prefix is an error or unstated, so is the
/// outcome of the whole.
pub proof fn lemma_repair_each_stuck(
    s: Seq<ValueModel>,
    k: int,
    f: spec_fn(ValueModel) -> Option<Result<ValueModel, RepairErrorModel>>,
)
    requires
        0 <= k <= s.len(),
        !(repair_each(s.take(k), f) matches Some(Ok(_))),
    ensures
        repair_each(s, f) == repair_each(s.take(k), f),
    decreases s.len() - k,
{
    if k == s.len() {
        assert(s.take(k) =~= s);
    } else {
        lemma_repair_each_step(s, k, f);
        lemma_repair_each_stuck(s, k + 1, f);
    }
}

/// How many of the values `s` are not missing.
pub open spec fn present_count(s: Seq<ValueModel>) -> nat
    decreases s.len(),
{
    if s.len() == 0 {
        0
    } else {
        present_count(s.drop_last()) + if s.last() is Null {
            0nat
        } else {
            1nat
        }
    }
}

/// A value that is not missing repairs into the scalar type `p` as a
/// scalar of `p`; the missing value stays missing.
pub proof fn lemma_scalar_fits_kind(v: ValueModel, p: PrimitiveDataType, x: ValueModel)
    requires
        scalar_fits(v, p, Ok(x)),
    ensures
        v is Null ==> x is Null,
        !(v is Null) ==> is_scalar_of(x, p),
{
}

/// Packing repaired items into a list of scalars keeps one scalar for each
/// item that is not missing, in a list of the target type.
pub proof fn lemma_kept_counts(s: Seq<ValueModel>, p: PrimitiveDataType, rs: Seq<ValueModel>)
    requires
        each_fits(s, p, Ok(rs)),
    ensures
        rs.len() == s.len(),
        list_type(kept(rs, p)) == p,
        list_len(kept(rs, p)) == present_count(s),
    decreases s.len(),
{
    if s.len() > 0 {
        lemma_kept_counts(s.drop_last(), p, rs.drop_last());
        lemma_scalar_fits_kind(s.last(), p, rs.last());
        assert(rs.drop_last().len() == s.drop_last().len());
    } else {
        assert(rs =~= Seq::<ValueModel>::empty());
    }
}

/// Once repairing a prefix of the items fails, so does repairing them all,
/// with the same error.
pub proof fn lemma_each_fits_stuck(s: Seq<ValueModel>, k: int, p: PrimitiveDataType, e: RepairErrorModel)
    requires
        0 <= k <= s.len(),
        each_fits(s.take(k), p, Err(e)),
    ensures
        each_fits(s, p, Err(e)),
    decreases s.len() - k,
{
    if k == s.len() {
        assert(s.take(k) =~= s);
    } else {
        assert(s.take(k + 1).drop_last() =~= s.take(k));
        lemma_each_fits_stuck(s, k + 1, p, e);
    }
}

fn empty_list_of(p: PrimitiveDataType) -> (r: PrimitiveValueList)
    ensures
        r@ == empty_list(p),
{
    match p {
        PrimitiveDataType::Bool => PrimitiveValueList::Bool(Vec::new()),
        PrimitiveDataType::U8 => PrimitiveValueList::U8(Vec::new()),
        PrimitiveDataType::U16 => PrimitiveValueList::U16(Vec::new()),
        PrimitiveDataType::U32 => PrimitiveValueList::U32(Vec::new()),
        PrimitiveDataType::U64 => PrimitiveValueList::U64(Vec::new()),
        PrimitiveDataType::I8 => PrimitiveValueList::I8(Vec::new()),
        PrimitiveDataType::I16 => PrimitiveValueList::I16(Vec::new()),
        PrimitiveDataType::I32 => PrimitiveValueList::I32(Vec::new()),
        PrimitiveDataType::I64 => PrimitiveValueList::I64(Vec::new()),
        PrimitiveDataType::F16 => PrimitiveValueList::F16(Vec::new()),
        PrimitiveDataType::F32 => PrimitiveValueList::F32(Vec::new()),
        PrimitiveDataType::F64 => PrimitiveValueList::F64(Vec::new()),
    }
}

/// Appends `v` to `l` when it is a scalar of the list's type.
fn push_kept(l: PrimitiveValueList, v: PyroValue) -> (r: PrimitiveValueList)
    ensures
        r@ == list_push(l@, v@),
{
    match (l, v) {
        (PrimitiveValueList::Bool(mut s), PyroValue::Bool(x)) => {
            s.push(x);
            PrimitiveValueList::Bool(s)
        },
        (PrimitiveValueList::U8(mut s), PyroValue::U8(x)) => {
            s.push(x);
            PrimitiveValueList::U8(s)
        },
        (PrimitiveValueList::U16(mut s), PyroValue::U16(x)) => {
            s.push(x);
            PrimitiveValueList::U16(s)
        },
        (PrimitiveValueList::U32(mut s), PyroValue::U32(x)) => {
            s.push(x);
            PrimitiveValueList::U32(s)
        },
        (PrimitiveValueList::U64(mut s), PyroValue::U64(x)) => {
            s.push(x);
            PrimitiveValueList::U64(s)
        },
        (PrimitiveValueList::I8(mut s), PyroValue::I8(x)) => {
            s.push(x);
            PrimitiveValueList::I8(s)
        },
        (PrimitiveValueList::I16(mut s), PyroValue::I16(x)) => {
            s.push(x);
            PrimitiveValueList::I16(s)
        },
        (PrimitiveValueList::I32(mut s), PyroValue::I32(x)) => {
            s.push(x);
            PrimitiveValueList::I32(s)
        },
        (PrimitiveValueList::I64(mut s), PyroValue::I64(x)) => {
            s.push(x);
            PrimitiveValueList::I64(s)
        },
        (PrimitiveValueList::F16(mut s), PyroValue::F16(x)) => {
            s.push(x);
            PrimitiveValueList::F16(s)
        },
        (PrimitiveValueList::F32(mut s), PyroValue::F32(x)) => {
            s.push(x);
            PrimitiveValueList::F32(s)
        },
        (PrimitiveValueList::F64(mut s), PyroValue::F64(x)) => {
            s.push(x);
            PrimitiveValueList::F64(s)
        },
        (l, _) => l,
    }
}

/// Packs the values `list` into a list of the scalar type `target`: each
/// is repaired into `target`, stopping at the first error; for booleans,
/// `u8`, `i32`, `i64`, `f32` and `f64` the repaired scalars of that type
/// form a list of scalars and missing values are dropped, for the other
/// types the repaired values form a general list.
pub fn pack_primitive_list<O: FloatOps>(list: Vec<PyroValue>, target: PrimitiveDataType, ops: &O) -> (r: Result<PyroValue, ScalarRepairError>)
    ensures
        agrees(r, pack_spec(values_model(list@), target)),
        pack_fits(values_model(list@), target, outcome(r)),
        r is Ok ==> each_can(values_model(list@), target),
        r matches Ok(x) ==> if packs(target) {
            x@ matches ValueModel::PrimitiveList(l) && list_type(l) == target && list_len(l) == present_count(
                values_model(list@),
            )
        } else {
            x@ matches ValueModel::List(rs) && rs.len() == list@.len()
        },
{
    let ghost ms = values_model(list@);
    let ghost f = |v: ValueModel| repair_scalar_spec(v, target);
    proof {
        lemma_values_model(list@);
        assert(ms.take(0) =~= Seq::<ValueModel>::empty());
    }
    let mut results: Vec<PyroValue> = Vec::new();
    for item in it: list
        invariant
            it.seq() == list@,
            ms == values_model(list@),
            ms.len() == list@.len(),
            forall|i: int| 0 <= i < list@.len() ==> #[trigger] ms[i] == list@[i]@,
            f == (|v: ValueModel| repair_scalar_spec(v, target)),
            repair_each(ms.take(it.index() as int), f) matches Some(Ok(rs)) ==> values_model(results@) == rs,
            !(repair_each(ms.take(it.index() as int), f) matches Some(Err(_))),
            each_fits(ms.take(it.index() as int), target, Ok(values_model(results@))),
            each_can(ms.take(it.index() as int), target),
    {
        let ghost k = it.index() as int;
        proof {
            lemma_repair_each_step(ms, k, f);
            assert(ms[k] == item@);
            assert(ms.take(k + 1).drop_last() =~= ms.take(k));
            assert(ms.take(k + 1).last() == ms[k]);
        }
        match item.repair_scalar(target, ops) {
            Ok(v) => {
                proof {
                    lemma_values_model_push(results@, v);
                    assert(values_model(results@).push(v@).drop_last() =~= values_model(results@));
                }
                results.push(v);
            },
            Err(e) => {
                proof {
                    lemma_repair_each_stuck(ms, k + 1, f);
                    assert(each_fits(ms.take(k + 1), target, Err(e@)));
                    lemma_each_fits_stuck(ms, k + 1, target, e@);
                }
                return Err(e);
            },
        }
    }
    proof {
        assert(ms.take(ms.len() as int) =~= ms);
        lemma_kept_counts(ms, target, values_model(results@));
    }
    let keep = match target {
        PrimitiveDataType::I32 | PrimitiveDataType::I64 | PrimitiveDataType::F64
        | PrimitiveDataType::F32 | PrimitiveDataType::Bool | PrimitiveDataType::U8 => true,
        _ => false,
    };
    if !keep {
        proof {
            assert(packed(values_model(results@), target) == ValueModel::List(values_model(results@)));
        }
        return Ok(PyroValue::List(results));
    }
    let ghost rs = values_model(results@);
    proof {
        lemma_values_model(results@);
    }
    let mut acc = empty_list_of(target);
    for v in jt: results
        invariant
            jt.seq() == results@,
            rs == values_model(results@),
            rs.len() == results@.len(),
            forall|i: int| 0 <= i < results@.len() ==> #[trigger] rs[i] == results@[i]@,
            acc@ == kept(rs.take(jt.index() as int), target),
    {
        proof {
            let k = jt.index() as int;
            assert(rs.take(k + 1).drop_last() =~= rs.take(k));
            assert(rs.take(k + 1).last() == v@);
        }
        acc = push_kept(acc, v);
    }
    proof {
        assert(rs.take(rs.len() as int) =~= rs);
        assert(packed(rs, target) == ValueModel::PrimitiveList(acc@));
    }
    Ok(PyroValue::PrimitiveList(acc))
}

// ---------------------------------------------------------------------------
// Lemmas on the recursive specifications
// ---------------------------------------------------------------------------

pub proof fn lemma_repair_all_step(s: Seq<ValueModel>, k: int, t: TypeModel)
    requires
        0 <= k < s.len(),
    ensures
        repair_all(s.take(k + 1), t) == (match repair_all(s.take(k), t) {
            Some(Ok(prefix)) => match repair_spec(s[k], t) {
                Some(Ok(x)) => Some(Ok(prefix.push(x))),
                Some(Err(e)) => Some(Err(e)),
                None => None,
            },
            other => other,
        }),
{
    assert(s.take(k + 1).drop_last() =~= s.take(k));
    assert(s.take(k + 1).last() == s[k]);
}

pub proof fn lemma_repair_all_stuck(s: Seq<ValueModel>, k: int, t: TypeModel)
    requires
        0 <= k <= s.len(),
        !(repair_all(s.take(k), t) matches Some(Ok(_))),
    ensures
        repair_all(s, t) == repair_all(s.take(k), t),
    decreases s.len() - k,
{
    if k == s.len() {
        assert(s.take(k) =~= s);
    } else {
        lemma_repair_all_step(s, k, t);
        lemma_repair_all_stuck(s, k + 1, t);
    }
}

pub proof fn lemma_repair_pairs_step(s: Seq<(ValueModel, ValueModel)>, k: int, kt: TypeModel, vt: TypeModel)
    requires
        0 <= k < s.len(),
    ensures
        repair_pairs(s.take(k + 1), kt, vt) == (match repair_pairs(s.take(k), kt, vt) {
            Some(Ok(prefix)) => match repair_spec(s[k].0, kt) {
                Some(Ok(a)) => match repair_spec(s[k].1, vt) {
                    Some(Ok(b)) => Some(Ok(prefix.push((a, b)))),
                    Some(Err(e)) => Some(Err(e)),
                    None => None,
                },
                Some(Err(e)) => Some(Err(e)),
                None => None,
            },
            other => other,
        }),
{
    assert(s.take(k + 1).drop_last() =~= s.take(k));
    assert(s.take(k + 1).last() == s[k]);
}

pub proof fn lemma_repair_pairs_stuck(s: Seq<(ValueModel, ValueModel)>, k: int, kt: TypeModel, vt: TypeModel)
    requires
        0 <= k <= s.len(),
        !(repair_pairs(s.take(k), kt, vt) matches Some(Ok(_))),
    ensures
        repair_pairs(s, kt, vt) == repair_pairs(s.take(k), kt, vt),
    decreases s.len() - k,
{
    if k == s.len() {
        assert(s.take(k) =~= s);
    } else {
        lemma_repair_pairs_step(s, k, kt, vt);
        lemma_repair_pairs_stuck(s, k + 1, kt, vt);
    }
}

pub proof fn lemma_project_step(items: Seq<(Seq<char>, ValueModel)>, fields: Seq<FieldModel>, k: int)
    requires
        0 <= k < fields.len(),
    ensures
        left_after(items, field_names(fields.take(k + 1))) == (match crate::value::first_key(
            left_after(items, field_names(fields.take(k))),
            fields[k].name,
        ) {
            Some(pos) => swap_removed(left_after(items, field_names(fields.take(k))), pos),
            None => left_after(items, field_names(fields.take(k))),
        }),
        project_spec(items, fields.take(k + 1)) == (match project_spec(items, fields.take(k)) {
            Some(Ok(prefix)) => {
                let f = fields[k];
                let left = left_after(items, field_names(fields.take(k)));
                match crate::value::first_key(left, f.name) {
                    Some(pos) => match repair_spec(left[pos].1, f.data_type) {
                        Some(Ok(x)) => Some(Ok(prefix.push((left[pos].0, x)))),
                        Some(Err(e)) => Some(Err(e)),
                        None => None,
                    },
                    None => if f.nullable {
                        Some(Ok(prefix.push((f.name, ValueModel::Null))))
                    } else {
                        Some(Err(RepairErrorModel::Missing(f.name)))
                    },
                }
            },
            other => other,
        }),
{
    let fk1 = fields.take(k + 1);
    assert(fk1.drop_last() =~= fields.take(k));
    assert(fk1.last() == fields[k]);
    assert(field_names(fk1).drop_last() =~= field_names(fields.take(k)));
    assert(field_names(fk1).last() == fields[k].name);
}

pub proof fn lemma_project_stuck(items: Seq<(Seq<char>, ValueModel)>, fields: Seq<FieldModel>, k: int)
    requires
        0 <= k <= fields.len(),
        !(project_spec(items, fields.take(k)) matches Some(Ok(_))),
    ensures
        project_spec(items, fields) == project_spec(items, fields.take(k)),
    decreases fields.len() - k,
{
    if k == fields.len() {
        assert(fields.take(k) =~= fields);
    } else {
        lemma_project_step(items, fields, k);
        lemma_project_stuck(items, fields, k + 1);
    }
}

// ---------------------------------------------------------------------------
// Repairing nested values
// ---------------------------------------------------------------------------

/// Whether `r` is what the specification of a projection gives, where it
/// gives one.
pub open spec fn row_agrees(r: Result<PyroRow, ScalarRepairError>, s: Option<Result<Seq<(Seq<char>, ValueModel)>, RepairErrorModel>>) -> bool {
    s matches Some(x) ==> (match r {
        Ok(row) => Ok(row@),
        Err(e) => Err(e@),
    }) == x
}

/// The position of the first item named `key` among `items`.
fn find_item(items: &Vec<RowItem>, key: &str) -> (r: Option<usize>)
    ensures
        r matches Some(i) ==> crate::value::first_key(items_model(items@), key@) == Some(i as int)
            && i < items@.len(),
        r is None ==> crate::value::first_key(items_model(items@), key@) is None,
{
    proof {
        lemma_items_model(items@);
        crate::value::lemma_first_key(items_model(items@), key@);
    }
    let mut i: usize = 0;
    while i < items.len()
        invariant
            i <= items@.len(),
            items_model(items@).len() == items@.len(),
            forall|j: int| 0 <= j < items@.len() ==> #[trigger] items_model(items@)[j] == items@[j]@,
            forall|j: int| 0 <= j < i ==> items_model(items@)[j].0 != key@,
        decreases items.len() - i,
    {
        if crate::value::text_eq(items[i].key.as_str(), key) {
            assert(crate::value::is_first_key(items_model(items@), key@, i as int));
            return Some(i);
        }
        i = i + 1;
    }
    None
}

proof fn lemma_items_model_swap_remove(s: Seq<RowItem>, pos: int)
    requires
        0 <= pos < s.len(),
    ensures
        items_model(s.update(pos, s.last()).drop_last()) == swap_removed(items_model(s), pos),
{
    let t = s.update(pos, s.last()).drop_last();
    lemma_items_model(s);
    lemma_items_model(t);
    assert(items_model(t) =~= swap_removed(items_model(s), pos));
}

/// The outcome of a projection, as plain values.
pub open spec fn row_outcome(r: Result<PyroRow, ScalarRepairError>) -> Result<Seq<(Seq<char>, ValueModel)>, RepairErrorModel> {
    match r {
        Ok(row) => Ok(row@),
        Err(e) => Err(e@),
    }
}

/// Once repairing a prefix of a list fails, so does repairing it all.
pub proof fn lemma_all_fits_stuck(s: Seq<ValueModel>, k: int, t: TypeModel, e: RepairErrorModel)
    requires
        0 <= k <= s.len(),
        all_fits(s.take(k), t, Err(e)),
    ensures
        all_fits(s, t, Err(e)),
    decreases s.len() - k,
{
    if k == s.len() {
        assert(s.take(k) =~= s);
    } else {
        assert(s.take(k + 1).drop_last() =~= s.take(k));
        lemma_all_fits_stuck(s, k + 1, t, e);
    }
}

/// Once repairing a prefix of a map fails, so does repairing it all.
pub proof fn lemma_pairs_fits_stuck(
    s: Seq<(ValueModel, ValueModel)>,
    k: int,
    kt: TypeModel,
    vt: TypeModel,
    e: RepairErrorModel,
)
    requires
        0 <= k <= s.len(),
        pairs_fits(s.take(k), kt, vt, Err(e)),
    ensures
        pairs_fits(s, kt, vt, Err(e)),
    decreases s.len() - k,
{
    if k == s.len() {
        assert(s.take(k) =~= s);
    } else {
        assert(s.take(k + 1).drop_last() =~= s.take(k));
        lemma_pairs_fits_stuck(s, k + 1, kt, vt, e);
    }
}

/// Once projecting onto a prefix of the fields fails, so does projecting
/// onto them all.
pub proof fn lemma_project_fits_stuck(
    items: Seq<(Seq<char>, ValueModel)>,
    fields: Seq<FieldModel>,
    k: int,
    e: RepairErrorModel,
)
    requires
        0 <= k <= fields.len(),
        project_fits(items, fields.take(k), Err(e)),
    ensures
        project_fits(items, fields, Err(e)),
    decreases fields.len() - k,
{
    if k == fields.len() {
        assert(fields.take(k) =~= fields);
    } else {
        assert(fields.take(k + 1).drop_last() =~= fields.take(k));
        lemma_project_fits_stuck(items, fields, k + 1, e);
    }
}

impl PyroValue {
    /// The value as a list of scalars of type `inner_type`, of length
    /// `fixed_len` when given: a list of scalars is cast, a general list is
    /// packed, and any other value is repaired into the scalar type and
    /// becomes a list of one, when the length allows it.
    pub fn repair_primitive_list<O: FloatOps>(
        self,
        inner_type: PrimitiveDataType,
        fixed_len: Option<usize>,
        ops: &O,
    ) -> (r: Result<PyroValue, ScalarRepairError>)
        ensures
            agrees(r, plist_spec(self@, inner_type, fixed_len)),
            plist_fits(self@, inner_type, fixed_len, outcome(r)),
            r is Ok ==> plist_can(self@, inner_type, fixed_len),
            plist_made(float_steps(ops), self@, inner_type, outcome(r)),
    {
        match self {
            PyroValue::PrimitiveList(pl) => match pl.repair(inner_type, fixed_len, ops) {
                Ok(l) => Ok(PyroValue::PrimitiveList(l)),
                Err(e) => Err(e),
            },
            PyroValue::List(list) => {
                proof {
                    lemma_values_model(list@);
                }
                if let Some(size) = fixed_len {
                    if list.len() != size {
                        proof {
                            reveal_strlit("FixedSizeList len ");
                            reveal_strlit(" != ");
                        }
                        let text = String::from_str("FixedSizeList len ").concat(
                            int_text(list.len() as i128).as_str(),
                        ).concat(" != ").concat(int_text(size as i128).as_str());
                        assert(text@ =~= fixed_len_text(list@.len() as int, size as int));
                        return Err(ScalarRepairError::OutOfBounds(text, PyroType::PrimitiveFixedList(inner_type, size)));
                    }
                }
                pack_primitive_list(list, inner_type, ops)
            },
            other => {
                let single = match fixed_len {
                    None => true,
                    Some(n) => n == 1,
                };
                if !single {
                    return Err(ScalarRepairError::Cast(PyroType::PrimitiveList(inner_type)));
                }
                let ghost v = other@;
                match other.repair_scalar(inner_type, ops) {
                    Ok(val) => {
                        let one = vec![val];
                        proof {
                            lemma_values_model_push(Seq::<PyroValue>::empty(), val);
                            assert(one@ =~= Seq::<PyroValue>::empty().push(val));
                            assert(values_model(one@) =~= seq![val@]);
                        }
                        let r = pack_primitive_list(one, inner_type, ops);
                        proof {
                            assert(scalar_fits(v, inner_type, Ok(val@)) && pack_fits(seq![val@], inner_type, outcome(r)));
                        }
                        r
                    },
                    Err(e) => Err(e),
                }
            },
        }
    }

    /// The value repaired into `intended_type`: the missing value stays
    /// missing; scalars, text and lists of scalars are repaired as their
    /// own functions do; a timestamp stays a timestamp; a general list is
    /// repaired item by item, and any other value becomes a list of one;
    /// a row is projected onto the fields of a row type; a map is repaired
    /// entry by entry, key before value. Every error is the first one met.
    pub fn repair<O: FloatOps>(self, intended_type: &PyroType, ops: &O) -> (r: Result<PyroValue, ScalarRepairError>)
        ensures
            agrees(r, repair_spec(self@, intended_type@)),
            repair_fits(self@, intended_type@, outcome(r)),
            r is Ok ==> repair_can(self@, intended_type@),
            scalar_made(float_steps(ops), self@, intended_type@, outcome(r)),
        decreases type_size(*intended_type), 1nat,
    {
        if self.is_null() {
            return Ok(PyroValue::Null);
        }
        let ghost v = self@;
        match intended_type {
            PyroType::Null => Ok(PyroValue::Null),
            PyroType::PrimitiveScalar(pt) => self.repair_scalar(*pt, ops),
            PyroType::Str => self.repair_to_utf8(ops),
            PyroType::Timestamp => match self {
                PyroValue::Timestamp(t) => Ok(PyroValue::Timestamp(t)),
                _ => Err(ScalarRepairError::Cast(PyroType::Timestamp)),
            },
            PyroType::PrimitiveList(pt) => self.repair_primitive_list(*pt, None, ops),
            PyroType::PrimitiveFixedList(pt, len) => self.repair_primitive_list(*pt, Some(*len), ops),
            PyroType::List(inner, _) => {
                let inner_ref: &PyroType = &**inner;
                match self {
                    PyroValue::List(items) => {
                        let ghost ms = values_model(items@);
                        let ghost t = inner_ref@;
                        proof {
                            lemma_values_model(items@);
                        }
                        let mut out: Vec<PyroValue> = Vec::new();
                        for item in it: items
                            invariant
                                it.seq() == items@,
                                ms == values_model(items@),
                                ms.len() == items@.len(),
                                forall|i: int| 0 <= i < items@.len() ==> #[trigger] ms[i] == items@[i]@,
                                t == inner_ref@,
                                type_size(*inner_ref) < type_size(*intended_type),
                                repair_spec(self@, intended_type@) == (match repair_all(ms, t) {
                                    Some(Ok(rs)) => Some(Ok(ValueModel::List(rs))),
                                    Some(Err(e)) => Some(Err(e)),
                                    None => None,
                                }),
                                repair_all(ms.take(it.index() as int), t) matches Some(Ok(rs)) ==> values_model(out@) == rs,
                                !(repair_all(ms.take(it.index() as int), t) matches Some(Err(_))),
                                all_fits(ms.take(it.index() as int), t, Ok(values_model(out@))),
                                all_can(ms.take(it.index() as int), t),
                                v == self@,
                                v == ValueModel::List(ms),
                                match intended_type@ {
                                    TypeModel::List(i, _) => *i == t,
                                    _ => false,
                                },
                        {
                            let ghost k = it.index() as int;
                            proof {
                                lemma_repair_all_step(ms, k, t);
                                assert(ms[k] == item@);
                                assert(ms.take(k + 1).drop_last() =~= ms.take(k));
                                assert(ms.take(k + 1).last() == ms[k]);
                            }
                            match item.repair(inner_ref, ops) {
                                Ok(x) => {
                                    proof {
                                        lemma_values_model_push(out@, x);
                                        assert(values_model(out@).push(x@).drop_last() =~= values_model(out@));
                                    }
                                    out.push(x);
                                },
                                Err(e) => {
                                    proof {
                                        lemma_repair_all_stuck(ms, k + 1, t);
                                        assert(all_fits(ms.take(k + 1), t, Err(e@)));
                                        lemma_all_fits_stuck(ms, k + 1, t, e@);
                                    }
                                    return Err(e);
                                },
                            }
                        }
                        proof {
                            assert(ms.take(ms.len() as int) =~= ms);
                        }
                        Ok(PyroValue::List(out))
                    },
                    other => match other.repair(inner_ref, ops) {
                        Ok(x) => {
                            let one = vec![x];
                            proof {
                                lemma_values_model_push(Seq::<PyroValue>::empty(), x);
                                assert(one@ =~= Seq::<PyroValue>::empty().push(x));
                                assert(values_model(one@) =~= seq![x@]);
                                assert(values_model(one@)[0] == x@);
                            }
                            Ok(PyroValue::List(one))
                        },
                        Err(e) => Err(e),
                    },
                }
            },
            PyroType::Group(fields) => match self {
                PyroValue::Group(row) => match row.project_repair(fields.as_slice(), ops) {
                    Ok(projected) => Ok(PyroValue::Group(projected)),
                    Err(e) => Err(e),
                },
                _ => Err(ScalarRepairError::Cast(intended_type.clone())),
            },
            PyroType::KeyValueMap { key, value } => {
                let key_ref: &PyroType = &**key;
                let value_ref: &PyroType = &**value;
                match self {
                    PyroValue::MapInternal(pairs) => {
                        let ghost ms = pairs_model(pairs@);
                        let ghost kt = key_ref@;
                        let ghost vt = value_ref@;
                        proof {
                            lemma_pairs_model(pairs@);
                        }
                        let mut out: Vec<(PyroValue, PyroValue)> = Vec::new();
                        for pair in it: pairs
                            invariant
                                it.seq() == pairs@,
                                ms == pairs_model(pairs@),
                                ms.len() == pairs@.len(),
                                forall|i: int| 0 <= i < pairs@.len() ==> #[trigger] ms[i] == (pairs@[i].0@, pairs@[i].1@),
                                kt == key_ref@,
                                vt == value_ref@,
                                type_size(*key_ref) < type_size(*intended_type),
                                type_size(*value_ref) < type_size(*intended_type),
                                repair_spec(self@, intended_type@) == (match repair_pairs(ms, kt, vt) {
                                    Some(Ok(rs)) => Some(Ok(ValueModel::MapInternal(rs))),
                                    Some(Err(e)) => Some(Err(e)),
                                    None => None,
                                }),
                                repair_pairs(ms.take(it.index() as int), kt, vt) matches Some(Ok(rs)) ==> pairs_model(out@) == rs,
                                !(repair_pairs(ms.take(it.index() as int), kt, vt) matches Some(Err(_))),
                                pairs_fits(ms.take(it.index() as int), kt, vt, Ok(pairs_model(out@))),
                                pairs_can(ms.take(it.index() as int), kt, vt),
                                v == self@,
                                v == ValueModel::MapInternal(ms),
                                match intended_type@ {
                                    TypeModel::KeyValueMap { key, value } => *key == kt && *value == vt,
                                    _ => false,
                                },
                        {
                            let ghost k = it.index() as int;
                            proof {
                                lemma_repair_pairs_step(ms, k, kt, vt);
                                assert(ms[k] == (pair.0@, pair.1@));
                                assert(ms.take(k + 1).drop_last() =~= ms.take(k));
                                assert(ms.take(k + 1).last() == ms[k]);
                            }
                            let (a, b) = pair;
                            let ra = match a.repair(key_ref, ops) {
                                Ok(x) => x,
                                Err(e) => {
                                    proof {
                                        lemma_repair_pairs_stuck(ms, k + 1, kt, vt);
                                        assert(pairs_fits(ms.take(k + 1), kt, vt, Err(e@)));
                                        lemma_pairs_fits_stuck(ms, k + 1, kt, vt, e@);
                                    }
                                    return Err(e);
                                },
                            };
                            let rb = match b.repair(value_ref, ops) {
                                Ok(x) => x,
                                Err(e) => {
                                    proof {
                                        lemma_repair_pairs_stuck(ms, k + 1, kt, vt);
                                        assert(pairs_fits(ms.take(k + 1), kt, vt, Err(e@)));
                                        lemma_pairs_fits_stuck(ms, k + 1, kt, vt, e@);
                                    }
                                    return Err(e);
                                },
                            };
                            proof {
                                lemma_pairs_model_push(out@, (ra, rb));
                                assert(pairs_model(out@).push((ra@, rb@)).drop_last() =~= pairs_model(out@));
                            }
                            out.push((ra, rb));
                        }
                        proof {
                            assert(ms.take(ms.len() as int) =~= ms);
                        }
                        Ok(PyroValue::MapInternal(out))
                    },
                    _ => Err(ScalarRepairError::Cast(intended_type.clone())),
                }
            },
        }
    }
}

impl PyroRow {
    /// The row projected onto `fields` and repaired: each field in order
    /// takes out the first item of its name (the row's last item moving
    /// into its place) and repairs its value into the field's type; a
    /// missing field becomes the missing value when the field may be
    /// missing, and is an error otherwise. Items of other names are
    /// dropped.
    pub fn project_repair<O: FloatOps>(self, fields: &[PyroField], ops: &O) -> (r: Result<PyroRow, ScalarRepairError>)
        ensures
            row_agrees(r, project_spec(self@, fields_model(fields@))),
            project_fits(self@, fields_model(fields@), row_outcome(r)),
            r is Ok ==> project_can(self@, fields_model(fields@)),
        decreases fields_size(fields@), 2nat,
    {
        let ghost start = self@;
        let ghost fm = fields_model(fields@);
        let PyroRow(mut items) = self;
        let mut out: Vec<RowItem> = Vec::new();
        proof {
            crate::typeable::lemma_fields_model_len(fields@);
            assert(fm.take(0) =~= Seq::<FieldModel>::empty());
            assert(field_names(fm.take(0)) =~= Seq::<Seq<char>>::empty());
        }
        for k in 0..fields.len()
            invariant
                start == self@,
                fm == fields_model(fields@),
                fm.len() == fields@.len(),
                items_model(items@) == left_after(start, field_names(fm.take(k as int))),
                project_spec(start, fm.take(k as int)) matches Some(Ok(rs)) ==> items_model(out@) == rs,
                !(project_spec(start, fm.take(k as int)) matches Some(Err(_))),
                project_fits(start, fm.take(k as int), Ok(items_model(out@))),
                project_can(start, fm.take(k as int)),
        {
            let f = &fields[k];
            proof {
                lemma_fields_model_index(fields@, k as int);
                lemma_fields_size_index(fields@, k as int);
                lemma_project_step(start, fm, k as int);
                lemma_items_model(items@);
                assert(fm.take(k + 1).drop_last() =~= fm.take(k as int));
                assert(fm.take(k + 1).last() == fm[k as int]);
            }
            match find_item(&items, f.name.as_str()) {
                Some(pos) => {
                    let ghost before = items@;
                    let item = items.swap_remove(pos);
                    proof {
                        lemma_items_model_swap_remove(before, pos as int);
                        assert(items_model(before)[pos as int] == item@);
                    }
                    let RowItem { key, value } = item;
                    match value.repair(&f.data_type, ops) {
                        Ok(x) => {
                            let it = RowItem { key, value: x };
                            proof {
                                crate::value::lemma_items_model_push(out@, it);
                                assert(items_model(out@).push(it@).drop_last() =~= items_model(out@));
                            }
                            out.push(it);
                        },
                        Err(e) => {
                            proof {
                                lemma_project_stuck(start, fm, k + 1);
                                assert(project_fits(start, fm.take(k + 1), Err(e@)));
                                lemma_project_fits_stuck(start, fm, k + 1, e@);
                            }
                            return Err(e);
                        },
                    }
                },
                None => {
                    if f.nullable {
                        let it = RowItem { key: f.name.clone(), value: PyroValue::Null };
                        proof {
                            crate::value::lemma_items_model_push(out@, it);
                            assert(items_model(out@).push(it@).drop_last() =~= items_model(out@));
                        }
                        out.push(it);
                    } else {
                        let err = ScalarRepairError::Missing(f.name.clone());
                        proof {
                            lemma_project_stuck(start, fm, k + 1);
                            assert(project_fits(start, fm.take(k + 1), Err(err@)));
                            lemma_project_fits_stuck(start, fm, k + 1, err@);
                        }
                        return Err(err);
                    }
                },
            }
        }
        proof {
            assert(fm.take(fm.len() as int) =~= fm);
        }
        Ok(PyroRow(out))
    }
}

/// The missing value stays missing whatever type it is repaired into.
pub proof fn lemma_repair_keeps_missing(t: TypeModel)
    ensures
        repair_spec(ValueModel::Null, t) == Some(Ok::<ValueModel, RepairErrorModel>(ValueModel::Null)),
{
}

// ---------------------------------------------------------------------------
// Repairing a value into its own type
// ---------------------------------------------------------------------------

/// Whether the keys of a row's items are pairwise different.
pub open spec fn distinct_keys(items: Seq<(Seq<char>, ValueModel)>) -> bool {
    forall|i: int, j: int| 0 <= i < j < items.len() ==> items[i].0 != items[j].0
}

/// Whether `v` holds no half-precision number, and every row in it has
/// pairwise different keys.
pub open spec fn plain(v: ValueModel) -> bool
    decreases v,
{
    match v {
        ValueModel::F16(_) => false,
        ValueModel::PrimitiveList(l) => list_type(l) != PrimitiveDataType::F16,
        ValueModel::List(items) => forall|i: int| 0 <= i < items.len() ==> plain(#[trigger] items[i]),
        ValueModel::Group(items) => distinct_keys(items) && forall|i: int|
            0 <= i < items.len() ==> plain(#[trigger] items[i].1),
        ValueModel::MapInternal(pairs) => forall|i: int|
            0 <= i < pairs.len() ==> plain(#[trigger] pairs[i].0) && plain(pairs[i].1),
        _ => true,
    }
}

proof fn lemma_present_type_not_null(x: ValueModel)
    requires
        !(x is Null),
        type_of(x) is Some,
    ensures
        !(type_of(x)->0 is Null),
{
}

/// When a list has an item type, every present item has it.
proof fn lemma_list_item_types(items: Seq<ValueModel>)
    requires
        list_item_type(items) is Some,
    ensures
        forall|i: int|
            0 <= i < items.len() && !(#[trigger] items[i] is Null) ==> type_of(items[i]) == Some(
                (list_item_type(items)->0).0,
            ),
    decreases items.len(),
{
    if items.len() > 0 {
        let prefix = items.drop_last();
        lemma_list_item_types(prefix);
        let (inner, _) = list_item_type(prefix)->0;
        if !(items.last() is Null) {
            lemma_present_type_not_null(items.last());
            if inner is Null {
                assert forall|i: int| 0 <= i < prefix.len() implies #[trigger] prefix[i] is Null by {
                    if !(prefix[i] is Null) {
                        lemma_present_type_not_null(prefix[i]);
                    }
                }
            }
        }
        assert forall|i: int| 0 <= i < items.len() && !(#[trigger] items[i] is Null) implies type_of(items[i])
            == Some((list_item_type(items)->0).0) by {
            if i < items.len() - 1 {
                assert(items[i] == prefix[i]);
            }
        }
    }
}

/// When a map has key and value types, every entry has them or is missing.
proof fn lemma_map_entry_types(pairs: Seq<(ValueModel, ValueModel)>)
    requires
        map_entry_types(pairs) is Some,
    ensures
        forall|i: int|
            0 <= i < pairs.len() ==> (#[trigger] pairs[i].0 is Null || type_of(pairs[i].0) == Some(
                (map_entry_types(pairs)->0).0,
            )) && (pairs[i].1 is Null || type_of(pairs[i].1) == Some((map_entry_types(pairs)->0).1)),
    decreases pairs.len(),
{
    if pairs.len() > 0 {
        let prefix = pairs.drop_last();
        lemma_map_entry_types(prefix);
        let (k, x) = map_entry_types(prefix)->0;
        assert forall|i: int| 0 <= i < prefix.len() implies #[trigger] prefix[i].0 is Null && prefix[i].1 is Null by {
            if !(prefix[i].0 is Null) {
                lemma_present_type_not_null(prefix[i].0);
            }
            if !(prefix[i].1 is Null) {
                lemma_present_type_not_null(prefix[i].1);
            }
        }
        assert forall|i: int| 0 <= i < pairs.len() implies (#[trigger] pairs[i].0 is Null || type_of(pairs[i].0)
            == Some((map_entry_types(pairs)->0).0)) && (pairs[i].1 is Null || type_of(pairs[i].1) == Some(
            (map_entry_types(pairs)->0).1,
        )) by {
            if i < pairs.len() - 1 {
                assert(pairs[i] == prefix[i]);
            }
        }
    }
}

/// The fields of a row's type name its items and carry their types.
proof fn lemma_row_fields(items: Seq<(Seq<char>, ValueModel)>)
    requires
        row_fields(items) is Some,
    ensures
        row_fields(items)->0.len() == items.len(),
        forall|i: int|
            0 <= i < items.len() ==> type_of(#[trigger] items[i].1) is Some && row_fields(items)->0[i]
                == (FieldModel { name: items[i].0, data_type: type_of(items[i].1)->0, nullable: true }),
    decreases items.len(),
{
    if items.len() > 0 {
        let prefix = items.drop_last();
        lemma_row_fields(prefix);
        assert forall|i: int| 0 <= i < items.len() implies type_of(#[trigger] items[i].1) is Some
            && row_fields(items)->0[i] == (FieldModel {
            name: items[i].0,
            data_type: type_of(items[i].1)->0,
            nullable: true,
        }) by {
            if i < items.len() - 1 {
                assert(items[i] == prefix[i]);
            }
        }
    }
}

/// Repairing items that each repair into themselves repairs the list into
/// itself.
proof fn lemma_repair_all_keeps(items: Seq<ValueModel>, t: TypeModel)
    requires
        forall|i: int| 0 <= i < items.len() ==> repair_spec(#[trigger] items[i], t) == Some(
            Ok::<ValueModel, RepairErrorModel>(items[i]),
        ),
    ensures
        repair_all(items, t) == Some(Ok::<Seq<ValueModel>, RepairErrorModel>(items)),
    decreases items.len(),
{
    if items.len() > 0 {
        let prefix = items.drop_last();
        assert forall|i: int| 0 <= i < prefix.len() implies repair_spec(#[trigger] prefix[i], t) == Some(
            Ok::<ValueModel, RepairErrorModel>(prefix[i]),
        ) by {
            assert(prefix[i] == items[i]);
        }
        lemma_repair_all_keeps(prefix, t);
        assert(repair_spec(items[items.len() - 1], t) == Some(Ok::<ValueModel, RepairErrorModel>(items[items.len() - 1])));
        assert(prefix.push(items.last()) =~= items);
    } else {
        assert(items =~= Seq::<ValueModel>::empty());
    }
}

/// Repairing entries that each repair into themselves repairs the map into
/// itself.
proof fn lemma_repair_pairs_keeps(pairs: Seq<(ValueModel, ValueModel)>, kt: TypeModel, vt: TypeModel)
    requires
        forall|i: int|
            0 <= i < pairs.len() ==> repair_spec(#[trigger] pairs[i].0, kt) == Some(
                Ok::<ValueModel, RepairErrorModel>(pairs[i].0),
            ) && repair_spec(pairs[i].1, vt) == Some(Ok::<ValueModel, RepairErrorModel>(pairs[i].1)),
    ensures
        repair_pairs(pairs, kt, vt) == Some(Ok::<Seq<(ValueModel, ValueModel)>, RepairErrorModel>(pairs)),
    decreases pairs.len(),
{
    if pairs.len() > 0 {
        let prefix = pairs.drop_last();
        assert forall|i: int| 0 <= i < prefix.len() implies repair_spec(#[trigger] prefix[i].0, kt) == Some(
            Ok::<ValueModel, RepairErrorModel>(prefix[i].0),
        ) && repair_spec(prefix[i].1, vt) == Some(Ok::<ValueModel, RepairErrorModel>(prefix[i].1)) by {
            assert(prefix[i] == pairs[i]);
        }
        lemma_repair_pairs_keeps(prefix, kt, vt);
        assert(repair_spec(pairs[pairs.len() - 1].0, kt) == Some(Ok::<ValueModel, RepairErrorModel>(pairs[pairs.len() - 1].0)));
        assert(prefix.push(pairs.last()) =~= pairs);
    } else {
        assert(pairs =~= Seq::<(ValueModel, ValueModel)>::empty());
    }
}

/// Whether the elements of `s` are pairwise different.
pub open spec fn no_repeats<A>(s: Seq<A>) -> bool {
    forall|a: int, b: int| 0 <= a < b < s.len() ==> s[a] != s[b]
}

proof fn lemma_swap_removed_contents<A>(s: Seq<A>, p: int)
    requires
        0 <= p < s.len(),
        no_repeats(s),
    ensures
        swap_removed(s, p).len() == s.len() - 1,
        no_repeats(swap_removed(s, p)),
        forall|e: A| swap_removed(s, p).contains(e) <==> (s.contains(e) && e != s[p]),
{
    let r = swap_removed(s, p);
    let n = s.len();
    assert forall|a: int, b: int| 0 <= a < b < r.len() implies r[a] != r[b] by {
        let sa = if a == p { n - 1 } else { a };
        let sb = if b == p { n - 1 } else { b };
        assert(r[a] == s[sa]);
        assert(r[b] == s[sb]);
    }
    assert forall|e: A| r.contains(e) <==> (s.contains(e) && e != s[p]) by {
        if r.contains(e) {
            let a = choose|a: int| 0 <= a < r.len() && r[a] == e;
            let sa = if a == p { n - 1 } else { a };
            assert(s[sa] == e);
        }
        if s.contains(e) && e != s[p] {
            let a = choose|a: int| 0 <= a < s.len() && s[a] == e;
            if a == n - 1 {
                assert(r[p] == e);
            } else {
                assert(r[a] == e);
            }
        }
    }
}

/// Projecting a row with pairwise different keys onto fields that name its
/// items in order, with each value repairing into its field's type as
/// itself: after `k` fields the projection holds the first `k` items and
/// the row is left with the others.
proof fn lemma_project_prefix(items: Seq<(Seq<char>, ValueModel)>, fields: Seq<FieldModel>, k: int)
    requires
        0 <= k <= items.len(),
        distinct_keys(items),
        fields.len() == items.len(),
        forall|k: int| 0 <= k < items.len() ==> (#[trigger] fields[k]).name == items[k].0,
        forall|k: int|
            0 <= k < items.len() ==> repair_spec(#[trigger] items[k].1, fields[k].data_type) == Some(
                Ok::<ValueModel, RepairErrorModel>(items[k].1),
            ),
    ensures
        project_spec(items, fields.take(k)) == Some(
            Ok::<Seq<(Seq<char>, ValueModel)>, RepairErrorModel>(items.take(k)),
        ),
        left_after(items, field_names(fields.take(k))).len() == items.len() - k,
        no_repeats(left_after(items, field_names(fields.take(k)))),
        forall|e: (Seq<char>, ValueModel)|
            left_after(items, field_names(fields.take(k))).contains(e) <==> exists|j: int|
                k <= j < items.len() && items[j] == e,
    decreases k,
{
    let n = items.len() as int;
    assert(no_repeats(items)) by {
        assert forall|a: int, b: int| 0 <= a < b < items.len() implies items[a] != items[b] by {
            assert(items[a].0 != items[b].0);
        }
    }
    if k == 0 {
        assert(fields.take(0) =~= Seq::<FieldModel>::empty());
        assert(field_names(fields.take(0)) =~= Seq::<Seq<char>>::empty());
        assert(items.take(0) =~= Seq::<(Seq<char>, ValueModel)>::empty());
        assert forall|e: (Seq<char>, ValueModel)|
            items.contains(e) <==> exists|j: int| 0 <= j < items.len() && items[j] == e by {}
    } else {
        let m = k - 1;
        lemma_project_prefix(items, fields, m);
        let left = left_after(items, field_names(fields.take(m)));
        let name = fields[m].name;
        lemma_project_step(items, fields, m);
        assert(left.contains(items[m]));
        crate::value::lemma_first_key(left, name);
        let p = first_key(left, name)->0;
        assert(left.contains(left[p]));
        let j = choose|j: int| m <= j < n && items[j] == left[p];
        assert(j == m);
        assert(left[p] == items[m]);
        lemma_swap_removed_contents(left, p);
        assert(items.take(m).push(items[m]) =~= items.take(k));
        assert forall|e: (Seq<char>, ValueModel)|
            swap_removed(left, p).contains(e) <==> exists|j: int| k <= j < n && items[j] == e by {
            if swap_removed(left, p).contains(e) {
                assert(left.contains(e) && e != left[p]);
                assert(exists|j: int| m <= j < n && items[j] == e);
                let j = choose|j: int| m <= j < n && items[j] == e;
                assert(j != m);
            }
            if exists|j: int| k <= j < n && items[j] == e {
                let j = choose|j: int| k <= j < n && items[j] == e;
                assert(items[j] != items[m]);
                assert(left.contains(e));
            }
        }
    }
}

proof fn lemma_project_keeps(items: Seq<(Seq<char>, ValueModel)>, fields: Seq<FieldModel>)
    requires
        distinct_keys(items),
        fields.len() == items.len(),
        forall|k: int| 0 <= k < items.len() ==> (#[trigger] fields[k]).name == items[k].0,
        forall|k: int|
            0 <= k < items.len() ==> repair_spec(#[trigger] items[k].1, fields[k].data_type) == Some(
                Ok::<ValueModel, RepairErrorModel>(items[k].1),
            ),
    ensures
        project_spec(items, fields) == Some(Ok::<Seq<(Seq<char>, ValueModel)>, RepairErrorModel>(items)),
{
    lemma_project_prefix(items, fields, items.len() as int);
    assert(fields.take(items.len() as int) =~= fields);
    assert(items.take(items.len() as int) =~= items);
}

/// A value without half-precision numbers and whose rows have pairwise
/// different keys, repaired into its own column type, is itself.
pub proof fn lemma_repair_into_own_type(v: ValueModel)
    requires
        plain(v),
        type_of(v) is Some,
    ensures
        repair_spec(v, type_of(v)->0) == Some(Ok::<ValueModel, RepairErrorModel>(v)),
    decreases v,
{
    match v {
        ValueModel::List(items) => {
            let inner = (list_item_type(items)->0).0;
            lemma_list_item_types(items);
            assert forall|i: int| 0 <= i < items.len() implies repair_spec(#[trigger] items[i], inner) == Some(
                Ok::<ValueModel, RepairErrorModel>(items[i]),
            ) by {
                if !(items[i] is Null) {
                    lemma_repair_into_own_type(items[i]);
                }
            }
            lemma_repair_all_keeps(items, inner);
        },
        ValueModel::Group(items) => {
            let fields = row_fields(items)->0;
            lemma_row_fields(items);
            assert forall|k: int| 0 <= k < items.len() implies repair_spec(#[trigger] items[k].1, fields[k].data_type)
                == Some(Ok::<ValueModel, RepairErrorModel>(items[k].1)) by {
                lemma_repair_into_own_type(items[k].1);
            }
            assert forall|k: int| 0 <= k < items.len() implies (#[trigger] fields[k]).name == items[k].0 by {
                assert(type_of(items[k].1) is Some);
            }
            lemma_project_keeps(items, fields);
        },
        ValueModel::MapInternal(pairs) => {
            let (k, x) = map_entry_types(pairs)->0;
            let kt = if k is Null { TypeModel::Str } else { k };
            lemma_map_entry_types(pairs);
            assert forall|i: int| 0 <= i < pairs.len() implies repair_spec(#[trigger] pairs[i].0, kt) == Some(
                Ok::<ValueModel, RepairErrorModel>(pairs[i].0),
            ) && repair_spec(pairs[i].1, x) == Some(Ok::<ValueModel, RepairErrorModel>(pairs[i].1)) by {
                if !(pairs[i].0 is Null) {
                    lemma_repair_into_own_type(pairs[i].0);
                }
                if !(pairs[i].1 is Null) {
                    lemma_repair_into_own_type(pairs[i].1);
                }
            }
            lemma_repair_pairs_keeps(pairs, kt, x);
        },
        _ => {
            if crate::value_type::scalar_type_of(v) is Some {
                crate::repair::lemma_scalar_repair_keeps_own_type(v, crate::value_type::scalar_type_of(v)->0);
            }
        },
    }
}

} // verus!
