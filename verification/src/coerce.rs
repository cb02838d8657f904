//! Coercing Rust values into values of a requested column type: integers
//! are range-checked, text is parsed, booleans become numbers or text, and
//! lists of scalars are cast item by item. Where a floating-point step
//! decides, the contracts state the type of the result and the step of
//! [`FloatOps`] it comes from (and, for text, that the only error is that
//! the text spells no number).
use vstd::prelude::*;
use vstd::string::StringExecFns;

use crate::nested_repair::{cast_made, fixed_len_text, list_fits, list_outcome, list_repair_spec};
use crate::repair::{
    agrees, bool_word, decimal, float_model, float_one_bits, int_bounds, int_cast,
    int_cast_value, int_model, int_text, int_value, is_signed, parse_bool_word, parse_int,
    parse_integer, float_steps, int_as_float, is_one_f32, is_one_f64, is_scalar_of, outcome, text_as_float, FloatOps, FloatStep,
    RepairErrorModel, ScalarRepairError,
};
use crate::typeable::{PrimitiveDataType, PyroType, TypeModel};
use crate::value::{is_integer_type, list_len, list_type, ListModel, PrimitiveValueList, PyroValue, ValueModel};

verus! {

/// The text of the error for a coercion into `f16`.
pub open spec fn f16_coerce_text() -> Seq<char> {
    seq!['f', '1', '6', ' ', 'c', 'o', 'e', 'r', 'c', 'e']
}

/// The text of the error for parsing text as `f16`.
pub open spec fn f16_parse_text() -> Seq<char> {
    seq!['f', '1', '6', ' ', 'p', 'a', 'r', 's', 'e']
}

/// The outcome of coercing the integer `x` into `target`; `None` where it
/// goes through floating point.
pub open spec fn int_coerce_spec(x: int, target: TypeModel) -> Option<Result<ValueModel, RepairErrorModel>> {
    match target {
        TypeModel::PrimitiveScalar(pt) => if pt == PrimitiveDataType::Bool {
            Some(Ok(ValueModel::Bool(x != 0)))
        } else if is_integer_type(pt) {
            Some(int_cast(x, pt))
        } else if pt == PrimitiveDataType::F16 {
            Some(Err(RepairErrorModel::Unimplemented(f16_coerce_text())))
        } else {
            None
        },
        TypeModel::Str => Some(Ok(ValueModel::Str(decimal(x)))),
        TypeModel::Null => Some(Ok(ValueModel::Null)),
        _ => Some(Err(RepairErrorModel::Cast(target))),
    }
}

/// The outcome of coercing the boolean `b` into `target`.
pub open spec fn bool_coerce_spec(b: bool, target: TypeModel) -> Result<ValueModel, RepairErrorModel> {
    match target {
        TypeModel::PrimitiveScalar(pt) => if pt == PrimitiveDataType::Bool {
            Ok(ValueModel::Bool(b))
        } else if is_integer_type(pt) {
            Ok(int_model(pt, if b { 1 } else { 0 }))
        } else if pt == PrimitiveDataType::F16 {
            Err(RepairErrorModel::Unimplemented(f16_coerce_text()))
        } else {
            Ok(float_model(pt, if b { float_one_bits(pt) } else { 0 }))
        },
        TypeModel::Str => Ok(
            ValueModel::Str(
                if b {
                    seq!['t', 'r', 'u', 'e']
                } else {
                    seq!['f', 'a', 'l', 's', 'e']
                },
            ),
        ),
        TypeModel::Null => Ok(ValueModel::Null),
        _ => Err(RepairErrorModel::Cast(target)),
    }
}

/// The outcome of coercing the text `s` into `target`; `None` where it is
/// parsed as a floating-point number.
pub open spec fn str_coerce_spec(s: Seq<char>, target: TypeModel) -> Option<Result<ValueModel, RepairErrorModel>> {
    match target {
        TypeModel::Str => Some(Ok(ValueModel::Str(s))),
        TypeModel::PrimitiveScalar(pt) => if pt == PrimitiveDataType::Bool {
            Some(
                match bool_word(s) {
                    Some(b) => Ok(ValueModel::Bool(b)),
                    None => Err(RepairErrorModel::ParseError(s, TypeModel::PrimitiveScalar(pt))),
                },
            )
        } else if is_integer_type(pt) {
            Some(
                match parse_int(s, is_signed(pt), int_bounds(pt).0, int_bounds(pt).1) {
                    Some(n) => Ok(int_model(pt, n)),
                    None => Err(RepairErrorModel::ParseError(s, TypeModel::PrimitiveScalar(pt))),
                },
            )
        } else if pt == PrimitiveDataType::F16 {
            Some(Err(RepairErrorModel::Unimplemented(f16_parse_text())))
        } else {
            None
        },
        TypeModel::Null => Some(Ok(ValueModel::Null)),
        _ => Some(Err(RepairErrorModel::Cast(target))),
    }
}

/// The outcome of coercing the list of scalars `l` of type `src` into
/// `target`: a list of its own type is kept, one of the same type and a
/// fixed length must have that length, and other lists of scalars are cast
/// item by item.
pub open spec fn list_coerce_spec(l: ListModel, src: PrimitiveDataType, target: TypeModel) -> Option<Result<ValueModel, RepairErrorModel>> {
    match target {
        TypeModel::PrimitiveList(pt) => if pt == src {
            Some(Ok(ValueModel::PrimitiveList(l)))
        } else {
            match list_repair_spec(l, pt, None) {
                Some(Ok(l2)) => Some(Ok(ValueModel::PrimitiveList(l2))),
                Some(Err(e)) => Some(Err(e)),
                None => None,
            }
        },
        TypeModel::PrimitiveFixedList(pt, size) => if pt == src {
            if list_len(l) != size {
                Some(Err(RepairErrorModel::OutOfBounds(fixed_len_text(list_len(l) as int, size as int), target)))
            } else {
                Some(Ok(ValueModel::PrimitiveList(l)))
            }
        } else {
            match list_repair_spec(l, pt, Some(size)) {
                Some(Ok(l2)) => Some(Ok(ValueModel::PrimitiveList(l2))),
                Some(Err(e)) => Some(Err(e)),
                None => None,
            }
        },
        _ => Some(Err(RepairErrorModel::Cast(target))),
    }
}

/// Whether `o` can be the outcome of coercing the integer `x` into
/// `target`: the stated outcome, or, where a conversion into a
/// floating-point type decides, a scalar of that type.
pub open spec fn int_coerce_fits(x: int, target: TypeModel, o: Result<ValueModel, RepairErrorModel>) -> bool {
    match int_coerce_spec(x, target) {
        Some(y) => o == y,
        None => match target {
            TypeModel::PrimitiveScalar(p) => o matches Ok(v) && is_scalar_of(v, p),
            _ => false,
        },
    }
}

/// Whether `o` can be the outcome of coercing the text `s` into `target`:
/// the stated outcome, or, where the text is read as a floating-point
/// number, a scalar of that type or the error that the text spells none.
pub open spec fn str_coerce_fits(s: Seq<char>, target: TypeModel, o: Result<ValueModel, RepairErrorModel>) -> bool {
    match str_coerce_spec(s, target) {
        Some(y) => o == y,
        None => match target {
            TypeModel::PrimitiveScalar(p) => match o {
                Ok(v) => is_scalar_of(v, p),
                Err(e) => e == RepairErrorModel::ParseError(s, target),
            },
            _ => false,
        },
    }
}

/// Whether `o` can be the outcome of coercing the list of scalars `l` of
/// type `src` into `target`: the stated outcome, or, where the items are
/// cast through floating point, a list of the target's item type as long
/// as `l`.
pub open spec fn list_coerce_fits(l: ListModel, src: PrimitiveDataType, target: TypeModel, o: Result<ValueModel, RepairErrorModel>) -> bool {
    match list_coerce_spec(l, src, target) {
        Some(y) => o == y,
        None => match target {
            TypeModel::PrimitiveList(pt) | TypeModel::PrimitiveFixedList(pt, _) => o matches Ok(
                ValueModel::PrimitiveList(l2),
            ) && list_type(l2) == pt && list_len(l2) == list_len(l),
            _ => false,
        },
    }
}

/// Whether `o` is what steps of `steps` make of the integer `x` coerced
/// into `target`: the nearest number where `target` is a floating-point
/// type.
pub open spec fn int_coerce_made(steps: spec_fn(FloatStep) -> bool, x: int, target: TypeModel, o: Result<ValueModel, RepairErrorModel>) -> bool {
    target matches TypeModel::PrimitiveScalar(p) ==> int_as_float(steps, x, p, o)
}

/// Whether `o` is what a step of `steps` reads from the text `s` coerced
/// into `target`, where `target` is a floating-point type.
pub open spec fn str_coerce_made(steps: spec_fn(FloatStep) -> bool, s: Seq<char>, target: TypeModel, o: Result<ValueModel, RepairErrorModel>) -> bool {
    target matches TypeModel::PrimitiveScalar(p) ==> text_as_float(steps, s, p, o)
}

/// Whether `o` is what steps of `steps` make of the list `l` of type `src`
/// coerced into lists of another scalar type: the cast that `cast_made`
/// describes.
pub open spec fn list_coerce_made(steps: spec_fn(FloatStep) -> bool, l: ListModel, src: PrimitiveDataType, target: TypeModel, o: Result<ValueModel, RepairErrorModel>) -> bool {
    match target {
        TypeModel::PrimitiveList(pt) | TypeModel::PrimitiveFixedList(pt, _) => pt != src ==> (
            o matches Ok(ValueModel::PrimitiveList(m)) ==> cast_made(steps, l, pt, Ok(m))),
        _ => true,
    }
}

/// Coerces the integer `x` into `target`.
fn int_try_coerce<O: FloatOps>(x: i128, target: &PyroType, ops: &O) -> (r: Result<PyroValue, ScalarRepairError>)
    requires
        -0x1_0000_0000_0000_0000 < x < 0x1_0000_0000_0000_0000,
    ensures
        agrees(r, int_coerce_spec(x as int, target@)),
        int_coerce_fits(x as int, target@, outcome(r)),
        int_coerce_made(float_steps(ops), x as int, target@, outcome(r)),
{
    let r = match target {
        PyroType::PrimitiveScalar(pt) => match pt {
            PrimitiveDataType::Bool => Ok(PyroValue::Bool(x != 0)),
            PrimitiveDataType::F16 => {
                proof { reveal_strlit("f16 coerce"); }
                let text = String::from_str("f16 coerce");
                assert(text@ =~= f16_coerce_text());
                Err(ScalarRepairError::Unimplemented(text))
            },
            PrimitiveDataType::F32 => Ok(PyroValue::F32(ops.f32_from_int(x))),
            PrimitiveDataType::F64 => Ok(PyroValue::F64(ops.f64_from_int(x))),
            _ => int_cast_value(x, *pt),
        },
        PyroType::Str => Ok(PyroValue::Str(int_text(x))),
        PyroType::Null => Ok(PyroValue::Null),
        _ => Err(ScalarRepairError::Cast(target.clone())),
    };
    proof {
        reveal(float_steps);
        if target@ == TypeModel::PrimitiveScalar(PrimitiveDataType::F32) {
            assert(float_steps(ops)(FloatStep::FromInt32(x as int, r->Ok_0->F32_0)));
        }
        if target@ == TypeModel::PrimitiveScalar(PrimitiveDataType::F64) {
            assert(float_steps(ops)(FloatStep::FromInt64(x as int, r->Ok_0->F64_0)));
        }
    }
    r
}

/// Coerces the boolean `b` into `target`.
fn bool_try_coerce(b: bool, target: &PyroType) -> (r: Result<PyroValue, ScalarRepairError>)
    ensures
        agrees(r, Some(bool_coerce_spec(b, target@))),
{
    match target {
        PyroType::PrimitiveScalar(pt) => match pt {
            PrimitiveDataType::Bool => Ok(PyroValue::Bool(b)),
            PrimitiveDataType::F16 => {
                proof { reveal_strlit("f16 coerce"); }
                let text = String::from_str("f16 coerce");
                assert(text@ =~= f16_coerce_text());
                Err(ScalarRepairError::Unimplemented(text))
            },
            PrimitiveDataType::F32 => Ok(PyroValue::F32(if b { 0x3f80_0000 } else { 0 })),
            PrimitiveDataType::F64 => Ok(PyroValue::F64(if b { 0x3ff0_0000_0000_0000 } else { 0 })),
            _ => Ok(int_value(*pt, if b { 1 } else { 0 })),
        },
        PyroType::Str => if b {
            proof { reveal_strlit("true"); }
            assert("true"@ =~= seq!['t', 'r', 'u', 'e']);
            Ok(PyroValue::Str(String::from_str("true")))
        } else {
            proof { reveal_strlit("false"); }
            assert("false"@ =~= seq!['f', 'a', 'l', 's', 'e']);
            Ok(PyroValue::Str(String::from_str("false")))
        },
        PyroType::Null => Ok(PyroValue::Null),
        _ => Err(ScalarRepairError::Cast(target.clone())),
    }
}

/// Coerces the text `s` into `target`: the value of its own type is the
/// text itself, booleans and integers are parsed, and floating-point
/// numbers are parsed by `ops`.
pub fn str_try_coerce_to<O: FloatOps>(s: &str, target: &PyroType, ops: &O) -> (r: Result<PyroValue, ScalarRepairError>)
    ensures
        agrees(r, str_coerce_spec(s@, target@)),
        str_coerce_fits(s@, target@, outcome(r)),
        str_coerce_made(float_steps(ops), s@, target@, outcome(r)),
{
    match target {
        PyroType::Str => Ok(PyroValue::Str(s.to_owned())),
        PyroType::PrimitiveScalar(pt) => match pt {
            PrimitiveDataType::Bool => match parse_bool_word(s) {
                Some(b) => Ok(PyroValue::Bool(b)),
                None => Err(ScalarRepairError::ParseError(s.to_owned(), PyroType::PrimitiveScalar(*pt))),
            },
            PrimitiveDataType::F16 => {
                proof { reveal_strlit("f16 parse"); }
                let text = String::from_str("f16 parse");
                assert(text@ =~= f16_parse_text());
                Err(ScalarRepairError::Unimplemented(text))
            },
            PrimitiveDataType::F32 => {
                let y = ops.parse_f32(s);
                proof { reveal(float_steps); }
                assert(float_steps(ops)(FloatStep::Parse32(s@, y)));
                match y {
                    Some(b) => Ok(PyroValue::F32(b)),
                    None => Err(ScalarRepairError::ParseError(s.to_owned(), PyroType::PrimitiveScalar(*pt))),
                }
            },
            PrimitiveDataType::F64 => {
                let y = ops.parse_f64(s);
                proof { reveal(float_steps); }
                assert(float_steps(ops)(FloatStep::Parse64(s@, y)));
                match y {
                    Some(b) => Ok(PyroValue::F64(b)),
                    None => Err(ScalarRepairError::ParseError(s.to_owned(), PyroType::PrimitiveScalar(*pt))),
                }
            },
            _ => {
                let (lo, hi) = match pt {
                    PrimitiveDataType::I8 => (-0x80i128, 0x7fi128),
                    PrimitiveDataType::I16 => (-0x8000i128, 0x7fffi128),
                    PrimitiveDataType::I32 => (-0x8000_0000i128, 0x7fff_ffffi128),
                    PrimitiveDataType::I64 => (-0x8000_0000_0000_0000i128, 0x7fff_ffff_ffff_ffffi128),
                    PrimitiveDataType::U8 => (0i128, 0xffi128),
                    PrimitiveDataType::U16 => (0i128, 0xffffi128),
                    PrimitiveDataType::U32 => (0i128, 0xffff_ffffi128),
                    _ => (0i128, 0xffff_ffff_ffff_ffffi128),
                };
                let signed = match pt {
                    PrimitiveDataType::I8 | PrimitiveDataType::I16 | PrimitiveDataType::I32
                    | PrimitiveDataType::I64 => true,
                    _ => false,
                };
                match parse_integer(s, signed, lo, hi) {
                    Some(n) => Ok(int_value(*pt, n)),
                    None => Err(ScalarRepairError::ParseError(s.to_owned(), PyroType::PrimitiveScalar(*pt))),
                }
            },
        },
        PyroType::Null => Ok(PyroValue::Null),
        _ => Err(ScalarRepairError::Cast(target.clone())),
    }
}

/// Coerces the list of scalars `list`, of type `src_prim`, into `target`.
pub fn prim_slice_try_coerce<O: FloatOps>(
    list: PrimitiveValueList,
    src_prim: PrimitiveDataType,
    target: &PyroType,
    ops: &O,
) -> (r: Result<PyroValue, ScalarRepairError>)
    ensures
        agrees(r, list_coerce_spec(list@, src_prim, target@)),
        list_coerce_fits(list@, src_prim, target@, outcome(r)),
        list_coerce_made(float_steps(ops), list@, src_prim, target@, outcome(r)),
{
    match target {
        PyroType::PrimitiveList(pt) => {
            if *pt == src_prim {
                return Ok(PyroValue::PrimitiveList(list));
            }
            match list.repair(*pt, None, ops) {
                Ok(l) => Ok(PyroValue::PrimitiveList(l)),
                Err(e) => Err(e),
            }
        },
        PyroType::PrimitiveFixedList(pt, size) => {
            if *pt == src_prim {
                let actual = prim_list_len(&list);
                if actual != *size {
                    proof {
                        reveal_strlit("FixedSizeList len ");
                        reveal_strlit(" != ");
                    }
                    let text = String::from_str("FixedSizeList len ").concat(
                        int_text(actual as i128).as_str(),
                    ).concat(" != ").concat(int_text(*size as i128).as_str());
                    assert(text@ =~= fixed_len_text(actual as int, *size as int));
                    return Err(ScalarRepairError::OutOfBounds(text, target.clone()));
                }
                return Ok(PyroValue::PrimitiveList(list));
            }
            match list.repair(*pt, Some(*size), ops) {
                Ok(l) => Ok(PyroValue::PrimitiveList(l)),
                Err(e) => Err(e),
            }
        },
        _ => Err(ScalarRepairError::Cast(target.clone())),
    }
}

/// The number of items of a list of scalars.
pub fn prim_list_len(list: &PrimitiveValueList) -> (r: usize)
    ensures
        r == list_len(list@),
{
    list.len()
}

/// A Rust type whose values become column values: its natural column
/// type, the value it stands for, and coercion into other column types.
pub trait IntoPyroValue {
    spec fn spec_data_type() -> PyroType;

    spec fn spec_coerce(&self) -> ValueModel;

    spec fn spec_try_coerce(&self, target: TypeModel) -> Option<Result<ValueModel, RepairErrorModel>>;

    /// Whether `o` can be the outcome of coercing the value into `target`,
    /// also where floating point decides.
    spec fn spec_coerce_fits(&self, target: TypeModel, o: Result<ValueModel, RepairErrorModel>) -> bool;

    /// Whether `o` is what steps of `steps` make of the value coerced into
    /// `target`, where a floating-point step decides.
    spec fn spec_coerce_made(&self, steps: spec_fn(FloatStep) -> bool, target: TypeModel, o: Result<ValueModel, RepairErrorModel>) -> bool;

    /// The natural column type of the Rust type.
    fn data_type() -> (r: PyroType)
        ensures
            r == Self::spec_data_type(),
    ;

    /// The value in the type's natural column type.
    fn coerce(&self) -> (r: PyroValue)
        ensures
            r@ == self.spec_coerce(),
    ;

    /// The value coerced into `target`.
    fn try_coerce_to<O: FloatOps>(&self, target: &PyroType, ops: &O) -> (r: Result<PyroValue, ScalarRepairError>)
        ensures
            agrees(r, self.spec_try_coerce(target@)),
            self.spec_coerce_fits(target@, outcome(r)),
            self.spec_coerce_made(float_steps(ops), target@, outcome(r)),
    ;
}

impl IntoPyroValue for i8 {
    open spec fn spec_data_type() -> PyroType {
        PyroType::PrimitiveScalar(PrimitiveDataType::I8)
    }

    open spec fn spec_coerce(&self) -> ValueModel {
        ValueModel::I8(*self)
    }

    open spec fn spec_try_coerce(&self, target: TypeModel) -> Option<Result<ValueModel, RepairErrorModel>> {
        int_coerce_spec(*self as int, target)
    }

    open spec fn spec_coerce_fits(&self, target: TypeModel, o: Result<ValueModel, RepairErrorModel>) -> bool {
        int_coerce_fits(*self as int, target, o)
    }

    open spec fn spec_coerce_made(&self, steps: spec_fn(FloatStep) -> bool, target: TypeModel, o: Result<ValueModel, RepairErrorModel>) -> bool {
        int_coerce_made(steps, *self as int, target, o)
    }

    fn data_type() -> (r: PyroType) {
        PyroType::PrimitiveScalar(PrimitiveDataType::I8)
    }

    fn coerce(&self) -> (r: PyroValue) {
        PyroValue::I8(*self)
    }

    fn try_coerce_to<O: FloatOps>(&self, target: &PyroType, ops: &O) -> (r: Result<PyroValue, ScalarRepairError>) {
        int_try_coerce(*self as i128, target, ops)
    }
}

impl IntoPyroValue for i16 {
    open spec fn spec_data_type() -> PyroType {
        PyroType::PrimitiveScalar(PrimitiveDataType::I16)
    }

    open spec fn spec_coerce(&self) -> ValueModel {
        ValueModel::I16(*self)
    }

    open spec fn spec_try_coerce(&self, target: TypeModel) -> Option<Result<ValueModel, RepairErrorModel>> {
        int_coerce_spec(*self as int, target)
    }

    open spec fn spec_coerce_fits(&self, target: TypeModel, o: Result<ValueModel, RepairErrorModel>) -> bool {
        int_coerce_fits(*self as int, target, o)
    }

    open spec fn spec_coerce_made(&self, steps: spec_fn(FloatStep) -> bool, target: TypeModel, o: Result<ValueModel, RepairErrorModel>) -> bool {
        int_coerce_made(steps, *self as int, target, o)
    }

    fn data_type() -> (r: PyroType) {
        PyroType::PrimitiveScalar(PrimitiveDataType::I16)
    }

    fn coerce(&self) -> (r: PyroValue) {
        PyroValue::I16(*self)
    }

    fn try_coerce_to<O: FloatOps>(&self, target: &PyroType, ops: &O) -> (r: Result<PyroValue, ScalarRepairError>) {
        int_try_coerce(*self as i128, target, ops)
    }
}

impl IntoPyroValue for i32 {
    open spec fn spec_data_type() -> PyroType {
        PyroType::PrimitiveScalar(PrimitiveDataType::I32)
    }

    open spec fn spec_coerce(&self) -> ValueModel {
        ValueModel::I32(*self)
    }

    open spec fn spec_try_coerce(&self, target: TypeModel) -> Option<Result<ValueModel, RepairErrorModel>> {
        int_coerce_spec(*self as int, target)
    }

    open spec fn spec_coerce_fits(&self, target: TypeModel, o: Result<ValueModel, RepairErrorModel>) -> bool {
        int_coerce_fits(*self as int, target, o)
    }

    open spec fn spec_coerce_made(&self, steps: spec_fn(FloatStep) -> bool, target: TypeModel, o: Result<ValueModel, RepairErrorModel>) -> bool {
        int_coerce_made(steps, *self as int, target, o)
    }

    fn data_type() -> (r: PyroType) {
        PyroType::PrimitiveScalar(PrimitiveDataType::I32)
    }

    fn coerce(&self) -> (r: PyroValue) {
        PyroValue::I32(*self)
    }

    fn try_coerce_to<O: FloatOps>(&self, target: &PyroType, ops: &O) -> (r: Result<PyroValue, ScalarRepairError>) {
        int_try_coerce(*self as i128, target, ops)
    }
}

impl IntoPyroValue for i64 {
    open spec fn spec_data_type() -> PyroType {
        PyroType::PrimitiveScalar(PrimitiveDataType::I64)
    }

    open spec fn spec_coerce(&self) -> ValueModel {
        ValueModel::I64(*self)
    }

    open spec fn spec_try_coerce(&self, target: TypeModel) -> Option<Result<ValueModel, RepairErrorModel>> {
        int_coerce_spec(*self as int, target)
    }

    open spec fn spec_coerce_fits(&self, target: TypeModel, o: Result<ValueModel, RepairErrorModel>) -> bool {
        int_coerce_fits(*self as int, target, o)
    }

    open spec fn spec_coerce_made(&self, steps: spec_fn(FloatStep) -> bool, target: TypeModel, o: Result<ValueModel, RepairErrorModel>) -> bool {
        int_coerce_made(steps, *self as int, target, o)
    }

    fn data_type() -> (r: PyroType) {
        PyroType::PrimitiveScalar(PrimitiveDataType::I64)
    }

    fn coerce(&self) -> (r: PyroValue) {
        PyroValue::I64(*self)
    }

    fn try_coerce_to<O: FloatOps>(&self, target: &PyroType, ops: &O) -> (r: Result<PyroValue, ScalarRepairError>) {
        int_try_coerce(*self as i128, target, ops)
    }
}

impl IntoPyroValue for u8 {
    open spec fn spec_data_type() -> PyroType {
        PyroType::PrimitiveScalar(PrimitiveDataType::U8)
    }

    open spec fn spec_coerce(&self) -> ValueModel {
        ValueModel::U8(*self)
    }

    open spec fn spec_try_coerce(&self, target: TypeModel) -> Option<Result<ValueModel, RepairErrorModel>> {
        int_coerce_spec(*self as int, target)
    }

    open spec fn spec_coerce_fits(&self, target: TypeModel, o: Result<ValueModel, RepairErrorModel>) -> bool {
        int_coerce_fits(*self as int, target, o)
    }

    open spec fn spec_coerce_made(&self, steps: spec_fn(FloatStep) -> bool, target: TypeModel, o: Result<ValueModel, RepairErrorModel>) -> bool {
        int_coerce_made(steps, *self as int, target, o)
    }

    fn data_type() -> (r: PyroType) {
        PyroType::PrimitiveScalar(PrimitiveDataType::U8)
    }

    fn coerce(&self) -> (r: PyroValue) {
        PyroValue::U8(*self)
    }

    fn try_coerce_to<O: FloatOps>(&self, target: &PyroType, ops: &O) -> (r: Result<PyroValue, ScalarRepairError>) {
        int_try_coerce(*self as i128, target, ops)
    }
}

impl IntoPyroValue for u16 {
    open spec fn spec_data_type() -> PyroType {
        PyroType::PrimitiveScalar(PrimitiveDataType::U16)
    }

    open spec fn spec_coerce(&self) -> ValueModel {
        ValueModel::U16(*self)
    }

    open spec fn spec_try_coerce(&self, target: TypeModel) -> Option<Result<ValueModel, RepairErrorModel>> {
        int_coerce_spec(*self as int, target)
    }

    open spec fn spec_coerce_fits(&self, target: TypeModel, o: Result<ValueModel, RepairErrorModel>) -> bool {
        int_coerce_fits(*self as int, target, o)
    }

    open spec fn spec_coerce_made(&self, steps: spec_fn(FloatStep) -> bool, target: TypeModel, o: Result<ValueModel, RepairErrorModel>) -> bool {
        int_coerce_made(steps, *self as int, target, o)
    }

    fn data_type() -> (r: PyroType) {
        PyroType::PrimitiveScalar(PrimitiveDataType::U16)
    }

    fn coerce(&self) -> (r: PyroValue) {
        PyroValue::U16(*self)
    }

    fn try_coerce_to<O: FloatOps>(&self, target: &PyroType, ops: &O) -> (r: Result<PyroValue, ScalarRepairError>) {
        int_try_coerce(*self as i128, target, ops)
    }
}

impl IntoPyroValue for u32 {
    open spec fn spec_data_type() -> PyroType {
        PyroType::PrimitiveScalar(PrimitiveDataType::U32)
    }

    open spec fn spec_coerce(&self) -> ValueModel {
        ValueModel::U32(*self)
    }

    open spec fn spec_try_coerce(&self, target: TypeModel) -> Option<Result<ValueModel, RepairErrorModel>> {
        int_coerce_spec(*self as int, target)
    }

    open spec fn spec_coerce_fits(&self, target: TypeModel, o: Result<ValueModel, RepairErrorModel>) -> bool {
        int_coerce_fits(*self as int, target, o)
    }

    open spec fn spec_coerce_made(&self, steps: spec_fn(FloatStep) -> bool, target: TypeModel, o: Result<ValueModel, RepairErrorModel>) -> bool {
        int_coerce_made(steps, *self as int, target, o)
    }

    fn data_type() -> (r: PyroType) {
        PyroType::PrimitiveScalar(PrimitiveDataType::U32)
    }

    fn coerce(&self) -> (r: PyroValue) {
        PyroValue::U32(*self)
    }

    fn try_coerce_to<O: FloatOps>(&self, target: &PyroType, ops: &O) -> (r: Result<PyroValue, ScalarRepairError>) {
        int_try_coerce(*self as i128, target, ops)
    }
}

impl IntoPyroValue for u64 {
    open spec fn spec_data_type() -> PyroType {
        PyroType::PrimitiveScalar(PrimitiveDataType::U64)
    }

    open spec fn spec_coerce(&self) -> ValueModel {
        ValueModel::U64(*self)
    }

    open spec fn spec_try_coerce(&self, target: TypeModel) -> Option<Result<ValueModel, RepairErrorModel>> {
        int_coerce_spec(*self as int, target)
    }

    open spec fn spec_coerce_fits(&self, target: TypeModel, o: Result<ValueModel, RepairErrorModel>) -> bool {
        int_coerce_fits(*self as int, target, o)
    }

    open spec fn spec_coerce_made(&self, steps: spec_fn(FloatStep) -> bool, target: TypeModel, o: Result<ValueModel, RepairErrorModel>) -> bool {
        int_coerce_made(steps, *self as int, target, o)
    }

    fn data_type() -> (r: PyroType) {
        PyroType::PrimitiveScalar(PrimitiveDataType::U64)
    }

    fn coerce(&self) -> (r: PyroValue) {
        PyroValue::U64(*self)
    }

    fn try_coerce_to<O: FloatOps>(&self, target: &PyroType, ops: &O) -> (r: Result<PyroValue, ScalarRepairError>) {
        int_try_coerce(*self as i128, target, ops)
    }
}

impl IntoPyroValue for bool {
    open spec fn spec_data_type() -> PyroType {
        PyroType::PrimitiveScalar(PrimitiveDataType::Bool)
    }

    open spec fn spec_coerce(&self) -> ValueModel {
        ValueModel::Bool(*self)
    }

    open spec fn spec_try_coerce(&self, target: TypeModel) -> Option<Result<ValueModel, RepairErrorModel>> {
        Some(bool_coerce_spec(*self, target))
    }

    open spec fn spec_coerce_fits(&self, target: TypeModel, o: Result<ValueModel, RepairErrorModel>) -> bool {
        o == bool_coerce_spec(*self, target)
    }

    open spec fn spec_coerce_made(&self, steps: spec_fn(FloatStep) -> bool, target: TypeModel, o: Result<ValueModel, RepairErrorModel>) -> bool {
        true
    }

    fn data_type() -> (r: PyroType) {
        PyroType::PrimitiveScalar(PrimitiveDataType::Bool)
    }

    fn coerce(&self) -> (r: PyroValue) {
        PyroValue::Bool(*self)
    }

    fn try_coerce_to<O: FloatOps>(&self, target: &PyroType, ops: &O) -> (r: Result<PyroValue, ScalarRepairError>) {
        bool_try_coerce(*self, target)
    }
}

impl IntoPyroValue for String {
    open spec fn spec_data_type() -> PyroType {
        PyroType::Str
    }

    open spec fn spec_coerce(&self) -> ValueModel {
        ValueModel::Str(self@)
    }

    open spec fn spec_try_coerce(&self, target: TypeModel) -> Option<Result<ValueModel, RepairErrorModel>> {
        str_coerce_spec(self@, target)
    }

    open spec fn spec_coerce_fits(&self, target: TypeModel, o: Result<ValueModel, RepairErrorModel>) -> bool {
        str_coerce_fits(self@, target, o)
    }

    open spec fn spec_coerce_made(&self, steps: spec_fn(FloatStep) -> bool, target: TypeModel, o: Result<ValueModel, RepairErrorModel>) -> bool {
        str_coerce_made(steps, self@, target, o)
    }

    fn data_type() -> (r: PyroType) {
        PyroType::Str
    }

    fn coerce(&self) -> (r: PyroValue) {
        PyroValue::Str(self.clone())
    }

    fn try_coerce_to<O: FloatOps>(&self, target: &PyroType, ops: &O) -> (r: Result<PyroValue, ScalarRepairError>) {
        str_try_coerce_to(self.as_str(), target, ops)
    }
}

impl<'s> IntoPyroValue for &'s str {
    open spec fn spec_data_type() -> PyroType {
        PyroType::Str
    }

    open spec fn spec_coerce(&self) -> ValueModel {
        ValueModel::Str((*self)@)
    }

    open spec fn spec_try_coerce(&self, target: TypeModel) -> Option<Result<ValueModel, RepairErrorModel>> {
        str_coerce_spec((*self)@, target)
    }

    open spec fn spec_coerce_fits(&self, target: TypeModel, o: Result<ValueModel, RepairErrorModel>) -> bool {
        str_coerce_fits((*self)@, target, o)
    }

    open spec fn spec_coerce_made(&self, steps: spec_fn(FloatStep) -> bool, target: TypeModel, o: Result<ValueModel, RepairErrorModel>) -> bool {
        str_coerce_made(steps, (*self)@, target, o)
    }

    fn data_type() -> (r: PyroType) {
        PyroType::Str
    }

    fn coerce(&self) -> (r: PyroValue) {
        PyroValue::Str((*self).to_owned())
    }

    fn try_coerce_to<O: FloatOps>(&self, target: &PyroType, ops: &O) -> (r: Result<PyroValue, ScalarRepairError>) {
        str_try_coerce_to(*self, target, ops)
    }
}

impl<T: IntoPyroValue> IntoPyroValue for Option<T> {
    open spec fn spec_data_type() -> PyroType {
        T::spec_data_type()
    }

    open spec fn spec_coerce(&self) -> ValueModel {
        match self {
            Some(v) => v.spec_coerce(),
            None => ValueModel::Null,
        }
    }

    open spec fn spec_try_coerce(&self, target: TypeModel) -> Option<Result<ValueModel, RepairErrorModel>> {
        match self {
            Some(v) => v.spec_try_coerce(target),
            None => Some(Ok(ValueModel::Null)),
        }
    }

    open spec fn spec_coerce_fits(&self, target: TypeModel, o: Result<ValueModel, RepairErrorModel>) -> bool {
        match self {
            Some(v) => v.spec_coerce_fits(target, o),
            None => o == Ok::<ValueModel, RepairErrorModel>(ValueModel::Null),
        }
    }

    open spec fn spec_coerce_made(&self, steps: spec_fn(FloatStep) -> bool, target: TypeModel, o: Result<ValueModel, RepairErrorModel>) -> bool {
        match self {
            Some(v) => v.spec_coerce_made(steps, target, o),
            None => true,
        }
    }

    fn data_type() -> (r: PyroType) {
        T::data_type()
    }

    fn coerce(&self) -> (r: PyroValue) {
        match self {
            Some(v) => v.coerce(),
            None => PyroValue::Null,
        }
    }

    fn try_coerce_to<O: FloatOps>(&self, target: &PyroType, ops: &O) -> (r: Result<PyroValue, ScalarRepairError>) {
        match self {
            Some(v) => v.try_coerce_to(target, ops),
            None => Ok(PyroValue::Null),
        }
    }
}

/// A scalar type that lists of scalars are made of.
pub trait ListScalar: Sized + Copy {
    spec fn spec_scalar_type() -> PrimitiveDataType;

    spec fn spec_list(items: Seq<Self>) -> ListModel;

    /// The scalar type.
    fn scalar_type() -> (r: PrimitiveDataType)
        ensures
            r == Self::spec_scalar_type(),
    ;

    /// The items as a list of scalars.
    fn to_list(items: &[Self]) -> (r: PrimitiveValueList)
        ensures
            r@ == Self::spec_list(items@),
            list_type(r@) == Self::spec_scalar_type(),
    ;
}

impl ListScalar for bool {
    open spec fn spec_scalar_type() -> PrimitiveDataType {
        PrimitiveDataType::Bool
    }

    open spec fn spec_list(items: Seq<Self>) -> ListModel {
        ListModel::Bool(items)
    }

    fn scalar_type() -> (r: PrimitiveDataType) {
        PrimitiveDataType::Bool
    }

    fn to_list(items: &[Self]) -> (r: PrimitiveValueList) {
        PrimitiveValueList::Bool(vstd::slice::slice_to_vec(items))
    }
}

impl ListScalar for u8 {
    open spec fn spec_scalar_type() -> PrimitiveDataType {
        PrimitiveDataType::U8
    }

    open spec fn spec_list(items: Seq<Self>) -> ListModel {
        ListModel::U8(items)
    }

    fn scalar_type() -> (r: PrimitiveDataType) {
        PrimitiveDataType::U8
    }

    fn to_list(items: &[Self]) -> (r: PrimitiveValueList) {
        PrimitiveValueList::U8(vstd::slice::slice_to_vec(items))
    }
}

impl ListScalar for u16 {
    open spec fn spec_scalar_type() -> PrimitiveDataType {
        PrimitiveDataType::U16
    }

    open spec fn spec_list(items: Seq<Self>) -> ListModel {
        ListModel::U16(items)
    }

    fn scalar_type() -> (r: PrimitiveDataType) {
        PrimitiveDataType::U16
    }

    fn to_list(items: &[Self]) -> (r: PrimitiveValueList) {
        PrimitiveValueList::U16(vstd::slice::slice_to_vec(items))
    }
}

impl ListScalar for u32 {
    open spec fn spec_scalar_type() -> PrimitiveDataType {
        PrimitiveDataType::U32
    }

    open spec fn spec_list(items: Seq<Self>) -> ListModel {
        ListModel::U32(items)
    }

    fn scalar_type() -> (r: PrimitiveDataType) {
        PrimitiveDataType::U32
    }

    fn to_list(items: &[Self]) -> (r: PrimitiveValueList) {
        PrimitiveValueList::U32(vstd::slice::slice_to_vec(items))
    }
}

impl ListScalar for u64 {
    open spec fn spec_scalar_type() -> PrimitiveDataType {
        PrimitiveDataType::U64
    }

    open spec fn spec_list(items: Seq<Self>) -> ListModel {
        ListModel::U64(items)
    }

    fn scalar_type() -> (r: PrimitiveDataType) {
        PrimitiveDataType::U64
    }

    fn to_list(items: &[Self]) -> (r: PrimitiveValueList) {
        PrimitiveValueList::U64(vstd::slice::slice_to_vec(items))
    }
}

impl ListScalar for i8 {
    open spec fn spec_scalar_type() -> PrimitiveDataType {
        PrimitiveDataType::I8
    }

    open spec fn spec_list(items: Seq<Self>) -> ListModel {
        ListModel::I8(items)
    }

    fn scalar_type() -> (r: PrimitiveDataType) {
        PrimitiveDataType::I8
    }

    fn to_list(items: &[Self]) -> (r: PrimitiveValueList) {
        PrimitiveValueList::I8(vstd::slice::slice_to_vec(items))
    }
}

impl ListScalar for i16 {
    open spec fn spec_scalar_type() -> PrimitiveDataType {
        PrimitiveDataType::I16
    }

    open spec fn spec_list(items: Seq<Self>) -> ListModel {
        ListModel::I16(items)
    }

    fn scalar_type() -> (r: PrimitiveDataType) {
        PrimitiveDataType::I16
    }

    fn to_list(items: &[Self]) -> (r: PrimitiveValueList) {
        PrimitiveValueList::I16(vstd::slice::slice_to_vec(items))
    }
}

impl ListScalar for i32 {
    open spec fn spec_scalar_type() -> PrimitiveDataType {
        PrimitiveDataType::I32
    }

    open spec fn spec_list(items: Seq<Self>) -> ListModel {
        ListModel::I32(items)
    }

    fn scalar_type() -> (r: PrimitiveDataType) {
        PrimitiveDataType::I32
    }

    fn to_list(items: &[Self]) -> (r: PrimitiveValueList) {
        PrimitiveValueList::I32(vstd::slice::slice_to_vec(items))
    }
}

impl ListScalar for i64 {
    open spec fn spec_scalar_type() -> PrimitiveDataType {
        PrimitiveDataType::I64
    }

    open spec fn spec_list(items: Seq<Self>) -> ListModel {
        ListModel::I64(items)
    }

    fn scalar_type() -> (r: PrimitiveDataType) {
        PrimitiveDataType::I64
    }

    fn to_list(items: &[Self]) -> (r: PrimitiveValueList) {
        PrimitiveValueList::I64(vstd::slice::slice_to_vec(items))
    }
}

impl<T: ListScalar> IntoPyroValue for Vec<T> {
    open spec fn spec_data_type() -> PyroType {
        PyroType::PrimitiveList(T::spec_scalar_type())
    }

    open spec fn spec_coerce(&self) -> ValueModel {
        ValueModel::PrimitiveList(T::spec_list(self@))
    }

    open spec fn spec_try_coerce(&self, target: TypeModel) -> Option<Result<ValueModel, RepairErrorModel>> {
        list_coerce_spec(T::spec_list(self@), T::spec_scalar_type(), target)
    }

    open spec fn spec_coerce_fits(&self, target: TypeModel, o: Result<ValueModel, RepairErrorModel>) -> bool {
        list_coerce_fits(T::spec_list(self@), T::spec_scalar_type(), target, o)
    }

    open spec fn spec_coerce_made(&self, steps: spec_fn(FloatStep) -> bool, target: TypeModel, o: Result<ValueModel, RepairErrorModel>) -> bool {
        list_coerce_made(steps, T::spec_list(self@), T::spec_scalar_type(), target, o)
    }

    fn data_type() -> (r: PyroType) {
        PyroType::PrimitiveList(T::scalar_type())
    }

    fn coerce(&self) -> (r: PyroValue) {
        PyroValue::PrimitiveList(T::to_list(self.as_slice()))
    }

    fn try_coerce_to<O: FloatOps>(&self, target: &PyroType, ops: &O) -> (r: Result<PyroValue, ScalarRepairError>) {
        prim_slice_try_coerce(T::to_list(self.as_slice()), T::scalar_type(), target, ops)
    }
}

impl<T: ListScalar, const N: usize> IntoPyroValue for [T; N] {
    open spec fn spec_data_type() -> PyroType {
        PyroType::PrimitiveList(T::spec_scalar_type())
    }

    open spec fn spec_coerce(&self) -> ValueModel {
        ValueModel::PrimitiveList(T::spec_list(self@))
    }

    open spec fn spec_try_coerce(&self, target: TypeModel) -> Option<Result<ValueModel, RepairErrorModel>> {
        list_coerce_spec(T::spec_list(self@), T::spec_scalar_type(), target)
    }

    open spec fn spec_coerce_fits(&self, target: TypeModel, o: Result<ValueModel, RepairErrorModel>) -> bool {
        list_coerce_fits(T::spec_list(self@), T::spec_scalar_type(), target, o)
    }

    open spec fn spec_coerce_made(&self, steps: spec_fn(FloatStep) -> bool, target: TypeModel, o: Result<ValueModel, RepairErrorModel>) -> bool {
        list_coerce_made(steps, T::spec_list(self@), T::spec_scalar_type(), target, o)
    }

    fn data_type() -> (r: PyroType) {
        PyroType::PrimitiveList(T::scalar_type())
    }

    fn coerce(&self) -> (r: PyroValue) {
        PyroValue::PrimitiveList(T::to_list(self.as_slice()))
    }

    fn try_coerce_to<O: FloatOps>(&self, target: &PyroType, ops: &O) -> (r: Result<PyroValue, ScalarRepairError>) {
        prim_slice_try_coerce(T::to_list(self.as_slice()), T::scalar_type(), target, ops)
    }
}

impl<'s, T: ListScalar> IntoPyroValue for &'s [T] {
    open spec fn spec_data_type() -> PyroType {
        PyroType::PrimitiveList(T::spec_scalar_type())
    }

    open spec fn spec_coerce(&self) -> ValueModel {
        ValueModel::PrimitiveList(T::spec_list((*self)@))
    }

    open spec fn spec_try_coerce(&self, target: TypeModel) -> Option<Result<ValueModel, RepairErrorModel>> {
        list_coerce_spec(T::spec_list((*self)@), T::spec_scalar_type(), target)
    }

    open spec fn spec_coerce_fits(&self, target: TypeModel, o: Result<ValueModel, RepairErrorModel>) -> bool {
        list_coerce_fits(T::spec_list((*self)@), T::spec_scalar_type(), target, o)
    }

    open spec fn spec_coerce_made(&self, steps: spec_fn(FloatStep) -> bool, target: TypeModel, o: Result<ValueModel, RepairErrorModel>) -> bool {
        list_coerce_made(steps, T::spec_list((*self)@), T::spec_scalar_type(), target, o)
    }

    fn data_type() -> (r: PyroType) {
        PyroType::PrimitiveList(T::scalar_type())
    }

    fn coerce(&self) -> (r: PyroValue) {
        PyroValue::PrimitiveList(T::to_list(*self))
    }

    fn try_coerce_to<O: FloatOps>(&self, target: &PyroType, ops: &O) -> (r: Result<PyroValue, ScalarRepairError>) {
        prim_slice_try_coerce(T::to_list(*self), T::scalar_type(), target, ops)
    }
}

/// An integer coerced into its own integer type is itself.
pub proof fn lemma_int_coerce_keeps_own_type(v: ValueModel, p: PrimitiveDataType)
    requires
        crate::value_type::scalar_type_of(v) == Some(p),
        is_integer_type(p),
    ensures
        crate::repair::int_of(v) matches Some(x) && int_coerce_spec(x, TypeModel::PrimitiveScalar(p))
            == Some(Ok::<ValueModel, RepairErrorModel>(v)),
{
}

/// Text coerced into text is itself, and a list of scalars coerced into
/// lists of its own scalar type is itself.
pub proof fn lemma_coerce_keeps_text_and_lists(s: Seq<char>, l: ListModel)
    ensures
        str_coerce_spec(s, TypeModel::Str) == Some(Ok::<ValueModel, RepairErrorModel>(ValueModel::Str(s))),
        list_coerce_spec(l, list_type(l), TypeModel::PrimitiveList(list_type(l))) == Some(
            Ok::<ValueModel, RepairErrorModel>(ValueModel::PrimitiveList(l)),
        ),
{
}

/// True coerced into a floating-point type is the number one, and false is
/// positive zero.
pub proof fn lemma_bool_coerce_as_float()
    ensures
        bool_coerce_spec(true, TypeModel::PrimitiveScalar(PrimitiveDataType::F32)) matches Ok(ValueModel::F32(b))
            && is_one_f32(b),
        bool_coerce_spec(true, TypeModel::PrimitiveScalar(PrimitiveDataType::F64)) matches Ok(ValueModel::F64(b))
            && is_one_f64(b),
        bool_coerce_spec(false, TypeModel::PrimitiveScalar(PrimitiveDataType::F32)) == Ok::<ValueModel, RepairErrorModel>(
            ValueModel::F32(0),
        ),
        bool_coerce_spec(false, TypeModel::PrimitiveScalar(PrimitiveDataType::F64)) == Ok::<ValueModel, RepairErrorModel>(
            ValueModel::F64(0),
        ),
{
    crate::repair::lemma_bool_as_float();
}

/// An integer coerced into a boolean is true exactly when it is not zero,
/// and coerced into text is its decimal digits, which read back as it.
pub proof fn lemma_int_coerce_truth_and_text(x: int)
    ensures
        int_coerce_spec(x, TypeModel::PrimitiveScalar(PrimitiveDataType::Bool)) == Some(
            Ok::<ValueModel, RepairErrorModel>(ValueModel::Bool(x != 0)),
        ),
        int_coerce_spec(x, TypeModel::Str) == Some(Ok::<ValueModel, RepairErrorModel>(ValueModel::Str(decimal(x)))),
        forall|lo: int, hi: int| lo <= x <= hi ==> #[trigger] parse_int(decimal(x), true, lo, hi) == Some(x),
{
    assert forall|lo: int, hi: int| lo <= x <= hi implies #[trigger] parse_int(decimal(x), true, lo, hi) == Some(x) by {
        crate::repair::lemma_parse_decimal(x, true, lo, hi);
    }
}

} // verus!
