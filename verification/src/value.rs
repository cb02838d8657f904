//! Dynamically typed values: scalars, lists of scalars, text, rows, lists
//! and maps, and the rows that name them.
//!
//! Floating-point scalars are held as their IEEE 754 bit patterns: the
//! library moves them, compares their types and packs them into lists, and
//! leaves arithmetic on them to a [`crate::repair::FloatOps`].
use vstd::prelude::*;
use vstd::string::StringSliceAdditionalSpecFns;

use crate::time::Time;
use crate::typeable::PrimitiveDataType;

verus! {

/// A list of scalars of one type, none of them missing.
#[derive(Debug)]
pub enum PrimitiveValueList {
    Bool(Vec<bool>),
    U8(Vec<u8>),
    U16(Vec<u16>),
    U32(Vec<u32>),
    U64(Vec<u64>),
    I8(Vec<i8>),
    I16(Vec<i16>),
    I32(Vec<i32>),
    I64(Vec<i64>),
    /// Half-precision numbers, as bit patterns.
    F16(Vec<u16>),
    /// Single-precision numbers, as bit patterns.
    F32(Vec<u32>),
    /// Double-precision numbers, as bit patterns.
    F64(Vec<u64>),
}

/// What a [`PrimitiveValueList`] holds.
pub enum ListModel {
    Bool(Seq<bool>),
    U8(Seq<u8>),
    U16(Seq<u16>),
    U32(Seq<u32>),
    U64(Seq<u64>),
    I8(Seq<i8>),
    I16(Seq<i16>),
    I32(Seq<i32>),
    I64(Seq<i64>),
    F16(Seq<u16>),
    F32(Seq<u32>),
    F64(Seq<u64>),
}

impl View for PrimitiveValueList {
    type V = ListModel;

    open spec fn view(&self) -> ListModel {
        match self {
            PrimitiveValueList::Bool(v) => ListModel::Bool(v@),
            PrimitiveValueList::U8(v) => ListModel::U8(v@),
            PrimitiveValueList::U16(v) => ListModel::U16(v@),
            PrimitiveValueList::U32(v) => ListModel::U32(v@),
            PrimitiveValueList::U64(v) => ListModel::U64(v@),
            PrimitiveValueList::I8(v) => ListModel::I8(v@),
            PrimitiveValueList::I16(v) => ListModel::I16(v@),
            PrimitiveValueList::I32(v) => ListModel::I32(v@),
            PrimitiveValueList::I64(v) => ListModel::I64(v@),
            PrimitiveValueList::F16(v) => ListModel::F16(v@),
            PrimitiveValueList::F32(v) => ListModel::F32(v@),
            PrimitiveValueList::F64(v) => ListModel::F64(v@),
        }
    }
}

/// The number of items in a list of scalars.
pub open spec fn list_len(l: ListModel) -> nat {
    match l {
        ListModel::Bool(v) => v.len(),
        ListModel::U8(v) => v.len(),
        ListModel::U16(v) => v.len(),
        ListModel::U32(v) => v.len(),
        ListModel::U64(v) => v.len(),
        ListModel::I8(v) => v.len(),
        ListModel::I16(v) => v.len(),
        ListModel::I32(v) => v.len(),
        ListModel::I64(v) => v.len(),
        ListModel::F16(v) => v.len(),
        ListModel::F32(v) => v.len(),
        ListModel::F64(v) => v.len(),
    }
}

/// The scalar type of a list of scalars.
pub open spec fn list_type(l: ListModel) -> PrimitiveDataType {
    match l {
        ListModel::Bool(_) => PrimitiveDataType::Bool,
        ListModel::U8(_) => PrimitiveDataType::U8,
        ListModel::U16(_) => PrimitiveDataType::U16,
        ListModel::U32(_) => PrimitiveDataType::U32,
        ListModel::U64(_) => PrimitiveDataType::U64,
        ListModel::I8(_) => PrimitiveDataType::I8,
        ListModel::I16(_) => PrimitiveDataType::I16,
        ListModel::I32(_) => PrimitiveDataType::I32,
        ListModel::I64(_) => PrimitiveDataType::I64,
        ListModel::F16(_) => PrimitiveDataType::F16,
        ListModel::F32(_) => PrimitiveDataType::F32,
        ListModel::F64(_) => PrimitiveDataType::F64,
    }
}

/// Whether a scalar type is one of the eight integer types.
pub open spec fn is_integer_type(p: PrimitiveDataType) -> bool {
    match p {
        PrimitiveDataType::U8 | PrimitiveDataType::U16 | PrimitiveDataType::U32
        | PrimitiveDataType::U64 | PrimitiveDataType::I8 | PrimitiveDataType::I16
        | PrimitiveDataType::I32 | PrimitiveDataType::I64 => true,
        _ => false,
    }
}

/// Whether a scalar type is one of the three floating-point types.
pub open spec fn is_float_type(p: PrimitiveDataType) -> bool {
    match p {
        PrimitiveDataType::F16 | PrimitiveDataType::F32 | PrimitiveDataType::F64 => true,
        _ => false,
    }
}

impl PrimitiveValueList {
    /// A copy of the list.
    pub fn to_static(&self) -> (r: PrimitiveValueList)
        ensures
            r@ == self@,
    {
        match self {
            PrimitiveValueList::Bool(v) => {
                let c = v.clone();
                proof {
                    assert(c@ =~= v@);
                }
                PrimitiveValueList::Bool(c)
            },
            PrimitiveValueList::U8(v) => {
                let c = v.clone();
                proof {
                    assert(c@ =~= v@);
                }
                PrimitiveValueList::U8(c)
            },
            PrimitiveValueList::U16(v) => {
                let c = v.clone();
                proof {
                    assert(c@ =~= v@);
                }
                PrimitiveValueList::U16(c)
            },
            PrimitiveValueList::U32(v) => {
                let c = v.clone();
                proof {
                    assert(c@ =~= v@);
                }
                PrimitiveValueList::U32(c)
            },
            PrimitiveValueList::U64(v) => {
                let c = v.clone();
                proof {
                    assert(c@ =~= v@);
                }
                PrimitiveValueList::U64(c)
            },
            PrimitiveValueList::I8(v) => {
                let c = v.clone();
                proof {
                    assert(c@ =~= v@);
                }
                PrimitiveValueList::I8(c)
            },
            PrimitiveValueList::I16(v) => {
                let c = v.clone();
                proof {
                    assert(c@ =~= v@);
                }
                PrimitiveValueList::I16(c)
            },
            PrimitiveValueList::I32(v) => {
                let c = v.clone();
                proof {
                    assert(c@ =~= v@);
                }
                PrimitiveValueList::I32(c)
            },
            PrimitiveValueList::I64(v) => {
                let c = v.clone();
                proof {
                    assert(c@ =~= v@);
                }
                PrimitiveValueList::I64(c)
            },
            PrimitiveValueList::F16(v) => {
                let c = v.clone();
                proof {
                    assert(c@ =~= v@);
                }
                PrimitiveValueList::F16(c)
            },
            PrimitiveValueList::F32(v) => {
                let c = v.clone();
                proof {
                    assert(c@ =~= v@);
                }
                PrimitiveValueList::F32(c)
            },
            PrimitiveValueList::F64(v) => {
                let c = v.clone();
                proof {
                    assert(c@ =~= v@);
                }
                PrimitiveValueList::F64(c)
            },
        }
    }

    /// The number of items.
    pub fn len(&self) -> (r: usize)
        ensures
            r == list_len(self@),
    {
        match self {
            PrimitiveValueList::Bool(v) => v.len(),
            PrimitiveValueList::U8(v) => v.len(),
            PrimitiveValueList::U16(v) => v.len(),
            PrimitiveValueList::U32(v) => v.len(),
            PrimitiveValueList::U64(v) => v.len(),
            PrimitiveValueList::I8(v) => v.len(),
            PrimitiveValueList::I16(v) => v.len(),
            PrimitiveValueList::I32(v) => v.len(),
            PrimitiveValueList::I64(v) => v.len(),
            PrimitiveValueList::F16(v) => v.len(),
            PrimitiveValueList::F32(v) => v.len(),
            PrimitiveValueList::F64(v) => v.len(),
        }
    }

    /// Whether the list has no items.
    pub fn is_empty(&self) -> (r: bool)
        ensures
            r == (list_len(self@) == 0),
    {
        self.len() == 0
    }

    /// Whether the items are integers.
    pub fn is_number(&self) -> (r: bool)
        ensures
            r == is_integer_type(list_type(self@)),
    {
        match self {
            PrimitiveValueList::U8(_) | PrimitiveValueList::U16(_) | PrimitiveValueList::U32(_)
            | PrimitiveValueList::U64(_) | PrimitiveValueList::I8(_) | PrimitiveValueList::I16(_)
            | PrimitiveValueList::I32(_) | PrimitiveValueList::I64(_) => true,
            _ => false,
        }
    }

    /// Whether the items are floating-point numbers.
    pub fn is_float(&self) -> (r: bool)
        ensures
            r == is_float_type(list_type(self@)),
    {
        match self {
            PrimitiveValueList::F16(_) | PrimitiveValueList::F32(_) | PrimitiveValueList::F64(_) => true,
            _ => false,
        }
    }

    /// The scalar type of the items.
    pub fn data_type(&self) -> (r: PrimitiveDataType)
        ensures
            r == list_type(self@),
    {
        match self {
            PrimitiveValueList::Bool(_) => PrimitiveDataType::Bool,
            PrimitiveValueList::U8(_) => PrimitiveDataType::U8,
            PrimitiveValueList::U16(_) => PrimitiveDataType::U16,
            PrimitiveValueList::U32(_) => PrimitiveDataType::U32,
            PrimitiveValueList::U64(_) => PrimitiveDataType::U64,
            PrimitiveValueList::I8(_) => PrimitiveDataType::I8,
            PrimitiveValueList::I16(_) => PrimitiveDataType::I16,
            PrimitiveValueList::I32(_) => PrimitiveDataType::I32,
            PrimitiveValueList::I64(_) => PrimitiveDataType::I64,
            PrimitiveValueList::F16(_) => PrimitiveDataType::F16,
            PrimitiveValueList::F32(_) => PrimitiveDataType::F32,
            PrimitiveValueList::F64(_) => PrimitiveDataType::F64,
        }
    }
}

/// A named value of a row.
#[derive(Debug)]
pub struct RowItem {
    pub key: String,
    pub value: PyroValue,
}

/// A row: named values in order. Lookups find the first item of a name.
#[derive(Debug)]
pub struct PyroRow(pub Vec<RowItem>);

/// A value of any column type.
#[derive(Debug)]
pub enum PyroValue {
    Null,
    Bool(bool),
    I8(i8),
    I16(i16),
    I32(i32),
    I64(i64),
    U8(u8),
    U16(u16),
    U32(u32),
    U64(u64),
    /// A half-precision number, as its bit pattern.
    F16(u16),
    /// A single-precision number, as its bit pattern.
    F32(u32),
    /// A double-precision number, as its bit pattern.
    F64(u64),
    Timestamp(Time),
    PrimitiveList(PrimitiveValueList),
    Str(String),
    Group(PyroRow),
    List(Vec<PyroValue>),
    MapInternal(Vec<(PyroValue, PyroValue)>),
}

/// What a [`PyroValue`] denotes: text as characters, rows, lists and maps
/// as sequences.
pub enum ValueModel {
    Null,
    Bool(bool),
    I8(i8),
    I16(i16),
    I32(i32),
    I64(i64),
    U8(u8),
    U16(u16),
    U32(u32),
    U64(u64),
    F16(u16),
    F32(u32),
    F64(u64),
    Timestamp(Time),
    PrimitiveList(ListModel),
    Str(Seq<char>),
    Group(Seq<(Seq<char>, ValueModel)>),
    List(Seq<ValueModel>),
    MapInternal(Seq<(ValueModel, ValueModel)>),
}

/// The number of value nodes in `v`, by which recursion over values ends.
pub open spec fn value_size(v: PyroValue) -> nat
    decreases v,
{
    match v {
        PyroValue::Group(row) => 1 + items_size(row.0@),
        PyroValue::List(items) => 1 + values_size(items@),
        PyroValue::MapInternal(pairs) => 1 + pairs_size(pairs@),
        _ => 1,
    }
}

pub open spec fn values_size(s: Seq<PyroValue>) -> nat
    decreases s,
{
    if s.len() == 0 {
        0
    } else {
        values_size(s.drop_last()) + value_size(s.last())
    }
}

pub open spec fn items_size(s: Seq<RowItem>) -> nat
    decreases s,
{
    if s.len() == 0 {
        0
    } else {
        items_size(s.drop_last()) + value_size(s.last().value)
    }
}

pub open spec fn pairs_size(s: Seq<(PyroValue, PyroValue)>) -> nat
    decreases s,
{
    if s.len() == 0 {
        0
    } else {
        pairs_size(s.drop_last()) + value_size(s.last().0) + value_size(s.last().1)
    }
}

pub open spec fn value_model(v: PyroValue) -> ValueModel
    decreases v,
{
    match v {
        PyroValue::Null => ValueModel::Null,
        PyroValue::Bool(b) => ValueModel::Bool(b),
        PyroValue::I8(x) => ValueModel::I8(x),
        PyroValue::I16(x) => ValueModel::I16(x),
        PyroValue::I32(x) => ValueModel::I32(x),
        PyroValue::I64(x) => ValueModel::I64(x),
        PyroValue::U8(x) => ValueModel::U8(x),
        PyroValue::U16(x) => ValueModel::U16(x),
        PyroValue::U32(x) => ValueModel::U32(x),
        PyroValue::U64(x) => ValueModel::U64(x),
        PyroValue::F16(x) => ValueModel::F16(x),
        PyroValue::F32(x) => ValueModel::F32(x),
        PyroValue::F64(x) => ValueModel::F64(x),
        PyroValue::Timestamp(t) => ValueModel::Timestamp(t),
        PyroValue::PrimitiveList(l) => ValueModel::PrimitiveList(l@),
        PyroValue::Str(s) => ValueModel::Str(s@),
        PyroValue::Group(row) => ValueModel::Group(items_model(row.0@)),
        PyroValue::List(items) => ValueModel::List(values_model(items@)),
        PyroValue::MapInternal(pairs) => ValueModel::MapInternal(pairs_model(pairs@)),
    }
}

pub open spec fn values_model(s: Seq<PyroValue>) -> Seq<ValueModel>
    decreases s,
{
    if s.len() == 0 {
        Seq::empty()
    } else {
        values_model(s.drop_last()).push(value_model(s.last()))
    }
}

pub open spec fn items_model(s: Seq<RowItem>) -> Seq<(Seq<char>, ValueModel)>
    decreases s,
{
    if s.len() == 0 {
        Seq::empty()
    } else {
        items_model(s.drop_last()).push((s.last().key@, value_model(s.last().value)))
    }
}

pub open spec fn pairs_model(s: Seq<(PyroValue, PyroValue)>) -> Seq<(ValueModel, ValueModel)>
    decreases s,
{
    if s.len() == 0 {
        Seq::empty()
    } else {
        pairs_model(s.drop_last()).push((value_model(s.last().0), value_model(s.last().1)))
    }
}

impl View for PyroValue {
    type V = ValueModel;

    open spec fn view(&self) -> ValueModel {
        value_model(*self)
    }
}

impl View for RowItem {
    type V = (Seq<char>, ValueModel);

    open spec fn view(&self) -> (Seq<char>, ValueModel) {
        (self.key@, self.value@)
    }
}

impl View for PyroRow {
    type V = Seq<(Seq<char>, ValueModel)>;

    open spec fn view(&self) -> Seq<(Seq<char>, ValueModel)> {
        items_model(self.0@)
    }
}

pub proof fn lemma_values_model(s: Seq<PyroValue>)
    ensures
        values_model(s).len() == s.len(),
        forall|i: int| 0 <= i < s.len() ==> #[trigger] values_model(s)[i] == s[i]@,
    decreases s.len(),
{
    if s.len() > 0 {
        lemma_values_model(s.drop_last());
    }
}

pub proof fn lemma_items_model(s: Seq<RowItem>)
    ensures
        items_model(s).len() == s.len(),
        forall|i: int| 0 <= i < s.len() ==> #[trigger] items_model(s)[i] == s[i]@,
    decreases s.len(),
{
    if s.len() > 0 {
        lemma_items_model(s.drop_last());
    }
}

pub proof fn lemma_pairs_model(s: Seq<(PyroValue, PyroValue)>)
    ensures
        pairs_model(s).len() == s.len(),
        forall|i: int| 0 <= i < s.len() ==> #[trigger] pairs_model(s)[i] == (s[i].0@, s[i].1@),
    decreases s.len(),
{
    if s.len() > 0 {
        lemma_pairs_model(s.drop_last());
    }
}

pub proof fn lemma_values_model_push(s: Seq<PyroValue>, v: PyroValue)
    ensures
        values_model(s.push(v)) == values_model(s).push(v@),
{
    assert(s.push(v).drop_last() =~= s);
}

pub proof fn lemma_items_model_push(s: Seq<RowItem>, it: RowItem)
    ensures
        items_model(s.push(it)) == items_model(s).push(it@),
{
    assert(s.push(it).drop_last() =~= s);
}

pub proof fn lemma_pairs_model_push(s: Seq<(PyroValue, PyroValue)>, p: (PyroValue, PyroValue))
    ensures
        pairs_model(s.push(p)) == pairs_model(s).push((p.0@, p.1@)),
{
    assert(s.push(p).drop_last() =~= s);
}

impl Default for PyroValue {
    fn default() -> (r: PyroValue)
        ensures
            r@ == ValueModel::Null,
    {
        PyroValue::Null
    }
}

impl PyroValue {
    /// Whether the value is the missing value.
    pub fn is_null(&self) -> (r: bool)
        ensures
            r == (self@ is Null),
    {
        match self {
            PyroValue::Null => true,
            _ => false,
        }
    }

    /// A copy of the value, with copies of all it holds.
    pub fn to_static(&self) -> (r: PyroValue)
        ensures
            r@ == self@,
        decreases value_size(*self), 0nat,
    {
        match self {
            PyroValue::Null => PyroValue::Null,
            PyroValue::Bool(x) => PyroValue::Bool(*x),
            PyroValue::I8(x) => PyroValue::I8(*x),
            PyroValue::I16(x) => PyroValue::I16(*x),
            PyroValue::I32(x) => PyroValue::I32(*x),
            PyroValue::I64(x) => PyroValue::I64(*x),
            PyroValue::U8(x) => PyroValue::U8(*x),
            PyroValue::U16(x) => PyroValue::U16(*x),
            PyroValue::U32(x) => PyroValue::U32(*x),
            PyroValue::U64(x) => PyroValue::U64(*x),
            PyroValue::F16(x) => PyroValue::F16(*x),
            PyroValue::F32(x) => PyroValue::F32(*x),
            PyroValue::F64(x) => PyroValue::F64(*x),
            PyroValue::Timestamp(t) => PyroValue::Timestamp(*t),
            PyroValue::Str(s) => PyroValue::Str(s.clone()),
            PyroValue::PrimitiveList(l) => PyroValue::PrimitiveList(l.to_static()),
            PyroValue::Group(row) => PyroValue::Group(row.to_static()),
            PyroValue::List(items) => {
                proof {
                    lemma_values_model(items@);
                }
                let mut out: Vec<PyroValue> = Vec::new();
                let mut i: usize = 0;
                while i < items.len()
                    invariant
                        i <= items@.len(),
                        values_size(items@) < value_size(*self),
                        values_model(items@).len() == items@.len(),
                        forall|j: int| 0 <= j < items@.len() ==> #[trigger] values_model(items@)[j] == items@[j]@,
                        values_model(out@) == values_model(items@).take(i as int),
                    decreases items.len() - i,
                {
                    proof {
                        crate::value_type::lemma_values_size_index(items@, i as int);
                    }
                    let c = items[i].to_static();
                    proof {
                        lemma_values_model_push(out@, c);
                        assert(values_model(items@).take(i + 1) =~= values_model(items@).take(i as int).push(items@[i as int]@));
                    }
                    out.push(c);
                    i = i + 1;
                }
                proof {
                    assert(values_model(items@).take(items@.len() as int) =~= values_model(items@));
                }
                PyroValue::List(out)
            },
            PyroValue::MapInternal(pairs) => {
                proof {
                    lemma_pairs_model(pairs@);
                }
                let mut out: Vec<(PyroValue, PyroValue)> = Vec::new();
                let mut i: usize = 0;
                while i < pairs.len()
                    invariant
                        i <= pairs@.len(),
                        pairs_size(pairs@) < value_size(*self),
                        pairs_model(pairs@).len() == pairs@.len(),
                        forall|j: int| 0 <= j < pairs@.len() ==> #[trigger] pairs_model(pairs@)[j] == (pairs@[j].0@, pairs@[j].1@),
                        pairs_model(out@) == pairs_model(pairs@).take(i as int),
                    decreases pairs.len() - i,
                {
                    proof {
                        crate::value_type::lemma_pairs_size_index(pairs@, i as int);
                    }
                    let k = pairs[i].0.to_static();
                    let v = pairs[i].1.to_static();
                    proof {
                        lemma_pairs_model_push(out@, (k, v));
                        assert(pairs_model(pairs@).take(i + 1) =~= pairs_model(pairs@).take(i as int).push(
                            (pairs@[i as int].0@, pairs@[i as int].1@),
                        ));
                    }
                    out.push((k, v));
                    i = i + 1;
                }
                proof {
                    assert(pairs_model(pairs@).take(pairs@.len() as int) =~= pairs_model(pairs@));
                }
                PyroValue::MapInternal(out)
            },
        }
    }
}

impl PyroRow {
    /// A copy of the row, with copies of all its names and values.
    pub fn to_static(&self) -> (r: PyroRow)
        ensures
            r@ == self@,
        decreases items_size(self.0@), 1nat,
    {
        proof {
            lemma_items_model(self.0@);
        }
        let mut out: Vec<RowItem> = Vec::new();
        let mut i: usize = 0;
        while i < self.0.len()
            invariant
                i <= self.0@.len(),
                items_model(self.0@).len() == self.0@.len(),
                forall|j: int| 0 <= j < self.0@.len() ==> #[trigger] items_model(self.0@)[j] == self.0@[j]@,
                items_model(out@) == items_model(self.0@).take(i as int),
            decreases self.0.len() - i,
        {
            proof {
                crate::value_type::lemma_items_size_index(self.0@, i as int);
            }
            let item = RowItem { key: self.0[i].key.clone(), value: self.0[i].value.to_static() };
            proof {
                lemma_items_model_push(out@, item);
                assert(items_model(self.0@).take(i + 1) =~= items_model(self.0@).take(i as int).push(self.0@[i as int]@));
            }
            out.push(item);
            i = i + 1;
        }
        proof {
            assert(items_model(self.0@).take(self.0@.len() as int) =~= items_model(self.0@));
        }
        PyroRow(out)
    }
}

/// Whether two texts are equal, compared byte by byte.
pub fn text_eq(a: &str, b: &str) -> (r: bool)
    ensures
        r == (a@ == b@),
{
    let x = a.as_bytes();
    let y = b.as_bytes();
    proof {
        vstd::utf8::encode_utf8_decode_utf8(a@);
        vstd::utf8::encode_utf8_decode_utf8(b@);
    }
    if x.len() != y.len() {
        return false;
    }
    let mut i: usize = 0;
    while i < x.len()
        invariant
            x@ == a.spec_bytes(),
            y@ == b.spec_bytes(),
            x.len() == y.len(),
            i <= x.len(),
            forall|j: int| 0 <= j < i ==> x@[j] == y@[j],
        decreases x.len() - i,
    {
        if x[i] != y[i] {
            return false;
        }
        i = i + 1;
    }
    assert(x@ =~= y@);
    true
}

/// Whether `i` is the first position of `items` whose key is `k`.
pub open spec fn is_first_key(items: Seq<(Seq<char>, ValueModel)>, k: Seq<char>, i: int) -> bool {
    &&& 0 <= i < items.len()
    &&& items[i].0 == k
    &&& forall|j: int| 0 <= j < i ==> items[j].0 != k
}

/// The first position of `items` whose key is `k`, if any.
pub open spec fn first_key(items: Seq<(Seq<char>, ValueModel)>, k: Seq<char>) -> Option<int> {
    if exists|i: int| 0 <= i < items.len() && items[i].0 == k {
        Some(choose|i: int| is_first_key(items, k, i))
    } else {
        None
    }
}

pub proof fn lemma_first_key(items: Seq<(Seq<char>, ValueModel)>, k: Seq<char>)
    ensures
        first_key(items, k) is None <==> forall|i: int| 0 <= i < items.len() ==> items[i].0 != k,
        first_key(items, k) matches Some(i) ==> is_first_key(items, k, i),
        forall|i: int| is_first_key(items, k, i) ==> first_key(items, k) == Some(i),
{
    if exists|i: int| 0 <= i < items.len() && items[i].0 == k {
        let w = choose|i: int| 0 <= i < items.len() && items[i].0 == k;
        let m = least_key_index(items, k, w);
        assert(is_first_key(items, k, m));
        let c = choose|i: int| is_first_key(items, k, i);
        assert forall|i: int| is_first_key(items, k, i) implies i == c by {
            if i < c {
                assert(items[i].0 == k);
            } else if c < i {
                assert(items[c].0 == k);
            }
        }
    }
}

proof fn least_key_index(items: Seq<(Seq<char>, ValueModel)>, k: Seq<char>, w: int) -> (m: int)
    requires
        0 <= w < items.len(),
        items[w].0 == k,
    ensures
        is_first_key(items, k, m),
    decreases w,
{
    if exists|j: int| 0 <= j < w && items[j].0 == k {
        let j = choose|j: int| 0 <= j < w && items[j].0 == k;
        least_key_index(items, k, j)
    } else {
        w
    }
}

/// The value reached by following `path` through nested rows of `items`:
/// every name but the last must lead to a row.
pub open spec fn deep_get(items: Seq<(Seq<char>, ValueModel)>, path: Seq<Seq<char>>) -> Option<ValueModel>
    decreases path.len(),
{
    if path.len() == 0 {
        None
    } else {
        match first_key(items, path[0]) {
            None => None,
            Some(i) => if path.len() == 1 {
                Some(items[i].1)
            } else {
                match items[i].1 {
                    ValueModel::Group(inner) => deep_get(inner, path.skip(1)),
                    _ => None,
                }
            },
        }
    }
}

/// Whether no key of `other` occurs in `items` or earlier in `other`.
pub open spec fn keys_fresh(items: Seq<(Seq<char>, ValueModel)>, other: Seq<(Seq<char>, ValueModel)>) -> bool {
    &&& forall|i: int, j: int| 0 <= i < items.len() && 0 <= j < other.len() ==> items[i].0 != other[j].0
    &&& forall|i: int, j: int| 0 <= i < j < other.len() ==> other[i].0 != other[j].0
}

impl PyroRow {
    /// A row with no items.
    pub fn new() -> (r: PyroRow)
        ensures
            r@ == Seq::<(Seq<char>, ValueModel)>::empty(),
    {
        PyroRow(Vec::new())
    }

    /// A row with no items.
    pub fn empty() -> (r: PyroRow)
        ensures
            r@ == Seq::<(Seq<char>, ValueModel)>::empty(),
    {
        PyroRow(Vec::new())
    }

    /// A row with no items and room for `capacity` of them.
    pub fn with_capacity(capacity: usize) -> (r: PyroRow)
        ensures
            r@ == Seq::<(Seq<char>, ValueModel)>::empty(),
    {
        PyroRow(Vec::with_capacity(capacity))
    }

    /// The number of items.
    pub fn len(&self) -> (r: usize)
        ensures
            r == self@.len(),
    {
        proof {
            lemma_items_model(self.0@);
        }
        self.0.len()
    }

    /// Whether the row has no items.
    pub fn is_empty(&self) -> (r: bool)
        ensures
            r == (self@.len() == 0),
    {
        proof {
            lemma_items_model(self.0@);
        }
        self.0.len() == 0
    }

    /// The position of the first item named `key`.
    fn position(&self, key: &str) -> (r: Option<usize>)
        ensures
            r matches Some(i) ==> first_key(self@, key@) == Some(i as int) && i < self.0@.len()
                && is_first_key(self@, key@, i as int),
            r is None ==> first_key(self@, key@) is None,
    {
        proof {
            lemma_items_model(self.0@);
            lemma_first_key(self@, key@);
        }
        let mut i: usize = 0;
        while i < self.0.len()
            invariant
                i <= self.0.len(),
                self@.len() == self.0@.len(),
                forall|j: int| 0 <= j < self.0@.len() ==> #[trigger] self@[j] == self.0@[j]@,
                forall|j: int| 0 <= j < i ==> self@[j].0 != key@,
            decreases self.0.len() - i,
        {
            if text_eq(self.0[i].key.as_str(), key) {
                assert(is_first_key(self@, key@, i as int));
                return Some(i);
            }
            i = i + 1;
        }
        None
    }

    /// The value of the first item named `key`.
    pub fn get(&self, key: &str) -> (r: Option<&PyroValue>)
        ensures
            r is None <==> first_key(self@, key@) is None,
            r matches Some(v) ==> first_key(self@, key@) matches Some(i) && *v == self.0@[i].value,
            r matches Some(v) ==> first_key(self@, key@) matches Some(i) && v@ == self@[i].1,
    {
        proof {
            lemma_items_model(self.0@);
        }
        match self.position(key) {
            Some(i) => Some(&self.0[i].value),
            None => None,
        }
    }

    /// Sets the value named `key`: the first item of that name is replaced,
    /// or a new item is added at the end.
    pub fn insert(&mut self, key: String, value: PyroValue)
        ensures
            final(self)@ == inserted(old(self)@, key@, value@),
    {
        proof {
            lemma_items_model(self.0@);
        }
        let pos = self.position(key.as_str());
        let item = RowItem { key, value };
        match pos {
            Some(i) => {
                let ghost before = self.0@;
                self.0.set(i, item);
                proof {
                    lemma_items_model(self.0@);
                    assert(self.0@ == before.update(i as int, item));
                    assert(items_model(self.0@) =~= items_model(before).update(i as int, item@));
                }
            },
            None => {
                proof {
                    lemma_items_model_push(self.0@, item);
                }
                self.0.push(item);
            },
        }
    }

    /// Sets the value named `key`, as [`PyroRow::insert`] does.
    pub fn insert_ref(&mut self, key: &str, value: PyroValue)
        ensures
            final(self)@ == inserted(old(self)@, key@, value@),
    {
        self.insert(key.to_owned(), value)
    }

    /// Appends the items of `other`, whose names must all be new.
    pub fn extend(&mut self, other: PyroRow)
        requires
            keys_fresh(old(self)@, other@),
        ensures
            final(self)@ == old(self)@ + other@,
    {
        let ghost start = self@;
        let PyroRow(items) = other;
        proof {
            lemma_items_model(items@);
        }
        for item in it: items
            invariant
                it.seq() == items@,
                self@ == start + items_model(items@.take(it.index() as int)),
        {
            proof {
                lemma_items_model_push(self.0@, item);
                assert(items@.take(it.index() + 1).drop_last() =~= items@.take(it.index() as int));
            }
            self.0.push(item);
        }
        assert(items@.take(items@.len() as int) =~= items@);
    }

    /// The value reached by following `path` through nested rows, or `None`
    /// when a name is missing, a name before the last does not lead to a
    /// row, or the path is empty.
    pub fn get_deep(&self, path: &[&str]) -> (r: Option<&PyroValue>)
        ensures
            r is None <==> deep_get(self@, path@.map_values(|s: &str| s@)) is None,
            r matches Some(v) ==> deep_get(self@, path@.map_values(|s: &str| s@)) == Some(v@),
    {
        let ghost names = path@.map_values(|s: &str| s@);
        if path.len() == 0 {
            return None;
        }
        let mut current: &PyroRow = self;
        let mut k: usize = 0;
        assert(names.skip(0) =~= names);
        while k < path.len()
            invariant
                0 <= k < path.len(),
                names == path@.map_values(|s: &str| s@),
                deep_get(self@, names) == deep_get(current@, names.skip(k as int)),
            decreases path.len() - k,
        {
            let ghost rest = names.skip(k as int);
            assert(rest[0] == path@[k as int]@);
            match current.get(path[k]) {
                None => {
                    return None;
                },
                Some(v) => {
                    if k + 1 == path.len() {
                        return Some(v);
                    }
                    match v {
                        PyroValue::Group(next) => {
                            assert(rest.skip(1) =~= names.skip(k + 1));
                            current = next;
                        },
                        _ => {
                            return None;
                        },
                    }
                },
            }
            k = k + 1;
        }
        None
    }
}

/// The items of a row after setting the value named `k` to `v`.
pub open spec fn inserted(items: Seq<(Seq<char>, ValueModel)>, k: Seq<char>, v: ValueModel) -> Seq<(Seq<char>, ValueModel)> {
    match first_key(items, k) {
        Some(i) => items.update(i, (k, v)),
        None => items.push((k, v)),
    }
}

/// After a row's value named `k` is set to `v`, reading `k` gives `v`, and
/// reading any other name gives what it gave before.
pub proof fn lemma_insert_then_get(items: Seq<(Seq<char>, ValueModel)>, k: Seq<char>, v: ValueModel, other: Seq<char>)
    requires
        other != k,
    ensures
        first_key(inserted(items, k, v), k) matches Some(j) && inserted(items, k, v)[j].1 == v,
        first_key(inserted(items, k, v), other) == first_key(items, other),
        first_key(items, other) matches Some(j) ==> inserted(items, k, v)[j] == items[j],
{
    let after = inserted(items, k, v);
    lemma_first_key(items, k);
    lemma_first_key(items, other);
    match first_key(items, k) {
        Some(i) => {
            assert(is_first_key(after, k, i));
            lemma_first_key(after, k);
            assert forall|j: int| 0 <= j < after.len() implies #[trigger] after[j].0 == items[j].0 by {}
        },
        None => {
            assert(is_first_key(after, k, items.len() as int));
            lemma_first_key(after, k);
        },
    }
    lemma_first_key(after, other);
    match first_key(items, other) {
        Some(j) => {
            assert(is_first_key(after, other, j));
        },
        None => {
            assert forall|j: int| 0 <= j < after.len() implies after[j].0 != other by {
                if j < items.len() {
                    assert(items[j].0 != other);
                }
            }
        },
    }
}

impl Clone for PrimitiveValueList {
    fn clone(&self) -> (r: PrimitiveValueList)
        ensures
            r@ == self@,
    {
        self.to_static()
    }
}

impl Clone for PyroValue {
    fn clone(&self) -> (r: PyroValue)
        ensures
            r@ == self@,
    {
        self.to_static()
    }
}

impl Clone for PyroRow {
    fn clone(&self) -> (r: PyroRow)
        ensures
            r@ == self@,
    {
        self.to_static()
    }
}

} // verus!

