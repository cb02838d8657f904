//! Rust types that report the column type they are stored as.
use std::collections::{BTreeMap, HashMap};

use vstd::prelude::*;

verus! {

/// The scalar types a column can hold.
#[derive(Debug, Clone, Copy, PartialEq, Eq, Structural)]
pub enum PrimitiveDataType {
    Bool,
    U8,
    U16,
    U32,
    U64,
    I8,
    I16,
    I32,
    I64,
    F16,
    F32,
    F64,
}

/// The type of a column.
#[derive(Debug, PartialEq, Eq)]
pub enum PyroType {
    /// No value.
    Null,
    /// A scalar.
    PrimitiveScalar(PrimitiveDataType),
    /// UTF-8 text.
    Str,
    /// An instant.
    Timestamp,
    /// A list of scalars of one type, none of them missing.
    PrimitiveList(PrimitiveDataType),
    /// A list of a fixed number of scalars of one type.
    PrimitiveFixedList(PrimitiveDataType, usize),
    /// A list of values of a type, and whether values may be missing.
    List(Box<PyroType>, bool),
    /// A map from keys of one type to values of another.
    KeyValueMap { key: Box<PyroType>, value: Box<PyroType> },
    /// A row of named fields.
    Group(Vec<PyroField>),
}

/// A named column of a row type.
#[derive(Debug, PartialEq, Eq)]
pub struct PyroField {
    pub name: String,
    pub data_type: PyroType,
    pub nullable: bool,
}

/// What a [`PyroType`] denotes, with text as characters and the fields of a
/// group as a sequence.
pub enum TypeModel {
    Null,
    PrimitiveScalar(PrimitiveDataType),
    Str,
    Timestamp,
    PrimitiveList(PrimitiveDataType),
    PrimitiveFixedList(PrimitiveDataType, usize),
    List(Box<TypeModel>, bool),
    KeyValueMap { key: Box<TypeModel>, value: Box<TypeModel> },
    Group(Seq<FieldModel>),
}

/// What a [`PyroField`] denotes.
pub struct FieldModel {
    pub name: Seq<char>,
    pub data_type: TypeModel,
    pub nullable: bool,
}

pub open spec fn type_model(t: PyroType) -> TypeModel
    decreases t,
{
    match t {
        PyroType::Null => TypeModel::Null,
        PyroType::PrimitiveScalar(p) => TypeModel::PrimitiveScalar(p),
        PyroType::Str => TypeModel::Str,
        PyroType::Timestamp => TypeModel::Timestamp,
        PyroType::PrimitiveList(p) => TypeModel::PrimitiveList(p),
        PyroType::PrimitiveFixedList(p, n) => TypeModel::PrimitiveFixedList(p, n),
        PyroType::List(inner, nullable) => TypeModel::List(Box::new(type_model(*inner)), nullable),
        PyroType::KeyValueMap { key, value } => TypeModel::KeyValueMap {
            key: Box::new(type_model(*key)),
            value: Box::new(type_model(*value)),
        },
        PyroType::Group(fields) => TypeModel::Group(fields_model(fields@)),
    }
}

pub open spec fn fields_model(s: Seq<PyroField>) -> Seq<FieldModel>
    decreases s,
{
    if s.len() == 0 {
        Seq::empty()
    } else {
        fields_model(s.drop_last()).push(
            FieldModel {
                name: s.last().name@,
                data_type: type_model(s.last().data_type),
                nullable: s.last().nullable,
            },
        )
    }
}

impl View for PyroType {
    type V = TypeModel;

    open spec fn view(&self) -> TypeModel {
        type_model(*self)
    }
}

impl View for PyroField {
    type V = FieldModel;

    open spec fn view(&self) -> FieldModel {
        FieldModel { name: self.name@, data_type: self.data_type@, nullable: self.nullable }
    }
}

/// The number of type nodes in `t`, by which recursion over types ends.
pub open spec fn type_size(t: PyroType) -> nat
    decreases t,
{
    match t {
        PyroType::List(inner, _) => 1 + type_size(*inner),
        PyroType::KeyValueMap { key, value } => 1 + type_size(*key) + type_size(*value),
        PyroType::Group(fields) => 1 + fields_size(fields@),
        _ => 1,
    }
}

pub open spec fn fields_size(s: Seq<PyroField>) -> nat
    decreases s,
{
    if s.len() == 0 {
        0
    } else {
        fields_size(s.drop_last()) + type_size(s.last().data_type)
    }
}

pub proof fn lemma_fields_size_index(s: Seq<PyroField>, i: int)
    requires
        0 <= i < s.len(),
    ensures
        type_size(s[i].data_type) <= fields_size(s),
    decreases s.len(),
{
    if i < s.len() - 1 {
        lemma_fields_size_index(s.drop_last(), i);
    }
}

pub proof fn lemma_fields_model_len(s: Seq<PyroField>)
    ensures
        fields_model(s).len() == s.len(),
    decreases s.len(),
{
    if s.len() > 0 {
        lemma_fields_model_len(s.drop_last());
    }
}

pub proof fn lemma_fields_model_index(s: Seq<PyroField>, i: int)
    requires
        0 <= i < s.len(),
    ensures
        fields_model(s).len() == s.len(),
        fields_model(s)[i] == s[i]@,
    decreases s.len(),
{
    lemma_fields_model_len(s);
    if i < s.len() - 1 {
        lemma_fields_model_index(s.drop_last(), i);
    }
}

pub proof fn lemma_fields_model_push(s: Seq<PyroField>, f: PyroField)
    ensures
        fields_model(s.push(f)) == fields_model(s).push(f@),
{
    assert(s.push(f).drop_last() =~= s);
}

impl PyroField {
    /// A field named `name` of type `data_type`, which may be missing when
    /// `nullable`.
    pub fn new(name: &str, data_type: PyroType, nullable: bool) -> (r: PyroField)
        ensures
            r.name@ == name@,
            r.data_type == data_type,
            r.nullable == nullable,
    {
        PyroField { name: name.to_owned(), data_type, nullable }
    }

    /// The field's name.
    pub fn name(&self) -> (r: &str)
        ensures
            r@ == self.name@,
    {
        self.name.as_str()
    }

    /// The field's type.
    pub fn data_type(&self) -> (r: &PyroType)
        ensures
            *r == self.data_type,
    {
        &self.data_type
    }

    /// Whether the field may be missing.
    pub fn is_nullable(&self) -> (r: bool)
        ensures
            r == self.nullable,
    {
        self.nullable
    }
}

impl Clone for PyroField {
    fn clone(&self) -> (r: PyroField)
        ensures
            r@ == self@,
    {
        PyroField { name: self.name.clone(), data_type: self.data_type.clone(), nullable: self.nullable }
    }
}

impl Clone for PyroType {
    fn clone(&self) -> (r: PyroType)
        ensures
            r@ == self@,
        decreases type_size(*self),
    {
        match self {
            PyroType::Null => PyroType::Null,
            PyroType::PrimitiveScalar(p) => PyroType::PrimitiveScalar(*p),
            PyroType::Str => PyroType::Str,
            PyroType::Timestamp => PyroType::Timestamp,
            PyroType::PrimitiveList(p) => PyroType::PrimitiveList(*p),
            PyroType::PrimitiveFixedList(p, n) => PyroType::PrimitiveFixedList(*p, *n),
            PyroType::List(inner, nullable) => {
                let c: PyroType = (**inner).clone();
                PyroType::List(Box::new(c), *nullable)
            },
            PyroType::KeyValueMap { key, value } => {
                let k: PyroType = (**key).clone();
                let v: PyroType = (**value).clone();
                PyroType::KeyValueMap { key: Box::new(k), value: Box::new(v) }
            },
            PyroType::Group(fields) => {
                let mut out: Vec<PyroField> = Vec::new();
                let mut i: usize = 0;
                while i < fields.len()
                    invariant
                        i <= fields.len(),
                        fields_size(fields@) < type_size(*self),
                        fields_model(out@) == fields_model(fields@.take(i as int)),
                    decreases fields.len() - i,
                {
                    proof {
                        lemma_fields_size_index(fields@, i as int);
                    }
                    let t: PyroType = fields[i].data_type.clone();
                    let f = PyroField { name: fields[i].name.clone(), data_type: t, nullable: fields[i].nullable };
                    proof {
                        lemma_fields_model_push(out@, f);
                        lemma_fields_model_push(fields@.take(i as int), fields@[i as int]);
                        assert(fields@.take(i + 1) =~= fields@.take(i as int).push(fields@[i as int]));
                    }
                    out.push(f);
                    i = i + 1;
                }
                assert(fields@.take(fields.len() as int) =~= fields@);
                PyroType::Group(out)
            },
        }
    }
}

/// A Rust type that knows its column type.
pub trait Typeable {
    spec fn spec_pyro_type() -> PyroType;

    spec fn spec_primitive_data_type() -> Option<PrimitiveDataType>;

    spec fn spec_is_nullable() -> bool;

    spec fn spec_coercible() -> bool;

    /// The column type.
    fn pyro_type() -> (r: PyroType)
        ensures
            r == Self::spec_pyro_type(),
    ;

    /// The scalar type, for types that are one; decides whether a list of
    /// the type is stored as a list of scalars.
    fn primitive_data_type() -> (r: Option<PrimitiveDataType>)
        ensures
            r == Self::spec_primitive_data_type(),
    ;

    /// Whether values of the type may be missing.
    fn is_nullable() -> (r: bool)
        ensures
            r == Self::spec_is_nullable(),
    ;

    /// Whether values of other types can be repaired into this one: true
    /// for numbers, booleans and text, and for containers of such.
    fn coercible() -> (r: bool)
        ensures
            r == Self::spec_coercible(),
    ;
}

impl Typeable for bool {
    open spec fn spec_pyro_type() -> PyroType {
        PyroType::PrimitiveScalar(PrimitiveDataType::Bool)
    }

    open spec fn spec_primitive_data_type() -> Option<PrimitiveDataType> {
        Some(PrimitiveDataType::Bool)
    }

    open spec fn spec_is_nullable() -> bool {
        false
    }

    open spec fn spec_coercible() -> bool {
        true
    }

    fn pyro_type() -> (r: PyroType) {
        PyroType::PrimitiveScalar(PrimitiveDataType::Bool)
    }

    fn primitive_data_type() -> (r: Option<PrimitiveDataType>) {
        Some(PrimitiveDataType::Bool)
    }

    fn is_nullable() -> (r: bool) {
        false
    }

    fn coercible() -> (r: bool) {
        true
    }
}

impl Typeable for u8 {
    open spec fn spec_pyro_type() -> PyroType {
        PyroType::PrimitiveScalar(PrimitiveDataType::U8)
    }

    open spec fn spec_primitive_data_type() -> Option<PrimitiveDataType> {
        Some(PrimitiveDataType::U8)
    }

    open spec fn spec_is_nullable() -> bool {
        false
    }

    open spec fn spec_coercible() -> bool {
        true
    }

    fn pyro_type() -> (r: PyroType) {
        PyroType::PrimitiveScalar(PrimitiveDataType::U8)
    }

    fn primitive_data_type() -> (r: Option<PrimitiveDataType>) {
        Some(PrimitiveDataType::U8)
    }

    fn is_nullable() -> (r: bool) {
        false
    }

    fn coercible() -> (r: bool) {
        true
    }
}

impl Typeable for u16 {
    open spec fn spec_pyro_type() -> PyroType {
        PyroType::PrimitiveScalar(PrimitiveDataType::U16)
    }

    open spec fn spec_primitive_data_type() -> Option<PrimitiveDataType> {
        Some(PrimitiveDataType::U16)
    }

    open spec fn spec_is_nullable() -> bool {
        false
    }

    open spec fn spec_coercible() -> bool {
        true
    }

    fn pyro_type() -> (r: PyroType) {
        PyroType::PrimitiveScalar(PrimitiveDataType::U16)
    }

    fn primitive_data_type() -> (r: Option<PrimitiveDataType>) {
        Some(PrimitiveDataType::U16)
    }

    fn is_nullable() -> (r: bool) {
        false
    }

    fn coercible() -> (r: bool) {
        true
    }
}

impl Typeable for u32 {
    open spec fn spec_pyro_type() -> PyroType {
        PyroType::PrimitiveScalar(PrimitiveDataType::U32)
    }

    open spec fn spec_primitive_data_type() -> Option<PrimitiveDataType> {
        Some(PrimitiveDataType::U32)
    }

    open spec fn spec_is_nullable() -> bool {
        false
    }

    open spec fn spec_coercible() -> bool {
        true
    }

    fn pyro_type() -> (r: PyroType) {
        PyroType::PrimitiveScalar(PrimitiveDataType::U32)
    }

    fn primitive_data_type() -> (r: Option<PrimitiveDataType>) {
        Some(PrimitiveDataType::U32)
    }

    fn is_nullable() -> (r: bool) {
        false
    }

    fn coercible() -> (r: bool) {
        true
    }
}

impl Typeable for u64 {
    open spec fn spec_pyro_type() -> PyroType {
        PyroType::PrimitiveScalar(PrimitiveDataType::U64)
    }

    open spec fn spec_primitive_data_type() -> Option<PrimitiveDataType> {
        Some(PrimitiveDataType::U64)
    }

    open spec fn spec_is_nullable() -> bool {
        false
    }

    open spec fn spec_coercible() -> bool {
        true
    }

    fn pyro_type() -> (r: PyroType) {
        PyroType::PrimitiveScalar(PrimitiveDataType::U64)
    }

    fn primitive_data_type() -> (r: Option<PrimitiveDataType>) {
        Some(PrimitiveDataType::U64)
    }

    fn is_nullable() -> (r: bool) {
        false
    }

    fn coercible() -> (r: bool) {
        true
    }
}

impl Typeable for usize {
    open spec fn spec_pyro_type() -> PyroType {
        PyroType::PrimitiveScalar(PrimitiveDataType::U64)
    }

    open spec fn spec_primitive_data_type() -> Option<PrimitiveDataType> {
        Some(PrimitiveDataType::U64)
    }

    open spec fn spec_is_nullable() -> bool {
        false
    }

    open spec fn spec_coercible() -> bool {
        true
    }

    fn pyro_type() -> (r: PyroType) {
        PyroType::PrimitiveScalar(PrimitiveDataType::U64)
    }

    fn primitive_data_type() -> (r: Option<PrimitiveDataType>) {
        Some(PrimitiveDataType::U64)
    }

    fn is_nullable() -> (r: bool) {
        false
    }

    fn coercible() -> (r: bool) {
        true
    }
}

impl Typeable for i8 {
    open spec fn spec_pyro_type() -> PyroType {
        PyroType::PrimitiveScalar(PrimitiveDataType::I8)
    }

    open spec fn spec_primitive_data_type() -> Option<PrimitiveDataType> {
        Some(PrimitiveDataType::I8)
    }

    open spec fn spec_is_nullable() -> bool {
        false
    }

    open spec fn spec_coercible() -> bool {
        true
    }

    fn pyro_type() -> (r: PyroType) {
        PyroType::PrimitiveScalar(PrimitiveDataType::I8)
    }

    fn primitive_data_type() -> (r: Option<PrimitiveDataType>) {
        Some(PrimitiveDataType::I8)
    }

    fn is_nullable() -> (r: bool) {
        false
    }

    fn coercible() -> (r: bool) {
        true
    }
}

impl Typeable for i16 {
    open spec fn spec_pyro_type() -> PyroType {
        PyroType::PrimitiveScalar(PrimitiveDataType::I16)
    }

    open spec fn spec_primitive_data_type() -> Option<PrimitiveDataType> {
        Some(PrimitiveDataType::I16)
    }

    open spec fn spec_is_nullable() -> bool {
        false
    }

    open spec fn spec_coercible() -> bool {
        true
    }

    fn pyro_type() -> (r: PyroType) {
        PyroType::PrimitiveScalar(PrimitiveDataType::I16)
    }

    fn primitive_data_type() -> (r: Option<PrimitiveDataType>) {
        Some(PrimitiveDataType::I16)
    }

    fn is_nullable() -> (r: bool) {
        false
    }

    fn coercible() -> (r: bool) {
        true
    }
}

impl Typeable for i32 {
    open spec fn spec_pyro_type() -> PyroType {
        PyroType::PrimitiveScalar(PrimitiveDataType::I32)
    }

    open spec fn spec_primitive_data_type() -> Option<PrimitiveDataType> {
        Some(PrimitiveDataType::I32)
    }

    open spec fn spec_is_nullable() -> bool {
        false
    }

    open spec fn spec_coercible() -> bool {
        true
    }

    fn pyro_type() -> (r: PyroType) {
        PyroType::PrimitiveScalar(PrimitiveDataType::I32)
    }

    fn primitive_data_type() -> (r: Option<PrimitiveDataType>) {
        Some(PrimitiveDataType::I32)
    }

    fn is_nullable() -> (r: bool) {
        false
    }

    fn coercible() -> (r: bool) {
        true
    }
}

impl Typeable for i64 {
    open spec fn spec_pyro_type() -> PyroType {
        PyroType::PrimitiveScalar(PrimitiveDataType::I64)
    }

    open spec fn spec_primitive_data_type() -> Option<PrimitiveDataType> {
        Some(PrimitiveDataType::I64)
    }

    open spec fn spec_is_nullable() -> bool {
        false
    }

    open spec fn spec_coercible() -> bool {
        true
    }

    fn pyro_type() -> (r: PyroType) {
        PyroType::PrimitiveScalar(PrimitiveDataType::I64)
    }

    fn primitive_data_type() -> (r: Option<PrimitiveDataType>) {
        Some(PrimitiveDataType::I64)
    }

    fn is_nullable() -> (r: bool) {
        false
    }

    fn coercible() -> (r: bool) {
        true
    }
}

impl Typeable for String {
    open spec fn spec_pyro_type() -> PyroType {
        PyroType::Str
    }

    open spec fn spec_primitive_data_type() -> Option<PrimitiveDataType> {
        None
    }

    open spec fn spec_is_nullable() -> bool {
        false
    }

    open spec fn spec_coercible() -> bool {
        true
    }

    fn pyro_type() -> (r: PyroType) {
        PyroType::Str
    }

    fn primitive_data_type() -> (r: Option<PrimitiveDataType>) {
        None
    }

    fn is_nullable() -> (r: bool) {
        false
    }

    fn coercible() -> (r: bool) {
        true
    }
}

impl<'a> Typeable for &'a str {
    open spec fn spec_pyro_type() -> PyroType {
        PyroType::Str
    }

    open spec fn spec_primitive_data_type() -> Option<PrimitiveDataType> {
        None
    }

    open spec fn spec_is_nullable() -> bool {
        false
    }

    open spec fn spec_coercible() -> bool {
        true
    }

    fn pyro_type() -> (r: PyroType) {
        PyroType::Str
    }

    fn primitive_data_type() -> (r: Option<PrimitiveDataType>) {
        None
    }

    fn is_nullable() -> (r: bool) {
        false
    }

    fn coercible() -> (r: bool) {
        true
    }
}

/// `Option<T>` has the type of `T`, and may be missing.
impl<T: Typeable> Typeable for Option<T> {
    open spec fn spec_pyro_type() -> PyroType {
        T::spec_pyro_type()
    }

    open spec fn spec_primitive_data_type() -> Option<PrimitiveDataType> {
        T::spec_primitive_data_type()
    }

    open spec fn spec_is_nullable() -> bool {
        true
    }

    open spec fn spec_coercible() -> bool {
        T::spec_coercible()
    }

    fn pyro_type() -> (r: PyroType) {
        T::pyro_type()
    }

    fn primitive_data_type() -> (r: Option<PrimitiveDataType>) {
        T::primitive_data_type()
    }

    fn is_nullable() -> (r: bool) {
        true
    }

    fn coercible() -> (r: bool) {
        T::coercible()
    }
}

/// The type of a list of `T`: a list of scalars when `T` is a scalar that
/// cannot be missing, a general list otherwise.
pub open spec fn list_type<T: Typeable>() -> PyroType {
    match T::spec_primitive_data_type() {
        Some(p) => if !T::spec_is_nullable() {
            PyroType::PrimitiveList(p)
        } else {
            PyroType::List(Box::new(T::spec_pyro_type()), T::spec_is_nullable())
        },
        None => PyroType::List(Box::new(T::spec_pyro_type()), T::spec_is_nullable()),
    }
}

/// The type of an array of `n` values of `T`: a fixed list of scalars when
/// `T` is a scalar that cannot be missing, a general list otherwise.
pub open spec fn array_type<T: Typeable>(n: usize) -> PyroType {
    match T::spec_primitive_data_type() {
        Some(p) => if !T::spec_is_nullable() {
            PyroType::PrimitiveFixedList(p, n)
        } else {
            PyroType::List(Box::new(T::spec_pyro_type()), T::spec_is_nullable())
        },
        None => PyroType::List(Box::new(T::spec_pyro_type()), T::spec_is_nullable()),
    }
}

impl<T: Typeable> Typeable for Vec<T> {
    open spec fn spec_pyro_type() -> PyroType {
        list_type::<T>()
    }

    open spec fn spec_primitive_data_type() -> Option<PrimitiveDataType> {
        None
    }

    open spec fn spec_is_nullable() -> bool {
        false
    }

    open spec fn spec_coercible() -> bool {
        T::spec_coercible()
    }

    fn pyro_type() -> (r: PyroType) {
        if let Some(prim) = T::primitive_data_type() {
            if !T::is_nullable() {
                return PyroType::PrimitiveList(prim);
            }
        }
        PyroType::List(Box::new(T::pyro_type()), T::is_nullable())
    }

    fn primitive_data_type() -> (r: Option<PrimitiveDataType>) {
        None
    }

    fn is_nullable() -> (r: bool) {
        false
    }

    fn coercible() -> (r: bool) {
        T::coercible()
    }
}

impl<T: Typeable, const N: usize> Typeable for [T; N] {
    open spec fn spec_pyro_type() -> PyroType {
        array_type::<T>(N)
    }

    open spec fn spec_primitive_data_type() -> Option<PrimitiveDataType> {
        None
    }

    open spec fn spec_is_nullable() -> bool {
        false
    }

    open spec fn spec_coercible() -> bool {
        T::spec_coercible()
    }

    fn pyro_type() -> (r: PyroType) {
        if let Some(prim) = T::primitive_data_type() {
            if !T::is_nullable() {
                return PyroType::PrimitiveFixedList(prim, N);
            }
        }
        PyroType::List(Box::new(T::pyro_type()), T::is_nullable())
    }

    fn primitive_data_type() -> (r: Option<PrimitiveDataType>) {
        None
    }

    fn is_nullable() -> (r: bool) {
        false
    }

    fn coercible() -> (r: bool) {
        T::coercible()
    }
}

impl<K: Typeable, V: Typeable> Typeable for HashMap<K, V> {
    open spec fn spec_pyro_type() -> PyroType {
        PyroType::KeyValueMap { key: Box::new(K::spec_pyro_type()), value: Box::new(V::spec_pyro_type()) }
    }

    open spec fn spec_primitive_data_type() -> Option<PrimitiveDataType> {
        None
    }

    open spec fn spec_is_nullable() -> bool {
        false
    }

    open spec fn spec_coercible() -> bool {
        K::spec_coercible() && V::spec_coercible()
    }

    fn pyro_type() -> (r: PyroType) {
        PyroType::KeyValueMap { key: Box::new(K::pyro_type()), value: Box::new(V::pyro_type()) }
    }

    fn primitive_data_type() -> (r: Option<PrimitiveDataType>) {
        None
    }

    fn is_nullable() -> (r: bool) {
        false
    }

    fn coercible() -> (r: bool) {
        K::coercible() && V::coercible()
    }
}

impl<K: Typeable, V: Typeable> Typeable for BTreeMap<K, V> {
    open spec fn spec_pyro_type() -> PyroType {
        PyroType::KeyValueMap { key: Box::new(K::spec_pyro_type()), value: Box::new(V::spec_pyro_type()) }
    }

    open spec fn spec_primitive_data_type() -> Option<PrimitiveDataType> {
        None
    }

    open spec fn spec_is_nullable() -> bool {
        false
    }

    open spec fn spec_coercible() -> bool {
        K::spec_coercible() && V::spec_coercible()
    }

    fn pyro_type() -> (r: PyroType) {
        PyroType::KeyValueMap { key: Box::new(K::pyro_type()), value: Box::new(V::pyro_type()) }
    }

    fn primitive_data_type() -> (r: Option<PrimitiveDataType>) {
        None
    }

    fn is_nullable() -> (r: bool) {
        false
    }

    fn coercible() -> (r: bool) {
        K::coercible() && V::coercible()
    }
}

/// The fields of a row type, with an optional description.
#[derive(Debug, PartialEq, Eq)]
pub struct PyroSchema {
    pub documentation: Option<String>,
    pub fields: Vec<PyroField>,
}

impl PyroSchema {
    /// A schema of `fields` without a description.
    pub fn new(fields: Vec<PyroField>) -> (r: PyroSchema)
        ensures
            r.fields@ == fields@,
            r.documentation is None,
    {
        PyroSchema { documentation: None, fields }
    }

    /// The fields.
    pub fn fields(&self) -> (r: &[PyroField])
        ensures
            r@ == self.fields@,
    {
        self.fields.as_slice()
    }

    /// How many fields there are.
    pub fn num_fields(&self) -> (r: usize)
        ensures
            r == self.fields@.len(),
    {
        self.fields.len()
    }

    /// The field at position `i`.
    pub fn field(&self, i: usize) -> (r: &PyroField)
        requires
            i < self.fields@.len(),
        ensures
            *r == self.fields@[i as int],
    {
        &self.fields[i]
    }

    /// The first field named `name`, if any.
    pub fn field_with_name(&self, name: &str) -> (r: Option<&PyroField>)
        ensures
            r is None <==> forall|i: int| 0 <= i < self.fields@.len() ==> self.fields@[i].name@ != name@,
            r matches Some(f) ==> exists|i: int|
                0 <= i < self.fields@.len() && *f == self.fields@[i] && f.name@ == name@ && forall|j: int|
                    0 <= j < i ==> self.fields@[j].name@ != name@,
    {
        let mut i: usize = 0;
        while i < self.fields.len()
            invariant
                i <= self.fields@.len(),
                forall|j: int| 0 <= j < i ==> self.fields@[j].name@ != name@,
            decreases self.fields.len() - i,
        {
            if crate::value::text_eq(self.fields[i].name.as_str(), name) {
                return Some(&self.fields[i]);
            }
            i = i + 1;
        }
        None
    }
}

} // verus!
