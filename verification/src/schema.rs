//! The schema of rows: the fields of one row, or of many rows with the
//! fields named in any of them, in the order of their names, nullable
//! where a row lacks them or holds the missing value, and of the type
//! their values have.
use vstd::prelude::*;
use vstd::utf8::encode_utf8;

use crate::typeable::{fields_model, FieldModel, PyroField, PyroSchema, PyroType, TypeModel};
use crate::value::{items_model, lemma_items_model, PyroRow, PyroValue, ValueModel};
use crate::value_type::{fields_of_row, merges_as, row_fields, type_merged, type_of};

verus! {

/// Whether the bytes `a` come before the bytes `b` in lexicographic order.
pub open spec fn bytes_lt(a: Seq<u8>, b: Seq<u8>) -> bool
    decreases a.len(),
{
    if a.len() == 0 {
        b.len() > 0
    } else if b.len() == 0 {
        false
    } else if a[0] != b[0] {
        a[0] < b[0]
    } else {
        bytes_lt(a.skip(1), b.skip(1))
    }
}

/// Whether the name `x` comes before the name `y`: names are ordered by
/// their UTF-8 bytes, as Rust orders strings.
pub open spec fn name_lt(x: Seq<char>, y: Seq<char>) -> bool {
    bytes_lt(encode_utf8(x), encode_utf8(y))
}

pub proof fn lemma_bytes_lt_irreflexive(a: Seq<u8>)
    ensures
        !bytes_lt(a, a),
    decreases a.len(),
{
    if a.len() > 0 {
        lemma_bytes_lt_irreflexive(a.skip(1));
    }
}

pub proof fn lemma_bytes_lt_asymmetric(a: Seq<u8>, b: Seq<u8>)
    requires
        bytes_lt(a, b),
    ensures
        !bytes_lt(b, a),
    decreases a.len(),
{
    if a.len() > 0 && b.len() > 0 && a[0] == b[0] {
        lemma_bytes_lt_asymmetric(a.skip(1), b.skip(1));
    }
}

pub proof fn lemma_bytes_lt_transitive(a: Seq<u8>, b: Seq<u8>, c: Seq<u8>)
    requires
        bytes_lt(a, b),
        bytes_lt(b, c),
    ensures
        bytes_lt(a, c),
    decreases a.len(),
{
    if a.len() > 0 && b.len() > 0 && c.len() > 0 && a[0] == b[0] && b[0] == c[0] {
        lemma_bytes_lt_transitive(a.skip(1), b.skip(1), c.skip(1));
    }
}

pub proof fn lemma_bytes_lt_total(a: Seq<u8>, b: Seq<u8>)
    ensures
        bytes_lt(a, b) || bytes_lt(b, a) || a == b,
    decreases a.len(),
{
    if a.len() > 0 && b.len() > 0 && a[0] == b[0] {
        lemma_bytes_lt_total(a.skip(1), b.skip(1));
        if a.skip(1) == b.skip(1) {
            assert(a =~= seq![a[0]] + a.skip(1));
            assert(b =~= seq![b[0]] + b.skip(1));
        }
    } else if a.len() == 0 && b.len() == 0 {
        assert(a =~= b);
    }
}

proof fn lemma_bytes_lt_common_prefix(a: Seq<u8>, b: Seq<u8>, i: int)
    requires
        0 <= i <= a.len(),
        i <= b.len(),
        a.take(i) == b.take(i),
    ensures
        bytes_lt(a, b) == bytes_lt(a.skip(i), b.skip(i)),
    decreases i,
{
    if i > 0 {
        assert(a[0] == a.take(i)[0]);
        assert(b[0] == b.take(i)[0]);
        assert(a.skip(1).take(i - 1) =~= a.take(i).skip(1));
        assert(b.skip(1).take(i - 1) =~= b.take(i).skip(1));
        lemma_bytes_lt_common_prefix(a.skip(1), b.skip(1), i - 1);
        assert(a.skip(1).skip(i - 1) =~= a.skip(i));
        assert(b.skip(1).skip(i - 1) =~= b.skip(i));
    } else {
        assert(a.skip(0) =~= a);
        assert(b.skip(0) =~= b);
    }
}

/// Of two byte strings, where they first differ the one with the smaller
/// byte comes first; a proper prefix comes before the longer string.
pub proof fn lemma_bytes_lt_order(a: Seq<u8>, b: Seq<u8>, i: int)
    requires
        0 <= i <= a.len(),
        i <= b.len(),
        a.take(i) == b.take(i),
    ensures
        i < a.len() && i < b.len() && a[i] != b[i] ==> (bytes_lt(a, b) <==> a[i] < b[i]),
        i == a.len() && a.len() < b.len() ==> bytes_lt(a, b),
{
    lemma_bytes_lt_common_prefix(a, b, i);
    if i < a.len() && i < b.len() {
        assert(a.skip(i)[0] == a[i]);
        assert(b.skip(i)[0] == b[i]);
    }
}

/// Whether the name `a` comes before the name `b`.
pub fn name_before(a: &str, b: &str) -> (r: bool)
    ensures
        r == name_lt(a@, b@),
{
    let x = a.as_bytes();
    let y = b.as_bytes();
    let mut i: usize = 0;
    while i < x.len() && i < y.len()
        invariant
            x@ == encode_utf8(a@),
            y@ == encode_utf8(b@),
            i <= x@.len(),
            i <= y@.len(),
            x@.take(i as int) == y@.take(i as int),
        decreases x.len() - i,
    {
        if x[i] != y[i] {
            proof {
                lemma_bytes_lt_common_prefix(x@, y@, i as int);
                assert(x@.skip(i as int)[0] == x@[i as int]);
                assert(y@.skip(i as int)[0] == y@[i as int]);
            }
            return x[i] < y[i];
        }
        proof {
            assert(x@.take(i + 1) =~= x@.take(i as int).push(x@[i as int]));
            assert(y@.take(i + 1) =~= y@.take(i as int).push(y@[i as int]));
        }
        i = i + 1;
    }
    proof {
        lemma_bytes_lt_common_prefix(x@, y@, i as int);
    }
    x.len() < y.len()
}

/// Why a schema could not be inferred from rows.
#[derive(Debug)]
pub enum ValueSchemaInferenceError {
    /// Two values of the named field have types that do not merge.
    IncompatibleTypes(String, PyroType, PyroType),
    /// A row without items has no schema.
    EmptyRow,
}

impl PyroRow {
    /// The schema of this row: one nullable field per item, of the item's
    /// name and the type of its value, in the order of the items; an error
    /// for a row without items.
    pub fn schema<F: Fn(&PyroType, &PyroType) -> Option<PyroType>>(&self, coerce: &F) -> (r: Result<PyroSchema, ValueSchemaInferenceError>)
        requires
            forall|x: &PyroType, y: &PyroType| call_requires(*coerce, (x, y)),
        ensures
            self@.len() == 0 <==> r is Err,
            r matches Err(e) ==> e is EmptyRow,
            r matches Ok(s) ==> s.documentation is None && s.fields@.len() == self@.len()
                && (row_fields(self@) matches Some(fs) ==> fields_model(s.fields@) == fs),
    {
        if self.is_empty() {
            return Err(ValueSchemaInferenceError::EmptyRow);
        }
        Ok(PyroSchema::new(fields_of_row(self, coerce)))
    }
}

// ---------------------------------------------------------------------------
// Inferring the schema of many rows
// ---------------------------------------------------------------------------

/// Whether the row `items` has an item named `k`.
pub open spec fn has_key(items: Seq<(Seq<char>, ValueModel)>, k: Seq<char>) -> bool {
    exists|t: int| 0 <= t < items.len() && items[t].0 == k
}

/// Whether the position `(r, t)` holds an item of the rows.
pub open spec fn at(rows: Seq<Seq<(Seq<char>, ValueModel)>>, r: int, t: int) -> bool {
    0 <= r < rows.len() && 0 <= t < rows[r].len()
}

/// Whether some row has an item named `k`.
pub open spec fn named(rows: Seq<Seq<(Seq<char>, ValueModel)>>, k: Seq<char>) -> bool {
    exists|r: int| 0 <= r < rows.len() && has_key(rows[r], k)
}

/// Whether the field `k` may be missing: some row lacks it, or holds the
/// missing value under it.
pub open spec fn nullable_in(rows: Seq<Seq<(Seq<char>, ValueModel)>>, k: Seq<char>) -> bool {
    ||| exists|r: int| 0 <= r < rows.len() && !has_key(rows[r], k)
    ||| exists|r: int, t: int| at(rows, r, t) && rows[r][t].0 == k && rows[r][t].1 is Null
}

/// Whether every present value has a column type, the same for all the
/// values of one name.
#[verifier::opaque]
pub open spec fn agreed(rows: Seq<Seq<(Seq<char>, ValueModel)>>) -> bool {
    forall|r1: int, t1: int, r2: int, t2: int|
        at(rows, r1, t1) && at(rows, r2, t2) && rows[r1][t1].0 == rows[r2][t2].0 && !(
        rows[r1][t1].1 is Null) && !(rows[r2][t2].1 is Null) ==> type_of(rows[r1][t1].1) is Some
            && type_of(rows[r1][t1].1) == type_of(rows[r2][t2].1)
}

/// Whether the position `(r, t)` holds a present value under `k`.
pub open spec fn present_at(rows: Seq<Seq<(Seq<char>, ValueModel)>>, k: Seq<char>, r: int, t: int) -> bool {
    at(rows, r, t) && rows[r][t].0 == k && !(rows[r][t].1 is Null)
}

/// The type of the field `k`: the type of its present values, or `Null`
/// when it has none.
pub open spec fn field_type(rows: Seq<Seq<(Seq<char>, ValueModel)>>, k: Seq<char>) -> TypeModel {
    if exists|r: int, t: int| present_at(rows, k, r, t) {
        let (r, t) = choose|r: int, t: int| present_at(rows, k, r, t);
        match type_of(rows[r][t].1) {
            Some(ty) => ty,
            None => TypeModel::Null,
        }
    } else {
        TypeModel::Null
    }
}

/// Whether `fields` has the shape of the schema of `rows`: the names of
/// all rows in increasing order, each field nullable as [`nullable_in`]
/// says.
pub open spec fn is_shape_of(fields: Seq<FieldModel>, rows: Seq<Seq<(Seq<char>, ValueModel)>>) -> bool {
    &&& forall|a: int, b: int| 0 <= a < b < fields.len() ==> name_lt(fields[a].name, fields[b].name)
    &&& forall|k: Seq<char>| named(rows, k) <==> exists|a: int| 0 <= a < fields.len() && fields[a].name == k
    &&& forall|a: int| 0 <= a < fields.len() ==> #[trigger] fields[a].nullable == nullable_in(rows, fields[a].name)
}

/// Whether `fields` is the schema of `rows`: it has the shape of that
/// schema, and each field is of the type [`field_type`] gives.
pub open spec fn is_schema_of(fields: Seq<FieldModel>, rows: Seq<Seq<(Seq<char>, ValueModel)>>) -> bool {
    &&& is_shape_of(fields, rows)
    &&& forall|a: int| #![trigger fields[a]] 0 <= a < fields.len() ==> fields[a].data_type == field_type(rows, fields[a].name)
}

/// The rows as the library denotes them.
pub open spec fn rows_model(rows: Seq<PyroRow>) -> Seq<Seq<(Seq<char>, ValueModel)>> {
    rows.map_values(|row: PyroRow| row@)
}

// ---------------------------------------------------------------------------
// The type of a field, merged as the values are read
// ---------------------------------------------------------------------------

/// The type learned of a field after the value `v` of it, from what was
/// learned before (`None` before any present value), when differing types
/// merge as `m` says: the missing value changes nothing, the first present
/// value gives its type, a value of the same type keeps it, and a value of
/// another type is merged with it; nothing when `m` does not merge them.
pub open spec fn type_step(cur: Option<TypeModel>, v: ValueModel, m: spec_fn(TypeModel, TypeModel) -> Option<TypeModel>) -> Option<Option<TypeModel>> {
    if v is Null {
        Some(cur)
    } else {
        let t = type_merged(v, m);
        match cur {
            None => Some(Some(t)),
            Some(c) => if c == t {
                Some(Some(c))
            } else {
                match m(c, t) {
                    Some(x) => Some(Some(x)),
                    None => None,
                }
            },
        }
    }
}

/// The type learned of the field `k` from `start` on, reading `items` in
/// order.
pub open spec fn fold_items(
    start: Option<Option<TypeModel>>,
    items: Seq<(Seq<char>, ValueModel)>,
    k: Seq<char>,
    m: spec_fn(TypeModel, TypeModel) -> Option<TypeModel>,
) -> Option<Option<TypeModel>>
    decreases items.len(),
{
    if items.len() == 0 {
        start
    } else {
        match fold_items(start, items.drop_last(), k, m) {
            None => None,
            Some(cur) => if items.last().0 == k {
                type_step(cur, items.last().1, m)
            } else {
                Some(cur)
            },
        }
    }
}

/// The type learned of the field `k` reading the rows in order, each row's
/// items in order.
pub open spec fn fold_rows(rows: Seq<Seq<(Seq<char>, ValueModel)>>, k: Seq<char>, m: spec_fn(TypeModel, TypeModel) -> Option<TypeModel>) -> Option<Option<TypeModel>>
    decreases rows.len(),
{
    if rows.len() == 0 {
        Some(None)
    } else {
        fold_items(fold_rows(rows.drop_last(), k, m), rows.last(), k, m)
    }
}

/// The type of the field `k` when differing types merge as `m` says: the
/// type learned from all its present values, or `Null` when it has none.
pub open spec fn merged_field_type(rows: Seq<Seq<(Seq<char>, ValueModel)>>, k: Seq<char>, m: spec_fn(TypeModel, TypeModel) -> Option<TypeModel>) -> TypeModel {
    match fold_rows(rows, k, m) {
        Some(Some(t)) => t,
        _ => TypeModel::Null,
    }
}

/// The type learned of `k` once the first `i` rows and the first `j` items
/// of row `i` have been read.
pub open spec fn fold_at(rows: Seq<Seq<(Seq<char>, ValueModel)>>, i: int, j: int, k: Seq<char>, m: spec_fn(TypeModel, TypeModel) -> Option<TypeModel>) -> Option<Option<TypeModel>> {
    fold_items(fold_rows(rows.take(i), k, m), rows[i].take(j), k, m)
}

/// Whether every accumulator holds the type learned of its name at
/// `(i, j)`.
pub open spec fn accs_fold(acc: Seq<(Seq<char>, Option<TypeModel>, bool)>, rows: Seq<Seq<(Seq<char>, ValueModel)>>, i: int, j: int, m: spec_fn(TypeModel, TypeModel) -> Option<TypeModel>) -> bool {
    forall|a: int| 0 <= a < acc.len() ==> fold_at(rows, i, j, #[trigger] acc[a].0, m) == Some::<Option<TypeModel>>(acc[a].1)
}

/// Whether every accumulator holds the type learned of its name from the
/// first `i` rows.
pub open spec fn accs_fold_rows(acc: Seq<(Seq<char>, Option<TypeModel>, bool)>, rows: Seq<Seq<(Seq<char>, ValueModel)>>, i: int, m: spec_fn(TypeModel, TypeModel) -> Option<TypeModel>) -> bool {
    forall|a: int| 0 <= a < acc.len() ==> fold_rows(rows.take(i), #[trigger] acc[a].0, m) == Some::<Option<TypeModel>>(acc[a].1)
}

proof fn lemma_fold_items_absent(
    start: Option<Option<TypeModel>>,
    items: Seq<(Seq<char>, ValueModel)>,
    k: Seq<char>,
    m: spec_fn(TypeModel, TypeModel) -> Option<TypeModel>,
)
    requires
        forall|t: int| 0 <= t < items.len() ==> (#[trigger] items[t]).0 != k,
    ensures
        fold_items(start, items, k, m) == start,
    decreases items.len(),
{
    if items.len() > 0 {
        let d = items.drop_last();
        assert forall|t: int| 0 <= t < d.len() implies (#[trigger] d[t]).0 != k by {
            assert(d[t] == items[t]);
        }
        lemma_fold_items_absent(start, d, k, m);
        assert(items.last() == items[items.len() - 1]);
        assert(items.last().0 != k);
    }
}

proof fn lemma_fold_items_err(items: Seq<(Seq<char>, ValueModel)>, k: Seq<char>, m: spec_fn(TypeModel, TypeModel) -> Option<TypeModel>)
    ensures
        fold_items(None, items, k, m) == None::<Option<TypeModel>>,
    decreases items.len(),
{
    if items.len() > 0 {
        lemma_fold_items_err(items.drop_last(), k, m);
    }
}

/// A field that no row names is learned to have no type.
proof fn lemma_fold_rows_absent(rows: Seq<Seq<(Seq<char>, ValueModel)>>, k: Seq<char>, m: spec_fn(TypeModel, TypeModel) -> Option<TypeModel>)
    requires
        forall|r: int, t: int| at(rows, r, t) ==> rows[r][t].0 != k,
    ensures
        fold_rows(rows, k, m) == Some::<Option<TypeModel>>(None),
    decreases rows.len(),
{
    if rows.len() > 0 {
        let d = rows.drop_last();
        assert forall|r: int, t: int| at(d, r, t) implies d[r][t].0 != k by {
            assert(at(rows, r, t));
        }
        lemma_fold_rows_absent(d, k, m);
        let l = rows.last();
        assert forall|t: int| 0 <= t < l.len() implies (#[trigger] l[t]).0 != k by {
            assert(at(rows, rows.len() - 1, t));
        }
        lemma_fold_items_absent(Some(None), l, k, m);
    }
}

proof fn lemma_fold_items_stuck(
    start: Option<Option<TypeModel>>,
    items: Seq<(Seq<char>, ValueModel)>,
    j: int,
    k: Seq<char>,
    m: spec_fn(TypeModel, TypeModel) -> Option<TypeModel>,
)
    requires
        0 <= j <= items.len(),
        fold_items(start, items.take(j), k, m) is None,
    ensures
        fold_items(start, items, k, m) is None,
    decreases items.len() - j,
{
    if j == items.len() {
        assert(items.take(j) =~= items);
    } else {
        assert(items.take(j + 1).drop_last() =~= items.take(j));
        lemma_fold_items_stuck(start, items, j + 1, k, m);
    }
}

proof fn lemma_fold_rows_stuck(rows: Seq<Seq<(Seq<char>, ValueModel)>>, i: int, k: Seq<char>, m: spec_fn(TypeModel, TypeModel) -> Option<TypeModel>)
    requires
        0 <= i <= rows.len(),
        fold_rows(rows.take(i), k, m) is None,
    ensures
        fold_rows(rows, k, m) is None,
    decreases rows.len() - i,
{
    if i == rows.len() {
        assert(rows.take(i) =~= rows);
    } else {
        assert(rows.take(i + 1).drop_last() =~= rows.take(i));
        assert(rows.take(i + 1).last() == rows[i]);
        lemma_fold_items_err(rows[i], k, m);
        assert(fold_rows(rows.take(i), k, m) == None::<Option<TypeModel>>);
        assert(fold_rows(rows.take(i + 1), k, m) is None);
        lemma_fold_rows_stuck(rows, i + 1, k, m);
    }
}

/// Reading the item at `(i, j)` changes only what is learned of its name.
proof fn lemma_fold_at_next(rows: Seq<Seq<(Seq<char>, ValueModel)>>, i: int, j: int, k: Seq<char>, m: spec_fn(TypeModel, TypeModel) -> Option<TypeModel>)
    requires
        at(rows, i, j),
    ensures
        fold_at(rows, i, j + 1, k, m) == (match fold_at(rows, i, j, k, m) {
            None => None,
            Some(cur) => if rows[i][j].0 == k {
                type_step(cur, rows[i][j].1, m)
            } else {
                Some(cur)
            },
        }),
{
    assert(rows[i].take(j + 1).drop_last() =~= rows[i].take(j));
    assert(rows[i].take(j + 1).last() == rows[i][j]);
}

/// Before a field's name has been read, nothing is learned of it.
proof fn lemma_fold_fresh(rows: Seq<Seq<(Seq<char>, ValueModel)>>, i: int, j: int, k: Seq<char>, m: spec_fn(TypeModel, TypeModel) -> Option<TypeModel>)
    requires
        0 <= i < rows.len(),
        0 <= j <= rows[i].len(),
        forall|r: int, t: int| done(rows, i, j, r, t) ==> rows[r][t].0 != k,
    ensures
        fold_at(rows, i, j, k, m) == Some::<Option<TypeModel>>(None),
{
    let p = rows.take(i);
    assert forall|r: int, t: int| at(p, r, t) implies p[r][t].0 != k by {
        assert(done(rows, i, j, r, t));
    }
    lemma_fold_rows_absent(p, k, m);
    let l = rows[i].take(j);
    assert forall|t: int| 0 <= t < l.len() implies (#[trigger] l[t]).0 != k by {
        assert(done(rows, i, j, i, t));
    }
    lemma_fold_items_absent(Some(None), l, k, m);
}

/// Reading the item at `(i, j)` into the accumulator of its name at `pos`
/// (`found`) or into a new one inserted there, keeps every accumulator's
/// type the one learned of its name.
proof fn lemma_fold_step(
    acc: Seq<(Seq<char>, Option<TypeModel>, bool)>,
    rows: Seq<Seq<(Seq<char>, ValueModel)>>,
    i: int,
    j: int,
    pos: int,
    found: bool,
    e2: (Seq<char>, Option<TypeModel>, bool),
    m: spec_fn(TypeModel, TypeModel) -> Option<TypeModel>,
)
    requires
        at(rows, i, j),
        accs_fold(acc, rows, i, j, m),
        found ==> 0 <= pos < acc.len() && acc[pos].0 == rows[i][j].0 && sorted_names(acc),
        !found ==> 0 <= pos <= acc.len() && (forall|a: int| 0 <= a < acc.len() ==> #[trigger] acc[a].0 != rows[i][j].0)
            && fold_at(rows, i, j, rows[i][j].0, m) == Some::<Option<TypeModel>>(None),
        e2.0 == rows[i][j].0,
        type_step(
            if found {
                acc[pos].1
            } else {
                None
            },
            rows[i][j].1,
            m,
        ) == Some::<Option<TypeModel>>(e2.1),
    ensures
        accs_fold(
            if found {
                acc.update(pos, e2)
            } else {
                acc.insert(pos, e2)
            },
            rows,
            i,
            j + 1,
            m,
        ),
{
    let k = rows[i][j].0;
    let acc2 = if found {
        acc.update(pos, e2)
    } else {
        acc.insert(pos, e2)
    };
    assert forall|a: int| 0 <= a < acc2.len() implies fold_at(rows, i, j + 1, #[trigger] acc2[a].0, m)
        == Some::<Option<TypeModel>>(acc2[a].1) by {
        lemma_fold_at_next(rows, i, j, acc2[a].0, m);
        if a == pos {
            if found {
                assert(fold_at(rows, i, j, acc[pos].0, m) == Some::<Option<TypeModel>>(acc[pos].1));
            }
        } else {
            let b = if found || a < pos {
                a
            } else {
                a - 1
            };
            assert(acc2[a] == acc[b]);
            assert(fold_at(rows, i, j, acc[b].0, m) == Some::<Option<TypeModel>>(acc[b].1));
            if found && acc[b].0 == k {
                if b < pos {
                    assert(name_lt(acc[b].0, acc[pos].0));
                } else {
                    assert(name_lt(acc[pos].0, acc[b].0));
                }
                lemma_name_lt_irreflexive(k);
            }
        }
    }
}

/// What has been learned from all items of row `i` is what is learned from
/// the first `i + 1` rows.
proof fn lemma_fold_row_end(rows: Seq<Seq<(Seq<char>, ValueModel)>>, i: int, k: Seq<char>, m: spec_fn(TypeModel, TypeModel) -> Option<TypeModel>)
    requires
        0 <= i < rows.len(),
    ensures
        fold_at(rows, i, rows[i].len() as int, k, m) == fold_rows(rows.take(i + 1), k, m),
{
    assert(rows[i].take(rows[i].len() as int) =~= rows[i]);
    assert(rows.take(i + 1).drop_last() =~= rows.take(i));
    assert(rows.take(i + 1).last() == rows[i]);
}

/// What has been learned of one field while reading rows.
struct FieldAccumulator {
    name: String,
    data_type: Option<PyroType>,
    nullable: bool,
}

/// What an accumulator holds: the field's name, its type so far, and
/// whether it may be missing.
pub open spec fn acc_view(name: Seq<char>, data_type: Option<PyroType>, nullable: bool) -> (Seq<char>, Option<TypeModel>, bool) {
    (
        name,
        match data_type {
            Some(t) => Some(t@),
            None => None,
        },
        nullable,
    )
}

impl FieldAccumulator {
    spec fn view(&self) -> (Seq<char>, Option<TypeModel>, bool) {
        acc_view(self.name@, self.data_type, self.nullable)
    }

    fn new(name: String) -> (r: FieldAccumulator)
        ensures
            r.view() == (name@, None::<TypeModel>, false),
    {
        FieldAccumulator { name, data_type: None, nullable: false }
    }

    /// Notes a value of the field: the missing value makes the field
    /// nullable, the first present value gives its type, and a present
    /// value of another type is merged with it by `coerce`, or is an
    /// error when they do not merge.
    fn observe<F: Fn(&PyroType, &PyroType) -> Option<PyroType>>(
        &mut self,
        field_name: &str,
        value: &PyroValue,
        coerce: &F,
    ) -> (r: Result<(), ValueSchemaInferenceError>)
        requires
            forall|x: &PyroType, y: &PyroType| call_requires(*coerce, (x, y)),
        ensures
            final(self).name == old(self).name,
            r matches Err(e) ==> e is IncompatibleTypes,
            r is Ok && !(value@ is Null) ==> final(self).view().0 == old(self).view().0 && final(self).view().1 is Some
                && final(self).view().2 == old(self).view().2,
            value@ is Null ==> r is Ok && final(self).view() == (old(self).view().0, old(self).view().1, true),
            !(value@ is Null) && type_of(value@) is Some && (old(self).view().1 is None || old(self).view().1
                == type_of(value@)) ==> r is Ok && final(self).view() == (
                old(self).view().0,
                type_of(value@),
                old(self).view().2,
            ),
            forall|m: spec_fn(TypeModel, TypeModel) -> Option<TypeModel>| #[trigger] merges_as(*coerce, m) ==> match type_step(
                old(self).view().1,
                value@,
                m,
            ) {
                Some(t) => r is Ok && final(self).view().1 == t,
                None => r is Err,
            },
            r matches Err(ValueSchemaInferenceError::IncompatibleTypes(n, _, _)) ==> n@ == field_name@,
    {
        if value.is_null() {
            self.nullable = true;
            return Ok(());
        }
        let observed = value.data_type(coerce);
        match self.data_type.take() {
            None => {
                self.data_type = Some(observed);
                Ok(())
            },
            Some(current) => {
                if crate::value_type::type_eq(&current, &observed) {
                    self.data_type = Some(current);
                    Ok(())
                } else {
                    let merged = coerce(&current, &observed);
                    proof {
                        assert forall|m: spec_fn(TypeModel, TypeModel) -> Option<TypeModel>| #[trigger]
                            merges_as(*coerce, m) implies crate::arrow_type::opt_type_model(merged) == m(
                            current@,
                            observed@,
                        ) by {
                            assert(call_ensures(*coerce, (&current, &observed), merged));
                        }
                    }
                    match merged {
                        Some(coerced) => {
                            self.data_type = Some(coerced);
                            Ok(())
                        },
                        None => {
                            let name = field_name.to_owned();
                            self.data_type = Some(current.clone());
                            Err(ValueSchemaInferenceError::IncompatibleTypes(name, current, observed))
                        },
                    }
                }
            },
        }
    }

    /// The field learned, of type `Null` when no present value was seen.
    fn build(self, name: String) -> (r: Result<PyroField, ValueSchemaInferenceError>)
        ensures
            r matches Ok(f) && f.name@ == name@ && f.nullable == self.nullable && f.data_type@ == (match self.view().1 {
                Some(t) => t,
                None => TypeModel::Null,
            }),
    {
        let dt = match self.data_type {
            Some(t) => t,
            None => PyroType::Null,
        };
        Ok(PyroField { name, data_type: dt, nullable: self.nullable })
    }
}

/// Whether the position `(r, t)` has been read once the first `i` rows and
/// the first `j` items of row `i` have.
pub open spec fn done(rows: Seq<Seq<(Seq<char>, ValueModel)>>, i: int, j: int, r: int, t: int) -> bool {
    at(rows, r, t) && (r < i || (r == i && t < j))
}

/// Whether an accumulator for the field named `e.0` holds whether the
/// field may be missing, and whether a present value of it has been read.
#[verifier::opaque]
pub open spec fn entry_shape(e: (Seq<char>, Option<TypeModel>, bool), rows: Seq<Seq<(Seq<char>, ValueModel)>>, i: int, j: int) -> bool {
    &&& e.2 == ((exists|r: int| 0 <= r < i && !has_key(rows[r], e.0)) || (exists|r: int, t: int|
        done(rows, i, j, r, t) && rows[r][t].0 == e.0 && rows[r][t].1 is Null))
    &&& (e.1 is None <==> !(exists|r: int, t: int|
        done(rows, i, j, r, t) && rows[r][t].0 == e.0 && !(rows[r][t].1 is Null)))
}

/// Whether the type an accumulator holds is the type of every present
/// value of its name read so far.
#[verifier::opaque]
pub open spec fn entry_typed(e: (Seq<char>, Option<TypeModel>, bool), rows: Seq<Seq<(Seq<char>, ValueModel)>>, i: int, j: int) -> bool {
    e.1 matches Some(ty) ==> forall|r: int, t: int|
        done(rows, i, j, r, t) && rows[r][t].0 == e.0 && !(rows[r][t].1 is Null) ==> type_of(rows[r][t].1)
            == Some(ty)
}

/// Whether an accumulator holds what has been read of its field: its
/// shape, and its type too when `typed`.
pub open spec fn entry_ok(e: (Seq<char>, Option<TypeModel>, bool), rows: Seq<Seq<(Seq<char>, ValueModel)>>, i: int, j: int, typed: bool) -> bool {
    entry_shape(e, rows, i, j) && (typed ==> entry_typed(e, rows, i, j))
}

/// Whether the names of the accumulators are in increasing order.
pub open spec fn sorted_names(acc: Seq<(Seq<char>, Option<TypeModel>, bool)>) -> bool {
    forall|a: int, b: int| 0 <= a < b < acc.len() ==> name_lt(acc[a].0, acc[b].0)
}

/// Whether the accumulators hold what has been read: one per name read,
/// in increasing order of names, each with its shape, and its type too
/// when `typed`.
pub open spec fn accs_ok(acc: Seq<(Seq<char>, Option<TypeModel>, bool)>, rows: Seq<Seq<(Seq<char>, ValueModel)>>, i: int, j: int, typed: bool) -> bool {
    &&& sorted_names(acc)
    &&& names_read(acc, rows, i, j)
    &&& names_kept(acc, rows, i, j)
    &&& forall|a: int| 0 <= a < acc.len() ==> entry_ok(#[trigger] acc[a], rows, i, j, typed)
}

/// Whether an item named `k` has been read.
pub open spec fn read_name(rows: Seq<Seq<(Seq<char>, ValueModel)>>, i: int, j: int, k: Seq<char>) -> bool {
    exists|r: int, t: int| done(rows, i, j, r, t) && rows[r][t].0 == k
}

/// Whether some accumulator is of the name `k`.
pub open spec fn kept_name(acc: Seq<(Seq<char>, Option<TypeModel>, bool)>, k: Seq<char>) -> bool {
    exists|a: int| 0 <= a < acc.len() && acc[a].0 == k
}

/// Whether every accumulator is of a name that has been read.
#[verifier::opaque]
pub open spec fn names_read(acc: Seq<(Seq<char>, Option<TypeModel>, bool)>, rows: Seq<Seq<(Seq<char>, ValueModel)>>, i: int, j: int) -> bool {
    forall|a: int| 0 <= a < acc.len() ==> read_name(rows, i, j, #[trigger] acc[a].0)
}

/// Whether every name read has an accumulator.
#[verifier::opaque]
pub open spec fn names_kept(acc: Seq<(Seq<char>, Option<TypeModel>, bool)>, rows: Seq<Seq<(Seq<char>, ValueModel)>>, i: int, j: int) -> bool {
    forall|r: int, t: int| done(rows, i, j, r, t) ==> kept_name(acc, #[trigger] rows[r][t].0)
}

proof fn lemma_name_lt_total(x: Seq<char>, y: Seq<char>)
    ensures
        name_lt(x, y) || name_lt(y, x) || x == y,
{
    lemma_bytes_lt_total(encode_utf8(x), encode_utf8(y));
    if encode_utf8(x) == encode_utf8(y) {
        vstd::utf8::encode_utf8_decode_utf8(x);
        vstd::utf8::encode_utf8_decode_utf8(y);
    }
}

/// Whether some read position holds the missing value under `k`.
pub open spec fn null_read(rows: Seq<Seq<(Seq<char>, ValueModel)>>, i: int, j: int, k: Seq<char>) -> bool {
    exists|r: int, t: int| done(rows, i, j, r, t) && rows[r][t].0 == k && rows[r][t].1 is Null
}

/// Whether some read position holds a present value under `k`.
pub open spec fn present_read(rows: Seq<Seq<(Seq<char>, ValueModel)>>, i: int, j: int, k: Seq<char>) -> bool {
    exists|r: int, t: int| done(rows, i, j, r, t) && rows[r][t].0 == k && !(rows[r][t].1 is Null)
}

/// Whether some of the first `i` rows lacks `k`.
pub open spec fn lacked(rows: Seq<Seq<(Seq<char>, ValueModel)>>, i: int, k: Seq<char>) -> bool {
    exists|r: int| 0 <= r < i && !has_key(rows[r], k)
}

proof fn lemma_entry_ok_unfold(e: (Seq<char>, Option<TypeModel>, bool), rows: Seq<Seq<(Seq<char>, ValueModel)>>, i: int, j: int)
    ensures
        entry_shape(e, rows, i, j) <==> (e.2 == (lacked(rows, i, e.0) || null_read(rows, i, j, e.0)) && (e.1 is None
            <==> !present_read(rows, i, j, e.0))),
        entry_typed(e, rows, i, j) <==> (e.1 matches Some(ty) ==> forall|r: int, t: int|
            done(rows, i, j, r, t) && rows[r][t].0 == e.0 && !(rows[r][t].1 is Null) ==> type_of(rows[r][t].1)
                == Some(ty)),
{
    reveal(entry_shape);
    reveal(entry_typed);
}

/// Reading an item named `k` leaves the accumulators of other names right.
proof fn lemma_entry_other_name(
    e: (Seq<char>, Option<TypeModel>, bool),
    rows: Seq<Seq<(Seq<char>, ValueModel)>>,
    i: int,
    j: int,
    typed: bool,
)
    requires
        at(rows, i, j),
        rows[i][j].0 != e.0,
        entry_ok(e, rows, i, j, typed),
    ensures
        entry_ok(e, rows, i, j + 1, typed),
{
    lemma_entry_ok_unfold(e, rows, i, j);
    lemma_entry_ok_unfold(e, rows, i, j + 1);
    if null_read(rows, i, j + 1, e.0) {
        let (r, t) = choose|r: int, t: int| done(rows, i, j + 1, r, t) && rows[r][t].0 == e.0 && rows[r][t].1 is Null;
        assert(done(rows, i, j, r, t));
    }
    if null_read(rows, i, j, e.0) {
        let (r, t) = choose|r: int, t: int| done(rows, i, j, r, t) && rows[r][t].0 == e.0 && rows[r][t].1 is Null;
        assert(done(rows, i, j + 1, r, t));
    }
    if present_read(rows, i, j + 1, e.0) {
        let (r, t) = choose|r: int, t: int| done(rows, i, j + 1, r, t) && rows[r][t].0 == e.0 && !(rows[r][t].1 is Null);
        assert(done(rows, i, j, r, t));
    }
    if present_read(rows, i, j, e.0) {
        let (r, t) = choose|r: int, t: int| done(rows, i, j, r, t) && rows[r][t].0 == e.0 && !(rows[r][t].1 is Null);
        assert(done(rows, i, j + 1, r, t));
    }
    if typed && e.1 is Some {
        let ty = e.1->0;
        assert forall|r: int, t: int|
            done(rows, i, j + 1, r, t) && rows[r][t].0 == e.0 && !(rows[r][t].1 is Null) implies type_of(
            rows[r][t].1,
        ) == Some(ty) by {
            assert(done(rows, i, j, r, t));
        }
    }
}

/// A new accumulator for a name not read yet holds what has been read of
/// it: nothing, and whether an earlier row lacked it.
proof fn lemma_entry_fresh(k: Seq<char>, rows: Seq<Seq<(Seq<char>, ValueModel)>>, i: int, j: int, typed: bool)
    requires
        0 <= i < rows.len(),
        0 <= j <= rows[i].len(),
        forall|r: int, t: int| done(rows, i, j, r, t) ==> rows[r][t].0 != k,
    ensures
        entry_ok((k, None::<TypeModel>, i > 0), rows, i, j, typed),
{
    lemma_entry_ok_unfold((k, None::<TypeModel>, i > 0), rows, i, j);
    if i > 0 {
        if has_key(rows[0], k) {
            let t = choose|t: int| 0 <= t < rows[0].len() && rows[0][t].0 == k;
            assert(done(rows, i, j, 0, t));
        }
        assert(!has_key(rows[0], k));
        assert(lacked(rows, i, k));
    }
}

/// Before the item at `(i, j)` is read into the accumulator of its name:
/// where the rows agree, its present value has a type, the type the
/// accumulator holds if it holds one.
proof fn lemma_read_compatible(e: (Seq<char>, Option<TypeModel>, bool), rows: Seq<Seq<(Seq<char>, ValueModel)>>, i: int, j: int)
    requires
        at(rows, i, j),
        rows[i][j].0 == e.0,
        entry_ok(e, rows, i, j, true),
        agreed(rows),
    ensures
        !(rows[i][j].1 is Null) ==> type_of(rows[i][j].1) is Some && (e.1 is None || e.1 == type_of(rows[i][j].1)),
{
    reveal(agreed);
    lemma_entry_ok_unfold(e, rows, i, j);
    let v = rows[i][j].1;
    if !(v is Null) {
        assert(at(rows, i, j));
        if e.1 is Some {
            let (r0, t0) = choose|r: int, t: int| done(rows, i, j, r, t) && rows[r][t].0 == e.0 && !(rows[r][t].1 is Null);
            assert(type_of(rows[r0][t0].1) == e.1);
            assert(type_of(rows[r0][t0].1) == type_of(v));
        }
    }
}

/// Where the rows agree, every present value has a type.
proof fn lemma_agreed_typed(rows: Seq<Seq<(Seq<char>, ValueModel)>>, i: int, j: int)
    requires
        at(rows, i, j),
        agreed(rows),
    ensures
        !(rows[i][j].1 is Null) ==> type_of(rows[i][j].1) is Some,
{
    reveal(agreed);
    assert(at(rows, i, j));
}

/// Reading the item at `(i, j)` into the accumulator of its name, which
/// becomes `e2`, keeps it right: the missing value makes it nullable, a
/// present value gives it a type, the value's own where it is `typed`.
proof fn lemma_entry_read(e: (Seq<char>, Option<TypeModel>, bool), rows: Seq<Seq<(Seq<char>, ValueModel)>>, i: int, j: int, typed: bool, e2: (Seq<char>, Option<TypeModel>, bool))
    requires
        at(rows, i, j),
        rows[i][j].0 == e.0,
        entry_ok(e, rows, i, j, typed),
        typed ==> agreed(rows),
        e2.0 == e.0,
        rows[i][j].1 is Null ==> e2 == (e.0, e.1, true),
        !(rows[i][j].1 is Null) ==> e2.1 is Some && e2.2 == e.2,
        typed && !(rows[i][j].1 is Null) ==> e2.1 == type_of(rows[i][j].1),
    ensures
        entry_ok(e2, rows, i, j + 1, typed),
{
    let v = rows[i][j].1;
    let k = e.0;
    lemma_entry_ok_unfold(e, rows, i, j);
    lemma_entry_ok_unfold(e2, rows, i, j + 1);
    assert(done(rows, i, j + 1, i, j));
    if v is Null {
        assert(null_read(rows, i, j + 1, k));
        if present_read(rows, i, j + 1, k) {
            let (r, t) = choose|r: int, t: int| done(rows, i, j + 1, r, t) && rows[r][t].0 == k && !(rows[r][t].1 is Null);
            assert(done(rows, i, j, r, t));
        }
        if present_read(rows, i, j, k) {
            let (r, t) = choose|r: int, t: int| done(rows, i, j, r, t) && rows[r][t].0 == k && !(rows[r][t].1 is Null);
            assert(done(rows, i, j + 1, r, t));
        }
        if typed && e.1 is Some {
            let ty = e.1->0;
            assert forall|r: int, t: int|
                done(rows, i, j + 1, r, t) && rows[r][t].0 == k && !(rows[r][t].1 is Null) implies type_of(
                rows[r][t].1,
            ) == Some(ty) by {
                assert(done(rows, i, j, r, t));
            }
        }
    } else {
        assert(present_read(rows, i, j + 1, k));
        if null_read(rows, i, j + 1, k) {
            let (r, t) = choose|r: int, t: int| done(rows, i, j + 1, r, t) && rows[r][t].0 == k && rows[r][t].1 is Null;
            assert(done(rows, i, j, r, t));
        }
        if null_read(rows, i, j, k) {
            let (r, t) = choose|r: int, t: int| done(rows, i, j, r, t) && rows[r][t].0 == k && rows[r][t].1 is Null;
            assert(done(rows, i, j + 1, r, t));
        }
        if typed {
            reveal(agreed);
            assert(at(rows, i, j));
            let ty = e2.1->0;
            assert forall|r: int, t: int|
                done(rows, i, j + 1, r, t) && rows[r][t].0 == k && !(rows[r][t].1 is Null) implies type_of(
                rows[r][t].1,
            ) == Some(ty) by {
                assert(type_of(rows[r][t].1) == type_of(v));
            }
        }
    }
}

/// At the end of row `i`, marking the fields the row lacks as nullable
/// keeps an accumulator right for the next row.
proof fn lemma_entry_row_end(e: (Seq<char>, Option<TypeModel>, bool), rows: Seq<Seq<(Seq<char>, ValueModel)>>, i: int, typed: bool)
    requires
        0 <= i < rows.len(),
        entry_ok(e, rows, i, rows[i].len() as int, typed),
    ensures
        entry_ok((e.0, e.1, e.2 || !has_key(rows[i], e.0)), rows, i + 1, 0, typed),
{
    let n = rows[i].len() as int;
    let k = e.0;
    let e2 = (e.0, e.1, e.2 || !has_key(rows[i], e.0));
    lemma_entry_ok_unfold(e, rows, i, n);
    lemma_entry_ok_unfold(e2, rows, i + 1, 0);
    assert forall|r: int, t: int| done(rows, i, n, r, t) <==> done(rows, i + 1, 0, r, t) by {}
    if null_read(rows, i, n, k) {
        let (r, t) = choose|r: int, t: int| done(rows, i, n, r, t) && rows[r][t].0 == k && rows[r][t].1 is Null;
        assert(done(rows, i + 1, 0, r, t));
    }
    if null_read(rows, i + 1, 0, k) {
        let (r, t) = choose|r: int, t: int| done(rows, i + 1, 0, r, t) && rows[r][t].0 == k && rows[r][t].1 is Null;
        assert(done(rows, i, n, r, t));
    }
    if present_read(rows, i, n, k) {
        let (r, t) = choose|r: int, t: int| done(rows, i, n, r, t) && rows[r][t].0 == k && !(rows[r][t].1 is Null);
        assert(done(rows, i + 1, 0, r, t));
    }
    if present_read(rows, i + 1, 0, k) {
        let (r, t) = choose|r: int, t: int| done(rows, i + 1, 0, r, t) && rows[r][t].0 == k && !(rows[r][t].1 is Null);
        assert(done(rows, i, n, r, t));
    }
    if lacked(rows, i + 1, k) {
        let r = choose|r: int| 0 <= r < i + 1 && !has_key(rows[r], k);
        if r < i {
            assert(lacked(rows, i, k));
        }
    }
    if lacked(rows, i, k) {
        let r = choose|r: int| 0 <= r < i && !has_key(rows[r], k);
        assert(lacked(rows, i + 1, k));
    }
    if !has_key(rows[i], k) {
        assert(lacked(rows, i + 1, k));
    }
    if typed && e.1 is Some {
        let ty = e.1->0;
        assert forall|r: int, t: int|
            done(rows, i + 1, 0, r, t) && rows[r][t].0 == k && !(rows[r][t].1 is Null) implies type_of(
            rows[r][t].1,
        ) == Some(ty) by {
            assert(done(rows, i, n, r, t));
        }
    }
}

/// Where the accumulator of `key` is, or where it belongs.
fn locate(acc: &Vec<FieldAccumulator>, key: &str) -> (r: (bool, usize))
    ensures
        r.1 <= acc@.len(),
        r.0 ==> r.1 < acc@.len() && acc@[r.1 as int].name@ == key@,
        !r.0 ==> forall|a: int| 0 <= a < r.1 ==> name_lt(#[trigger] acc@[a].name@, key@),
        !r.0 && sorted_names(acc@.map_values(|a: FieldAccumulator| a.view())) ==> forall|a: int|
            r.1 <= a < acc@.len() ==> name_lt(key@, #[trigger] acc@[a].name@),
{
    let ghost view = acc@.map_values(|a: FieldAccumulator| a.view());
    let mut p: usize = 0;
    while p < acc.len()
        invariant
            p <= acc@.len(),
            view == acc@.map_values(|a: FieldAccumulator| a.view()),
            forall|a: int| 0 <= a < p ==> name_lt(#[trigger] acc@[a].name@, key@),
        decreases acc.len() - p,
    {
        if !name_before(acc[p].name.as_str(), key) {
            let found = crate::value::text_eq(acc[p].name.as_str(), key);
            if !found {
                proof {
                    lemma_name_lt_total(acc@[p as int].name@, key@);
                    assert forall|a: int| p <= a < acc@.len() && sorted_names(view) implies name_lt(key@, #[trigger] acc@[a].name@) by {
                        if a > p {
                            assert(view[p as int].0 == acc@[p as int].name@);
                            assert(view[a].0 == acc@[a].name@);
                            assert(name_lt(view[p as int].0, view[a].0));
                            lemma_bytes_lt_transitive(
                                encode_utf8(key@),
                                encode_utf8(acc@[p as int].name@),
                                encode_utf8(acc@[a].name@),
                            );
                        }
                    }
                }
            }
            return (found, p);
        }
        p = p + 1;
    }
    (false, p)
}

/// The field an accumulator gives.
pub open spec fn field_of(e: (Seq<char>, Option<TypeModel>, bool)) -> FieldModel {
    FieldModel {
        name: e.0,
        data_type: match e.1 {
            Some(t) => t,
            None => TypeModel::Null,
        },
        nullable: e.2,
    }
}

/// Once every row is read, an accumulator gives its field of the schema.
proof fn lemma_field_final(e: (Seq<char>, Option<TypeModel>, bool), rows: Seq<Seq<(Seq<char>, ValueModel)>>, typed: bool)
    requires
        entry_ok(e, rows, rows.len() as int, 0, typed),
    ensures
        field_of(e).nullable == nullable_in(rows, e.0),
        typed ==> field_of(e).data_type == field_type(rows, e.0),
{
    let n = rows.len() as int;
    let k = e.0;
    lemma_entry_ok_unfold(e, rows, n, 0);
    if null_read(rows, n, 0, k) {
        let (r, t) = choose|r: int, t: int| done(rows, n, 0, r, t) && rows[r][t].0 == k && rows[r][t].1 is Null;
        assert(at(rows, r, t));
    }
    if exists|r: int, t: int| at(rows, r, t) && rows[r][t].0 == k && rows[r][t].1 is Null {
        let (r, t) = choose|r: int, t: int| at(rows, r, t) && rows[r][t].0 == k && rows[r][t].1 is Null;
        assert(done(rows, n, 0, r, t));
    }
    if lacked(rows, n, k) {
        let r = choose|r: int| 0 <= r < n && !has_key(rows[r], k);
        assert(0 <= r < rows.len() && !has_key(rows[r], k));
    }
    if exists|r: int| 0 <= r < rows.len() && !has_key(rows[r], k) {
        let r = choose|r: int| 0 <= r < rows.len() && !has_key(rows[r], k);
        assert(lacked(rows, n, k));
    }
    if typed && exists|r: int, t: int| present_at(rows, k, r, t) {
        let (r0, t0) = choose|r: int, t: int| present_at(rows, k, r, t);
        assert(done(rows, n, 0, r0, t0));
        assert(present_read(rows, n, 0, k));
        assert(type_of(rows[r0][t0].1) == Some(e.1->0));
        assert(field_type(rows, k) == e.1->0);
    } else if !exists|r: int, t: int| present_at(rows, k, r, t) {
        if present_read(rows, n, 0, k) {
            let (r, t) = choose|r: int, t: int| done(rows, n, 0, r, t) && rows[r][t].0 == k && !(rows[r][t].1 is Null);
            assert(present_at(rows, k, r, t));
        }
    }
}

/// Once every row is read, the names of the accumulators are the names of
/// the rows.
proof fn lemma_names_final(acc: Seq<(Seq<char>, Option<TypeModel>, bool)>, rows: Seq<Seq<(Seq<char>, ValueModel)>>, k: Seq<char>)
    requires
        names_read(acc, rows, rows.len() as int, 0),
        names_kept(acc, rows, rows.len() as int, 0),
    ensures
        named(rows, k) <==> exists|a: int| 0 <= a < acc.len() && acc[a].0 == k,
{
    let n = rows.len() as int;
    if named(rows, k) {
        reveal(names_kept);
        let r = choose|r: int| 0 <= r < rows.len() && has_key(rows[r], k);
        let t = choose|t: int| 0 <= t < rows[r].len() && rows[r][t].0 == k;
        assert(done(rows, n, 0, r, t));
        let a = choose|a: int| 0 <= a < acc.len() && acc[a].0 == rows[r][t].0;
        assert(acc[a].0 == k);
    }
    if exists|a: int| 0 <= a < acc.len() && acc[a].0 == k {
        reveal(names_read);
        let a = choose|a: int| 0 <= a < acc.len() && acc[a].0 == k;
        let (r, t) = choose|r: int, t: int| done(rows, n, 0, r, t) && rows[r][t].0 == acc[a].0;
        assert(has_key(rows[r], k));
    }
}

/// Once every row is read, the fields the accumulators give have the
/// shape of the schema of the rows, and are that schema when `typed`.
proof fn lemma_accs_final(acc: Seq<(Seq<char>, Option<TypeModel>, bool)>, rows: Seq<Seq<(Seq<char>, ValueModel)>>, fields: Seq<FieldModel>, typed: bool)
    requires
        sorted_names(acc),
        names_read(acc, rows, rows.len() as int, 0),
        names_kept(acc, rows, rows.len() as int, 0),
        forall|a: int| 0 <= a < acc.len() ==> entry_ok(#[trigger] acc[a], rows, rows.len() as int, 0, typed),
        fields.len() == acc.len(),
        forall|a: int| 0 <= a < fields.len() ==> #[trigger] fields[a] == field_of(acc[a]),
    ensures
        is_shape_of(fields, rows),
        typed ==> is_schema_of(fields, rows),
{
    assert forall|a: int, b: int| 0 <= a < b < fields.len() implies name_lt(fields[a].name, fields[b].name) by {
        assert(fields[a] == field_of(acc[a]));
        assert(fields[b] == field_of(acc[b]));
    }
    assert forall|k: Seq<char>| named(rows, k) <==> exists|a: int| 0 <= a < fields.len() && fields[a].name == k by {
        lemma_names_final(acc, rows, k);
        if exists|a: int| 0 <= a < fields.len() && fields[a].name == k {
            let a = choose|a: int| 0 <= a < fields.len() && fields[a].name == k;
            assert(fields[a] == field_of(acc[a]));
            assert(acc[a].0 == k);
        }
        if exists|a: int| 0 <= a < acc.len() && acc[a].0 == k {
            let a = choose|a: int| 0 <= a < acc.len() && acc[a].0 == k;
            assert(fields[a] == field_of(acc[a]));
            assert(fields[a].name == k);
        }
    }
    assert forall|a: int| #![trigger fields[a]] 0 <= a < fields.len() implies fields[a].nullable == nullable_in(
        rows,
        fields[a].name,
    ) && (typed ==> fields[a].data_type == field_type(rows, fields[a].name)) by {
        assert(fields[a] == field_of(acc[a]));
        assert(entry_ok(acc[a], rows, rows.len() as int, 0, typed));
        lemma_field_final(acc[a], rows, typed);
    }
}

/// The accumulators as what they hold.
spec fn accs_view(acc: Seq<FieldAccumulator>) -> Seq<(Seq<char>, Option<TypeModel>, bool)> {
    acc.map_values(|a: FieldAccumulator| a.view())
}

proof fn lemma_name_lt_irreflexive(x: Seq<char>)
    ensures
        !name_lt(x, x),
{
    lemma_bytes_lt_irreflexive(encode_utf8(x));
}

proof fn lemma_name_lt_transitive(x: Seq<char>, y: Seq<char>, z: Seq<char>)
    requires
        name_lt(x, y),
        name_lt(y, z),
    ensures
        name_lt(x, z),
{
    lemma_bytes_lt_transitive(encode_utf8(x), encode_utf8(y), encode_utf8(z));
}

/// Reading the item at `(i, j)` into the accumulator of its name at `pos`.
proof fn lemma_step_found(
    acc: Seq<(Seq<char>, Option<TypeModel>, bool)>,
    rows: Seq<Seq<(Seq<char>, ValueModel)>>,
    i: int,
    j: int,
    pos: int,
    typed: bool,
    e2: (Seq<char>, Option<TypeModel>, bool),
)
    requires
        accs_ok(acc, rows, i, j, typed),
        typed ==> agreed(rows),
        at(rows, i, j),
        0 <= pos < acc.len(),
        acc[pos].0 == rows[i][j].0,
        e2.0 == acc[pos].0,
        rows[i][j].1 is Null ==> e2 == (acc[pos].0, acc[pos].1, true),
        !(rows[i][j].1 is Null) ==> e2.1 is Some && e2.2 == acc[pos].2,
        typed && !(rows[i][j].1 is Null) ==> e2.1 == type_of(rows[i][j].1),
    ensures
        accs_ok(acc.update(pos, e2), rows, i, j + 1, typed),
{
    let k = rows[i][j].0;
    let acc2 = acc.update(pos, e2);
    assert(entry_ok(acc[pos], rows, i, j, typed));
    lemma_entry_read(acc[pos], rows, i, j, typed, e2);
    assert forall|a: int| 0 <= a < acc2.len() implies entry_ok(#[trigger] acc2[a], rows, i, j + 1, typed) by {
        if a != pos {
            assert(entry_ok(acc[a], rows, i, j, typed));
            if acc[a].0 == k {
                if a < pos {
                    assert(name_lt(acc[a].0, acc[pos].0));
                } else {
                    assert(name_lt(acc[pos].0, acc[a].0));
                }
                lemma_name_lt_irreflexive(k);
            }
            lemma_entry_other_name(acc[a], rows, i, j, typed);
        }
    }
    assert(names_read(acc2, rows, i, j + 1)) by {
        reveal(names_read);
        assert forall|a: int| 0 <= a < acc2.len() implies read_name(rows, i, j + 1, #[trigger] acc2[a].0) by {
            assert(acc2[a].0 == acc[a].0);
            let (r, t) = choose|r: int, t: int| done(rows, i, j, r, t) && rows[r][t].0 == acc[a].0;
            assert(done(rows, i, j + 1, r, t));
        }
    }
    assert(names_kept(acc2, rows, i, j + 1)) by {
        reveal(names_kept);
        assert forall|r: int, t: int| done(rows, i, j + 1, r, t) implies kept_name(acc2, #[trigger] rows[r][t].0) by {
            if r == i && t == j {
                assert(acc2[pos].0 == rows[r][t].0);
            } else {
                assert(done(rows, i, j, r, t));
                let a = choose|a: int| 0 <= a < acc.len() && acc[a].0 == rows[r][t].0;
                assert(acc2[a].0 == rows[r][t].0);
            }
        }
    }
}

/// Reading the item at `(i, j)`, of a name not read before, into a new
/// accumulator placed at `pos`.
proof fn lemma_step_new(
    acc: Seq<(Seq<char>, Option<TypeModel>, bool)>,
    rows: Seq<Seq<(Seq<char>, ValueModel)>>,
    i: int,
    j: int,
    pos: int,
    typed: bool,
    e2: (Seq<char>, Option<TypeModel>, bool),
)
    requires
        accs_ok(acc, rows, i, j, typed),
        typed ==> agreed(rows),
        at(rows, i, j),
        0 <= pos <= acc.len(),
        forall|a: int| 0 <= a < pos ==> name_lt(#[trigger] acc[a].0, rows[i][j].0),
        forall|a: int| pos <= a < acc.len() ==> name_lt(rows[i][j].0, #[trigger] acc[a].0),
        e2.0 == rows[i][j].0,
        rows[i][j].1 is Null ==> e2 == (rows[i][j].0, None::<TypeModel>, true),
        !(rows[i][j].1 is Null) ==> e2.1 is Some && e2.2 == (i > 0),
        typed && !(rows[i][j].1 is Null) ==> e2.1 == type_of(rows[i][j].1),
    ensures
        accs_ok(acc.insert(pos, e2), rows, i, j + 1, typed),
{
    let k = rows[i][j].0;
    let fresh = (k, None::<TypeModel>, i > 0);
    let acc2 = acc.insert(pos, e2);
    assert forall|a: int| 0 <= a < acc.len() implies #[trigger] acc[a].0 != k by {
        if a < pos {
            assert(name_lt(acc[a].0, k));
        } else {
            assert(name_lt(k, acc[a].0));
        }
        lemma_name_lt_irreflexive(k);
    }
    assert forall|r: int, t: int| done(rows, i, j, r, t) implies rows[r][t].0 != k by {
        reveal(names_kept);
        if rows[r][t].0 == k {
            let a = choose|a: int| 0 <= a < acc.len() && acc[a].0 == rows[r][t].0;
            assert(acc[a].0 != k);
        }
    }
    lemma_entry_fresh(k, rows, i, j, typed);
    lemma_entry_read(fresh, rows, i, j, typed, e2);
    assert forall|a: int| 0 <= a < acc2.len() implies entry_ok(#[trigger] acc2[a], rows, i, j + 1, typed) by {
        if a < pos {
            assert(acc2[a] == acc[a]);
            assert(entry_ok(acc[a], rows, i, j, typed));
            lemma_entry_other_name(acc[a], rows, i, j, typed);
        } else if a > pos {
            assert(acc2[a] == acc[a - 1]);
            assert(entry_ok(acc[a - 1], rows, i, j, typed));
            lemma_entry_other_name(acc[a - 1], rows, i, j, typed);
        }
    }
    assert forall|a: int, b: int| 0 <= a < b < acc2.len() implies name_lt(acc2[a].0, acc2[b].0) by {
        if b < pos {
            assert(name_lt(acc[a].0, acc[b].0));
        } else if b == pos {
            assert(name_lt(acc[a].0, k));
        } else if a < pos {
            assert(name_lt(acc[a].0, k));
            assert(name_lt(k, acc[b - 1].0));
            lemma_name_lt_transitive(acc[a].0, k, acc[b - 1].0);
        } else if a == pos {
            assert(name_lt(k, acc[b - 1].0));
        } else {
            assert(name_lt(acc[a - 1].0, acc[b - 1].0));
        }
    }
    assert(names_read(acc2, rows, i, j + 1)) by {
        reveal(names_read);
        assert forall|a: int| 0 <= a < acc2.len() implies read_name(rows, i, j + 1, #[trigger] acc2[a].0) by {
            if a == pos {
                assert(done(rows, i, j + 1, i, j));
            } else {
                let b = if a < pos { a } else { a - 1 };
                assert(acc2[a] == acc[b]);
                let (r, t) = choose|r: int, t: int| done(rows, i, j, r, t) && rows[r][t].0 == acc[b].0;
                assert(done(rows, i, j + 1, r, t));
            }
        }
    }
    assert(names_kept(acc2, rows, i, j + 1)) by {
        reveal(names_kept);
        assert forall|r: int, t: int| done(rows, i, j + 1, r, t) implies kept_name(acc2, #[trigger] rows[r][t].0) by {
            if r == i && t == j {
                assert(acc2[pos].0 == rows[r][t].0);
            } else {
                assert(done(rows, i, j, r, t));
                let a = choose|a: int| 0 <= a < acc.len() && acc[a].0 == rows[r][t].0;
                if a < pos {
                    assert(acc2[a].0 == rows[r][t].0);
                } else {
                    assert(acc2[a + 1].0 == rows[r][t].0);
                }
            }
        }
    }
}

/// At the end of row `i`, the fields the row lacks become nullable.
proof fn lemma_row_end(acc: Seq<(Seq<char>, Option<TypeModel>, bool)>, rows: Seq<Seq<(Seq<char>, ValueModel)>>, i: int, typed: bool)
    requires
        0 <= i < rows.len(),
        accs_ok(acc, rows, i, rows[i].len() as int, typed),
    ensures
        accs_ok(
            acc.map_values(|e: (Seq<char>, Option<TypeModel>, bool)| (e.0, e.1, e.2 || !has_key(rows[i], e.0))),
            rows,
            i + 1,
            0,
            typed,
        ),
{
    let n = rows[i].len() as int;
    let acc2 = acc.map_values(|e: (Seq<char>, Option<TypeModel>, bool)| (e.0, e.1, e.2 || !has_key(rows[i], e.0)));
    assert forall|r: int, t: int| done(rows, i, n, r, t) <==> done(rows, i + 1, 0, r, t) by {}
    assert forall|a: int| 0 <= a < acc2.len() implies entry_ok(#[trigger] acc2[a], rows, i + 1, 0, typed) by {
        assert(entry_ok(acc[a], rows, i, n, typed));
        lemma_entry_row_end(acc[a], rows, i, typed);
    }
    assert forall|a: int, b: int| 0 <= a < b < acc2.len() implies name_lt(acc2[a].0, acc2[b].0) by {
        assert(name_lt(acc[a].0, acc[b].0));
    }
    assert(names_read(acc2, rows, i + 1, 0)) by {
        reveal(names_read);
        assert forall|a: int| 0 <= a < acc2.len() implies read_name(rows, i + 1, 0, #[trigger] acc2[a].0) by {
            let (r, t) = choose|r: int, t: int| done(rows, i, n, r, t) && rows[r][t].0 == acc[a].0;
            assert(done(rows, i + 1, 0, r, t));
        }
    }
    assert(names_kept(acc2, rows, i + 1, 0)) by {
        reveal(names_kept);
        assert forall|r: int, t: int| done(rows, i + 1, 0, r, t) implies kept_name(acc2, #[trigger] rows[r][t].0) by {
            assert(done(rows, i, n, r, t));
            let a = choose|a: int| 0 <= a < acc.len() && acc[a].0 == rows[r][t].0;
            assert(acc2[a].0 == rows[r][t].0);
        }
    }
}

/// Before anything is read, the empty list of accumulators is right.
proof fn lemma_accs_start(rows: Seq<Seq<(Seq<char>, ValueModel)>>, typed: bool)
    ensures
        accs_ok(Seq::empty(), rows, 0, 0, typed),
{
    reveal(names_read);
    reveal(names_kept);
}

impl PyroRow {
    /// The schema of many rows: a field for every name of any row, in
    /// increasing order of names; a field is nullable when a row lacks it
    /// or holds the missing value under it; its type is that of its
    /// present values, merged by `coerce` where two differ (an error when
    /// they do not merge), or `Null` when it has none. Whatever `coerce`
    /// gives, when it gives what a merge `m` says, each field's type is
    /// `merged_field_type` under `m`, and the error comes exactly when `m`
    /// does not merge two types of one field.
    pub fn infer_schema<F: Fn(&PyroType, &PyroType) -> Option<PyroType>>(rows: &[PyroRow], coerce: &F) -> (r: Result<PyroSchema, ValueSchemaInferenceError>)
        requires
            forall|x: &PyroType, y: &PyroType| call_requires(*coerce, (x, y)),
        ensures
            r matches Ok(s) ==> s.documentation is None && is_shape_of(fields_model(s.fields@), rows_model(rows@)),
            agreed(rows_model(rows@)) ==> (r matches Ok(s) && is_schema_of(fields_model(s.fields@), rows_model(rows@))),
            r matches Err(e) ==> e is IncompatibleTypes,
            forall|m: spec_fn(TypeModel, TypeModel) -> Option<TypeModel>| #[trigger] merges_as(*coerce, m) ==> {
                &&& r matches Ok(s) ==> forall|a: int| 0 <= a < s.fields@.len() ==> fold_rows(
                    rows_model(rows@),
                    #[trigger] fields_model(s.fields@)[a].name,
                    m,
                ) is Some && fields_model(s.fields@)[a].data_type == merged_field_type(
                    rows_model(rows@),
                    fields_model(s.fields@)[a].name,
                    m,
                )
                &&& r is Ok ==> forall|k: Seq<char>| #[trigger] fold_rows(rows_model(rows@), k, m) is Some
                &&& r matches Err(ValueSchemaInferenceError::IncompatibleTypes(n, _, _)) ==> fold_rows(
                    rows_model(rows@),
                    n@,
                    m,
                ) is None
            },
    {
        let ghost rm = rows_model(rows@);
        let mut acc: Vec<FieldAccumulator> = Vec::new();
        let mut i: usize = 0;
        proof {
            assert(accs_view(acc@) =~= Seq::<(Seq<char>, Option<TypeModel>, bool)>::empty());
            lemma_accs_start(rm, agreed(rm));
        }
        while i < rows.len()
            invariant
                i <= rows@.len(),
                rm == rows_model(rows@),
                rm.len() == rows@.len(),
                forall|x: &PyroType, y: &PyroType| call_requires(*coerce, (x, y)),
                accs_ok(accs_view(acc@), rm, i as int, 0, agreed(rm)),
                forall|m: spec_fn(TypeModel, TypeModel) -> Option<TypeModel>| #[trigger] merges_as(*coerce, m)
                    ==> accs_fold_rows(accs_view(acc@), rm, i as int, m),
            decreases rows.len() - i,
        {
            let row = &rows[i];
            proof {
                lemma_items_model(row.0@);
                assert(rm[i as int] == row@);
                assert(rm[i as int].take(0) =~= Seq::<(Seq<char>, ValueModel)>::empty());
                assert forall|m: spec_fn(TypeModel, TypeModel) -> Option<TypeModel>| #[trigger] merges_as(*coerce, m)
                    implies accs_fold(accs_view(acc@), rm, i as int, 0, m) by {
                    let av = accs_view(acc@);
                    assert forall|a: int| 0 <= a < av.len() implies fold_at(rm, i as int, 0, #[trigger] av[a].0, m)
                        == Some::<Option<TypeModel>>(av[a].1) by {
                        assert(fold_rows(rm.take(i as int), av[a].0, m) == Some::<Option<TypeModel>>(av[a].1));
                    }
                }
            }
            let mut j: usize = 0;
            while j < row.0.len()
                invariant
                    i < rows@.len(),
                    rm == rows_model(rows@),
                    rm.len() == rows@.len(),
                    rm[i as int] == items_model(row.0@),
                    items_model(row.0@).len() == row.0@.len(),
                    forall|t: int| 0 <= t < row.0@.len() ==> #[trigger] items_model(row.0@)[t] == row.0@[t]@,
                    j <= row.0@.len(),
                    forall|x: &PyroType, y: &PyroType| call_requires(*coerce, (x, y)),
                    accs_ok(accs_view(acc@), rm, i as int, j as int, agreed(rm)),
                    forall|m: spec_fn(TypeModel, TypeModel) -> Option<TypeModel>| #[trigger] merges_as(*coerce, m)
                        ==> accs_fold(accs_view(acc@), rm, i as int, j as int, m),
                decreases row.0.len() - j,
            {
                let key = row.0[j].key.as_str();
                let value = &row.0[j].value;
                let ghost before = accs_view(acc@);
                proof {
                    assert(rm[i as int][j as int] == (key@, value@));
                    assert(at(rm, i as int, j as int));
                }
                let (found, pos) = locate(&acc, key);
                proof {
                    if found {
                        assert(before[pos as int].0 == key@);
                        if agreed(rm) {
                            lemma_read_compatible(before[pos as int], rm, i as int, j as int);
                        }
                    } else {
                        assert forall|a: int| 0 <= a < pos implies name_lt(#[trigger] before[a].0, rm[i as int][j as int].0) by {
                            assert(before[a].0 == acc@[a].name@);
                        }
                        assert forall|a: int| pos <= a < before.len() implies name_lt(rm[i as int][j as int].0, #[trigger] before[a].0) by {
                            assert(before[a].0 == acc@[a].name@);
                        }
                        if agreed(rm) {
                            lemma_agreed_typed(rm, i as int, j as int);
                        }
                    }
                }
                let mut a = if found {
                    acc.remove(pos)
                } else {
                    let mut fresh = FieldAccumulator::new(key.to_owned());
                    if i > 0 {
                        fresh.nullable = true;
                    }
                    fresh
                };
                let ghost e_old = a.view();
                proof {
                    if found {
                        assert(e_old == before[pos as int]);
                    } else {
                        assert forall|b: int| 0 <= b < before.len() implies #[trigger] before[b].0 != key@ by {
                            if b < pos {
                                assert(name_lt(before[b].0, key@));
                            } else {
                                assert(name_lt(key@, before[b].0));
                            }
                            lemma_name_lt_irreflexive(key@);
                        }
                        assert forall|r: int, t: int| done(rm, i as int, j as int, r, t) implies rm[r][t].0 != key@ by {
                            reveal(names_kept);
                            if rm[r][t].0 == key@ {
                                let b = choose|b: int| 0 <= b < before.len() && before[b].0 == rm[r][t].0;
                                assert(before[b].0 != key@);
                            }
                        }
                    }
                    assert forall|m: spec_fn(TypeModel, TypeModel) -> Option<TypeModel>| #[trigger] merges_as(*coerce, m)
                        implies fold_at(rm, i as int, j as int, key@, m) == Some::<Option<TypeModel>>(e_old.1) by {
                        if found {
                            assert(accs_fold(before, rm, i as int, j as int, m));
                            assert(fold_at(rm, i as int, j as int, before[pos as int].0, m) == Some::<Option<TypeModel>>(
                                before[pos as int].1,
                            ));
                        } else {
                            lemma_fold_fresh(rm, i as int, j as int, key@, m);
                        }
                    }
                }
                match a.observe(key, value, coerce) {
                    Ok(()) => {},
                    Err(e) => {
                        proof {
                            assert forall|m: spec_fn(TypeModel, TypeModel) -> Option<TypeModel>| #[trigger]
                                merges_as(*coerce, m) implies fold_rows(rm, key@, m) is None by {
                                lemma_fold_at_next(rm, i as int, j as int, key@, m);
                                assert(fold_at(rm, i as int, j as int + 1, key@, m) is None);
                                lemma_fold_items_stuck(fold_rows(rm.take(i as int), key@, m), rm[i as int], j + 1, key@, m);
                                lemma_fold_row_end(rm, i as int, key@, m);
                                assert(rm[i as int].take(rm[i as int].len() as int) =~= rm[i as int]);
                                assert(fold_rows(rm.take(i + 1), key@, m) is None);
                                lemma_fold_rows_stuck(rm, i + 1, key@, m);
                            }
                        }
                        return Err(e);
                    },
                }
                let ghost e2 = a.view();
                proof {
                    assert forall|m: spec_fn(TypeModel, TypeModel) -> Option<TypeModel>| #[trigger] merges_as(*coerce, m)
                        implies accs_fold(
                        if found {
                            before.update(pos as int, e2)
                        } else {
                            before.insert(pos as int, e2)
                        },
                        rm,
                        i as int,
                        j + 1,
                        m,
                    ) by {
                        assert(accs_ok(before, rm, i as int, j as int, agreed(rm)));
                        lemma_fold_step(before, rm, i as int, j as int, pos as int, found, e2, m);
                    }
                }
                proof {
                    if found {
                        assert(e_old == before[pos as int]);
                        lemma_step_found(before, rm, i as int, j as int, pos as int, agreed(rm), e2);
                    } else {
                        lemma_step_new(before, rm, i as int, j as int, pos as int, agreed(rm), e2);
                    }
                }
                acc.insert(pos, a);
                proof {
                    if found {
                        assert(accs_view(acc@) =~= before.update(pos as int, e2));
                    } else {
                        assert(accs_view(acc@) =~= before.insert(pos as int, e2));
                    }
                }
                j = j + 1;
            }
            let ghost ended = accs_view(acc@);
            let mut m: usize = 0;
            while m < acc.len()
                invariant
                    i < rows@.len(),
                    rm[i as int] == row@,
                    m <= acc@.len(),
                    acc@.len() == ended.len(),
                    forall|b: int| 0 <= b < m ==> #[trigger] accs_view(acc@)[b] == (ended[b].0, ended[b].1, ended[b].2 || !has_key(rm[i as int], ended[b].0)),
                    forall|b: int| m <= b < acc@.len() ==> #[trigger] accs_view(acc@)[b] == ended[b],
                decreases acc.len() - m,
            {
                let ghost pre = acc@;
                let ghost pv = accs_view(acc@);
                let absent = row.get(acc[m].name.as_str()).is_none();
                proof {
                    crate::value::lemma_first_key(row@, acc@[m as int].name@);
                    assert(pv[m as int] == ended[m as int]);
                    assert(pv[m as int] == pre[m as int].view());
                    if has_key(rm[i as int], ended[m as int].0) {
                        let t = choose|t: int| 0 <= t < rm[i as int].len() && rm[i as int][t].0 == ended[m as int].0;
                        assert(row@[t].0 == acc@[m as int].name@);
                    }
                    if absent {
                        assert forall|t: int| 0 <= t < rm[i as int].len() implies rm[i as int][t].0 != ended[m as int].0 by {
                            assert(row@[t].0 != acc@[m as int].name@);
                        }
                    }
                }
                if absent {
                    let mut x = acc.remove(m);
                    x.nullable = true;
                    acc.insert(m, x);
                }
                proof {
                    assert(acc@.len() == pre.len());
                    assert forall|b: int| 0 <= b < acc@.len() && b != m implies #[trigger] accs_view(acc@)[b] == pv[b] by {
                        assert(acc@[b] == pre[b]);
                    }
                    assert(accs_view(acc@)[m as int] == acc@[m as int].view());
                    assert(accs_view(acc@)[m as int] == (
                        ended[m as int].0,
                        ended[m as int].1,
                        ended[m as int].2 || !has_key(rm[i as int], ended[m as int].0),
                    ));
                }
                m = m + 1;
            }
            proof {
                lemma_row_end(ended, rm, i as int, agreed(rm));
                assert(accs_view(acc@) =~= ended.map_values(
                    |e: (Seq<char>, Option<TypeModel>, bool)| (e.0, e.1, e.2 || !has_key(rm[i as int], e.0)),
                ));
                let nv = accs_view(acc@);
                assert forall|m: spec_fn(TypeModel, TypeModel) -> Option<TypeModel>| #[trigger] merges_as(*coerce, m)
                    implies accs_fold_rows(nv, rm, i + 1, m) by {
                    assert forall|a: int| 0 <= a < nv.len() implies fold_rows(rm.take(i + 1), #[trigger] nv[a].0, m)
                        == Some::<Option<TypeModel>>(nv[a].1) by {
                        assert(nv[a].0 == ended[a].0 && nv[a].1 == ended[a].1);
                        assert(fold_at(rm, i as int, rm[i as int].len() as int, ended[a].0, m) == Some::<Option<TypeModel>>(
                            ended[a].1,
                        ));
                        lemma_fold_row_end(rm, i as int, ended[a].0, m);
                    }
                }
            }
            i = i + 1;
        }
        let ghost final_view = accs_view(acc@);
        let mut fields: Vec<PyroField> = Vec::new();
        for a in it: acc
            invariant
                it.seq() == acc@,
                final_view == accs_view(acc@),
                fields@.len() == it.index(),
                forall|b: int| 0 <= b < it.index() ==> #[trigger] fields_model(fields@)[b] == field_of(final_view[b]),
        {
            let ghost k = it.index() as int;
            let name = a.name.clone();
            let ghost av = a.view();
            match a.build(name) {
                Ok(f) => {
                    proof {
                        crate::typeable::lemma_fields_model_push(fields@, f);
                        crate::typeable::lemma_fields_model_len(fields@);
                        assert(final_view[k] == av);
                    }
                    fields.push(f);
                },
                Err(e) => {
                    return Err(e);
                },
            }
        }
        proof {
            crate::typeable::lemma_fields_model_len(fields@);
            lemma_accs_final(final_view, rm, fields_model(fields@), agreed(rm));
            let fm = fields_model(fields@);
            assert(rm.take(rm.len() as int) =~= rm);
            assert forall|m: spec_fn(TypeModel, TypeModel) -> Option<TypeModel>| #[trigger] merges_as(*coerce, m)
                implies (forall|a: int| 0 <= a < fm.len() ==> fold_rows(rm, #[trigger] fm[a].name, m) is Some
                && fm[a].data_type == merged_field_type(rm, fm[a].name, m)) && (forall|k: Seq<char>| #[trigger] fold_rows(
                rm,
                k,
                m,
            ) is Some) by {
                assert(accs_fold_rows(final_view, rm, rm.len() as int, m));
                assert forall|a: int| 0 <= a < fm.len() implies fold_rows(rm, #[trigger] fm[a].name, m) is Some
                    && fm[a].data_type == merged_field_type(rm, fm[a].name, m) by {
                    assert(fm[a] == field_of(final_view[a]));
                    assert(fold_rows(rm.take(rm.len() as int), final_view[a].0, m) == Some::<Option<TypeModel>>(
                        final_view[a].1,
                    ));
                }
                assert forall|k: Seq<char>| #[trigger] fold_rows(rm, k, m) is Some by {
                    if named(rm, k) {
                        let a = choose|a: int| 0 <= a < fm.len() && fm[a].name == k;
                        assert(fold_rows(rm, fm[a].name, m) is Some);
                    } else {
                        assert forall|r: int, t: int| at(rm, r, t) implies rm[r][t].0 != k by {
                            if rm[r][t].0 == k {
                                assert(has_key(rm[r], k));
                            }
                        }
                        lemma_fold_rows_absent(rm, k, m);
                    }
                }
            }
        }
        Ok(PyroSchema::new(fields))
    }
}

} // verus!
